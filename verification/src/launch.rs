use vstd::prelude::*;

use crate::platform::Os;
use crate::text::{
    concat_str, join_strings, law_printable_ascii_is_one_word, seq_join, split_whitespace, texts,
    words,
};

verus! {

// ---------------------------------------------------------------------------
// The command line of the game
// ---------------------------------------------------------------------------

/// What the launch arguments are built from besides the memory settings:
/// the system, and the absolute paths of the game's files.
pub struct LaunchContext {
    pub os: Os,
    /// The launcher is a 32-bit program.
    pub target_32bit: bool,
    /// The name of the operating system, as `os_info` reports its type.
    pub os_name: String,
    /// The version of the operating system, as `os_info` reports it.
    pub os_version: String,
    /// The absolute path of the client jar.
    pub game_jar: String,
    /// The absolute path of the logging configuration (`client-1.12.xml`).
    pub log4j_config: String,
    /// The absolute path of the natives directory.
    pub natives_dir: String,
    /// The classpath entries of the libraries, in order.
    pub libraries: Vec<String>,
}

/// `"` + `s` + `"`.
pub open spec fn quoted(s: Seq<char>) -> Seq<char> {
    seq!['"'] + s + seq!['"']
}

/// Each item quoted.
pub open spec fn all_quoted(v: Seq<Seq<char>>) -> Seq<Seq<char>>
    decreases v.len(),
{
    if v.len() == 0 {
        Seq::empty()
    } else {
        all_quoted(v.drop_last()).push(quoted(v.last()))
    }
}

/// The separator of classpath entries: `;` on Windows, `:` elsewhere.
pub open spec fn classpath_separator(os: Os) -> Seq<char> {
    if os == Os::Windows {
        ";"@
    } else {
        ":"@
    }
}

/// The classpath: every library, then the client jar, each quoted, joined
/// by the classpath separator.
pub open spec fn classpath_text(ctx: LaunchContext) -> Seq<char> {
    seq_join(
        all_quoted(texts(ctx.libraries@).push(ctx.game_jar@)),
        classpath_separator(ctx.os),
    )
}

/// The arguments that only a 32-bit launcher on Windows adds.
pub open spec fn stack_args(ctx: LaunchContext) -> Seq<Seq<char>> {
    if ctx.os == Os::Windows && ctx.target_32bit {
        seq!["-Xss1M"@]
    } else {
        Seq::empty()
    }
}

/// The arguments that only Windows adds.
pub open spec fn windows_args(ctx: LaunchContext) -> Seq<Seq<char>> {
    if ctx.os == Os::Windows {
        seq!["-XX:HeapDumpPath=MojangTricksIntelDriversForPerformance_javaw.exe_minecraft.exe.heapdump"@]
    } else {
        Seq::empty()
    }
}

/// The JVM arguments, the classpath and the main class.
pub open spec fn jvm_args(ctx: LaunchContext) -> Seq<Seq<char>> {
    seq![
        "-XX:+UseG1GC"@,
        "-XX:-UseAdaptiveSizePolicy"@,
        "-XX:-OmitStackTraceInFastThrow"@,
        "-Dos.name="@ + ctx.os_name@,
        "-Dos.version="@ + ctx.os_version@,
        "-Dminecraft.launcher.brand=RTLauncher"@,
        "-Dminecraft.launcher.version=0.1.1"@,
        "-Dminecraft.client.jar="@ + ctx.game_jar@,
        "-Dlog4j.configurationFile="@ + ctx.log4j_config@,
        "-Djava.library.path="@ + ctx.natives_dir@,
        "-cp"@,
        classpath_text(ctx),
        "net.minecraft.client.main.Main"@,
    ]
}

/// The arguments the game is started with: the words of the memory settings,
/// then the arguments for the system, then the JVM arguments, the classpath
/// and the main class.
pub open spec fn launch_args(startup_parameter: Seq<char>, ctx: LaunchContext) -> Seq<Seq<char>> {
    words(startup_parameter) + stack_args(ctx) + windows_args(ctx) + jvm_args(ctx)
}

/// Every entry in double quotes.
proof fn lemma_all_quoted(v: Seq<Seq<char>>)
    ensures
        all_quoted(v) == Seq::new(v.len(), |i: int| seq!['"'] + v[i] + seq!['"']),
    decreases v.len(),
{
    if v.len() > 0 {
        lemma_all_quoted(v.drop_last());
    }
    assert(all_quoted(v) =~= Seq::new(v.len(), |i: int| seq!['"'] + v[i] + seq!['"']));
}

/// The launch arguments end with `-cp`, the classpath and the main class.
/// The classpath is every library and then the client jar, each in double
/// quotes, joined with `;` on Windows and with `:` on every other system.
pub proof fn law_classpath_argument(startup_parameter: Seq<char>, ctx: LaunchContext)
    ensures
        launch_args(startup_parameter, ctx).len() >= 3,
        launch_args(startup_parameter, ctx)[launch_args(startup_parameter, ctx).len() - 3]
            == "-cp"@,
        launch_args(startup_parameter, ctx).last() == "net.minecraft.client.main.Main"@,
        launch_args(startup_parameter, ctx)[launch_args(startup_parameter, ctx).len() - 2]
            == seq_join(
            Seq::new(
                ctx.libraries@.len() + 1,
                |i: int|
                    seq!['"'] + texts(ctx.libraries@).push(ctx.game_jar@)[i] + seq!['"'],
            ),
            if ctx.os == Os::Windows {
                ";"@
            } else {
                ":"@
            },
        ),
{
    let a = launch_args(startup_parameter, ctx);
    let e = texts(ctx.libraries@).push(ctx.game_jar@);
    lemma_all_quoted(e);
    assert(all_quoted(e) =~= Seq::new(
        ctx.libraries@.len() + 1,
        |i: int| seq!['"'] + texts(ctx.libraries@).push(ctx.game_jar@)[i] + seq!['"'],
    ));
    let pre = words(startup_parameter) + stack_args(ctx) + windows_args(ctx);
    assert(a == pre + jvm_args(ctx));
    assert(a[a.len() - 1] == jvm_args(ctx)[12]);
    assert(a[a.len() - 2] == jvm_args(ctx)[11]);
    assert(a[a.len() - 3] == jvm_args(ctx)[10]);
}

/// Two launches that differ only in the system, neither of them Windows,
/// get the same arguments: macOS, Linux and other systems are launched
/// alike.
pub proof fn law_same_args_off_windows(
    startup_parameter: Seq<char>,
    a: LaunchContext,
    b: LaunchContext,
)
    requires
        a.os != Os::Windows,
        b.os != Os::Windows,
        a.target_32bit == b.target_32bit,
        a.os_name@ == b.os_name@,
        a.os_version@ == b.os_version@,
        a.game_jar@ == b.game_jar@,
        a.log4j_config@ == b.log4j_config@,
        a.natives_dir@ == b.natives_dir@,
        texts(a.libraries@) == texts(b.libraries@),
    ensures
        launch_args(startup_parameter, a) == launch_args(startup_parameter, b),
{
    let ea = texts(a.libraries@).push(a.game_jar@);
    let eb = texts(b.libraries@).push(b.game_jar@);
    assert(ea =~= eb);
    lemma_all_quoted(ea);
    lemma_all_quoted(eb);
    assert(classpath_text(a) == seq_join(all_quoted(ea), ":"@));
    assert(classpath_text(b) == seq_join(all_quoted(eb), ":"@));
    assert(jvm_args(a) =~= jvm_args(b));
    assert(stack_args(a) =~= stack_args(b));
    assert(windows_args(a) =~= windows_args(b));
}

/// A memory setting of printable ASCII characters (U+0021 to U+007E), such
/// as `-Xmx4G`, is the first launch argument, whole.
pub proof fn law_memory_setting_kept_whole(startup_parameter: Seq<char>, ctx: LaunchContext)
    requires
        startup_parameter.len() > 0,
        forall|i: int|
            0 <= i < startup_parameter.len() ==> 0x21 <= (#[trigger] startup_parameter[i] as u32)
                <= 0x7E,
    ensures
        launch_args(startup_parameter, ctx)[0] == startup_parameter,
{
    law_printable_ascii_is_one_word(startup_parameter);
}

/// The classpath argument.
fn build_classpath(ctx: &LaunchContext) -> (cp: String)
    ensures
        cp@ == classpath_text(*ctx),
{
    let mut entries: Vec<String> = Vec::new();
    let ghost all = texts(ctx.libraries@).push(ctx.game_jar@);
    let mut i: usize = 0;
    while i < ctx.libraries.len()
        invariant
            i <= ctx.libraries@.len(),
            all == texts(ctx.libraries@).push(ctx.game_jar@),
            texts(entries@) == all_quoted(all.take(i as int)),
        decreases ctx.libraries@.len() - i,
    {
        let q1 = concat_str("\"", ctx.libraries[i].as_str());
        let q = concat_str(q1.as_str(), "\"");
        proof {
            reveal_strlit("\"");
            assert("\""@ =~= seq!['"']);
        }
        let ghost before = texts(entries@);
        entries.push(q);
        assert(all.take(i + 1).drop_last() =~= all.take(i as int));
        assert(all.take(i + 1).last() == ctx.libraries@[i as int]@);
        assert(texts(entries@) =~= before.push(quoted(ctx.libraries@[i as int]@)));
        i = i + 1;
    }
    let q1 = concat_str("\"", ctx.game_jar.as_str());
    let q = concat_str(q1.as_str(), "\"");
    proof {
        reveal_strlit("\"");
        assert("\""@ =~= seq!['"']);
    }
    let ghost before = texts(entries@);
    entries.push(q);
    assert(all.take(i as int) =~= texts(ctx.libraries@));
    assert(all.take(i + 1) =~= all);
    assert(all.drop_last() =~= texts(ctx.libraries@));
    assert(texts(entries@) =~= before.push(quoted(ctx.game_jar@)));
    assert(texts(entries@) == all_quoted(all));
    if ctx.os == Os::Windows {
        join_strings(&entries, ";")
    } else {
        join_strings(&entries, ":")
    }
}

pub struct StartGame {
    pub java_path: String,
    pub launch_args: Vec<String>,
}

impl StartGame {
    /// The game, started by the Java executable `java_path` with memory
    /// settings `startup_parameter`.
    pub fn new(java_path: String, startup_parameter: &str, ctx: &LaunchContext) -> (g: StartGame)
        ensures
            g.java_path == java_path,
            texts(g.launch_args@) == launch_args(startup_parameter@, *ctx),
    {
        let launch_args = Self::load_launch_args(startup_parameter, ctx);
        StartGame { java_path, launch_args }
    }

    /// The arguments the game is started with (see `launch_args`).
    pub fn load_launch_args(startup_parameter: &str, ctx: &LaunchContext) -> (args: Vec<String>)
        ensures
            texts(args@) == launch_args(startup_parameter@, *ctx),
    {
        let libraries_path = build_classpath(ctx);
        // the memory settings, split into words
        let mut args = split_whitespace(startup_parameter);
        let ghost memory = texts(args@);
        if ctx.os == Os::Windows && ctx.target_32bit {
            args.push(String::from_str("-Xss1M"));
        }
        let ghost with_stack = texts(args@);
        assert(with_stack =~= memory + stack_args(*ctx));
        if ctx.os == Os::Windows {
            args.push(
                String::from_str(
                    "-XX:HeapDumpPath=MojangTricksIntelDriversForPerformance_javaw.exe_minecraft.exe.heapdump",
                ),
            );
        }
        let ghost with_windows = texts(args@);
        assert(with_windows =~= with_stack + windows_args(*ctx));
        args.push(String::from_str("-XX:+UseG1GC"));
        args.push(String::from_str("-XX:-UseAdaptiveSizePolicy"));
        args.push(String::from_str("-XX:-OmitStackTraceInFastThrow"));
        args.push(concat_str("-Dos.name=", ctx.os_name.as_str()));
        args.push(concat_str("-Dos.version=", ctx.os_version.as_str()));
        args.push(String::from_str("-Dminecraft.launcher.brand=RTLauncher"));
        args.push(String::from_str("-Dminecraft.launcher.version=0.1.1"));
        args.push(concat_str("-Dminecraft.client.jar=", ctx.game_jar.as_str()));
        args.push(concat_str("-Dlog4j.configurationFile=", ctx.log4j_config.as_str()));
        args.push(concat_str("-Djava.library.path=", ctx.natives_dir.as_str()));
        args.push(String::from_str("-cp"));
        args.push(libraries_path);
        args.push(String::from_str("net.minecraft.client.main.Main"));
        assert(texts(args@) =~= with_windows + jvm_args(*ctx));
        args
    }

    /// The program and the arguments that start the game on `os`, or the
    /// error reported on a system the launcher does not support.
    pub fn start_command(&self, os: Os) -> (r: Result<(String, Vec<String>), String>)
        ensures
            match r {
                Ok((program, args)) => os != Os::Other && program == self.java_path && args@
                    == self.launch_args@,
                Err(e) => os == Os::Other && e@ == "不支持的操作系统"@,
            },
    {
        match os {
            Os::Other => Err(String::from_str("不支持的操作系统")),
            _ => {
                let args = self.launch_args.clone();
                assert(args@ =~= self.launch_args@);
                Ok((self.java_path.clone(), args))
            },
        }
    }

    /// The text of a batch file that starts the game: the Java executable,
    /// quoted, and the arguments separated by spaces, between `@echo off` and
    /// `pause`, each line ended by CR LF.
    pub fn bat_script(&self) -> (b: String)
        ensures
            b@ == "@echo off\r\n\""@ + self.java_path@ + "\" "@ + seq_join(
                texts(self.launch_args@),
                " "@,
            ) + "\r\npause\r\n"@,
    {
        let joined = join_strings(&self.launch_args, " ");
        let a = concat_str("@echo off\r\n\"", self.java_path.as_str());
        let b = concat_str(a.as_str(), "\" ");
        let c = concat_str(b.as_str(), joined.as_str());
        concat_str(c.as_str(), "\r\npause\r\n")
    }
}

/// What a finished game printed, as the launcher reports it.
pub fn game_output(stdout: &str, stderr: &str) -> (r: String)
    ensures
        r@ == "标准输出:\n"@ + stdout@ + "\n错误输出:\n"@ + stderr@,
{
    let a = concat_str("标准输出:\n", stdout);
    let b = concat_str(a.as_str(), "\n错误输出:\n");
    concat_str(b.as_str(), stderr)
}

/// The message reported when the game could not be started.
pub fn launch_failure(error: &str) -> (r: String)
    ensures
        r@ == "游戏启动失败: "@ + error@,
{
    concat_str("游戏启动失败: ", error)
}

} // verus!
