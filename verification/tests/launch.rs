use rtlauncher::launch::{game_output, launch_failure, LaunchContext, StartGame};
use rtlauncher::platform::Os;
use rtlauncher::request::Request;
use rtlauncher::text::{
    contains_str, join_strings, lines_of, second_piece_of, split_whitespace, trim_char_str,
    trim_str,
};

fn s(x: &str) -> String {
    x.to_string()
}

fn v(xs: &[&str]) -> Vec<String> {
    xs.iter().map(|x| x.to_string()).collect()
}

fn context(os: Os, target_32bit: bool) -> LaunchContext {
    LaunchContext {
        os,
        target_32bit,
        os_name: s("Windows"),
        os_version: s("10.0.19045"),
        game_jar: s("D:\\mc\\1.12.2.jar"),
        log4j_config: s("D:\\mc\\client-1.12.xml"),
        natives_dir: s("D:\\mc\\1.12.2-natives"),
        libraries: v(&["D:\\lib\\a.jar", "D:\\lib\\b.jar"]),
    }
}

#[test]
fn launch_args_windows_32bit() {
    let args = StartGame::load_launch_args(" -Xmx2G\t -Xms512M ", &context(Os::Windows, true));
    assert_eq!(
        args,
        v(&[
            "-Xmx2G",
            "-Xms512M",
            "-Xss1M",
            "-XX:HeapDumpPath=MojangTricksIntelDriversForPerformance_javaw.exe_minecraft.exe.heapdump",
            "-XX:+UseG1GC",
            "-XX:-UseAdaptiveSizePolicy",
            "-XX:-OmitStackTraceInFastThrow",
            "-Dos.name=Windows",
            "-Dos.version=10.0.19045",
            "-Dminecraft.launcher.brand=RTLauncher",
            "-Dminecraft.launcher.version=0.1.1",
            "-Dminecraft.client.jar=D:\\mc\\1.12.2.jar",
            "-Dlog4j.configurationFile=D:\\mc\\client-1.12.xml",
            "-Djava.library.path=D:\\mc\\1.12.2-natives",
            "-cp",
            "\"D:\\lib\\a.jar\";\"D:\\lib\\b.jar\";\"D:\\mc\\1.12.2.jar\"",
            "net.minecraft.client.main.Main",
        ])
    );
}

#[test]
fn launch_args_linux() {
    let mut ctx = context(Os::Linux, true);
    ctx.libraries = vec![];
    let args = StartGame::load_launch_args("", &ctx);
    assert_eq!(args.len(), 13);
    assert_eq!(args[0], "-XX:+UseG1GC");
    assert_eq!(args[11], "\"D:\\mc\\1.12.2.jar\"");
    let mut ctx = context(Os::Linux, false);
    ctx.libraries = v(&["/a.jar"]);
    let args = StartGame::load_launch_args("-Xmx1G", &ctx);
    assert_eq!(args[0], "-Xmx1G");
    assert_eq!(args[1], "-XX:+UseG1GC");
    assert_eq!(args[12], "\"/a.jar\":\"D:\\mc\\1.12.2.jar\"");
}

#[test]
fn start_game_and_scripts() {
    let g = StartGame::new(s("C:\\jdk\\bin\\javaw.exe"), "-Xmx2G", &context(Os::Windows, false));
    assert_eq!(g.java_path, "C:\\jdk\\bin\\javaw.exe");
    assert_eq!(g.launch_args[0], "-Xmx2G");
    assert_eq!(g.launch_args[1], "-XX:HeapDumpPath=MojangTricksIntelDriversForPerformance_javaw.exe_minecraft.exe.heapdump");
    let (program, args) = g.start_command(Os::Windows).unwrap();
    assert_eq!(program, g.java_path);
    assert_eq!(args, g.launch_args);
    assert!(g.start_command(Os::Linux).is_ok());
    assert_eq!(g.start_command(Os::Other), Err(s("不支持的操作系统")));
    let small = StartGame { java_path: s("java"), launch_args: v(&["-Xmx1G", "Main"]) };
    assert_eq!(small.bat_script(), "@echo off\r\n\"java\" -Xmx1G Main\r\npause\r\n");
    let none = StartGame { java_path: s(""), launch_args: vec![] };
    assert_eq!(none.bat_script(), "@echo off\r\n\"\" \r\npause\r\n");
}

#[test]
fn messages() {
    assert_eq!(game_output("out", "err"), "标准输出:\nout\n错误输出:\nerr");
    assert_eq!(launch_failure("boom"), "游戏启动失败: boom");
}

#[test]
fn words_of_text() {
    assert_eq!(split_whitespace("  a b\t\tc\n"), v(&["a", "b", "c"]));
    assert_eq!(split_whitespace(""), Vec::<String>::new());
    assert_eq!(split_whitespace(" \u{3000} "), Vec::<String>::new());
    assert_eq!(split_whitespace("x\u{a0}y"), v(&["x", "y"]));
    let text = " -Xmx2G  -Xms1G\t-XX:+A ";
    let w = split_whitespace(text);
    assert_eq!(w, text.split_whitespace().map(|x| x.to_string()).collect::<Vec<_>>());
    // splitting the spaced words again gives the same words
    assert_eq!(split_whitespace(&join_strings(&w, " ")), w);
}

#[test]
fn joining() {
    assert_eq!(join_strings(&v(&["a", "b", "c"]), ", "), "a, b, c");
    assert_eq!(join_strings(&v(&["a"]), ";"), "a");
    assert_eq!(join_strings(&vec![], ";"), "");
}

#[test]
fn searching_text() {
    assert!(contains_str("openjdk version \"17.0.2\"", "17"));
    assert!(!contains_str("1.8", "17"));
    assert!(contains_str("abc", ""));
    assert!(!contains_str("", "a"));
}

#[test]
fn lines_of_text() {
    assert_eq!(lines_of("a\r\nb\nc"), v(&["a", "b", "c"]));
    assert_eq!(lines_of("a\n\nb\n"), v(&["a", "", "b"]));
    assert_eq!(lines_of("a\rb\r"), v(&["a\rb\r"]));
    assert_eq!(lines_of(""), Vec::<String>::new());
    assert_eq!(lines_of("\n"), v(&[""]));
    let t = "x\r\ny\n\rz\r";
    assert_eq!(lines_of(t), t.lines().map(|l| l.to_string()).collect::<Vec<_>>());
}

#[test]
fn trimming() {
    assert_eq!(trim_str("  a b \n"), "a b");
    assert_eq!(trim_str("   "), "");
    assert_eq!(trim_char_str("\"\"x\"", '"'), "x");
    assert_eq!(trim_char_str("\"\"", '"'), "");
}

#[test]
fn second_pieces() {
    assert_eq!(second_piece_of("a at b at c", "at "), Some(s("b ")));
    assert_eq!(second_piece_of("a at b", "at "), Some(s("b")));
    assert_eq!(second_piece_of("at ", "at "), Some(s("")));
    assert_eq!(second_piece_of("nothing", "at "), None);
}

#[test]
fn request_url() {
    let r = Request::new(s("https://example.com/v.json"));
    assert_eq!(r.get_url(), "https://example.com/v.json");
    let c = r.clone();
    assert_eq!(c.get_url(), r.get_url());
}
