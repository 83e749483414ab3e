use rtlauncher::path_syntax::{file_name_of, join};
use rtlauncher::paths::{
    get_game_jar_path, is_jar, natives_extract_dir_of, plan_entry, EntryAction, FoundFile,
    MinecraftPaths,
};
use std::path::Path;
use rtlauncher::platform::Os;

fn s(x: &str) -> String {
    x.to_string()
}

#[test]
fn os_names() {
    assert_eq!(Os::from_name("windows"), Os::Windows);
    assert_eq!(Os::from_name("macos"), Os::MacOs);
    assert_eq!(Os::from_name("linux"), Os::Linux);
    assert_eq!(Os::from_name("freebsd"), Os::Other);
    assert_eq!(Os::from_name(""), Os::Other);
}

#[test]
fn join_relative_parts() {
    assert_eq!(join(Os::Linux, "/usr", "lib"), "/usr/lib");
    assert_eq!(join(Os::Linux, "/usr/", "lib"), "/usr/lib");
    assert_eq!(join(Os::Linux, "", "lib"), "lib");
    assert_eq!(join(Os::Windows, "C:\\Games", "mc"), "C:\\Games\\mc");
    assert_eq!(join(Os::Windows, "C:\\Games/", "mc"), "C:\\Games/mc");
    assert_eq!(join(Os::Windows, "C:", "mc"), "C:mc");
    // a backslash is no separator outside Windows
    assert_eq!(join(Os::Linux, "D:\\Desktop", "x"), "D:\\Desktop/x");
}

#[test]
fn join_absolute_parts() {
    assert_eq!(join(Os::Linux, "/usr", "/etc"), "/etc");
    assert_eq!(join(Os::Windows, "C:\\Games", "D:\\x"), "D:\\x");
    assert_eq!(join(Os::Windows, "C:\\Games", "D:x"), "D:x");
    assert_eq!(join(Os::Windows, "C:\\Games", "\\\\server\\share"), "\\\\server\\share");
    // a rooted part keeps the drive of the base
    assert_eq!(join(Os::Windows, "C:\\Games", "\\x"), "C:\\x");
    assert_eq!(join(Os::Windows, "Games", "\\x"), "\\x");
    // a rooted part keeps the whole network-share prefix of the base
    assert_eq!(join(Os::Windows, "\\\\srv\\share\\dir", "\\x"), "\\\\srv\\share\\x");
    // two separators without a share name are no prefix: the part is rooted
    assert_eq!(join(Os::Windows, "C:\\Games", "\\\\srv"), "C:\\\\srv");
    assert_eq!(join(Os::Windows, "C:\\Games", "\\\\?\\D:\\x"), "\\\\?\\D:\\x");
}

#[test]
fn join_agrees_with_std_on_this_system() {
    let cases = [
        ("/usr", "lib"),
        ("/usr/", "lib"),
        ("", "lib"),
        ("/usr", "/etc"),
        ("a/b/.", "c"),
        ("D:\\Desktop\\.minecraft", "version"),
        ("x", ""),
    ];
    for (base, part) in cases {
        let expected = Path::new(base).join(part).to_string_lossy().into_owned();
        assert_eq!(join(Os::Linux, base, part), expected, "{} + {}", base, part);
    }
}

#[test]
fn default_paths_windows() {
    let p = MinecraftPaths::new(Os::Windows);
    assert_eq!(p.base_dir, "D:\\Desktop\\.minecraft");
    assert_eq!(p.versions_dir, "D:\\Desktop\\.minecraft\\version");
    assert_eq!(p.libraries_dir, "D:\\Desktop\\.minecraft\\libraries");
    assert_eq!(p.assets_dir, "D:\\Desktop\\.minecraft\\assets");
    assert_eq!(p.get_version_dir("1.20.1"), "D:\\Desktop\\.minecraft\\version\\1.20.1");
    assert_eq!(
        p.get_natives_dir("1.20.1"),
        "D:\\Desktop\\.minecraft\\version\\1.20.1\\1.20.1-natives"
    );
}

#[test]
fn default_paths_linux() {
    let p = MinecraftPaths::new(Os::Linux);
    assert_eq!(p.base_dir, "D:\\Desktop\\.minecraft");
    assert_eq!(p.versions_dir, "D:\\Desktop\\.minecraft/version");
    assert_eq!(p.get_version_dir("1.8.9"), "D:\\Desktop\\.minecraft/version/1.8.9");
    assert_eq!(
        p.get_natives_dir("1.8.9"),
        "D:\\Desktop\\.minecraft/version/1.8.9/1.8.9-natives"
    );
}

#[test]
fn game_jar_path() {
    assert_eq!(
        get_game_jar_path(Os::Windows, "1.12.2"),
        "D:\\Desktop\\.minecraft\\version\\1.12.2\\1.12.2.jar"
    );
    assert_eq!(
        get_game_jar_path(Os::MacOs, "1.12.2"),
        "D:\\Desktop\\.minecraft/version/1.12.2/1.12.2.jar"
    );
}

#[test]
fn absolute_path_strips_verbatim_prefix() {
    let p = MinecraftPaths::new(Os::Windows);
    assert_eq!(p.get_absolute_path(Some(s("\\\\?\\D:\\x\\y.jar"))), "D:\\x\\y.jar");
    assert_eq!(p.get_absolute_path(Some(s("\\\\?\\\\\\?\\D:\\x"))), "D:\\x");
    assert_eq!(p.get_absolute_path(Some(s("/home/a.jar"))), "/home/a.jar");
    assert_eq!(p.get_absolute_path(None), "");
    // taking the prefix off again changes nothing
    let once = p.get_absolute_path(Some(s("\\\\?\\C:\\a")));
    assert_eq!(p.get_absolute_path(Some(once.clone())), once);
}

#[test]
fn file_names_and_jars() {
    assert_eq!(file_name_of(Os::Linux, "/a/b.jar"), Some(s("b.jar")));
    assert_eq!(file_name_of(Os::Linux, "/a/b/"), Some(s("b")));
    assert_eq!(file_name_of(Os::Linux, "/a/.."), None);
    assert_eq!(file_name_of(Os::Linux, "/a/b/."), Some(s("b")));
    assert_eq!(file_name_of(Os::Linux, "/a/b/./"), Some(s("b")));
    assert_eq!(file_name_of(Os::Linux, "."), None);
    assert_eq!(file_name_of(Os::Windows, "\\\\srv\\share"), None);
    assert_eq!(file_name_of(Os::Windows, "\\\\?\\C:\\a\\."), None);
    for p in ["/a/b.jar", "/a/b/", "/a/..", "/", "a/./b/.", ".", "./x", "x/..", "/./", "a//b//"] {
        let expected = Path::new(p).file_name().map(|n| n.to_string_lossy().into_owned());
        assert_eq!(file_name_of(Os::Linux, p), expected, "{}", p);
    }
    assert_eq!(file_name_of(Os::Linux, "/"), None);
    assert_eq!(file_name_of(Os::Windows, "C:\\x\\y.jar"), Some(s("y.jar")));
    assert_eq!(file_name_of(Os::Linux, "C:\\x\\y.jar"), Some(s("C:\\x\\y.jar")));
    assert!(is_jar(Os::Linux, "/libs/a-1.0.jar"));
    assert!(is_jar(Os::Windows, "C:\\libs\\a.jar"));
    assert!(!is_jar(Os::Linux, "/libs/a.JAR"));
    assert!(!is_jar(Os::Linux, "/libs/.jar"));
    assert!(!is_jar(Os::Linux, "/libs/a.jar.sha1"));
    assert!(!is_jar(Os::Linux, "/libs/jar"));
}

#[test]
fn libraries_classpath_keeps_jars_in_order() {
    let p = MinecraftPaths::new(Os::Linux);
    let found = vec![
        FoundFile { path: s("/l"), resolved: Some(s("/l")) },
        FoundFile { path: s("/l/b.jar"), resolved: Some(s("/real/b.jar")) },
        FoundFile { path: s("/l/b.jar.sha1"), resolved: Some(s("/real/b.jar.sha1")) },
        FoundFile { path: s("/l/a.jar"), resolved: None },
        FoundFile { path: s("/l/c.jar"), resolved: Some(s("\\\\?\\C:\\c.jar")) },
    ];
    assert_eq!(
        p.get_libraries_classpath(&found),
        vec![s("/real/b.jar"), s(""), s("C:\\c.jar")]
    );
    assert_eq!(p.get_libraries_classpath(&vec![]), Vec::<String>::new());
}

#[test]
fn natives_extract_dir() {
    assert_eq!(
        natives_extract_dir_of(Os::Linux, "1.8.9"),
        ".minecraft/version/1.8.9/1.8.9-natives"
    );
    assert_eq!(
        natives_extract_dir_of(Os::Windows, "1.8.9"),
        ".minecraft\\version\\1.8.9\\1.8.9-natives"
    );
}

#[test]
fn zip_entries() {
    match plan_entry(Os::Linux, "/n", "META-INF/") {
        EntryAction::CreateDir(p) => assert_eq!(p, "/n/META-INF/"),
        EntryAction::WriteFile(_) => panic!("a directory entry"),
    }
    match plan_entry(Os::Linux, "/n", "lwjgl.so") {
        EntryAction::WriteFile(p) => assert_eq!(p, "/n/lwjgl.so"),
        EntryAction::CreateDir(_) => panic!("a file entry"),
    }
    match plan_entry(Os::Windows, "C:\\n", "x/y.dll") {
        EntryAction::WriteFile(p) => assert_eq!(p, "C:\\n\\x/y.dll"),
        EntryAction::CreateDir(_) => panic!("a file entry"),
    }
}

#[test]
fn version_dirs_nest() {
    let p = MinecraftPaths::new(Os::Windows);
    let v = p.get_version_dir("1.20");
    let n = p.get_natives_dir("1.20");
    assert!(v.starts_with(&p.versions_dir));
    assert!(n.starts_with(&v));
    assert!(n.ends_with("1.20-natives"));
}

#[test]
fn join_onto_verbatim_paths() {
    let w = Os::Windows;
    assert_eq!(join(w, r"\\?\C:\a", ".."), r"\\?\C:\");
    assert_eq!(join(w, r"\\?\C:\a\b", r"..\c"), r"\\?\C:\a\c");
    assert_eq!(join(w, r"\\?\C:\a", r".\b\.\c"), r"\\?\C:\a\b\c");
    assert_eq!(join(w, r"\\?\C:\a", "b/c"), r"\\?\C:\a\b\c");
    assert_eq!(join(w, r"\\?\C:\a", r"\x"), r"\\?\C:\x");
    assert_eq!(join(w, r"\\?\C:", "b"), r"\\?\C:\b");
    assert_eq!(join(w, r"\\?\C:\a\\", "b"), r"\\?\C:\a\b");
    assert_eq!(join(w, r"\\?\C:\..", ".."), r"\\?\C:\..");
    assert_eq!(join(w, r"\\?\UNC\srv\share", "x"), r"\\?\UNC\srv\share\x");
    assert_eq!(join(w, r"\\?\C:\a", ""), r"\\?\C:\a\");
    assert_eq!(join(w, r"\\?\C:\a", r"D:\x"), r"D:\x");
}

#[test]
fn natives_dirs_meet_on_a_verbatim_base() {
    let mut p = MinecraftPaths::new(Os::Windows);
    p.versions_dir = r"\\?\C:\v".to_string();
    assert_eq!(p.get_natives_dir("x"), r"\\?\C:\v\x\x-natives");
    assert_eq!(p.get_natives_dir(r"y\..\x"), r"\\?\C:\v\x\x-natives");
}
