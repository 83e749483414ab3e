use rtlauncher::java::{
    java_candidates_of, java_dir_name_matches, java_executable_of, java_homes_from_listing,
    java_listing_for, java_search_roots_of, lowered_java_dir_name, merge_java_paths, JavaSelector,
    JavaStep, JAVA_SEARCH_FOLLOWS_LINKS, JAVA_SEARCH_MAX_DEPTH,
};
use rtlauncher::platform::Os;
use std::path::Path;

fn s(x: &str) -> String {
    x.to_string()
}

fn v(xs: &[&str]) -> Vec<String> {
    xs.iter().map(|x| x.to_string()).collect()
}

#[test]
fn merge_sorts_and_removes_repeats() {
    let r = merge_java_paths(
        Some(s("/usr/lib/jvm/b")),
        v(&["/usr/lib/jvm/c", "/usr/lib/jvm/a", "/usr/lib/jvm/b", "/usr/lib/jvm/a"]),
    );
    assert_eq!(r, v(&["/usr/lib/jvm/a", "/usr/lib/jvm/b", "/usr/lib/jvm/c"]));
    assert_eq!(merge_java_paths(None, vec![]), Vec::<String>::new());
    assert_eq!(merge_java_paths(Some(s("x")), vec![]), v(&["x"]));
}

#[test]
fn merge_orders_as_strings_do() {
    let input = v(&["b", "B", "a", "ab", "", "é", "z", "a"]);
    let mut expected = input.clone();
    expected.sort();
    expected.dedup();
    assert_eq!(merge_java_paths(None, input), expected);
}

#[test]
fn merging_a_merged_list_changes_nothing() {
    let once = merge_java_paths(None, v(&["c", "a", "c", "b"]));
    let twice = merge_java_paths(None, once.clone());
    assert_eq!(once, twice);
    let other_order = merge_java_paths(Some(s("b")), v(&["a", "c"]));
    assert_eq!(once, other_order);
}

#[test]
fn candidates_per_system() {
    assert_eq!(
        java_candidates_of(Os::Windows, "C:\\jdk"),
        v(&["C:\\jdk\\bin\\javaw.exe", "C:\\jdk\\javaw.exe", "C:\\jdk\\javapath\\javaw.exe"])
    );
    assert_eq!(java_candidates_of(Os::Linux, "/jdk"), v(&["/jdk/bin/java", "/jdk/java"]));
    assert_eq!(java_candidates_of(Os::MacOs, "/jdk"), v(&["/jdk/bin/java", "/jdk/java"]));
}

fn run(sel: &mut JavaSelector, outputs: &[Option<&str>]) -> (Vec<String>, String) {
    let mut probed = Vec::new();
    let mut k = 0;
    loop {
        match sel.next_step() {
            JavaStep::Probe(c) => {
                probed.push(c);
                let out = outputs[k].map(|o| o.to_string());
                k += 1;
                sel.observe(out);
            }
            JavaStep::Finished(p) => return (probed, p),
        }
    }
}

#[test]
fn selector_picks_first_match() {
    let homes = v(&["/a", "/b"]);
    let mut sel = JavaSelector::new(Os::Linux, &homes, "17");
    let (probed, chosen) = run(
        &mut sel,
        &[None, Some("java version \"1.8.0\""), Some("openjdk version \"17.0.2\"")],
    );
    assert_eq!(probed, v(&["/a/bin/java", "/a/java", "/b/bin/java"]));
    assert_eq!(chosen, "/b/bin/java");
}

#[test]
fn selector_gives_empty_when_nothing_matches() {
    let homes = v(&["C:\\j"]);
    let mut sel = JavaSelector::new(Os::Windows, &homes, "21");
    let (probed, chosen) = run(&mut sel, &[Some("17"), None, Some("1.8")]);
    assert_eq!(probed.len(), 3);
    assert_eq!(chosen, "");
    let mut empty = JavaSelector::new(Os::Linux, &vec![], "17");
    assert_eq!(run(&mut empty, &[]), (vec![], s("")));
}

#[test]
fn selector_with_empty_version_takes_first_runnable() {
    let homes = v(&["/a"]);
    let mut sel = JavaSelector::new(Os::Linux, &homes, "");
    let (probed, chosen) = run(&mut sel, &[None, Some("")]);
    assert_eq!(probed, v(&["/a/bin/java", "/a/java"]));
    assert_eq!(chosen, "/a/java");
}

#[test]
fn listing_commands() {
    let w = java_listing_for(Os::Windows).unwrap();
    assert_eq!(w.program, "where");
    assert_eq!(w.args, v(&["java"]));
    assert!(!w.from_stderr && !w.must_exist);
    let m = java_listing_for(Os::MacOs).unwrap();
    assert_eq!(m.program, "/usr/libexec/java_home");
    assert_eq!(m.args, v(&["-V"]));
    assert!(m.from_stderr && m.must_exist);
    let l = java_listing_for(Os::Linux).unwrap();
    assert_eq!(l.program, "update-alternatives");
    assert_eq!(l.args, v(&["--list", "java"]));
    assert!(java_listing_for(Os::Other).is_none());
}

#[test]
fn homes_from_where_output() {
    let out = "C:\\Program Files\\Java\\jdk-17\\bin\\java.exe\r\nC:\\Windows\\java.exe\r\n";
    assert_eq!(
        java_homes_from_listing(Os::Windows, out),
        v(&["C:\\Program Files\\Java\\jdk-17", "C:\\"])
    );
}

#[test]
fn homes_from_where_output_on_shares() {
    // a share prefix is no component: the executable at the share's root has no home
    assert_eq!(java_homes_from_listing(Os::Windows, "\\\\server\\share\\java.exe\r\n"), Vec::<String>::new());
    assert_eq!(
        java_homes_from_listing(Os::Windows, "\\\\server\\share\\jdk\\bin\\java.exe\r\n"),
        v(&["\\\\server\\share\\jdk"])
    );
    assert_eq!(java_homes_from_listing(Os::Windows, "C:\\jdk\\bin\\java.exe\\.\r\n"), v(&["C:\\jdk"]));
}

#[test]
fn homes_from_update_alternatives() {
    let out = "/usr/lib/jvm/java-17-openjdk-amd64/bin/java\n/usr/lib/jvm/java-8/jre/bin/java\njava\n";
    assert_eq!(
        java_homes_from_listing(Os::Linux, out),
        v(&["/usr/lib/jvm/java-17-openjdk-amd64", "/usr/lib/jvm/java-8/jre"])
    );
    assert_eq!(java_homes_from_listing(Os::Linux, "bin/java\n"), v(&[""]));
    assert_eq!(java_homes_from_listing(Os::Linux, ""), Vec::<String>::new());
    assert_eq!(java_homes_from_listing(Os::Other, "/a/bin/java"), Vec::<String>::new());
}

#[test]
fn homes_from_java_home_tool() {
    let out = "Matching Java Virtual Machines (2):\n    17.0.2 (arm64) \"Oracle\" - \"Java SE 17\" at \"/Library/Java/JavaVirtualMachines/jdk-17.jdk/Contents/Home\"\n    1.8 \"Apple\" - \"Java SE 8\" at /System/J at x\nno match at here\n";
    assert_eq!(
        java_homes_from_listing(Os::MacOs, out),
        v(&["/Library/Java/JavaVirtualMachines/jdk-17.jdk/Contents/Home", "/System/J"])
    );
}

#[test]
fn search_roots() {
    assert_eq!(java_search_roots_of(Os::Linux), v(&["/usr/lib/jvm", "/usr/java", "/opt/java", "/usr/local/java"]));
    assert_eq!(java_search_roots_of(Os::Windows).len(), 5);
    assert_eq!(java_search_roots_of(Os::MacOs)[0], "/Library/Java/JavaVirtualMachines");
    assert!(java_search_roots_of(Os::Other).is_empty());
}

#[test]
fn search_bounds() {
    assert_eq!(JAVA_SEARCH_MAX_DEPTH, 3);
    assert!(JAVA_SEARCH_FOLLOWS_LINKS);
}

#[test]
fn java_dir_names() {
    assert!(java_dir_name_matches("jdk-17.0.2"));
    assert!(java_dir_name_matches("Java"));
    assert!(java_dir_name_matches("OpenJRE8"));
    assert!(!java_dir_name_matches(".java"));
    assert!(!java_dir_name_matches("jvm"));
    assert!(!java_dir_name_matches(""));
    // the Kelvin sign lower-cases to an ASCII k
    assert!(java_dir_name_matches("JD\u{212A}"));
    assert!(lowered_java_dir_name("my-jdk"));
    assert!(!lowered_java_dir_name("MY-JDK"));
}

#[test]
fn java_executables() {
    assert_eq!(java_executable_of(Os::Windows, "C:\\jdk"), "C:\\jdk\\bin\\java.exe");
    assert_eq!(java_executable_of(Os::Linux, "/jdk"), "/jdk/bin/java");
}

#[test]
fn listing_homes_agree_with_std_parents() {
    let inputs = [
        "/usr/lib/jvm/java-17/bin/java",
        "/usr/bin/java",
        "/java",
        "//opt/jdk/bin//java",
        "/opt/jdk/bin/java/",
        "rel/bin/java",
        "bin/java",
        "a b/c d/e f",
        "/opt/jdk/bin/java/.",
        "/opt/./jdk/./bin/java",
        "./bin/java",
        "./java",
        "/usr/lib/../bin/java",
        "/././java",
        ".",
        "",
        "/",
        "jdk/bin/./java//",
    ];
    for input in inputs {
        let expected: Vec<String> = Path::new(input)
            .parent()
            .and_then(|p| p.parent())
            .map(|p| p.to_string_lossy().into_owned())
            .into_iter()
            .collect();
        assert_eq!(java_homes_from_listing(Os::Linux, input), expected, "{}", input);
    }
}
