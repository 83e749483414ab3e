use rtlauncher::path_syntax::parent_of;
use rtlauncher::paths::{extension_of, trim_start_matches_exec};
use rtlauncher::platform::Os;
use rtlauncher::text::{
    chars_of, concat_str, ends_with_char, find_from, slice_chars, string_from_chars, string_less,
    white_space,
};

#[test]
fn characters() {
    assert_eq!(chars_of("aé€"), vec!['a', 'é', '€']);
    assert_eq!(string_from_chars(&['x', 'ü']), "xü");
    assert_eq!(concat_str("ab", "cd"), "abcd");
    assert_eq!(slice_chars(&vec!['a', 'b', 'c', 'd'], 1, 3), vec!['b', 'c']);
    assert!(ends_with_char("dir/", '/'));
    assert!(!ends_with_char("", '/'));
}

#[test]
fn white_space_set() {
    for c in ['\t', '\n', '\u{b}', '\u{c}', '\r', ' ', '\u{85}', '\u{a0}', '\u{1680}', '\u{2000}', '\u{200a}', '\u{2028}', '\u{2029}', '\u{202f}', '\u{205f}', '\u{3000}'] {
        assert!(white_space(c), "{:?}", c);
        assert!(c.is_whitespace());
    }
    for c in ['a', '\u{200b}', '\u{180e}', '\u{feff}', '_'] {
        assert_eq!(white_space(c), c.is_whitespace(), "{:?}", c);
    }
}

#[test]
fn order_of_strings() {
    assert!(string_less("a", "b"));
    assert!(string_less("", "a"));
    assert!(string_less("ab", "abc"));
    assert!(!string_less("abc", "ab"));
    assert!(!string_less("x", "x"));
    assert!(string_less("Z", "a"));
    assert!(string_less("z", "é"));
    assert_eq!(string_less("é", "€"), "é" < "€");
}

#[test]
fn finding() {
    let h = chars_of("abcabc");
    assert_eq!(find_from(&h, &chars_of("bc"), 0), Some(1));
    assert_eq!(find_from(&h, &chars_of("bc"), 2), Some(4));
    assert_eq!(find_from(&h, &chars_of("bc"), 5), None);
    assert_eq!(find_from(&h, &chars_of(""), 6), Some(6));
    assert_eq!(find_from(&h, &chars_of("x"), 0), None);
}

#[test]
fn prefixes_and_extensions() {
    let p = chars_of("ab");
    assert_eq!(trim_start_matches_exec("ababx", &p), "x");
    assert_eq!(trim_start_matches_exec("xab", &p), "xab");
    assert_eq!(trim_start_matches_exec("ab", &vec![]), "ab");
    assert_eq!(extension_of(Os::Linux, "/a/b.tar.gz"), Some(chars_of("gz")));
    assert_eq!(extension_of(Os::Linux, "/a/b."), Some(vec![]));
    assert_eq!(extension_of(Os::Linux, "/a/.b"), None);
    assert_eq!(extension_of(Os::Linux, "/a/..b"), Some(chars_of("b")));
}

#[test]
fn parents() {
    let p = |os, s: &str| parent_of(os, &chars_of(s)).map(|v| v.into_iter().collect::<String>());
    assert_eq!(p(Os::Linux, "/usr/bin"), Some("/usr".to_string()));
    assert_eq!(p(Os::Linux, "/usr"), Some("/".to_string()));
    assert_eq!(p(Os::Linux, "/"), None);
    assert_eq!(p(Os::Linux, ""), None);
    assert_eq!(p(Os::Linux, "x"), Some("".to_string()));
    assert_eq!(p(Os::Windows, "C:\\x"), Some("C:\\".to_string()));
    assert_eq!(p(Os::Windows, "C:\\"), None);
    assert_eq!(p(Os::Windows, "C:x"), Some("C:".to_string()));
    assert_eq!(p(Os::Windows, "C:\\a\\b\\"), Some("C:\\a".to_string()));
    assert_eq!(p(Os::Windows, "\\\\srv\\share\\java.exe"), Some("\\\\srv\\share\\".to_string()));
    assert_eq!(p(Os::Windows, "\\\\srv\\share\\"), None);
    assert_eq!(p(Os::Windows, "\\\\?\\C:\\a\\."), Some("\\\\?\\C:\\a".to_string()));
    assert_eq!(p(Os::Windows, "C:\\a\\.\\"), Some("C:\\".to_string()));
    assert_eq!(p(Os::Windows, "C:."), None);
    assert_eq!(p(Os::Linux, "."), Some("".to_string()));
    assert_eq!(p(Os::Linux, "./"), Some("".to_string()));
    assert_eq!(p(Os::Linux, "./a"), Some(".".to_string()));
}

#[test]
fn separators() {
    assert_eq!(Os::Windows.main_separator(), '\\');
    assert_eq!(Os::Linux.main_separator(), '/');
    assert!(Os::Windows.is_separator('\\') && Os::Windows.is_separator('/'));
    assert!(!Os::MacOs.is_separator('\\'));
}
