use trimangees::text::{
    i32_to_string, lines_of, parent_of_path, split_words, str_eq_ignore_ascii_case, to_lowercase, trim,
    u64_to_string,
};

#[test]
fn trim_drops_surrounding_white_space() {
    assert_eq!(trim("  hi there \t\n"), "hi there");
    assert_eq!(trim("   "), "");
    assert_eq!(trim("\u{3000}x\u{a0}"), "x");
}

#[test]
fn split_words_splits_on_white_space() {
    assert_eq!(split_words("  ls  -la\t/tmp "), vec!["ls", "-la", "/tmp"]);
    assert!(split_words(" \t ").is_empty());
}

#[test]
fn lines_of_follows_str_lines() {
    assert_eq!(lines_of("a\r\nb\n\nc"), vec!["a", "b", "", "c"]);
    assert_eq!(lines_of("x\n"), vec!["x"]);
    assert!(lines_of("").is_empty());
    assert_eq!(lines_of("\n"), vec![""]);
    assert_eq!(lines_of("tail\r"), vec!["tail\r"]);
}

#[test]
fn integers_print_in_decimal() {
    assert_eq!(u64_to_string(0), "0");
    assert_eq!(u64_to_string(1234567), "1234567");
    assert_eq!(u64_to_string(u64::MAX), "18446744073709551615");
    assert_eq!(i32_to_string(-42), "-42");
    assert_eq!(i32_to_string(i32::MIN), "-2147483648");
    assert_eq!(i32_to_string(7), "7");
}

#[test]
fn ascii_case_is_ignored() {
    assert!(str_eq_ignore_ascii_case("BrOwSeR", "browser"));
    assert!(!str_eq_ignore_ascii_case("browser", "browsers"));
    assert!(!str_eq_ignore_ascii_case("\u{c4}", "\u{e4}"));
}

#[test]
fn lowercase_uses_unicode_tables() {
    assert_eq!(to_lowercase("\u{c4}BC.PNG"), "\u{e4}bc.png");
}

#[test]
fn path_parent_of_paths() {
    assert_eq!(parent_of_path("/usr/bin"), Some("/usr".to_string()));
    assert_eq!(parent_of_path("/"), None);
    assert_eq!(parent_of_path("docs/notes"), Some("docs".to_string()));
}
