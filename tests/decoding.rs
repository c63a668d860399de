use echo::args::{build_string, Config};
use echo::decode::escape;

#[test]
fn plain_text_is_unchanged() {
    assert_eq!(escape(""), "");
    assert_eq!(escape("hello world"), "hello world");
    assert_eq!(escape("SuperLong connected string to test escaping without escape codes"),
        "SuperLong connected string to test escaping without escape codes");
}

#[test]
fn plain_text_decoded_twice_is_unchanged() {
    let once = escape("no escapes $HOME 0173 x7B");
    assert_eq!(once, "no escapes $HOME 0173 x7B");
    assert_eq!(escape(&once), once);
}

#[test]
fn escaped_backslash() {
    assert_eq!(escape("\\\\"), "\\");
}

#[test]
fn escaped_newline() {
    assert_eq!(escape("\\n"), "\n");
}

#[test]
fn truncation_drops_the_rest() {
    assert_eq!(escape("\\c rest"), "");
    assert_eq!(escape("keep\\cdrop\\n"), "keep");
}

#[test]
fn octal_escape() {
    assert_eq!(escape("\\0173"), "{");
    assert_eq!(escape("\\01733"), "{3");
}

#[test]
fn hex_escape() {
    assert_eq!(escape("\\x7B"), "{");
    assert_eq!(escape("a\\x41b"), "aAb");
}

#[test]
fn control_escapes() {
    assert_eq!(escape("\\a\\b\\e\\f\\n\\r\\t\\v"), "\u{7}\u{8}\u{1B}\u{C}\n\r\t\u{B}");
}

#[test]
fn unknown_escape_is_kept() {
    assert_eq!(escape("\\u7B"), "\\u7B");
    assert_eq!(escape("\\q"), "\\q");
}

#[test]
fn trailing_backslash_is_dropped() {
    assert_eq!(escape("abc\\"), "abc");
}

#[test]
fn failed_numeric_escapes_are_kept_as_text() {
    assert_eq!(escape("\\0"), "\\0");
    assert_eq!(escape("\\017$"), "\\017$");
    assert_eq!(escape("\\0777"), "\\0777");
    assert_eq!(escape("\\08"), "\\08");
    assert_eq!(escape("\\xAB"), "\\xAB");
    assert_eq!(escape("\\xG1"), "\\xG1");
    assert_eq!(escape("\\x7"), "\\x7");
}

#[test]
fn mixed_text() {
    assert_eq!(
        escape("SuperLong Co\\nnnected string to test \\\\escaping, \\0173, \\u7B"),
        "SuperLong Co\nnnected string to test \\escaping, {, \\u7B"
    );
}

#[test]
fn join_with_newline() {
    let config = Config { interp: true, newline: true };
    let args: Vec<String> = vec!["Doot", "Deet", "Foo"].into_iter().map(String::from).collect();
    let values = vec![String::new(); 3];
    assert_eq!(build_string(&config, &args, &values), "Doot Deet Foo \n");
}

#[test]
fn join_without_newline() {
    let config = Config { interp: true, newline: false };
    let args: Vec<String> = vec!["Doot", "Deet"].into_iter().map(String::from).collect();
    let values = vec![String::from("unused"), String::from("unused")];
    assert_eq!(build_string(&config, &args, &values), "Doot Deet ");
    assert_eq!(build_string(&config, &Vec::new(), &Vec::new()), "");
}

#[test]
fn join_after_leading_dollar_uses_values() {
    let config = Config { interp: false, newline: true };
    let args: Vec<String> = vec!["$HOME", "$USER", "x"].into_iter().map(String::from).collect();
    let values: Vec<String> = vec!["/root", "me", ""].into_iter().map(String::from).collect();
    assert_eq!(build_string(&config, &args, &values), "$HOME me\n");
}
