use mirage::network::lex_less;
use mirage::text::{
    chars_eq_ignore_ascii_case, join_exec, lines_exec, lines_text, pad_right_string, parse_u32_exec, split_char_exec,
    split_ws_exec, trim_char_exec, trim_exec, u32_to_string, zero_pad_string,
};

fn chars(s: &str) -> Vec<char> {
    s.chars().collect()
}

#[test]
fn ascii_case_is_ignored_and_nothing_else() {
    assert!(chars_eq_ignore_ascii_case(&chars("52:AB:cd"), &chars("52:ab:CD")));
    assert!(!chars_eq_ignore_ascii_case(&chars("52:ab"), &chars("52:ac")));
    assert!(!chars_eq_ignore_ascii_case(&chars("É"), &chars("é")));
    assert!(!chars_eq_ignore_ascii_case(&chars("ab"), &chars("abc")));
}

#[test]
fn lines_and_fields_split_as_std_does() {
    assert_eq!(lines_exec("a\r\nb\n\nc"), "a\r\nb\n\nc".lines().collect::<Vec<_>>());
    assert_eq!(lines_exec("x\n"), vec!["x"]);
    assert_eq!(split_ws_exec("  a \t b\n"), vec!["a", "b"]);
    assert_eq!(split_char_exec("a::b", ':'), vec!["a", "", "b"]);
    assert_eq!(trim_exec("\u{3000} x \n"), "x");
    assert_eq!(trim_char_exec("\"\"q\"", '"'), "q");
    assert_eq!(join_exec(&vec!["a".to_string(), "b".to_string()], ", "), "a, b");
    assert_eq!(lines_text(&vec!["a".to_string(), "b".to_string()]), "a\nb\n");
}

#[test]
fn numbers_format_and_parse_as_std_does() {
    assert_eq!(u32_to_string(4_294_967_295), "4294967295");
    assert_eq!(zero_pad_string(7, 4), format!("{:04}", 7));
    assert_eq!(zero_pad_string(12345, 4), "12345");
    assert_eq!(pad_right_string("ab", 4), format!("{:<4}", "ab"));
    assert_eq!(parse_u32_exec("+42"), Some(42));
    assert_eq!(parse_u32_exec("4294967296"), None);
    assert_eq!(parse_u32_exec(""), None);
    assert_eq!(parse_u32_exec("1 2"), None);
}

#[test]
fn addresses_sort_as_strings_do() {
    assert!(lex_less("10.0.0.5", "192.168.1.20"));
    assert!(!lex_less("b", "a"));
    assert!(lex_less("a", "ab"));
    assert!(!lex_less("a", "a"));
}
