use machine_code::order::{char_seq_le_exec, sort_lex};
use machine_code::text::{
    ascii_lower_chars, chars_eq, chars_of, copy_range, decimal_chars, eq_ignore_ascii_case_chars,
    extend_str, int_decimal_chars, is_whitespace, join_chars, lines_of, push_hex_upper,
    split_chars, string_of, trim_chars_by, trim_str, words_of, TrimSet,
};

fn cs(s: &str) -> Vec<char> {
    s.chars().collect()
}

fn strings(v: &[Vec<char>]) -> Vec<String> {
    v.iter().map(|x| x.iter().collect()).collect()
}

#[test]
fn chars_round_trip() {
    let v = chars_of("机器码 ok");
    assert_eq!(v, cs("机器码 ok"));
    assert_eq!(string_of(&v), "机器码 ok");
}

#[test]
fn trimming_white_space_and_nul() {
    assert_eq!(trim_str("  a b \u{3000}\u{85}"), "a b");
    assert_eq!(trim_str("\t\r\n"), "");
    assert_eq!(trim_chars_by(&cs("\0\0a\0b\0"), TrimSet::Nul), cs("a\0b"));
    assert_eq!(trim_chars_by(&cs(" a "), TrimSet::Nul), cs(" a "));
    assert!(is_whitespace('\u{2009}'));
    assert!(!is_whitespace('\u{200b}'));
    assert!(!is_whitespace('\0'));
}

#[test]
fn splitting_on_a_separator() {
    let parts = split_chars(&cs("a,b,,c"), ',');
    assert_eq!(strings(&parts), vec!["a", "b", "", "c"]);
    let parts = split_chars(&cs(""), ',');
    assert_eq!(strings(&parts), vec![""]);
    let parts = split_chars(&cs("x,"), ',');
    assert_eq!(strings(&parts), vec!["x", ""]);
}

#[test]
fn lines_like_str_lines() {
    let text = "a\r\nb\n\nc\n";
    let expected: Vec<String> = text.lines().map(|l| l.to_string()).collect();
    assert_eq!(strings(&lines_of(&cs(text))), expected);
    assert_eq!(strings(&lines_of(&cs("one"))), vec!["one"]);
    assert!(lines_of(&cs("")).is_empty());
}

#[test]
fn words_like_split_whitespace() {
    let text = "  GET /x?y=1  HTTP/1.1 \r";
    let expected: Vec<String> = text.split_whitespace().map(|l| l.to_string()).collect();
    assert_eq!(strings(&words_of(&cs(text))), expected);
    assert!(words_of(&cs(" \t ")).is_empty());
}

#[test]
fn joining_parts() {
    let parts = vec![cs("a"), cs("bc"), cs("")];
    assert_eq!(join_chars(&parts, &cs("; ")), cs("a; bc; "));
    assert_eq!(join_chars(&Vec::new(), &cs("|")), cs(""));
}

#[test]
fn decimal_text() {
    assert_eq!(decimal_chars(0), cs("0"));
    assert_eq!(decimal_chars(1234567890), cs("1234567890"));
    assert_eq!(decimal_chars(u64::MAX), cs("18446744073709551615"));
    assert_eq!(int_decimal_chars(-42), cs("-42"));
    assert_eq!(int_decimal_chars(i64::MIN), cs("-9223372036854775808"));
    assert_eq!(int_decimal_chars(7), cs("7"));
}

#[test]
fn hexadecimal_bytes() {
    let mut v = Vec::new();
    push_hex_upper(&mut v, 0xab);
    push_hex_upper(&mut v, 0x0f);
    push_hex_upper(&mut v, 0);
    assert_eq!(v, cs("AB0F00"));
}

#[test]
fn ascii_case() {
    assert_eq!(ascii_lower_chars(&cs("Content-LENGTH É")), cs("content-length É"));
    assert!(eq_ignore_ascii_case_chars(&cs("Content-Length"), &cs("content-length")));
    assert!(!eq_ignore_ascii_case_chars(&cs("é"), &cs("É")));
    assert!(!eq_ignore_ascii_case_chars(&cs("ab"), &cs("abc")));
}

#[test]
fn copying_and_comparing() {
    assert_eq!(copy_range(&cs("abcdef"), 1, 4), cs("bcd"));
    let mut v = cs("ab");
    extend_str(&mut v, "—c");
    assert_eq!(v, cs("ab—c"));
    assert!(chars_eq(&cs("x"), &cs("x")));
    assert!(!chars_eq(&cs("x"), &cs("xy")));
}

#[test]
fn lexicographic_order() {
    assert!(char_seq_le_exec(&cs("ab"), &cs("abc")));
    assert!(char_seq_le_exec(&cs("ab"), &cs("ab")));
    assert!(!char_seq_le_exec(&cs("b"), &cs("abc")));
    assert!(char_seq_le_exec(&cs("B"), &cs("a")));
    let v = vec![cs("b"), cs("a"), cs("ab"), cs("B"), cs("a")];
    assert_eq!(strings(&sort_lex(&v)), vec!["B", "a", "a", "ab", "b"]);
    let mut std_sorted: Vec<String> = strings(&v);
    std_sorted.sort();
    assert_eq!(strings(&sort_lex(&v)), std_sorted);
}
