use anbar::text::{
    chars_of, is_same_name, join_texts, same_bytes, same_text, split_text, to_decimal,
    to_hex_lower, trim_text,
};

#[test]
fn hex_of_bytes_is_lowercase_pairs() {
    assert_eq!(to_hex_lower(&[0x00, 0x0f, 0xa5, 0xff]), "000fa5ff");
    assert_eq!(to_hex_lower(&[]), "");
    assert_eq!(to_hex_lower(&[0x10]), "10");
}

#[test]
fn decimal_of_integers() {
    assert_eq!(to_decimal(0), "0");
    assert_eq!(to_decimal(7), "7");
    assert_eq!(to_decimal(10), "10");
    assert_eq!(to_decimal(1234567890), "1234567890");
    assert_eq!(to_decimal(-45), "-45");
    assert_eq!(to_decimal(i64::MAX), "9223372036854775807");
    assert_eq!(to_decimal(i64::MIN), "-9223372036854775808");
}

#[test]
fn decimal_agrees_with_the_standard_rendering() {
    for value in [-1000i64, -1, 0, 1, 9, 99, 100, 101, 65535, 4294967296] {
        assert_eq!(to_decimal(value), value.to_string());
    }
}

#[test]
fn bytes_compare_by_content() {
    assert!(same_bytes(b"", b""));
    assert!(same_bytes(b"abc", b"abc"));
    assert!(!same_bytes(b"abc", b"abd"));
    assert!(!same_bytes(b"abc", b"ab"));
    assert!(!same_bytes(b"xbc", b"abc"));
}

#[test]
fn texts_compare_by_characters() {
    assert!(same_text("", ""));
    assert!(same_text("héllo", "héllo"));
    assert!(!same_text("hello", "hellO"));
    assert!(!same_text("a", ""));
}

#[test]
fn characters_come_out_in_order() {
    assert_eq!(chars_of("aß→"), vec!['a', 'ß', '→']);
    assert_eq!(chars_of(""), Vec::<char>::new());
}

#[test]
fn split_keeps_empty_fields() {
    assert_eq!(split_text("a;b;c", ';'), vec!["a", "b", "c"]);
    assert_eq!(split_text("", ';'), vec![""]);
    assert_eq!(split_text(";", ';'), vec!["", ""]);
    assert_eq!(split_text("a;;b;", ';'), vec!["a", "", "b", ""]);
    assert_eq!(split_text("host", ';'), vec!["host"]);
}

#[test]
fn split_agrees_with_the_standard_split() {
    for text in ["", "a", ";;", "x;y", ";x", "x;", "é;→;z"] {
        let expected: Vec<String> = text.split(';').map(|s| s.to_string()).collect();
        assert_eq!(split_text(text, ';'), expected);
    }
}

#[test]
fn join_puts_the_separator_between_neighbours() {
    let items = vec!["a".to_string(), "b".to_string(), "c".to_string()];
    assert_eq!(join_texts(&items, ";"), "a;b;c");
    assert_eq!(join_texts(&items, ""), "abc");
    assert_eq!(join_texts(&items, "\n"), "a\nb\nc");
    assert_eq!(join_texts(&vec!["only".to_string()], ";"), "only");
    assert_eq!(join_texts(&Vec::new(), ";"), "");
    assert_eq!(join_texts(&vec!["".to_string(), "".to_string()], ";"), ";");
}

#[test]
fn join_undoes_split() {
    for text in ["", "a", ";;", "x;y", ";x", "x;", "host;x-amz-date"] {
        assert_eq!(join_texts(&split_text(text, ';'), ";"), text);
    }
}

#[test]
fn names_compare_without_ascii_case() {
    assert!(is_same_name("Authorization", "authorization"));
    assert!(is_same_name("X-Amz-Date", "x-amz-date"));
    assert!(is_same_name("", ""));
    assert!(!is_same_name("host", "hosts"));
    assert!(!is_same_name("host", "hose"));
    assert!(!is_same_name("a@", "a`"));
    assert!(!is_same_name("[", "{"));
    assert!(!is_same_name("É", "é"));
}

#[test]
fn trim_removes_white_space_at_both_ends() {
    assert_eq!(trim_text("  value \t"), "value");
    assert_eq!(trim_text("value"), "value");
    assert_eq!(trim_text(""), "");
    assert_eq!(trim_text(" \n\r\t "), "");
    assert_eq!(trim_text("a b"), "a b");
    assert_eq!(trim_text("\u{a0}x\u{3000}"), "x");
}

#[test]
fn trim_agrees_with_the_standard_trim() {
    for text in [
        "", " ", "x", " x", "x ", "\u{85}x\u{2028}", "\u{1680}\u{2000}a b\u{200a}\u{205f}",
        "\u{200b}x", "\u{b}\u{c}y\u{202f}\u{2029}", "\u{1f}z",
    ] {
        assert_eq!(trim_text(text), text.trim());
    }
}
