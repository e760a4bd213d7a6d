use yantrikdb_explorer::text::{
    can_cut, cut, decimal_of, first_line, lines_of, push_hex, push_padded_left, push_padded_right,
    signed_decimal_of, trim,
};

#[test]
fn first_line_truncates_with_ellipsis() {
    assert_eq!(first_line("hello world\nsecond", 5), "hello…");
    assert_eq!(first_line("short", 10), "short");
}

#[test]
fn first_line_keeps_one_character_and_counts_characters() {
    assert_eq!(first_line("", 0), "");
    assert_eq!(first_line("\nsecond", 5), "");
    assert_eq!(first_line("abc", 0), "a…");
    assert_eq!(first_line("abc", 3), "abc");
    assert_eq!(first_line("äöü\r\nnext", 3), "äöü");
    assert_eq!(first_line("äöü", 2), "äö…");
    assert_eq!(first_line("tail\r", 9), "tail\r");
}

#[test]
fn lines_are_those_of_std() {
    for text in [
        "", "\n", "a", "a\n", "a\nb", "a\r\nb\r\n", "\r\n", "a\rb\n\nc", "a\n\r\n", "x\r", "\r", "ä\nö",
    ] {
        let expected: Vec<&str> = text.lines().collect();
        assert_eq!(lines_of(text), expected, "{text:?}");
    }
}

#[test]
fn trimming_is_that_of_std() {
    for text in [
        "", " ", "a", " a ", "\t\n a b \r\n", "\u{a0}x\u{3000}", "\u{200b}x", "\u{2003}\u{85}y\u{1680}",
    ] {
        assert_eq!(trim(text), text.trim(), "{text:?}");
    }
    for c in (0..=0x10ffffu32).filter_map(char::from_u32) {
        if c.is_whitespace() {
            assert_eq!(trim(&c.to_string()), "", "{c:?}");
        }
    }
    for c in ['\u{8}', '\u{e}', '!', '\u{84}', '\u{9f}', '\u{180e}', '\u{1fff}', '\u{200b}', '\u{2060}', '\u{feff}'] {
        assert_eq!(trim(&c.to_string()), c.to_string());
    }
}

#[test]
fn numerals_are_those_of_std() {
    for n in [0u64, 9, 10, 1234567890, u64::MAX] {
        assert_eq!(decimal_of(n), n.to_string());
    }
    for n in [0i64, -1, 42, -1000, i64::MIN, i64::MAX] {
        assert_eq!(signed_decimal_of(n), n.to_string());
    }
    for n in [0u64, 0xdead_beef, u64::MAX] {
        let mut out = String::from("x");
        push_hex(&mut out, n, 16);
        assert_eq!(out, format!("x{n:016x}"));
    }
}

#[test]
fn padding_counts_characters() {
    let mut out = String::new();
    push_padded_right(&mut out, "äö", 4);
    push_padded_left(&mut out, "7", '0', 3);
    push_padded_left(&mut out, "longer", ' ', 3);
    assert_eq!(out, format!("{:<4}{:03}{:>3}", "äö", 7, "longer"));
}

#[test]
fn cutting_counts_bytes() {
    assert_eq!(cut("semantic", 1), "s");
    assert_eq!(cut("", 1), "");
    assert_eq!(cut("abc", 8), "abc");
    assert_eq!(cut("äbc", 2), "ä");
    assert!(can_cut("abc", 2));
    assert!(!can_cut("äbc", 1));
}
