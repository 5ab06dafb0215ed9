use cmdtools::text::{
    chars_of, decimal_len, decimal_string, ends_with_newline, is_whitespace, join_strings,
    parse_usize, right_align, trimmed_eq,
};

#[test]
fn whitespace_matches_std() {
    for u in 0u32..=0x10ffff {
        if let Some(c) = char::from_u32(u) {
            assert_eq!(is_whitespace(c), c.is_whitespace(), "U+{u:04X}");
        }
    }
}

#[test]
fn decimal_rendering() {
    assert_eq!(decimal_string(0), "0");
    assert_eq!(decimal_string(1234), "1234");
    assert_eq!(decimal_string(usize::MAX), usize::MAX.to_string());
    assert_eq!(decimal_len(0), 1);
    assert_eq!(decimal_len(99), 2);
    assert_eq!(decimal_len(100), 3);
    assert_eq!(right_align(42, 6), "    42");
    assert_eq!(right_align(1234567, 6), "1234567");
    assert_eq!(right_align(5, 0), "5");
}

#[test]
fn usize_parsing() {
    for s in ["0", "12", "+12", "007", "", "+", "-1", "1 ", "x1", "18446744073709551616", "99999999999999999999999"] {
        assert_eq!(parse_usize(s), s.parse::<usize>().ok(), "{s:?}");
    }
}

#[test]
fn trimming_and_joining() {
    assert!(trimmed_eq("a \n", "a\r\n"));
    assert!(!trimmed_eq("a", " a"));
    assert!(trimmed_eq("", "\n \t"));
    assert!(ends_with_newline("x\n"));
    assert!(!ends_with_newline(""));
    assert!(!ends_with_newline("x"));
    let parts = vec!["a".to_string(), "".to_string(), "b c".to_string()];
    assert_eq!(join_strings(&parts, "-"), "a--b c");
    assert_eq!(join_strings(&vec![], "-"), "");
    assert_eq!(chars_of("héj"), vec!['h', 'é', 'j']);
}

#[test]
fn decimal_round_trip() {
    for n in [0usize, 1, 9, 10, 12345, usize::MAX] {
        assert_eq!(parse_usize(&decimal_string(n)), Some(n));
    }
}
