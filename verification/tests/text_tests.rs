use typr::text::{
    chars_of, copy_range, int_error_message, is_whitespace, parse_u32_chars, push_decimal,
    string_of, trim_chars, IntError,
};
use typr::words::{fallback, pool};

#[test]
fn whitespace_set() {
    for c in [' ', '\t', '\n', '\r', '\u{b}', '\u{c}', '\u{85}', '\u{a0}', '\u{2003}', '\u{3000}'] {
        assert!(is_whitespace(c));
        assert_eq!(is_whitespace(c), c.is_whitespace());
    }
    for c in ['a', '_', '0', '\u{200b}', '\u{21b5}'] {
        assert!(!is_whitespace(c));
        assert_eq!(is_whitespace(c), c.is_whitespace());
    }
}

#[test]
fn trimming() {
    let s = chars_of("  a b \t\n");
    assert_eq!(string_of(&trim_chars(&s)), "a b");
    assert_eq!(trim_chars(&chars_of("   ")), Vec::<char>::new());
    assert_eq!(trim_chars(&chars_of("")), Vec::<char>::new());
    assert_eq!(string_of(&trim_chars(&chars_of("x"))), "x");
    assert_eq!(copy_range(&chars_of("hello"), 1, 3), vec!['e', 'l']);
}

#[test]
fn decimal_digits() {
    let mut v = vec!['#'];
    push_decimal(1207, &mut v);
    assert_eq!(string_of(&v), "#1207");
    let mut z = Vec::new();
    push_decimal(0, &mut z);
    assert_eq!(z, vec!['0']);
}

#[test]
fn integer_parsing_matches_std() {
    for s in ["0", "42", "+42", "007", "4294967295", "4294967296", "", "+", "-", "-1", "1_0", "１"] {
        let ours = parse_u32_chars(&chars_of(s));
        match s.parse::<u32>() {
            Ok(n) => assert_eq!(ours, Ok(n)),
            Err(e) => {
                let kind = ours.expect_err(s);
                assert_eq!(int_error_message(kind), e.to_string());
            }
        }
    }
    assert_eq!(parse_u32_chars(&chars_of("12a")), Err(IntError::InvalidDigit));
}

#[test]
fn word_pool_fallback() {
    let f = fallback();
    assert_eq!(f.len(), 20);
    assert_eq!(f[0], "the");
    assert_eq!(f[19], "from");
    assert_eq!(pool(None), f);
    assert_eq!(pool(Some(Vec::new())), f);
    let w = vec!["alpha".to_string(), "beta".to_string()];
    assert_eq!(pool(Some(w.clone())), w);
}
