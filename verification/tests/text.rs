use rlox::number;
use rlox::text::{decimal, is_alphanumeric, is_digit, is_whitespace, joined, text_of, chars_of};

#[test]
fn whitespace_is_what_unicode_says() {
    for code in 0..0x11_0000u32 {
        if let Some(c) = char::from_u32(code) {
            assert_eq!(is_whitespace(c), c.is_whitespace(), "U+{:04X}", code);
        }
    }
}

#[test]
fn digits_and_identifier_characters() {
    for code in 0..0x300u32 {
        let c = char::from_u32(code).unwrap();
        assert_eq!(is_digit(c), c.is_ascii_digit());
        assert_eq!(is_alphanumeric(c), c.is_ascii_alphanumeric() || c == '_');
    }
    assert!(!is_alphanumeric('='));
    assert!(!is_digit('\u{0663}'));
}

#[test]
fn decimal_writes_numbers() {
    assert_eq!(decimal(0), "0");
    assert_eq!(decimal(7), "7");
    assert_eq!(decimal(10), "10");
    assert_eq!(decimal(255), "255");
    assert_eq!(decimal(1_000_000), "1000000");
    assert_eq!(decimal(usize::MAX), format!("{}", usize::MAX));
}

#[test]
fn text_helpers() {
    assert_eq!(joined("ab", "cd"), "abcd");
    assert_eq!(joined("", ""), "");
    let chars = chars_of("héllo");
    assert_eq!(chars, vec!['h', 'é', 'l', 'l', 'o']);
    assert_eq!(text_of(&chars, 1, 4), "éll");
    assert_eq!(text_of(&chars, 2, 2), "");
}

fn samples() -> Vec<f64> {
    vec![
        0.0, -0.0, 1.0, -1.0, 0.5, -0.5, 2.0, 1e300, -1e300, 1e-300, -1e-300, 5e-324, -5e-324,
        f64::MAX, f64::MIN, f64::INFINITY, f64::NEG_INFINITY, f64::NAN, -f64::NAN, 3.25, 1e16,
    ]
}

#[test]
fn number_predicates_agree_with_binary64() {
    for a in samples() {
        assert_eq!(number::is_nan_bits(a.to_bits()), a.is_nan(), "{}", a);
        assert_eq!(number::is_zero_bits(a.to_bits()), a == 0.0, "{}", a);
        assert_eq!(number::neg_bits(a.to_bits()), (-a).to_bits(), "{}", a);
        for b in samples() {
            assert_eq!(number::eq_bits(a.to_bits(), b.to_bits()), a == b, "{} == {}", a, b);
            assert_eq!(number::lt_bits(a.to_bits(), b.to_bits()), a < b, "{} < {}", a, b);
        }
    }
}
