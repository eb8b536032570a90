use qrbill::billing_infos::swico::numeric::{is_day_count, is_digits, is_float};
use qrbill::billing_infos::swico::text::{contains_char, to_chars};

const TOKENS: [&str; 64] = [
    "", "0", "1", "10.5", "20.3", "5.0", "1.2", ".5", "5.", ".", "+", "-", "+.", "-.", "+1", "-1",
    "+-1", "--1", "1e5", "1E5", "1e+5", "1e-5", "1e", "1e+", "1e-", "e5", ".e5", "1.e5", ".1e5",
    "1.5e10", "1.5e1.0", "1e5e5", "1..5", "1.5.5", "1,5", " 1", "1 ", "1 2", "inf", "INF", "Inf",
    "+inf", "-inf", "infinity", "INFINITY", "InFiNiTy", "-infinity", "nan", "NaN", "NAN", "+nan",
    "infinit", "infi", "in", "na", "nanx", "0x10", "1_000", "١٢٣", "1f", "abc", "1.0e400",
    "00000000000000000000000000000000000000001", "123456789012345678901234567890.5",
];

#[test]
fn float_tokens_agree_with_std() {
    for token in TOKENS {
        assert_eq!(is_float(token), token.parse::<f32>().is_ok(), "token {:?}", token);
    }
}

#[test]
fn float_tokens_of_plain_amounts() {
    assert!(is_float("10.5"));
    assert!(is_float("7"));
    assert!(is_float("-0.25"));
    assert!(is_float("2e3"));
    assert!(!is_float(""));
    assert!(!is_float("abc"));
    assert!(!is_float("1,5"));
    assert!(!is_float("."));
}

#[test]
fn float_tokens_special_words() {
    assert!(is_float("inf"));
    assert!(is_float("-Infinity"));
    assert!(is_float("NaN"));
    assert!(!is_float("infinit"));
    assert!(!is_float("nano"));
}

#[test]
fn day_count_tokens_agree_with_std() {
    for token in TOKENS {
        assert_eq!(is_day_count(token), token.parse::<u8>().is_ok(), "token {:?}", token);
    }
    for token in ["255", "256", "0255", "+255", "+256", "-0", "+0", "000", "30", "2550", "99999999999999999999999999"] {
        assert_eq!(is_day_count(token), token.parse::<u8>().is_ok(), "token {:?}", token);
    }
}

#[test]
fn day_count_edges() {
    assert!(is_day_count("0"));
    assert!(is_day_count("255"));
    assert!(is_day_count("+30"));
    assert!(is_day_count("007"));
    assert!(!is_day_count("256"));
    assert!(!is_day_count("-1"));
    assert!(!is_day_count("1.0"));
    assert!(!is_day_count(""));
    assert!(!is_day_count("+"));
}

#[test]
fn chars_of_a_text() {
    assert_eq!(to_chars("a/é"), vec!['a', '/', 'é']);
    assert_eq!(to_chars(""), Vec::<char>::new());
}

#[test]
fn finds_a_character() {
    assert!(contains_char("1,5", ','));
    assert!(!contains_char("1.5", ','));
    assert!(!contains_char("", ','));
}

#[test]
fn digits_only() {
    assert!(is_digits("0123456789"));
    assert!(is_digits(""));
    assert!(!is_digits("12a"));
    assert!(!is_digits("1 2"));
    assert!(!is_digits("+1"));
    assert!(!is_digits("١٢٣"));
}
