use qrbill::billing_infos::swico::syntax::{invalid_chars, is_vat_num_ok, SyntaxValidatorError};

fn escape_error(s: &str) -> Result<(), SyntaxValidatorError> {
    Err(SyntaxValidatorError::InvalidEscapeChar(s.to_string()))
}

#[test]
fn plain_text_needs_no_escape() {
    assert_eq!(invalid_chars("abc"), Ok(()));
    assert_eq!(invalid_chars(""), Ok(()));
    assert_eq!(invalid_chars("Rechnung 2023-17 é"), Ok(()));
}

#[test]
fn a_slash_must_be_escaped() {
    assert_eq!(invalid_chars("a/b"), escape_error("a/b"));
    assert_eq!(invalid_chars("/"), escape_error("/"));
    assert_eq!(invalid_chars("a\\/b"), Ok(()));
}

#[test]
fn a_backslash_must_be_escaped() {
    assert_eq!(invalid_chars("a\\b"), escape_error("a\\b"));
    assert_eq!(invalid_chars("a\\\\b"), Ok(()));
    assert_eq!(invalid_chars("a\\"), escape_error("a\\"));
    assert_eq!(invalid_chars("\\"), escape_error("\\"));
}

#[test]
fn the_second_of_a_pair_is_not_read_again() {
    assert_eq!(invalid_chars("\\\\/"), escape_error("\\\\/"));
    assert_eq!(invalid_chars("\\//"), escape_error("\\//"));
    assert_eq!(invalid_chars("\\\\\\"), escape_error("\\\\\\"));
    assert_eq!(invalid_chars("\\\\\\\\"), Ok(()));
    assert_eq!(invalid_chars("\\/\\/"), Ok(()));
    assert_eq!(invalid_chars("\\\\\\/"), Ok(()));
}

#[test]
fn vat_number_of_nine_digits() {
    assert_eq!(is_vat_num_ok("123456789"), Ok(()));
    assert_eq!(is_vat_num_ok("000000000"), Ok(()));
}

#[test]
fn vat_number_of_another_length() {
    for text in ["12345678", "1234567890", "", "1"] {
        assert_eq!(
            is_vat_num_ok(text),
            Err(SyntaxValidatorError::InvalidVatNum(text.to_string())),
            "text {:?}",
            text
        );
    }
}

#[test]
fn vat_number_with_another_character() {
    for text in ["12345678a", "1234 6789", "12345678٩", "-23456789", "1234.6789"] {
        assert_eq!(
            is_vat_num_ok(text),
            Err(SyntaxValidatorError::InvalidVatNum(text.to_string())),
            "text {:?}",
            text
        );
    }
}
