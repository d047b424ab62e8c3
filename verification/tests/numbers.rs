use textstream::numbers::fmt_usize;
use textstream::numbers::number_prefix;
use textstream::numbers::parse_positive_int;

#[test]
fn test_parse_positive_int() {
    // 3 is valid
    let result = parse_positive_int("3");
    assert!(result.is_ok());
    assert_eq!(result.unwrap(), 3);

    let result = parse_positive_int("testy");
    assert!(result.is_err());
    assert_eq!(result.unwrap_err().to_string(), "testy".to_string());

    // Zero is not valid
    let result = parse_positive_int("0");
    assert!(result.is_err());
    assert_eq!(result.unwrap_err().to_string(), "0".to_string());
}

#[test]
fn parse_accepts_leading_zeros() {
    let result = parse_positive_int("007");
    assert!(result.is_ok());
    assert_eq!(result.unwrap(), 7);
}

#[test]
fn parse_rejects_empty_and_overflow() {
    let result = parse_positive_int("");
    assert!(result.is_err());
    assert_eq!(result.unwrap_err(), "".to_string());

    let result = parse_positive_int("99999999999999999999999999");
    assert!(result.is_err());
    assert_eq!(
        result.unwrap_err(),
        "99999999999999999999999999".to_string()
    );
}

#[test]
fn renders_decimal() {
    assert_eq!(fmt_usize(0), "0");
    assert_eq!(fmt_usize(7), "7");
    assert_eq!(fmt_usize(1234567), "1234567");
}

#[test]
fn number_field_is_right_aligned_with_tab() {
    assert_eq!(number_prefix(1), "     1\t");
    assert_eq!(number_prefix(42), "    42\t");
    assert_eq!(number_prefix(1234567), "1234567\t");
}
