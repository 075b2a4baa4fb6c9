use mostro_cli::fiat::{check_fiat_range, FiatError};

#[test]
fn range_parses_min_and_max() {
    let r = check_fiat_range(b"100-200").unwrap();
    assert_eq!(r.min, 100);
    assert_eq!(r.max, Some(200));
}

#[test]
fn single_amount_has_no_max() {
    let r = check_fiat_range(b"150").unwrap();
    assert_eq!(r.min, 150);
    assert_eq!(r.max, None);
}

#[test]
fn reversed_range_is_rejected() {
    let e = check_fiat_range(b"200-100").unwrap_err();
    assert!(matches!(e, FiatError::InvalidRangeOrder));
}

#[test]
fn equal_bounds_are_rejected() {
    let e = check_fiat_range(b"100-100").unwrap_err();
    assert!(matches!(e, FiatError::InvalidRangeOrder));
}

#[test]
fn three_fields_are_rejected() {
    let e = check_fiat_range(b"1-2-3").unwrap_err();
    assert!(matches!(e, FiatError::WrongAmountSyntax));
}

#[test]
fn letters_are_rejected() {
    let e = check_fiat_range(b"abc").unwrap_err();
    assert!(matches!(e, FiatError::InvalidNumber));
}

#[test]
fn plus_sign_and_leading_zeros_parse() {
    let r = check_fiat_range(b"+5").unwrap();
    assert_eq!(r.min, 5);
    assert_eq!(r.max, None);
    let r = check_fiat_range(b"007-8").unwrap();
    assert_eq!(r.min, 7);
    assert_eq!(r.max, Some(8));
}

#[test]
fn minus_prefix_is_a_malformed_range() {
    // The separator doubles as the sign character, so a negative amount
    // reads as a range with an empty first field.
    let e = check_fiat_range(b"-5").unwrap_err();
    assert!(matches!(e, FiatError::InvalidNumber));
}

#[test]
fn empty_and_overflowing_fields_are_rejected() {
    assert!(check_fiat_range(b"").is_err());
    assert!(check_fiat_range(b"9223372036854775807").is_ok());
    assert!(check_fiat_range(b"9223372036854775808").is_err());
}
