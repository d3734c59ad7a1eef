use humboldti_note::cli::{since_in_range, Since};

#[test]
fn since_parses_days_and_weeks() {
    assert_eq!(Since::from_str("7d").unwrap().0, 7);
    assert_eq!(Since::from_str("2w").unwrap().0, 14);
    assert_eq!(Since::from_str("0d").unwrap().0, 0);
}

#[test]
fn since_rejects_invalid_input() {
    assert!(Since::from_str("").is_err());
    assert!(Since::from_str("d").is_err());
    assert!(Since::from_str("7").is_err());
    assert!(Since::from_str("7h").is_err());
    assert!(Since::from_str("abcd").is_err());
    assert!(Since::from_str("7日").is_err());
}

#[test]
fn since_error_names_the_value() {
    assert_eq!(
        Since::from_str("7h").unwrap_err(),
        "invalid duration `7h`, expected e.g. `7d` or `2w`"
    );
}

#[test]
fn since_accepts_a_plus_sign_as_u32_parsing_does() {
    assert_eq!(Since::from_str("+3d").unwrap().0, 3);
    assert!(Since::from_str("-3d").is_err());
    assert!(Since::from_str("+d").is_err());
}

#[test]
fn since_refuses_days_beyond_u32() {
    assert_eq!(Since::from_str("4294967295d").unwrap().0, u32::MAX);
    assert!(Since::from_str("4294967296d").is_err());
}

#[test]
fn since_in_range_flags_weeks_that_overflow() {
    assert!(since_in_range("613566756w"));
    assert!(!since_in_range("613566757w"));
    assert!(since_in_range("junk"));
}
