use relay_chat::config::{history_limit, parse_decimal, ConfigError};
use relay_chat::relay::Relay;

#[test]
fn limit_reads_a_positive_number() {
    assert_eq!(history_limit(Some("3")), Ok(3));
    assert_eq!(history_limit(Some("120")), Ok(120));
    assert_eq!(history_limit(Some("+7")), Ok(7));
    assert_eq!(history_limit(Some("007")), Ok(7));
}

#[test]
fn limit_missing_is_an_error() {
    assert_eq!(history_limit(None), Err(ConfigError::Missing));
}

#[test]
fn limit_zero_is_not_positive() {
    assert_eq!(history_limit(Some("0")), Err(ConfigError::NotPositive));
    assert_eq!(history_limit(Some("+000")), Err(ConfigError::NotPositive));
}

#[test]
fn limit_rejects_what_is_not_a_number() {
    for bad in ["", "+", "abc", "-3", "-0", "3.5", " 3", "3 ", "1e3", "++1", "0x10"] {
        assert_eq!(history_limit(Some(bad)), Err(ConfigError::NotANumber), "{bad:?}");
    }
}

#[test]
fn limit_rejects_a_number_too_large() {
    let max = usize::MAX.to_string();
    assert_eq!(history_limit(Some(&max)), Ok(usize::MAX));
    let over = format!("{}0", max);
    assert_eq!(history_limit(Some(&over)), Err(ConfigError::NotANumber));
    assert_eq!(parse_decimal("99999999999999999999999999"), None);
}

#[test]
fn parse_decimal_values() {
    assert_eq!(parse_decimal("0"), Some(0));
    assert_eq!(parse_decimal("42"), Some(42));
    assert_eq!(parse_decimal("+42"), Some(42));
    assert_eq!(parse_decimal("4a2"), None);
}

#[test]
fn startup_fails_without_a_valid_setting() {
    assert!(matches!(Relay::from_setting(None), Err(ConfigError::Missing)));
    assert!(matches!(Relay::from_setting(Some("0")), Err(ConfigError::NotPositive)));
    assert!(matches!(Relay::from_setting(Some("-2")), Err(ConfigError::NotANumber)));
    assert!(matches!(Relay::from_setting(Some("ten")), Err(ConfigError::NotANumber)));
    assert!(Relay::from_setting(Some("5")).is_ok());
}
