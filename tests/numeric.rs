use dua::{parse_unsigned, unsigned_numeric};

#[test]
fn unsigned_numeric_accepts_only_u64_text() {
    assert_eq!(unsigned_numeric(String::from("123")), Ok(()));
    assert_eq!(unsigned_numeric(String::from("0")), Ok(()));
    assert_eq!(unsigned_numeric(String::from("+7")), Ok(()));
    assert_eq!(
        unsigned_numeric(String::from("-1")),
        Err(String::from("Value has to be a number and >= 0"))
    );
    assert!(unsigned_numeric(String::from("")).is_err());
    assert!(unsigned_numeric(String::from("+")).is_err());
    assert!(unsigned_numeric(String::from("12a")).is_err());
    assert!(unsigned_numeric(String::from(" 1")).is_err());
}

#[test]
fn parse_unsigned_limits() {
    assert_eq!(parse_unsigned("18446744073709551615"), Some(u64::MAX));
    assert_eq!(parse_unsigned("18446744073709551616"), None);
    assert_eq!(parse_unsigned("00042"), Some(42));
    assert_eq!(parse_unsigned("+0"), Some(0));
    assert_eq!(parse_unsigned("1é"), None);
}
