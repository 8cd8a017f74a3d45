use tyr_rust::text::{decimal_string, str_eq};

#[test]
fn decimal_numerals() {
    assert_eq!(decimal_string(0), "0");
    assert_eq!(decimal_string(7), "7");
    assert_eq!(decimal_string(1024), "1024");
    assert_eq!(decimal_string(usize::MAX as u128), usize::MAX.to_string());
    assert_eq!(decimal_string(u128::MAX), u128::MAX.to_string());
}

#[test]
fn string_equality() {
    assert!(str_eq("fn", "fn"));
    assert!(!str_eq("fn", "fo"));
    assert!(!str_eq("é", "e"));
}
