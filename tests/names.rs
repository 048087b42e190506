use pair_anonymizer::names::{decimal_string, join_name, parse_name, temp_name};

#[test]
fn parse_splits_at_first_dot() {
    assert_eq!(parse_name("cat.png"), Some(("cat".to_string(), "png".to_string())));
    assert_eq!(parse_name("a.tar.gz"), Some(("a".to_string(), "tar.gz".to_string())));
    assert_eq!(parse_name(".hidden"), Some(("".to_string(), "hidden".to_string())));
    assert_eq!(parse_name("noext"), None);
    assert_eq!(parse_name(""), None);
}

#[test]
fn decimal_names() {
    assert_eq!(decimal_string(0), "0");
    assert_eq!(decimal_string(7), "7");
    assert_eq!(decimal_string(10), "10");
    assert_eq!(decimal_string(4294967295), "4294967295");
    assert_eq!(decimal_string(u64::MAX), u64::MAX.to_string());
}

#[test]
fn temporary_and_joined_names() {
    assert_eq!(temp_name(0), "temp_name0");
    assert_eq!(temp_name(12), "temp_name12");
    assert_eq!(join_name("12", "png"), "12.png");
    assert_eq!(join_name("", "x"), ".x");
}
