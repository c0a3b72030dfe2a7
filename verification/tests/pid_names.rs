use proclist::pid::parse_pid;

#[test]
fn plain_numerals_parse() {
    assert_eq!(parse_pid("1"), Some(1));
    assert_eq!(parse_pid("42"), Some(42));
    assert_eq!(parse_pid("0"), Some(0));
}

#[test]
fn leading_zeros_keep_their_value() {
    assert_eq!(parse_pid("007"), Some(7));
}

#[test]
fn non_numeric_names_are_rejected() {
    assert_eq!(parse_pid("self"), None);
    assert_eq!(parse_pid("thread-self"), None);
    assert_eq!(parse_pid("4 2"), None);
    assert_eq!(parse_pid("-1"), None);
    assert_eq!(parse_pid(""), None);
}

#[test]
fn values_at_the_range_edge() {
    assert_eq!(parse_pid("2147483647"), Some(2147483647));
    assert_eq!(parse_pid("2147483648"), None);
    assert_eq!(parse_pid("99999999999999999999"), None);
}
