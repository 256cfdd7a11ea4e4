use feistel_crypt::size::parse_size;

#[test]
fn test_parse_size() {
    assert_eq!(parse_size("1024b"), Some(1024));
    assert_eq!(parse_size("10mb"), Some(10 * 1024 * 1024));
    assert_eq!(parse_size("1gb"), Some(1 * 1024 * 1024 * 1024));
    assert_eq!(parse_size("5gb"), Some(5 * 1024 * 1024 * 1024));
    assert_eq!(parse_size("0"), Some(0));
    assert_eq!(parse_size("invalid"), None);
}

#[test]
fn parse_size_trims_before_suffix() {
    assert_eq!(parse_size(" 12 mb"), Some(12 * 1024 * 1024));
    assert_eq!(parse_size("12 mb"), Some(12 * 1024 * 1024));
    assert_eq!(parse_size("7 b"), Some(7));
    assert_eq!(parse_size("+3b"), Some(3));
}

#[test]
fn parse_size_rejects_bad_numbers() {
    assert_eq!(parse_size(""), None);
    assert_eq!(parse_size("b"), None);
    assert_eq!(parse_size("-1"), None);
    assert_eq!(parse_size("1kb"), None);
    assert_eq!(parse_size("99999999999999999999999"), None);
    assert_eq!(parse_size("18446744073709551615gb"), None);
}
