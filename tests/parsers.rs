use feistel_crypt::key_size::{parse_key_size, KeySizeError};
use feistel_crypt::unit_size::{self, SizeError};

#[test]
fn unit_letter_sizes() {
    assert_eq!(unit_size::parse_size("512B"), Ok(512));
    assert_eq!(unit_size::parse_size("4k"), Ok(4096));
    assert_eq!(unit_size::parse_size("20M"), Ok(20 * 1024 * 1024));
    assert_eq!(unit_size::parse_size("1g"), Ok(1024 * 1024 * 1024));
    assert_eq!(unit_size::parse_size("10"), Ok(10));
    assert_eq!(unit_size::parse_size("10Kxyz"), Ok(10 * 1024));
}

#[test]
fn unit_letter_size_errors() {
    assert_eq!(unit_size::parse_size(""), Err(SizeError::InvalidNumber));
    assert_eq!(unit_size::parse_size("K"), Err(SizeError::InvalidNumber));
    assert_eq!(unit_size::parse_size("10X"), Err(SizeError::UnknownUnit));
    assert_eq!(unit_size::parse_size("10é"), Err(SizeError::UnknownUnit));
    assert_eq!(unit_size::parse_size("99999999999999999999G"), Err(SizeError::InvalidNumber));
    assert_eq!(unit_size::parse_size("18446744073709551615K"), Err(SizeError::TooLarge));
}

#[test]
fn key_sizes_with_suffixes() {
    assert_eq!(parse_key_size("1GB"), Ok(1024 * 1024 * 1024));
    assert_eq!(parse_key_size("500mb"), Ok(500 * 1024 * 1024));
    assert_eq!(parse_key_size("64KB"), Ok(64 * 1024));
    assert_eq!(parse_key_size("1024B"), Ok(1024));
    assert_eq!(parse_key_size("32"), Ok(32));
    assert_eq!(parse_key_size(" 2 gb"), Ok(2 * 1024 * 1024 * 1024));
}

#[test]
fn key_size_errors() {
    assert_eq!(parse_key_size(""), Err(KeySizeError::Empty));
    assert_eq!(parse_key_size("xgb"), Err(KeySizeError::InvalidGb));
    assert_eq!(parse_key_size("1.5mb"), Err(KeySizeError::InvalidMb));
    assert_eq!(parse_key_size("kb"), Err(KeySizeError::InvalidKb));
    assert_eq!(parse_key_size("-1b"), Err(KeySizeError::InvalidB));
    assert_eq!(parse_key_size("abc"), Err(KeySizeError::InvalidBytes));
    assert_eq!(parse_key_size("18446744073709551615gb"), Err(KeySizeError::InvalidGb));
}
