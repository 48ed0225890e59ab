use s3etag::{parse_chunksize, parse_threshold, SizeError};

#[test]
fn parse_plain_number() {
    assert_eq!(parse_threshold("123"), Ok(123));
    assert_eq!(parse_threshold("1"), Ok(1));
    assert_eq!(parse_threshold("007"), Ok(7));
}

#[test]
fn parse_size_suffixes() {
    assert_eq!(parse_threshold("1KB"), Ok(1 << 10));
    assert_eq!(parse_threshold("5KB"), Ok(5 << 10));
    assert_eq!(parse_threshold("8MB"), Ok(8 << 20));
    assert_eq!(parse_threshold("2GB"), Ok(2 << 30));
    assert_eq!(parse_threshold("1TB"), Ok(1 << 40));
}

#[test]
fn parse_zero_rejected() {
    assert_eq!(parse_threshold("0"), Err(SizeError::Zero));
    assert_eq!(parse_threshold("0MB"), Err(SizeError::Zero));
    assert_eq!(parse_threshold("000"), Err(SizeError::Zero));
}

#[test]
fn parse_missing_number_rejected() {
    assert_eq!(parse_threshold(""), Err(SizeError::InvalidNumber));
    assert_eq!(parse_threshold("KB"), Err(SizeError::InvalidNumber));
    assert_eq!(parse_threshold("+5"), Err(SizeError::InvalidNumber));
    assert_eq!(parse_threshold(" 5"), Err(SizeError::InvalidNumber));
}

#[test]
fn parse_unknown_suffix_rejected() {
    assert_eq!(parse_threshold("12XB"), Err(SizeError::UnknownSuffix));
    assert_eq!(parse_threshold("12MBX"), Err(SizeError::UnknownSuffix));
    assert_eq!(parse_threshold("12kb"), Err(SizeError::UnknownSuffix));
    assert_eq!(parse_threshold("12KiB"), Err(SizeError::UnknownSuffix));
    assert_eq!(parse_threshold("5 MB"), Err(SizeError::UnknownSuffix));
    assert_eq!(parse_threshold("12B"), Err(SizeError::UnknownSuffix));
}

#[test]
fn parse_too_large_rejected() {
    assert_eq!(parse_threshold("18446744073709551616"), Err(SizeError::TooLarge));
    assert_eq!(parse_threshold("99999999999999999999999"), Err(SizeError::TooLarge));
    assert_eq!(parse_threshold("16777216TB"), Err(SizeError::TooLarge));
    // a bad suffix after an overflowing number: the number is rejected first
    assert_eq!(parse_threshold("99999999999999999999999XB"), Err(SizeError::TooLarge));
}

#[test]
fn parse_max_values() {
    assert_eq!(parse_threshold("18446744073709551615"), Ok(u64::MAX));
    assert_eq!(parse_threshold("16777215TB"), Ok(16777215 << 40));
}

#[test]
fn parse_chunksize_matches_threshold() {
    assert_eq!(parse_chunksize("8MB"), Ok(8 << 20));
    assert_eq!(parse_chunksize("123"), Ok(123));
    assert_eq!(parse_chunksize("0"), Err(SizeError::Zero));
    assert_eq!(parse_chunksize("MB"), Err(SizeError::InvalidNumber));
    assert_eq!(parse_chunksize("7YB"), Err(SizeError::UnknownSuffix));
}
