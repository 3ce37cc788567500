//! Exact size parsing.

use vm_state::size::parse_size;

#[test]
fn zero_forms() {
    assert_eq!(parse_size("0"), Some(0));
    assert_eq!(parse_size("-"), Some(0));
    assert_eq!(parse_size(""), Some(0));
    assert_eq!(parse_size("  "), Some(0));
    assert_eq!(parse_size(" - "), Some(0));
    assert_eq!(parse_size("0B"), Some(0));
}

#[test]
fn binary_suffixes() {
    assert_eq!(parse_size("1K"), Some(1024));
    assert_eq!(parse_size("1M"), Some(1024 * 1024));
    assert_eq!(parse_size("1G"), Some(1024 * 1024 * 1024));
    assert_eq!(parse_size("1T"), Some(1024u64 * 1024 * 1024 * 1024));
    assert_eq!(parse_size("500M"), Some(500 * 1024 * 1024));
    assert_eq!(parse_size("10K"), Some(10240));
    assert_eq!(parse_size("123B"), Some(123));
    assert_eq!(parse_size("42"), Some(42));
}

#[test]
fn fractions_truncate_toward_zero() {
    assert_eq!(parse_size("1.5G"), Some(1610612736));
    assert_eq!(parse_size("1.5K"), Some(1536));
    assert_eq!(parse_size("0.5K"), Some(512));
    assert_eq!(parse_size("2.25M"), Some(2359296));
    // 0.001K is 1.024 bytes: truncated to one byte
    assert_eq!(parse_size("0.001K"), Some(1));
    // 0.0001K is 0.1024 bytes: truncated to zero
    assert_eq!(parse_size("0.0001K"), Some(0));
    assert_eq!(parse_size("1.9B"), Some(1));
    assert_eq!(parse_size("3."), Some(3));
    assert_eq!(parse_size(".5K"), Some(512));
}

#[test]
fn whitespace_is_trimmed() {
    assert_eq!(parse_size(" 1K "), Some(1024));
    assert_eq!(parse_size("\t500M\n"), Some(500 * 1024 * 1024));
}

#[test]
fn malformed_sizes_are_refused() {
    assert_eq!(parse_size("abc"), None);
    assert_eq!(parse_size("K"), None);
    assert_eq!(parse_size("."), None);
    assert_eq!(parse_size(".K"), None);
    assert_eq!(parse_size("1.2.3"), None);
    assert_eq!(parse_size("1,5G"), None);
    assert_eq!(parse_size("1 K"), None);
    assert_eq!(parse_size("-5"), None);
    assert_eq!(parse_size("--"), None);
    assert_eq!(parse_size("1k"), None);
    assert_eq!(parse_size("5GB"), None);
}

#[test]
fn values_beyond_a_word_are_refused() {
    assert_eq!(parse_size("18446744073709551615B"), Some(u64::MAX));
    assert_eq!(parse_size("18446744073709551616B"), None);
    assert_eq!(parse_size("99999999999999999999T"), None);
    assert_eq!(
        parse_size("16777215T"),
        Some(16777215u64 * 1024 * 1024 * 1024 * 1024)
    );
    assert_eq!(parse_size("16777216T"), None);
}
