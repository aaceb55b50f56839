use batch_indexer::decimal::{parse_u128, u128_to_string};
use batch_indexer::errors::QueryError;

#[test]
fn renders_zero() {
    assert_eq!(u128_to_string(0), "0");
}

#[test]
fn renders_single_digit() {
    assert_eq!(u128_to_string(7), "7");
}

#[test]
fn renders_one_eth_in_wei() {
    assert_eq!(u128_to_string(1_000_000_000_000_000_000), "1000000000000000000");
}

#[test]
fn renders_u128_max() {
    assert_eq!(u128_to_string(u128::MAX), "340282366920938463463374607431768211455");
}

#[test]
fn parses_round_trip() {
    for v in [0u128, 1, 9, 10, 99, 1_000_000_000_000_000_000, u128::MAX] {
        assert_eq!(parse_u128(&u128_to_string(v)), Ok(v));
    }
}

#[test]
fn parses_leading_zeros() {
    assert_eq!(parse_u128("00123"), Ok(123));
}

#[test]
fn rejects_empty_string() {
    assert_eq!(parse_u128(""), Err(QueryError::FeeParse));
}

#[test]
fn rejects_non_digits() {
    assert_eq!(parse_u128("12a"), Err(QueryError::FeeParse));
    assert_eq!(parse_u128("-5"), Err(QueryError::FeeParse));
    assert_eq!(parse_u128("1.5"), Err(QueryError::FeeParse));
}

#[test]
fn rejects_value_beyond_u128() {
    assert_eq!(
        parse_u128("340282366920938463463374607431768211456"),
        Err(QueryError::FeeOverflow)
    );
}
