use blockchain_intelligence::generator::synthetic_hash_text;
use blockchain_intelligence::text::{parse_u128, push_decimal, push_padded3, push_signed_decimal, u64_to_decimal};

#[test]
fn decimal_text_of_unsigned_values() {
    assert_eq!(u64_to_decimal(0), "0");
    assert_eq!(u64_to_decimal(7), "7");
    assert_eq!(u64_to_decimal(10), "10");
    assert_eq!(u64_to_decimal(1234567890), "1234567890");
    assert_eq!(u64_to_decimal(u64::MAX), "18446744073709551615");
}

#[test]
fn push_decimal_appends() {
    let mut s = String::from("n=");
    push_decimal(&mut s, 42);
    assert_eq!(s, "n=42");
}

#[test]
fn zero_padding_to_three_digits() {
    let cases: [(u64, &str); 6] = [(0, "000"), (1, "001"), (42, "042"), (999, "999"), (1000, "1000"), (123456, "123456")];
    for (n, expected) in cases {
        let mut s = String::new();
        push_padded3(&mut s, n);
        assert_eq!(s, expected);
        assert_eq!(s, format!("{:03}", n));
    }
}

#[test]
fn signed_decimal_matches_display() {
    for n in [0i64, 5, -5, 1_700_000_000_000, -1, i64::MAX, i64::MIN] {
        let mut s = String::new();
        push_signed_decimal(&mut s, n);
        assert_eq!(s, n.to_string());
    }
}

#[test]
fn parse_accepts_decimal_digits() {
    assert_eq!(parse_u128("0"), Some(0));
    assert_eq!(parse_u128("12"), Some(12));
    assert_eq!(parse_u128("007"), Some(7));
    assert_eq!(parse_u128("340282366920938463463374607431768211455"), Some(u128::MAX));
}

#[test]
fn parse_rejects_other_text() {
    assert_eq!(parse_u128(""), None);
    assert_eq!(parse_u128("12a"), None);
    assert_eq!(parse_u128("-1"), None);
    assert_eq!(parse_u128("+1"), None);
    assert_eq!(parse_u128(" 1"), None);
    assert_eq!(parse_u128("1.5"), None);
    assert_eq!(parse_u128("340282366920938463463374607431768211456"), None);
    assert_eq!(parse_u128("99999999999999999999999999999999999999999x"), None);
}

#[test]
fn decimal_text_parses_back() {
    for n in [0u64, 9, 10, 99, 100, 65535, u64::MAX] {
        assert_eq!(parse_u128(&u64_to_decimal(n)), Some(n as u128));
    }
}

#[test]
fn synthetic_hashes() {
    assert_eq!(synthetic_hash_text(1), "tx_001");
    assert_eq!(synthetic_hash_text(12), "tx_012");
    assert_eq!(synthetic_hash_text(1000), "tx_1000");
}
