use prover::encoding::{hex_char_value, push_decimal, push_u64_be, text_eq, u64_from_be};
use prover::error::ProofError;

fn decimal(n: u64) -> String {
    let mut text = String::new();
    push_decimal(&mut text, n);
    text
}

#[test]
fn decimal_numerals_are_exact() {
    assert_eq!(decimal(0), "0");
    assert_eq!(decimal(7), "7");
    assert_eq!(decimal(10), "10");
    assert_eq!(decimal(500), "500");
    assert_eq!(decimal(1_000_000), "1000000");
    assert_eq!(decimal(u64::MAX), "18446744073709551615");
    for n in [1u64, 9, 11, 99, 100, 101, 12345, 9_999_999_999] {
        assert_eq!(decimal(n), n.to_string());
    }
}

#[test]
fn decimal_is_appended_to_what_is_there() {
    let mut text = "x=".to_string();
    push_decimal(&mut text, 42);
    assert_eq!(text, "x=42");
}

#[test]
fn big_endian_bytes_are_exact() {
    let mut buffer = vec![0xaa];
    push_u64_be(&mut buffer, 0x0102030405060708);
    assert_eq!(buffer, vec![0xaa, 1, 2, 3, 4, 5, 6, 7, 8]);
    for n in [0u64, 1, 255, 256, 1000, u64::MAX, 0x8000_0000_0000_0000] {
        let mut bytes = Vec::new();
        push_u64_be(&mut bytes, n);
        assert_eq!(bytes, n.to_be_bytes().to_vec());
        assert_eq!(u64_from_be(&bytes), Some(n));
    }
}

#[test]
fn big_endian_reading_takes_the_first_eight_bytes() {
    assert_eq!(u64_from_be(&[0, 0, 0, 0, 0, 0, 3, 0xe8]), Some(1000));
    assert_eq!(u64_from_be(&[0, 0, 0, 0, 0, 0, 3, 0xe8, 0xff, 0xff]), Some(1000));
    assert_eq!(u64_from_be(&[0xff; 8]), Some(u64::MAX));
    assert_eq!(u64_from_be(&[0, 0, 0, 0, 0, 0, 3]), None);
    assert_eq!(u64_from_be(&[]), None);
}

#[test]
fn hex_digits_have_their_values() {
    assert_eq!(hex_char_value('0'), Some(0));
    assert_eq!(hex_char_value('9'), Some(9));
    assert_eq!(hex_char_value('a'), Some(10));
    assert_eq!(hex_char_value('f'), Some(15));
    assert_eq!(hex_char_value('A'), Some(10));
    assert_eq!(hex_char_value('F'), Some(15));
    for c in ['g', 'G', '/', ':', '@', '`', ' ', '+', '-', '_', 'é', '\u{ff10}'] {
        assert_eq!(hex_char_value(c), None);
    }
}

#[test]
fn text_equality_is_by_characters() {
    assert!(text_eq("", ""));
    assert!(text_eq("abc", "abc"));
    assert!(text_eq("héllo", "héllo"));
    assert!(!text_eq("abc", "abd"));
    assert!(!text_eq("abc", "ab"));
    assert!(!text_eq("", "a"));
    assert!(!text_eq("e\u{301}", "\u{e9}"));
}

#[test]
fn error_messages_are_exact() {
    assert_eq!(
        ProofError::InsufficientBalance { balance: 100, amount: 500 }.message(),
        "Invalid proof: balance 100 <= amount 500"
    );
    assert_eq!(
        ProofError::InsufficientBalance { balance: 0, amount: u64::MAX }.message(),
        "Invalid proof: balance 0 <= amount 18446744073709551615"
    );
    assert_eq!(
        ProofError::UnparsableCommitment.message(),
        "Cannot extract balance from commitment"
    );
}
