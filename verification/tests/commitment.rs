use prover::commitment::{decode_balance, decode_blob, decode_prefix};
use prover::error::ProofError;

#[test]
fn prefix_reads_sixteen_hex_characters_and_ignores_the_suffix() {
    assert_eq!(decode_prefix("00000000000003e8secret_nonce_123"), Some(1000));
    assert_eq!(decode_prefix("0000000000000064secret_nonce_123"), Some(100));
    assert_eq!(decode_prefix("00000000000003e8"), Some(1000));
    assert_eq!(decode_prefix("00000000000003e8 not hex at all \u{1F600}"), Some(1000));
    assert_eq!(decode_prefix("0000000000000000"), Some(0));
    assert_eq!(decode_prefix("ffffffffffffffff"), Some(u64::MAX));
    assert_eq!(decode_prefix("FFFFFFFFFFFFFFFFrest"), Some(u64::MAX));
    assert_eq!(decode_prefix("0123456789abcdefXYZ"), Some(0x0123456789abcdef));
    assert_eq!(decode_prefix("00000000000003E8"), Some(1000));
    assert_eq!(decode_prefix("00000000DeadBeef"), Some(0xdeadbeef));
}

#[test]
fn prefix_needs_sixteen_characters() {
    assert_eq!(decode_prefix(""), None);
    assert_eq!(decode_prefix("3e8"), None);
    assert_eq!(decode_prefix("00000000000003e"), None);
}

#[test]
fn prefix_rejects_other_characters() {
    assert_eq!(decode_prefix("00000000000003g8suffix"), None);
    assert_eq!(decode_prefix("0x000000000003e8suffix"), None);
    assert_eq!(decode_prefix(" 0000000000003e8suffix"), None);
    assert_eq!(decode_prefix("-0000000000003e8suffix"), None);
    assert_eq!(decode_prefix("0000000+000003e8suffix"), None);
    assert_eq!(decode_prefix("000000000000003_suffix"), None);
    assert_eq!(decode_prefix("ééééééééééééééééé"), None);
    assert_eq!(decode_prefix("000000000000000é"), None);
}

#[test]
fn prefix_takes_no_sign() {
    assert_eq!(decode_prefix("+0000000000003e8suffix"), None);
    assert_eq!(decode_prefix("+00000000000003e"), None);
    assert_eq!(decode_prefix("+fffffffffffffff"), None);
    assert_eq!(decode_prefix("++000000000003e8suffix"), None);
    assert_eq!(decode_balance("+00000000000003e"), Err(ProofError::UnparsableCommitment));
    assert_eq!(decode_balance("+0000000000003e8suffix"), Err(ProofError::UnparsableCommitment));
}

#[test]
fn blob_reads_the_first_eight_bytes_of_hex_text() {
    assert_eq!(decode_blob("00000000000003e8"), Some(1000));
    assert_eq!(decode_blob("00000000000003E8"), Some(1000));
    assert_eq!(decode_blob("00000000000003e8ff"), Some(1000));
    assert_eq!(decode_blob("0123456789abcdef0011"), Some(0x0123456789abcdef));
    assert_eq!(decode_blob("ffffffffffffffff"), Some(u64::MAX));
}

#[test]
fn blob_rejects_what_is_not_hex_text_of_eight_bytes() {
    assert_eq!(decode_blob(""), None);
    assert_eq!(decode_blob("00000000000003"), None);
    assert_eq!(decode_blob("00000000000003e8f"), None);
    assert_eq!(decode_blob("00000000000003e8secret_nonce_123"), None);
    assert_eq!(decode_blob("+0000000000003e8"), None);
    assert_eq!(decode_blob("éééééééééééééééé"), None);
}

#[test]
fn sixteen_hex_characters_decode_the_same_by_both_shapes() {
    for text in [
        "00000000000003e8",
        "0000000000000000",
        "ffffffffffffffff",
        "0123456789ABCDEF",
        "00000000000003e8aabb",
    ] {
        let by_prefix = decode_prefix(text);
        let by_blob = decode_blob(text);
        assert!(by_prefix.is_some());
        assert_eq!(by_prefix, by_blob);
        assert_eq!(decode_balance(text), Ok(by_prefix.unwrap()));
    }
}

#[test]
fn balance_takes_the_first_shape_that_applies() {
    assert_eq!(decode_balance("00000000000003e8secret_nonce_123"), Ok(1000));
    assert_eq!(decode_balance("00000000000003e8"), Ok(1000));
}

#[test]
fn balance_fails_where_no_shape_applies() {
    for text in ["", "3e8", "00000000000003e", "zzzzzzzzzzzzzzzzzzzz", "0000000000000g00", "ééééééééééééééééé"] {
        assert_eq!(decode_balance(text), Err(ProofError::UnparsableCommitment));
    }
}
