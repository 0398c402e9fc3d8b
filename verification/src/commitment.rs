//! Reading the hidden balance out of a commitment string.
//!
//! A commitment carries its balance in one of two shapes. In the first, the
//! leading sixteen characters are the balance in hexadecimal, digits only,
//! and whatever
//! follows is an opaque suffix. In the second, the whole string is
//! hexadecimal text and its first eight bytes are the balance, most
//! significant byte first. The first shape is tried first.

use crate::encoding::{
    hex_decode, lemma_hex_value_bound, lemma_hex_value_step, lemma_low_bytes_are_ascii,
    lemma_pow16_within_u64, parse_hex_digits, spec_all_hex_chars, spec_hex_byte_value,
    spec_hex_char_value, spec_hex_decode, spec_hex_value, spec_is_hex_text, spec_parse_hex_u64,
    spec_u64_from_be, u64_from_be,
};
use crate::error::ProofError;
use vstd::prelude::*;
use vstd::string::{StrSliceExecFns, StringSliceAdditionalSpecFns};
use vstd::utf8::encode_utf8;

verus! {

/// Number of leading characters that hold the balance in the first shape.
pub const PREFIX_CHARS: usize = 16;

/// The balance held in the leading sixteen characters, if they parse as a
/// hexadecimal number.
pub open spec fn spec_decode_prefix(commitment: Seq<char>) -> Option<u64> {
    if commitment.len() >= PREFIX_CHARS {
        spec_parse_hex_u64(commitment.subrange(0, PREFIX_CHARS as int))
    } else {
        None
    }
}

/// The balance held in the first eight bytes of the commitment read as
/// hexadecimal text, if it is such text and has that many bytes.
pub open spec fn spec_decode_blob(commitment: Seq<char>) -> Option<u64> {
    match spec_hex_decode(encode_utf8(commitment)) {
        Some(bytes) => if bytes.len() >= 8 {
            Some(spec_u64_from_be(bytes) as u64)
        } else {
            None
        },
        None => None,
    }
}

/// The balance of a commitment: the first shape where it applies, else the
/// second, else nothing.
pub open spec fn spec_decode_balance(commitment: Seq<char>) -> Option<u64> {
    match spec_decode_prefix(commitment) {
        Some(balance) => Some(balance),
        None => spec_decode_blob(commitment),
    }
}

/// Reads the balance from the leading sixteen characters.
pub fn decode_prefix(commitment: &str) -> (balance: Option<u64>)
    ensures
        balance == spec_decode_prefix(commitment@),
{
    if commitment.unicode_len() < PREFIX_CHARS {
        return None;
    }
    proof {
        let prefix = commitment@.subrange(0, PREFIX_CHARS as int);
        lemma_hex_value_bound(prefix);
        lemma_pow16_within_u64(prefix.len());
    }
    parse_hex_digits(commitment, 0, PREFIX_CHARS)
}

/// Reads the balance from the commitment taken as hexadecimal text.
pub fn decode_blob(commitment: &str) -> (balance: Option<u64>)
    ensures
        balance == spec_decode_blob(commitment@),
{
    match hex_decode(commitment.as_bytes()) {
        Ok(bytes) => u64_from_be(bytes.as_slice()),
        Err(_) => None,
    }
}

/// Reads the balance of a commitment, or reports that it has none.
pub fn decode_balance(commitment: &str) -> (balance: Result<u64, ProofError>)
    ensures
        match balance {
            Ok(value) => spec_decode_balance(commitment@) == Some(value),
            Err(e) => spec_decode_balance(commitment@) is None && e
                == ProofError::UnparsableCommitment,
        },
        balance is Ok <==> commitment@.len() >= PREFIX_CHARS && spec_all_hex_chars(
            commitment@.subrange(0, PREFIX_CHARS as int),
        ),
        balance matches Ok(value) ==> value == spec_hex_value(
            commitment@.subrange(0, PREFIX_CHARS as int),
        ),
{
    proof {
        balance_is_read_from_prefix(commitment@);
    }
    match decode_prefix(commitment) {
        Some(value) => Ok(value),
        None => match decode_blob(commitment) {
            Some(value) => Ok(value),
            None => Err(ProofError::UnparsableCommitment),
        },
    }
}

/// The two shapes never disagree, and the second adds nothing to the first:
/// a commitment that reads as hexadecimal text of eight bytes or more holds
/// the same balance in its leading sixteen characters.
pub proof fn blob_balance_is_prefix_balance(commitment: Seq<char>)
    requires
        spec_decode_blob(commitment) is Some,
    ensures
        spec_decode_prefix(commitment) == spec_decode_blob(commitment),
        spec_decode_balance(commitment) == spec_decode_prefix(commitment),
{
    let bytes = encode_utf8(commitment);
    let decoded = spec_hex_decode(bytes).unwrap();
    assert(spec_is_hex_text(bytes));
    assert(decoded.len() == bytes.len() / 2);
    assert forall|i: int| 0 <= i < bytes.len() implies bytes[i] < 0x80 by {
        assert(spec_hex_byte_value(bytes[i]) is Some);
    }
    lemma_low_bytes_are_ascii(commitment);
    let prefix = commitment.subrange(0, PREFIX_CHARS as int);
    assert forall|i: int| 0 <= i < 16 implies spec_hex_char_value(#[trigger] prefix[i])
        == spec_hex_byte_value(bytes[i]) by {
        assert(spec_hex_byte_value(bytes[i]) is Some);
        assert(prefix[i] == commitment[i]);
        assert(commitment[i] as u8 == bytes[i]);
        assert('\0' <= commitment[i] <= '\u{7f}');
    }
    assert(spec_all_hex_chars(prefix)) by {
        assert forall|i: int| 0 <= i < prefix.len() implies (#[trigger] spec_hex_char_value(
            prefix[i],
        )) is Some by {
            assert(spec_hex_byte_value(bytes[i]) is Some);
        }
    }
    lemma_hex_value_bound(prefix);
    lemma_pow16_within_u64(16);
    assert(prefix.take(0).len() == 0);
    assert(prefix.take(16) == prefix);
    lemma_hex_value_step(prefix, 0);
    lemma_hex_value_step(prefix, 1);
    lemma_hex_value_step(prefix, 2);
    lemma_hex_value_step(prefix, 3);
    lemma_hex_value_step(prefix, 4);
    lemma_hex_value_step(prefix, 5);
    lemma_hex_value_step(prefix, 6);
    lemma_hex_value_step(prefix, 7);
    lemma_hex_value_step(prefix, 8);
    lemma_hex_value_step(prefix, 9);
    lemma_hex_value_step(prefix, 10);
    lemma_hex_value_step(prefix, 11);
    lemma_hex_value_step(prefix, 12);
    lemma_hex_value_step(prefix, 13);
    lemma_hex_value_step(prefix, 14);
    lemma_hex_value_step(prefix, 15);
    assert(spec_hex_value(prefix) == spec_u64_from_be(decoded));
}

/// A commitment has a balance exactly where its leading sixteen characters
/// are hexadecimal digits, and the balance is their value: the second shape
/// never reads what the first does not.
pub proof fn balance_is_read_from_prefix(commitment: Seq<char>)
    ensures
        spec_decode_balance(commitment) == spec_decode_prefix(commitment),
        spec_decode_balance(commitment) is Some <==> commitment.len() >= PREFIX_CHARS
            && spec_all_hex_chars(commitment.subrange(0, PREFIX_CHARS as int)),
        spec_decode_balance(commitment) is Some ==> spec_decode_balance(commitment).unwrap()
            == spec_hex_value(commitment.subrange(0, PREFIX_CHARS as int)),
{
    if spec_decode_blob(commitment) is Some {
        blob_balance_is_prefix_balance(commitment);
    }
    if commitment.len() >= PREFIX_CHARS {
        let prefix = commitment.subrange(0, PREFIX_CHARS as int);
        lemma_hex_value_bound(prefix);
        lemma_pow16_within_u64(16);
    }
}

} // verus!
