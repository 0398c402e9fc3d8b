//! What the engine guarantees, stated over the mathematical content of
//! requests, proofs and caches, and proved from the definitions that the
//! contracts of the executable functions use.

use crate::balance_proof::{
    spec_cache_key, spec_cache_sound, spec_commitment_hash, spec_derive, spec_derived_under,
    spec_digest_is_wide, spec_generate, spec_issued_for, spec_proof_digest, spec_verify, ProofView,
    RequestView,
};
use crate::cache::{spec_is_live, spec_lookup, spec_store, spec_sweep, CacheView, CachedProof};
use crate::commitment::spec_decode_balance;
use crate::digest::{spec_sha3_256, DIGEST_LEN};
use crate::encoding::{
    lemma_decimal_holds_digits, lemma_decimal_is_injective, lemma_join_is_injective,
    spec_decimal, spec_hex_char, spec_hex_lower, spec_is_decimal_char,
};
use crate::error::ProofError;
use vstd::prelude::*;
use vstd::utf8::encode_utf8;

verus! {

/// A request whose balance exceeds its amount derives a proof, and that
/// proof verifies under the commitment and the nonce of the request.
pub proof fn derived_proof_verifies(request: RequestView)
    requires
        spec_decode_balance(request.balance_commitment) matches Some(balance) && balance
            > request.amount,
    ensures
        spec_derive(request) matches Ok(proof) && spec_verify(
            proof,
            request.balance_commitment,
            request.secret_nonce,
        ) == Ok::<bool, ProofError>(true),
{
}

/// Generating and verifying agree: for a request whose balance exceeds its
/// amount, the generated proof verifies under the commitment and the nonce
/// of the request. This holds where the cache has no valid entry under the
/// fingerprint of the request, or has there the very proof that the request
/// derives; a cache that was handed another proof under that fingerprint
/// hands it out again, whatever the request says.
pub proof fn generated_proof_verifies(cache: CacheView, request: RequestView, now: u64)
    requires
        spec_decode_balance(request.balance_commitment) matches Some(balance) && balance
            > request.amount,
        spec_lookup(cache, spec_cache_key(request), now) matches Some(cached) ==> spec_derive(
            request,
        ) == Ok::<ProofView, ProofError>(cached),
    ensures
        spec_generate(cache, request, now).0 matches Ok(proof) && spec_verify(
            proof,
            request.balance_commitment,
            request.secret_nonce,
        ) == Ok::<bool, ProofError>(true),
{
    derived_proof_verifies(request);
}

/// A request whose balance does not exceed its amount is refused with both
/// numbers, and the cache stays as it was. This holds where the cache has no
/// valid entry under the fingerprint of the request.
pub proof fn insufficient_balance_is_refused(cache: CacheView, request: RequestView, now: u64)
    requires
        spec_decode_balance(request.balance_commitment) matches Some(balance) && balance
            <= request.amount,
        spec_lookup(cache, spec_cache_key(request), now) is None,
    ensures
        spec_generate(cache, request, now) == (
            Err::<ProofView, ProofError>(
                ProofError::InsufficientBalance {
                    balance: spec_decode_balance(request.balance_commitment).unwrap(),
                    amount: request.amount,
                },
            ),
            cache,
        ),
{
}

/// A request without a readable balance is refused, and the cache stays as
/// it was, where the cache has no valid entry under its fingerprint.
pub proof fn unparsable_commitment_is_refused(cache: CacheView, request: RequestView, now: u64)
    requires
        spec_decode_balance(request.balance_commitment) is None,
        spec_lookup(cache, spec_cache_key(request), now) is None,
    ensures
        spec_generate(cache, request, now) == (
            Err::<ProofView, ProofError>(ProofError::UnparsableCommitment),
            cache,
        ),
{
}

/// Generating twice gives the same proof: where a first generation at
/// `first` succeeds, a second one of the same request at `second`, made while
/// the entry under the fingerprint is still valid, returns the same proof and
/// leaves the cache as the first one left it.
pub proof fn repeated_generation_is_stable(
    cache: CacheView,
    request: RequestView,
    first: u64,
    second: u64,
)
    requires
        spec_generate(cache, request, first).0 is Ok,
        spec_is_live(
            second,
            spec_generate(cache, request, first).1[spec_cache_key(request)].timestamp,
        ),
    ensures
        spec_generate(cache, request, first).1.contains_key(spec_cache_key(request)),
        spec_generate(spec_generate(cache, request, first).1, request, second)
            == spec_generate(cache, request, first),
{
}

/// A first generation that finds nothing in the cache stamps its proof with
/// its own time, so a second one less than the time to live later is served
/// from the cache with the same proof.
pub proof fn fresh_proof_is_served_again(
    cache: CacheView,
    request: RequestView,
    first: u64,
    second: u64,
)
    requires
        spec_lookup(cache, spec_cache_key(request), first) is None,
        spec_derive(request) is Ok,
        spec_is_live(second, first),
    ensures
        spec_generate(cache, request, first).0 == spec_derive(request),
        spec_generate(spec_generate(cache, request, first).1, request, second)
            == spec_generate(cache, request, first),
{
}

/// Verifying a derived proof under the commitment of its request never
/// fails, and it accepts a nonce exactly where that nonce leads to the
/// digest that the nonce of the request led to.
pub proof fn derived_proof_binds_nonce(request: RequestView, nonce: Seq<char>)
    requires
        spec_decode_balance(request.balance_commitment) matches Some(balance) && balance
            > request.amount,
    ensures
        spec_verify(spec_derive(request).unwrap(), request.balance_commitment, nonce) == Ok::<
            bool,
            ProofError,
        >(
            spec_proof_digest(
                request.amount,
                spec_decode_balance(request.balance_commitment).unwrap(),
                request.balance_commitment,
                nonce,
            ) == spec_proof_digest(
                request.amount,
                spec_decode_balance(request.balance_commitment).unwrap(),
                request.balance_commitment,
                request.secret_nonce,
            ),
        ),
{
}

/// A derived proof is turned down, without an error, under any nonce whose
/// digest differs from that of the nonce it was derived with.
pub proof fn other_nonce_is_rejected(request: RequestView, nonce: Seq<char>)
    requires
        spec_decode_balance(request.balance_commitment) matches Some(balance) && balance
            > request.amount,
        spec_proof_digest(
            request.amount,
            spec_decode_balance(request.balance_commitment).unwrap(),
            request.balance_commitment,
            nonce,
        ) != spec_proof_digest(
            request.amount,
            spec_decode_balance(request.balance_commitment).unwrap(),
            request.balance_commitment,
            request.secret_nonce,
        ),
    ensures
        nonce != request.secret_nonce,
        spec_verify(spec_derive(request).unwrap(), request.balance_commitment, nonce) == Ok::<
            bool,
            ProofError,
        >(false),
{
    derived_proof_binds_nonce(request, nonce);
}

/// Two byte strings with the same hexadecimal text are the same.
pub proof fn hex_lower_is_injective(a: Seq<u8>, b: Seq<u8>)
    requires
        spec_hex_lower(a) == spec_hex_lower(b),
    ensures
        a == b,
{
    assert(spec_hex_lower(a).len() == 2 * a.len());
    assert(spec_hex_lower(b).len() == 2 * b.len());
    assert forall|i: int| 0 <= i < a.len() implies a[i] == b[i] by {
        let high_a = spec_hex_lower(a)[2 * i];
        let low_a = spec_hex_lower(a)[2 * i + 1];
        let high_b = spec_hex_lower(b)[2 * i];
        let low_b = spec_hex_lower(b)[2 * i + 1];
        assert(high_a == spec_hex_char(a[i] as int / 16));
        assert(low_a == spec_hex_char(a[i] as int % 16));
        assert(high_b == spec_hex_char(b[i] as int / 16));
        assert(low_b == spec_hex_char(b[i] as int % 16));
        lemma_hex_char_is_injective(a[i] as int / 16, b[i] as int / 16);
        lemma_hex_char_is_injective(a[i] as int % 16, b[i] as int % 16);
    }
    assert(a =~= b);
}

proof fn lemma_hex_char_is_injective(x: int, y: int)
    requires
        0 <= x < 16,
        0 <= y < 16,
        spec_hex_char(x) == spec_hex_char(y),
    ensures
        x == y,
{
    let cx = if x < 10 {
        (0x30 + x) as u8
    } else {
        (0x61 + x - 10) as u8
    };
    let cy = if y < 10 {
        (0x30 + y) as u8
    } else {
        (0x61 + y - 10) as u8
    };
    assert(cx as char as u8 == cx);
    assert(cy as char as u8 == cy);
}

/// A derived proof is turned down, without an error and before any balance
/// is read, under any commitment whose digest differs from that of the
/// commitment it was derived from; the balance of that commitment and the
/// nonce do not matter.
pub proof fn other_commitment_is_rejected(
    request: RequestView,
    commitment: Seq<char>,
    nonce: Seq<char>,
)
    requires
        spec_derive(request) is Ok,
        spec_sha3_256(encode_utf8(commitment)) != spec_sha3_256(
            encode_utf8(request.balance_commitment),
        ),
    ensures
        commitment != request.balance_commitment,
        spec_verify(spec_derive(request).unwrap(), commitment, nonce) == Ok::<bool, ProofError>(
            false,
        ),
{
    if spec_commitment_hash(commitment) == spec_commitment_hash(request.balance_commitment) {
        hex_lower_is_injective(
            spec_sha3_256(encode_utf8(commitment)),
            spec_sha3_256(encode_utf8(request.balance_commitment)),
        );
    }
}

/// A cleanup at `now` keeps an entry stored at `stored` exactly where less
/// than the time to live has passed since, and keeps it unchanged.
pub proof fn cleanup_drops_expired_and_keeps_valid(
    cache: CacheView,
    key: Seq<char>,
    proof: ProofView,
    stored: u64,
    now: u64,
)
    ensures
        spec_sweep(spec_store(cache, key, proof, stored), now).contains_key(key) <==> spec_is_live(
            now,
            stored,
        ),
        spec_is_live(now, stored) ==> spec_sweep(spec_store(cache, key, proof, stored), now)[key]
            == (CachedProof { proof, timestamp: stored }),
        now >= stored + 60 ==> !spec_sweep(spec_store(cache, key, proof, stored), now).contains_key(
            key,
        ),
        stored <= now < stored + 60 ==> spec_sweep(
            spec_store(cache, key, proof, stored),
            now,
        ).contains_key(key),
{
}

/// A cleanup changes no lookup made at the same time: what it drops was no
/// longer handed out.
pub proof fn cleanup_preserves_lookups(cache: CacheView, key: Seq<char>, now: u64)
    ensures
        spec_lookup(spec_sweep(cache, now), key, now) == spec_lookup(cache, key, now),
{
}

/// Requests with the same fingerprint agree in address, in amount and in the
/// digest of their commitment: unrelated requests share no cache entry,
/// short of two commitments with one digest. The digests are taken at the
/// width that every computed digest has.
pub proof fn fingerprint_determines_request(a: RequestView, b: RequestView)
    requires
        spec_cache_key(a) == spec_cache_key(b),
        spec_sha3_256(encode_utf8(a.balance_commitment)).len() == DIGEST_LEN,
        spec_sha3_256(encode_utf8(b.balance_commitment)).len() == DIGEST_LEN,
    ensures
        a.user_address == b.user_address,
        a.amount == b.amount,
        spec_sha3_256(encode_utf8(a.balance_commitment)) == spec_sha3_256(
            encode_utf8(b.balance_commitment),
        ),
        spec_commitment_hash(a.balance_commitment) == spec_commitment_hash(b.balance_commitment),
{
    reveal_strlit(":");
    let sep = ":"@;
    assert(sep[0] == ':');
    let mid_a = spec_decimal(a.amount as nat);
    let mid_b = spec_decimal(b.amount as nat);
    lemma_decimal_holds_digits(a.amount as nat);
    lemma_decimal_holds_digits(b.amount as nat);
    assert forall|i: int| 0 <= i < mid_a.len() implies mid_a[i] != sep[0] by {
        assert(spec_is_decimal_char(mid_a[i]));
    }
    assert forall|i: int| 0 <= i < mid_b.len() implies mid_b[i] != sep[0] by {
        assert(spec_is_decimal_char(mid_b[i]));
    }
    lemma_join_is_injective(
        a.user_address,
        mid_a,
        spec_commitment_hash(a.balance_commitment),
        b.user_address,
        mid_b,
        spec_commitment_hash(b.balance_commitment),
        sep,
    );
    lemma_decimal_is_injective(a.amount as nat, b.amount as nat);
    hex_lower_is_injective(
        spec_sha3_256(encode_utf8(a.balance_commitment)),
        spec_sha3_256(encode_utf8(b.balance_commitment)),
    );
}

/// A cache with nothing in it is sound.
pub proof fn empty_cache_is_sound()
    ensures
        spec_cache_sound(Map::<Seq<char>, CachedProof>::empty()),
{
}

/// A cleanup keeps a sound cache sound.
pub proof fn cleanup_keeps_cache_sound(cache: CacheView, now: u64)
    requires
        spec_cache_sound(cache),
    ensures
        spec_cache_sound(spec_sweep(cache, now)),
{
    assert forall|key: Seq<char>| #[trigger]
        spec_sweep(cache, now).contains_key(key) implies spec_derived_under(
        key,
        spec_sweep(cache, now)[key].proof,
    ) by {
        assert(cache.contains_key(key));
    }
}

/// In a sound cache, the proof stored under the fingerprint of a request
/// shows the amount, the address and the commitment digest of that request
/// and has the width of a digest: it differs from the proof that the request
/// derives at most by the nonce, short of two commitments with one digest.
pub proof fn cached_proof_belongs_to_request(cache: CacheView, request: RequestView)
    requires
        spec_cache_sound(cache),
        cache.contains_key(spec_cache_key(request)),
        spec_digest_is_wide(request.balance_commitment),
    ensures
        spec_issued_for(request, cache[spec_cache_key(request)].proof),
{
    let key = spec_cache_key(request);
    let proof = cache[key].proof;
    assert(spec_derived_under(key, proof));
    let maker = choose|maker: RequestView|
        #[trigger] spec_cache_key(maker) == key && spec_derive(maker) == Ok::<
            ProofView,
            ProofError,
        >(proof) && spec_digest_is_wide(maker.balance_commitment) && proof.proof_bytes.len()
            == DIGEST_LEN;
    fingerprint_determines_request(maker, request);
}

/// A generated proof is turned down, without an error, under any commitment
/// whose digest differs from that of the commitment of its request, whatever
/// the balance of that commitment and whatever the nonce. This holds of
/// every proof that a sound cache hands out and of every proof generated on
/// a miss.
pub proof fn generated_proof_rejects_other_commitment(
    cache: CacheView,
    request: RequestView,
    now: u64,
    commitment: Seq<char>,
    nonce: Seq<char>,
)
    requires
        spec_cache_sound(cache),
        spec_digest_is_wide(request.balance_commitment),
        spec_generate(cache, request, now).0 is Ok,
        spec_sha3_256(encode_utf8(commitment)) != spec_sha3_256(
            encode_utf8(request.balance_commitment),
        ),
    ensures
        commitment != request.balance_commitment,
        spec_verify(spec_generate(cache, request, now).0.unwrap(), commitment, nonce) == Ok::<
            bool,
            ProofError,
        >(false),
{
    if spec_lookup(cache, spec_cache_key(request), now) is Some {
        cached_proof_belongs_to_request(cache, request);
    }
    if spec_commitment_hash(commitment) == spec_commitment_hash(request.balance_commitment) {
        hex_lower_is_injective(
            spec_sha3_256(encode_utf8(commitment)),
            spec_sha3_256(encode_utf8(request.balance_commitment)),
        );
    }
}

} // verus!
