//! Balance proofs: a digest that binds a disclosed amount to a commitment
//! whose hidden balance exceeds it.

use crate::cache::{spec_lookup, spec_store, spec_sweep, CacheView, ProofCache};
use crate::clock::unix_seconds;
use crate::commitment::{decode_balance, spec_decode_balance, PREFIX_CHARS};
use crate::digest::{sha3_256, spec_sha3_256, DIGEST_LEN};
use crate::encoding::{
    hex_encode, push_decimal, push_u64_be, spec_all_hex_chars, spec_decimal, spec_hex_lower,
    spec_hex_value, spec_u64_be,
};
use crate::error::ProofError;
use crate::theorems::cached_proof_belongs_to_request;
use vstd::prelude::*;
use vstd::string::{StrSliceExecFns, StringExecFns, StringSliceAdditionalSpecFns};
use vstd::utf8::encode_utf8;

verus! {

/// A request to prove that the balance behind `balance_commitment` exceeds
/// `amount`.
#[derive(Debug)]
pub struct BalanceProofRequest {
    /// Address of the account whose balance is meant.
    pub user_address: String,
    /// The amount to be covered; it is disclosed.
    pub amount: u64,
    /// Opaque string that carries the hidden balance.
    pub balance_commitment: String,
    /// Caller-chosen string mixed into the proof.
    pub secret_nonce: String,
}

/// What a proof discloses.
#[derive(Debug)]
pub struct BalanceProofPublicInputs {
    /// The amount covered.
    pub amount: u64,
    /// Lowercase hexadecimal digest of the commitment.
    pub commitment_hash: String,
    /// Address of the account.
    pub user_address: String,
}

/// A proof that a committed balance exceeds a disclosed amount.
#[derive(Debug)]
pub struct BalanceProof {
    /// The proof itself: one digest.
    pub proof_bytes: Vec<u8>,
    /// What the proof discloses.
    pub public_inputs: BalanceProofPublicInputs,
    /// Lowercase hexadecimal digest of the commitment, as in `public_inputs`.
    pub commitment_hash: String,
}

/// Mathematical content of a `BalanceProofRequest`.
pub struct RequestView {
    pub user_address: Seq<char>,
    pub amount: u64,
    pub balance_commitment: Seq<char>,
    pub secret_nonce: Seq<char>,
}

/// Mathematical content of a `BalanceProofPublicInputs`.
pub struct PublicInputsView {
    pub amount: u64,
    pub commitment_hash: Seq<char>,
    pub user_address: Seq<char>,
}

/// Mathematical content of a `BalanceProof`.
pub struct ProofView {
    pub proof_bytes: Seq<u8>,
    pub public_inputs: PublicInputsView,
    pub commitment_hash: Seq<char>,
}

impl View for BalanceProofRequest {
    type V = RequestView;

    open spec fn view(&self) -> RequestView {
        RequestView {
            user_address: self.user_address@,
            amount: self.amount,
            balance_commitment: self.balance_commitment@,
            secret_nonce: self.secret_nonce@,
        }
    }
}

impl View for BalanceProofPublicInputs {
    type V = PublicInputsView;

    open spec fn view(&self) -> PublicInputsView {
        PublicInputsView {
            amount: self.amount,
            commitment_hash: self.commitment_hash@,
            user_address: self.user_address@,
        }
    }
}

impl View for BalanceProof {
    type V = ProofView;

    open spec fn view(&self) -> ProofView {
        ProofView {
            proof_bytes: self.proof_bytes@,
            public_inputs: self.public_inputs@,
            commitment_hash: self.commitment_hash@,
        }
    }
}

impl Clone for BalanceProofRequest {
    fn clone(&self) -> (copy: Self)
        ensures
            copy@ == self@,
    {
        BalanceProofRequest {
            user_address: self.user_address.clone(),
            amount: self.amount,
            balance_commitment: self.balance_commitment.clone(),
            secret_nonce: self.secret_nonce.clone(),
        }
    }
}

impl Clone for BalanceProofPublicInputs {
    fn clone(&self) -> (copy: Self)
        ensures
            copy@ == self@,
    {
        BalanceProofPublicInputs {
            amount: self.amount,
            commitment_hash: self.commitment_hash.clone(),
            user_address: self.user_address.clone(),
        }
    }
}

impl Clone for BalanceProof {
    fn clone(&self) -> (copy: Self)
        ensures
            copy@ == self@,
    {
        let proof_bytes = self.proof_bytes.clone();
        assert(proof_bytes@ =~= self.proof_bytes@);
        BalanceProof {
            proof_bytes,
            public_inputs: self.public_inputs.clone(),
            commitment_hash: self.commitment_hash.clone(),
        }
    }
}

/// Lowercase hexadecimal digest of the bytes of `commitment`.
pub open spec fn spec_commitment_hash(commitment: Seq<char>) -> Seq<char> {
    spec_hex_lower(spec_sha3_256(encode_utf8(commitment)))
}

/// The bytes that a proof digests: the amount and the difference between
/// balance and amount, each as eight big-endian bytes, the bytes of the
/// commitment, and the bytes of the nonce, in this order.
pub open spec fn spec_proof_preimage(
    amount: u64,
    diff: u64,
    commitment: Seq<char>,
    nonce: Seq<char>,
) -> Seq<u8> {
    spec_u64_be(amount) + spec_u64_be(diff) + encode_utf8(commitment) + encode_utf8(nonce)
}

/// The proof bytes for `amount` under a commitment of balance `balance`.
pub open spec fn spec_proof_digest(
    amount: u64,
    balance: u64,
    commitment: Seq<char>,
    nonce: Seq<char>,
) -> Seq<u8> {
    spec_sha3_256(spec_proof_preimage(amount, (balance - amount) as u64, commitment, nonce))
}

/// The proof that a request derives, or the reason why it derives none.
pub open spec fn spec_derive(request: RequestView) -> Result<ProofView, ProofError> {
    match spec_decode_balance(request.balance_commitment) {
        None => Err(ProofError::UnparsableCommitment),
        Some(balance) => if balance <= request.amount {
            Err(ProofError::InsufficientBalance { balance, amount: request.amount })
        } else {
            Ok(
                ProofView {
                    proof_bytes: spec_proof_digest(
                        request.amount,
                        balance,
                        request.balance_commitment,
                        request.secret_nonce,
                    ),
                    public_inputs: PublicInputsView {
                        amount: request.amount,
                        commitment_hash: spec_commitment_hash(request.balance_commitment),
                        user_address: request.user_address,
                    },
                    commitment_hash: spec_commitment_hash(request.balance_commitment),
                },
            )
        },
    }
}

/// Whether `proof` holds for `commitment` and `nonce`, or the reason why this
/// cannot be told. A commitment with another digest is turned down before
/// its balance is read.
pub open spec fn spec_verify(proof: ProofView, commitment: Seq<char>, nonce: Seq<char>) -> Result<
    bool,
    ProofError,
> {
    if proof.commitment_hash != spec_commitment_hash(commitment) {
        Ok(false)
    } else {
        match spec_decode_balance(commitment) {
            None => Err(ProofError::UnparsableCommitment),
            Some(balance) => if balance <= proof.public_inputs.amount {
                Ok(false)
            } else {
                Ok(
                    proof.proof_bytes == spec_proof_digest(
                        proof.public_inputs.amount,
                        balance,
                        commitment,
                        nonce,
                    ),
                )
            },
        }
    }
}

/// The fingerprint under which the proof of a request is cached: address,
/// amount in decimal and commitment digest, joined by colons. The nonce takes
/// no part in it.
pub open spec fn spec_cache_key(request: RequestView) -> Seq<char> {
    request.user_address + ":"@ + spec_decimal(request.amount as nat) + ":"@
        + spec_commitment_hash(request.balance_commitment)
}

/// The content of an outcome of proof generation.
pub open spec fn spec_outcome(outcome: Result<BalanceProof, ProofError>) -> Result<
    ProofView,
    ProofError,
> {
    match outcome {
        Ok(proof) => Ok(proof@),
        Err(e) => Err(e),
    }
}

/// Outcome of generating at `now` against `cache`, and the cache after it.
/// A valid entry under the fingerprint is handed out as it is and nothing
/// changes; otherwise the proof is derived and, where there is one, stored.
pub open spec fn spec_generate(cache: CacheView, request: RequestView, now: u64) -> (
    Result<ProofView, ProofError>,
    CacheView,
) {
    match spec_lookup(cache, spec_cache_key(request), now) {
        Some(proof) => (Ok(proof), cache),
        None => match spec_derive(request) {
            Ok(proof) => (Ok(proof), spec_store(cache, spec_cache_key(request), proof, now)),
            Err(e) => (Err(e), cache),
        },
    }
}

/// Outcome of generating while the clock cannot be read: nothing is looked
/// up, and a derived proof is stored with stamp zero.
pub open spec fn spec_generate_unclocked(cache: CacheView, request: RequestView) -> (
    Result<ProofView, ProofError>,
    CacheView,
) {
    match spec_derive(request) {
        Ok(proof) => (Ok(proof), spec_store(cache, spec_cache_key(request), proof, 0)),
        Err(e) => (Err(e), cache),
    }
}

/// Number of characters of the commitment digest that the one-line
/// description of a proof shows.
pub const SHOWN_HASH_CHARS: usize = 16;

/// The one-line description of a proof: its amount, the leading characters
/// of its commitment digest and its size.
pub open spec fn spec_display(proof: ProofView) -> Seq<char> {
    let shown = if proof.commitment_hash.len() < SHOWN_HASH_CHARS {
        proof.commitment_hash.len() as int
    } else {
        SHOWN_HASH_CHARS as int
    };
    "BalanceProof(amount="@ + spec_decimal(proof.public_inputs.amount as nat)
        + ", commitment_hash="@ + proof.commitment_hash.subrange(0, shown) + ", proof_size="@
        + spec_decimal(proof.proof_bytes.len()) + " bytes)"@
}

/// Whether the digest of `commitment` has the width of a digest. Every
/// digest that was computed has it.
pub open spec fn spec_digest_is_wide(commitment: Seq<char>) -> bool {
    spec_sha3_256(encode_utf8(commitment)).len() == DIGEST_LEN
}

/// What every proof issued for `request` shows, whether it was derived for
/// this request or handed out from the cache: the amount and the address of
/// the request, the digest of its commitment in both places, and proof bytes
/// of the width of a digest.
pub open spec fn spec_issued_for(request: RequestView, proof: ProofView) -> bool {
    &&& proof.public_inputs.amount == request.amount
    &&& proof.public_inputs.user_address == request.user_address
    &&& proof.public_inputs.commitment_hash == spec_commitment_hash(request.balance_commitment)
    &&& proof.commitment_hash == spec_commitment_hash(request.balance_commitment)
    &&& proof.proof_bytes.len() == DIGEST_LEN
}

/// Whether `proof` is what some request with fingerprint `key` derives.
pub open spec fn spec_derived_under(key: Seq<char>, proof: ProofView) -> bool {
    exists|request: RequestView|
        #[trigger] spec_cache_key(request) == key && spec_derive(request) == Ok::<
            ProofView,
            ProofError,
        >(proof) && spec_digest_is_wide(request.balance_commitment) && proof.proof_bytes.len()
            == DIGEST_LEN
}

/// Whether a cache holds under every fingerprint a proof that a request with
/// that fingerprint derives. An empty cache does, and generating and
/// cleaning up keep it so; storing a proof by hand need not.
pub open spec fn spec_cache_sound(cache: CacheView) -> bool {
    forall|key: Seq<char>| #[trigger]
        cache.contains_key(key) ==> spec_derived_under(key, cache[key].proof)
}

/// Computes the lowercase hexadecimal digest of a commitment.
pub fn commitment_hash(commitment: &str) -> (hash: String)
    ensures
        hash@ == spec_commitment_hash(commitment@),
        spec_digest_is_wide(commitment@),
        hash@.len() == 2 * DIGEST_LEN,
{
    let digest = sha3_256(commitment.as_bytes());
    hex_encode(digest.as_slice())
}

/// Lays out the bytes that a proof digests.
pub fn proof_preimage(amount: u64, diff: u64, commitment: &str, nonce: &str) -> (bytes: Vec<u8>)
    ensures
        bytes@ == spec_proof_preimage(amount, diff, commitment@, nonce@),
{
    let mut bytes: Vec<u8> = Vec::new();
    push_u64_be(&mut bytes, amount);
    push_u64_be(&mut bytes, diff);
    bytes.extend_from_slice(commitment.as_bytes());
    assert(bytes@ =~= spec_u64_be(amount) + spec_u64_be(diff) + encode_utf8(commitment@));
    bytes.extend_from_slice(nonce.as_bytes());
    assert(bytes@ =~= spec_proof_preimage(amount, diff, commitment@, nonce@));
    bytes
}

impl BalanceProof {
    /// Puts a proof together from a request and the two digests computed
    /// for it.
    pub fn assemble(request: &BalanceProofRequest, proof_bytes: Vec<u8>, commitment_hash: String) -> (proof: Self)
        ensures
            proof@ == (ProofView {
                proof_bytes: proof_bytes@,
                public_inputs: PublicInputsView {
                    amount: request.amount,
                    commitment_hash: commitment_hash@,
                    user_address: request.user_address@,
                },
                commitment_hash: commitment_hash@,
            }),
    {
        let public_inputs = BalanceProofPublicInputs {
            amount: request.amount,
            commitment_hash: commitment_hash.clone(),
            user_address: request.user_address.clone(),
        };
        BalanceProof { proof_bytes, public_inputs, commitment_hash }
    }

    /// Reads the balance out of a commitment.
    pub fn extract_balance_from_commitment(commitment: &str) -> (balance: Result<u64, ProofError>)
        ensures
            match balance {
                Ok(value) => spec_decode_balance(commitment@) == Some(value),
                Err(e) => spec_decode_balance(commitment@) is None && e
                    == ProofError::UnparsableCommitment,
            },
            balance is Ok <==> commitment@.len() >= PREFIX_CHARS && spec_all_hex_chars(
                commitment@.subrange(0, PREFIX_CHARS as int),
            ),
            balance matches Ok(value) ==> value == spec_hex_value(
                commitment@.subrange(0, PREFIX_CHARS as int),
            ),
    {
        decode_balance(commitment)
    }

    /// Derives the proof of a request, consulting no cache.
    pub fn derive(request: &BalanceProofRequest) -> (outcome: Result<Self, ProofError>)
        ensures
            spec_outcome(outcome) == spec_derive(request@),
            spec_digest_is_wide(request.balance_commitment@),
            outcome matches Ok(proof) ==> spec_issued_for(request@, proof@),
    {
        let hash = commitment_hash(request.balance_commitment.as_str());
        Self::derive_with(request, hash)
    }

    fn derive_with(request: &BalanceProofRequest, hash: String) -> (outcome: Result<
        Self,
        ProofError,
    >)
        requires
            hash@ == spec_commitment_hash(request.balance_commitment@),
        ensures
            spec_outcome(outcome) == spec_derive(request@),
            outcome matches Ok(proof) ==> spec_issued_for(request@, proof@),
    {
        let balance: u64 = match decode_balance(request.balance_commitment.as_str()) {
            Ok(value) => value,
            Err(e) => {
                return Err(e);
            },
        };
        if balance <= request.amount {
            return Err(ProofError::InsufficientBalance { balance, amount: request.amount });
        }
        let diff: u64 = balance - request.amount;
        let preimage = proof_preimage(
            request.amount,
            diff,
            request.balance_commitment.as_str(),
            request.secret_nonce.as_str(),
        );
        let proof_bytes = sha3_256(preimage.as_slice());
        Ok(Self::assemble(request, proof_bytes, hash))
    }

    fn cache_key_with(request: &BalanceProofRequest, hash: &str) -> (key: String)
        ensures
            key@ == request.user_address@ + ":"@ + spec_decimal(request.amount as nat) + ":"@
                + hash@,
    {
        let mut key = request.user_address.clone();
        key.append(":");
        push_decimal(&mut key, request.amount);
        key.append(":");
        key.append(hash);
        key
    }

    /// The fingerprint under which the proof of `request` is cached.
    pub fn cache_key(request: &BalanceProofRequest) -> (key: String)
        ensures
            key@ == spec_cache_key(request@),
            spec_digest_is_wide(request.balance_commitment@),
    {
        let hash = commitment_hash(request.balance_commitment.as_str());
        Self::cache_key_with(request, hash.as_str())
    }

    /// The cached proof of `request`, if there is one that is still valid
    /// by the system clock.
    pub fn get_cached(request: &BalanceProofRequest, cache: &ProofCache) -> (found: Option<Self>)
        ensures
            found matches Some(proof) ==> exists|now: u64|
                spec_lookup(cache@, spec_cache_key(request@), now) == Some(proof@),
    {
        let key = Self::cache_key(request);
        cache.get(key.as_str())
    }

    /// Stores `proof` as the cached proof of `request`, stamped with the
    /// system clock.
    pub fn cache_proof(request: &BalanceProofRequest, proof: &BalanceProof, cache: &mut ProofCache)
        ensures
            exists|now: u64|
                final(cache)@ == spec_store(old(cache)@, spec_cache_key(request@), proof@, now),
    {
        let key = Self::cache_key(request);
        cache.put(key, proof.clone());
    }

    /// Drops the cached proofs that are no longer valid by the system clock.
    pub fn cleanup_cache(cache: &mut ProofCache)
        ensures
            exists|now: u64| final(cache)@ == spec_sweep(old(cache)@, now),
            spec_cache_sound(old(cache)@) ==> spec_cache_sound(final(cache)@),
    {
        cache.cleanup();
    }

    /// Derives the proof of `request` and, where there is one, stores it
    /// under `key` with stamp `stamp`.
    fn derive_and_store(
        request: &BalanceProofRequest,
        hash: String,
        key: String,
        cache: &mut ProofCache,
        stamp: u64,
    ) -> (outcome: Result<Self, ProofError>)
        requires
            hash@ == spec_commitment_hash(request.balance_commitment@),
            spec_digest_is_wide(request.balance_commitment@),
            key@ == spec_cache_key(request@),
        ensures
            spec_outcome(outcome) == spec_derive(request@),
            final(cache)@ == match spec_derive(request@) {
                Ok(proof) => spec_store(old(cache)@, spec_cache_key(request@), proof, stamp),
                Err(_) => old(cache)@,
            },
            outcome matches Ok(proof) ==> spec_issued_for(request@, proof@),
            spec_cache_sound(old(cache)@) ==> spec_cache_sound(final(cache)@),
    {
        match Self::derive_with(request, hash) {
            Ok(proof) => {
                cache.put_at(key, proof.clone(), stamp);
                proof {
                    if spec_cache_sound(old(cache)@) {
                        assert forall|k: Seq<char>| #[trigger]
                            cache@.contains_key(k) implies spec_derived_under(
                            k,
                            cache@[k].proof,
                        ) by {
                            if k == spec_cache_key(request@) {
                                assert(spec_cache_key(request@) == k);
                            } else {
                                assert(old(cache)@.contains_key(k));
                            }
                        }
                    }
                }
                Ok(proof)
            },
            Err(e) => Err(e),
        }
    }

    /// Generates the proof of `request` at time `now`: the cached proof
    /// where a valid one is stored under the fingerprint of the request,
    /// else a freshly derived one, which is stored in its turn. A request
    /// that derives no proof leaves the cache as it is.
    pub fn generate_at(request: &BalanceProofRequest, cache: &mut ProofCache, now: u64) -> (outcome:
        Result<Self, ProofError>)
        ensures
            spec_outcome(outcome) == spec_generate(old(cache)@, request@, now).0,
            final(cache)@ == spec_generate(old(cache)@, request@, now).1,
            spec_digest_is_wide(request.balance_commitment@),
            outcome matches Ok(proof) ==> (spec_cache_sound(old(cache)@) || spec_lookup(
                old(cache)@,
                spec_cache_key(request@),
                now,
            ) is None) ==> spec_issued_for(request@, proof@),
            spec_cache_sound(old(cache)@) ==> spec_cache_sound(final(cache)@),
    {
        let hash = commitment_hash(request.balance_commitment.as_str());
        let key = Self::cache_key_with(request, hash.as_str());
        match cache.get_at(key.as_str(), now) {
            Some(proof) => {
                proof {
                    if spec_cache_sound(cache@) {
                        cached_proof_belongs_to_request(cache@, request@);
                    }
                }
                Ok(proof)
            },
            None => Self::derive_and_store(request, hash, key, cache, now),
        }
    }

    /// Generates the proof of `request` by the system clock. Where the clock
    /// cannot be read, nothing is looked up and a derived proof is stored
    /// with stamp zero.
    pub fn generate(request: &BalanceProofRequest, cache: &mut ProofCache) -> (outcome: Result<
        Self,
        ProofError,
    >)
        ensures
            (exists|now: u64|
                (spec_outcome(outcome), final(cache)@) == spec_generate(
                    old(cache)@,
                    request@,
                    now,
                )) || (spec_outcome(outcome), final(cache)@) == spec_generate_unclocked(
                old(cache)@,
                request@,
            ),
            spec_digest_is_wide(request.balance_commitment@),
            outcome matches Ok(proof) ==> (spec_cache_sound(old(cache)@) || !old(
                cache,
            )@.contains_key(spec_cache_key(request@))) ==> spec_issued_for(request@, proof@),
            spec_cache_sound(old(cache)@) ==> spec_cache_sound(final(cache)@),
    {
        match unix_seconds() {
            Some(now) => {
                let outcome = Self::generate_at(request, cache, now);
                assert((spec_outcome(outcome), cache@) == spec_generate(
                    old(cache)@,
                    request@,
                    now,
                ));
                outcome
            },
            None => {
                let hash = commitment_hash(request.balance_commitment.as_str());
                let key = Self::cache_key_with(request, hash.as_str());
                Self::derive_and_store(request, hash, key, cache, 0)
            },
        }
    }

    /// Whether the commitment digest stored in the proof is `recomputed`.
    pub fn matches_commitment_hash(&self, recomputed: &String) -> (same: bool)
        ensures
            same == (self.commitment_hash@ == recomputed@),
    {
        self.commitment_hash == *recomputed
    }

    /// Whether the proof bytes are exactly `digest`.
    pub fn matches_digest(&self, digest: &Vec<u8>) -> (same: bool)
        ensures
            same == (self.proof_bytes@ == digest@),
    {
        let same = self.proof_bytes == *digest;
        proof {
            if same {
                assert(self.proof_bytes@ =~= digest@);
            }
        }
        same
    }

    /// Checks the proof against a commitment and a nonce.
    ///
    /// `Ok(false)` says that the proof does not hold; an error says that the
    /// commitment has the digest the proof names and yet no readable balance.
    pub fn verify(&self, balance_commitment: &str, secret_nonce: &str) -> (outcome: Result<
        bool,
        ProofError,
    >)
        ensures
            outcome == spec_verify(self@, balance_commitment@, secret_nonce@),
    {
        let expected_hash = commitment_hash(balance_commitment);
        if !self.matches_commitment_hash(&expected_hash) {
            return Ok(false);
        }
        let balance: u64 = match decode_balance(balance_commitment) {
            Ok(value) => value,
            Err(e) => {
                return Err(e);
            },
        };
        if balance <= self.public_inputs.amount {
            return Ok(false);
        }
        let diff: u64 = balance - self.public_inputs.amount;
        let preimage = proof_preimage(
            self.public_inputs.amount,
            diff,
            balance_commitment,
            secret_nonce,
        );
        let expected = sha3_256(preimage.as_slice());
        Ok(self.matches_digest(&expected))
    }

    /// A one-line description of the proof for logs and messages.
    pub fn to_display_string(&self) -> (text: String)
        ensures
            text@ == spec_display(self@),
    {
        let hash = self.commitment_hash.as_str();
        let length: usize = hash.unicode_len();
        let shown: usize = if length < SHOWN_HASH_CHARS {
            length
        } else {
            SHOWN_HASH_CHARS
        };
        let mut text = String::from_str("BalanceProof(amount=");
        push_decimal(&mut text, self.public_inputs.amount);
        text.append(", commitment_hash=");
        text.append(hash.substring_char(0, shown));
        text.append(", proof_size=");
        push_decimal(&mut text, self.proof_bytes.len() as u64);
        text.append(" bytes)");
        text
    }

    /// The proof bytes as lowercase hexadecimal text.
    pub fn to_hex(&self) -> (text: String)
        ensures
            text@ == spec_hex_lower(self.proof_bytes@),
    {
        hex_encode(self.proof_bytes.as_slice())
    }

    /// Number of proof bytes.
    pub fn size(&self) -> (n: usize)
        ensures
            n == self.proof_bytes@.len(),
    {
        self.proof_bytes.len()
    }
}

} // verus!
