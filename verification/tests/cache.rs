use prover::balance_proof::{BalanceProof, BalanceProofRequest};
use prover::cache::{is_live, ProofCache, CACHE_TTL_SECONDS};
use prover::clock::unix_seconds;

fn proof_for(nonce: &str) -> BalanceProof {
    BalanceProof::derive(&BalanceProofRequest {
        user_address: "0xabcd".to_string(),
        amount: 5,
        balance_commitment: "00000000000003e8suffix".to_string(),
        secret_nonce: nonce.to_string(),
    })
    .unwrap()
}

#[test]
fn ttl_is_sixty_seconds() {
    assert_eq!(CACHE_TTL_SECONDS, 60);
}

#[test]
fn liveness_is_age_strictly_below_the_ttl() {
    assert!(is_live(1000, 1000));
    assert!(is_live(1059, 1000));
    assert!(!is_live(1060, 1000));
    assert!(!is_live(1061, 1000));
    assert!(!is_live(u64::MAX, 0));
    // a clock that went backwards gives age zero
    assert!(is_live(999, 1000));
    assert!(is_live(0, u64::MAX));
}

#[test]
fn new_cache_is_empty() {
    let cache = ProofCache::new();
    assert_eq!(cache.len(), 0);
    assert!(cache.get_at("anything", 0).is_none());
}

#[test]
fn get_returns_a_live_entry_and_does_not_evict() {
    let mut cache = ProofCache::new();
    let proof = proof_for("a");
    cache.put_at("k".to_string(), proof.clone(), 1000);
    let found = cache.get_at("k", 1059).unwrap();
    assert_eq!(found.proof_bytes, proof.proof_bytes);
    assert_eq!(found.commitment_hash, proof.commitment_hash);
    assert_eq!(found.public_inputs.amount, 5);
    assert!(cache.get_at("k", 1060).is_none());
    assert_eq!(cache.len(), 1);
    assert!(cache.get_at("k", 1000).is_some());
    assert!(cache.get_at("other", 1000).is_none());
    assert!(cache.get_at("K", 1000).is_none());
}

#[test]
fn reading_does_not_prolong_an_entry() {
    let mut cache = ProofCache::new();
    cache.put_at("k".to_string(), proof_for("a"), 1000);
    assert!(cache.get_at("k", 1059).is_some());
    assert!(cache.get_at("k", 1060).is_none());
}

#[test]
fn put_overwrites_and_restamps() {
    let mut cache = ProofCache::new();
    let first = proof_for("a");
    let second = proof_for("b");
    cache.put_at("k".to_string(), first, 1000);
    cache.put_at("k".to_string(), second.clone(), 1050);
    assert_eq!(cache.len(), 1);
    let found = cache.get_at("k", 1109).unwrap();
    assert_eq!(found.proof_bytes, second.proof_bytes);
    assert!(cache.get_at("k", 1110).is_none());
}

#[test]
fn put_keeps_other_keys() {
    let mut cache = ProofCache::new();
    let a = proof_for("a");
    let b = proof_for("b");
    cache.put_at("a".to_string(), a.clone(), 1000);
    cache.put_at("b".to_string(), b.clone(), 1001);
    cache.put_at("a".to_string(), a.clone(), 1002);
    assert_eq!(cache.len(), 2);
    assert_eq!(cache.get_at("b", 1001).unwrap().proof_bytes, b.proof_bytes);
    assert_eq!(cache.get_at("a", 1061).unwrap().proof_bytes, a.proof_bytes);
}

#[test]
fn cleanup_removes_expired_and_retains_fresh_entries() {
    let mut cache = ProofCache::new();
    let old = proof_for("old");
    let fresh = proof_for("fresh");
    cache.put_at("old".to_string(), old, 1000);
    cache.put_at("fresh".to_string(), fresh.clone(), 1040);
    cache.cleanup_at(1061);
    assert_eq!(cache.len(), 1);
    assert!(cache.get_at("old", 1000).is_none());
    assert_eq!(cache.get_at("fresh", 1061).unwrap().proof_bytes, fresh.proof_bytes);
}

#[test]
fn cleanup_boundary_is_sixty_seconds() {
    let mut cache = ProofCache::new();
    cache.put_at("k".to_string(), proof_for("a"), 1000);
    cache.cleanup_at(1059);
    assert_eq!(cache.len(), 1);
    cache.cleanup_at(1060);
    assert_eq!(cache.len(), 0);
}

#[test]
fn cleanup_keeps_entries_stamped_in_the_future() {
    let mut cache = ProofCache::new();
    cache.put_at("k".to_string(), proof_for("a"), 5000);
    cache.cleanup_at(1000);
    assert_eq!(cache.len(), 1);
}

#[test]
fn cleanup_of_many_entries_keeps_exactly_the_live_ones() {
    let mut cache = ProofCache::new();
    for i in 0..10u64 {
        cache.put_at(format!("key{}", i), proof_for("a"), 1000 + 10 * i);
    }
    assert_eq!(cache.len(), 10);
    cache.cleanup_at(1100);
    // stamps 1050, 1060, 1070, 1080, 1090 are younger than sixty seconds
    assert_eq!(cache.len(), 5);
    for i in 0..10u64 {
        assert_eq!(cache.get_at(&format!("key{}", i), 1100).is_some(), i >= 5);
    }
    cache.cleanup_at(1100);
    assert_eq!(cache.len(), 5);
    cache.cleanup_at(2000);
    assert_eq!(cache.len(), 0);
}

#[test]
fn cache_grows_without_bound_between_cleanups() {
    let mut cache = ProofCache::new();
    for i in 0..300u64 {
        cache.put_at(format!("key{}", i), proof_for("a"), i);
    }
    assert_eq!(cache.len(), 300);
    assert!(cache.get_at("key0", 0).is_some());
}

#[test]
fn clocked_operations_stamp_with_the_present() {
    let mut cache = ProofCache::new();
    let before = unix_seconds().unwrap();
    cache.put("k".to_string(), proof_for("a"));
    assert!(cache.get("k").is_some());
    assert!(cache.get("missing").is_none());
    cache.cleanup();
    assert_eq!(cache.len(), 1);
    assert!(cache.get_at("k", before).is_some());
    assert!(cache.get_at("k", before + 61).is_none());
}

#[test]
fn clock_reads_a_time_after_the_year_2020() {
    assert!(unix_seconds().unwrap() > 1_577_836_800);
}
