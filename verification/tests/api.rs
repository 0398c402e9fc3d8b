use prover::api::{
    cleanup_due, AppState, BalanceProofResponse, BatchProofRequest, BatchProofResponse,
    HealthResponse, ProofSummary, StatusResponse, VerifyProofRequest, VerifyProofResponse,
    CLEANUP_INTERVAL, MAX_BATCH_SIZE,
};
use prover::balance_proof::{BalanceProof, BalanceProofRequest};
use prover::error::ProofError;

fn request(balance: u64, amount: u64) -> BalanceProofRequest {
    BalanceProofRequest {
        user_address: "0x1234".to_string(),
        amount,
        balance_commitment: format!("{:016x}{}", balance, "suffix"),
        secret_nonce: "nonce".to_string(),
    }
}

#[test]
fn health_names_the_service() {
    let health = HealthResponse::healthy();
    assert_eq!(health.status, "healthy");
    assert_eq!(health.service, "zkp-prover-balance");
    assert_eq!(health.version, "0.1.0");
}

#[test]
fn cleanup_is_due_every_hundredth_request() {
    assert_eq!(CLEANUP_INTERVAL, 100);
    assert!(cleanup_due(0));
    assert!(!cleanup_due(1));
    assert!(!cleanup_due(99));
    assert!(cleanup_due(100));
    assert!(!cleanup_due(101));
    assert!(cleanup_due(1_000_000));
    assert!(!cleanup_due(u64::MAX));
}

#[test]
fn proof_response_reports_success() {
    let proof = BalanceProof::derive(&request(1000, 500)).unwrap();
    let response = BalanceProofResponse::from_outcome(Ok(proof.clone()));
    assert!(response.success);
    assert_eq!(response.proof.unwrap().proof_bytes, proof.proof_bytes);
    assert_eq!(response.message, "Balance proof generated successfully");
}

#[test]
fn proof_response_reports_failure_with_both_numbers() {
    let response = BalanceProofResponse::from_outcome(BalanceProof::derive(&request(100, 500)));
    assert!(!response.success);
    assert!(response.proof.is_none());
    assert_eq!(
        response.message,
        "Failed to generate proof: Invalid proof: balance 100 <= amount 500"
    );
    let response = BalanceProofResponse::from_outcome(Err(ProofError::UnparsableCommitment));
    assert_eq!(
        response.message,
        "Failed to generate proof: Cannot extract balance from commitment"
    );
}

#[test]
fn verify_response_tells_rejection_from_failure() {
    let accepted = VerifyProofResponse::from_outcome(Ok(true));
    assert!(accepted.success && accepted.verified);
    assert_eq!(accepted.message, "Proof verified successfully");
    let rejected = VerifyProofResponse::from_outcome(Ok(false));
    assert!(rejected.success && !rejected.verified);
    assert_eq!(rejected.message, "Proof verification failed");
    let failed = VerifyProofResponse::from_outcome(Err(ProofError::UnparsableCommitment));
    assert!(!failed.success && !failed.verified);
    assert_eq!(
        failed.message,
        "Verification error: Cannot extract balance from commitment"
    );
}

#[test]
fn verify_request_is_evaluated() {
    let req = request(1000, 500);
    let proof = BalanceProof::derive(&req).unwrap();
    let good = VerifyProofRequest {
        proof: proof.clone(),
        balance_commitment: req.balance_commitment.clone(),
        secret_nonce: "nonce".to_string(),
    };
    let response = good.evaluate();
    assert!(response.success && response.verified);
    let bad = VerifyProofRequest {
        proof,
        balance_commitment: req.balance_commitment.clone(),
        secret_nonce: "other".to_string(),
    };
    let response = bad.evaluate();
    assert!(response.success && !response.verified);
    assert_eq!(response.message, "Proof verification failed");
}

#[test]
fn status_counts_issued_proofs() {
    let status = StatusResponse::running(3);
    assert_eq!(status.status, "running");
    assert_eq!(status.generated_proofs, 3);
    let mut state = AppState::new();
    assert_eq!(state.status().generated_proofs, 0);
    state.record(BalanceProof::derive(&request(1000, 500)).unwrap());
    state.record(BalanceProof::derive(&request(1000, 501)).unwrap());
    assert_eq!(state.status().generated_proofs, 2);
    assert_eq!(state.status().status, "running");
    assert_eq!(state.proofs[1].public_inputs.amount, 501);
}

#[test]
fn summaries_show_each_proof_in_order() {
    let mut state = AppState::new();
    assert!(state.summaries().is_empty());
    let first = BalanceProof::derive(&request(1000, 500)).unwrap();
    let second = BalanceProof::derive(&request(2000, 501)).unwrap();
    state.record(first.clone());
    state.record(second.clone());
    let list = state.summaries();
    assert_eq!(list.len(), 2);
    assert_eq!(list[0].amount, 500);
    assert_eq!(list[0].user_address, "0x1234");
    assert_eq!(list[0].commitment_hash, first.commitment_hash);
    assert_eq!(list[0].proof_hex, first.to_hex());
    assert_eq!(list[0].proof_size, 32);
    assert_eq!(list[1].amount, 501);
    assert_eq!(list[1].proof_hex, second.to_hex());
    let single = ProofSummary::of(&second);
    assert_eq!(single.commitment_hash, second.commitment_hash);
}

#[test]
fn batch_limit_is_one_hundred_requests() {
    assert_eq!(MAX_BATCH_SIZE, 100);
    let mut batch = BatchProofRequest { requests: Vec::new() };
    assert!(batch.within_limit());
    for _ in 0..100 {
        batch.requests.push(request(1000, 500));
    }
    assert!(batch.within_limit());
    batch.requests.push(request(1000, 500));
    assert!(!batch.within_limit());
    let refusal = BatchProofResponse::too_large();
    assert!(!refusal.success);
    assert!(refusal.proofs.is_empty());
    assert_eq!(refusal.errors, vec![Some("Batch size too large (max 100)".to_string())]);
    assert_eq!(refusal.message, "Batch size exceeds limit");
}

#[test]
fn batch_response_runs_parallel_to_the_outcomes() {
    let good = BalanceProof::derive(&request(1000, 500)).unwrap();
    let outcomes = vec![
        Ok(good.clone()),
        Err("Invalid proof: balance 100 <= amount 500".to_string()),
        Err("Task error: cancelled".to_string()),
        Ok(good.clone()),
    ];
    let response = BatchProofResponse::from_outcomes(&outcomes);
    assert!(response.success);
    assert_eq!(response.proofs.len(), 4);
    assert_eq!(response.errors.len(), 4);
    assert_eq!(response.proofs[0].as_ref().unwrap().proof_bytes, good.proof_bytes);
    assert!(response.proofs[1].is_none());
    assert!(response.proofs[2].is_none());
    assert!(response.proofs[3].is_some());
    assert_eq!(
        response.errors,
        vec![
            None,
            Some("Invalid proof: balance 100 <= amount 500".to_string()),
            Some("Task error: cancelled".to_string()),
            None
        ]
    );
    assert_eq!(response.message, "Generated 2 proofs successfully");
}

#[test]
fn batch_without_any_proof_is_no_success() {
    let response = BatchProofResponse::from_outcomes(&vec![Err("no".to_string())]);
    assert!(!response.success);
    assert_eq!(response.message, "Generated 0 proofs successfully");
    let empty = BatchProofResponse::from_outcomes(&Vec::new());
    assert!(!empty.success);
    assert!(empty.proofs.is_empty());
    assert!(empty.errors.is_empty());
    assert_eq!(empty.message, "Generated 0 proofs successfully");
}
