//! The messages that a service built on the engine exchanges with its
//! clients, and the rules by which it fills them in. Transport is left to
//! the program that embeds the library.

use crate::balance_proof::{spec_verify, BalanceProof, BalanceProofRequest, ProofView};
use crate::encoding::{push_decimal, spec_decimal, spec_hex_lower};
use crate::error::ProofError;
use vstd::prelude::*;
use vstd::string::StringExecFns;

verus! {

/// Cached proofs are swept once in this many generation requests.
pub const CLEANUP_INTERVAL: u64 = 100;

/// Largest number of requests that one batch may hold.
pub const MAX_BATCH_SIZE: usize = 100;

/// Whether the request with running number `request_count`, counted from
/// zero, is one before which the cache is swept.
pub fn cleanup_due(request_count: u64) -> (due: bool)
    ensures
        due == (request_count % CLEANUP_INTERVAL == 0),
{
    request_count % CLEANUP_INTERVAL == 0
}

/// Answer to a health probe.
#[derive(Debug)]
pub struct HealthResponse {
    pub status: String,
    pub service: String,
    pub version: String,
}

impl HealthResponse {
    /// The answer of a service that is up.
    pub fn healthy() -> (response: Self)
        ensures
            response.status@ == "healthy"@,
            response.service@ == "zkp-prover-balance"@,
            response.version@ == "0.1.0"@,
    {
        HealthResponse {
            status: String::from_str("healthy"),
            service: String::from_str("zkp-prover-balance"),
            version: String::from_str("0.1.0"),
        }
    }
}

/// Answer to a request for a proof.
#[derive(Debug)]
pub struct BalanceProofResponse {
    pub success: bool,
    pub proof: Option<BalanceProof>,
    pub message: String,
}

impl BalanceProofResponse {
    /// The answer that reports `outcome`: the proof where there is one, else
    /// the reason why there is none.
    pub fn from_outcome(outcome: Result<BalanceProof, ProofError>) -> (response: Self)
        ensures
            match outcome {
                Ok(proof) => {
                    &&& response.success
                    &&& response.proof == Some(proof)
                    &&& response.message@ == "Balance proof generated successfully"@
                },
                Err(e) => {
                    &&& !response.success
                    &&& response.proof is None
                    &&& response.message@ == "Failed to generate proof: "@ + e.spec_message()
                },
            },
    {
        match outcome {
            Ok(proof) => BalanceProofResponse {
                success: true,
                proof: Some(proof),
                message: String::from_str("Balance proof generated successfully"),
            },
            Err(e) => {
                let mut message = String::from_str("Failed to generate proof: ");
                let reason = e.message();
                message.append(reason.as_str());
                BalanceProofResponse { success: false, proof: None, message }
            },
        }
    }
}

/// A proof submitted for verification, with the commitment and the nonce to
/// verify it under.
#[derive(Debug)]
pub struct VerifyProofRequest {
    pub proof: BalanceProof,
    pub balance_commitment: String,
    pub secret_nonce: String,
}

/// Answer to a request for verification. `success` says that the proof could
/// be evaluated, `verified` that it holds.
#[derive(Debug)]
pub struct VerifyProofResponse {
    pub success: bool,
    pub verified: bool,
    pub message: String,
}

/// Mathematical content of a `VerifyProofResponse`.
pub struct VerifyProofResponseView {
    pub success: bool,
    pub verified: bool,
    pub message: Seq<char>,
}

impl View for VerifyProofResponse {
    type V = VerifyProofResponseView;

    open spec fn view(&self) -> VerifyProofResponseView {
        VerifyProofResponseView {
            success: self.success,
            verified: self.verified,
            message: self.message@,
        }
    }
}

/// The answer that reports a verification outcome.
pub open spec fn spec_verify_response(outcome: Result<bool, ProofError>) -> VerifyProofResponseView {
    match outcome {
        Ok(true) => VerifyProofResponseView {
            success: true,
            verified: true,
            message: "Proof verified successfully"@,
        },
        Ok(false) => VerifyProofResponseView {
            success: true,
            verified: false,
            message: "Proof verification failed"@,
        },
        Err(e) => VerifyProofResponseView {
            success: false,
            verified: false,
            message: "Verification error: "@ + e.spec_message(),
        },
    }
}

impl VerifyProofResponse {
    /// The answer that reports `outcome`.
    pub fn from_outcome(outcome: Result<bool, ProofError>) -> (response: Self)
        ensures
            response@ == spec_verify_response(outcome),
    {
        match outcome {
            Ok(verified) => {
                if verified {
                    VerifyProofResponse {
                        success: true,
                        verified: true,
                        message: String::from_str("Proof verified successfully"),
                    }
                } else {
                    VerifyProofResponse {
                        success: true,
                        verified: false,
                        message: String::from_str("Proof verification failed"),
                    }
                }
            },
            Err(e) => {
                let mut message = String::from_str("Verification error: ");
                let reason = e.message();
                message.append(reason.as_str());
                VerifyProofResponse { success: false, verified: false, message }
            },
        }
    }
}

impl VerifyProofRequest {
    /// Verifies the submitted proof and reports the outcome.
    pub fn evaluate(&self) -> (response: VerifyProofResponse)
        ensures
            response@ == spec_verify_response(
                spec_verify(self.proof@, self.balance_commitment@, self.secret_nonce@),
            ),
    {
        VerifyProofResponse::from_outcome(
            self.proof.verify(self.balance_commitment.as_str(), self.secret_nonce.as_str()),
        )
    }
}

/// Answer to a status query.
#[derive(Debug)]
pub struct StatusResponse {
    pub status: String,
    pub generated_proofs: usize,
}

impl StatusResponse {
    /// The status of a running service that has issued `generated_proofs`
    /// proofs.
    pub fn running(generated_proofs: usize) -> (response: Self)
        ensures
            response.status@ == "running"@,
            response.generated_proofs == generated_proofs,
    {
        StatusResponse { status: String::from_str("running"), generated_proofs }
    }
}

/// What the list of issued proofs shows of one proof.
#[derive(Debug)]
pub struct ProofSummary {
    pub amount: u64,
    pub user_address: String,
    pub commitment_hash: String,
    pub proof_hex: String,
    pub proof_size: usize,
}

/// Mathematical content of a `ProofSummary`.
pub struct ProofSummaryView {
    pub amount: u64,
    pub user_address: Seq<char>,
    pub commitment_hash: Seq<char>,
    pub proof_hex: Seq<char>,
    pub proof_size: nat,
}

impl View for ProofSummary {
    type V = ProofSummaryView;

    open spec fn view(&self) -> ProofSummaryView {
        ProofSummaryView {
            amount: self.amount,
            user_address: self.user_address@,
            commitment_hash: self.commitment_hash@,
            proof_hex: self.proof_hex@,
            proof_size: self.proof_size as nat,
        }
    }
}

/// The summary of a proof.
pub open spec fn spec_summary(proof: ProofView) -> ProofSummaryView {
    ProofSummaryView {
        amount: proof.public_inputs.amount,
        user_address: proof.public_inputs.user_address,
        commitment_hash: proof.commitment_hash,
        proof_hex: spec_hex_lower(proof.proof_bytes),
        proof_size: proof.proof_bytes.len(),
    }
}

impl ProofSummary {
    /// Summarizes `proof`.
    pub fn of(proof: &BalanceProof) -> (summary: Self)
        ensures
            summary@ == spec_summary(proof@),
    {
        ProofSummary {
            amount: proof.public_inputs.amount,
            user_address: proof.public_inputs.user_address.clone(),
            commitment_hash: proof.commitment_hash.clone(),
            proof_hex: proof.to_hex(),
            proof_size: proof.size(),
        }
    }
}

/// The proofs that a service has issued, in the order of issue.
#[derive(Debug)]
pub struct AppState {
    pub proofs: Vec<BalanceProof>,
}

impl AppState {
    /// The state of a service that has issued nothing yet.
    pub fn new() -> (state: Self)
        ensures
            state.proofs@.len() == 0,
    {
        AppState { proofs: Vec::new() }
    }

    /// Adds `proof` as the latest proof issued.
    pub fn record(&mut self, proof: BalanceProof)
        ensures
            final(self).proofs@ == old(self).proofs@.push(proof),
    {
        self.proofs.push(proof);
    }

    /// The status of the service.
    pub fn status(&self) -> (response: StatusResponse)
        ensures
            response.status@ == "running"@,
            response.generated_proofs == self.proofs@.len(),
    {
        StatusResponse::running(self.proofs.len())
    }

    /// One summary for each proof issued, in the order of issue.
    pub fn summaries(&self) -> (list: Vec<ProofSummary>)
        ensures
            list@.len() == self.proofs@.len(),
            forall|i: int|
                0 <= i < list@.len() ==> (#[trigger] list@[i])@ == spec_summary(self.proofs@[i]@),
    {
        let mut list: Vec<ProofSummary> = Vec::new();
        let mut i: usize = 0;
        while i < self.proofs.len()
            invariant
                i <= self.proofs@.len(),
                list@.len() == i,
                forall|j: int|
                    0 <= j < i ==> (#[trigger] list@[j])@ == spec_summary(self.proofs@[j]@),
            decreases self.proofs@.len() - i,
        {
            list.push(ProofSummary::of(&self.proofs[i]));
            i = i + 1;
        }
        list
    }
}

/// Several requests for proofs, to be answered together.
#[derive(Debug)]
pub struct BatchProofRequest {
    pub requests: Vec<BalanceProofRequest>,
}

impl BatchProofRequest {
    /// Whether the batch is small enough to be worked on.
    pub fn within_limit(&self) -> (ok: bool)
        ensures
            ok == (self.requests@.len() <= MAX_BATCH_SIZE),
    {
        self.requests.len() <= MAX_BATCH_SIZE
    }
}

/// Answer to a batch. `proofs` and `errors` run parallel to the requests: at
/// each place one of them is filled.
#[derive(Debug)]
pub struct BatchProofResponse {
    pub success: bool,
    pub proofs: Vec<Option<BalanceProof>>,
    pub errors: Vec<Option<String>>,
    pub message: String,
}

/// Number of outcomes that hold a proof.
pub open spec fn spec_count_proofs(outcomes: Seq<Result<BalanceProof, String>>) -> nat
    decreases outcomes.len(),
{
    if outcomes.len() == 0 {
        0
    } else {
        spec_count_proofs(outcomes.drop_last()) + if outcomes.last() is Ok {
            1nat
        } else {
            0nat
        }
    }
}

impl BatchProofResponse {
    /// The answer to a batch that is too large: nothing was worked on.
    pub fn too_large() -> (response: Self)
        ensures
            !response.success,
            response.proofs@.len() == 0,
            response.errors@.len() == 1,
            response.errors@[0] matches Some(text) && text@
                == "Batch size too large (max 100)"@,
            response.message@ == "Batch size exceeds limit"@,
    {
        let mut errors: Vec<Option<String>> = Vec::new();
        errors.push(Some(String::from_str("Batch size too large (max 100)")));
        BatchProofResponse {
            success: false,
            proofs: Vec::new(),
            errors,
            message: String::from_str("Batch size exceeds limit"),
        }
    }

    /// The answer that reports one outcome for each request of a batch, in
    /// the order of the requests. The batch counts as a success where it
    /// holds one proof at least.
    pub fn from_outcomes(outcomes: &Vec<Result<BalanceProof, String>>) -> (response: Self)
        ensures
            response.proofs@.len() == outcomes@.len(),
            response.errors@.len() == outcomes@.len(),
            forall|i: int|
                0 <= i < outcomes@.len() ==> match #[trigger] outcomes@[i] {
                    Ok(proof) => {
                        &&& response.proofs@[i] matches Some(p) && p@ == proof@
                        &&& response.errors@[i] is None
                    },
                    Err(text) => {
                        &&& response.proofs@[i] is None
                        &&& response.errors@[i] matches Some(t) && t@ == text@
                    },
                },
            response.success == (spec_count_proofs(outcomes@) > 0),
            response.message@ == "Generated "@ + spec_decimal(spec_count_proofs(outcomes@))
                + " proofs successfully"@,
    {
        let mut proofs: Vec<Option<BalanceProof>> = Vec::new();
        let mut errors: Vec<Option<String>> = Vec::new();
        let mut count: usize = 0;
        let mut i: usize = 0;
        while i < outcomes.len()
            invariant
                i <= outcomes@.len(),
                proofs@.len() == i,
                errors@.len() == i,
                count == spec_count_proofs(outcomes@.take(i as int)),
                count <= i,
                forall|j: int|
                    0 <= j < i ==> match #[trigger] outcomes@[j] {
                        Ok(proof) => {
                            &&& proofs@[j] matches Some(p) && p@ == proof@
                            &&& errors@[j] is None
                        },
                        Err(text) => {
                            &&& proofs@[j] is None
                            &&& errors@[j] matches Some(t) && t@ == text@
                        },
                    },
            decreases outcomes@.len() - i,
        {
            proof {
                assert(outcomes@.take(i + 1).drop_last() == outcomes@.take(i as int));
                assert(outcomes@.take(i + 1).last() == outcomes@[i as int]);
            }
            match &outcomes[i] {
                Ok(proof) => {
                    proofs.push(Some(proof.clone()));
                    errors.push(None);
                    count = count + 1;
                },
                Err(text) => {
                    proofs.push(None);
                    errors.push(Some(text.clone()));
                },
            }
            i = i + 1;
        }
        assert(outcomes@.take(outcomes@.len() as int) == outcomes@);
        let mut message = String::from_str("Generated ");
        push_decimal(&mut message, count as u64);
        message.append(" proofs successfully");
        BatchProofResponse { success: count > 0, proofs, errors, message }
    }
}

} // verus!
