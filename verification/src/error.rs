//! Why a proof could not be produced or evaluated.

use crate::encoding::{push_decimal, spec_decimal};
use vstd::prelude::*;
use vstd::string::StringExecFns;

verus! {

/// Failure of proof generation or verification.
#[derive(Debug, Clone, Copy, PartialEq, Eq, Structural)]
pub enum ProofError {
    /// The committed balance does not exceed the requested amount.
    InsufficientBalance { balance: u64, amount: u64 },
    /// No balance can be read out of the commitment.
    UnparsableCommitment,
}

impl ProofError {
    /// The text of `message()`.
    pub open spec fn spec_message(self) -> Seq<char> {
        match self {
            ProofError::InsufficientBalance { balance, amount } => "Invalid proof: balance "@
                + spec_decimal(balance as nat) + " <= amount "@ + spec_decimal(amount as nat),
            ProofError::UnparsableCommitment => "Cannot extract balance from commitment"@,
        }
    }

    /// A human-readable account of the failure. For an insufficient balance
    /// it names both the balance and the amount.
    pub fn message(&self) -> (text: String)
        ensures
            text@ == self.spec_message(),
    {
        match self {
            ProofError::InsufficientBalance { balance, amount } => {
                let mut text = String::from_str("Invalid proof: balance ");
                push_decimal(&mut text, *balance);
                text.append(" <= amount ");
                push_decimal(&mut text, *amount);
                text
            },
            ProofError::UnparsableCommitment => String::from_str(
                "Cannot extract balance from commitment",
            ),
        }
    }
}

} // verus!
