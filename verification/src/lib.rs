pub mod api;
pub mod balance_proof;
pub mod cache;
pub mod clock;
pub mod commitment;
pub mod digest;
pub mod encoding;
pub mod error;
pub mod theorems;
