//! Core logic of a Bee node: the tiny hash cache that deduplicates received
//! transactions, the validation and byte encoding of transaction essences,
//! the decisions of the milestone solidifier workers, fixed-length ternary
//! integers, and the WOTS private key generator builder.

pub mod ledger;
pub mod protocol;
pub mod message;
pub mod signing;
pub mod ternary;
