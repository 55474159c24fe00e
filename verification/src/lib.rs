//! Merkle-committed token distribution: proof verification, claim tracking
//! and the administrative state transitions of a single distributor.

pub mod constants;
pub mod errors;
pub mod events;
pub mod hashing;
pub mod instructions;
pub mod merkle;
pub mod pubkey;
pub mod states;
pub mod transfer;
