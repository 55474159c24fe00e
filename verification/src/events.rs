//! The records that operations leave behind for audit.

use crate::pubkey::Pubkey;
use vstd::prelude::*;

verus! {

/// A distributor was created.
#[derive(Clone, Copy, Debug, PartialEq, Eq)]
pub struct DistributorInitialized {
    pub authority: Pubkey,
    pub distributor: Pubkey,
    pub vault: Pubkey,
    pub merkle_root: [u8; 32],
    pub timestamp: i64,
}

/// A root was published.
#[derive(Clone, Copy, Debug, PartialEq, Eq)]
pub struct RootAdded {
    pub distributor: Pubkey,
    pub root_index: u8,
    pub merkle_root: [u8; 32],
    pub timestamp: i64,
}

/// An allocation was paid out.
#[derive(Clone, Copy, Debug, PartialEq, Eq)]
pub struct Claimed {
    pub distributor: Pubkey,
    pub claimer: Pubkey,
    pub root_index: u8,
    pub leaf_index: u64,
    pub amount: u64,
    pub timestamp: i64,
}

/// The authority passed to another address.
#[derive(Clone, Copy, Debug, PartialEq, Eq)]
pub struct AuthorityUpdated {
    pub distributor: Pubkey,
    pub old_authority: Pubkey,
    pub new_authority: Pubkey,
    pub timestamp: i64,
}

/// The authority took funds out of the vault.
#[derive(Clone, Copy, Debug, PartialEq, Eq)]
pub struct Withdrawn {
    pub distributor: Pubkey,
    pub authority: Pubkey,
    pub recipient: Pubkey,
    pub amount: u64,
    pub timestamp: i64,
}

} // verus!
