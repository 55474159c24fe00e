//! The failures an operation can end in.

use vstd::prelude::*;

verus! {

/// Why an operation was rejected. Every failure is final for the operation
/// that met it: no state change survives it.
#[derive(Clone, Copy, Debug, PartialEq, Eq, Structural, Hash)]
pub enum CerberusError {
    /// The sibling path does not lead from the leaf to the published root.
    InvalidProof,
    /// The leaf index has been paid out before.
    AlreadyClaimed,
    /// No root has been published at the given index.
    InvalidRootIndex,
    /// The caller is not the distributor's authority.
    Unauthorized,
    /// The registry already holds the maximum number of roots.
    MaxRootsReached,
    /// The root is already in the registry.
    RootAlreadyExists,
    /// The leaf index is out of bounds.
    InvalidLeafIndex,
    /// An index or amount left the range of the machine's integers.
    ArithmeticOverflow,
    /// The bitmap would have no room at all.
    InvalidBitmapSize,
    /// The vault presented is not the one the distributor is bound to.
    VaultMismatch,
    /// The vault holds less than was asked for.
    InsufficientBalance,
}

impl CerberusError {
    /// The text that goes with the failure.
    pub open spec fn message_text(self) -> Seq<char> {
        match self {
            CerberusError::InvalidProof => "Invalid Merkle proof provided"@,
            CerberusError::AlreadyClaimed => "This allocation has already been claimed"@,
            CerberusError::InvalidRootIndex => "Invalid root index - root does not exist"@,
            CerberusError::Unauthorized => "Unauthorized - signer is not the authority"@,
            CerberusError::MaxRootsReached => "Maximum number of roots reached (10)"@,
            CerberusError::RootAlreadyExists => "Root already exists in the distributor"@,
            CerberusError::InvalidLeafIndex => "Invalid leaf index - out of bounds"@,
            CerberusError::ArithmeticOverflow => "Arithmetic overflow occurred"@,
            CerberusError::InvalidBitmapSize => "Invalid bitmap size - must be greater than 0"@,
            CerberusError::VaultMismatch => "Vault mismatch - provided vault does not match distributor vault"@,
            CerberusError::InsufficientBalance => "Insufficient vault balance for withdrawal"@,
        }
    }

    /// The text that goes with the failure, for the caller to show.
    pub fn message(&self) -> (text: &'static str)
        ensures
            text@ == self.message_text(),
    {
        match self {
            CerberusError::InvalidProof => "Invalid Merkle proof provided",
            CerberusError::AlreadyClaimed => "This allocation has already been claimed",
            CerberusError::InvalidRootIndex => "Invalid root index - root does not exist",
            CerberusError::Unauthorized => "Unauthorized - signer is not the authority",
            CerberusError::MaxRootsReached => "Maximum number of roots reached (10)",
            CerberusError::RootAlreadyExists => "Root already exists in the distributor",
            CerberusError::InvalidLeafIndex => "Invalid leaf index - out of bounds",
            CerberusError::ArithmeticOverflow => "Arithmetic overflow occurred",
            CerberusError::InvalidBitmapSize => "Invalid bitmap size - must be greater than 0",
            CerberusError::VaultMismatch => "Vault mismatch - provided vault does not match distributor vault",
            CerberusError::InsufficientBalance => "Insufficient vault balance for withdrawal",
        }
    }
}

} // verus!
