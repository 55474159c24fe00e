//! Claiming an allocation.

use crate::errors::CerberusError;
use crate::events::Claimed;
use crate::hashing::{leaf_digest, leaf_hash};
use crate::merkle::{computed_root, sibling_bytes, verify_merkle_proof};
use crate::pubkey::Pubkey;
use crate::states::config::{
    after_claims, bit_is_set, lemma_claims_accumulate, lemma_with_bit_set, with_bit_set,
};
use crate::states::{ClaimBitmap, DistributorView, MerkleDistributor};
use crate::transfer::TokenTransfer;
use vstd::prelude::*;

verus! {

/// What a claim works on: the distributor and its bitmap, the vault and the
/// receiving account that were presented, and the caller.
#[derive(Clone, Debug, PartialEq, Eq)]
pub struct Claim {
    /// The address of the distributor record.
    pub distributor_key: Pubkey,
    /// The distributor record.
    pub distributor: MerkleDistributor,
    /// The claim bitmap.
    pub bitmap: ClaimBitmap,
    /// The token account presented as the vault.
    pub vault: Pubkey,
    /// The token account to pay into.
    pub user_token_account: Pubkey,
    /// The caller, whose allocation is claimed.
    pub claimer: Pubkey,
}

/// A `Claim`, as plain values. The bitmap is given by its bytes.
pub struct ClaimView {
    pub distributor_key: Pubkey,
    pub distributor: DistributorView,
    pub bitmap: Seq<u8>,
    pub vault: Pubkey,
    pub user_token_account: Pubkey,
    pub claimer: Pubkey,
}

impl View for Claim {
    type V = ClaimView;

    open spec fn view(&self) -> ClaimView {
        ClaimView {
            distributor_key: self.distributor_key,
            distributor: self.distributor@,
            bitmap: self.bitmap.claimed@,
            vault: self.vault,
            user_token_account: self.user_token_account,
            claimer: self.claimer,
        }
    }
}

/// Whether `proof` leads from the caller's allocation of `amount` to the root
/// published at `root_index`.
pub open spec fn proof_is_valid(
    ctx: ClaimView,
    root_index: u8,
    amount: u64,
    proof: Seq<[u8; 32]>,
) -> bool {
    root_index < ctx.distributor.roots.len() && computed_root(
        leaf_digest(ctx.claimer, amount),
        sibling_bytes(proof),
    ) == ctx.distributor.roots[root_index as int]@
}

/// Why a claim is rejected, if it is. The checks run in this order and the
/// first that fails decides: the vault presented is the distributor's; a root
/// is published at `root_index`; `leaf_index` is unclaimed; the proof is
/// valid; the bitmap can reach `leaf_index` on this machine.
pub open spec fn claim_rejection(
    ctx: ClaimView,
    root_index: u8,
    leaf_index: u64,
    proof_valid: bool,
) -> Option<CerberusError> {
    if ctx.vault != ctx.distributor.vault {
        Some(CerberusError::VaultMismatch)
    } else if root_index >= ctx.distributor.roots.len() {
        Some(CerberusError::InvalidRootIndex)
    } else if bit_is_set(ctx.bitmap, leaf_index as nat) {
        Some(CerberusError::AlreadyClaimed)
    } else if !proof_valid {
        Some(CerberusError::InvalidProof)
    } else if leaf_index / 8 >= usize::MAX {
        Some(CerberusError::ArithmeticOverflow)
    } else {
        None
    }
}

/// The records after a claim that was accepted: `leaf_index` is marked.
pub open spec fn claim_marked(ctx: ClaimView, leaf_index: u64) -> ClaimView {
    ClaimView { bitmap: with_bit_set(ctx.bitmap, leaf_index as nat), ..ctx }
}

/// The transfer that pays out an accepted claim.
pub open spec fn claim_transfer(ctx: ClaimView, amount: u64) -> TokenTransfer {
    TokenTransfer {
        from: ctx.vault,
        to: ctx.user_token_account,
        authority: ctx.distributor_key,
        bump: ctx.distributor.bump,
        amount,
    }
}

/// The audit record of an accepted claim.
pub open spec fn claim_receipt(
    ctx: ClaimView,
    root_index: u8,
    leaf_index: u64,
    amount: u64,
    timestamp: i64,
) -> Claimed {
    Claimed {
        distributor: ctx.distributor_key,
        claimer: ctx.claimer,
        root_index,
        leaf_index,
        amount,
        timestamp,
    }
}

/// What a claim decides, given whether its proof is valid: the records after
/// it, the transfer and the audit record, or the reason for rejecting it.
pub open spec fn claim_outcome(
    ctx: ClaimView,
    root_index: u8,
    leaf_index: u64,
    amount: u64,
    proof_valid: bool,
    timestamp: i64,
) -> Result<(ClaimView, TokenTransfer, Claimed), CerberusError> {
    match claim_rejection(ctx, root_index, leaf_index, proof_valid) {
        Some(error) => Err(error),
        None => Ok(
            (
                claim_marked(ctx, leaf_index),
                claim_transfer(ctx, amount),
                claim_receipt(ctx, root_index, leaf_index, amount, timestamp),
            ),
        ),
    }
}

/// A claim of an index that is marked already is turned away, whoever makes
/// it and whatever amount and proof come with it.
pub proof fn lemma_claimed_index_is_rejected(
    ctx: ClaimView,
    root_index: u8,
    leaf_index: u64,
    amount: u64,
    proof_valid: bool,
    timestamp: i64,
)
    requires
        bit_is_set(ctx.bitmap, leaf_index as nat),
    ensures
        claim_outcome(ctx, root_index, leaf_index, amount, proof_valid, timestamp) is Err,
        ctx.vault == ctx.distributor.vault && root_index < ctx.distributor.roots.len()
            ==> claim_outcome(ctx, root_index, leaf_index, amount, proof_valid, timestamp) == Err::<
            (ClaimView, TokenTransfer, Claimed),
            CerberusError,
        >(CerberusError::AlreadyClaimed),
{
}

/// No allocation is paid twice. Once a claim of `leaf_index` has been
/// accepted, and has asked for exactly its `amount` to be transferred, every
/// later claim of that index is rejected as already claimed and asks for no
/// transfer: against any published root, with any amount, with a valid proof
/// or without one, and whichever other indices (`between`) were claimed in the
/// meantime.
pub proof fn lemma_no_double_payment(
    ctx: ClaimView,
    root_index: u8,
    leaf_index: u64,
    amount: u64,
    proof_valid: bool,
    timestamp: i64,
    between: Seq<u64>,
    later_root_index: u8,
    later_amount: u64,
    later_proof_valid: bool,
    later_timestamp: i64,
)
    requires
        claim_outcome(ctx, root_index, leaf_index, amount, proof_valid, timestamp) is Ok,
        later_root_index < ctx.distributor.roots.len(),
    ensures
        ({
            let (after, transfer, event) = claim_outcome(
                ctx,
                root_index,
                leaf_index,
                amount,
                proof_valid,
                timestamp,
            )->Ok_0;
            let later = ClaimView { bitmap: after_claims(after.bitmap, between), ..after };
            &&& transfer.amount == amount
            &&& bit_is_set(after.bitmap, leaf_index as nat)
            &&& claim_outcome(
                later,
                later_root_index,
                leaf_index,
                later_amount,
                later_proof_valid,
                later_timestamp,
            ) == Err::<(ClaimView, TokenTransfer, Claimed), CerberusError>(
                CerberusError::AlreadyClaimed,
            )
        }),
{
    let after = claim_marked(ctx, leaf_index);
    lemma_with_bit_set(ctx.bitmap, leaf_index as nat, leaf_index as nat);
    lemma_claims_accumulate(after.bitmap, between, leaf_index as nat);
}

/// Decides a claim whose proof has been checked, with `proof_valid` as the
/// finding. An accepted claim is marked in the bitmap here, before any funds
/// move.
pub fn settle_claim(
    ctx: &mut Claim,
    root_index: u8,
    leaf_index: u64,
    amount: u64,
    proof_valid: bool,
    timestamp: i64,
) -> (result: Result<(TokenTransfer, Claimed), CerberusError>)
    ensures
        match claim_outcome(old(ctx)@, root_index, leaf_index, amount, proof_valid, timestamp) {
            Ok((after, transfer, event)) => {
                &&& result == Ok::<(TokenTransfer, Claimed), CerberusError>((transfer, event))
                &&& final(ctx)@ == after
                &&& final(ctx).bitmap@ == old(ctx).bitmap@.insert(leaf_index as nat)
            },
            Err(error) => {
                &&& result == Err::<(TokenTransfer, Claimed), CerberusError>(error)
                &&& final(ctx)@ == old(ctx)@
            },
        },
{
    if !ctx.vault.equals(&ctx.distributor.vault) {
        return Err(CerberusError::VaultMismatch);
    }
    if (root_index as usize) >= ctx.distributor.roots.len() {
        return Err(CerberusError::InvalidRootIndex);
    }
    if ctx.bitmap.is_claimed(leaf_index) {
        return Err(CerberusError::AlreadyClaimed);
    }
    if !proof_valid {
        return Err(CerberusError::InvalidProof);
    }
    if leaf_index / 8 >= usize::MAX as u64 {
        return Err(CerberusError::ArithmeticOverflow);
    }
    ctx.bitmap.set_claimed(leaf_index);
    Ok(
        (
            TokenTransfer {
                from: ctx.vault,
                to: ctx.user_token_account,
                authority: ctx.distributor_key,
                bump: ctx.distributor.bump,
                amount,
            },
            Claimed {
                distributor: ctx.distributor_key,
                claimer: ctx.claimer,
                root_index,
                leaf_index,
                amount,
                timestamp,
            },
        ),
    )
}

/// Pays out the caller's allocation of `amount` at `leaf_index`, once, if
/// `proof` ties it to the root published at `root_index`.
pub fn claim(
    ctx: &mut Claim,
    root_index: u8,
    leaf_index: u64,
    amount: u64,
    proof: Vec<[u8; 32]>,
    timestamp: i64,
) -> (result: Result<(TokenTransfer, Claimed), CerberusError>)
    ensures
        match claim_outcome(
            old(ctx)@,
            root_index,
            leaf_index,
            amount,
            proof_is_valid(old(ctx)@, root_index, amount, proof@),
            timestamp,
        ) {
            Ok((after, transfer, event)) => {
                &&& result == Ok::<(TokenTransfer, Claimed), CerberusError>((transfer, event))
                &&& final(ctx)@ == after
                &&& final(ctx).bitmap@ == old(ctx).bitmap@.insert(leaf_index as nat)
            },
            Err(error) => {
                &&& result == Err::<(TokenTransfer, Claimed), CerberusError>(error)
                &&& final(ctx)@ == old(ctx)@
            },
        },
{
    if !ctx.vault.equals(&ctx.distributor.vault) {
        return Err(CerberusError::VaultMismatch);
    }
    let merkle_root = match ctx.distributor.resolve_root(root_index) {
        Ok(root) => root,
        Err(error) => {
            return Err(error);
        },
    };
    if ctx.bitmap.is_claimed(leaf_index) {
        return Err(CerberusError::AlreadyClaimed);
    }
    let leaf = leaf_hash(&ctx.claimer, amount);
    let is_valid = verify_merkle_proof(proof.as_slice(), merkle_root, leaf);
    settle_claim(ctx, root_index, leaf_index, amount, is_valid, timestamp)
}

} // verus!
