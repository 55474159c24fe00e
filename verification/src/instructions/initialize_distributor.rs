//! Creating the distributor and its bitmap.

use crate::events::DistributorInitialized;
use crate::pubkey::Pubkey;
use crate::states::{ClaimBitmap, DistributorView, MerkleDistributor};
use vstd::prelude::*;

verus! {

/// What creating a distributor works on: the two fresh records with their
/// addresses, the vault, and the authority that creates them.
#[derive(Clone, Debug, PartialEq, Eq)]
pub struct InitializeDistributor {
    /// The address of the distributor record.
    pub distributor_key: Pubkey,
    /// The distributor record, to be filled.
    pub distributor: MerkleDistributor,
    /// The bump of the distributor's address.
    pub distributor_bump: u8,
    /// The address of the bitmap record.
    pub bitmap_key: Pubkey,
    /// The bitmap record, to be filled.
    pub bitmap: ClaimBitmap,
    /// The token account that will back the claims.
    pub vault: Pubkey,
    /// The caller, who becomes the authority.
    pub authority: Pubkey,
}

/// The distributor that `initialize_distributor` leaves in `ctx`.
pub open spec fn initial_distributor(
    ctx: InitializeDistributor,
    merkle_root: [u8; 32],
) -> DistributorView {
    DistributorView {
        authority: ctx.authority,
        roots: seq![merkle_root],
        vault: ctx.vault,
        bitmap_account: ctx.bitmap_key,
        bump: ctx.distributor_bump,
    }
}

/// Fills the two records: the caller becomes the authority, `merkle_root` the
/// root at index 0, and nothing is claimed. Whatever the records held before
/// is overwritten.
pub fn initialize_distributor(
    ctx: &mut InitializeDistributor,
    merkle_root: [u8; 32],
    timestamp: i64,
) -> (event: DistributorInitialized)
    ensures
        final(ctx).distributor@ == initial_distributor(*old(ctx), merkle_root),
        final(ctx).distributor.wf(),
        final(ctx).bitmap.claimed@ == Seq::<u8>::empty(),
        final(ctx).bitmap@ == Set::<nat>::empty(),
        final(ctx).distributor_key == old(ctx).distributor_key,
        final(ctx).distributor_bump == old(ctx).distributor_bump,
        final(ctx).bitmap_key == old(ctx).bitmap_key,
        final(ctx).vault == old(ctx).vault,
        final(ctx).authority == old(ctx).authority,
        event == (DistributorInitialized {
            authority: old(ctx).authority,
            distributor: old(ctx).distributor_key,
            vault: old(ctx).vault,
            merkle_root,
            timestamp,
        }),
{
    ctx.distributor.authority = ctx.authority;
    let mut roots: Vec<[u8; 32]> = Vec::new();
    roots.push(merkle_root);
    ctx.distributor.roots = roots;
    ctx.distributor.vault = ctx.vault;
    ctx.distributor.bitmap_account = ctx.bitmap_key;
    ctx.distributor.bump = ctx.distributor_bump;
    ctx.bitmap = ClaimBitmap::new();
    assert(ctx.distributor.roots@ =~= seq![merkle_root]);
    DistributorInitialized {
        authority: ctx.authority,
        distributor: ctx.distributor_key,
        vault: ctx.vault,
        merkle_root,
        timestamp,
    }
}

} // verus!
