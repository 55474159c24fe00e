//! Publishing a further root.

use crate::constants::MAX_ROOTS;
use crate::errors::CerberusError;
use crate::events::RootAdded;
use crate::pubkey::Pubkey;
use crate::states::config::publish_root_outcome;
use crate::states::{DistributorView, MerkleDistributor};
use vstd::prelude::*;

verus! {

/// What publishing a root works on: the distributor and the caller.
#[derive(Clone, Debug, PartialEq, Eq)]
pub struct AddRoot {
    /// The address of the distributor record.
    pub distributor_key: Pubkey,
    /// The distributor record.
    pub distributor: MerkleDistributor,
    /// The caller.
    pub authority: Pubkey,
}

/// An `AddRoot`, as plain values.
pub struct AddRootView {
    pub distributor_key: Pubkey,
    pub distributor: DistributorView,
    pub authority: Pubkey,
}

impl View for AddRoot {
    type V = AddRootView;

    open spec fn view(&self) -> AddRootView {
        AddRootView {
            distributor_key: self.distributor_key,
            distributor: self.distributor@,
            authority: self.authority,
        }
    }
}

/// What `add_root` decides: the records after it and the audit record, or the
/// reason for rejecting the call. A caller who is not the authority is turned
/// away before the registry is looked at.
pub open spec fn add_root_outcome(ctx: AddRootView, new_root: [u8; 32], timestamp: i64) -> Result<
    (AddRootView, RootAdded),
    CerberusError,
> {
    if ctx.authority != ctx.distributor.authority {
        Err(CerberusError::Unauthorized)
    } else {
        match publish_root_outcome(ctx.distributor.roots, new_root) {
            Err(error) => Err(error),
            Ok(roots) => Ok(
                (
                    AddRootView {
                        distributor: DistributorView { roots, ..ctx.distributor },
                        ..ctx
                    },
                    RootAdded {
                        distributor: ctx.distributor_key,
                        root_index: ctx.distributor.roots.len() as u8,
                        merkle_root: new_root,
                        timestamp,
                    },
                ),
            ),
        }
    }
}

/// The bounds of the registry. For the authority, publishing a root that is
/// not in the registry succeeds while there is room, and gives the root the
/// number of roots before it as its index; with `MAX_ROOTS` roots in the
/// registry every further root is turned away as one too many; and while
/// there is room, a root that is in the registry is turned away as a
/// duplicate. The registry's invariant survives, and what was published stays
/// where it was.
pub proof fn lemma_root_registry_bounds(ctx: AddRootView, new_root: [u8; 32], timestamp: i64)
    requires
        ctx.authority == ctx.distributor.authority,
    ensures
        ({
            let roots = ctx.distributor.roots;
            let outcome = add_root_outcome(ctx, new_root, timestamp);
            &&& roots.len() < MAX_ROOTS && !roots.contains(new_root) ==> {
                &&& outcome is Ok
                &&& outcome->Ok_0.1.root_index == roots.len()
                &&& outcome->Ok_0.0.distributor.roots == roots.push(new_root)
                &&& outcome->Ok_0.0.distributor.roots.len() <= MAX_ROOTS
                &&& roots.is_prefix_of(outcome->Ok_0.0.distributor.roots)
                &&& ctx.distributor.wf() ==> outcome->Ok_0.0.distributor.wf()
            }
            &&& roots.len() >= MAX_ROOTS ==> outcome == Err::<
                (AddRootView, RootAdded),
                CerberusError,
            >(CerberusError::MaxRootsReached)
            &&& roots.len() < MAX_ROOTS && roots.contains(new_root) ==> outcome == Err::<
                (AddRootView, RootAdded),
                CerberusError,
            >(CerberusError::RootAlreadyExists)
        }),
{
}

/// Publishes `new_root` at the next free index, which the audit record
/// carries.
pub fn add_root(ctx: &mut AddRoot, new_root: [u8; 32], timestamp: i64) -> (result: Result<
    RootAdded,
    CerberusError,
>)
    ensures
        match add_root_outcome(old(ctx)@, new_root, timestamp) {
            Ok((after, event)) => result == Ok::<RootAdded, CerberusError>(event) && final(ctx)@
                == after,
            Err(error) => result == Err::<RootAdded, CerberusError>(error) && final(ctx)@ == old(
                ctx,
            )@,
        },
        old(ctx).distributor.wf() ==> final(ctx).distributor.wf(),
{
    match ctx.distributor.require_authority(&ctx.authority) {
        Err(error) => {
            return Err(error);
        },
        Ok(()) => {},
    }
    match ctx.distributor.publish_root(new_root) {
        Err(error) => Err(error),
        Ok(root_index) => Ok(
            RootAdded {
                distributor: ctx.distributor_key,
                root_index,
                merkle_root: new_root,
                timestamp,
            },
        ),
    }
}

} // verus!
