//! Handing the authority to another address.

use crate::constants::MAX_ROOTS;
use crate::errors::CerberusError;
use crate::events::{AuthorityUpdated, RootAdded, Withdrawn};
use crate::instructions::add_root::{add_root_outcome, AddRootView};
use crate::instructions::withdraw::{withdraw_outcome, WithdrawView};
use crate::pubkey::Pubkey;
use crate::states::{DistributorView, MerkleDistributor};
use crate::transfer::TokenTransfer;
use vstd::prelude::*;

verus! {

/// What a change of authority works on: the distributor and the caller.
#[derive(Clone, Debug, PartialEq, Eq)]
pub struct UpdateAuthority {
    /// The address of the distributor record.
    pub distributor_key: Pubkey,
    /// The distributor record.
    pub distributor: MerkleDistributor,
    /// The caller.
    pub authority: Pubkey,
}

/// An `UpdateAuthority`, as plain values.
pub struct UpdateAuthorityView {
    pub distributor_key: Pubkey,
    pub distributor: DistributorView,
    pub authority: Pubkey,
}

impl View for UpdateAuthority {
    type V = UpdateAuthorityView;

    open spec fn view(&self) -> UpdateAuthorityView {
        UpdateAuthorityView {
            distributor_key: self.distributor_key,
            distributor: self.distributor@,
            authority: self.authority,
        }
    }
}

/// What `update_authority` decides: the records after it and the audit
/// record, or the reason for rejecting the call.
pub open spec fn update_authority_outcome(
    ctx: UpdateAuthorityView,
    new_authority: Pubkey,
    timestamp: i64,
) -> Result<(UpdateAuthorityView, AuthorityUpdated), CerberusError> {
    if ctx.authority != ctx.distributor.authority {
        Err(CerberusError::Unauthorized)
    } else {
        Ok(
            (
                UpdateAuthorityView {
                    distributor: DistributorView { authority: new_authority, ..ctx.distributor },
                    ..ctx
                },
                AuthorityUpdated {
                    distributor: ctx.distributor_key,
                    old_authority: ctx.distributor.authority,
                    new_authority,
                    timestamp,
                },
            ),
        )
    }
}

/// Only the authority administers. A caller who is not the distributor's
/// authority is turned away as unauthorized by each of the three
/// administrative operations, whatever else the call holds.
pub proof fn lemma_only_authority_administers(
    distributor_key: Pubkey,
    distributor: DistributorView,
    caller: Pubkey,
    new_root: [u8; 32],
    new_authority: Pubkey,
    vault: Pubkey,
    recipient: Pubkey,
    amount: u64,
    timestamp: i64,
)
    requires
        caller != distributor.authority,
    ensures
        add_root_outcome(
            AddRootView { distributor_key, distributor, authority: caller },
            new_root,
            timestamp,
        ) == Err::<(AddRootView, RootAdded), CerberusError>(CerberusError::Unauthorized),
        update_authority_outcome(
            UpdateAuthorityView { distributor_key, distributor, authority: caller },
            new_authority,
            timestamp,
        ) == Err::<(UpdateAuthorityView, AuthorityUpdated), CerberusError>(
            CerberusError::Unauthorized,
        ),
        withdraw_outcome(
            WithdrawView { distributor_key, distributor, vault, recipient, authority: caller },
            amount,
            timestamp,
        ) == Err::<(TokenTransfer, Withdrawn), CerberusError>(CerberusError::Unauthorized),
{
}

/// Control passes with the authority. After a change of authority the
/// distributor answers to the new authority and to nobody else: a call by any
/// other address, the former authority among them, is turned away as
/// unauthorized, and a call by the new authority is not. Nothing but the
/// authority changes hands: roots, vault, bitmap address and bump stay.
pub proof fn lemma_authority_rotation(
    ctx: UpdateAuthorityView,
    new_authority: Pubkey,
    timestamp: i64,
    caller: Pubkey,
    new_root: [u8; 32],
    next_authority: Pubkey,
    vault: Pubkey,
    recipient: Pubkey,
    amount: u64,
    later_timestamp: i64,
)
    requires
        update_authority_outcome(ctx, new_authority, timestamp) is Ok,
    ensures
        ({
            let (after, event) = update_authority_outcome(ctx, new_authority, timestamp)->Ok_0;
            let distributor_key = after.distributor_key;
            let distributor = after.distributor;
            let adding = add_root_outcome(
                AddRootView { distributor_key, distributor, authority: caller },
                new_root,
                later_timestamp,
            );
            let rotating = update_authority_outcome(
                UpdateAuthorityView { distributor_key, distributor, authority: caller },
                next_authority,
                later_timestamp,
            );
            let withdrawing = withdraw_outcome(
                WithdrawView { distributor_key, distributor, vault, recipient, authority: caller },
                amount,
                later_timestamp,
            );
            let unauthorized = CerberusError::Unauthorized;
            &&& distributor == (DistributorView { authority: new_authority, ..ctx.distributor })
            &&& event.old_authority == ctx.distributor.authority
            &&& event.new_authority == new_authority
            &&& caller != new_authority ==> {
                &&& adding == Err::<(AddRootView, RootAdded), CerberusError>(unauthorized)
                &&& rotating == Err::<(UpdateAuthorityView, AuthorityUpdated), CerberusError>(
                    unauthorized,
                )
                &&& withdrawing == Err::<(TokenTransfer, Withdrawn), CerberusError>(unauthorized)
            }
            &&& caller == new_authority ==> {
                &&& rotating is Ok
                &&& vault == distributor.vault ==> withdrawing is Ok
                &&& distributor.roots.len() < MAX_ROOTS && !distributor.roots.contains(new_root)
                    ==> adding is Ok
                &&& adding != Err::<(AddRootView, RootAdded), CerberusError>(unauthorized)
                &&& withdrawing != Err::<(TokenTransfer, Withdrawn), CerberusError>(unauthorized)
            }
        }),
{
}

/// Makes `new_authority` the authority, on the word of the present one. The
/// audit record names both.
pub fn update_authority(ctx: &mut UpdateAuthority, new_authority: Pubkey, timestamp: i64) -> (result:
    Result<AuthorityUpdated, CerberusError>)
    ensures
        match update_authority_outcome(old(ctx)@, new_authority, timestamp) {
            Ok((after, event)) => result == Ok::<AuthorityUpdated, CerberusError>(event)
                && final(ctx)@ == after,
            Err(error) => result == Err::<AuthorityUpdated, CerberusError>(error) && final(ctx)@
                == old(ctx)@,
        },
        old(ctx).distributor.wf() ==> final(ctx).distributor.wf(),
{
    match ctx.distributor.require_authority(&ctx.authority) {
        Err(error) => {
            return Err(error);
        },
        Ok(()) => {},
    }
    let old_authority = ctx.distributor.authority;
    ctx.distributor.authority = new_authority;
    Ok(
        AuthorityUpdated {
            distributor: ctx.distributor_key,
            old_authority,
            new_authority,
            timestamp,
        },
    )
}

} // verus!
