//! Emergency withdrawal by the authority.

use crate::errors::CerberusError;
use crate::events::Withdrawn;
use crate::pubkey::Pubkey;
use crate::states::{DistributorView, MerkleDistributor};
use crate::transfer::TokenTransfer;
use vstd::prelude::*;

verus! {

/// What a withdrawal works on: the distributor, the vault and the recipient
/// that were presented, and the caller.
#[derive(Clone, Debug, PartialEq, Eq)]
pub struct Withdraw {
    /// The address of the distributor record.
    pub distributor_key: Pubkey,
    /// The distributor record.
    pub distributor: MerkleDistributor,
    /// The token account presented as the vault.
    pub vault: Pubkey,
    /// The token account to pay into.
    pub recipient: Pubkey,
    /// The caller.
    pub authority: Pubkey,
}

/// A `Withdraw`, as plain values.
pub struct WithdrawView {
    pub distributor_key: Pubkey,
    pub distributor: DistributorView,
    pub vault: Pubkey,
    pub recipient: Pubkey,
    pub authority: Pubkey,
}

impl View for Withdraw {
    type V = WithdrawView;

    open spec fn view(&self) -> WithdrawView {
        WithdrawView {
            distributor_key: self.distributor_key,
            distributor: self.distributor@,
            vault: self.vault,
            recipient: self.recipient,
            authority: self.authority,
        }
    }
}

/// What `withdraw` decides: the transfer and the audit record, or the reason
/// for rejecting the call. The caller is checked before the vault. Claims play
/// no part: the authority may take out what is still owed to claimants.
pub open spec fn withdraw_outcome(ctx: WithdrawView, amount: u64, timestamp: i64) -> Result<
    (TokenTransfer, Withdrawn),
    CerberusError,
> {
    if ctx.authority != ctx.distributor.authority {
        Err(CerberusError::Unauthorized)
    } else if ctx.vault != ctx.distributor.vault {
        Err(CerberusError::VaultMismatch)
    } else {
        Ok(
            (
                TokenTransfer {
                    from: ctx.vault,
                    to: ctx.recipient,
                    authority: ctx.distributor_key,
                    bump: ctx.distributor.bump,
                    amount,
                },
                Withdrawn {
                    distributor: ctx.distributor_key,
                    authority: ctx.authority,
                    recipient: ctx.recipient,
                    amount,
                    timestamp,
                },
            ),
        )
    }
}

/// Asks for `amount` tokens to go from the vault to the recipient, on the
/// word of the authority. Whether the vault holds that much is for the
/// transfer to find out.
pub fn withdraw(ctx: &Withdraw, amount: u64, timestamp: i64) -> (result: Result<
    (TokenTransfer, Withdrawn),
    CerberusError,
>)
    ensures
        result == withdraw_outcome(ctx@, amount, timestamp),
{
    match ctx.distributor.require_authority(&ctx.authority) {
        Err(error) => {
            return Err(error);
        },
        Ok(()) => {},
    }
    if !ctx.vault.equals(&ctx.distributor.vault) {
        return Err(CerberusError::VaultMismatch);
    }
    Ok(
        (
            TokenTransfer {
                from: ctx.vault,
                to: ctx.recipient,
                authority: ctx.distributor_key,
                bump: ctx.distributor.bump,
                amount,
            },
            Withdrawn {
                distributor: ctx.distributor_key,
                authority: ctx.authority,
                recipient: ctx.recipient,
                amount,
                timestamp,
            },
        ),
    )
}

} // verus!
