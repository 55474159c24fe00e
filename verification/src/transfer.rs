//! Requests to move tokens out of the vault.

use crate::constants::DISTRIBUTOR_SEED;
use crate::pubkey::Pubkey;
use vstd::prelude::*;

verus! {

/// A token transfer that an operation has decided on and that its caller is
/// to carry out: `amount` tokens from `from` to `to`, signed for by the
/// distributor's address `authority`, which is derived with `bump`.
#[derive(Clone, Copy, Debug, PartialEq, Eq)]
pub struct TokenTransfer {
    pub from: Pubkey,
    pub to: Pubkey,
    pub authority: Pubkey,
    pub bump: u8,
    pub amount: u64,
}

impl TokenTransfer {
    /// The seeds by which the distributor's address signs: the distributor
    /// seed, then the bump as a single byte.
    pub fn signer_seeds(&self) -> (seeds: Vec<Vec<u8>>)
        ensures
            seeds@.len() == 2,
            seeds@[0]@ == DISTRIBUTOR_SEED@,
            seeds@[1]@ == seq![self.bump],
    {
        let mut seed: Vec<u8> = Vec::new();
        let mut i: usize = 0;
        while i < 11
            invariant
                i <= 11,
                seed@ == DISTRIBUTOR_SEED@.take(i as int),
            decreases 11 - i,
        {
            seed.push(DISTRIBUTOR_SEED[i]);
            assert(DISTRIBUTOR_SEED@.take(i + 1) =~= DISTRIBUTOR_SEED@.take(i as int).push(
                DISTRIBUTOR_SEED@[i as int],
            ));
            i += 1;
        }
        assert(DISTRIBUTOR_SEED@.take(11) =~= DISTRIBUTOR_SEED@);
        let mut bump: Vec<u8> = Vec::new();
        bump.push(self.bump);
        let mut seeds: Vec<Vec<u8>> = Vec::new();
        seeds.push(seed);
        seeds.push(bump);
        seeds
    }
}

} // verus!
