//! The distributor record and the claim bitmap.

use crate::constants::{DISCRIMINATOR_SIZE, MAX_ROOTS};
use crate::errors::CerberusError;
use crate::hashing::hash_eq;
use crate::pubkey::Pubkey;
use vstd::prelude::*;

verus! {

/// The distributor: who administers it, which roots it has published, and
/// which vault and bitmap belong to it.
#[derive(Clone, Debug, PartialEq, Eq)]
pub struct MerkleDistributor {
    /// The one address that may publish roots, hand over authority and
    /// withdraw.
    pub authority: Pubkey,
    /// The published roots, oldest first. A root's position is its index for
    /// good.
    pub roots: Vec<[u8; 32]>,
    /// The token account that backs the claims.
    pub vault: Pubkey,
    /// The address of the claim bitmap.
    pub bitmap_account: Pubkey,
    /// The bump of the distributor's own address.
    pub bump: u8,
}

/// What a distributor holds, as plain values.
pub struct DistributorView {
    pub authority: Pubkey,
    pub roots: Seq<[u8; 32]>,
    pub vault: Pubkey,
    pub bitmap_account: Pubkey,
    pub bump: u8,
}

impl View for MerkleDistributor {
    type V = DistributorView;

    open spec fn view(&self) -> DistributorView {
        DistributorView {
            authority: self.authority,
            roots: self.roots@,
            vault: self.vault,
            bitmap_account: self.bitmap_account,
            bump: self.bump,
        }
    }
}

impl DistributorView {
    /// The registry's invariant: at most `MAX_ROOTS` roots, no root twice.
    pub open spec fn wf(self) -> bool {
        self.roots.len() <= MAX_ROOTS && self.roots.no_duplicates()
    }
}

/// What publishing `new_root` does to the registry `roots`: the registry with
/// the root appended, or the reason why it stays as it is. A full registry is
/// reported before a duplicate.
pub open spec fn publish_root_outcome(roots: Seq<[u8; 32]>, new_root: [u8; 32]) -> Result<
    Seq<[u8; 32]>,
    CerberusError,
> {
    if roots.len() >= MAX_ROOTS {
        Err(CerberusError::MaxRootsReached)
    } else if roots.contains(new_root) {
        Err(CerberusError::RootAlreadyExists)
    } else {
        Ok(roots.push(new_root))
    }
}

impl MerkleDistributor {
    /// The most roots a distributor can hold.
    pub const MAX_ROOTS: usize = MAX_ROOTS;

    /// The size of the stored record: the prefix, the authority, the length
    /// and the slots of the registry, the vault, the bitmap address, the bump.
    pub const LEN: usize = DISCRIMINATOR_SIZE + 32 + 4 + (32 * MAX_ROOTS) + 32 + 32 + 1;

    /// The registry's invariant holds of this distributor.
    pub open spec fn wf(&self) -> bool {
        self@.wf()
    }

    /// Whether `root` has been published.
    pub fn has_root(&self, root: &[u8; 32]) -> (present: bool)
        ensures
            present == self.roots@.contains(*root),
    {
        let mut i: usize = 0;
        while i < self.roots.len()
            invariant
                i <= self.roots.len(),
                forall|j: int| 0 <= j < i ==> self.roots@[j] != *root,
            decreases self.roots.len() - i,
        {
            if hash_eq(&self.roots[i], root) {
                return true;
            }
            i += 1;
        }
        false
    }

    /// The root published at `root_index`.
    pub fn resolve_root(&self, root_index: u8) -> (result: Result<[u8; 32], CerberusError>)
        ensures
            result == if root_index < self.roots@.len() {
                Ok::<[u8; 32], CerberusError>(self.roots@[root_index as int])
            } else {
                Err(CerberusError::InvalidRootIndex)
            },
    {
        if (root_index as usize) < self.roots.len() {
            Ok(self.roots[root_index as usize])
        } else {
            Err(CerberusError::InvalidRootIndex)
        }
    }

    /// Whether `caller` is the authority.
    pub fn require_authority(&self, caller: &Pubkey) -> (result: Result<(), CerberusError>)
        ensures
            result == if *caller == self.authority {
                Ok::<(), CerberusError>(())
            } else {
                Err(CerberusError::Unauthorized)
            },
    {
        if caller.equals(&self.authority) {
            Ok(())
        } else {
            Err(CerberusError::Unauthorized)
        }
    }

    /// Appends `new_root` to the registry and returns its index, unless the
    /// registry is full or holds the root already.
    pub fn publish_root(&mut self, new_root: [u8; 32]) -> (result: Result<u8, CerberusError>)
        ensures
            match publish_root_outcome(old(self).roots@, new_root) {
                Ok(roots) => {
                    &&& result == Ok::<u8, CerberusError>(old(self).roots@.len() as u8)
                    &&& final(self)@ == (DistributorView { roots, ..old(self)@ })
                },
                Err(error) => result == Err::<u8, CerberusError>(error) && final(self)@ == old(
                    self,
                )@,
            },
            old(self).wf() ==> final(self).wf(),
    {
        if self.roots.len() >= MAX_ROOTS {
            return Err(CerberusError::MaxRootsReached);
        }
        if self.has_root(&new_root) {
            return Err(CerberusError::RootAlreadyExists);
        }
        let root_index: u8 = self.roots.len() as u8;
        self.roots.push(new_root);
        Ok(root_index)
    }
}

/// Whether bit `bit` of `byte` is 1, counting from the least significant bit.
pub open spec fn byte_has_bit(byte: u8, bit: u8) -> bool {
    (byte >> bit) & 1 == 1
}

/// Whether the bit for `index` is 1 in `bytes`: bit `index % 8` of byte
/// `index / 8`. A position past the end of `bytes` reads as 0.
pub open spec fn bit_is_set(bytes: Seq<u8>, index: nat) -> bool {
    index / 8 < bytes.len() && byte_has_bit(bytes[(index / 8) as int], (index % 8) as u8)
}

/// `bytes`, followed by as many zero bytes as it takes to reach `len`.
pub open spec fn zero_extended(bytes: Seq<u8>, len: nat) -> Seq<u8> {
    if len <= bytes.len() {
        bytes
    } else {
        bytes + Seq::new((len - bytes.len()) as nat, |i: int| 0u8)
    }
}

/// `bytes` grown with zeros until it covers `index`, with the bit for `index`
/// turned on.
pub open spec fn with_bit_set(bytes: Seq<u8>, index: nat) -> Seq<u8> {
    let grown = zero_extended(bytes, index / 8 + 1);
    let at = (index / 8) as int;
    grown.update(at, grown[at] | (1u8 << ((index % 8) as u8)))
}

/// Turning one bit on changes the reading of that position and of no other.
pub proof fn lemma_with_bit_set(bytes: Seq<u8>, index: nat, other: nat)
    ensures
        with_bit_set(bytes, index).len() == if index / 8 < bytes.len() {
            bytes.len()
        } else {
            index / 8 + 1
        },
        bit_is_set(with_bit_set(bytes, index), other) == (other == index || bit_is_set(
            bytes,
            other,
        )),
{
    let grown = zero_extended(bytes, index / 8 + 1);
    let at = (index / 8) as int;
    let k = (index % 8) as u8;
    let m = (other % 8) as u8;
    let before = grown[at];
    assert(k < 8 && m < 8);
    assert(byte_has_bit(before | (1u8 << k), m) == (m == k || byte_has_bit(before, m)))
        by (bit_vector)
        requires
            k < 8,
            m < 8,
    ;
    assert(!byte_has_bit(0u8, m)) by (bit_vector)
        requires
            m < 8,
    ;
}

/// Turning on a bit that is on already changes nothing.
pub proof fn lemma_with_bit_set_again(bytes: Seq<u8>, index: nat)
    requires
        bit_is_set(bytes, index),
    ensures
        with_bit_set(bytes, index) == bytes,
{
    let k = (index % 8) as u8;
    let before = bytes[(index / 8) as int];
    assert(byte_has_bit(before, k) ==> before | (1u8 << k) == before) by (bit_vector)
        requires
            k < 8,
    ;
    assert(with_bit_set(bytes, index) =~= bytes);
}

/// The bytes of a bitmap that started as `bytes` and in which the positions
/// of `indices` were then marked, one after the other.
pub open spec fn after_claims(bytes: Seq<u8>, indices: Seq<u64>) -> Seq<u8>
    decreases indices.len(),
{
    if indices.len() == 0 {
        bytes
    } else {
        with_bit_set(after_claims(bytes, indices.drop_last()), indices.last() as nat)
    }
}

/// Claims only accumulate. Whatever positions are marked and in whatever
/// order, a position reads as claimed afterwards exactly if it did before or
/// was among those marked: it stays unclaimed until it is first marked, stays
/// claimed from then on, and marking other positions does not touch it.
pub proof fn lemma_claims_accumulate(bytes: Seq<u8>, indices: Seq<u64>, index: nat)
    ensures
        bit_is_set(after_claims(bytes, indices), index) == (bit_is_set(bytes, index) || exists|
            k: int,
        |
            0 <= k < indices.len() && indices[k] == index),
        bytes.len() <= after_claims(bytes, indices).len(),
    decreases indices.len(),
{
    if indices.len() > 0 {
        let earlier = indices.drop_last();
        lemma_claims_accumulate(bytes, earlier, index);
        lemma_with_bit_set(after_claims(bytes, earlier), indices.last() as nat, index);
        if exists|k: int| 0 <= k < earlier.len() && earlier[k] == index {
            let k = choose|k: int| 0 <= k < earlier.len() && earlier[k] == index;
            assert(indices[k] == index);
        }
        if indices.last() == index {
            assert(indices[indices.len() - 1] == index);
        }
        if exists|k: int| 0 <= k < indices.len() && indices[k] == index {
            let k = choose|k: int| 0 <= k < indices.len() && indices[k] == index;
            if k < earlier.len() {
                assert(earlier[k] == index);
            }
        }
    }
}

/// Which leaf indices have been paid out, one bit each.
///
/// The bit for index `i` is bit `i % 8` of byte `i / 8`, least significant bit
/// first. The byte sequence grows on demand and never shrinks; a bit, once 1,
/// stays 1.
#[derive(Clone, Debug, PartialEq, Eq)]
pub struct ClaimBitmap {
    pub claimed: Vec<u8>,
}

impl View for ClaimBitmap {
    type V = Set<nat>;

    /// The leaf indices that have been claimed.
    open spec fn view(&self) -> Set<nat> {
        Set::new(|index: nat| bit_is_set(self.claimed@, index))
    }
}

impl ClaimBitmap {
    /// A bitmap in which nothing is claimed.
    pub fn new() -> (bitmap: ClaimBitmap)
        ensures
            bitmap.claimed@ == Seq::<u8>::empty(),
            bitmap@ == Set::<nat>::empty(),
    {
        let bitmap = ClaimBitmap { claimed: Vec::new() };
        assert(bitmap@ =~= Set::<nat>::empty());
        bitmap
    }

    /// Whether `index` has been claimed. An index past the end of the bitmap
    /// has not.
    pub fn is_claimed(&self, index: u64) -> (claimed: bool)
        ensures
            claimed == self@.contains(index as nat),
            claimed == bit_is_set(self.claimed@, index as nat),
    {
        let byte_index: u64 = index / 8;
        let bit_index: u8 = (index % 8) as u8;
        if byte_index >= self.claimed.len() as u64 {
            return false;
        }
        let byte: u8 = self.claimed[byte_index as usize];
        let bit: u8 = (byte >> bit_index) & 1;
        bit == 1
    }

    /// Marks `index` as claimed, growing the bitmap with zero bytes first where
    /// it does not reach that far. Marking an index twice changes nothing.
    pub fn set_claimed(&mut self, index: u64)
        requires
            index / 8 < usize::MAX,
        ensures
            final(self).claimed@ == with_bit_set(old(self).claimed@, index as nat),
            final(self)@ == old(self)@.insert(index as nat),
            old(self).claimed@.len() <= final(self).claimed@.len(),
            old(self)@.contains(index as nat) ==> final(self).claimed@ == old(self).claimed@,
    {
        let byte_index: usize = (index / 8) as usize;
        let bit_index: u8 = (index % 8) as u8;
        while byte_index >= self.claimed.len()
            invariant
                byte_index == index / 8,
                byte_index < usize::MAX,
                self.claimed@ == zero_extended(old(self).claimed@, self.claimed@.len()),
                old(self).claimed@.len() <= self.claimed@.len(),
                self.claimed@.len() <= byte_index + 1 || self.claimed@.len() == old(
                    self,
                ).claimed@.len(),
            decreases byte_index + 1 - self.claimed@.len(),
        {
            self.claimed.push(0);
        }
        let byte: u8 = self.claimed[byte_index];
        self.claimed.set(byte_index, byte | (1u8 << bit_index));
        proof {
            assert(self.claimed@ =~= with_bit_set(old(self).claimed@, index as nat));
            assert forall|other: nat|
                self@.contains(other) == old(self)@.insert(index as nat).contains(other) by {
                lemma_with_bit_set(old(self).claimed@, index as nat, other);
            }
            assert(self@ =~= old(self)@.insert(index as nat));
            if old(self)@.contains(index as nat) {
                lemma_with_bit_set_again(old(self).claimed@, index as nat);
            }
        }
    }
}

} // verus!
