//! The keccak-256 primitive, the order on hashes and the canonical leaf
//! encoding.

use crate::pubkey::Pubkey;
use vstd::bytes::{spec_u64_to_le_bytes, u64_to_le_bytes};
use vstd::prelude::*;

verus! {

/// The keccak-256 digest of the bytes of `first` followed by the bytes of
/// `second`.
pub uninterp spec fn keccak_hashv(first: Seq<u8>, second: Seq<u8>) -> Seq<u8>;

/// Calls `solana_program::keccak::hashv` on the two slices, in this order.
///
/// Trusted: the digest is a function of the two byte strings alone, which the
/// contract names `keccak_hashv`. Nothing else is claimed of it.
#[verifier::external_body]
pub(crate) fn hashv(first: &[u8], second: &[u8]) -> (digest: [u8; 32])
    ensures
        digest@ == keccak_hashv(first@, second@),
{
    solana_program::keccak::hashv(&[first, second]).0
}

/// Lexicographic order on byte strings: the first position at which `a` and
/// `b` differ decides, and a string is not above its own extensions.
pub open spec fn lex_le(a: Seq<u8>, b: Seq<u8>) -> bool
    decreases a.len(),
{
    if a.len() == 0 {
        true
    } else if b.len() == 0 {
        false
    } else if a[0] != b[0] {
        a[0] < b[0]
    } else {
        lex_le(a.drop_first(), b.drop_first())
    }
}

/// The hash of a tree node with children `a` and `b`: the digest of the two,
/// the lexicographically smaller one first, whichever side it hangs on.
pub open spec fn parent_hash(a: Seq<u8>, b: Seq<u8>) -> Seq<u8> {
    if lex_le(a, b) {
        keccak_hashv(a, b)
    } else {
        keccak_hashv(b, a)
    }
}

/// Of two byte strings, one is at or below the other.
pub proof fn lemma_lex_le_total(a: Seq<u8>, b: Seq<u8>)
    ensures
        lex_le(a, b) || lex_le(b, a),
    decreases a.len(),
{
    if a.len() > 0 && b.len() > 0 && a[0] == b[0] {
        lemma_lex_le_total(a.drop_first(), b.drop_first());
    }
}

/// Two byte strings that are each at or below the other are the same string.
pub proof fn lemma_lex_le_antisymmetric(a: Seq<u8>, b: Seq<u8>)
    requires
        lex_le(a, b),
        lex_le(b, a),
    ensures
        a == b,
    decreases a.len(),
{
    if a.len() > 0 {
        lemma_lex_le_antisymmetric(a.drop_first(), b.drop_first());
        assert(a =~= seq![a[0]] + a.drop_first());
        assert(b =~= seq![b[0]] + b.drop_first());
    } else {
        assert(a =~= b);
    }
}

/// A node's hash does not depend on which of its children is the left one:
/// combining is by value, not by side.
pub proof fn lemma_parent_hash_symmetric(a: Seq<u8>, b: Seq<u8>)
    ensures
        parent_hash(a, b) == parent_hash(b, a),
{
    lemma_lex_le_total(a, b);
    if lex_le(a, b) && lex_le(b, a) {
        lemma_lex_le_antisymmetric(a, b);
    }
}

/// The hash of the allocation `(claimant, amount)`: the digest of the
/// claimant's 32 address bytes followed by the amount as 8 little-endian
/// bytes.
pub open spec fn leaf_digest(claimant: Pubkey, amount: u64) -> Seq<u8> {
    keccak_hashv(claimant.bytes@, spec_u64_to_le_bytes(amount))
}

/// Whether two 32-byte values hold the same bytes.
pub fn hash_eq(a: &[u8; 32], b: &[u8; 32]) -> (same: bool)
    ensures
        same == (*a == *b),
        same == (a@ == b@),
{
    let mut i: usize = 0;
    while i < 32
        invariant
            i <= 32,
            forall|j: int| 0 <= j < i ==> a[j] == b[j],
        decreases 32 - i,
    {
        if a[i] != b[i] {
            return false;
        }
        i += 1;
    }
    assert(*a =~= *b);
    true
}

/// Whether `a` is at or below `b` in lexicographic order.
pub fn hash_le(a: &[u8; 32], b: &[u8; 32]) -> (below: bool)
    ensures
        below == lex_le(a@, b@),
{
    let mut i: usize = 0;
    assert(a@.skip(0) =~= a@ && b@.skip(0) =~= b@);
    while i < 32
        invariant
            i <= 32,
            lex_le(a@, b@) == lex_le(a@.skip(i as int), b@.skip(i as int)),
        decreases 32 - i,
    {
        proof {
            assert(a@.skip(i as int).drop_first() =~= a@.skip(i + 1));
            assert(b@.skip(i as int).drop_first() =~= b@.skip(i + 1));
        }
        if a[i] != b[i] {
            return a[i] < b[i];
        }
        i += 1;
    }
    true
}

/// Hashes two sibling nodes into their parent.
pub fn hash_pair(a: &[u8; 32], b: &[u8; 32]) -> (parent: [u8; 32])
    ensures
        parent@ == parent_hash(a@, b@),
{
    if hash_le(a, b) {
        hashv(a.as_slice(), b.as_slice())
    } else {
        hashv(b.as_slice(), a.as_slice())
    }
}

/// Derives the leaf hash of the allocation `(claimant, amount)`.
pub fn leaf_hash(claimant: &Pubkey, amount: u64) -> (leaf: [u8; 32])
    ensures
        leaf@ == leaf_digest(*claimant, amount),
{
    let amount_bytes = u64_to_le_bytes(amount);
    hashv(claimant.bytes.as_slice(), amount_bytes.as_slice())
}

} // verus!
