//! Merkle inclusion proofs: folding a leaf up its sibling path.

use crate::hashing::{
    hash_eq, hash_pair, keccak_hashv, lemma_parent_hash_symmetric, lex_le, parent_hash,
};
use vstd::prelude::*;

verus! {

/// The root that `leaf` reaches when it is combined with the siblings of
/// `path` one after the other, the sibling next to the leaf first.
pub open spec fn computed_root(leaf: Seq<u8>, path: Seq<Seq<u8>>) -> Seq<u8>
    decreases path.len(),
{
    if path.len() == 0 {
        leaf
    } else {
        parent_hash(computed_root(leaf, path.drop_last()), path.last())
    }
}

/// The siblings of `proof` as byte strings, in the order given.
pub open spec fn sibling_bytes(proof: Seq<[u8; 32]>) -> Seq<Seq<u8>> {
    proof.map_values(|sibling: [u8; 32]| sibling@)
}

/// A hash tree as its builder lays it out: allocations' hashes at the
/// leaves, and above every two subtrees the hash of their roots.
pub enum HashTree {
    Leaf { hash: Seq<u8> },
    Node { left: Box<HashTree>, right: Box<HashTree> },
}

impl HashTree {
    /// The hash at the top of the tree.
    pub open spec fn root(self) -> Seq<u8>
        decreases self,
    {
        match self {
            HashTree::Leaf { hash } => hash,
            HashTree::Node { left, right } => parent_hash(left.root(), right.root()),
        }
    }

    /// Whether `route` leads from the top of the tree down to a leaf. A step
    /// of `route` is `true` where it goes right.
    pub open spec fn reaches_leaf(self, route: Seq<bool>) -> bool
        decreases self,
    {
        match self {
            HashTree::Leaf { hash } => route.len() == 0,
            HashTree::Node { left, right } => route.len() > 0 && if route[0] {
                right.reaches_leaf(route.drop_first())
            } else {
                left.reaches_leaf(route.drop_first())
            },
        }
    }

    /// The leaf hash that `route` leads to.
    pub open spec fn leaf_at(self, route: Seq<bool>) -> Seq<u8>
        decreases self,
    {
        match self {
            HashTree::Leaf { hash } => hash,
            HashTree::Node { left, right } => if route.len() > 0 && route[0] {
                right.leaf_at(route.drop_first())
            } else {
                left.leaf_at(route.drop_first())
            },
        }
    }

    /// The sibling path of the leaf that `route` leads to: the roots of the
    /// subtrees that the route passes by, the one next to the leaf first.
    pub open spec fn path_at(self, route: Seq<bool>) -> Seq<Seq<u8>>
        decreases self,
    {
        match self {
            HashTree::Leaf { hash } => Seq::empty(),
            HashTree::Node { left, right } => if route.len() > 0 && route[0] {
                right.path_at(route.drop_first()).push(left.root())
            } else {
                left.path_at(route.drop_first()).push(right.root())
            },
        }
    }
}

/// The verifier accepts what the tree holds. For every tree and every leaf
/// in it, the leaf's sibling path leads from the leaf to the root of the
/// tree, on whichever side of each node the leaf's branch hangs.
pub proof fn lemma_path_of_tree_reaches_root(tree: HashTree, route: Seq<bool>)
    requires
        tree.reaches_leaf(route),
    ensures
        computed_root(tree.leaf_at(route), tree.path_at(route)) == tree.root(),
    decreases tree,
{
    match tree {
        HashTree::Leaf { hash } => {},
        HashTree::Node { left, right } => {
            let rest = route.drop_first();
            if route[0] {
                lemma_path_of_tree_reaches_root(*right, rest);
                assert(tree.path_at(route).drop_last() =~= right.path_at(rest));
                lemma_parent_hash_symmetric(right.root(), left.root());
            } else {
                lemma_path_of_tree_reaches_root(*left, rest);
                assert(tree.path_at(route).drop_last() =~= left.path_at(rest));
            }
        },
    }
}

/// Two different pairs of 32-byte values with one and the same digest.
pub open spec fn is_collision(a1: Seq<u8>, b1: Seq<u8>, a2: Seq<u8>, b2: Seq<u8>) -> bool {
    &&& a1.len() == 32 && b1.len() == 32 && a2.len() == 32 && b2.len() == 32
    &&& a1 != a2 || b1 != b2
    &&& keccak_hashv(a1, b1) == keccak_hashv(a2, b2)
}

/// Whether keccak-256 maps two different pairs of 32-byte values to one
/// digest.
pub open spec fn collision_exists() -> bool {
    exists|a1: Seq<u8>, b1: Seq<u8>, a2: Seq<u8>, b2: Seq<u8>| is_collision(a1, b1, a2, b2)
}

/// Every sibling of `path` and every node on the way from `leaf` up `path`
/// is 32 bytes long, as every leaf and every digest is.
pub open spec fn path_is_sized(leaf: Seq<u8>, path: Seq<Seq<u8>>) -> bool {
    &&& forall|k: int| 0 <= k < path.len() ==> (#[trigger] path[k]).len() == 32
    &&& forall|k: int|
        0 <= k <= path.len() ==> (#[trigger] computed_root(leaf, path.take(k))).len() == 32
}

proof fn lemma_path_is_sized_drop_last(leaf: Seq<u8>, path: Seq<Seq<u8>>)
    requires
        path_is_sized(leaf, path),
        path.len() > 0,
    ensures
        path_is_sized(leaf, path.drop_last()),
        computed_root(leaf, path.drop_last()).len() == 32,
        path.last().len() == 32,
{
    let shorter = path.drop_last();
    assert forall|k: int| 0 <= k <= shorter.len() implies (#[trigger] computed_root(
        leaf,
        shorter.take(k),
    )).len() == 32 by {
        assert(shorter.take(k) =~= path.take(k));
    }
    assert forall|k: int| 0 <= k < shorter.len() implies (#[trigger] shorter[k]).len() == 32 by {
        assert(shorter[k] == path[k]);
    }
    assert(shorter.take(shorter.len() as int) =~= shorter);
}

/// Two sibling pairs that differ as unordered pairs and hash to one parent
/// are a collision.
proof fn lemma_parents_collide(r1: Seq<u8>, s1: Seq<u8>, r2: Seq<u8>, s2: Seq<u8>)
    requires
        r1.len() == 32 && s1.len() == 32 && r2.len() == 32 && s2.len() == 32,
        parent_hash(r1, s1) == parent_hash(r2, s2),
        !(r1 == r2 && s1 == s2),
        !(r1 == s2 && s1 == r2),
    ensures
        collision_exists(),
{
    let (x1, y1) = if lex_le(r1, s1) {
        (r1, s1)
    } else {
        (s1, r1)
    };
    let (x2, y2) = if lex_le(r2, s2) {
        (r2, s2)
    } else {
        (s2, r2)
    };
    assert(is_collision(x1, y1, x2, y2));
}

/// A path leads at most one leaf to a given root, short of a collision: if
/// two different leaves reach the same root by the same siblings, keccak-256
/// has a collision. So a leaf in which a byte was changed is not accepted
/// with the path of the leaf it was made from.
pub proof fn lemma_changed_leaf_changes_root(leaf1: Seq<u8>, leaf2: Seq<u8>, path: Seq<Seq<u8>>)
    requires
        leaf1 != leaf2,
        path_is_sized(leaf1, path),
        path_is_sized(leaf2, path),
        computed_root(leaf1, path) == computed_root(leaf2, path),
    ensures
        collision_exists(),
    decreases path.len(),
{
    if path.len() > 0 {
        let shorter = path.drop_last();
        let r1 = computed_root(leaf1, shorter);
        let r2 = computed_root(leaf2, shorter);
        lemma_path_is_sized_drop_last(leaf1, path);
        lemma_path_is_sized_drop_last(leaf2, path);
        if r1 == r2 {
            lemma_changed_leaf_changes_root(leaf1, leaf2, shorter);
        } else {
            lemma_parents_collide(r1, path.last(), r2, path.last());
        }
    }
}

/// A sibling cannot be exchanged for another, short of a collision: if a leaf
/// reaches the same root by two paths that differ in the sibling at `k` and
/// nowhere else, keccak-256 has a collision.
pub proof fn lemma_changed_sibling_changes_root(
    leaf: Seq<u8>,
    path: Seq<Seq<u8>>,
    k: int,
    sibling: Seq<u8>,
)
    requires
        0 <= k < path.len(),
        sibling != path[k],
        path_is_sized(leaf, path),
        path_is_sized(leaf, path.update(k, sibling)),
        computed_root(leaf, path) == computed_root(leaf, path.update(k, sibling)),
    ensures
        collision_exists(),
    decreases path.len(),
{
    let changed = path.update(k, sibling);
    let r1 = computed_root(leaf, path.drop_last());
    let r2 = computed_root(leaf, changed.drop_last());
    lemma_path_is_sized_drop_last(leaf, path);
    lemma_path_is_sized_drop_last(leaf, changed);
    if k == path.len() - 1 {
        assert(changed.drop_last() =~= path.drop_last());
        lemma_parents_collide(r1, path.last(), r2, sibling);
    } else {
        assert(changed.drop_last() =~= path.drop_last().update(k, sibling));
        if r1 == r2 {
            lemma_changed_sibling_changes_root(leaf, path.drop_last(), k, sibling);
        } else {
            lemma_parents_collide(r1, path.last(), r2, changed.last());
        }
    }
}

/// Walking up a path in two stretches reaches what walking it in one does.
pub proof fn lemma_computed_root_concat(leaf: Seq<u8>, first: Seq<Seq<u8>>, rest: Seq<Seq<u8>>)
    ensures
        computed_root(leaf, first + rest) == computed_root(computed_root(leaf, first), rest),
    decreases rest.len(),
{
    if rest.len() == 0 {
        assert(first + rest =~= first);
    } else {
        lemma_computed_root_concat(leaf, first, rest.drop_last());
        assert((first + rest).drop_last() =~= first + rest.drop_last());
    }
}

proof fn lemma_path_is_sized_split(leaf: Seq<u8>, first: Seq<Seq<u8>>, rest: Seq<Seq<u8>>)
    requires
        path_is_sized(leaf, first + rest),
    ensures
        path_is_sized(leaf, first),
        path_is_sized(computed_root(leaf, first), rest),
{
    let whole = first + rest;
    assert forall|k: int| 0 <= k < first.len() implies (#[trigger] first[k]).len() == 32 by {
        assert(first[k] == whole[k]);
    }
    assert forall|k: int| 0 <= k <= first.len() implies (#[trigger] computed_root(
        leaf,
        first.take(k),
    )).len() == 32 by {
        assert(first.take(k) =~= whole.take(k));
    }
    assert forall|k: int| 0 <= k < rest.len() implies (#[trigger] rest[k]).len() == 32 by {
        assert(rest[k] == whole[first.len() + k]);
    }
    assert forall|k: int| 0 <= k <= rest.len() implies (#[trigger] computed_root(
        computed_root(leaf, first),
        rest.take(k),
    )).len() == 32 by {
        lemma_computed_root_concat(leaf, first, rest.take(k));
        assert(first + rest.take(k) =~= whole.take(first.len() + k));
    }
}

/// The order of the siblings matters, although the order within a pair does
/// not. If a path still reaches the same root after two neighbouring siblings
/// `lower` and `upper`, which differ, have changed places, then keccak-256 has
/// a collision, or each of the two is its own parent: the hash of itself and
/// of the node below the two.
pub proof fn lemma_swapped_siblings_change_root(
    leaf: Seq<u8>,
    before: Seq<Seq<u8>>,
    lower: Seq<u8>,
    upper: Seq<u8>,
    after: Seq<Seq<u8>>,
)
    requires
        lower != upper,
        path_is_sized(leaf, before + seq![lower, upper] + after),
        path_is_sized(leaf, before + seq![upper, lower] + after),
        computed_root(leaf, before + seq![lower, upper] + after) == computed_root(
            leaf,
            before + seq![upper, lower] + after,
        ),
    ensures
        collision_exists() || ({
            let node = computed_root(leaf, before);
            parent_hash(node, lower) == lower && parent_hash(node, upper) == upper
        }),
{
    let node = computed_root(leaf, before);
    let as_given = seq![lower, upper];
    let swapped = seq![upper, lower];
    let via_lower = parent_hash(node, lower);
    let via_upper = parent_hash(node, upper);
    let above_given = parent_hash(via_lower, upper);
    let above_swapped = parent_hash(via_upper, lower);

    lemma_path_is_sized_split(leaf, before + as_given, after);
    lemma_path_is_sized_split(leaf, before + swapped, after);
    lemma_path_is_sized_split(leaf, before, as_given);
    lemma_path_is_sized_split(leaf, before, swapped);
    lemma_computed_root_concat(leaf, before + as_given, after);
    lemma_computed_root_concat(leaf, before + swapped, after);
    lemma_computed_root_concat(leaf, before, as_given);
    lemma_computed_root_concat(leaf, before, swapped);

    assert(as_given.drop_last() =~= seq![lower]);
    assert(seq![lower].drop_last() =~= Seq::<Seq<u8>>::empty());
    assert(swapped.drop_last() =~= seq![upper]);
    assert(seq![upper].drop_last() =~= Seq::<Seq<u8>>::empty());
    assert(computed_root(node, Seq::<Seq<u8>>::empty()) == node);
    assert(computed_root(node, seq![lower]) == via_lower);
    assert(computed_root(node, seq![upper]) == via_upper);

    assert(as_given.take(1) =~= seq![lower]);
    assert(swapped.take(1) =~= seq![upper]);

    if above_given != above_swapped {
        lemma_changed_leaf_changes_root(above_given, above_swapped, after);
    } else if !(via_lower == lower && upper == via_upper) {
        lemma_parents_collide(via_lower, upper, via_upper, lower);
    }
}

/// Whether `proof` leads from `leaf` to `root`.
pub fn verify_merkle_proof(proof: &[[u8; 32]], root: [u8; 32], leaf: [u8; 32]) -> (valid: bool)
    ensures
        valid == (computed_root(leaf@, sibling_bytes(proof@)) == root@),
{
    let ghost path = sibling_bytes(proof@);
    let mut computed_hash: [u8; 32] = leaf;
    let mut i: usize = 0;
    assert(path.take(0) =~= Seq::<Seq<u8>>::empty());
    while i < proof.len()
        invariant
            i <= proof.len(),
            path == sibling_bytes(proof@),
            computed_hash@ == computed_root(leaf@, path.take(i as int)),
        decreases proof.len() - i,
    {
        proof {
            assert(path.take(i + 1).drop_last() =~= path.take(i as int));
            assert(path.take(i + 1).last() == proof@[i as int]@);
        }
        computed_hash = hash_pair(&computed_hash, &proof[i]);
        i += 1;
    }
    assert(path.take(i as int) =~= path);
    hash_eq(&computed_hash, &root)
}

} // verus!
