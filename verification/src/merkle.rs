//! A small binary Merkle tree over commitments.
//!
//! Leaves are hashed under one domain tag and internal nodes under another;
//! a level of odd length pairs its last node with itself.
use vstd::prelude::*;

use crate::commitment::{commit_i64, spec_commit, Commitment};
use crate::journal::{i64_from_le, u64_from_le_bytes};

verus! {

/// Domain tag for leaf hashing.
pub const LEAF_DOMAIN: u64 = 10;

/// Domain tag for internal node hashing.
pub const INTERNAL_DOMAIN: u64 = 11;

/// A Merkle proof for a leaf at a specific index.
#[derive(Debug, Clone, PartialEq, Eq)]
pub struct MerkleProof {
    /// The sibling hashes at each level of the tree, from bottom to top.
    pub siblings: Vec<Commitment>,
    /// The index of the leaf in the original tree.
    pub index: usize,
}

/// The four little-endian `i64` words of a 32-byte commitment.
pub open spec fn words4(c: Seq<u8>) -> Seq<i64> {
    seq![
        i64_from_le(c.subrange(0, 8)),
        i64_from_le(c.subrange(8, 16)),
        i64_from_le(c.subrange(16, 24)),
        i64_from_le(c.subrange(24, 32)),
    ]
}

/// Hash of a leaf: the commitment of the leaf tag and the leaf's words.
#[verifier::opaque]
pub open spec fn spec_hash_leaf(leaf: Seq<u8>) -> Seq<u8> {
    spec_commit(seq![LEAF_DOMAIN as i64] + words4(leaf))
}

/// Hash of an internal node: the commitment of the internal tag and both
/// children's words.
#[verifier::opaque]
pub open spec fn spec_hash_internal(a: Seq<u8>, b: Seq<u8>) -> Seq<u8> {
    spec_commit(seq![INTERNAL_DOMAIN as i64] + words4(a) + words4(b))
}

/// The right partner of node `2 * i` on a level: its neighbour, or itself
/// at the odd end.
pub open spec fn right_of(level: Seq<Seq<u8>>, i: int) -> Seq<u8> {
    if 2 * i + 1 < level.len() { level[2 * i + 1] } else { level[2 * i] }
}

/// The next level up: pairs hashed together.
pub open spec fn level_up(level: Seq<Seq<u8>>) -> Seq<Seq<u8>> {
    Seq::new(
        ((level.len() + 1) / 2) as nat,
        |i: int| spec_hash_internal(level[2 * i], right_of(level, i)),
    )
}

/// The root above a non-empty level.
pub open spec fn root_of(level: Seq<Seq<u8>>) -> Seq<u8>
    decreases level.len(),
{
    if level.len() <= 1 {
        level[0]
    } else {
        root_of(level_up(level))
    }
}

/// The leaf hashes of a list of leaves.
pub open spec fn leaf_level(leaves: Seq<Seq<u8>>) -> Seq<Seq<u8>> {
    leaves.map_values(|l: Seq<u8>| spec_hash_leaf(l))
}

/// The views of a list of commitments.
pub open spec fn views(cs: Seq<Commitment>) -> Seq<Seq<u8>> {
    cs.map_values(|c: Commitment| c@)
}

/// Root of a list of leaves; all zero for no leaves.
pub open spec fn spec_merkle_root(leaves: Seq<Seq<u8>>) -> Seq<u8> {
    if leaves.len() == 0 {
        Seq::new(32, |i: int| 0u8)
    } else {
        root_of(leaf_level(leaves))
    }
}

/// Sibling of node `idx` on a level, or the node itself at the odd end.
pub open spec fn sibling_of(level: Seq<Seq<u8>>, idx: int) -> Seq<u8> {
    let s = if idx % 2 == 0 { idx + 1 } else { idx - 1 };
    if s < level.len() { level[s] } else { level[idx] }
}

/// The siblings on the path from node `idx` of `level` up to the root.
pub open spec fn path_siblings(level: Seq<Seq<u8>>, idx: int) -> Seq<Seq<u8>>
    decreases level.len(),
{
    if level.len() <= 1 {
        Seq::empty()
    } else {
        seq![sibling_of(level, idx)] + path_siblings(level_up(level), idx / 2)
    }
}

/// Fold a leaf hash with siblings, bottom up, placing the running hash on
/// the left at even positions and on the right at odd ones.
pub open spec fn fold_path(computed: Seq<u8>, idx: int, siblings: Seq<Seq<u8>>) -> Seq<u8>
    decreases siblings.len(),
{
    if siblings.len() == 0 {
        computed
    } else {
        let next = if idx % 2 == 0 {
            spec_hash_internal(computed, siblings[0])
        } else {
            spec_hash_internal(siblings[0], computed)
        };
        fold_path(next, idx / 2, siblings.drop_first())
    }
}

fn words_of(c: &Commitment) -> (r: [i64; 4])
    ensures
        r@ == words4(c@),
{
    let s = c.as_slice();
    let r: [i64; 4] = [
        u64_from_le_bytes(s, 0) as i64,
        u64_from_le_bytes(s, 8) as i64,
        u64_from_le_bytes(s, 16) as i64,
        u64_from_le_bytes(s, 24) as i64,
    ];
    assert(r@ =~= words4(c@));
    r
}

/// Hash a leaf under the leaf domain tag.
pub fn hash_leaf(leaf: &Commitment) -> (r: Commitment)
    ensures
        r@ == spec_hash_leaf(leaf@),
{
    let w = words_of(leaf);
    let elements: [i64; 5] = [LEAF_DOMAIN as i64, w[0], w[1], w[2], w[3]];
    assert(elements@ =~= seq![LEAF_DOMAIN as i64] + words4(leaf@));
    let r = commit_i64(elements.as_slice());
    proof {
        reveal(spec_hash_leaf);
    }
    r
}

/// Hash two children under the internal domain tag.
pub fn hash_internal(a: &Commitment, b: &Commitment) -> (r: Commitment)
    ensures
        r@ == spec_hash_internal(a@, b@),
{
    let wa = words_of(a);
    let wb = words_of(b);
    let elements: [i64; 9] = [INTERNAL_DOMAIN as i64, wa[0], wa[1], wa[2], wa[3], wb[0], wb[1], wb[2], wb[3]];
    assert(elements@ =~= seq![INTERNAL_DOMAIN as i64] + words4(a@) + words4(b@));
    let r = commit_i64(elements.as_slice());
    proof {
        reveal(spec_hash_internal);
    }
    r
}

fn hash_leaves(leaves: &[Commitment]) -> (r: Vec<Commitment>)
    ensures
        r@.len() == leaves@.len(),
        views(r@) == leaf_level(views(leaves@)),
{
    let mut out: Vec<Commitment> = Vec::new();
    let mut i: usize = 0;
    while i < leaves.len()
        invariant
            i <= leaves@.len(),
            out@.len() == i,
            forall|k: int| 0 <= k < i ==> (#[trigger] out@[k])@ == spec_hash_leaf(leaves@[k]@),
        decreases leaves@.len() - i,
    {
        out.push(hash_leaf(&leaves[i]));
        i = i + 1;
    }
    assert(views(out@) =~= leaf_level(views(leaves@)));
    out
}

fn next_level(level: &Vec<Commitment>) -> (r: Vec<Commitment>)
    ensures
        r@.len() == (level@.len() + 1) / 2,
        views(r@) == level_up(views(level@)),
{
    let ghost lv = views(level@);
    let mut out: Vec<Commitment> = Vec::new();
    let n: usize = level.len();
    let half: usize = n - n / 2;
    let mut i: usize = 0;
    while i < half
        invariant
            lv == views(level@),
            n == level@.len(),
            half == n - n / 2,
            i <= half,
            out@.len() == i,
            forall|k: int| 0 <= k < i ==> (#[trigger] out@[k])@ == spec_hash_internal(lv[2 * k], right_of(lv, k)),
        decreases half - i,
    {
        assert(2 * i < n);
        let a = level[2 * i];
        let b = if 2 * i + 1 < level.len() { level[2 * i + 1] } else { level[2 * i] };
        out.push(hash_internal(&a, &b));
        i = i + 1;
    }
    assert(out@.len() == (level@.len() + 1) / 2);
    assert(views(out@) =~= level_up(lv));
    out
}

proof fn lemma_level_up_shrinks(level: Seq<Seq<u8>>)
    requires
        level.len() > 1,
    ensures
        level_up(level).len() < level.len(),
        level_up(level).len() >= 1,
{
}

/// Compute the Merkle root of a list of leaf commitments. An empty list
/// gives the all-zero commitment.
pub fn merkle_root(leaves: &[Commitment]) -> (r: Commitment)
    ensures
        r@ == spec_merkle_root(views(leaves@)),
{
    if leaves.len() == 0 {
        let z: Commitment = [0u8; 32];
        assert(z@ =~= Seq::new(32, |i: int| 0u8));
        return z;
    }
    let mut level = hash_leaves(leaves);
    while level.len() > 1
        invariant
            level@.len() >= 1,
            root_of(views(level@)) == root_of(leaf_level(views(leaves@))),
        decreases level@.len(),
    {
        proof {
            lemma_level_up_shrinks(views(level@));
        }
        level = next_level(&level);
    }
    level[0]
}

/// Generate a Merkle proof for the leaf at the given index, or `None` if the
/// index is out of bounds or the tree is empty.
pub fn generate_proof(leaves: &[Commitment], index: usize) -> (r: Option<MerkleProof>)
    ensures
        index < leaves@.len() <==> r is Some,
        r matches Some(p) ==> p.index == index && views(p.siblings@) == path_siblings(
            leaf_level(views(leaves@)),
            index as int,
        ),
{
    if leaves.len() == 0 || index >= leaves.len() {
        return None;
    }
    let mut siblings: Vec<Commitment> = Vec::new();
    let mut level = hash_leaves(leaves);
    let mut current_index: usize = index;
    while level.len() > 1
        invariant
            level@.len() >= 1,
            current_index < level@.len(),
            views(siblings@) + path_siblings(views(level@), current_index as int) == path_siblings(
                leaf_level(views(leaves@)),
                index as int,
            ),
        decreases level@.len(),
    {
        let ghost lv = views(level@);
        proof {
            lemma_level_up_shrinks(lv);
        }
        let sibling_index: usize = if current_index % 2 == 0 {
            current_index + 1
        } else {
            current_index - 1
        };
        let sibling = if sibling_index < level.len() {
            level[sibling_index]
        } else {
            level[current_index]
        };
        let ghost old_sibs = views(siblings@);
        let ghost old_index = current_index;
        siblings.push(sibling);
        assert(views(siblings@) =~= old_sibs.push(sibling_of(lv, current_index as int)));
        current_index = current_index / 2;
        level = next_level(&level);
        assert(old_sibs.push(sibling_of(lv, old_index as int)) + path_siblings(views(level@), current_index as int)
            =~= old_sibs + path_siblings(lv, old_index as int));
    }
    Some(MerkleProof { siblings, index })
}

fn commitments_equal(a: &Commitment, b: &Commitment) -> (r: bool)
    ensures
        r == (a@ == b@),
{
    let mut i: usize = 0;
    while i < 32
        invariant
            i <= 32,
            a@.len() == 32,
            b@.len() == 32,
            forall|k: int| 0 <= k < i ==> a@[k] == b@[k],
        decreases 32 - i,
    {
        if a[i] != b[i] {
            return false;
        }
        i = i + 1;
    }
    assert(a@ =~= b@);
    true
}

/// Verify a Merkle proof: fold the leaf hash with the siblings and compare
/// with the root.
pub fn verify_proof(root: &Commitment, leaf: &Commitment, proof: &MerkleProof) -> (r: bool)
    ensures
        r == (fold_path(spec_hash_leaf(leaf@), proof.index as int, views(proof.siblings@)) == root@),
{
    let mut computed = hash_leaf(leaf);
    let mut current_index: usize = proof.index;
    let ghost sibs = views(proof.siblings@);
    let mut i: usize = 0;
    assert(sibs.skip(0) =~= sibs);
    while i < proof.siblings.len()
        invariant
            i <= proof.siblings@.len(),
            sibs == views(proof.siblings@),
            fold_path(spec_hash_leaf(leaf@), proof.index as int, sibs) == fold_path(
                computed@,
                current_index as int,
                sibs.skip(i as int),
            ),
        decreases proof.siblings@.len() - i,
    {
        let sibling = proof.siblings[i];
        assert(sibs.skip(i as int)[0] == sibling@);
        assert(sibs.skip(i as int).drop_first() =~= sibs.skip(i + 1));
        if current_index % 2 == 0 {
            computed = hash_internal(&computed, &sibling);
        } else {
            computed = hash_internal(&sibling, &computed);
        }
        current_index = current_index / 2;
        i = i + 1;
    }
    commitments_equal(&computed, root)
}

proof fn lemma_path_folds_to_root(level: Seq<Seq<u8>>, idx: int)
    requires
        0 <= idx < level.len(),
    ensures
        fold_path(level[idx], idx, path_siblings(level, idx)) == root_of(level),
    decreases level.len(),
{
    if level.len() > 1 {
        let up = level_up(level);
        lemma_level_up_shrinks(level);
        let k = idx / 2;
        let sibs = path_siblings(level, idx);
        assert(sibs[0] == sibling_of(level, idx));
        assert(sibs.drop_first() =~= path_siblings(up, k));
        if idx % 2 == 0 {
            assert(2 * k == idx);
        } else {
            assert(2 * k + 1 == idx);
        }
        assert(up[k] == spec_hash_internal(level[2 * k], right_of(level, k)));
        lemma_path_folds_to_root(up, k);
    }
}

/// A proof generated for a leaf verifies that leaf against the root of the
/// same leaves.
pub proof fn lemma_generated_proof_verifies(leaves: Seq<Seq<u8>>, index: int)
    requires
        0 <= index < leaves.len(),
    ensures
        fold_path(spec_hash_leaf(leaves[index]), index, path_siblings(leaf_level(leaves), index))
            == spec_merkle_root(leaves),
{
    lemma_path_folds_to_root(leaf_level(leaves), index);
}

proof fn lemma_level_up_dup_last(level: Seq<Seq<u8>>)
    requires
        level.len() % 2 == 1,
    ensures
        level_up(level.push(level.last())) == level_up(level),
{
    let l2 = level.push(level.last());
    assert(level_up(l2).len() == level_up(level).len());
    assert forall|i: int| 0 <= i < level_up(level).len() implies level_up(l2)[i] == level_up(level)[i] by {
        assert(l2[2 * i] == level[2 * i]);
        if 2 * i + 1 < level.len() {
            assert(l2[2 * i + 1] == level[2 * i + 1]);
        } else {
            assert(2 * i == level.len() - 1);
            assert(right_of(l2, i) == level[2 * i]);
        }
    }
    assert(level_up(l2) =~= level_up(level));
}

proof fn lemma_leaf_level_push(leaves: Seq<Seq<u8>>)
    requires
        leaves.len() > 0,
    ensures
        leaf_level(leaves.push(leaves.last())) == leaf_level(leaves).push(leaf_level(leaves).last()),
{
    assert(leaf_level(leaves.push(leaves.last())) =~= leaf_level(leaves).push(leaf_level(leaves).last()));
}

/// On a level of odd length the last node is paired with itself: the root
/// of an odd number (at least three) of leaves is the root of the same
/// leaves with the last one repeated.
pub proof fn lemma_root_repeats_last_leaf(leaves: Seq<Seq<u8>>)
    requires
        leaves.len() >= 3,
        leaves.len() % 2 == 1,
    ensures
        spec_merkle_root(leaves.push(leaves.last())) == spec_merkle_root(leaves),
{
    let l = leaf_level(leaves);
    lemma_leaf_level_push(leaves);
    lemma_level_up_dup_last(l);
    assert(l.push(l.last()).len() > 1);
}

/// On a level of odd length the last node is its own sibling: for an odd
/// number (at least three) of leaves, the proof of every leaf is the proof
/// of that leaf in the same leaves with the last one repeated.
pub proof fn lemma_proof_repeats_last_leaf(leaves: Seq<Seq<u8>>, index: int)
    requires
        leaves.len() >= 3,
        leaves.len() % 2 == 1,
        0 <= index < leaves.len(),
    ensures
        path_siblings(leaf_level(leaves.push(leaves.last())), index) == path_siblings(leaf_level(leaves), index),
{
    let l = leaf_level(leaves);
    let l2 = l.push(l.last());
    lemma_leaf_level_push(leaves);
    lemma_level_up_dup_last(l);
    if index == l.len() - 1 {
        assert(index % 2 == 0) by {
            assert(index == leaves.len() - 1);
        }
        assert(sibling_of(l2, index) == l[index]);
        assert(sibling_of(l, index) == l[index]);
    } else {
        assert(sibling_of(l2, index) == sibling_of(l, index));
    }
}

} // verus!
