//! The Merkle tree itself: an owned stack of levels, leaf level first and
//! singleton root level last, built bottom-up by pairwise digest combination.

use vstd::prelude::*;

use crate::digest::{combine, combine_of, hash_eq, hash_of, Digest};
use crate::serializable::Serializable;

verus! {

/// The length of the leaf level after padding: an odd number of leaves is
/// made even by duplicating the last leaf.
pub open spec fn leaf_padded_len(n: nat) -> nat {
    if n % 2 == 1 {
        n + 1
    } else {
        n
    }
}

/// The length of an internal level after padding: a level longer than one
/// entry is kept even by duplicating its last entry; a singleton level is
/// the root and is never padded.
pub open spec fn padded_len(m: nat) -> nat {
    if m > 1 && m % 2 == 1 {
        m + 1
    } else {
        m
    }
}

/// `next` is exactly the level built above `prev`: one parent digest per
/// consecutive pair of `prev` (a trailing unpaired entry is dropped), with
/// the padding rule applied to the result.
pub open spec fn is_parent_level(prev: Seq<Digest>, next: Seq<Digest>) -> bool {
    let m = prev.len() / 2;
    &&& next.len() == padded_len(m)
    &&& (forall|j: int|
        0 <= j < m ==> (#[trigger] next[j])@ == combine_of(prev[2 * j]@, prev[2 * j + 1]@))
    &&& (m > 1 && m % 2 == 1 ==> next[m as int] == next[m - 1])
}

/// A well-formed stack of levels: at least one level, a singleton root level
/// at the top, every level below the root of even length with at least one
/// pair, and each level the exact pairwise combination of the one below it.
pub open spec fn tree_wf(levels: Seq<Seq<Digest>>) -> bool {
    &&& levels.len() >= 1
    &&& levels.last().len() == 1
    &&& (forall|k: int|
        0 <= k < levels.len() - 1 ==> (#[trigger] levels[k]).len() >= 2 && levels[k].len() % 2
            == 0)
    &&& (forall|k: int|
        0 <= k < levels.len() - 1 ==> #[trigger] is_parent_level(levels[k], levels[k + 1]))
}

/// The index of the sibling paired with position `i` within one level.
pub open spec fn sibling_index(i: int) -> int {
    if i % 2 == 0 {
        i + 1
    } else {
        i - 1
    }
}

/// The position that a leaf at index `i` contributes to at level `k`: the
/// leaf index, halved once per level climbed.
pub open spec fn index_at(i: int, k: nat) -> int
    decreases k,
{
    if k == 0 {
        i
    } else {
        index_at(i, (k - 1) as nat) / 2
    }
}

/// Folds a digest up against an ordered sequence of sibling digests: at each
/// step the current digest is combined with the next sibling, on the side
/// that the current index's parity dictates, and the index is halved.
pub open spec fn chain(hash: Seq<u8>, index: int, siblings: Seq<Digest>) -> Seq<u8>
    decreases siblings.len(),
{
    if siblings.len() == 0 {
        hash
    } else {
        let next = if index % 2 == 0 {
            combine_of(hash, siblings[0]@)
        } else {
            combine_of(siblings[0]@, hash)
        };
        chain(next, index / 2, siblings.drop_first())
    }
}

/// The ceiling of the base-two logarithm: the number of pairwise folds it
/// takes to reduce a level of `n` entries (padding included) to a single
/// root entry.
pub open spec fn clog2(n: nat) -> nat
    decreases n,
{
    if n <= 1 {
        0
    } else {
        1 + clog2((n + 1) / 2)
    }
}

/// True iff `n` is a power of two.
pub open spec fn is_pow2(n: nat) -> bool
    decreases n,
{
    if n == 0 {
        false
    } else if n == 1 {
        true
    } else {
        n % 2 == 0 && is_pow2(n / 2)
    }
}

/// For an even level length `n >= 2`, one fold-plus-padding step lowers
/// `clog2` by exactly one.
proof fn lemma_clog2_step(n: nat)
    requires
        n >= 2,
        n % 2 == 0,
    ensures
        clog2(n) == 1 + clog2(padded_len(n / 2)),
{
    let m = n / 2;
    assert((n + 1) / 2 == m);
    if m > 1 && m % 2 == 1 {
        assert(clog2(m) == 1 + clog2((m + 1) / 2));
        assert(clog2(m + 1) == 1 + clog2((m + 2) / 2));
        assert((m + 1) / 2 == (m + 2) / 2);
    }
}

/// The height law: a well-formed tree has exactly one more level than the
/// ceiling of the base-two logarithm of its (padded) leaf count.
pub proof fn lemma_tree_height(levels: Seq<Seq<Digest>>)
    requires
        tree_wf(levels),
    ensures
        levels.len() == 1 + clog2(levels[0].len()),
    decreases levels.len(),
{
    if levels.len() == 1 {
        assert(levels[0].len() == 1);
    } else {
        let rest = levels.skip(1);
        assert(tree_wf(rest)) by {
            assert(rest.last() == levels.last());
            assert forall|k: int| 0 <= k < rest.len() - 1 implies (#[trigger] rest[k]).len() >= 2
                && rest[k].len() % 2 == 0 by {
                assert(rest[k] == levels[k + 1]);
            }
            assert forall|k: int| 0 <= k < rest.len() - 1 implies #[trigger] is_parent_level(
                rest[k],
                rest[k + 1],
            ) by {
                assert(rest[k] == levels[k + 1] && rest[k + 1] == levels[k + 2]);
                assert(is_parent_level(levels[k + 1], levels[k + 2]));
            }
        }
        lemma_tree_height(rest);
        let n = levels[0].len();
        assert(rest[0] == levels[1]);
        assert(is_parent_level(levels[0], levels[1]));
        assert(n >= 2 && n % 2 == 0);
        assert(levels[1].len() == padded_len(n / 2));
        lemma_clog2_step(n);
    }
}

/// The levels of a vector of levels, as a sequence of digest sequences.
pub open spec fn levels_view(levels: Seq<Vec<Digest>>) -> Seq<Seq<Digest>> {
    levels.map(|k: int, level: Vec<Digest>| level@)
}

/// An authenticated binary hash tree over an ordered collection of values.
///
/// `levels[0]` holds one digest per (padded) leaf value in input order;
/// every further level holds the pairwise combinations of the level below;
/// the last level holds the single root digest.
pub struct MerkleTree {
    levels: Vec<Vec<Digest>>,
}

impl View for MerkleTree {
    type V = Seq<Seq<Digest>>;

    closed spec fn view(&self) -> Seq<Seq<Digest>> {
        levels_view(self.levels@)
    }
}

/// Creates the next (upper) level for a Merkle tree given the previous level.
pub fn calculate_next_level(prev_level: &[Digest]) -> (next_level: Vec<Digest>)
    ensures
        is_parent_level(prev_level@, next_level@),
{
    let mut next_level: Vec<Digest> = Vec::new();
    let n = prev_level.len();
    let half = n / 2;
    let mut j: usize = 0;
    while j < half
        invariant
            j <= half,
            half == n / 2,
            n == prev_level@.len(),
            next_level@.len() == j,
            forall|t: int|
                0 <= t < j ==> (#[trigger] next_level@[t])@ == combine_of(
                    prev_level@[2 * t]@,
                    prev_level@[2 * t + 1]@,
                ),
        decreases half - j,
    {
        let left = prev_level[2 * j];
        let right = prev_level[2 * j + 1];
        let parent = combine(&left, &right);
        next_level.push(parent);
        j += 1;
    }
    // If the level has an odd number of entries duplicate the last, unless
    // it is the root.
    if next_level.len() > 1 && next_level.len() % 2 == 1 {
        let last = next_level[next_level.len() - 1];
        next_level.push(last);
    }
    next_level
}

/// Creates the bottom (leaf) level for a Merkle tree: one digest per value,
/// in input order, then the last leaf duplicated if their number is odd.
fn create_initial_level<T: Serializable>(initial_vals: &[T]) -> (level: Vec<Digest>)
    ensures
        level@.len() == leaf_padded_len(initial_vals@.len()),
        forall|i: int|
            0 <= i < initial_vals@.len() ==> (#[trigger] level@[i])@ == hash_of(
                initial_vals@[i],
            ),
        initial_vals@.len() % 2 == 1 ==> level@[initial_vals@.len() as int] == level@[
            initial_vals@.len() - 1
        ],
{
    let mut level: Vec<Digest> = Vec::new();
    let n = initial_vals.len();
    let mut i: usize = 0;
    while i < n
        invariant
            i <= n,
            n == initial_vals@.len(),
            level@.len() == i,
            forall|t: int|
                0 <= t < i ==> (#[trigger] level@[t])@ == hash_of(initial_vals@[t]),
        decreases n - i,
    {
        let h = crate::digest::hash_ref(&initial_vals[i]);
        level.push(h);
        i += 1;
    }
    if n % 2 == 1 {
        let last = level[n - 1];
        level.push(last);
    }
    level
}

/// Builds the full stack of levels above the given leaf level by repeated
/// pairwise combination, until a singleton root level is reached.
fn rebuild_levels(leaves: Vec<Digest>) -> (levels: Vec<Vec<Digest>>)
    requires
        leaves@.len() == 1 || (leaves@.len() >= 2 && leaves@.len() % 2 == 0),
    ensures
        tree_wf(levels_view(levels@)),
        levels_view(levels@)[0] == leaves@,
{
    let ghost leaf_view = leaves@;
    let n0 = leaves.len();
    let mut levels: Vec<Vec<Digest>> = Vec::new();
    levels.push(leaves);
    let mut i: usize = 0;
    while levels[i].len() > 1
        invariant
            i + 1 == levels@.len(),
            levels@[0]@ == leaf_view,
            n0 == leaf_view.len(),
            levels@[i as int]@.len() >= 1,
            i + levels@[i as int]@.len() <= n0,
            forall|k: int|
                0 <= k < i ==> (#[trigger] levels@[k])@.len() >= 2 && levels@[k]@.len() % 2 == 0,
            forall|k: int|
                0 <= k < i ==> #[trigger] is_parent_level(levels@[k]@, levels@[k + 1]@),
            levels@[i as int]@.len() == 1 || (levels@[i as int]@.len() >= 2 && levels@[
                i as int
            ]@.len() % 2 == 0),
        decreases levels@[i as int]@.len(),
    {
        let next = calculate_next_level(levels[i].as_slice());
        proof {
            let prev = levels@[i as int]@;
            assert(prev.len() >= 2 && prev.len() % 2 == 0);
            let m = prev.len() / 2;
            assert(m >= 1);
            assert(padded_len(m) < prev.len());
        }
        levels.push(next);
        i += 1;
    }
    proof {
        let lv = levels_view(levels@);
        assert(lv.len() == levels@.len());
        assert(forall|k: int| 0 <= k < lv.len() ==> lv[k] == (#[trigger] levels@[k])@);
        assert(lv.last().len() == 1);
        assert(tree_wf(lv));
        assert(lv[0] == leaf_view);
    }
    levels
}

/// Copies a level of digests.
fn clone_digests(v: &Vec<Digest>) -> (r: Vec<Digest>)
    ensures
        r@ == v@,
{
    let mut r: Vec<Digest> = Vec::new();
    let n = v.len();
    let mut i: usize = 0;
    while i < n
        invariant
            i <= n,
            n == v@.len(),
            r@ == v@.take(i as int),
        decreases n - i,
    {
        r.push(v[i]);
        i += 1;
        proof {
            assert(r@ =~= v@.take(i as int));
        }
    }
    proof {
        assert(v@.take(n as int) =~= v@);
    }
    r
}

impl MerkleTree {
    #[verifier::type_invariant]
    spec fn wf(self) -> bool {
        tree_wf(self@)
    }

    /// Creates a Merkle tree from a non-empty slice of values.
    pub fn create_from_values<T: Serializable + Clone>(initial_vals: &[T]) -> (tree: MerkleTree)
        requires
            initial_vals@.len() >= 1,
        ensures
            tree_wf(tree@),
            tree@[0].len() == leaf_padded_len(initial_vals@.len()),
            forall|i: int|
                0 <= i < initial_vals@.len() ==> (#[trigger] tree@[0][i])@ == hash_of(
                    initial_vals@[i],
                ),
            initial_vals@.len() % 2 == 1 ==> tree@[0][initial_vals@.len() as int] == tree@[0][
                initial_vals@.len() - 1
            ],
    {
        let leaves = create_initial_level(initial_vals);
        let levels = rebuild_levels(leaves);
        MerkleTree { levels }
    }

    /// Returns the height of the tree, the root level included: always one
    /// more than the ceiling of the base-two logarithm of the (padded) leaf
    /// count.
    pub fn height(&self) -> (h: usize)
        ensures
            h == self@.len(),
            h == 1 + clog2(self@[0].len()),
    {
        proof {
            use_type_invariant(&*self);
            lemma_tree_height(self@);
        }
        self.levels.len()
    }

    /// Returns the number of elements (leaves) in the tree.
    pub fn num_elements(&self) -> (n: usize)
        ensures
            n == self@[0].len(),
    {
        proof {
            use_type_invariant(&*self);
        }
        self.levels[0].len()
    }

    /// Returns the leaf level of the tree.
    pub fn leafs(&self) -> (leaves: &Vec<Digest>)
        ensures
            leaves@ == self@[0],
    {
        proof {
            use_type_invariant(&*self);
        }
        &self.levels[0]
    }

    /// Returns all levels of the tree, leaf level first, root level last.
    pub fn levels(&self) -> (levels: &Vec<Vec<Digest>>)
        ensures
            levels@.len() == self@.len(),
            forall|k: int| 0 <= k < self@.len() ==> (#[trigger] levels@[k])@ == self@[k],
    {
        &self.levels
    }

    /// Returns the root digest of the tree.
    pub fn root(&self) -> (r: Option<Digest>)
        ensures
            r == Some(self@.last()[0]),
    {
        proof {
            use_type_invariant(&*self);
        }
        if self.levels.len() == 0 {
            None
        } else {
            let root_level: &Vec<Digest> = &self.levels[self.levels.len() - 1];
            Some(root_level[0])
        }
    }

    /// Returns the index in the leaf level of the first leaf whose digest is
    /// the digest of the given element, if there is one.
    pub fn leaf_index_for_element(&self, element: u32) -> (r: Option<usize>)
        ensures
            match r {
                Some(i) => {
                    &&& 0 <= i < self@[0].len()
                    &&& self@[0][i as int]@ == hash_of(element)
                    &&& forall|j: int|
                        0 <= j < i ==> (#[trigger] self@[0][j])@ != hash_of(element)
                },
                None => forall|j: int|
                    0 <= j < self@[0].len() ==> (#[trigger] self@[0][j])@ != hash_of(element),
            },
    {
        proof {
            use_type_invariant(&*self);
        }
        let hash = crate::digest::hash_one(element);
        let leaves: &Vec<Digest> = &self.levels[0];
        let n = leaves.len();
        let mut i: usize = 0;
        while i < n
            invariant
                i <= n,
                n == self@[0].len(),
                leaves@ == self@[0],
                hash@ == hash_of(element),
                forall|j: int| 0 <= j < i ==> (#[trigger] self@[0][j])@ != hash_of(element),
            decreases n - i,
        {
            if hash_eq(&leaves[i], &hash) {
                return Some(i);
            }
            i += 1;
        }
        None
    }

    /// Checks whether the given digest is present at any level of the tree,
    /// the leaf level and the internal levels alike.
    pub fn contains_hash(&self, hash: &Digest) -> (r: bool)
        ensures
            r == exists|k: int, j: int|
                0 <= k < self@.len() && 0 <= j < self@[k].len() && (#[trigger] self@[k][j])@
                    == hash@,
    {
        let num_levels = self.levels.len();
        let mut k: usize = 0;
        while k < num_levels
            invariant
                k <= num_levels,
                num_levels == self@.len(),
                forall|a: int, b: int|
                    0 <= a < k && 0 <= b < self@[a].len() ==> (#[trigger] self@[a][b])@ != hash@,
            decreases num_levels - k,
        {
            let level: &Vec<Digest> = &self.levels[k];
            let len = level.len();
            let mut j: usize = 0;
            while j < len
                invariant
                    j <= len,
                    k < num_levels,
                    num_levels == self@.len(),
                    len == self@[k as int].len(),
                    level@ == self@[k as int],
                    forall|b: int|
                        0 <= b < j ==> (#[trigger] self@[k as int][b])@ != hash@,
                decreases len - j,
            {
                if hash_eq(&level[j], hash) {
                    proof {
                        assert(0 <= k < self@.len() && 0 <= j < self@[k as int].len() && self@[
                            k as int
                        ][j as int]@ == hash@);
                    }
                    return true;
                }
                j += 1;
            }
            k += 1;
        }
        false
    }

    /// Generates a membership proof for the given element, if its digest is
    /// among the leaves: the ordered sequence of sibling digests from the
    /// leaf level up to just below the root, with the leaf index it starts
    /// from.
    pub fn generate_proof(&self, element: u32) -> (r: Option<(Vec<Digest>, usize)>)
        ensures
            match r {
                Some(pr) => {
                    &&& 0 <= pr.1 < self@[0].len()
                    &&& self@[0][pr.1 as int]@ == hash_of(element)
                    &&& forall|j: int|
                        0 <= j < pr.1 ==> (#[trigger] self@[0][j])@ != hash_of(element)
                    &&& pr.0@.len() == self@.len() - 1
                    &&& forall|k: int|
                        0 <= k < pr.0@.len() ==> (#[trigger] pr.0@[k])@ == self@[k][sibling_index(
                            index_at(pr.1 as int, k as nat),
                        )]@
                },
                None => forall|j: int|
                    0 <= j < self@[0].len() ==> (#[trigger] self@[0][j])@ != hash_of(element),
            },
    {
        proof {
            use_type_invariant(&*self);
        }
        let leaf_index: usize = match self.leaf_index_for_element(element) {
            Some(i) => i,
            None => {
                return None;
            },
        };
        let mut siblings: Vec<Digest> = Vec::new();
        let mut index: usize = leaf_index;
        let height = self.levels.len();
        let mut k: usize = 0;
        while k < height - 1
            invariant
                k <= height - 1,
                height == self@.len(),
                height >= 1,
                tree_wf(self@),
                siblings@.len() == k,
                0 <= leaf_index < self@[0].len(),
                index == index_at(leaf_index as int, k as nat),
                index < self@[k as int].len(),
                forall|t: int|
                    0 <= t < k ==> (#[trigger] siblings@[t])@ == self@[t][sibling_index(
                        index_at(leaf_index as int, t as nat),
                    )]@,
            decreases height - 1 - k,
        {
            let level: &Vec<Digest> = &self.levels[k];
            proof {
                assert(self@[k as int].len() >= 2 && self@[k as int].len() % 2 == 0);
                if index % 2 == 0 {
                    assert(index + 1 < self@[k as int].len());
                }
            }
            let sib: Digest = if index % 2 == 0 {
                level[index + 1]
            } else {
                level[index - 1]
            };
            siblings.push(sib);
            proof {
                let len_k = self@[k as int].len();
                let len_next = self@[k + 1].len();
                assert(is_parent_level(self@[k as int], self@[k + 1]));
                assert(len_next == padded_len(len_k / 2));
                assert(index / 2 < len_k / 2);
                assert(index / 2 < len_next);
                assert(index_at(leaf_index as int, (k + 1) as nat) == index_at(
                    leaf_index as int,
                    k as nat,
                ) / 2);
            }
            index = index / 2;
            k += 1;
        }
        Some((siblings, leaf_index))
    }

    /// Verifies a membership proof: folds the element's digest up against the
    /// sibling digests, halving the index at each step, and compares the
    /// outcome with the tree's root digest.
    pub fn verify_proof(&self, element: u32, index: usize, siblings: &[Digest]) -> (r: bool)
        ensures
            r == (chain(hash_of(element), index as int, siblings@) == self@.last()[0]@),
    {
        proof {
            use_type_invariant(&*self);
        }
        let root: Digest = match self.root() {
            Some(root) => root,
            None => {
                return false;
            },
        };
        let mut hash = crate::digest::hash_one(element);
        let mut idx: usize = index;
        let n = siblings.len();
        let mut t: usize = 0;
        proof {
            assert(siblings@.skip(0) =~= siblings@);
        }
        while t < n
            invariant
                t <= n,
                n == siblings@.len(),
                root@ == self@.last()[0]@,
                chain(hash_of(element), index as int, siblings@) == chain(
                    hash@,
                    idx as int,
                    siblings@.skip(t as int),
                ),
            decreases n - t,
        {
            proof {
                assert(siblings@.skip(t as int)[0] == siblings@[t as int]);
                assert(siblings@.skip(t as int).drop_first() =~= siblings@.skip(t + 1));
            }
            let s = &siblings[t];
            hash = if idx % 2 == 0 {
                combine(&hash, s)
            } else {
                combine(s, &hash)
            };
            idx = idx / 2;
            t += 1;
        }
        proof {
            assert(siblings@.skip(n as int) =~= Seq::<Digest>::empty());
        }
        hash_eq(&hash, &root)
    }

    /// Adds one element to the tree: its digest is appended to the leaf
    /// level, duplicated once if the leaf count would otherwise be odd, and
    /// every internal level is rebuilt from the new leaf level.
    pub fn add_element(&mut self, element: u32)
        ensures
            tree_wf(final(self)@),
            final(self)@[0].len() == leaf_padded_len(old(self)@[0].len() + 1),
            forall|i: int|
                0 <= i < old(self)@[0].len() ==> final(self)@[0][i] == old(self)@[0][i],
            final(self)@[0][old(self)@[0].len() as int]@ == hash_of(element),
            (old(self)@[0].len() + 1) % 2 == 1 ==> final(self)@[0][old(self)@[0].len() as int + 1]
                == final(self)@[0][old(self)@[0].len() as int],
    {
        proof {
            use_type_invariant(&*self);
        }
        let hash = crate::digest::hash_one(element);
        let mut leaves = clone_digests(&self.levels[0]);
        leaves.push(hash);
        // Duplicate if we would end up with an odd number of leaves.
        if leaves.len() % 2 == 1 {
            leaves.push(hash);
        }
        let levels = rebuild_levels(leaves);
        self.levels = levels;
    }

    /// Appends one element under the power-of-two growth policy: the current
    /// leaf count `n` must be a power of two; `n` copies of the new
    /// element's digest fill the leaf level to the next complete size, every
    /// internal level is extended accordingly, and the height grows by one.
    pub fn append(&mut self, element: u32)
        requires
            is_pow2(old(self)@[0].len()),
            old(self)@[0].len() <= usize::MAX / 2,
        ensures
            tree_wf(final(self)@),
            final(self)@[0].len() == 2 * old(self)@[0].len(),
            forall|i: int|
                0 <= i < old(self)@[0].len() ==> final(self)@[0][i] == old(self)@[0][i],
            forall|i: int|
                old(self)@[0].len() <= i < 2 * old(self)@[0].len()
                    ==> (#[trigger] final(self)@[0][i])@ == hash_of(element),
            final(self)@.len() == old(self)@.len() + 1,
    {
        proof {
            use_type_invariant(&*self);
            lemma_tree_height(self@);
        }
        let hash = crate::digest::hash_one(element);
        let n = self.levels[0].len();
        let mut leaves = clone_digests(&self.levels[0]);
        let mut i: usize = 0;
        while i < n
            invariant
                i <= n,
                n == old(self)@[0].len(),
                n <= usize::MAX / 2,
                hash@ == hash_of(element),
                leaves@.len() == n + i,
                forall|t: int| 0 <= t < n ==> leaves@[t] == old(self)@[0][t],
                forall|t: int| n <= t < n + i ==> (#[trigger] leaves@[t])@ == hash_of(element),
            decreases n - i,
        {
            leaves.push(hash);
            i += 1;
        }
        let levels = rebuild_levels(leaves);
        proof {
            assert(n >= 1);
            lemma_tree_height(levels_view(levels@));
            assert((2 * n + 1) / 2 == n);
            assert(clog2((2 * n) as nat) == 1 + clog2(n as nat));
        }
        self.levels = levels;
    }
}

} // verus!
