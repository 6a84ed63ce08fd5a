//! Laws relating proof generation to proof verification: the sibling path
//! that `generate_proof` extracts folds back, step by step, to the root
//! digest that `verify_proof` compares against.

use vstd::prelude::*;

use crate::digest::{combine_of, Digest};
use crate::tree::{chain, index_at, is_parent_level, padded_len, sibling_index, tree_wf};

verus! {

/// Climbing one level first and then `k` more lands where climbing `k`
/// levels from the halved index does.
proof fn lemma_index_at_shift(i: int, k: nat)
    ensures
        index_at(i, (k + 1) as nat) == index_at(i / 2, k),
    decreases k,
{
    if k == 0 {
        assert(index_at(i, 1) == index_at(i, 0) / 2);
    } else {
        lemma_index_at_shift(i, (k - 1) as nat);
        assert(index_at(i, (k + 1) as nat) == index_at(i, k) / 2);
        assert(index_at(i / 2, k) == index_at(i / 2, (k - 1) as nat) / 2);
    }
}

/// Folding the digest at position `j` of level `k` up against the sibling
/// digests of the positions above it yields the root digest.
proof fn lemma_chain_from_level(levels: Seq<Seq<Digest>>, siblings: Seq<Digest>, k: int, j: int)
    requires
        tree_wf(levels),
        0 <= k < levels.len(),
        0 <= j < levels[k].len(),
        siblings.len() == levels.len() - 1 - k,
        forall|t: int|
            0 <= t < siblings.len() ==> (#[trigger] siblings[t])@ == levels[k + t][sibling_index(
                index_at(j, t as nat),
            )]@,
    ensures
        chain(levels[k][j]@, j, siblings) == levels.last()[0]@,
    decreases levels.len() - k,
{
    if k == levels.len() - 1 {
        assert(levels[k].len() == 1);
        assert(j == 0);
        assert(levels.last() == levels[k]);
    } else {
        let len_k = levels[k].len();
        assert(len_k >= 2 && len_k % 2 == 0);
        assert(is_parent_level(levels[k], levels[k + 1]));
        let m = len_k / 2;
        let j2 = j / 2;
        assert(siblings[0]@ == levels[k][sibling_index(index_at(j, 0))]@);
        assert(index_at(j, 0) == j);
        assert(0 <= j2 < m);
        assert(levels[k + 1][j2]@ == combine_of(levels[k][2 * j2]@, levels[k][2 * j2 + 1]@));
        let first = if j % 2 == 0 {
            combine_of(levels[k][j]@, siblings[0]@)
        } else {
            combine_of(siblings[0]@, levels[k][j]@)
        };
        if j % 2 == 0 {
            assert(2 * j2 == j);
            assert(sibling_index(j) == j + 1);
            assert(first == combine_of(levels[k][j]@, levels[k][j + 1]@));
        } else {
            assert(2 * j2 == j - 1);
            assert(sibling_index(j) == j - 1);
            assert(first == combine_of(levels[k][j - 1]@, levels[k][j]@));
        }
        assert(first == levels[k + 1][j2]@);
        assert(levels[k + 1].len() == padded_len(m));
        assert(j2 < levels[k + 1].len());
        let rest = siblings.drop_first();
        assert forall|t: int|
            0 <= t < rest.len() implies (#[trigger] rest[t])@ == levels[k + 1 + t][sibling_index(
            index_at(j2, t as nat),
        )]@ by {
            assert(rest[t] == siblings[t + 1]);
            assert(siblings[t + 1]@ == levels[k + (t + 1)][sibling_index(
                index_at(j, (t + 1) as nat),
            )]@);
            lemma_index_at_shift(j, t as nat);
        }
        lemma_chain_from_level(levels, rest, k + 1, j2);
        assert(chain(levels[k][j]@, j, siblings) == chain(first, j2, rest));
    }
}

/// The round-trip law: a generated membership proof verifies against the
/// root. If `siblings` holds, level by level, the sibling digest of the
/// position that leaf index `i` occupies — exactly what `generate_proof`
/// ensures of its result — then folding the leaf digest up through
/// `siblings` — exactly what `verify_proof` recomputes — yields the tree's
/// root digest.
pub proof fn lemma_generated_proof_verifies(
    levels: Seq<Seq<Digest>>,
    siblings: Seq<Digest>,
    i: int,
)
    requires
        tree_wf(levels),
        0 <= i < levels[0].len(),
        siblings.len() == levels.len() - 1,
        forall|t: int|
            0 <= t < siblings.len() ==> (#[trigger] siblings[t])@ == levels[t][sibling_index(
                index_at(i, t as nat),
            )]@,
    ensures
        chain(levels[0][i]@, i, siblings) == levels.last()[0]@,
{
    assert forall|t: int|
        0 <= t < siblings.len() implies (#[trigger] siblings[t])@ == levels[0 + t][sibling_index(
        index_at(i, t as nat),
    )]@ by {
        assert(levels[0 + t] == levels[t]);
    }
    lemma_chain_from_level(levels, siblings, 0, i);
}

} // verus!
