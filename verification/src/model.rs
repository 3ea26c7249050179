use vstd::prelude::*;
use vstd::arithmetic::power2::pow2;
use crate::digest::Digest;
use crate::parameters::MerkleParameters;
use crate::indexing::spec_log2;

verus! {

// The mathematical model of a padded Merkle tree: what every node of
// the array holds, and what the padded root is, as a pure function of
// the hash capability and the supplied leaf byte sequences.

/// The depth of the smallest complete binary tree whose last level can
/// hold `n` leaves: the least `d` with `pow2(d) >= n` (zero when `n`
/// is zero, for the tree of a single empty leaf slot).
pub open spec fn spec_min_depth(n: nat) -> nat
    decreases n,
{
    if n <= 1 {
        0
    } else {
        1 + spec_min_depth(((n + 1) / 2) as nat)
    }
}

/// The number of leaf slots of the tree built for `n` leaves: the next
/// power of two at or above `n`, and at least one.
pub open spec fn spec_last_level_size(n: nat) -> nat {
    pow2(spec_min_depth(n))
}

/// The digest stored at array position `i` of the tree built over
/// `leaves` with `ll` leaf slots: leaf slots hold the hash of their
/// leaf, or the canonical empty digest past the supplied leaves, and
/// every internal node hashes its two children.
pub open spec fn spec_node<P: MerkleParameters>(
    p: P,
    leaves: Seq<Seq<u8>>,
    ll: nat,
    i: nat,
) -> Digest
    decreases 2 * ll - i,
{
    if i + 1 >= ll {
        if i - (ll - 1) < leaves.len() {
            p.spec_hash_leaf(leaves[i - (ll - 1)])
        } else {
            p.spec_hash_empty()
        }
    } else {
        p.spec_hash_inner(
            spec_node(p, leaves, ll, (2 * i + 1) as nat),
            spec_node(p, leaves, ll, (2 * i + 2) as nat),
        )
    }
}

/// The accumulated padding digest after hashing `d` against the
/// canonical empty digest `k` times in a row.
pub open spec fn spec_iter_hash<P: MerkleParameters>(p: P, d: Digest, k: nat) -> Digest
    decreases k,
{
    if k == 0 {
        d
    } else {
        p.spec_hash_inner(spec_iter_hash(p, d, (k - 1) as nat), p.spec_hash_empty())
    }
}

/// The byte sequences of a row of leaf byte vectors.
pub open spec fn spec_leaf_seqs(s: Seq<Vec<u8>>) -> Seq<Seq<u8>> {
    s.map_values(|v: Vec<u8>| v@)
}

/// The sibling digests met on the walk from node `i` up to the root of
/// the real tree, in leaf-to-root order.
pub open spec fn spec_sibling_path<P: MerkleParameters>(
    p: P,
    leaves: Seq<Seq<u8>>,
    ll: nat,
    i: nat,
) -> Seq<Digest>
    decreases i,
{
    if i == 0 {
        Seq::empty()
    } else {
        seq![spec_node(p, leaves, ll, crate::indexing::spec_sibling(i as int) as nat)]
            + spec_sibling_path(p, leaves, ll, crate::indexing::spec_parent(i as int) as nat)
    }
}

/// A node of level `lev` has a sibling path of exactly `lev` entries.
pub proof fn lemma_sibling_path_len<P: MerkleParameters>(
    p: P,
    leaves: Seq<Seq<u8>>,
    ll: nat,
    lev: nat,
    i: nat,
)
    requires
        pow2(lev) - 1 <= i < pow2(lev + 1) - 1,
    ensures
        spec_sibling_path(p, leaves, ll, i).len() == lev,
    decreases lev,
{
    vstd::arithmetic::power2::lemma2_to64();
    if lev == 0 {
        assert(i == 0);
    } else {
        vstd::arithmetic::power2::lemma_pow2_unfold(lev);
        vstd::arithmetic::power2::lemma_pow2_unfold((lev + 1) as nat);
        assert(i > 0);
        let par = crate::indexing::spec_parent(i as int) as nat;
        lemma_sibling_path_len(p, leaves, ll, (lev - 1) as nat, par);
    }
}

/// The number of leaf slots covers the leaves, and is positive.
pub proof fn lemma_min_depth_covers(n: nat)
    ensures
        spec_last_level_size(n) >= n,
        spec_last_level_size(n) >= 1,
    decreases n,
{
    vstd::arithmetic::power2::lemma_pow2_pos(spec_min_depth(n));
    if n > 1 {
        let m = ((n + 1) / 2) as nat;
        lemma_min_depth_covers(m);
        vstd::arithmetic::power2::lemma_pow2_unfold(spec_min_depth(n));
        assert(pow2(spec_min_depth(n)) == 2 * pow2(spec_min_depth(m)));
    } else {
        vstd::arithmetic::power2::lemma2_to64();
    }
}

/// The minimum depth is minimal: one level less would not cover `n`.
pub proof fn lemma_min_depth_minimal(n: nat)
    ensures
        spec_min_depth(n) == 0 || pow2((spec_min_depth(n) - 1) as nat) < n,
    decreases n,
{
    if n > 1 {
        let m = ((n + 1) / 2) as nat;
        lemma_min_depth_minimal(m);
        let d = spec_min_depth(n);
        if d >= 2 {
            vstd::arithmetic::power2::lemma_pow2_unfold((d - 1) as nat);
        } else {
            vstd::arithmetic::power2::lemma2_to64();
        }
    }
}

/// For a leaf count at most half the address space, the node array of
/// the tree built over it fits in a `usize`.
pub proof fn lemma_slots_fit(n: nat)
    requires
        n <= usize::MAX / 2 + 1,
    ensures
        2 * spec_last_level_size(n) - 1 <= usize::MAX,
    decreases n,
{
    vstd::layout::unsigned_int_max_values();
    vstd::arithmetic::power2::lemma2_to64();
    let b = usize::BITS as nat;
    assert(b >= 1) by {
        if b == 0 {
            assert(pow2(0) == 1);
        }
    };
    vstd::arithmetic::power2::lemma_pow2_unfold(b);
    // usize::MAX / 2 + 1 == pow2(b - 1)
    let d = spec_min_depth(n);
    lemma_min_depth_minimal(n);
    if d > 0 {
        // pow2(d - 1) < n <= pow2(b - 1), so d - 1 < b - 1
        if d - 1 > b - 1 {
            vstd::arithmetic::power2::lemma_pow2_strictly_increases(
                (b - 1) as nat,
                (d - 1) as nat,
            );
        }
        // what remains is d - 1 < b - 1, so the slot count is at most
        // half the address space
        if d < b - 1 {
            vstd::arithmetic::power2::lemma_pow2_strictly_increases(d, (b - 1) as nat);
        }
    } else {
        vstd::arithmetic::power2::lemma_pow2_pos((b - 1) as nat);
    }
}

/// Any `d` with `pow2(d)` at or above `n`, minimally so, is the
/// minimum depth of `n`.
pub proof fn lemma_min_depth_unique(n: nat, d: nat)
    requires
        pow2(d) >= n,
        d == 0 || pow2((d - 1) as nat) < n,
    ensures
        spec_min_depth(n) == d,
    decreases n,
{
    vstd::arithmetic::power2::lemma2_to64();
    if n <= 1 {
        if d > 0 {
            vstd::arithmetic::power2::lemma_pow2_pos((d - 1) as nat);
        }
    } else {
        let m = ((n + 1) / 2) as nat;
        assert(d >= 1);
        vstd::arithmetic::power2::lemma_pow2_unfold(d);
        if d >= 2 {
            vstd::arithmetic::power2::lemma_pow2_unfold((d - 1) as nat);
        }
        lemma_min_depth_unique(m, (d - 1) as nat);
    }
}

/// The depth read back from the size of the node array is the depth
/// the tree was built with.
pub proof fn lemma_log2_of_tree_size(d: nat)
    ensures
        spec_log2(2 * pow2(d) - 1) == d,
    decreases d,
{
    vstd::arithmetic::power2::lemma2_to64();
    vstd::arithmetic::power2::lemma_pow2_pos(d);
    if d > 0 {
        vstd::arithmetic::power2::lemma_pow2_unfold(d);
        lemma_log2_of_tree_size((d - 1) as nat);
        assert((2 * pow2(d) - 1) / 2 == 2 * pow2((d - 1) as nat) - 1);
    }
}

} // verus!
