use vstd::prelude::*;
use vstd::arithmetic::power2::pow2;
use crate::digest::Digest;
use crate::indexing::spec_parent;
use crate::indexing::spec_is_strict_ancestor;
use crate::model::spec_node;
use crate::model::spec_iter_hash;
use crate::model::spec_sibling_path;
use crate::model::lemma_min_depth_covers;
use crate::parameters::MerkleParameters;
use crate::tree::MerkleTree;

verus! {

// The laws the tree obeys, stated over the model that the contracts of
// `new`, `rebuild` and `generate_proof` speak of, and proved here.

/// The digest an external verifier reaches from a claimed leaf digest:
/// it consumes the path in leaf-to-root order, hashing the accumulator
/// on the left when the current position is a left child (even within
/// its level) and on the right otherwise, halving the position at each
/// level.
pub open spec fn spec_recompute_root<P: MerkleParameters>(
    p: P,
    pos: nat,
    path: Seq<Digest>,
    cur: Digest,
) -> Digest
    decreases path.len(),
{
    if path.len() == 0 {
        cur
    } else {
        let h = if pos % 2 == 0 {
            p.spec_hash_inner(cur, path[0])
        } else {
            p.spec_hash_inner(path[0], cur)
        };
        spec_recompute_root(p, pos / 2, path.subrange(1, path.len() as int), h)
    }
}

/// Walking a sibling path from a node of the real tree reaches the
/// real root.
proof fn lemma_walk_real<P: MerkleParameters>(
    p: P,
    lvs: Seq<Seq<u8>>,
    ll: nat,
    d: nat,
    lev: nat,
    i: nat,
)
    requires
        ll == pow2(d),
        lev <= d,
        pow2(lev) - 1 <= i < pow2(lev + 1) - 1,
    ensures
        spec_recompute_root(
            p,
            (i - (pow2(lev) - 1)) as nat,
            spec_sibling_path(p, lvs, ll, i),
            spec_node(p, lvs, ll, i),
        ) == spec_node(p, lvs, ll, 0),
    decreases lev,
{
    vstd::arithmetic::power2::lemma2_to64();
    if lev == 0 {
        assert(i == 0);
    } else {
        vstd::arithmetic::power2::lemma_pow2_unfold(lev);
        vstd::arithmetic::power2::lemma_pow2_unfold((lev + 1) as nat);
        if lev < d {
            vstd::arithmetic::power2::lemma_pow2_strictly_increases(lev, d);
        }
        let par = spec_parent(i as int) as nat;
        let sib = crate::indexing::spec_sibling(i as int) as nat;
        let pos = (i - (pow2(lev) - 1)) as nat;
        let path = spec_sibling_path(p, lvs, ll, i);
        assert(path == seq![spec_node(p, lvs, ll, sib)] + spec_sibling_path(p, lvs, ll, par));
        assert(path.subrange(1, path.len() as int) =~= spec_sibling_path(p, lvs, ll, par));
        // the parent is an internal node, so its stored digest is the
        // combination of the two children met here
        assert(par < ll - 1);
        if i % 2 == 1 {
            assert(i == 2 * par + 1 && sib == 2 * par + 2);
            assert(pos % 2 == 0);
            assert(spec_node(p, lvs, ll, par) == p.spec_hash_inner(
                spec_node(p, lvs, ll, i),
                spec_node(p, lvs, ll, sib),
            ));
        } else {
            assert(i == 2 * par + 2 && sib == 2 * par + 1);
            assert(pos % 2 == 1);
            assert(spec_node(p, lvs, ll, par) == p.spec_hash_inner(
                spec_node(p, lvs, ll, sib),
                spec_node(p, lvs, ll, i),
            ));
        }
        assert(pos / 2 == par - (pow2((lev - 1) as nat) - 1));
        lemma_walk_real(p, lvs, ll, d, (lev - 1) as nat, par);
    }
}

/// Walking padding entries, which all hold the canonical empty digest,
/// from position zero applies the padding chain.
proof fn lemma_walk_padding<P: MerkleParameters>(p: P, cur: Digest, k: nat)
    ensures
        spec_recompute_root(
            p,
            0,
            Seq::new(k, |t: int| p.spec_hash_empty()),
            cur,
        ) == spec_iter_hash(p, cur, k),
    decreases k,
{
    let path = Seq::new(k, |t: int| p.spec_hash_empty());
    if k > 0 {
        assert(path.subrange(1, path.len() as int) =~= Seq::new(
            (k - 1) as nat,
            |t: int| p.spec_hash_empty(),
        ));
        lemma_walk_padding(p, p.spec_hash_inner(cur, p.spec_hash_empty()), (k - 1) as nat);
        lemma_iter_hash_shift(p, cur, (k - 1) as nat);
    }
}

/// Hashing against the empty digest commutes with the chain: folding
/// one step first and chaining the rest equals chaining one step more.
proof fn lemma_iter_hash_shift<P: MerkleParameters>(p: P, cur: Digest, k: nat)
    ensures
        spec_iter_hash(p, p.spec_hash_inner(cur, p.spec_hash_empty()), k) == spec_iter_hash(
            p,
            cur,
            k + 1,
        ),
    decreases k,
{
    if k == 0 {
        assert(spec_iter_hash(p, cur, 1) == p.spec_hash_inner(
            spec_iter_hash(p, cur, 0),
            p.spec_hash_empty(),
        ));
    } else {
        lemma_iter_hash_shift(p, cur, (k - 1) as nat);
        assert(spec_iter_hash(p, cur, k + 1) == p.spec_hash_inner(
            spec_iter_hash(p, cur, k),
            p.spec_hash_empty(),
        ));
    }
}

/// Splitting a walk: consuming a concatenated path equals consuming
/// the first part, then the second from the reached digest, with the
/// position halved once per consumed entry.
proof fn lemma_recompute_append<P: MerkleParameters>(
    p: P,
    pos: nat,
    a: Seq<Digest>,
    b: Seq<Digest>,
    cur: Digest,
)
    ensures
        spec_recompute_root(p, pos, a + b, cur) == spec_recompute_root(
            p,
            pos / pow2(a.len()),
            b,
            spec_recompute_root(p, pos, a, cur),
        ),
    decreases a.len(),
{
    vstd::arithmetic::power2::lemma2_to64();
    if a.len() == 0 {
        assert(a + b =~= b);
        assert(pos / pow2(0) == pos);
    } else {
        let ab = a + b;
        assert(ab[0] == a[0]);
        let h = if pos % 2 == 0 {
            p.spec_hash_inner(cur, a[0])
        } else {
            p.spec_hash_inner(a[0], cur)
        };
        let a1 = a.subrange(1, a.len() as int);
        assert(ab.subrange(1, ab.len() as int) =~= a1 + b);
        lemma_recompute_append(p, pos / 2, a1, b, h);
        vstd::arithmetic::power2::lemma_pow2_unfold(a.len() as nat);
        vstd::arithmetic::power2::lemma_pow2_pos((a.len() - 1) as nat);
        vstd::arithmetic::div_mod::lemma_div_denominator(
            pos as int,
            2,
            pow2((a.len() - 1) as nat) as int,
        );
    }
}

/// Proof round-trip: for any well-formed tree and any leaf slot, the
/// path that `generate_proof` returns for that slot, walked up from
/// the slot's stored digest, reproduces the tree's root.
pub proof fn lemma_proof_round_trip<P: MerkleParameters>(t: &MerkleTree<P>, index: nat)
    requires
        t.wf(),
        index < t.spec_slot_count(),
    ensures
        spec_recompute_root(
            t.spec_params(),
            index,
            spec_sibling_path(
                t.spec_params(),
                t.spec_leaves(),
                t.spec_slot_count(),
                (t.spec_slot_count() - 1 + index) as nat,
            ) + Seq::new(
                (t.spec_params().spec_depth() - t.spec_depth()) as nat,
                |w: int| t.spec_params().spec_hash_empty(),
            ),
            spec_node(
                t.spec_params(),
                t.spec_leaves(),
                t.spec_slot_count(),
                (t.spec_slot_count() - 1 + index) as nat,
            ),
        ) == t.spec_root(),
{
    let p = t.spec_params();
    let lvs = t.spec_leaves();
    let ll = t.spec_slot_count();
    let d = t.spec_depth();
    let cap = p.spec_depth() as nat;
    let i = (ll - 1 + index) as nat;
    lemma_min_depth_covers(lvs.len());
    vstd::arithmetic::power2::lemma_pow2_unfold((d + 1) as nat);
    let real_part = spec_sibling_path(p, lvs, ll, i);
    let pad = Seq::new((cap - d) as nat, |w: int| p.spec_hash_empty());
    crate::model::lemma_sibling_path_len(p, lvs, ll, d, i);
    lemma_recompute_append(p, index, real_part, pad, spec_node(p, lvs, ll, i));
    lemma_walk_real(p, lvs, ll, d, d, i);
    // below the padding the position has reached zero
    vstd::arithmetic::power2::lemma_pow2_pos(d);
    vstd::arithmetic::div_mod::lemma_basic_div(index as int, pow2(d) as int);
    lemma_walk_padding(p, spec_node(p, lvs, ll, 0), (cap - d) as nat);
}

/// Determinism: the contracts of `new` pin every field of a built tree
/// to a function of the hash capability and the leaves alone, so two
/// trees over the same capability and the same leaves are the same
/// commitment — equal roots, equal node arrays and equal padding. The
/// same holds of a tree produced by `rebuild` against one produced by
/// `new` over the concatenated leaves, which is rebuild equivalence.
pub proof fn lemma_same_leaves_same_tree<P: MerkleParameters>(
    t1: &MerkleTree<P>,
    t2: &MerkleTree<P>,
)
    requires
        t1.wf(),
        t2.wf(),
        t1.spec_params() == t2.spec_params(),
        t1.spec_leaves() == t2.spec_leaves(),
    ensures
        t1.spec_root() == t2.spec_root(),
        t1.spec_nodes() == t2.spec_nodes(),
        t1.spec_padding() == t2.spec_padding(),
{
    assert(t1.spec_nodes() =~= t2.spec_nodes());
    assert(t1.spec_padding() =~= t2.spec_padding());
}

/// Rebuild equivalence: a tree rebuilt from a prefix tree with a
/// suffix of new leaves is, node for node and in its root, the tree
/// built in one pass over the concatenated leaves; `rebuild` ensures
/// the first hypothesis and `new` over the concatenation the second.
pub proof fn lemma_rebuild_equivalence<P: MerkleParameters>(
    base: &MerkleTree<P>,
    rebuilt: &MerkleTree<P>,
    direct: &MerkleTree<P>,
    split: nat,
    suffix: Seq<Seq<u8>>,
)
    requires
        rebuilt.wf(),
        direct.wf(),
        rebuilt.spec_params() == direct.spec_params(),
        split <= base.spec_leaves().len(),
        rebuilt.spec_leaves() == base.spec_leaves().take(split as int) + suffix,
        direct.spec_leaves() == base.spec_leaves().take(split as int) + suffix,
    ensures
        rebuilt.spec_root() == direct.spec_root(),
        rebuilt.spec_nodes() == direct.spec_nodes(),
        rebuilt.spec_padding() == direct.spec_padding(),
{
    lemma_same_leaves_same_tree(rebuilt, direct);
}

/// Padding correctness: a well-formed tree's root is the real
/// sub-root hashed against the canonical empty digest exactly
/// configured-depth minus actual-depth times, and one padding pair is
/// cached per padding level strictly below the top.
pub proof fn lemma_padding_correctness<P: MerkleParameters>(t: &MerkleTree<P>)
    requires
        t.wf(),
    ensures
        t.spec_root() == spec_iter_hash(
            t.spec_params(),
            t.spec_nodes()[0],
            (t.spec_params().spec_depth() - t.spec_depth()) as nat,
        ),
        t.spec_depth() < t.spec_params().spec_depth() ==> t.spec_padding().len() == (
        t.spec_params().spec_depth() - t.spec_depth() - 1) as nat,
        t.spec_depth() == t.spec_params().spec_depth() ==> t.spec_padding().len() == 0,
{
    lemma_min_depth_covers(t.spec_leaves().len());
    vstd::arithmetic::power2::lemma_pow2_pos(t.spec_depth());
}

/// Whether the two leaf rows put the same digest into slot `t`: both
/// have a leaf there and the leaves are equal, or both leave it empty.
pub open spec fn spec_slot_agrees(lvs1: Seq<Seq<u8>>, lvs2: Seq<Seq<u8>>, t: nat) -> bool {
    &&& (t < lvs1.len()) == (t < lvs2.len())
    &&& (t < lvs1.len() ==> lvs1[t as int] == lvs2[t as int])
}

/// Climbing one step preserves ancestry: whatever is `a` or below it
/// lies below `a`'s parent too.
proof fn lemma_ancestor_step(b: int, a: int, u: int)
    requires
        a > 0,
        spec_parent(a) == b,
        u == a || spec_is_strict_ancestor(a, u),
    ensures
        spec_is_strict_ancestor(b, u),
    decreases u,
{
    if u == a {
        assert(spec_parent(u) == b);
    } else {
        assert(u > 0);
        if spec_parent(u) == a {
            assert(spec_is_strict_ancestor(b, a));
        } else {
            lemma_ancestor_step(b, a, spec_parent(u));
        }
    }
}

/// A node whose subtree's leaf slots agree between two leaf rows holds
/// the same digest over either row.
proof fn lemma_agreeing_subtree<P: MerkleParameters>(
    p: P,
    lvs1: Seq<Seq<u8>>,
    lvs2: Seq<Seq<u8>>,
    ll: nat,
    d: nat,
    lev: nat,
    i: nat,
)
    requires
        ll == pow2(d),
        lev <= d,
        pow2(lev) - 1 <= i < pow2(lev + 1) - 1,
        forall|t: nat|
            t < ll && (ll - 1 + t == i || spec_is_strict_ancestor(
                i as int,
                ll - 1 + t,
            )) ==> #[trigger] spec_slot_agrees(lvs1, lvs2, t),
    ensures
        spec_node(p, lvs1, ll, i) == spec_node(p, lvs2, ll, i),
    decreases d - lev,
{
    vstd::arithmetic::power2::lemma2_to64();
    vstd::arithmetic::power2::lemma_pow2_unfold((lev + 1) as nat);
    vstd::arithmetic::power2::lemma_pow2_unfold((d + 1) as nat);
    if lev == d {
        let t = (i - (ll - 1)) as nat;
        assert(ll - 1 + t == i);
        assert(spec_slot_agrees(lvs1, lvs2, t));
    } else {
        if lev + 1 < d {
            vstd::arithmetic::power2::lemma_pow2_strictly_increases((lev + 1) as nat, d);
        }
        vstd::arithmetic::power2::lemma_pow2_unfold((lev + 2) as nat);
        let li = (2 * i + 1) as nat;
        let ri = (2 * i + 2) as nat;
        assert(i < ll - 1);
        // a leaf slot under either child is a leaf slot under this node
        assert forall|t: nat|
            t < ll && (ll - 1 + t == li || spec_is_strict_ancestor(
                li as int,
                ll - 1 + t,
            )) implies #[trigger] spec_slot_agrees(lvs1, lvs2, t) by {
            lemma_ancestor_step(i as int, li as int, ll - 1 + t);
        };
        assert forall|t: nat|
            t < ll && (ll - 1 + t == ri || spec_is_strict_ancestor(
                ri as int,
                ll - 1 + t,
            )) implies #[trigger] spec_slot_agrees(lvs1, lvs2, t) by {
            lemma_ancestor_step(i as int, ri as int, ll - 1 + t);
        };
        lemma_agreeing_subtree(p, lvs1, lvs2, ll, d, (lev + 1) as nat, li);
        lemma_agreeing_subtree(p, lvs1, lvs2, ll, d, (lev + 1) as nat, ri);
    }
}

/// Every node index of a complete tree lies on exactly one level.
proof fn lemma_level_exists(d: nat, i: nat)
    requires
        i < 2 * pow2(d) - 1,
    ensures
        exists|lev: nat|
            lev <= d && #[trigger] pow2(lev) - 1 <= i && i < pow2((lev + 1) as nat) - 1,
    decreases d,
{
    vstd::arithmetic::power2::lemma2_to64();
    if d == 0 {
        assert(pow2(0) - 1 <= 0 < pow2(1) - 1);
    } else {
        vstd::arithmetic::power2::lemma_pow2_unfold(d);
        vstd::arithmetic::power2::lemma_pow2_unfold((d + 1) as nat);
        if i < 2 * pow2((d - 1) as nat) - 1 {
            lemma_level_exists((d - 1) as nat, i);
        } else {
            assert(pow2(d) - 1 <= i < pow2((d + 1) as nat) - 1);
        }
    }
}

/// Minimal recomputation: between a tree and one rebuilt from it with
/// the same number of leaf slots, any node that is not an appended
/// leaf slot and not a strict ancestor of one — that is, any node all
/// of whose leaf slots carry unchanged content — keeps its exact
/// digest. In a rebuild from `start_index` on, the slots below
/// `start_index` agree by construction, so this applies to every node
/// disjoint from the ancestor paths of the appended range.
pub proof fn lemma_minimal_recomputation<P: MerkleParameters>(
    told: &MerkleTree<P>,
    tnew: &MerkleTree<P>,
    i: nat,
)
    requires
        told.wf(),
        tnew.wf(),
        told.spec_params() == tnew.spec_params(),
        told.spec_slot_count() == tnew.spec_slot_count(),
        i < told.spec_nodes().len(),
        forall|t: nat|
            t < told.spec_slot_count() && (told.spec_slot_count() - 1 + t == i
                || spec_is_strict_ancestor(
                i as int,
                told.spec_slot_count() - 1 + t,
            )) ==> #[trigger] spec_slot_agrees(told.spec_leaves(), tnew.spec_leaves(), t),
    ensures
        tnew.spec_nodes()[i as int] == told.spec_nodes()[i as int],
{
    let p = told.spec_params();
    let ll = told.spec_slot_count();
    let d = told.spec_depth();
    lemma_min_depth_covers(told.spec_leaves().len());
    lemma_min_depth_covers(tnew.spec_leaves().len());
    // the two trees have the same slot count, hence the same depth
    let d2 = tnew.spec_depth();
    if d < d2 {
        vstd::arithmetic::power2::lemma_pow2_strictly_increases(d, d2);
    } else if d2 < d {
        vstd::arithmetic::power2::lemma_pow2_strictly_increases(d2, d);
    }
    lemma_level_exists(d, i);
    let lev = choose|lev: nat|
        lev <= d && #[trigger] pow2(lev) - 1 <= i && i < pow2((lev + 1) as nat) - 1;
    lemma_agreeing_subtree(p, told.spec_leaves(), tnew.spec_leaves(), ll, d, lev, i);
}

} // verus!
