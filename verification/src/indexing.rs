use vstd::prelude::*;
use vstd::arithmetic::power2::pow2;

verus! {

// Pure index arithmetic for a complete binary tree stored in
// breadth-first, root-first array order.

pub open spec fn spec_left_child(i: int) -> int {
    2 * i + 1
}

pub open spec fn spec_right_child(i: int) -> int {
    2 * i + 2
}

pub open spec fn spec_parent(i: int) -> int {
    (i - 1) / 2
}

pub open spec fn spec_sibling(i: int) -> int {
    if i % 2 == 1 {
        i + 1
    } else {
        i - 1
    }
}

/// Floor of the base-two logarithm.
pub open spec fn spec_log2(n: int) -> nat
    decreases n,
{
    if n < 2 {
        0
    } else {
        1 + spec_log2(n / 2)
    }
}

/// Whether `a` is a strict ancestor of `i` (the parent, or the parent's
/// parent, and so on up to the root).
pub open spec fn spec_is_strict_ancestor(a: int, i: int) -> bool
    decreases i,
{
    if i <= 0 {
        false
    } else {
        spec_parent(i) == a || spec_is_strict_ancestor(a, spec_parent(i))
    }
}

/// Returns true iff the index represents the root.
pub fn is_root(index: usize) -> (r: bool)
    ensures
        r == (index == 0),
{
    index == 0
}

/// Returns the index of the left child, given an index.
pub fn left_child(index: usize) -> (r: usize)
    requires
        2 * index + 1 <= usize::MAX,
    ensures
        r == spec_left_child(index as int),
{
    2 * index + 1
}

/// Returns the index of the right child, given an index.
pub fn right_child(index: usize) -> (r: usize)
    requires
        2 * index + 2 <= usize::MAX,
    ensures
        r == spec_right_child(index as int),
{
    2 * index + 2
}

/// Returns true iff the given index represents a left child.
pub fn is_left_child(index: usize) -> (r: bool)
    ensures
        r == (index % 2 == 1),
{
    index % 2 == 1
}

/// Returns the index of the parent, given an index; the root has none.
pub fn parent(index: usize) -> (r: Option<usize>)
    ensures
        index > 0 ==> r == Some(spec_parent(index as int) as usize),
        index == 0 ==> r is None,
{
    if index > 0 {
        Some((index - 1) / 2)
    } else {
        None
    }
}

/// Returns the index of the sibling, given an index; the root has none.
pub fn sibling(index: usize) -> (r: Option<usize>)
    requires
        index + 1 <= usize::MAX,
    ensures
        index > 0 ==> r == Some(spec_sibling(index as int) as usize),
        index == 0 ==> r is None,
{
    if index == 0 {
        None
    } else if is_left_child(index) {
        Some(index + 1)
    } else {
        Some(index - 1)
    }
}

/// Returns the depth of the tree, given the size of the tree.
pub fn tree_depth(tree_size: usize) -> (r: usize)
    ensures
        r == spec_log2(tree_size as int),
{
    let mut v: usize = tree_size;
    let mut d: usize = 0;
    while v >= 2
        invariant
            spec_log2(tree_size as int) == d + spec_log2(v as int),
            d <= usize::MAX - v,
        decreases v,
    {
        v = v / 2;
        d = d + 1;
    }
    d
}

/// Maps a logical leaf position to its index in the last level of the
/// node array of a tree of the given depth.
pub fn convert_index_to_last_level(index: usize, tree_depth: usize) -> (r: usize)
    requires
        index < pow2(tree_depth as nat),
        2 * pow2(tree_depth as nat) - 1 <= usize::MAX,
    ensures
        r == index + pow2(tree_depth as nat) - 1,
{
    proof {
        vstd::arithmetic::power2::lemma2_to64();
        vstd::arithmetic::power2::lemma_pow2_pos(tree_depth as nat);
    }
    let mut offset: usize = 1;
    let mut k: usize = 0;
    while k < tree_depth
        invariant
            k <= tree_depth,
            offset == pow2(k as nat),
            offset <= pow2(tree_depth as nat),
            2 * pow2(tree_depth as nat) - 1 <= usize::MAX,
        decreases tree_depth - k,
    {
        proof {
            vstd::arithmetic::power2::lemma_pow2_unfold((k + 1) as nat);
            vstd::arithmetic::power2::lemma_pow2_adds(
                (k + 1) as nat,
                (tree_depth - k - 1) as nat,
            );
            vstd::arithmetic::power2::lemma_pow2_pos((tree_depth - k - 1) as nat);
            assert(pow2((k + 1) as nat) <= pow2((k + 1) as nat) * pow2(
                (tree_depth - k - 1) as nat,
            )) by (nonlinear_arith)
                requires
                    pow2((tree_depth - k - 1) as nat) >= 1,
            ;
            assert(pow2((k + 1) as nat) * pow2((tree_depth - k - 1) as nat) == pow2(
                tree_depth as nat,
            ));
            assert(pow2((k + 1) as nat) == 2 * pow2(k as nat));
            assert(offset * 2 <= pow2(tree_depth as nat));
        }
        offset = offset * 2;
        k = k + 1;
    }
    index + offset - 1
}

/// Whether `current` is a strict ancestor of the node index `node`.
pub fn is_strict_ancestor(current: usize, node: usize) -> (r: bool)
    ensures
        r == spec_is_strict_ancestor(current as int, node as int),
{
    let mut walk = Ancestors(node);
    while walk.0 > 0
        invariant
            spec_is_strict_ancestor(current as int, node as int) == spec_is_strict_ancestor(
                current as int,
                walk.0 as int,
            ),
        decreases walk.0,
    {
        match walk.next() {
            Some(p) => {
                if p == current {
                    return true;
                }
            },
            None => {},
        }
    }
    false
}

/// Whether `current` lies on the ancestor path of any of the `count`
/// node indices starting at `first`.
pub fn is_ancestor_of_any(current: usize, first: usize, count: usize) -> (r: bool)
    requires
        first + count <= usize::MAX,
    ensures
        r == exists|k: int|
            0 <= k < count && #[trigger] spec_is_strict_ancestor(current as int, first + k),
{
    let mut k: usize = 0;
    while k < count
        invariant
            k <= count,
            first + count <= usize::MAX,
            forall|t: int|
                0 <= t < k ==> !#[trigger] spec_is_strict_ancestor(current as int, first + t),
        decreases count - k,
    {
        if is_strict_ancestor(current, first + k) {
            return true;
        }
        k = k + 1;
    }
    false
}

/// Walks the strictly-increasing-toward-root chain of ancestors of a
/// node index, the node itself excluded.
pub struct Ancestors(pub usize);

impl Ancestors {
    /// Steps to the parent of the current position, or stops at the root.
    pub fn next(&mut self) -> (r: Option<usize>)
        ensures
            old(self).0 > 0 ==> {
                &&& r == Some(spec_parent(old(self).0 as int) as usize)
                &&& final(self).0 == spec_parent(old(self).0 as int)
            },
            old(self).0 == 0 ==> r is None && final(self).0 == old(self).0,
    {
        if let Some(p) = parent(self.0) {
            self.0 = p;
            Some(p)
        } else {
            None
        }
    }
}

} // verus!
