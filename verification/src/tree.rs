use vstd::prelude::*;
use std::sync::Arc;
use vstd::arithmetic::power2::pow2;
use crate::digest::Digest;
use crate::errors::MerkleError;
use crate::hasher::hash_row;
use crate::hasher::hash_pair_row;
use crate::model::spec_min_depth;
use crate::model::spec_last_level_size;
use crate::model::spec_node;
use crate::model::spec_iter_hash;
use crate::model::spec_leaf_seqs;
use crate::model::lemma_min_depth_covers;
use crate::model::lemma_min_depth_unique;
use crate::indexing::is_ancestor_of_any;
use crate::indexing::tree_depth;
use crate::indexing::convert_index_to_last_level;
use crate::indexing::sibling;
use crate::indexing::parent;
use crate::model::spec_sibling_path;
use crate::parameters::MerkleParameters;

verus! {

/// A fixed-depth Merkle tree: the commitment `root`, the node array of
/// the real sub-tree in breadth-first order, the cached padding pairs
/// above it, and the shared hash capability it was built with. The
/// logical leaf byte sequences it commits to are carried as a ghost
/// value, and `wf` ties every field to the model over them.
pub struct MerkleTree<P: MerkleParameters> {
    /// The computed root of the full, padded Merkle tree.
    root: Digest,
    /// The internal hashes, from root to hashed leaves, of the real tree.
    tree: Vec<Digest>,
    /// The index of the first leaf slot within the node array.
    hashed_leaves_index: usize,
    /// One (accumulated hash, sibling hash) pair per padding level
    /// strictly below the top level.
    padding_tree: Vec<(Digest, Digest)>,
    /// The shared, read-only hash capability.
    parameters: Arc<P>,
    /// The leaf byte sequences the tree was built over.
    leaves: Ghost<Seq<Seq<u8>>>,
}

impl<P: MerkleParameters> MerkleTree<P> {
    /// The hash capability the tree was built with.
    pub closed spec fn spec_params(&self) -> P {
        *self.parameters
    }

    /// The leaf byte sequences the tree commits to.
    pub closed spec fn spec_leaves(&self) -> Seq<Seq<u8>> {
        self.leaves@
    }

    /// The stored node array.
    pub closed spec fn spec_nodes(&self) -> Seq<Digest> {
        self.tree@
    }

    /// The stored commitment digest.
    pub closed spec fn spec_root(&self) -> Digest {
        self.root
    }

    /// The stored padding pairs.
    pub closed spec fn spec_padding(&self) -> Seq<(Digest, Digest)> {
        self.padding_tree@
    }

    /// The stored index of the first leaf slot.
    pub closed spec fn spec_leaf_offset(&self) -> usize {
        self.hashed_leaves_index
    }

    /// The depth of the real (unpadded) tree.
    pub open spec fn spec_depth(&self) -> nat {
        spec_min_depth(self.spec_leaves().len())
    }

    /// The number of leaf slots of the real tree.
    pub open spec fn spec_slot_count(&self) -> nat {
        spec_last_level_size(self.spec_leaves().len())
    }

    /// Well-formedness: every field equals the model of the carried
    /// leaves under the carried hash capability. The builder and the
    /// rebuilder only ever return trees satisfying this.
    pub open spec fn wf(&self) -> bool {
        let p = self.spec_params();
        let lvs = self.spec_leaves();
        let ll = self.spec_slot_count();
        let d = self.spec_depth();
        let cap = p.spec_depth() as nat;
        &&& lvs.len() <= ll
        &&& d <= cap
        &&& self.spec_nodes().len() == 2 * ll - 1
        &&& forall|i: nat|
            i < 2 * ll - 1 ==> self.spec_nodes()[i as int] == spec_node(p, lvs, ll, i)
        &&& self.spec_leaf_offset() == ll - 1
        &&& self.spec_root() == spec_iter_hash(p, spec_node(p, lvs, ll, 0), (cap - d) as nat)
        &&& self.spec_padding().len() == (if d < cap {
            (cap - d - 1) as nat
        } else {
            0nat
        })
        &&& forall|j: nat|
            j < self.spec_padding().len() ==> self.spec_padding()[j as int] == (
            spec_iter_hash(p, spec_node(p, lvs, ll, 0), j + 1),
            p.spec_hash_empty(),
            )
    }
}

impl<P: MerkleParameters + Send + Sync> MerkleTree<P> {
    /// Builds the full tree over the byte representations of the given
    /// leaves: hashes every leaf, combines level by level up to the real
    /// root, then pads with the canonical empty digest to the configured
    /// depth. Fails, before hashing anything, exactly when the leaf
    /// count needs a deeper tree than the capability's depth.
    pub fn new(parameters: Arc<P>, leaves: &[Vec<u8>]) -> (r: Result<Self, MerkleError>)
        requires
            leaves@.len() <= usize::MAX / 2 + 1,
        ensures
            match r {
                Ok(t) => {
                    &&& t.wf()
                    &&& t.spec_params() == *parameters
                    &&& t.spec_leaves() == spec_leaf_seqs(leaves@)
                    &&& spec_min_depth(leaves@.len()) <= (*parameters).spec_depth()
                },
                Err(e) => {
                    &&& spec_min_depth(leaves@.len()) > (*parameters).spec_depth()
                    &&& e == MerkleError::InvalidTreeDepth(
                        spec_min_depth(leaves@.len()) as usize,
                        (*parameters).spec_depth(),
                    )
                },
            },
    {
        let ghost lvs = spec_leaf_seqs(leaves@);
        let n = leaves.len();
        proof {
            vstd::arithmetic::power2::lemma2_to64();
        }

        // The number of leaf slots: the next power of two at or above n.
        let mut ll: usize = 1;
        let mut d: usize = 0;
        while ll < n
            invariant
                n <= usize::MAX / 2 + 1,
                1 <= ll,
                d <= ll,
                ll == pow2(d as nat),
                d == 0 || pow2((d - 1) as nat) < n,
            decreases 2 * n - ll,
        {
            proof {
                vstd::arithmetic::power2::lemma_pow2_unfold((d + 1) as nat);
            }
            ll = ll * 2;
            d = d + 1;
        }
        proof {
            lemma_min_depth_unique(n as nat, d as nat);
            lemma_min_depth_covers(n as nat);
            crate::model::lemma_slots_fit(n as nat);
            assert(lvs.len() == n);
        }

        let depth_cap = parameters.depth();
        if d > depth_cap {
            return Err(MerkleError::InvalidTreeDepth(d, depth_cap));
        }
        let tree_size = ll - 1 + ll;

        // Initialize every slot to the canonical empty digest.
        let empty_hash = parameters.hash_empty();
        let mut tree: Vec<Digest> = Vec::new();
        while tree.len() < tree_size
            invariant
                tree@.len() <= tree_size,
                empty_hash == (*parameters).spec_hash_empty(),
                forall|i: int| 0 <= i < tree@.len() ==> tree@[i] == (*parameters).spec_hash_empty(),
            decreases tree_size - tree@.len(),
        {
            tree.push(empty_hash);
        }

        // Hash all leaves in batches and write them into the leaf row.
        let hashed = hash_row(&*parameters, leaves);
        let last_level_index = ll - 1;
        let mut j: usize = 0;
        while j < n
            invariant
                j <= n,
                n == leaves@.len(),
                n <= ll,
                lvs == spec_leaf_seqs(leaves@),
                tree@.len() == tree_size,
                tree_size == 2 * ll - 1,
                last_level_index == ll - 1,
                hashed@.len() == n,
                forall|t: int| 0 <= t < n ==> hashed@[t] == (*parameters).spec_hash_leaf(leaves@[t]@),
                forall|i: int|
                    last_level_index <= i < last_level_index + j ==> tree@[i] == hashed@[
                        i - last_level_index
                    ],
                forall|i: int|
                    0 <= i < tree@.len() && !(last_level_index <= i < last_level_index + j)
                        ==> tree@[i] == (*parameters).spec_hash_empty(),
            decreases n - j,
        {
            tree[last_level_index + j] = hashed[j];
            j = j + 1;
        }
        proof {
            assert forall|i: nat| ll - 1 <= i < 2 * ll - 1 implies tree@[i as int] == spec_node(
                *parameters,
                lvs,
                ll as nat,
                i,
            ) by {
                let t = i - (ll - 1);
                if t < n {
                    assert(lvs[t as int] == leaves@[t as int]@);
                    assert(tree@[i as int] == hashed@[t as int]);
                }
            };
        }

        // Combine sibling pairs level by level, bottom to top.
        let mut upper_bound = last_level_index;
        let ghost mut lvl: nat = d as nat;
        while upper_bound > 0
            invariant
                tree@.len() == tree_size,
                tree_size == 2 * ll - 1,
                ll == pow2(d as nat),
                lvs == spec_leaf_seqs(leaves@),
                lvl <= d,
                upper_bound == pow2(lvl) - 1,
                forall|i: nat|
                    upper_bound <= i < 2 * ll - 1 ==> tree@[i as int] == spec_node(
                        *parameters,
                        lvs,
                        ll as nat,
                        i,
                    ),
            decreases upper_bound,
        {
            proof {
                vstd::arithmetic::power2::lemma2_to64();
                if lvl == 0 {
                    assert(upper_bound == 0);
                }
                vstd::arithmetic::power2::lemma_pow2_unfold(lvl);
                vstd::arithmetic::power2::lemma_pow2_unfold((lvl + 1) as nat);
                vstd::arithmetic::power2::lemma_pow2_unfold((d + 1) as nat);
                if lvl < d {
                    vstd::arithmetic::power2::lemma_pow2_strictly_increases(lvl, d as nat);
                }
            }
            let start = (upper_bound - 1) / 2;

            // Collect the (left child, right child) pairs of this level.
            let mut pairs: Vec<(Digest, Digest)> = Vec::new();
            let mut i: usize = start;
            while i < upper_bound
                invariant
                    start <= i <= upper_bound,
                    tree@.len() == tree_size,
                    2 * upper_bound + 1 <= tree_size,
                    pairs@.len() == i - start,
                    forall|t: int|
                        0 <= t < pairs@.len() ==> pairs@[t] == (
                        tree@[2 * (start + t) + 1],
                        tree@[2 * (start + t) + 2],
                        ),
                decreases upper_bound - i,
            {
                pairs.push((tree[2 * i + 1], tree[2 * i + 2]));
                i = i + 1;
            }

            let hashes = hash_pair_row(&*parameters, pairs.as_slice());
            proof {
                assert forall|t: int| 0 <= t < hashes@.len() implies hashes@[t] == spec_node(
                    *parameters,
                    lvs,
                    ll as nat,
                    (start + t) as nat,
                ) by {
                    let ii = start + t;
                    assert(tree@[2 * ii + 1] == spec_node(*parameters, lvs, ll as nat, (2 * ii + 1) as nat));
                    assert(tree@[2 * ii + 2] == spec_node(*parameters, lvs, ll as nat, (2 * ii + 2) as nat));
                };
            }

            // Write the level's results back.
            let mut w: usize = start;
            while w < upper_bound
                invariant
                    start <= w <= upper_bound,
                    upper_bound < tree_size,
                    tree@.len() == tree_size,
                    tree_size == 2 * ll - 1,
                    hashes@.len() == upper_bound - start,
                    forall|t: int|
                        0 <= t < hashes@.len() ==> hashes@[t] == spec_node(
                            *parameters,
                            lvs,
                            ll as nat,
                            (start + t) as nat,
                        ),
                    forall|i2: nat|
                        upper_bound <= i2 < 2 * ll - 1 ==> tree@[i2 as int] == spec_node(
                            *parameters,
                            lvs,
                            ll as nat,
                            i2,
                        ),
                    forall|i2: nat|
                        start <= i2 < w ==> tree@[i2 as int] == spec_node(*parameters, lvs, ll as nat, i2),
                decreases upper_bound - w,
            {
                tree[w] = hashes[w - start];
                w = w + 1;
            }

            upper_bound = start;
            proof {
                lvl = (lvl - 1) as nat;
            }
        }
        proof {
            vstd::arithmetic::power2::lemma2_to64();
            if lvl > 0 {
                vstd::arithmetic::power2::lemma_pow2_unfold(lvl);
                vstd::arithmetic::power2::lemma_pow2_pos((lvl - 1) as nat);
            }
            assert(lvl == 0);
        }

        // Pad from the real root up to the configured depth, caching
        // every accumulated pair but the topmost.
        let mut current_depth = d;
        let mut padding_tree: Vec<(Digest, Digest)> = Vec::new();
        let mut current_hash = tree[0];
        while current_depth < depth_cap
            invariant
                d <= current_depth,
                current_depth <= depth_cap || current_depth == d,
                empty_hash == (*parameters).spec_hash_empty(),
                current_hash == spec_iter_hash(*parameters, spec_node(*parameters, lvs, ll as nat, 0), (current_depth - d) as nat),
                padding_tree@.len() == (if current_depth < depth_cap {
                    (current_depth - d) as nat
                } else if depth_cap > d {
                    (depth_cap - d - 1) as nat
                } else {
                    0nat
                }),
                forall|t: nat|
                    t < padding_tree@.len() ==> padding_tree@[t as int] == (
                    spec_iter_hash(*parameters, spec_node(*parameters, lvs, ll as nat, 0), t + 1),
                    (*parameters).spec_hash_empty(),
                    ),
            decreases depth_cap - current_depth,
        {
            current_hash = parameters.hash_inner_node(&current_hash, &empty_hash);
            if current_depth < depth_cap - 1 {
                padding_tree.push((current_hash, empty_hash));
            }
            current_depth = current_depth + 1;
        }
        let root_hash = current_hash;

        let result = MerkleTree {
            tree,
            padding_tree,
            hashed_leaves_index: last_level_index,
            parameters,
            root: root_hash,
            leaves: Ghost(lvs),
        };
        proof {
            assert(result.spec_leaves().len() == n);
            assert(result.spec_slot_count() == ll);
            assert(result.spec_depth() == d);
        }
        Ok(result)
    }

    /// Builds a fresh tree that extends this one: leaf positions below
    /// `start_index` keep their already-hashed digests, the new leaves
    /// fill the positions from `start_index` on, and only nodes whose
    /// subtree was touched are rehashed; every untouched digest, and the
    /// whole padding chain when the real root is unchanged, is copied
    /// from this tree, which is never mutated. Fails exactly as `new`
    /// does when the new total leaf count needs too deep a tree.
    pub fn rebuild(&self, start_index: usize, new_leaves: &[Vec<u8>]) -> (r: Result<
        Self,
        MerkleError,
    >)
        requires
            self.wf(),
            start_index <= self.spec_leaves().len(),
            start_index + new_leaves@.len() <= usize::MAX / 2 + 1,
        ensures
            match r {
                Ok(t) => {
                    &&& t.wf()
                    &&& t.spec_params() == self.spec_params()
                    &&& t.spec_leaves() == self.spec_leaves().take(start_index as int)
                        + spec_leaf_seqs(new_leaves@)
                    &&& spec_min_depth((start_index + new_leaves@.len()) as nat)
                        <= self.spec_params().spec_depth()
                },
                Err(e) => {
                    &&& spec_min_depth((start_index + new_leaves@.len()) as nat)
                        > self.spec_params().spec_depth()
                    &&& e == MerkleError::InvalidTreeDepth(
                        spec_min_depth((start_index + new_leaves@.len()) as nat) as usize,
                        self.spec_params().spec_depth(),
                    )
                },
            },
    {
        let ghost lvs = self.spec_leaves().take(start_index as int) + spec_leaf_seqs(new_leaves@);
        let m = new_leaves.len();
        let n = start_index + m;
        proof {
            vstd::arithmetic::power2::lemma2_to64();
            assert(lvs.len() == n);
            assert(forall|t: int| 0 <= t < start_index ==> lvs[t] == self.spec_leaves()[t]);
            assert(forall|t: int|
                start_index <= t < n ==> lvs[t] == new_leaves@[t - start_index]@);
        }

        // The number of leaf slots of the new tree.
        let mut ll: usize = 1;
        let mut d: usize = 0;
        while ll < n
            invariant
                n <= usize::MAX / 2 + 1,
                1 <= ll,
                d <= ll,
                ll == pow2(d as nat),
                d == 0 || pow2((d - 1) as nat) < n,
            decreases 2 * n - ll,
        {
            proof {
                vstd::arithmetic::power2::lemma_pow2_unfold((d + 1) as nat);
            }
            ll = ll * 2;
            d = d + 1;
        }
        proof {
            lemma_min_depth_unique(n as nat, d as nat);
            lemma_min_depth_covers(n as nat);
            crate::model::lemma_slots_fit(n as nat);
            lemma_min_depth_covers(self.spec_leaves().len());
            vstd::arithmetic::power2::lemma_pow2_pos(self.spec_depth());
        }

        let depth_cap = self.parameters.depth();
        if d > depth_cap {
            return Err(MerkleError::InvalidTreeDepth(d, depth_cap));
        }
        let tree_size = ll - 1 + ll;
        let ghost old_lvs = self.spec_leaves();
        let ghost old_ll = self.spec_slot_count();
        let old_tree_len = self.tree.len();

        // Initialize every slot to the canonical empty digest.
        let empty_hash = self.parameters.hash_empty();
        let mut tree: Vec<Digest> = Vec::new();
        while tree.len() < tree_size
            invariant
                tree@.len() <= tree_size,
                empty_hash == self.spec_params().spec_hash_empty(),
                forall|i: int|
                    0 <= i < tree@.len() ==> tree@[i] == self.spec_params().spec_hash_empty(),
            decreases tree_size - tree@.len(),
        {
            tree.push(empty_hash);
        }

        // Copy the already-hashed digests of the retained leaf prefix.
        let last_level_index = ll - 1;
        let mut j: usize = 0;
        while j < start_index
            invariant
                j <= start_index,
                self.wf(),
                old_tree_len == self.spec_nodes().len(),
                start_index <= old_lvs.len(),
                old_lvs == self.spec_leaves(),
                old_ll == self.spec_slot_count(),
                lvs.len() == n,
                n == start_index + m,
                n <= ll,
                forall|t: int| 0 <= t < start_index ==> lvs[t] == old_lvs[t],
                tree@.len() == tree_size,
                tree_size == 2 * ll - 1,
                last_level_index == ll - 1,
                forall|i: nat|
                    ll - 1 <= i < ll - 1 + j ==> tree@[i as int] == spec_node(
                        self.spec_params(),
                        lvs,
                        ll as nat,
                        i,
                    ),
                forall|i: int|
                    0 <= i < tree@.len() && !(ll - 1 <= i < ll - 1 + j) ==> tree@[i]
                        == self.spec_params().spec_hash_empty(),
            decreases start_index - j,
        {
            proof {
                assert(self.spec_nodes()[old_ll - 1 + j] == spec_node(
                    self.spec_params(),
                    old_lvs,
                    old_ll,
                    (old_ll - 1 + j) as nat,
                ));
            }
            tree[last_level_index + j] = self.tree[self.hashed_leaves_index + j];
            j = j + 1;
        }

        // Hash the new leaves in batches and write them after the prefix.
        let hashed = hash_row(&*self.parameters, new_leaves);
        let mut k: usize = 0;
        while k < m
            invariant
                k <= m,
                lvs.len() == n,
                n == start_index + m,
                n <= ll,
                m == new_leaves@.len(),
                forall|t: int|
                    start_index <= t < n ==> lvs[t] == new_leaves@[t - start_index]@,
                tree@.len() == tree_size,
                tree_size == 2 * ll - 1,
                last_level_index == ll - 1,
                hashed@.len() == m,
                forall|t: int|
                    0 <= t < m ==> hashed@[t] == self.spec_params().spec_hash_leaf(
                        new_leaves@[t]@,
                    ),
                forall|i: nat|
                    ll - 1 <= i < ll - 1 + start_index + k ==> tree@[i as int] == spec_node(
                        self.spec_params(),
                        lvs,
                        ll as nat,
                        i,
                    ),
                forall|i: int|
                    0 <= i < tree@.len() && !(ll - 1 <= i < ll - 1 + start_index + k) ==> tree@[i]
                        == self.spec_params().spec_hash_empty(),
            decreases m - k,
        {
            tree[last_level_index + start_index + k] = hashed[k];
            k = k + 1;
        }
        proof {
            assert forall|i: nat| ll - 1 <= i < 2 * ll - 1 implies tree@[i as int] == spec_node(
                self.spec_params(),
                lvs,
                ll as nat,
                i,
            ) by {
                let t = i - (ll - 1);
                if t >= n {
                    assert(tree@[i as int] == self.spec_params().spec_hash_empty());
                }
            };
        }

        // Combine level by level; rehash a node only when its subtree
        // was touched, otherwise copy its digest from this tree.
        let mut upper_bound = last_level_index;
        let ghost mut lvl: nat = d as nat;
        while upper_bound > 0
            invariant
                self.wf(),
                old_lvs == self.spec_leaves(),
                old_ll == self.spec_slot_count(),
                tree@.len() == tree_size,
                tree_size == 2 * ll - 1,
                ll == pow2(d as nat),
                n == start_index + m,
                n <= ll,
                lvs.len() == n,
                lvl <= d,
                old_tree_len == self.spec_nodes().len(),
                last_level_index == ll - 1,
                upper_bound == pow2(lvl) - 1,
                forall|i: nat|
                    upper_bound <= i < 2 * ll - 1 ==> tree@[i as int] == spec_node(
                        self.spec_params(),
                        lvs,
                        ll as nat,
                        i,
                    ),
            decreases upper_bound,
        {
            proof {
                vstd::arithmetic::power2::lemma2_to64();
                if lvl == 0 {
                    assert(upper_bound == 0);
                }
                vstd::arithmetic::power2::lemma_pow2_unfold(lvl);
                vstd::arithmetic::power2::lemma_pow2_unfold((lvl + 1) as nat);
                vstd::arithmetic::power2::lemma_pow2_unfold((d + 1) as nat);
                if lvl < d {
                    vstd::arithmetic::power2::lemma_pow2_strictly_increases(lvl, d as nat);
                }
            }
            let start_idx = (upper_bound - 1) / 2;
            let mut i: usize = start_idx;
            while i < upper_bound
                invariant
                    self.wf(),
                    old_lvs == self.spec_leaves(),
                    old_ll == self.spec_slot_count(),
                    old_tree_len == self.spec_nodes().len(),
                    start_idx <= i <= upper_bound,
                    2 * start_idx + 1 == upper_bound,
                    upper_bound <= ll - 1,
                    last_level_index == ll - 1,
                    start_index + m == n,
                    2 * upper_bound + 1 <= tree_size,
                    tree@.len() == tree_size,
                    tree_size == 2 * ll - 1,
                    n == start_index + m,
                    n <= ll,
                    lvs.len() == n,
                    forall|i2: nat|
                        upper_bound <= i2 < 2 * ll - 1 ==> tree@[i2 as int] == spec_node(
                            self.spec_params(),
                            lvs,
                            ll as nat,
                            i2,
                        ),
                    forall|i2: nat|
                        start_idx <= i2 < i ==> tree@[i2 as int] == spec_node(
                            self.spec_params(),
                            lvs,
                            ll as nat,
                            i2,
                        ),
                decreases upper_bound - i,
            {
                let li = 2 * i + 1;
                let ri = 2 * i + 2;
                let children_same = li < self.tree.len() && ri < self.tree.len()
                    && self.tree[li] == tree[li] && self.tree[ri] == tree[ri];
                let dirty = is_ancestor_of_any(i, last_level_index + start_index, m)
                    || !children_same;
                if dirty {
                    let h = self.parameters.hash_inner_node(&tree[li], &tree[ri]);
                    tree[i] = h;
                } else {
                    proof {
                        // the children agree with this tree, whose node
                        // here is their combination, so the model value
                        // is already stored in this tree
                        assert(self.spec_nodes().len() == 2 * old_ll - 1);
                        assert(i < old_ll - 1);
                        assert(self.spec_nodes()[i as int] == spec_node(
                            self.spec_params(),
                            old_lvs,
                            old_ll,
                            i as nat,
                        ));
                        assert(self.spec_nodes()[li as int] == spec_node(
                            self.spec_params(),
                            old_lvs,
                            old_ll,
                            li as nat,
                        ));
                        assert(self.spec_nodes()[ri as int] == spec_node(
                            self.spec_params(),
                            old_lvs,
                            old_ll,
                            ri as nat,
                        ));
                        assert(tree@[li as int] == spec_node(
                            self.spec_params(),
                            lvs,
                            ll as nat,
                            li as nat,
                        ));
                        assert(tree@[ri as int] == spec_node(
                            self.spec_params(),
                            lvs,
                            ll as nat,
                            ri as nat,
                        ));
                    }
                    tree[i] = self.tree[i];
                }
                i = i + 1;
            }
            upper_bound = start_idx;
            proof {
                lvl = (lvl - 1) as nat;
            }
        }
        proof {
            vstd::arithmetic::power2::lemma2_to64();
            if lvl > 0 {
                vstd::arithmetic::power2::lemma_pow2_unfold(lvl);
                vstd::arithmetic::power2::lemma_pow2_pos((lvl - 1) as nat);
            }
            assert(lvl == 0);
        }

        // Padding: when the real root is unchanged, the cached pairs and
        // the chain above them are unaffected and are reused; otherwise
        // the chain is recomputed from the new real root.
        let reusable = self.tree.len() == tree_size && tree[0] == self.tree[0]
            && self.padding_tree.len() > 0;
        let mut padding_tree: Vec<(Digest, Digest)> = Vec::new();
        let mut current_hash = tree[0];
        if reusable {
            proof {
                // equal sizes mean equal shapes, so the old chain is the
                // new chain
                if self.spec_depth() < d {
                    vstd::arithmetic::power2::lemma_pow2_strictly_increases(
                        self.spec_depth(),
                        d as nat,
                    );
                } else if d < self.spec_depth() {
                    vstd::arithmetic::power2::lemma_pow2_strictly_increases(
                        d as nat,
                        self.spec_depth(),
                    );
                }
                assert(self.spec_depth() == d);
            }
            let mut t: usize = 0;
            let pad_len = self.padding_tree.len();
            while t < pad_len
                invariant
                    t <= pad_len,
                    self.wf(),
                    pad_len == self.spec_padding().len(),
                    padding_tree@.len() == t,
                    forall|w: int| 0 <= w < t ==> padding_tree@[w] == self.spec_padding()[w],
                decreases pad_len - t,
            {
                padding_tree.push(self.padding_tree[t]);
                t = t + 1;
            }
            let last = self.padding_tree[pad_len - 1];
            current_hash = self.parameters.hash_inner_node(&last.0, &empty_hash);
        } else {
            let mut current_depth = d;
            while current_depth < depth_cap
                invariant
                    d <= current_depth,
                    current_depth <= depth_cap || current_depth == d,
                    empty_hash == self.spec_params().spec_hash_empty(),
                    tree@.len() == tree_size,
                    tree_size == 2 * ll - 1,
                    current_hash == spec_iter_hash(
                        self.spec_params(),
                        tree@[0],
                        (current_depth - d) as nat,
                    ),
                    padding_tree@.len() == (if current_depth < depth_cap {
                        (current_depth - d) as nat
                    } else if depth_cap > d {
                        (depth_cap - d - 1) as nat
                    } else {
                        0nat
                    }),
                    forall|t: nat|
                        t < padding_tree@.len() ==> padding_tree@[t as int] == (
                        spec_iter_hash(self.spec_params(), tree@[0], t + 1),
                        self.spec_params().spec_hash_empty(),
                        ),
                decreases depth_cap - current_depth,
            {
                current_hash = self.parameters.hash_inner_node(&current_hash, &empty_hash);
                if current_depth < depth_cap - 1 {
                    padding_tree.push((current_hash, empty_hash));
                }
                current_depth = current_depth + 1;
            }
        }
        let root_hash = current_hash;

        let result = MerkleTree {
            tree,
            padding_tree,
            hashed_leaves_index: last_level_index,
            parameters: Arc::clone(&self.parameters),
            root: root_hash,
            leaves: Ghost(lvs),
        };
        proof {
            assert(result.spec_leaves().len() == n);
            assert(result.spec_slot_count() == ll);
            assert(result.spec_depth() == d);
        }
        Ok(result)
    }

    /// The commitment digest of the padded tree.
    pub fn root(&self) -> (r: Digest)
        ensures
            r == self.spec_root(),
    {
        self.root
    }

    /// The full node array, read-only.
    pub fn tree(&self) -> (r: &Vec<Digest>)
        ensures
            r@ == self.spec_nodes(),
    {
        &self.tree
    }

    /// The leaf-level slice of the node array, as a fresh vector.
    pub fn hashed_leaves(&self) -> (r: Vec<Digest>)
        requires
            self.wf(),
        ensures
            r@ == self.spec_nodes().skip(self.spec_leaf_offset() as int),
    {
        let mut out: Vec<Digest> = Vec::new();
        let mut i = self.hashed_leaves_index;
        while i < self.tree.len()
            invariant
                self.wf(),
                self.spec_leaf_offset() <= i <= self.spec_nodes().len(),
                out@ == self.spec_nodes().subrange(self.spec_leaf_offset() as int, i as int),
            decreases self.spec_nodes().len() - i,
        {
            out.push(self.tree[i]);
            i = i + 1;
        }
        proof {
            assert(out@ =~= self.spec_nodes().skip(self.spec_leaf_offset() as int));
        }
        out
    }

    /// Generates the authentication path for the leaf at the given
    /// logical position: the sibling digests from the leaf slot up to
    /// the real root, then the padding siblings up to the configured
    /// depth, every one of which is the canonical empty digest. Fails
    /// exactly when the supplied leaf's digest does not match the
    /// stored digest of that slot.
    pub fn generate_proof(&self, index: usize, leaf: &[u8]) -> (r: Result<
        MerklePath<P>,
        MerkleError,
    >)
        requires
            self.wf(),
            index < self.spec_slot_count(),
        ensures
            match r {
                Ok(path) => {
                    &&& self.spec_params().spec_hash_leaf(leaf@) == spec_node(
                        self.spec_params(),
                        self.spec_leaves(),
                        self.spec_slot_count(),
                        (self.spec_slot_count() - 1 + index) as nat,
                    )
                    &&& *path.parameters == self.spec_params()
                    &&& path.leaf_index == index
                    &&& path.path@.len() == self.spec_params().spec_depth()
                    &&& path.path@ == spec_sibling_path(
                        self.spec_params(),
                        self.spec_leaves(),
                        self.spec_slot_count(),
                        (self.spec_slot_count() - 1 + index) as nat,
                    ) + Seq::new(
                        (self.spec_params().spec_depth() - self.spec_depth()) as nat,
                        |t: int| self.spec_params().spec_hash_empty(),
                    )
                },
                Err(e) => {
                    &&& self.spec_params().spec_hash_leaf(leaf@) != spec_node(
                        self.spec_params(),
                        self.spec_leaves(),
                        self.spec_slot_count(),
                        (self.spec_slot_count() - 1 + index) as nat,
                    )
                    &&& e == MerkleError::IncorrectLeafIndex(
                        (self.spec_slot_count() - 1 + index) as usize,
                    )
                },
            },
    {
        let ghost ll_s = self.spec_slot_count();
        let ghost dd = self.spec_depth();
        let ghost cap = self.spec_params().spec_depth() as nat;
        proof {
            lemma_min_depth_covers(self.spec_leaves().len());
            crate::model::lemma_log2_of_tree_size(dd);
            vstd::arithmetic::power2::lemma_pow2_unfold((dd + 1) as nat);
        }
        let mut path: Vec<Digest> = Vec::new();

        let leaf_hash = self.parameters.hash_leaf(leaf);
        let depth = tree_depth(self.tree.len());
        let tree_index = convert_index_to_last_level(index, depth);

        // Check that the given index corresponds to the correct leaf.
        if leaf_hash != self.tree[tree_index] {
            return Err(MerkleError::IncorrectLeafIndex(tree_index));
        }

        // Walk from the leaf up to the root, collecting every sibling.
        let tlen = self.tree.len();
        let mut current_node = tree_index;
        let ghost mut lev: nat = dd;
        while current_node != 0
            invariant
                self.wf(),
                ll_s == self.spec_slot_count(),
                dd == self.spec_depth(),
                lev <= dd,
                pow2(lev) - 1 <= current_node < pow2(lev + 1) - 1,
                tree_index == ll_s - 1 + index,
                self.spec_nodes().len() == 2 * ll_s - 1,
                tlen == self.spec_nodes().len(),
                path@ + spec_sibling_path(
                    self.spec_params(),
                    self.spec_leaves(),
                    ll_s,
                    current_node as nat,
                ) == spec_sibling_path(
                    self.spec_params(),
                    self.spec_leaves(),
                    ll_s,
                    tree_index as nat,
                ),
                path@.len() == dd - lev,
            decreases current_node,
        {
            proof {
                vstd::arithmetic::power2::lemma2_to64();
                vstd::arithmetic::power2::lemma_pow2_unfold(lev);
                vstd::arithmetic::power2::lemma_pow2_unfold((lev + 1) as nat);
                if lev + 1 < dd + 1 {
                    vstd::arithmetic::power2::lemma_pow2_strictly_increases(
                        (lev + 1) as nat,
                        (dd + 1) as nat,
                    );
                }
                vstd::arithmetic::power2::lemma_pow2_unfold((dd + 1) as nat);
            }
            let ghost old_path = path@;
            let ghost old_node = current_node as int;
            let sibling_node = sibling(current_node).unwrap();
            proof {
                assert(sibling_node as int == crate::indexing::spec_sibling(old_node));
                assert(self.spec_nodes()[sibling_node as int] == spec_node(
                    self.spec_params(),
                    self.spec_leaves(),
                    ll_s,
                    sibling_node as nat,
                ));
            }
            path.push(self.tree[sibling_node]);
            current_node = parent(current_node).unwrap();
            proof {
                lev = (lev - 1) as nat;
                let x = spec_node(
                    self.spec_params(),
                    self.spec_leaves(),
                    ll_s,
                    crate::indexing::spec_sibling(old_node) as nat,
                );
                assert(old_path.push(x) + spec_sibling_path(
                    self.spec_params(),
                    self.spec_leaves(),
                    ll_s,
                    current_node as nat,
                ) =~= old_path + (seq![x] + spec_sibling_path(
                    self.spec_params(),
                    self.spec_leaves(),
                    ll_s,
                    current_node as nat,
                )));
            }
        }
        proof {
            vstd::arithmetic::power2::lemma2_to64();
            if lev > 0 {
                vstd::arithmetic::power2::lemma_pow2_unfold(lev);
                vstd::arithmetic::power2::lemma_pow2_pos((lev - 1) as nat);
            }
            assert(lev == 0);
            vstd::arithmetic::power2::lemma_pow2_unfold((dd + 1) as nat);
            crate::model::lemma_sibling_path_len(
                self.spec_params(),
                self.spec_leaves(),
                ll_s,
                dd,
                tree_index as nat,
            );
            assert(spec_sibling_path(self.spec_params(), self.spec_leaves(), ll_s, 0nat)
                =~= Seq::<Digest>::empty());
            assert(path@ =~= spec_sibling_path(
                self.spec_params(),
                self.spec_leaves(),
                ll_s,
                tree_index as nat,
            ));
        }

        let depth_cap = self.parameters.depth();
        if path.len() > depth_cap {
            return Err(MerkleError::InvalidPathLength(path.len(), depth_cap));
        }

        if path.len() != depth_cap {
            let empty_hash = self.parameters.hash_empty();
            path.push(empty_hash);
            proof {
                assert(path@.subrange(0, dd as int) =~= spec_sibling_path(
                    self.spec_params(),
                    self.spec_leaves(),
                    ll_s,
                    tree_index as nat,
                ));
            }

            let mut t: usize = 0;
            let pad_len = self.padding_tree.len();
            while t < pad_len
                invariant
                    self.wf(),
                    t <= pad_len,
                    pad_len == self.spec_padding().len(),
                    path@.len() == dd + 1 + t,
                    path@.subrange(0, dd as int) == spec_sibling_path(
                        self.spec_params(),
                        self.spec_leaves(),
                        ll_s,
                        tree_index as nat,
                    ),
                    dd == self.spec_depth(),
                    ll_s == self.spec_slot_count(),
                    tree_index == ll_s - 1 + index,
                    forall|w: int|
                        dd <= w < path@.len() ==> path@[w] == self.spec_params().spec_hash_empty(),
                decreases pad_len - t,
            {
                path.push(self.padding_tree[t].1);
                t = t + 1;
            }
        }

        if path.len() != depth_cap {
            return Err(MerkleError::IncorrectPathLength(path.len()));
        }
        proof {
            assert(path@ =~= spec_sibling_path(
                self.spec_params(),
                self.spec_leaves(),
                ll_s,
                tree_index as nat,
            ) + Seq::new((cap - dd) as nat, |t: int| self.spec_params().spec_hash_empty()));
        }
        Ok(MerklePath {
            parameters: Arc::clone(&self.parameters),
            path,
            leaf_index: index,
        })
    }
}

/// An authentication path: the hash capability it was generated under,
/// the ordered sibling digests from the leaf to the configured depth,
/// and the logical index of the proven leaf. Consumed by an external
/// verifier that recomputes the root from the claimed leaf.
pub struct MerklePath<P: MerkleParameters> {
    /// The shared, read-only hash capability.
    pub parameters: Arc<P>,
    /// The sibling digests, in leaf-to-root order.
    pub path: Vec<Digest>,
    /// The logical position of the proven leaf.
    pub leaf_index: usize,
}

} // verus!
