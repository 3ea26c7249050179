use vstd::prelude::*;
use vstd::wrapping::u64_specs;
use crate::digest::Digest;
use crate::parameters::MerkleParameters;

verus! {

// A small, non-cryptographic hash capability. It keeps every promise
// the `MerkleParameters` trait makes — determinism and agreement with
// its own specification functions — and serves as the concrete scheme
// the tree is exercised with; a cryptographic scheme would implement
// the same trait.

/// Multiplier folded over the leaf bytes.
pub const LEAF_PRIME: u64 = 0x100000001b3;

/// Multiplier for the left child when combining a pair.
pub const LEFT_PRIME: u64 = 0x9e3779b97f4a7c15;

/// Multiplier for the right child when combining a pair.
pub const RIGHT_PRIME: u64 = 0xc2b2ae3d27d4eb4f;

/// Starting state of the leaf byte fold.
pub const LEAF_SEED: u64 = 0xcbf29ce484222325;

/// The canonical empty-leaf digest value.
pub const EMPTY_VALUE: u64 = 0x27d4eb2f165667c5;

/// One step of the leaf byte fold.
pub open spec fn spec_mix_byte(acc: u64, b: u8) -> u64 {
    u64_specs::wrapping_mul(acc ^ (b as u64), LEAF_PRIME)
}

/// The state of the leaf byte fold after consuming all of `s`.
pub open spec fn spec_fold_bytes(s: Seq<u8>) -> u64
    decreases s.len(),
{
    if s.len() == 0 {
        LEAF_SEED
    } else {
        spec_mix_byte(spec_fold_bytes(s.drop_last()), s.last())
    }
}

/// The combination of two child digest values into a parent value.
pub open spec fn spec_mix_pair(left: u64, right: u64) -> u64 {
    u64_specs::wrapping_add(
        u64_specs::wrapping_mul(left, LEFT_PRIME),
        u64_specs::wrapping_mul(right, RIGHT_PRIME),
    )
}

/// A byte-folding hash capability of a chosen depth.
#[derive(Clone, Copy, PartialEq, Eq, Structural, Debug)]
pub struct MixParameters {
    /// The fixed depth every root is computed relative to.
    pub depth: usize,
}

impl MixParameters {
    /// A capability whose trees are padded to the given depth.
    pub fn new(depth: usize) -> (r: Self)
        ensures
            r.spec_depth() == depth,
    {
        MixParameters { depth }
    }
}

impl MerkleParameters for MixParameters {
    open spec fn spec_hash_leaf(&self, leaf: Seq<u8>) -> Digest {
        Digest { value: spec_fold_bytes(leaf) }
    }

    open spec fn spec_hash_inner(&self, left: Digest, right: Digest) -> Digest {
        Digest { value: spec_mix_pair(left.value, right.value) }
    }

    open spec fn spec_hash_empty(&self) -> Digest {
        Digest { value: EMPTY_VALUE }
    }

    open spec fn spec_depth(&self) -> usize {
        self.depth
    }

    fn hash_leaf(&self, leaf: &[u8]) -> (r: Digest) {
        let mut acc: u64 = LEAF_SEED;
        let mut i: usize = 0;
        while i < leaf.len()
            invariant
                i <= leaf@.len(),
                acc == spec_fold_bytes(leaf@.take(i as int)),
            decreases leaf@.len() - i,
        {
            acc = (acc ^ (leaf[i] as u64)).wrapping_mul(LEAF_PRIME);
            proof {
                assert(leaf@.take(i + 1).drop_last() =~= leaf@.take(i as int));
                assert(leaf@.take(i + 1).last() == leaf@[i as int]);
            }
            i = i + 1;
        }
        proof {
            assert(leaf@.take(leaf@.len() as int) =~= leaf@);
        }
        Digest { value: acc }
    }

    fn hash_inner_node(&self, left: &Digest, right: &Digest) -> (r: Digest) {
        let v = left.value.wrapping_mul(LEFT_PRIME).wrapping_add(
            right.value.wrapping_mul(RIGHT_PRIME),
        );
        Digest { value: v }
    }

    fn hash_empty(&self) -> (r: Digest) {
        Digest { value: EMPTY_VALUE }
    }

    fn depth(&self) -> (d: usize) {
        self.depth
    }
}

} // verus!
