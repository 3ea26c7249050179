use vstd::prelude::*;
use crate::digest::Digest;

verus! {

/// The hash capability a Merkle tree is built against: hashing a leaf's
/// byte representation, hashing two child digests into a parent digest,
/// a canonical empty-leaf digest, and the configured tree depth. The
/// capability is deterministic and pure: each executable method agrees
/// with the corresponding specification function.
pub trait MerkleParameters: Sized {
    /// The digest of a leaf's byte representation.
    spec fn spec_hash_leaf(&self, leaf: Seq<u8>) -> Digest;

    /// The digest of an internal node, from its two children.
    spec fn spec_hash_inner(&self, left: Digest, right: Digest) -> Digest;

    /// The canonical digest of an empty leaf slot.
    spec fn spec_hash_empty(&self) -> Digest;

    /// The fixed depth every root is computed relative to.
    spec fn spec_depth(&self) -> usize;

    /// Hashes the byte representation of one leaf.
    fn hash_leaf(&self, leaf: &[u8]) -> (r: Digest)
        ensures
            r == self.spec_hash_leaf(leaf@),
    ;

    /// Hashes two child digests into their parent digest.
    fn hash_inner_node(&self, left: &Digest, right: &Digest) -> (r: Digest)
        ensures
            r == self.spec_hash_inner(*left, *right),
    ;

    /// Produces the canonical empty-leaf digest.
    fn hash_empty(&self) -> (r: Digest)
        ensures
            r == self.spec_hash_empty(),
    ;

    /// The configured depth, as a value.
    fn depth(&self) -> (d: usize)
        ensures
            d == self.spec_depth(),
    ;
}

} // verus!
