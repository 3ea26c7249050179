use vstd::prelude::*;

verus! {

/// Failure conditions surfaced by tree construction, rebuilding and
/// proof generation. Each carries the offending measurements.
#[derive(Clone, Copy, PartialEq, Eq, Structural, Debug)]
pub enum MerkleError {
    /// The requested leaf count yields a tree deeper than the configured
    /// capacity: holds the actual depth and the configured depth.
    InvalidTreeDepth(usize, usize),
    /// During proof generation, the supplied leaf's digest does not match
    /// the digest recorded at the derived position.
    IncorrectLeafIndex(usize),
    /// Proof assembly collected more siblings than the configured depth:
    /// holds the collected length and the configured depth.
    InvalidPathLength(usize, usize),
    /// Proof assembly ended with a path of the wrong length.
    IncorrectPathLength(usize),
}

} // verus!
