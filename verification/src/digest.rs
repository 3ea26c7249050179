use vstd::prelude::*;

verus! {

/// Fixed-size output of the hash capability, representing a leaf or an
/// internal node of the tree.
#[derive(Clone, Copy, PartialEq, Eq, Structural, Debug, Hash)]
pub struct Digest {
    pub value: u64,
}

} // verus!
