use vstd::prelude::*;
use rayon::iter::IndexedParallelIterator;
use rayon::iter::ParallelIterator;
use rayon::slice::ParallelSlice;
use crate::digest::Digest;
use crate::parameters::MerkleParameters;

verus! {

/// How many inputs one hashing batch holds. Batches bound the working
/// set and may run on separate workers; the split never changes the
/// result, only the scheduling.
pub const BATCH_SIZE: usize = 500;

/// Relies on rayon's `par_chunks`, `map` and `collect`: an indexed
/// parallel iterator maps every chunk independently and collects into a
/// `Vec` in the original order, so the concatenation hashes the leaves
/// exactly as a sequential pass would.
#[verifier::external_body]
pub(crate) fn hash_row<P: MerkleParameters + Send + Sync>(
    parameters: &P,
    leaves: &[Vec<u8>],
) -> (r: Vec<Digest>)
    ensures
        r@.len() == leaves@.len(),
        forall|i: int|
            0 <= i < leaves@.len() ==> r@[i] == parameters.spec_hash_leaf(leaves@[i]@),
{
    let rows: Vec<Vec<Digest>> = leaves
        .par_chunks(BATCH_SIZE)
        .map(|chunk| chunk.iter().map(|leaf| parameters.hash_leaf(leaf)).collect())
        .collect();
    rows.concat()
}

/// Relies on rayon's `par_chunks`, `map` and `collect`, as `hash_row`
/// does: each sibling pair of a level is hashed into its parent digest,
/// chunk by chunk, and the results keep the original order.
#[verifier::external_body]
pub(crate) fn hash_pair_row<P: MerkleParameters + Send + Sync>(
    parameters: &P,
    pairs: &[(Digest, Digest)],
) -> (r: Vec<Digest>)
    ensures
        r@.len() == pairs@.len(),
        forall|i: int|
            0 <= i < pairs@.len() ==> r@[i] == parameters.spec_hash_inner(
                pairs@[i].0,
                pairs@[i].1,
            ),
{
    let rows: Vec<Vec<Digest>> = pairs
        .par_chunks(BATCH_SIZE)
        .map(|chunk| chunk.iter().map(|p| parameters.hash_inner_node(&p.0, &p.1)).collect())
        .collect();
    rows.concat()
}

} // verus!
