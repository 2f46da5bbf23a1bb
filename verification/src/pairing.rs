//! Cutting a sequence into runs of a fixed length.

use itertools::Itertools;
use vstd::prelude::*;

verus! {

/// The run of number `k` where `items` is cut into runs of `size`: the last
/// one is shorter where the items do not fill it.
pub open spec fn chunk_at(items: Seq<usize>, size: int, k: int) -> Seq<usize> {
    items.subrange(
        k * size,
        if (k + 1) * size <= items.len() {
            (k + 1) * size
        } else {
            items.len() as int
        },
    )
}

/// How many runs of `size` it takes to hold `len` items.
pub open spec fn chunk_count(len: int, size: int) -> int {
    (len + size - 1) / size
}

/// `Itertools::chunks` of itertools, each chunk collected into a vector:
/// the chunks hold the items in their order, `size` in each and the rest in
/// the last one; there is no empty chunk. The outside function panics on a
/// size of zero, which is left out here.
#[verifier::external_body]
pub(crate) fn chunks_of(items: &Vec<usize>, size: usize) -> (out: Vec<Vec<usize>>)
    requires
        size > 0,
    ensures
        out@.len() == chunk_count(items@.len() as int, size as int),
        forall|k: int|
            0 <= k < out@.len() ==> (#[trigger] out@[k])@ == chunk_at(items@, size as int, k),
{
    let chunks = items.iter().copied().chunks(size);
    let mut out: Vec<Vec<usize>> = Vec::new();
    for chunk in &chunks {
        out.push(chunk.collect());
    }
    out
}

} // verus!
