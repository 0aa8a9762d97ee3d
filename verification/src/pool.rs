//! The buffers that the reads of a run fill: one per chunk, each of one
//! chunk's size, all zero when the run begins.

use vstd::prelude::*;
use crate::extent::FileExtent;

verus! {

/// A buffer of `len` zero bytes.
pub open spec fn zeroed(len: nat) -> Seq<u8> {
    Seq::new(len, |i: int| 0u8)
}

/// Allocates the buffers of a run over `extent`: as many as the extent has
/// chunks, each of the chunk size and filled with zeros.
pub fn allocate(extent: &FileExtent) -> (pool: Vec<Vec<u8>>)
    ensures
        pool@.len() == extent@.chunk_count(),
        forall|i: int|
            0 <= i < pool@.len() ==> (#[trigger] pool@[i])@ == zeroed(extent@.chunk_size),
{
    let count = extent.chunk_count();
    let len = extent.chunk_size();
    let mut pool: Vec<Vec<u8>> = Vec::new();
    let mut made: u32 = 0;
    while made < count
        invariant
            made <= count,
            pool@.len() == made,
            forall|i: int| 0 <= i < pool@.len() ==> (#[trigger] pool@[i])@ == zeroed(len as nat),
        decreases count - made,
    {
        let buffer: Vec<u8> = vec![0u8; len as usize];
        assert(buffer@ =~= zeroed(len as nat));
        pool.push(buffer);
        made = made + 1;
    }
    pool
}

} // verus!
