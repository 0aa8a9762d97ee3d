//! The extent of the file that a run covers, cut into chunks of one size.

use vstd::prelude::*;
use crate::protocol::ReadRequest;

verus! {

/// The mathematical content of a [`FileExtent`]: a size and a chunk size.
pub struct ExtentView {
    pub total_size: nat,
    pub chunk_size: nat,
}

impl ExtentView {
    /// The number of chunks.
    pub open spec fn chunk_count(self) -> nat {
        self.total_size / self.chunk_size
    }

    /// The byte offset at which chunk `index` starts.
    pub open spec fn offset_of(self, index: nat) -> nat {
        index * self.chunk_size
    }

    /// The read of chunk `index`.
    pub open spec fn request(self, index: nat) -> ReadRequest {
        ReadRequest {
            index: index as u32,
            offset: self.offset_of(index) as u64,
            len: self.chunk_size as u32,
        }
    }

    /// The chunk size is positive and fits the 32-bit length of a read, the
    /// size is a whole number of chunks and fits 64 bits, and the number of
    /// chunks fits the 32-bit capacity of a ring.
    pub open spec fn wf(self) -> bool {
        &&& 0 < self.chunk_size <= u32::MAX
        &&& self.total_size <= u64::MAX
        &&& self.total_size % self.chunk_size == 0
        &&& self.chunk_count() <= u32::MAX
    }
}

/// Why a size and a chunk size do not make an extent.
#[derive(Clone, Copy, Debug, PartialEq, Eq, Structural)]
pub enum ExtentError {
    /// The chunk size is zero.
    EmptyChunk,
    /// The chunk size is more than the 32-bit length of a read can hold.
    ChunkTooLarge,
    /// The size is not a whole number of chunks; `remainder` bytes are left
    /// over after the last whole chunk.
    PartialTail { remainder: u64 },
    /// There are more chunks than the 32-bit capacity of a ring can hold.
    TooManyChunks,
}

/// A file size together with the size of the chunks it is read in.
///
/// The size is taken as given: nothing here measures the file. A file that
/// is shorter than the extent shows in the run as a short read.
#[derive(Clone, Copy, Debug)]
pub struct FileExtent {
    total_size: u64,
    chunk_size: u32,
}

impl View for FileExtent {
    type V = ExtentView;

    closed spec fn view(&self) -> ExtentView {
        ExtentView { total_size: self.total_size as nat, chunk_size: self.chunk_size as nat }
    }
}

impl FileExtent {
    #[verifier::type_invariant]
    spec fn inv(self) -> bool {
        self@.wf()
    }

    /// Checks a size and a chunk size and makes the extent of them.
    pub fn new(total_size: u64, chunk_size: u64) -> (r: Result<FileExtent, ExtentError>)
        ensures
            r is Ok <==> (ExtentView {
                total_size: total_size as nat,
                chunk_size: chunk_size as nat,
            }).wf(),
            match r {
                Ok(extent) => {
                    &&& extent@.total_size == total_size
                    &&& extent@.chunk_size == chunk_size
                    &&& extent@.wf()
                },
                Err(ExtentError::EmptyChunk) => chunk_size == 0,
                Err(ExtentError::ChunkTooLarge) => chunk_size > u32::MAX,
                Err(ExtentError::PartialTail { remainder }) => {
                    &&& 0 < chunk_size <= u32::MAX
                    &&& remainder == total_size % chunk_size
                    &&& remainder != 0
                },
                Err(ExtentError::TooManyChunks) => {
                    &&& 0 < chunk_size <= u32::MAX
                    &&& total_size % chunk_size == 0
                    &&& total_size / chunk_size > u32::MAX
                },
            },
    {
        if chunk_size == 0 {
            return Err(ExtentError::EmptyChunk);
        }
        if chunk_size > 0xffff_ffff {
            return Err(ExtentError::ChunkTooLarge);
        }
        let remainder: u64 = total_size % chunk_size;
        if remainder != 0 {
            return Err(ExtentError::PartialTail { remainder });
        }
        if total_size / chunk_size > 0xffff_ffff {
            return Err(ExtentError::TooManyChunks);
        }
        Ok(FileExtent { total_size, chunk_size: chunk_size as u32 })
    }

    /// The size of the file, in bytes.
    pub fn total_size(&self) -> (r: u64)
        ensures
            r == self@.total_size,
            self@.wf(),
    {
        proof {
            use_type_invariant(self);
        }
        self.total_size
    }

    /// The size of one chunk, in bytes.
    pub fn chunk_size(&self) -> (r: u32)
        ensures
            r == self@.chunk_size,
            self@.wf(),
    {
        proof {
            use_type_invariant(self);
        }
        self.chunk_size
    }

    /// The number of chunks.
    pub fn chunk_count(&self) -> (r: u32)
        ensures
            r == self@.chunk_count(),
            self@.wf(),
    {
        proof {
            use_type_invariant(self);
        }
        (self.total_size / (self.chunk_size as u64)) as u32
    }

    /// The read of chunk `index`, where the extent has such a chunk.
    pub fn request(&self, index: u32) -> (r: Option<ReadRequest>)
        ensures
            r is Some <==> index < self@.chunk_count(),
            r matches Some(request) ==> {
                &&& request == self@.request(index as nat)
                &&& request.index == index
                &&& request.offset == index * self@.chunk_size
                &&& request.len == self@.chunk_size
                &&& request.offset + request.len <= self@.total_size
            },
            self@.wf(),
    {
        if index < self.chunk_count() {
            Some(self.request_at(index))
        } else {
            None
        }
    }

    /// The read of chunk `index` of an extent that has such a chunk.
    pub(crate) fn request_at(&self, index: u32) -> (r: ReadRequest)
        requires
            index < self@.chunk_count(),
        ensures
            r == self@.request(index as nat),
            r.index == index,
            r.offset == index * self@.chunk_size,
            r.len == self@.chunk_size,
            r.offset + r.len <= self@.total_size,
    {
        proof {
            use_type_invariant(self);
            lemma_chunk_within(self@, index as nat);
        }
        ReadRequest {
            index,
            offset: (index as u64) * (self.chunk_size as u64),
            len: self.chunk_size,
        }
    }
}

/// The chunks of an extent make up its size.
pub proof fn lemma_chunks_tile(extent: ExtentView)
    requires
        extent.wf(),
    ensures
        extent.chunk_count() * extent.chunk_size == extent.total_size,
{
    let size = extent.chunk_size as int;
    let total = extent.total_size as int;
    assert(total == (total / size) * size + total % size) by (nonlinear_arith)
        requires
            size > 0,
    ;
}

/// Every chunk of an extent lies within it.
pub proof fn lemma_chunk_within(extent: ExtentView, index: nat)
    requires
        extent.wf(),
        index < extent.chunk_count(),
    ensures
        extent.offset_of(index) + extent.chunk_size <= extent.total_size,
{
    let size = extent.chunk_size as int;
    let count = extent.chunk_count() as int;
    lemma_chunks_tile(extent);
    assert(index * size + size <= count * size) by (nonlinear_arith)
        requires
            index + 1 <= count,
            size > 0,
    ;
}

} // verus!
