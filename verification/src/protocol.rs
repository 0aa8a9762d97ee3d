//! The plain values that pass between the scheduler and the driver of the
//! ring: what the scheduler asks for, and what the driver reports back.

use vstd::prelude::*;

verus! {

/// One read of one chunk, as it is placed on the submission queue.
#[derive(Clone, Copy, Debug, PartialEq, Eq, Structural)]
pub struct ReadRequest {
    /// The chunk's place in the extent; it identifies the request and the
    /// buffer that the read fills.
    pub index: u32,
    /// The byte offset in the file at which the read starts.
    pub offset: u64,
    /// The number of bytes to read.
    pub len: u32,
}

/// The kernel's report of how one request ended.
#[derive(Clone, Copy, Debug, PartialEq, Eq, Structural)]
pub struct Completion {
    /// The identifier that the request was submitted with.
    pub user_data: u64,
    /// The number of bytes read, or a negative error code.
    pub result: i32,
}

/// A step of the preparation that goes before the first submission.
#[derive(Clone, Copy, Debug, PartialEq, Eq, Structural)]
pub enum Setup {
    /// The host discards the pages it has cached.
    CacheDrop,
    /// The kernel creates the ring.
    Ring,
    /// The file to read is opened.
    TargetFile,
}

/// Why a run was abandoned.
#[derive(Clone, Copy, Debug, PartialEq, Eq, Structural)]
pub enum Failure {
    /// The step `step` of the preparation failed with the error `code`.
    Setup { step: Setup, code: i32 },
    /// The submission queue had no free slot for the request.
    QueueFull { index: u32, offset: u64 },
    /// The request was enqueued, but handing the queue to the kernel failed.
    FlushFailed { index: u32, offset: u64, code: i32 },
    /// Waiting for a completion failed.
    WaitFailed { code: i32 },
    /// A completion named no request that is in flight.
    UnknownRequest { user_data: u64 },
    /// The read of the chunk at `offset` ended with the error `code`.
    ReadFailed { index: u32, offset: u64, code: i32 },
    /// The read of the chunk at `offset` gave `bytes` bytes, fewer than the
    /// chunk size. A short read is an error: the run counts only full chunks.
    ShortRead { index: u32, offset: u64, bytes: u32 },
    /// The read of the chunk at `offset` reported `bytes` bytes, more than
    /// the chunk size.
    Overrun { index: u32, offset: u64, bytes: u32 },
    /// The driver reported an event that the phase of the run does not expect.
    OutOfTurn,
}

/// Where a run stands.
#[derive(Clone, Copy, Debug, PartialEq, Eq, Structural)]
pub enum Phase {
    /// Nothing has been asked of the kernel yet.
    Init,
    /// The preparation is complete and some requests are still to be submitted.
    Submitting,
    /// Every request is submitted and some completions are still to come.
    Draining,
    /// Every request was submitted and completed in full.
    Done,
    /// The run was abandoned.
    Failed(Failure),
}

impl Phase {
    /// No event moves a run out of this phase.
    pub open spec fn is_terminal(self) -> bool {
        self is Done || self is Failed
    }
}

/// What the scheduler asks the driver to do next.
#[derive(Clone, Copy, Debug, PartialEq, Eq, Structural)]
pub enum Action {
    /// Have the host discard its cached pages, create a ring that holds
    /// `capacity` requests in flight, open the file, and allocate `capacity`
    /// zeroed buffers of `buffer_len` bytes.
    Prepare { capacity: u32, buffer_len: u32 },
    /// Enqueue the request, with the buffer of its index as the destination,
    /// and hand the queue to the kernel.
    Submit(ReadRequest),
    /// Block until a completion is available and take one.
    WaitOne,
    /// End the process with the status `code`.
    Exit { code: i32 },
}

/// What the driver reports after it has performed an action.
#[derive(Clone, Copy, Debug, PartialEq, Eq, Structural)]
pub enum Event {
    /// The preparation is complete.
    Ready,
    /// The step `step` of the preparation failed with the error `code`.
    SetupFailed { step: Setup, code: i32 },
    /// The request was enqueued and handed to the kernel.
    Submitted,
    /// The submission queue was full.
    QueueFull,
    /// The request was enqueued, but the kernel refused the queue.
    FlushFailed { code: i32 },
    /// A completion was taken from the completion queue.
    Completed(Completion),
    /// Waiting for a completion failed.
    WaitFailed { code: i32 },
}

} // verus!
