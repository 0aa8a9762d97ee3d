//! The scheduler that a driver of the ring consults: it holds the state of
//! one run, names the next action, and takes each event in.

use vstd::prelude::*;
use crate::extent::FileExtent;
use crate::model::{lemma_step_wf, RunState};
use crate::protocol::{Action, Completion, Event, Failure, Phase};

verus! {

/// The indices that `pending` marks.
spec fn marked(pending: Seq<bool>) -> Set<nat> {
    Set::new(|i: nat| i < pending.len() && pending[i as int])
}

/// The state of one run over one extent.
pub struct Scheduler {
    extent: FileExtent,
    phase: Phase,
    submitted: u32,
    reaped: u32,
    /// One mark per chunk, set while the chunk's request is in flight.
    pending: Vec<bool>,
}

impl View for Scheduler {
    type V = RunState;

    closed spec fn view(&self) -> RunState {
        RunState {
            extent: self.extent@,
            phase: self.phase,
            submitted: self.submitted as nat,
            reaped: self.reaped as nat,
            in_flight: marked(self.pending@),
        }
    }
}

impl Scheduler {
    #[verifier::type_invariant]
    spec fn inv(self) -> bool {
        &&& self@.wf()
        &&& self.pending@.len() == self.extent@.chunk_count()
    }

    /// A scheduler at the start of a run over `extent`.
    pub fn new(extent: FileExtent) -> (r: Scheduler)
        ensures
            r@ == RunState::start(extent@),
            r@.wf(),
    {
        let count = extent.chunk_count();
        let pending: Vec<bool> = vec![false; count as usize];
        assert(marked(pending@) =~= Set::<nat>::empty());
        Scheduler { extent, phase: Phase::Init, submitted: 0, reaped: 0, pending }
    }

    /// The extent that the run reads.
    pub fn extent(&self) -> (r: FileExtent)
        ensures
            r@ == self@.extent,
            self@.wf(),
    {
        proof {
            use_type_invariant(self);
        }
        self.extent
    }

    /// Where the run stands.
    pub fn phase(&self) -> (r: Phase)
        ensures
            r == self@.phase,
            self@.wf(),
    {
        proof {
            use_type_invariant(self);
        }
        self.phase
    }

    /// How many requests have been submitted.
    pub fn submitted(&self) -> (r: u32)
        ensures
            r == self@.submitted,
            self@.wf(),
    {
        proof {
            use_type_invariant(self);
        }
        self.submitted
    }

    /// How many completions have been accepted.
    pub fn reaped(&self) -> (r: u32)
        ensures
            r == self@.reaped,
            self@.wf(),
    {
        proof {
            use_type_invariant(self);
        }
        self.reaped
    }

    /// Whether the request of chunk `index` is submitted and not yet
    /// completed, so that its buffer is the kernel's to write.
    pub fn is_in_flight(&self, index: u32) -> (r: bool)
        ensures
            r == self@.in_flight.contains(index as nat),
            self@.wf(),
    {
        proof {
            use_type_invariant(self);
        }
        (index as usize) < self.pending.len() && self.pending[index as usize]
    }

    /// What the driver is to do next.
    pub fn action(&self) -> (r: Action)
        ensures
            r == self@.action(),
            self@.wf(),
    {
        proof {
            use_type_invariant(self);
        }
        match self.phase {
            Phase::Init => Action::Prepare {
                capacity: self.extent.chunk_count(),
                buffer_len: self.extent.chunk_size(),
            },
            Phase::Submitting => Action::Submit(self.extent.request_at(self.submitted)),
            Phase::Draining => Action::WaitOne,
            Phase::Done => Action::Exit { code: 0 },
            Phase::Failed(_) => Action::Exit { code: 1 },
        }
    }

    /// Takes in what the driver reports and gives the scheduler of the
    /// state that follows.
    pub fn step(self, event: Event) -> (r: Scheduler)
        ensures
            r@ == self@.step(event),
            r@.wf(),
    {
        proof {
            use_type_invariant(&self);
            lemma_step_wf(self@, event);
        }
        match self.phase {
            Phase::Init => match event {
                Event::Ready => self.prepared(),
                Event::SetupFailed { step, code } => self.fail(Failure::Setup { step, code }),
                _ => self.fail(Failure::OutOfTurn),
            },
            Phase::Submitting => {
                let request = self.extent.request_at(self.submitted);
                match event {
                    Event::Submitted => self.enqueued(),
                    Event::QueueFull => self.fail(
                        Failure::QueueFull { index: request.index, offset: request.offset },
                    ),
                    Event::FlushFailed { code } => self.fail(
                        Failure::FlushFailed { index: request.index, offset: request.offset, code },
                    ),
                    _ => self.fail(Failure::OutOfTurn),
                }
            },
            Phase::Draining => match event {
                Event::Completed(c) => match self.fault(&c) {
                    Some(failure) => self.fail(failure),
                    None => self.retired(c.user_data as u32),
                },
                Event::WaitFailed { code } => self.fail(Failure::WaitFailed { code }),
                _ => self.fail(Failure::OutOfTurn),
            },
            Phase::Done => self,
            Phase::Failed(_) => self,
        }
    }

    /// What is wrong with the completion `c` in this state, if anything.
    pub fn fault(&self, c: &Completion) -> (r: Option<Failure>)
        ensures
            r == self@.fault(*c),
            self@.wf(),
    {
        proof {
            use_type_invariant(self);
        }
        if c.user_data >= self.pending.len() as u64 || !self.pending[c.user_data as usize] {
            return Some(Failure::UnknownRequest { user_data: c.user_data });
        }
        let request = self.extent.request_at(c.user_data as u32);
        let index = request.index;
        let offset = request.offset;
        if c.result < 0 {
            Some(Failure::ReadFailed { index, offset, code: c.result })
        } else if (c.result as u32) < request.len {
            Some(Failure::ShortRead { index, offset, bytes: c.result as u32 })
        } else if (c.result as u32) > request.len {
            Some(Failure::Overrun { index, offset, bytes: c.result as u32 })
        } else {
            None
        }
    }

    /// The same run, abandoned for the reason `failure`.
    fn fail(self, failure: Failure) -> (r: Scheduler)
        ensures
            r@ == self@.fail(failure),
    {
        proof {
            use_type_invariant(&self);
        }
        Scheduler { phase: Phase::Failed(failure), ..self }
    }

    /// The run after the preparation was completed.
    fn prepared(self) -> (r: Scheduler)
        requires
            self@.phase is Init,
        ensures
            r@ == self@.prepared(),
    {
        proof {
            use_type_invariant(&self);
        }
        let phase = if self.extent.chunk_count() == 0 {
            Phase::Done
        } else {
            Phase::Submitting
        };
        Scheduler { phase, ..self }
    }

    /// The run after the next request was submitted.
    fn enqueued(self) -> (r: Scheduler)
        requires
            self@.phase is Submitting,
        ensures
            r@ == self@.enqueued(),
    {
        proof {
            use_type_invariant(&self);
        }
        let Scheduler { extent, phase: _, submitted, reaped, mut pending } = self;
        pending.set(submitted as usize, true);
        proof {
            assert(marked(pending@) =~= marked(self.pending@).insert(submitted as nat));
        }
        let phase = if submitted + 1 == extent.chunk_count() {
            Phase::Draining
        } else {
            Phase::Submitting
        };
        Scheduler { extent, phase, submitted: submitted + 1, reaped, pending }
    }

    /// The run after the sound completion of request `index` was accepted.
    fn retired(self, index: u32) -> (r: Scheduler)
        requires
            self@.phase is Draining,
            self@.in_flight.contains(index as nat),
        ensures
            r@ == self@.retired(index as nat),
    {
        proof {
            use_type_invariant(&self);
        }
        let Scheduler { extent, phase: _, submitted, reaped, mut pending } = self;
        pending.set(index as usize, false);
        proof {
            assert(marked(pending@) =~= marked(self.pending@).remove(index as nat));
        }
        let phase = if reaped + 1 == extent.chunk_count() {
            Phase::Done
        } else {
            Phase::Draining
        };
        Scheduler { extent, phase, submitted, reaped: reaped + 1, pending }
    }
}

} // verus!
