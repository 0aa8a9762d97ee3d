//! The run as a state machine over mathematical values: its states, the
//! action each state asks for, and the state each event leads to.

use vstd::prelude::*;
use crate::extent::ExtentView;
use crate::protocol::{Action, Completion, Event, Failure, Phase};

verus! {

/// The state of a run.
pub struct RunState {
    /// The extent that the run reads.
    pub extent: ExtentView,
    /// Where the run stands.
    pub phase: Phase,
    /// How many requests have been submitted.
    pub submitted: nat,
    /// How many completions have been accepted.
    pub reaped: nat,
    /// The indices of the requests that are submitted and not yet completed.
    pub in_flight: Set<nat>,
}

impl RunState {
    /// The state in which a run over `extent` begins.
    pub open spec fn start(extent: ExtentView) -> RunState {
        RunState { extent, phase: Phase::Init, submitted: 0, reaped: 0, in_flight: Set::empty() }
    }

    /// The same run, abandoned for the reason `failure`.
    pub open spec fn fail(self, failure: Failure) -> RunState {
        RunState { phase: Phase::Failed(failure), ..self }
    }

    /// What is wrong with the completion `c` in this state, if anything.
    ///
    /// A completion is sound when it names a request in flight and reports
    /// exactly the chunk size. One that names no request in flight is
    /// unknown, whatever it reports; of a known one, a negative result is a
    /// failed read, a count below the chunk size a short read, and a count
    /// above it an overrun.
    pub open spec fn fault(self, c: Completion) -> Option<Failure> {
        let request = self.extent.request(c.user_data as nat);
        let index = request.index;
        let offset = request.offset;
        if !self.in_flight.contains(c.user_data as nat) {
            Some(Failure::UnknownRequest { user_data: c.user_data })
        } else if c.result < 0 {
            Some(Failure::ReadFailed { index, offset, code: c.result })
        } else if c.result < self.extent.chunk_size {
            Some(Failure::ShortRead { index, offset, bytes: c.result as u32 })
        } else if c.result > self.extent.chunk_size {
            Some(Failure::Overrun { index, offset, bytes: c.result as u32 })
        } else {
            None
        }
    }

    /// What the scheduler asks for in this state.
    pub open spec fn action(self) -> Action {
        match self.phase {
            Phase::Init => Action::Prepare {
                capacity: self.extent.chunk_count() as u32,
                buffer_len: self.extent.chunk_size as u32,
            },
            Phase::Submitting => Action::Submit(self.extent.request(self.submitted)),
            Phase::Draining => Action::WaitOne,
            Phase::Done => Action::Exit { code: 0 },
            Phase::Failed(_) => Action::Exit { code: 1 },
        }
    }

    /// The state after the preparation was completed.
    pub open spec fn prepared(self) -> RunState {
        RunState {
            phase: if self.extent.chunk_count() == 0 {
                Phase::Done
            } else {
                Phase::Submitting
            },
            ..self
        }
    }

    /// The state after the next request was submitted.
    pub open spec fn enqueued(self) -> RunState {
        RunState {
            phase: if self.submitted + 1 == self.extent.chunk_count() {
                Phase::Draining
            } else {
                Phase::Submitting
            },
            submitted: self.submitted + 1,
            in_flight: self.in_flight.insert(self.submitted),
            ..self
        }
    }

    /// The state after the sound completion of request `id` was accepted.
    pub open spec fn retired(self, id: nat) -> RunState {
        RunState {
            phase: if self.reaped + 1 == self.extent.chunk_count() {
                Phase::Done
            } else {
                Phase::Draining
            },
            reaped: self.reaped + 1,
            in_flight: self.in_flight.remove(id),
            ..self
        }
    }

    /// The state that `event` leads to.
    ///
    /// A terminal state stays as it is. In any other state an event that the
    /// phase does not expect abandons the run.
    pub open spec fn step(self, event: Event) -> RunState {
        match self.phase {
            Phase::Init => match event {
                Event::Ready => self.prepared(),
                Event::SetupFailed { step, code } => self.fail(Failure::Setup { step, code }),
                _ => self.fail(Failure::OutOfTurn),
            },
            Phase::Submitting => {
                let request = self.extent.request(self.submitted);
                match event {
                    Event::Submitted => self.enqueued(),
                    Event::QueueFull => self.fail(
                        Failure::QueueFull { index: request.index, offset: request.offset },
                    ),
                    Event::FlushFailed { code } => self.fail(
                        Failure::FlushFailed { index: request.index, offset: request.offset, code },
                    ),
                    _ => self.fail(Failure::OutOfTurn),
                }
            },
            Phase::Draining => match event {
                Event::Completed(c) => match self.fault(c) {
                    Some(failure) => self.fail(failure),
                    None => self.retired(c.user_data as nat),
                },
                Event::WaitFailed { code } => self.fail(Failure::WaitFailed { code }),
                _ => self.fail(Failure::OutOfTurn),
            },
            Phase::Done => self,
            Phase::Failed(_) => self,
        }
    }

    /// What holds of every state that a run reaches.
    pub open spec fn wf(self) -> bool {
        &&& self.extent.wf()
        &&& self.reaped <= self.submitted <= self.extent.chunk_count()
        &&& self.in_flight.finite()
        &&& self.in_flight.len() == self.submitted - self.reaped
        &&& forall|i: nat| self.in_flight.contains(i) ==> i < self.submitted
        &&& match self.phase {
            Phase::Init => self.submitted == 0,
            Phase::Submitting => self.submitted < self.extent.chunk_count() && self.reaped == 0,
            Phase::Draining => self.submitted == self.extent.chunk_count() && self.reaped
                < self.submitted,
            Phase::Done => self.reaped == self.extent.chunk_count(),
            Phase::Failed(_) => true,
        }
    }
}

/// Every step keeps a state well formed.
pub proof fn lemma_step_wf(s: RunState, event: Event)
    requires
        s.wf(),
    ensures
        s.step(event).wf(),
{
}

} // verus!
