//! Whole runs: the events that a driver reports, one after another, and what
//! holds of every state they lead to.

use vstd::prelude::*;
use crate::extent::{lemma_chunk_within, lemma_chunks_tile, ExtentView};
use crate::model::RunState;
use crate::protocol::{Action, Completion, Event, Phase, ReadRequest};

verus! {

/// The state that `events`, reported in order, lead to from `s`.
pub open spec fn run(s: RunState, events: Seq<Event>) -> RunState
    decreases events.len(),
{
    if events.len() == 0 {
        s
    } else {
        run(s, events.drop_last()).step(events.last())
    }
}

/// The requests that are submitted while `events` are reported from `s`, in
/// the order of their submission.
pub open spec fn submissions(s: RunState, events: Seq<Event>) -> Seq<ReadRequest>
    decreases events.len(),
{
    if events.len() == 0 {
        Seq::empty()
    } else {
        let before = run(s, events.drop_last());
        let earlier = submissions(s, events.drop_last());
        if before.phase is Submitting && events.last() is Submitted {
            earlier.push(before.extent.request(before.submitted))
        } else {
            earlier
        }
    }
}

/// The completions that are accepted while `events` are reported from `s`,
/// in the order of their arrival.
pub open spec fn completions(s: RunState, events: Seq<Event>) -> Seq<Completion>
    decreases events.len(),
{
    if events.len() == 0 {
        Seq::empty()
    } else {
        let before = run(s, events.drop_last());
        let earlier = completions(s, events.drop_last());
        match events.last() {
            Event::Completed(c) => if before.phase is Draining && before.fault(c) is None {
                earlier.push(c)
            } else {
                earlier
            },
            _ => earlier,
        }
    }
}

/// The chunks that the completions of `done` name.
pub open spec fn named(done: Seq<Completion>) -> Set<nat> {
    Set::new(|k: nat| exists|i: int| 0 <= i < done.len() && #[trigger] done[i].user_data == k)
}

/// No two completions of `done` name one chunk.
pub open spec fn names_each_once(done: Seq<Completion>) -> bool {
    forall|i: int, j: int|
        0 <= i < j < done.len() ==> (#[trigger] done[i]).user_data != (#[trigger] done[j]).user_data
}

/// How many events a run in state `s` can take at most before it ends.
pub open spec fn remaining(s: RunState) -> nat {
    match s.phase {
        Phase::Init => 2 * s.extent.chunk_count() + 1,
        Phase::Submitting => (2 * s.extent.chunk_count() - s.submitted) as nat,
        Phase::Draining => (s.extent.chunk_count() - s.reaped) as nat,
        Phase::Done => 0,
        Phase::Failed(_) => 0,
    }
}

/// Reporting one more event is one more step.
pub proof fn lemma_run_push(s: RunState, events: Seq<Event>, event: Event)
    ensures
        run(s, events.push(event)) == run(s, events).step(event),
{
    assert(events.push(event).drop_last() =~= events);
}

/// Reporting `first` and then `second` is reporting the two in one sequence.
pub proof fn lemma_run_concat(s: RunState, first: Seq<Event>, second: Seq<Event>)
    ensures
        run(s, first + second) == run(run(s, first), second),
    decreases second.len(),
{
    if second.len() == 0 {
        assert(first + second =~= first);
    } else {
        lemma_run_concat(s, first, second.drop_last());
        assert((first + second).drop_last() =~= first + second.drop_last());
    }
}

/// A run keeps its state well formed and never changes its extent.
pub proof fn lemma_run_wf(s: RunState, events: Seq<Event>)
    requires
        s.wf(),
    ensures
        run(s, events).wf(),
        run(s, events).extent == s.extent,
    decreases events.len(),
{
    if events.len() > 0 {
        lemma_run_wf(s, events.drop_last());
    }
}

/// A run that is done or abandoned stays as it is, whatever is reported.
pub proof fn lemma_terminal_is_final(s: RunState, events: Seq<Event>)
    requires
        s.phase.is_terminal(),
    ensures
        run(s, events) == s,
    decreases events.len(),
{
    if events.len() > 0 {
        lemma_terminal_is_final(s, events.drop_last());
    }
}

/// Every event brings a run that is under way closer to its end.
pub proof fn lemma_step_progresses(s: RunState, event: Event)
    requires
        s.wf(),
        !s.phase.is_terminal(),
    ensures
        remaining(s.step(event)) < remaining(s),
{
}

/// A run ends: once a driver has reported one event for the preparation and
/// two for each chunk, the run is done or abandoned, whatever was reported.
pub proof fn lemma_run_ends(extent: ExtentView, events: Seq<Event>)
    requires
        extent.wf(),
    ensures
        ({
            let end = run(RunState::start(extent), events);
            let most = 2 * extent.chunk_count() + 1;
            &&& end.phase.is_terminal() || remaining(end) + events.len() <= most
            &&& events.len() >= most ==> end.phase.is_terminal()
        }),
    decreases events.len(),
{
    let start = RunState::start(extent);
    lemma_run_wf(start, events);
    if events.len() > 0 {
        let before = run(start, events.drop_last());
        lemma_run_ends(extent, events.drop_last());
        lemma_run_wf(start, events.drop_last());
        if !before.phase.is_terminal() {
            lemma_step_progresses(before, events.last());
        }
    }
}

/// Whenever a run asks for a submission, fewer requests are in flight than
/// the ring was asked to hold: a ring of the capacity that the preparation
/// names has a free slot for every request.
pub proof fn lemma_ring_has_room(extent: ExtentView, events: Seq<Event>)
    requires
        extent.wf(),
    ensures
        ({
            let start = RunState::start(extent);
            let end = run(start, events);
            &&& start.action() matches Action::Prepare { capacity, .. }
            &&& capacity == extent.chunk_count()
            &&& end.in_flight.len() <= capacity
            &&& end.action() is Submit ==> end.in_flight.len() < capacity
        }),
{
    lemma_run_wf(RunState::start(extent), events);
}

/// From any state of a run, the requests submitted next are those of the
/// chunks that follow the ones already submitted, one after another.
pub proof fn lemma_submissions_continue(s: RunState, events: Seq<Event>)
    requires
        s.wf(),
    ensures
        s.submitted + submissions(s, events).len() == run(s, events).submitted,
        forall|i: int|
            0 <= i < submissions(s, events).len() ==> #[trigger] submissions(s, events)[i]
                == s.extent.request((s.submitted + i) as nat),
    decreases events.len(),
{
    if events.len() > 0 {
        lemma_submissions_continue(s, events.drop_last());
        lemma_run_wf(s, events.drop_last());
    }
}

/// The offsets of the requests that a run submits are `0`, the chunk size,
/// twice the chunk size and so on. Request `i` is the `i`-th to be
/// submitted; each request starts where the one before it ended, so the
/// offsets rise strictly, with no gap and no repeat; and once every request
/// is submitted, the last one ends where the file ends.
pub proof fn lemma_offsets_ascend(extent: ExtentView, events: Seq<Event>)
    requires
        extent.wf(),
    ensures
        ({
            let sent = submissions(RunState::start(extent), events);
            &&& sent.len() == run(RunState::start(extent), events).submitted
            &&& sent.len() <= extent.chunk_count()
            &&& forall|i: int|
                0 <= i < sent.len() ==> {
                    &&& (#[trigger] sent[i]).index == i
                    &&& sent[i].offset == i * extent.chunk_size
                    &&& sent[i].len == extent.chunk_size
                }
            &&& forall|i: int|
                0 < i < sent.len() ==> {
                    let before = sent[i - 1];
                    (#[trigger] sent[i]).offset == before.offset + before.len
                }
            &&& forall|i: int, j: int|
                0 <= i < j < sent.len() ==> {
                    (#[trigger] sent[i]).offset < (#[trigger] sent[j]).offset
                }
            &&& 0 < sent.len() == extent.chunk_count() ==> {
                let last = sent.last();
                last.offset + last.len == extent.total_size
            }
        }),
{
    let start = RunState::start(extent);
    let sent = submissions(start, events);
    let size = extent.chunk_size as int;
    lemma_submissions_continue(start, events);
    lemma_run_wf(start, events);
    lemma_chunks_tile(extent);
    assert forall|i: int| 0 <= i < sent.len() implies {
        &&& (#[trigger] sent[i]).index == i
        &&& sent[i].offset == i * size
        &&& sent[i].len == size
    } by {
        lemma_chunk_within(extent, i as nat);
    }
    assert forall|i: int| 0 < i < sent.len() implies {
        let before = sent[i - 1];
        (#[trigger] sent[i]).offset == before.offset + before.len
    } by {
        assert(sent[i - 1].offset == (i - 1) * size);
        assert(i * size == (i - 1) * size + size) by (nonlinear_arith);
    }
    assert forall|i: int, j: int| 0 <= i < j < sent.len() implies {
        (#[trigger] sent[i]).offset < (#[trigger] sent[j]).offset
    } by {
        assert(i * size < j * size) by (nonlinear_arith)
            requires
                i < j,
                size > 0,
        ;
    }
    if 0 < sent.len() == extent.chunk_count() {
        let last = sent.len() - 1;
        assert(sent[last].offset == last * size);
        assert(last * size + size == (last + 1) * size) by (nonlinear_arith);
    }
}

/// How the completions accepted so far account for the state of a run:
/// each is sound, no two name one chunk, and a chunk is in flight exactly
/// when it is submitted and none of them names it.
pub open spec fn accounts_for(done: Seq<Completion>, s: RunState) -> bool {
    &&& done.len() == s.reaped
    &&& forall|i: int|
        0 <= i < done.len() ==> {
            &&& (#[trigger] done[i]).result == s.extent.chunk_size
            &&& done[i].user_data < s.submitted
        }
    &&& names_each_once(done)
    &&& forall|k: nat| s.in_flight.contains(k) <==> k < s.submitted && !named(done).contains(k)
}

/// One more completion names one more chunk.
pub proof fn lemma_named_push(done: Seq<Completion>, c: Completion)
    ensures
        named(done.push(c)) == named(done).insert(c.user_data as nat),
{
    let more = done.push(c);
    let wider = named(done).insert(c.user_data as nat);
    assert forall|k: nat| named(more).contains(k) <==> wider.contains(k) by {
        if named(more).contains(k) {
            let i = choose|i: int| 0 <= i < more.len() && #[trigger] more[i].user_data == k;
            if i < done.len() {
                assert(done[i].user_data == k);
            }
        }
        if named(done).contains(k) {
            let i = choose|i: int| 0 <= i < done.len() && #[trigger] done[i].user_data == k;
            assert(more[i].user_data == k);
        }
        if k == c.user_data {
            assert(more[more.len() - 1].user_data == k);
        }
    }
    assert(named(more) =~= wider);
}

/// In every state of a run from the start, the completions accepted so far
/// account for it.
pub proof fn lemma_completions_account(extent: ExtentView, events: Seq<Event>)
    requires
        extent.wf(),
    ensures
        accounts_for(
            completions(RunState::start(extent), events),
            run(RunState::start(extent), events),
        ),
    decreases events.len(),
{
    let start = RunState::start(extent);
    if events.len() == 0 {
        assert(completions(start, events) =~= Seq::<Completion>::empty());
    } else {
        let before = run(start, events.drop_last());
        let earlier = completions(start, events.drop_last());
        let after = run(start, events);
        let done = completions(start, events);
        lemma_completions_account(extent, events.drop_last());
        lemma_run_wf(start, events.drop_last());
        if done == earlier {
            assert forall|k: nat| after.in_flight.contains(k) <==> {
                k < after.submitted && !named(done).contains(k)
            } by {
                if k == before.submitted && named(earlier).contains(k) {
                    let i = choose|i: int|
                        0 <= i < earlier.len() && #[trigger] earlier[i].user_data == k;
                }
            }
        } else {
            let c = events.last()->Completed_0;
            assert(done == earlier.push(c));
            assert(before.in_flight.contains(c.user_data as nat));
            lemma_named_push(earlier, c);
            assert forall|i: int, j: int| 0 <= i < j < done.len() implies {
                (#[trigger] done[i]).user_data != (#[trigger] done[j]).user_data
            } by {
                if j == done.len() - 1 && done[i].user_data == done[j].user_data {
                    assert(earlier[i].user_data == c.user_data);
                    assert(named(earlier).contains(c.user_data as nat));
                }
            }
        }
    }
}

/// A run submits at most one request per chunk and accepts at most one
/// completion per request. A run that is done has submitted exactly as many
/// requests as the extent has chunks and has accepted exactly as many
/// completions: one for each request, each reporting the chunk size.
pub proof fn lemma_done_run_is_complete(extent: ExtentView, events: Seq<Event>)
    requires
        extent.wf(),
    ensures
        ({
            let end = run(RunState::start(extent), events);
            let sent = submissions(RunState::start(extent), events);
            let done = completions(RunState::start(extent), events);
            &&& sent.len() == end.submitted
            &&& done.len() == end.reaped
            &&& done.len() <= sent.len() <= extent.chunk_count()
            &&& forall|i: int|
                0 <= i < done.len() ==> {
                    &&& (#[trigger] done[i]).result == extent.chunk_size
                    &&& done[i].user_data < sent.len()
                }
            &&& names_each_once(done)
            &&& end.phase is Done ==> {
                &&& sent.len() == extent.chunk_count()
                &&& done.len() == extent.chunk_count()
                &&& forall|k: nat| k < extent.chunk_count() ==> named(done).contains(k)
            }
        }),
{
    let start = RunState::start(extent);
    let end = run(start, events);
    let done = completions(start, events);
    lemma_completions_account(extent, events);
    lemma_submissions_continue(start, events);
    lemma_run_wf(start, events);
    if end.phase is Done {
        assert(end.in_flight.len() == 0);
        assert forall|k: nat| k < extent.chunk_count() implies named(done).contains(k) by {
            if !named(done).contains(k) {
                assert(end.in_flight.contains(k));
            }
        }
    }
}

} // verus!
