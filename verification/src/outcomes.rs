//! How runs end: with status zero where every chunk was read in full, with
//! status one otherwise, and the same way in whatever order the completions
//! arrive.

use vstd::prelude::*;
use crate::extent::{lemma_chunk_within, ExtentView};
use crate::model::RunState;
use crate::protocol::{Action, Completion, Event, Failure, Phase};
use crate::runs::{
    lemma_named_push, lemma_run_concat, lemma_run_push, lemma_terminal_is_final, named,
    names_each_once, run,
};

verus! {

/// What a driver reports when the preparation succeeds and `count` requests
/// are taken by the kernel.
pub open spec fn opening(count: nat) -> Seq<Event> {
    seq![Event::Ready] + Seq::new(count, |i: int| Event::Submitted)
}

/// What a driver reports when the completions of `arrivals` arrive in that
/// order.
pub open spec fn reports(arrivals: Seq<Completion>) -> Seq<Event> {
    Seq::new(arrivals.len(), |i: int| Event::Completed(arrivals[i]))
}

/// What a driver reports in a run without trouble on its side: the
/// preparation succeeds, every request is taken, and the completions of
/// `arrivals` arrive in that order.
pub open spec fn smooth(extent: ExtentView, arrivals: Seq<Completion>) -> Seq<Event> {
    opening(extent.chunk_count()) + reports(arrivals)
}

/// `arrivals` holds one completion for each chunk of `extent`, in any order.
pub open spec fn one_per_chunk(extent: ExtentView, arrivals: Seq<Completion>) -> bool {
    &&& arrivals.len() == extent.chunk_count()
    &&& forall|i: int|
        0 <= i < arrivals.len() ==> (#[trigger] arrivals[i]).user_data < extent.chunk_count()
    &&& names_each_once(arrivals)
}

/// Every completion of `arrivals` reports exactly the chunk size.
pub open spec fn all_full(extent: ExtentView, arrivals: Seq<Completion>) -> bool {
    forall|i: int| 0 <= i < arrivals.len() ==> (#[trigger] arrivals[i]).result == extent.chunk_size
}

/// The state of a run over `extent` after its first `sent` requests were
/// submitted and none has completed.
pub open spec fn after_submitting(extent: ExtentView, sent: nat) -> RunState {
    RunState {
        extent,
        phase: if extent.chunk_count() == 0 {
            Phase::Done
        } else if sent < extent.chunk_count() {
            Phase::Submitting
        } else {
            Phase::Draining
        },
        submitted: sent,
        reaped: 0,
        in_flight: Set::new(|k: nat| k < sent),
    }
}

/// The state of a run over `extent` after every request was submitted and
/// the completions of `done` were accepted.
pub open spec fn after_accepting(extent: ExtentView, done: Seq<Completion>) -> RunState {
    RunState {
        extent,
        phase: if done.len() < extent.chunk_count() {
            Phase::Draining
        } else {
            Phase::Done
        },
        submitted: extent.chunk_count(),
        reaped: done.len(),
        in_flight: Set::new(|k: nat| k < extent.chunk_count() && !named(done).contains(k)),
    }
}

/// After the preparation, each request that the kernel takes moves the run
/// one chunk on, and the last one starts the draining.
pub proof fn lemma_opening(extent: ExtentView, sent: nat)
    requires
        extent.wf(),
        sent <= extent.chunk_count(),
    ensures
        run(RunState::start(extent), opening(sent)) == after_submitting(extent, sent),
    decreases sent,
{
    let start = RunState::start(extent);
    if sent == 0 {
        assert(opening(sent) =~= Seq::<Event>::empty().push(Event::Ready));
        lemma_run_push(start, Seq::empty(), Event::Ready);
        assert(start.prepared().in_flight =~= after_submitting(extent, 0).in_flight);
    } else {
        let fewer = (sent - 1) as nat;
        lemma_opening(extent, fewer);
        assert(opening(sent) =~= opening(fewer).push(Event::Submitted));
        lemma_run_push(start, opening(fewer), Event::Submitted);
        let next = after_submitting(extent, fewer).enqueued();
        assert(next.in_flight =~= after_submitting(extent, sent).in_flight);
    }
}

/// While the completions that arrive are full, each is accepted; the first
/// that is not abandons the run.
pub proof fn lemma_draining(extent: ExtentView, arrivals: Seq<Completion>, seen: nat)
    requires
        extent.wf(),
        one_per_chunk(extent, arrivals),
        seen <= arrivals.len(),
    ensures
        ({
            let end = run(
                after_submitting(extent, extent.chunk_count()),
                reports(arrivals.take(seen as int)),
            );
            &&& end.submitted == extent.chunk_count()
            &&& if all_full(extent, arrivals.take(seen as int)) {
                end == after_accepting(extent, arrivals.take(seen as int))
            } else {
                end.phase is Failed
            }
        }),
    decreases seen,
{
    let drain = after_submitting(extent, extent.chunk_count());
    if seen == 0 {
        assert(reports(arrivals.take(0)) =~= Seq::<Event>::empty());
        assert(drain.in_flight =~= after_accepting(extent, arrivals.take(0)).in_flight);
    } else {
        let fewer = (seen - 1) as nat;
        let earlier = arrivals.take(fewer as int);
        let done = arrivals.take(seen as int);
        let c = arrivals[fewer as int];
        let before = run(drain, reports(earlier));
        lemma_draining(extent, arrivals, fewer);
        assert(done =~= earlier.push(c));
        assert(reports(done) =~= reports(earlier).push(Event::Completed(c)));
        lemma_run_push(drain, reports(earlier), Event::Completed(c));
        if all_full(extent, earlier) {
            if named(earlier).contains(c.user_data as nat) {
                let i = choose|i: int|
                    0 <= i < earlier.len() && #[trigger] earlier[i].user_data == c.user_data as nat;
                assert(arrivals[i].user_data == arrivals[fewer as int].user_data);
            }
            assert(before.in_flight.contains(c.user_data as nat));
            if c.result == extent.chunk_size {
                assert(all_full(extent, done));
                lemma_named_push(earlier, c);
                let next = before.retired(c.user_data as nat);
                assert(next.in_flight =~= after_accepting(extent, done).in_flight);
            } else {
                assert(done[done.len() - 1].result != extent.chunk_size);
            }
        } else {
            let i = choose|i: int|
                0 <= i < earlier.len() && (#[trigger] earlier[i]).result != extent.chunk_size;
            assert(done[i].result != extent.chunk_size);
        }
    }
}

/// How a run without trouble on the driver's side ends: with every request
/// submitted, and then done, with status zero and every request completed,
/// where every completion reports the chunk size; abandoned, with status
/// one, where any reports something else.
pub proof fn lemma_smooth_run_ends(extent: ExtentView, arrivals: Seq<Completion>)
    requires
        extent.wf(),
        one_per_chunk(extent, arrivals),
    ensures
        ({
            let end = run(RunState::start(extent), smooth(extent, arrivals));
            &&& end.submitted == extent.chunk_count()
            &&& if all_full(extent, arrivals) {
                &&& end.phase is Done
                &&& end.action() == (Action::Exit { code: 0 })
                &&& end.reaped == extent.chunk_count()
            } else {
                &&& end.phase is Failed
                &&& end.action() == (Action::Exit { code: 1 })
            }
        }),
{
    let start = RunState::start(extent);
    let count = extent.chunk_count();
    lemma_opening(extent, count);
    lemma_run_concat(start, opening(count), reports(arrivals));
    assert(arrivals.take(arrivals.len() as int) =~= arrivals);
    lemma_draining(extent, arrivals, arrivals.len());
}

/// Where every request completes and every completion reports exactly the
/// chunk size, in whatever order the completions arrive, the run is done and
/// the process is told to end with status zero.
pub proof fn lemma_full_reads_succeed(extent: ExtentView, arrivals: Seq<Completion>)
    requires
        extent.wf(),
        one_per_chunk(extent, arrivals),
        all_full(extent, arrivals),
    ensures
        ({
            let end = run(RunState::start(extent), smooth(extent, arrivals));
            &&& end.phase is Done
            &&& end.action() == (Action::Exit { code: 0 })
        }),
{
    lemma_smooth_run_ends(extent, arrivals);
}

/// A completion that reports an error abandons a run that is under way,
/// whatever is reported after it, and the process is told to end with status
/// one. Where the completion names a request in flight, the failure holds
/// that request's index, the offset of its chunk, and the error code.
pub proof fn lemma_failed_read_abandons_run(s: RunState, c: Completion, later: Seq<Event>)
    requires
        s.wf(),
        !s.phase.is_terminal(),
        c.result < 0,
    ensures
        ({
            let end = run(s, seq![Event::Completed(c)] + later);
            &&& end.phase is Failed
            &&& end.action() == (Action::Exit { code: 1 })
            &&& s.phase is Draining && s.in_flight.contains(c.user_data as nat) ==> {
                &&& end.phase matches Phase::Failed(Failure::ReadFailed { index, offset, code })
                &&& index == c.user_data
                &&& offset == c.user_data * s.extent.chunk_size
                &&& code == c.result
            }
        }),
{
    let first = seq![Event::Completed(c)];
    assert(first =~= Seq::<Event>::empty().push(Event::Completed(c)));
    lemma_run_push(s, Seq::empty(), Event::Completed(c));
    lemma_run_concat(s, first, later);
    lemma_terminal_is_final(s.step(Event::Completed(c)), later);
    if s.phase is Draining && s.in_flight.contains(c.user_data as nat) {
        lemma_chunk_within(s.extent, c.user_data as nat);
    }
}

/// The outcome of a run does not depend on the order in which the
/// completions arrive: two runs over one extent, in which the same
/// completions arrive in two orders, submit the same number of requests,
/// both end done or both end abandoned, and tell the process to end with the
/// same status.
pub proof fn lemma_outcome_ignores_arrival_order(
    extent: ExtentView,
    first: Seq<Completion>,
    second: Seq<Completion>,
)
    requires
        extent.wf(),
        one_per_chunk(extent, first),
        one_per_chunk(extent, second),
        first.to_multiset() == second.to_multiset(),
    ensures
        ({
            let one = run(RunState::start(extent), smooth(extent, first));
            let other = run(RunState::start(extent), smooth(extent, second));
            &&& one.submitted == other.submitted
            &&& one.phase is Done <==> other.phase is Done
            &&& one.phase is Failed <==> other.phase is Failed
            &&& one.action() == other.action()
        }),
{
    lemma_smooth_run_ends(extent, first);
    lemma_smooth_run_ends(extent, second);
    if all_full(extent, first) {
        lemma_fullness_ignores_order(extent, first, second);
    }
    if all_full(extent, second) {
        lemma_fullness_ignores_order(extent, second, first);
    }
}

/// Completions that are all full stay so in another order.
proof fn lemma_fullness_ignores_order(
    extent: ExtentView,
    first: Seq<Completion>,
    second: Seq<Completion>,
)
    requires
        first.to_multiset() == second.to_multiset(),
        all_full(extent, first),
    ensures
        all_full(extent, second),
{
    assert forall|j: int| 0 <= j < second.len() implies {
        (#[trigger] second[j]).result == extent.chunk_size
    } by {
        let c = second[j];
        assert(second.contains(c));
        vstd::seq_lib::to_multiset_contains(second, c);
        vstd::seq_lib::to_multiset_contains(first, c);
        let i = choose|i: int| 0 <= i < first.len() && first[i] == c;
        assert(first[i].result == extent.chunk_size);
    }
}

} // verus!
