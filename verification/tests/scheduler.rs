use multi_read::extent::FileExtent;
use multi_read::protocol::{Action, Completion, Event, Failure, Phase, ReadRequest, Setup};
use multi_read::scheduler::Scheduler;

fn scheduler(total_size: u64, chunk_size: u64) -> Scheduler {
    Scheduler::new(FileExtent::new(total_size, chunk_size).unwrap())
}

/// Reports the preparation as complete and every request as taken.
fn submit_all(mut s: Scheduler) -> Scheduler {
    s = s.step(Event::Ready);
    while s.phase() == Phase::Submitting {
        s = s.step(Event::Submitted);
    }
    s
}

fn completed(user_data: u64, result: i32) -> Event {
    Event::Completed(Completion { user_data, result })
}

#[test]
fn run_starts_in_init_and_asks_for_the_preparation() {
    let s = scheduler(4096, 1024);
    assert_eq!(s.phase(), Phase::Init);
    assert_eq!(s.submitted(), 0);
    assert_eq!(s.reaped(), 0);
    assert_eq!(s.action(), Action::Prepare { capacity: 4, buffer_len: 1024 });
    assert_eq!(s.extent().total_size(), 4096);
}

#[test]
fn ten_gib_run_reaps_20480_full_completions_and_exits_zero() {
    let mut s = scheduler(10 * 1024 * 1024 * 1024, 512 * 1024);
    assert_eq!(s.action(), Action::Prepare { capacity: 20480, buffer_len: 524_288 });
    s = s.step(Event::Ready);
    let mut asked: u64 = 0;
    while let Action::Submit(request) = s.action() {
        assert_eq!(request.index as u64, asked);
        assert_eq!(request.offset, asked * 524_288);
        assert_eq!(request.len, 524_288);
        s = s.step(Event::Submitted);
        asked += 1;
    }
    assert_eq!(asked, 20480);
    assert_eq!(s.submitted(), 20480);
    assert_eq!(s.phase(), Phase::Draining);
    let mut reaped: u64 = 0;
    while s.action() == Action::WaitOne {
        s = s.step(completed(reaped, 524_288));
        reaped += 1;
    }
    assert_eq!(reaped, 20480);
    assert_eq!(s.reaped(), 20480);
    assert_eq!(s.phase(), Phase::Done);
    assert_eq!(s.action(), Action::Exit { code: 0 });
}

#[test]
fn requests_are_asked_for_in_ascending_offsets() {
    let mut s = scheduler(5 * 300, 300).step(Event::Ready);
    let mut offsets = Vec::new();
    while let Action::Submit(request) = s.action() {
        offsets.push(request.offset);
        s = s.step(Event::Submitted);
    }
    assert_eq!(offsets, vec![0, 300, 600, 900, 1200]);
}

#[test]
fn submit_action_names_the_next_chunk() {
    let s = scheduler(3072, 1024).step(Event::Ready).step(Event::Submitted);
    assert_eq!(s.phase(), Phase::Submitting);
    assert_eq!(s.submitted(), 1);
    assert_eq!(s.action(), Action::Submit(ReadRequest { index: 1, offset: 1024, len: 1024 }));
}

#[test]
fn completions_may_arrive_in_any_order() {
    let mut s = submit_all(scheduler(4 * 512, 512));
    for id in [2u64, 0, 3, 1] {
        assert_eq!(s.action(), Action::WaitOne);
        s = s.step(completed(id, 512));
    }
    assert_eq!(s.phase(), Phase::Done);
    assert_eq!(s.reaped(), 4);
    assert_eq!(s.action(), Action::Exit { code: 0 });
}

#[test]
fn outcome_is_the_same_for_two_arrival_orders() {
    let results = [512, 512, -5, 512];
    let mut outcomes = Vec::new();
    for order in [[0u64, 1, 2, 3], [3, 1, 0, 2]] {
        let mut s = submit_all(scheduler(4 * 512, 512));
        for id in order {
            s = s.step(completed(id, results[id as usize]));
        }
        outcomes.push(s.action());
    }
    assert_eq!(outcomes, vec![Action::Exit { code: 1 }, Action::Exit { code: 1 }]);
}

#[test]
fn in_flight_follows_submission_and_completion() {
    let mut s = scheduler(3 * 64, 64).step(Event::Ready);
    assert!(!s.is_in_flight(0));
    s = s.step(Event::Submitted);
    assert!(s.is_in_flight(0));
    assert!(!s.is_in_flight(1));
    s = s.step(Event::Submitted).step(Event::Submitted);
    assert!(s.is_in_flight(1) && s.is_in_flight(2));
    assert!(!s.is_in_flight(3));
    s = s.step(completed(1, 64));
    assert!(s.is_in_flight(0) && !s.is_in_flight(1) && s.is_in_flight(2));
    assert_eq!(s.reaped(), 1);
}

#[test]
fn negative_result_abandons_the_run_with_the_offset_of_the_chunk() {
    let mut s = submit_all(scheduler(10 * 1024 * 1024 * 1024, 512 * 1024));
    s = s.step(completed(0, 524_288));
    s = s.step(completed(7, -5));
    assert_eq!(
        s.phase(),
        Phase::Failed(Failure::ReadFailed { index: 7, offset: 7 * 524_288, code: -5 })
    );
    assert_eq!(s.action(), Action::Exit { code: 1 });
    assert_eq!(s.reaped(), 1);
}

#[test]
fn short_read_abandons_the_run() {
    let s = submit_all(scheduler(2048, 1024)).step(completed(1, 1000));
    assert_eq!(
        s.phase(),
        Phase::Failed(Failure::ShortRead { index: 1, offset: 1024, bytes: 1000 })
    );
    let s = submit_all(scheduler(2048, 1024)).step(completed(0, 0));
    assert_eq!(s.phase(), Phase::Failed(Failure::ShortRead { index: 0, offset: 0, bytes: 0 }));
    assert_eq!(s.action(), Action::Exit { code: 1 });
}

#[test]
fn more_bytes_than_asked_abandons_the_run() {
    let s = submit_all(scheduler(2048, 1024)).step(completed(1, 1025));
    assert_eq!(
        s.phase(),
        Phase::Failed(Failure::Overrun { index: 1, offset: 1024, bytes: 1025 })
    );
}

#[test]
fn completion_of_no_request_in_flight_abandons_the_run() {
    let s = submit_all(scheduler(2048, 1024)).step(completed(2, 1024));
    assert_eq!(s.phase(), Phase::Failed(Failure::UnknownRequest { user_data: 2 }));
    let s = submit_all(scheduler(2048, 1024)).step(completed(u64::MAX, -1));
    assert_eq!(s.phase(), Phase::Failed(Failure::UnknownRequest { user_data: u64::MAX }));
}

#[test]
fn second_completion_of_one_request_abandons_the_run() {
    let s = submit_all(scheduler(3072, 1024)).step(completed(1, 1024)).step(completed(1, 1024));
    assert_eq!(s.phase(), Phase::Failed(Failure::UnknownRequest { user_data: 1 }));
    assert_eq!(s.reaped(), 1);
}

#[test]
fn refused_ring_abandons_the_run_before_any_submission() {
    let s = scheduler(2048, 1024).step(Event::SetupFailed { step: Setup::Ring, code: 22 });
    assert_eq!(s.phase(), Phase::Failed(Failure::Setup { step: Setup::Ring, code: 22 }));
    assert_eq!(s.submitted(), 0);
    assert_eq!(s.action(), Action::Exit { code: 1 });
}

#[test]
fn failed_cache_drop_or_missing_file_abandons_the_run() {
    for step in [Setup::CacheDrop, Setup::TargetFile] {
        let s = scheduler(2048, 1024).step(Event::SetupFailed { step, code: 13 });
        assert_eq!(s.phase(), Phase::Failed(Failure::Setup { step, code: 13 }));
        assert_eq!(s.action(), Action::Exit { code: 1 });
    }
}

#[test]
fn full_queue_abandons_the_run_at_the_request_refused() {
    let s = scheduler(3072, 1024)
        .step(Event::Ready)
        .step(Event::Submitted)
        .step(Event::QueueFull);
    assert_eq!(s.phase(), Phase::Failed(Failure::QueueFull { index: 1, offset: 1024 }));
    assert_eq!(s.submitted(), 1);
}

#[test]
fn failed_flush_abandons_the_run() {
    let s = scheduler(3072, 1024).step(Event::Ready).step(Event::FlushFailed { code: 16 });
    assert_eq!(
        s.phase(),
        Phase::Failed(Failure::FlushFailed { index: 0, offset: 0, code: 16 })
    );
}

#[test]
fn failed_wait_abandons_the_run() {
    let s = submit_all(scheduler(2048, 1024)).step(Event::WaitFailed { code: 4 });
    assert_eq!(s.phase(), Phase::Failed(Failure::WaitFailed { code: 4 }));
}

#[test]
fn event_out_of_turn_abandons_the_run() {
    let s = scheduler(2048, 1024).step(Event::Submitted);
    assert_eq!(s.phase(), Phase::Failed(Failure::OutOfTurn));
    let s = scheduler(2048, 1024).step(Event::Ready).step(completed(0, 1024));
    assert_eq!(s.phase(), Phase::Failed(Failure::OutOfTurn));
    let s = submit_all(scheduler(2048, 1024)).step(Event::Submitted);
    assert_eq!(s.phase(), Phase::Failed(Failure::OutOfTurn));
    let s = submit_all(scheduler(2048, 1024)).step(Event::Ready);
    assert_eq!(s.phase(), Phase::Failed(Failure::OutOfTurn));
}

#[test]
fn finished_run_ignores_further_events() {
    let mut s = submit_all(scheduler(1024, 1024)).step(completed(0, 1024));
    assert_eq!(s.phase(), Phase::Done);
    for event in [completed(0, -1), Event::Submitted, Event::WaitFailed { code: 1 }] {
        s = s.step(event);
        assert_eq!(s.phase(), Phase::Done);
        assert_eq!(s.reaped(), 1);
    }
}

#[test]
fn abandoned_run_ignores_further_events() {
    let failed = Phase::Failed(Failure::ReadFailed { index: 0, offset: 0, code: -9 });
    let mut s = submit_all(scheduler(2048, 1024)).step(completed(0, -9));
    assert_eq!(s.phase(), failed);
    for event in [completed(1, 1024), Event::Ready, Event::QueueFull] {
        s = s.step(event);
        assert_eq!(s.phase(), failed);
    }
    assert!(s.is_in_flight(0) && s.is_in_flight(1));
}

#[test]
fn run_over_an_empty_file_is_done_once_it_is_prepared() {
    let s = scheduler(0, 4096);
    assert_eq!(s.action(), Action::Prepare { capacity: 0, buffer_len: 4096 });
    let s = s.step(Event::Ready);
    assert_eq!(s.phase(), Phase::Done);
    assert_eq!(s.action(), Action::Exit { code: 0 });
}

#[test]
fn fault_names_what_is_wrong_with_a_completion() {
    let s = submit_all(scheduler(2048, 1024));
    assert_eq!(s.fault(&Completion { user_data: 0, result: 1024 }), None);
    assert_eq!(
        s.fault(&Completion { user_data: 1, result: -14 }),
        Some(Failure::ReadFailed { index: 1, offset: 1024, code: -14 })
    );
    assert_eq!(
        s.fault(&Completion { user_data: 1, result: 1023 }),
        Some(Failure::ShortRead { index: 1, offset: 1024, bytes: 1023 })
    );
    assert_eq!(
        s.fault(&Completion { user_data: 0, result: i32::MAX }),
        Some(Failure::Overrun { index: 0, offset: 0, bytes: i32::MAX as u32 })
    );
    assert_eq!(
        s.fault(&Completion { user_data: 2, result: 1024 }),
        Some(Failure::UnknownRequest { user_data: 2 })
    );
}

#[test]
fn chunk_larger_than_any_result_can_only_read_short() {
    let chunk = u32::MAX as u64;
    let s = submit_all(scheduler(chunk, chunk)).step(completed(0, i32::MAX));
    assert_eq!(
        s.phase(),
        Phase::Failed(Failure::ShortRead { index: 0, offset: 0, bytes: i32::MAX as u32 })
    );
}

#[test]
fn requests_in_flight_never_exceed_the_capacity_asked_for() {
    let mut s = scheduler(6 * 128, 128);
    let capacity = match s.action() {
        Action::Prepare { capacity, .. } => capacity,
        other => panic!("unexpected action {:?}", other),
    };
    assert_eq!(capacity, 6);
    s = s.step(Event::Ready);
    while let Action::Submit(_) = s.action() {
        let in_flight = (0..capacity).filter(|i| s.is_in_flight(*i)).count();
        assert!(in_flight < capacity as usize);
        s = s.step(Event::Submitted);
    }
    let in_flight = (0..capacity).filter(|i| s.is_in_flight(*i)).count();
    assert_eq!(in_flight, 6);
}

#[test]
fn run_ends_after_one_event_for_the_preparation_and_two_per_chunk() {
    let scripts: [[Event; 7]; 3] = [
        [
            Event::Ready,
            Event::Submitted,
            Event::Submitted,
            Event::Submitted,
            completed(2, 256),
            completed(1, 256),
            completed(0, 256),
        ],
        [
            Event::Ready,
            Event::Submitted,
            Event::Submitted,
            Event::Submitted,
            completed(0, 256),
            completed(0, 256),
            completed(1, 256),
        ],
        [Event::Submitted; 7],
    ];
    for script in scripts {
        let mut s = scheduler(3 * 256, 256);
        for event in script {
            s = s.step(event);
        }
        assert!(matches!(s.action(), Action::Exit { .. }));
    }
}
