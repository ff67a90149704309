use bina_ecs::bimap::BiMap;
use bina_ecs::future::take_output;
use bina_ecs::future::flush_step;
use bina_ecs::future::FutureSlot;
use bina_ecs::future::PollOutcome;
use bina_ecs::future::WatchedFutureError;
use bina_ecs::gate::PhaseGate;
use bina_ecs::locking::LockTable;
use bina_ecs::locking::LockToken;
use bina_ecs::registry::UniqueTypeSet;
use bina_ecs::worker::worker_step;
use bina_ecs::worker::ExecResult;
use bina_ecs::worker::WorkerStep;

#[test]
fn gate_blocks_process_while_flush_pending() {
    let mut g = PhaseGate::new();
    assert!(g.try_enter_process());
    assert!(g.try_enter_process());
    g.request_flush();
    // a pending flush turns new entries away
    assert!(!g.try_enter_process());
    // and may not run until every holder has drained
    assert!(!g.flush_ready());
    g.exit_process();
    assert!(!g.flush_ready());
    g.exit_process();
    assert!(g.flush_ready());
    g.finish_flush();
    assert!(g.try_enter_process());
}

#[test]
fn lock_set_is_all_or_nothing() {
    let mut t = LockTable::new(4);
    let held = t.lock(LockToken::new(), 2);
    // the set overlaps a held lock: nothing is acquired
    let r = t.try_lock_set(LockToken::new(), vec![0, 2, 3]);
    assert!(r.is_err());
    assert!(!t.is_locked(0));
    assert!(!t.is_locked(1));
    assert!(t.is_locked(2));
    assert!(!t.is_locked(3));
    // releasing the conflict lets the whole set in at once
    t.unlock(held);
    let g = t.try_lock_set(LockToken::new(), vec![0, 2, 3]).ok().unwrap();
    assert!(t.is_locked(0));
    assert!(!t.is_locked(1));
    assert!(t.is_locked(2));
    assert!(t.is_locked(3));
    let _token: LockToken = t.unlock(g);
    for i in 0..4 {
        assert!(!t.is_locked(i));
    }
}

#[test]
fn worker_step_routes_results() {
    assert!(matches!(worker_step(ExecResult::Reply(7u32)), WorkerStep::Forward(7)));
    assert!(matches!(worker_step::<u32>(ExecResult::Continue), WorkerStep::KeepGoing));
    assert!(matches!(worker_step::<u32>(ExecResult::Close), WorkerStep::Stop));
}

#[test]
fn watched_future_take_transitions() {
    let (r, s) = take_output(FutureSlot::<u32>::Pending);
    assert!(matches!(r, Err(WatchedFutureError::Pending)));
    assert!(matches!(s, FutureSlot::Pending));

    let (r, s) = take_output(FutureSlot::Done(5u32));
    assert_eq!(r.unwrap(), 5);
    assert!(matches!(s, FutureSlot::Taken));

    // the result is handed out exactly once
    let (r, s) = take_output(s);
    assert!(matches!(r, Err(WatchedFutureError::Taken)));
    assert!(matches!(s, FutureSlot::Taken));

    let (r, _) = take_output(FutureSlot::<u32>::Failed);
    assert!(matches!(r, Err(WatchedFutureError::FutureFailed)));
}

#[test]
fn watched_future_flush_transitions() {
    let (s, remove) = flush_step(FutureSlot::<u32>::Pending, PollOutcome::Ready(3));
    assert!(matches!(s, FutureSlot::Done(3)));
    assert!(!remove);

    let (s, remove) = flush_step(FutureSlot::<u32>::Pending, PollOutcome::Empty);
    assert!(matches!(s, FutureSlot::Pending));
    assert!(!remove);

    let (s, remove) = flush_step(FutureSlot::<u32>::Pending, PollOutcome::Closed);
    assert!(matches!(s, FutureSlot::Failed));
    assert!(!remove);

    // a taken slot asks for its entity's removal
    let (s, remove) = flush_step(FutureSlot::<u32>::Taken, PollOutcome::Empty);
    assert!(matches!(s, FutureSlot::Taken));
    assert!(remove);
}

#[test]
fn registry_push_refuses_taken_keys() {
    let mut r: UniqueTypeSet<&str> = UniqueTypeSet::new();
    assert!(r.push(1, "first").is_ok());
    let back = r.push(1, "second");
    assert_eq!(back.err().unwrap(), "second");
    assert_eq!(*r.get(1).unwrap(), "first");
    assert!(r.get(2).is_none());
}

#[test]
fn registry_insert_replaces_wholesale() {
    let mut r: UniqueTypeSet<u32> = UniqueTypeSet::new();
    assert!(r.insert(9, 100).is_none());
    assert_eq!(r.insert(9, 200), Some(100));
    assert_eq!(*r.get(9).unwrap(), 200);
    assert_eq!(r.len(), 1);
    let inner = r.into_inner();
    assert_eq!(inner, vec![(9, 200)]);
}

#[test]
fn bimap_round_trip_and_removal() {
    let mut m = BiMap::new();
    m.reserve(2);
    assert!(!m.contains_left(10));
    m.insert(10, 0);
    m.insert(11, 1);
    assert!(m.contains_left(10));
    assert!(m.contains_right(1));
    assert_eq!(m.get_by_left(10), Some(0));
    assert_eq!(m.get_by_left(11), Some(1));
    assert_eq!(m.get_by_left(12), None);
    let removed = m.remove_by_right(0);
    assert_eq!(removed, Some((10, 0)));
    assert!(!m.contains_left(10));
    assert_eq!(m.len(), 1);
    assert!(m.remove_by_right(5).is_none());
}
