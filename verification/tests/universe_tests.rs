use std::cell::Cell;

use bina_ecs::buffer::EntityIndex;
use bina_ecs::entity::Entity;
use bina_ecs::registry::UniqueTypeSet;
use bina_ecs::universe::DeltaStrategy;
use bina_ecs::universe::Effects;
use bina_ecs::universe::LoopCount;
use bina_ecs::universe::Singleton;
use bina_ecs::universe::StillDriver;
use bina_ecs::universe::TickDriver;
use bina_ecs::universe::Universe;

struct Probe {
    processed: Cell<u64>,
    last_delta: Cell<u64>,
    all_deltas_were: Cell<bool>,
    expect_delta: u64,
    exit_now: Cell<bool>,
    add_each_tick: bool,
}

impl Probe {
    fn new() -> Probe {
        Probe {
            processed: Cell::new(0),
            last_delta: Cell::new(0),
            all_deltas_were: Cell::new(true),
            expect_delta: 0,
            exit_now: Cell::new(false),
            add_each_tick: false,
        }
    }

    fn expecting(d: u64) -> Probe {
        let p = Probe::new();
        Probe { expect_delta: d, ..p }
    }
}

struct NoSing;

impl Entity<NoSing, String> for Probe {
    fn process(&self, _ix: usize, _s: &UniqueTypeSet<NoSing>, fx: &mut Effects<Self, NoSing, String>) {
        self.processed.set(self.processed.get() + 1);
        self.last_delta.set(fx.get_delta());
        if fx.get_delta() != self.expect_delta {
            self.all_deltas_were.set(false);
        }
        if self.add_each_tick {
            fx.queue_add_entity(Probe::new());
        }
        if self.exit_now.get() {
            fx.exit_ok();
        }
    }

    fn flush(&mut self) {
    }
}

impl Singleton<Probe, String> for NoSing {
    fn process(&self, _fx: &mut Effects<Probe, Self, String>) {
    }

    fn flush(&mut self) {
    }
}

#[test]
fn fixed_delta_tick_count() {
    // loop_many(Count(n), FakeDelta(d)) runs process+flush exactly n
    // times, and every process call sees delta d
    let d: u64 = 16_666_667;
    let mut u: Universe<Probe, NoSing> = Universe::new();
    u.queue_add_entity(Probe::expecting(d));
    let first: Option<Result<(), String>> = u.loop_once();
    assert!(first.is_none());
    assert_eq!(u.tick_count(), 1);
    assert_eq!(u.entities_len(), 1);

    let n: usize = 5;
    let mut driver = StillDriver {};
    let r = u.loop_many(LoopCount::Count(n), DeltaStrategy::FakeDelta(d), &mut driver);
    assert!(r.is_none());
    assert_eq!(u.tick_count(), 1 + n as u64);
    assert_eq!(u.get_delta(), d);
    let p = u.entity_at(0);
    assert_eq!(p.processed.get(), n as u64);
    assert!(p.all_deltas_were.get());
}

#[test]
fn exit_short_circuits_flush() {
    // an exit requested during process skips flush: nothing staged that
    // tick is applied, and the universe is exactly as it was
    let mut u: Universe<Probe, NoSing> = Universe::new();
    let p = Probe::new();
    let probe = Probe { add_each_tick: true, ..p };
    u.queue_add_entity(probe);
    assert!(u.loop_once::<String>().is_none());
    assert_eq!(u.entities_len(), 1);

    // normal tick: the staged addition lands
    assert!(u.loop_once::<String>().is_none());
    assert_eq!(u.entities_len(), 2);
    let ticks = u.tick_count();

    // exit tick: the staged additions are discarded with the tick
    u.entity_at(0).exit_now.set(true);
    let r = u.loop_once::<String>();
    assert!(matches!(r, Some(Ok(()))));
    assert_eq!(u.entities_len(), 2);
    assert_eq!(u.tick_count(), ticks);

    // the discarded additions do not reappear at the next flush
    u.entity_at(0).exit_now.set(false);
    assert!(u.loop_once::<String>().is_none());
    assert_eq!(u.entities_len(), 3);
}

#[test]
fn exit_err_surfaces_to_the_caller() {
    struct Failing;
    struct FailSing;
    impl Entity<FailSing, String> for Failing {
        fn process(&self, _ix: usize, _s: &UniqueTypeSet<FailSing>, fx: &mut Effects<Self, FailSing, String>) {
            fx.exit_err(String::from("boom"));
        }

        fn flush(&mut self) {
        }
    }
    impl Singleton<Failing, String> for FailSing {
        fn process(&self, _fx: &mut Effects<Failing, Self, String>) {
        }

        fn flush(&mut self) {
        }
    }
    let mut u: Universe<Failing, FailSing> = Universe::new();
    u.queue_add_entity(Failing);
    assert!(u.loop_once::<String>().is_none());
    let r = u.loop_once::<String>();
    match r {
        Some(Err(e)) => assert_eq!(e, "boom"),
        _ => panic!("the exit error should surface unchanged"),
    }
}

#[test]
fn singleton_visible_after_tick_boundary() {
    struct Score(u64);
    struct Quiet;
    impl Entity<Score, String> for Quiet {
        fn process(&self, _ix: usize, _s: &UniqueTypeSet<Score>, _fx: &mut Effects<Self, Score, String>) {
        }

        fn flush(&mut self) {
        }
    }
    impl Singleton<Quiet, String> for Score {
        fn process(&self, _fx: &mut Effects<Quiet, Self, String>) {
        }

        fn flush(&mut self) {
        }
    }
    let mut u: Universe<Quiet, Score> = Universe::new();
    u.queue_set_singleton(7, Score(5));
    assert!(u.try_get_singleton(7).is_none());
    assert!(u.loop_once::<String>().is_none());
    assert_eq!(u.try_get_singleton(7).unwrap().0, 5);
    // replacement is wholesale, never a merge
    u.queue_set_singleton(7, Score(9));
    assert_eq!(u.try_get_singleton(7).unwrap().0, 5);
    assert!(u.loop_once::<String>().is_none());
    assert_eq!(u.get_singleton(7).0, 9);
}

#[test]
fn universe_remove_entity() {
    let mut u: Universe<Probe, NoSing> = Universe::new();
    u.queue_add_entity(Probe::new());
    u.queue_add_entity(Probe::new());
    assert!(u.loop_once::<String>().is_none());
    assert_eq!(u.entities_len(), 2);
    u.queue_remove_entity(0);
    assert!(u.loop_once::<String>().is_none());
    assert_eq!(u.entities_len(), 1);
    assert!(u.entity_cell(0) == EntityIndex::Freed);
    assert!(u.entity_cell(1) == EntityIndex::Alive(0));
}

#[test]
fn empty_universe_tick_completes() {
    // with nothing registered, no user code can request an exit: the
    // tick completes and counts
    let mut u: Universe<Probe, NoSing> = Universe::new();
    assert!(u.loop_once::<String>().is_none());
    assert!(u.loop_once::<String>().is_none());
    assert_eq!(u.tick_count(), 2);
}

#[test]
fn singleton_can_stage_entities() {
    struct Spawned;
    struct Spawner;
    impl Entity<Spawner, String> for Spawned {
        fn process(&self, _ix: usize, _s: &UniqueTypeSet<Spawner>, _fx: &mut Effects<Self, Spawner, String>) {
        }

        fn flush(&mut self) {
        }
    }
    impl Singleton<Spawned, String> for Spawner {
        fn process(&self, fx: &mut Effects<Spawned, Self, String>) {
            fx.queue_add_entity(Spawned);
        }

        fn flush(&mut self) {
        }
    }
    let mut u: Universe<Spawned, Spawner> = Universe::new();
    u.queue_set_singleton(1, Spawner);
    // the singleton is registered at the first tick's boundary and
    // spawns one entity per tick from then on
    assert!(u.loop_once::<String>().is_none());
    assert_eq!(u.entities_len(), 0);
    assert!(u.loop_once::<String>().is_none());
    assert_eq!(u.entities_len(), 1);
    assert!(u.loop_once::<String>().is_none());
    assert_eq!(u.entities_len(), 2);
}

struct ScriptDriver {
    times: Vec<u64>,
    at: usize,
    sleeps: Vec<u64>,
}

impl TickDriver for ScriptDriver {
    fn elapsed_nanos(&mut self) -> u64 {
        let t = self.times[self.at];
        self.at += 1;
        t
    }

    fn sleep_nanos(&mut self, nanos: u64) {
        self.sleeps.push(nanos);
    }
}

#[test]
fn measured_delta_tracks_the_clock() {
    // each tick's delta spans from the previous tick's start, sleep
    // included, so the target rate holds without drift
    let mut u: Universe<Probe, NoSing> = Universe::new();
    u.queue_add_entity(Probe::new());
    let mut driver = ScriptDriver { times: vec![0, 600, 1000, 1600, 2000], at: 0, sleeps: Vec::new() };
    let r: Option<Result<(), String>> = u.loop_many(
        LoopCount::Count(2),
        DeltaStrategy::RealDelta(1000),
        &mut driver,
    );
    assert!(r.is_none());
    assert_eq!(u.get_delta(), 1000);
    assert_eq!(driver.sleeps, vec![400, 400]);
}
