use std::cell::Cell;
use std::rc::Rc;

use sled_core::buffer::{BufferError, BufferKind, BufferStore, BufferValue};
use sled_core::driver::{Driver, DriverError, Effect, PhaseError, Time};
use sled_core::geometry::Vec2i;
use sled_core::index::SpatialIndex;
use sled_core::scheduler::Scheduler;

type Rgb8 = (u8, u8, u8);

const LINE: &str = "center: (0, 0)\ndensity: 1\n--segments--\n(0, 0) --> (10, 0)";

fn line() -> SpatialIndex<Rgb8> {
    SpatialIndex::new_from_str(LINE, (0, 0, 0)).unwrap()
}

#[test]
fn buffer_get_after_create_returns_value_unchanged() {
    let mut store = BufferStore::<Rgb8>::new();
    store
        .create(String::from("times"), BufferValue::Nanos(vec![1, 2, 3]))
        .unwrap();
    match store.get(&String::from("times"), BufferKind::Nanos).unwrap() {
        BufferValue::Nanos(v) => assert_eq!(v, &vec![1, 2, 3]),
        _ => panic!("stored kind changed"),
    }
}

#[test]
fn buffer_get_with_mismatched_kind_fails() {
    let mut store = BufferStore::<Rgb8>::new();
    store
        .create(String::from("stars"), BufferValue::Positions(vec![Vec2i::new(1, 2)]))
        .unwrap();
    assert_eq!(
        store.get(&String::from("stars"), BufferKind::Colors).unwrap_err(),
        BufferError::TypeMismatch
    );
}

#[test]
fn buffer_get_with_unknown_key_fails() {
    let store = BufferStore::<Rgb8>::new();
    assert_eq!(
        store.get(&String::from("nope"), BufferKind::Nanos).unwrap_err(),
        BufferError::MissingKey
    );
}

#[test]
fn buffer_create_duplicate_key_fails() {
    let mut store = BufferStore::<Rgb8>::new();
    store.create(String::from("k"), BufferValue::Nanos(vec![])).unwrap();
    assert_eq!(
        store.create(String::from("k"), BufferValue::Nanos(vec![9])).unwrap_err(),
        BufferError::DuplicateKey
    );
    // The original entry is untouched.
    match store.get(&String::from("k"), BufferKind::Nanos).unwrap() {
        BufferValue::Nanos(v) => assert_eq!(v.len(), 0),
        _ => panic!("stored kind changed"),
    }
}

#[test]
fn buffer_mutation_is_visible_to_later_reads() {
    let mut store = BufferStore::<Rgb8>::new();
    store.create(String::from("k"), BufferValue::Nanos(vec![5])).unwrap();
    store
        .set_value(&String::from("k"), BufferValue::Nanos(vec![6, 7]))
        .unwrap();
    match store.get(&String::from("k"), BufferKind::Nanos).unwrap() {
        BufferValue::Nanos(v) => assert_eq!(v, &vec![6, 7]),
        _ => panic!("stored kind changed"),
    }
    // The kind fixed at creation cannot change.
    assert_eq!(
        store
            .set_value(&String::from("k"), BufferValue::Colors(vec![(1, 1, 1)]))
            .unwrap_err(),
        BufferError::TypeMismatch
    );
    assert_eq!(
        store.set_value(&String::from("absent"), BufferValue::Nanos(vec![])).unwrap_err(),
        BufferError::MissingKey
    );
}

#[derive(Clone)]
struct Counters {
    startups: Rc<Cell<u32>>,
    computes: Rc<Cell<u32>>,
    draws: Rc<Cell<u32>>,
    fail_startups: Rc<Cell<u32>>,
    fail_compute_once: Rc<Cell<bool>>,
}

impl Counters {
    fn new() -> Counters {
        Counters {
            startups: Rc::new(Cell::new(0)),
            computes: Rc::new(Cell::new(0)),
            draws: Rc::new(Cell::new(0)),
            fail_startups: Rc::new(Cell::new(0)),
            fail_compute_once: Rc::new(Cell::new(false)),
        }
    }
}

struct CountingEffect {
    counters: Counters,
}

impl Effect<Rgb8> for CountingEffect {
    fn startup(
        &self,
        _index: &mut SpatialIndex<Rgb8>,
        store: &mut BufferStore<Rgb8>,
    ) -> Result<(), PhaseError> {
        let c = &self.counters;
        c.startups.set(c.startups.get() + 1);
        if c.fail_startups.get() > 0 {
            c.fail_startups.set(c.fail_startups.get() - 1);
            return Err(PhaseError::Failed(1));
        }
        let _ = store.create(String::from("ticks"), BufferValue::Nanos(vec![]));
        Ok(())
    }

    fn compute(
        &self,
        _index: &SpatialIndex<Rgb8>,
        store: &mut BufferStore<Rgb8>,
        time: &Time,
    ) -> Result<(), PhaseError> {
        let c = &self.counters;
        c.computes.set(c.computes.get() + 1);
        if c.fail_compute_once.get() {
            c.fail_compute_once.set(false);
            return Err(PhaseError::Failed(2));
        }
        let mut ticks = match store.get(&String::from("ticks"), BufferKind::Nanos) {
            Ok(BufferValue::Nanos(v)) => v.clone(),
            _ => return Err(PhaseError::Failed(3)),
        };
        ticks.push(time.elapsed_ns);
        store
            .set_value(&String::from("ticks"), BufferValue::Nanos(ticks))
            .map_err(PhaseError::Buffer)
    }

    fn draw(
        &self,
        index: &mut SpatialIndex<Rgb8>,
        _store: &BufferStore<Rgb8>,
        _time: &Time,
    ) -> Result<(), PhaseError> {
        let c = &self.counters;
        c.draws.set(c.draws.get() + 1);
        index.set_all((1, 1, 1));
        Ok(())
    }
}

fn counting_driver() -> (Driver<Rgb8, CountingEffect>, Counters) {
    let counters = Counters::new();
    let effect = CountingEffect { counters: counters.clone() };
    (Driver::new(effect), counters)
}

#[test]
fn step_before_mount_fails_fast() {
    let (mut driver, _c) = counting_driver();
    assert_eq!(driver.step().unwrap_err(), DriverError::NotMounted);
    assert_eq!(driver.colors().unwrap_err(), DriverError::NotMounted);
    assert_eq!(driver.colors_and_positions().unwrap_err(), DriverError::NotMounted);
    assert_eq!(driver.num_points().unwrap_err(), DriverError::NotMounted);
}

#[test]
fn mount_twice_fails() {
    let (mut driver, _c) = counting_driver();
    driver.mount(line()).unwrap();
    assert_eq!(driver.mount(line()).unwrap_err(), DriverError::AlreadyMounted);
}

#[test]
fn startup_runs_exactly_once_across_many_steps() {
    let (mut driver, c) = counting_driver();
    driver.mount(line()).unwrap();
    for _ in 0..5 {
        driver.step().unwrap();
    }
    assert_eq!(c.startups.get(), 1);
    assert_eq!(c.computes.get(), 5);
    assert_eq!(c.draws.get(), 5);
}

#[test]
fn failed_startup_is_retried_and_then_succeeds_once() {
    let (mut driver, c) = counting_driver();
    c.fail_startups.set(2);
    driver.mount(line()).unwrap();
    // Two failing startup attempts: the driver stays mounted, not running,
    // and no compute or draw runs.
    assert_eq!(driver.step().unwrap_err(), DriverError::Phase(PhaseError::Failed(1)));
    assert_eq!(driver.step().unwrap_err(), DriverError::Phase(PhaseError::Failed(1)));
    // Third attempt succeeds; compute and draw run from then on.
    driver.step().unwrap();
    driver.step().unwrap();
    assert_eq!(c.startups.get(), 3);
    assert_eq!(c.computes.get(), 2);
    assert_eq!(c.draws.get(), 2);
}

#[test]
fn failed_compute_skips_draw_and_keeps_colors() {
    let (mut driver, c) = counting_driver();
    driver.mount(line()).unwrap();
    driver.step().unwrap();
    assert_eq!(driver.colors().unwrap()[0], (1, 1, 1));
    c.fail_compute_once.set(true);
    assert_eq!(driver.step().unwrap_err(), DriverError::Phase(PhaseError::Failed(2)));
    // Draw was skipped on the failing tick: still only one draw ran, and the
    // color buffer retains its previous contents.
    assert_eq!(c.draws.get(), 1);
    assert_eq!(driver.colors().unwrap()[0], (1, 1, 1));
}

#[test]
fn pair_count_equals_num_points_before_and_after_every_step() {
    let (mut driver, _c) = counting_driver();
    driver.mount(line()).unwrap();
    assert_eq!(driver.colors_and_positions().unwrap().len(), driver.num_points().unwrap());
    for _ in 0..3 {
        driver.step().unwrap();
        assert_eq!(driver.colors_and_positions().unwrap().len(), driver.num_points().unwrap());
    }
}

#[test]
fn scheduler_derives_target_duration() {
    let s = Scheduler::new(60);
    assert_eq!(s.target_duration_ns(), 16_666_666);
    let s = Scheduler::new(500);
    assert_eq!(s.target_duration_ns(), 2_000_000);
}

#[test]
fn scheduler_sleep_fills_up_to_target_and_never_below_zero() {
    let s = Scheduler::new(500);
    assert_eq!(s.sleep_nanos(500_000), 1_500_000);
    assert_eq!(s.sleep_nanos(2_000_000), 0);
    assert_eq!(s.sleep_nanos(9_000_000), 0);
}

#[test]
fn paced_ticks_average_exactly_the_target_interval() {
    let s = Scheduler::new(250);
    let target = s.target_duration_ns();
    let mut total: u64 = 0;
    let n: u64 = 100;
    for k in 0..n {
        // Simulated work well under the tick budget.
        let work = (k * 13) % (target / 2);
        total += work + s.sleep_nanos(work);
    }
    assert_eq!(total, n * target);
}
