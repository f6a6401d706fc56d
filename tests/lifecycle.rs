use gravity_pool::clock::Clock;
use gravity_pool::error::{ConfigError, PoolError, ProtocolError};
use gravity_pool::pool::PoolLifecycle;
use gravity_pool::results::WorkDone;
use gravity_pool::stepper::Stepper;
use gravity_pool::worker::{latency_from_draw, Computer, WorkerReport, WorkerStats};

fn profile(mean: u64, std: u64, factor: u64) -> Computer {
    Computer { mean, std, work_time_increase_factor: factor }
}

#[test]
fn clock_reads_exactly_k_steps() {
    let mut clock = Clock::new(0, 60).unwrap();
    for _ in 0..1000 {
        clock.tick();
    }
    assert_eq!(clock.steps(), 1000);
    assert_eq!(clock.time(), 60_000);
    assert_eq!(clock.time_step(), 60);
}

#[test]
fn clock_counts_from_its_start() {
    let mut clock = Clock::new(100, 7).unwrap();
    assert_eq!(clock.time(), 100);
    clock.tick();
    clock.tick();
    assert_eq!(clock.time(), 114);
}

#[test]
fn clock_time_does_not_overflow() {
    let clock = Clock::new(u64::MAX, u64::MAX).unwrap();
    assert_eq!(clock.time(), u64::MAX as u128);
}

#[test]
fn zero_time_step_is_refused() {
    assert_eq!(Clock::new(0, 0).err(), Some(ConfigError::NonPositiveTimeStep));
    assert_eq!(Stepper::new(3, 0, 0).err(), Some(ConfigError::NonPositiveTimeStep));
}

#[test]
fn stepper_advances_once_per_complete_step() {
    let mut stepper = Stepper::new(2, 0, 10000).unwrap();
    let work = vec![WorkDone { body_index: 1, force: 2i64 }, WorkDone { body_index: 0, force: 1 }];
    for k in 1..=3u64 {
        assert_eq!(stepper.apply(&work), Ok(vec![1, 2]));
        assert_eq!(stepper.clock().time(), (k * 10000) as u128);
    }
    assert_eq!(stepper.body_count(), 2);
}

#[test]
fn stepper_aborts_a_step_with_missing_results() {
    let mut stepper = Stepper::new(2, 0, 60).unwrap();
    let work = vec![WorkDone { body_index: 1, force: 2i64 }];
    assert_eq!(stepper.apply(&work), Err(ProtocolError::IncompleteResultSet(0)));
    assert_eq!(stepper.clock().steps(), 0);
    assert_eq!(stepper.clock().time(), 0);
}

#[test]
fn empty_pool_is_refused() {
    let none: Vec<Computer> = vec![];
    assert_eq!(PoolLifecycle::new(&none).err(), Some(ConfigError::EmptyPoolConfiguration));
}

#[test]
fn second_shutdown_does_nothing() {
    let profiles = vec![profile(0, 1, 1000), profile(1, 2, 0)];
    let mut pool = PoolLifecycle::new(&profiles).unwrap();
    assert_eq!(pool.worker_count(), 2);
    assert!(pool.is_running());
    assert_eq!(pool.accept_job(), Ok(()));
    assert_eq!(pool.shutdown(), 2);
    assert!(!pool.is_running());
    assert_eq!(pool.shutdown(), 0);
    assert_eq!(pool.accept_job(), Err(PoolError::ShutDown));
}

#[test]
fn negative_latency_draw_is_drawn_again() {
    assert_eq!(latency_from_draw(-1), None);
    assert_eq!(latency_from_draw(i64::MIN), None);
    assert_eq!(latency_from_draw(0), Some(0));
    assert_eq!(latency_from_draw(1_500_000), Some(1_500_000));
}

#[test]
fn inflation_scales_execution_time() {
    assert_eq!(profile(0, 0, 1500).inflated_delay(2000), 3000);
    assert_eq!(profile(0, 0, 0).inflated_delay(2000), 0);
    assert_eq!(profile(0, 0, 1).inflated_delay(999), 0);
    assert_eq!(
        profile(0, 0, u64::MAX).inflated_delay(u64::MAX),
        (u64::MAX as u128) * (u64::MAX as u128) / 1000
    );
}

#[test]
fn statistics_add_up() {
    let mut stats = WorkerStats::new();
    assert!(stats.record_job(300, 1_000));
    assert!(stats.record_job(200, 4_000));
    assert_eq!(
        stats.report(3, 9_000),
        Some(WorkerReport {
            id: 3,
            lifetime_ns: 9_000,
            idle_ns: 4_000,
            busy_ns: 5_000,
            latency_us: 500,
            jobs: 2,
        })
    );
    assert_eq!(stats.report(3, 4_999), None);
}

#[test]
fn statistics_refuse_overflow() {
    let mut stats = WorkerStats::new();
    assert!(stats.record_job(0, u64::MAX));
    assert!(!stats.record_job(0, 1));
    assert_eq!(stats.jobs, 1);
    assert!(stats.record_job(1, 0));
    assert_eq!(stats.busy_ns, u64::MAX);
    assert_eq!(stats.latency_us, 1);
    assert_eq!(stats.jobs, 2);
}
