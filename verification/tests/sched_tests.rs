use chan_downloader::ScheduleStep;
use chan_downloader::WorkerPool;
use chan_downloader::minutes_to_millis;
use chan_downloader::next_step;

#[test]
fn single_shot_stops_after_its_cycle() {
    assert_eq!(next_step(false, 300000, 7200000, 15, 15), ScheduleStep::Stop);
    assert_eq!(next_step(false, 300000, 0, 1, 1), ScheduleStep::Stop);
}

#[test]
fn zero_budget_stops_after_the_first_cycle() {
    // repeating mode, but the budget is already spent at the first check
    assert_eq!(next_step(true, 300000, 0, 1, 1), ScheduleStep::Stop);
    assert_eq!(next_step(true, 300000, 0, 250, 250), ScheduleStep::Stop);
}

#[test]
fn spent_budget_stops_the_run() {
    assert_eq!(next_step(true, 300000, 7200000, 7200001, 40), ScheduleStep::Stop);
}

#[test]
fn short_cycle_sleeps_out_the_interval() {
    assert_eq!(next_step(true, 300000, 7200000, 1000, 1000), ScheduleStep::RunAfter(299000));
}

#[test]
fn long_cycle_starts_the_next_at_once() {
    assert_eq!(next_step(true, 300000, 7200000, 400000, 400000), ScheduleStep::RunNow);
    assert_eq!(next_step(true, 300000, 7200000, 300000, 300000), ScheduleStep::RunNow);
}

#[test]
fn budget_is_a_floor_not_a_cutoff() {
    // at exactly the budget the run goes on; only exceeding it stops
    assert_eq!(next_step(true, 1000, 5000, 5000, 4000), ScheduleStep::RunNow);
    assert_eq!(next_step(true, 1000, 5000, 5001, 4000), ScheduleStep::Stop);
}

#[test]
fn default_minutes_convert_to_millis() {
    assert_eq!(minutes_to_millis(5), 300000);
    assert_eq!(minutes_to_millis(120), 7200000);
    assert_eq!(minutes_to_millis(0), 0);
}

#[test]
fn pool_admits_at_most_width_workers() {
    let mut pool = WorkerPool::new(2);
    assert!(pool.try_acquire());
    assert!(pool.try_acquire());
    // full: a third worker is refused
    assert!(!pool.try_acquire());
    pool.release();
    assert!(pool.try_acquire());
    assert!(!pool.try_acquire());
    pool.release();
    pool.release();
    assert!(pool.try_acquire());
}

#[test]
fn pool_of_width_one_serializes_workers() {
    let mut pool = WorkerPool::new(1);
    assert!(pool.try_acquire());
    assert!(!pool.try_acquire());
    pool.release();
    assert!(pool.try_acquire());
}
