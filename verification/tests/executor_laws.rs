//! Scenarios at fixed times, and concrete instances of the executor's laws.
use open_parallel::{DeadlineExecutor, Instant, RuntimePhase};

fn at(secs: u64) -> Instant {
    Instant::from_nanos(secs * 1_000_000_000)
}

#[test]
fn spawn_at_rejects_deadline_equal_to_now() {
    let mut ex = DeadlineExecutor::new(2);
    assert!(ex.spawn_with_deadline_at("x", at(10), at(10)).is_none());
    assert_eq!(ex.check_budget().deadline_misses, 1);
    assert_eq!(ex.total_spawned(), 1);
    assert_eq!(ex.active_count(), 0);
}

#[test]
fn spawn_at_assigns_sequential_ids_and_records_times() {
    let mut ex = DeadlineExecutor::new(1);
    let h0 = ex.spawn_with_deadline_at("a", at(20), at(10)).unwrap();
    assert!(ex.spawn_with_deadline_at("late", at(5), at(10)).is_none());
    let h2 = ex.spawn_with_deadline_at("b", at(30), at(11)).unwrap();
    assert_eq!(h0.task_id, 0);
    assert_eq!(h2.task_id, 2);
    assert_eq!(h0.deadline, at(20));
    assert_eq!(h2.spawned_at, at(11));
    assert!(!h2.completed && !h2.missed_deadline);
    assert_eq!(ex.active_count(), 1);
    assert_eq!(ex.pending_count(), 1);
}

#[test]
fn tick_at_expires_and_promotes_in_fifo_order() {
    let mut ex = DeadlineExecutor::new(2);
    let a = ex.spawn_with_deadline_at("a", at(15), at(0)).unwrap();
    let _b = ex.spawn_with_deadline_at("b", at(100), at(0)).unwrap();
    let _c = ex.spawn_with_deadline_at("c", at(12), at(0)).unwrap();
    let d = ex.spawn_with_deadline_at("d", at(100), at(0)).unwrap();
    let _e = ex.spawn_with_deadline_at("e", at(100), at(0)).unwrap();
    assert_eq!(ex.pending_count(), 3);
    // at time 13: a (active) is live, c (queued) expired
    let expired = ex.tick_at(at(13));
    assert_eq!(expired, 1);
    assert_eq!(ex.active_count(), 2);
    assert_eq!(ex.pending_count(), 2);
    // at time 16: a expires, d (oldest live queued) is promoted
    let expired = ex.tick_at(at(16));
    assert_eq!(expired, 1);
    assert_eq!(ex.active_count(), 2);
    assert_eq!(ex.pending_count(), 1);
    assert_eq!(ex.check_budget().deadline_misses, 2);
    // a is gone: completing it finds nothing; d is active now
    assert!(!ex.complete_at(a.task_id, at(16)));
    assert!(ex.complete_at(d.task_id, at(17)));
    assert_eq!(ex.check_budget().completed, 1);
}

#[test]
fn tick_at_twice_is_idempotent() {
    let mut ex = DeadlineExecutor::new(1);
    ex.spawn_with_deadline_at("a", at(5), at(0));
    ex.spawn_with_deadline_at("b", at(50), at(0));
    ex.spawn_with_deadline_at("c", at(50), at(0));
    assert_eq!(ex.tick_at(at(10)), 1);
    let (active, pending, misses) = (ex.active_count(), ex.pending_count(), ex.check_budget().deadline_misses);
    assert_eq!(ex.tick_at(at(10)), 0);
    assert_eq!(ex.active_count(), active);
    assert_eq!(ex.pending_count(), pending);
    assert_eq!(ex.check_budget().deadline_misses, misses);
}

#[test]
fn complete_at_late_active_task_is_not_counted() {
    let mut ex = DeadlineExecutor::new(2);
    let h = ex.spawn_with_deadline_at("a", at(10), at(0)).unwrap();
    assert!(ex.complete_at(h.task_id, at(10)));
    assert_eq!(ex.check_budget().completed, 0);
    assert_eq!(ex.active_count(), 0);
    // completing twice finds nothing the second time
    assert!(!ex.complete_at(h.task_id, at(1)));
}

#[test]
fn complete_at_queued_task_counts_and_frees_queue() {
    let mut ex = DeadlineExecutor::new(1);
    ex.spawn_with_deadline_at("a", at(10), at(0));
    let h = ex.spawn_with_deadline_at("b", at(10), at(0)).unwrap();
    assert!(ex.complete_at(h.task_id, at(20)));
    assert_eq!(ex.check_budget().completed, 1);
    assert_eq!(ex.pending_count(), 0);
    assert_eq!(ex.active_count(), 1);
}

#[test]
fn budget_never_exceeded_and_report_balances() {
    let mut ex = DeadlineExecutor::new(3);
    for i in 0..10u64 {
        ex.spawn_with_deadline_at("t", at(100 + i), at(i));
        let r = ex.check_budget();
        assert!(r.active_count <= r.max_budget);
        assert_eq!(r.remaining + r.active_count, r.max_budget);
    }
    assert_eq!(ex.active_count(), 3);
    assert_eq!(ex.pending_count(), 7);
    // nothing has room: a tick promotes nothing
    assert_eq!(ex.tick_at(at(50)), 0);
    assert_eq!(ex.pending_count(), 7);
}

#[test]
fn zero_budget_queues_everything() {
    let mut ex = DeadlineExecutor::new(0);
    assert!(ex.is_exhausted());
    assert!(ex.spawn_with_deadline_at("a", at(10), at(0)).is_some());
    assert_eq!(ex.active_count(), 0);
    assert_eq!(ex.pending_count(), 1);
    assert_eq!(ex.check_budget().remaining, 0);
}

#[test]
fn instant_arithmetic_saturates() {
    assert_eq!(at(5).saturating_sub_secs(10), Instant::from_nanos(0));
    assert_eq!(at(5).saturating_add_secs(2), at(7));
    assert_eq!(Instant::from_nanos(u64::MAX - 1).saturating_add_secs(1), Instant::from_nanos(u64::MAX));
    assert_eq!(at(3).as_nanos(), 3_000_000_000);
    assert!(Instant::now().as_nanos() > 0);
}

#[test]
fn phase_labels_and_descriptions() {
    assert_eq!(RuntimePhase::Nominal.label(), "Nominal");
    assert_eq!(RuntimePhase::PreTransition.label(), "PreTransition");
    assert_eq!(RuntimePhase::Transitioning.label(), "Transitioning");
    assert_eq!(RuntimePhase::Recovered.label(), "Recovered");
    assert_eq!(
        RuntimePhase::Nominal.description(),
        "Runtime is operating normally. No anomalous task patterns detected."
    );
    assert!(RuntimePhase::Recovered.description().starts_with("Recovered: System has stabilized"));
}

#[test]
fn complete_right_after_spawn_restores_queues() {
    let mut ex = DeadlineExecutor::new(1);
    ex.spawn_with_deadline_at("a", at(50), at(0));
    let (active, pending) = (ex.active_count(), ex.pending_count());
    let h = ex.spawn_with_deadline_at("b", at(50), at(1)).unwrap();
    assert_eq!(ex.pending_count(), pending + 1);
    assert!(ex.complete_at(h.task_id, at(2)));
    assert_eq!(ex.active_count(), active);
    assert_eq!(ex.pending_count(), pending);
    assert_eq!(ex.total_spawned(), 2);
}

#[test]
fn clock_readings_convert_with_saturation() {
    assert_eq!(Instant::from_clock_reading(None), Instant::from_nanos(0));
    assert_eq!(Instant::from_clock_reading(Some(42)), Instant::from_nanos(42));
    assert_eq!(Instant::from_clock_reading(Some(u64::MAX as u128)), Instant::from_nanos(u64::MAX));
    assert_eq!(Instant::from_clock_reading(Some(u64::MAX as u128 + 1)), Instant::from_nanos(u64::MAX));
}
