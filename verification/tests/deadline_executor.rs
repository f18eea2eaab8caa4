use open_parallel::{DeadlineExecutor, Instant};

#[test]
fn test_new_executor_has_full_budget() {
    let executor = DeadlineExecutor::new(4);
    assert_eq!(executor.budget(), 4);
    let report = executor.check_budget();
    assert_eq!(report.remaining, 4);
    assert_eq!(report.active_count, 0);
}

#[test]
fn test_spawn_within_budget() {
    let mut executor = DeadlineExecutor::new(2);
    let deadline = Instant::now().saturating_add_secs(60);
    let handle = executor.spawn_with_deadline("task1", deadline);
    assert!(handle.is_some());
    assert_eq!(executor.active_count(), 1);
    assert_eq!(executor.check_budget().remaining, 1);
}

#[test]
fn test_spawn_fills_budget() {
    let mut executor = DeadlineExecutor::new(2);
    let deadline = Instant::now().saturating_add_secs(60);
    let h1 = executor.spawn_with_deadline("task1", deadline);
    let h2 = executor.spawn_with_deadline("task2", deadline);
    assert!(h1.is_some());
    assert!(h2.is_some());
    assert!(executor.is_exhausted());
    assert_eq!(executor.pending_count(), 0);
}

#[test]
fn test_spawn_queues_when_exhausted() {
    let mut executor = DeadlineExecutor::new(1);
    let deadline = Instant::now().saturating_add_secs(60);
    executor.spawn_with_deadline("task1", deadline);
    let h2 = executor.spawn_with_deadline("task2", deadline);
    assert!(h2.is_some());
    assert!(executor.is_exhausted());
    assert_eq!(executor.pending_count(), 1);
}

#[test]
fn test_reject_past_deadline() {
    let mut executor = DeadlineExecutor::new(4);
    let past_deadline = Instant::now().saturating_sub_secs(1);
    let handle = executor.spawn_with_deadline("late_task", past_deadline);
    assert!(handle.is_none());
    assert_eq!(executor.check_budget().deadline_misses, 1);
}

#[test]
fn test_complete_frees_budget() {
    let mut executor = DeadlineExecutor::new(1);
    let deadline = Instant::now().saturating_add_secs(60);
    let h = executor.spawn_with_deadline("task1", deadline).unwrap();
    assert!(executor.is_exhausted());

    let completed = executor.complete(h.task_id);
    assert!(completed);
    assert!(!executor.is_exhausted());
    assert_eq!(executor.check_budget().remaining, 1);
}

#[test]
fn test_tick_promotes_pending() {
    let mut executor = DeadlineExecutor::new(1);
    let deadline = Instant::now().saturating_add_secs(60);
    let h1 = executor.spawn_with_deadline("task1", deadline).unwrap();
    executor.spawn_with_deadline("task2", deadline);
    assert_eq!(executor.pending_count(), 1);

    executor.complete(h1.task_id);
    executor.tick();

    assert_eq!(executor.active_count(), 1);
    assert_eq!(executor.pending_count(), 0);
}

#[test]
fn test_budget_report_accuracy() {
    let mut executor = DeadlineExecutor::new(3);
    let deadline = Instant::now().saturating_add_secs(60);
    executor.spawn_with_deadline("a", deadline);
    executor.spawn_with_deadline("b", deadline);

    let report = executor.check_budget();
    assert_eq!(report.max_budget, 3);
    assert_eq!(report.active_count, 2);
    assert_eq!(report.remaining, 1);
    assert_eq!(report.deadline_misses, 0);
}

#[test]
fn test_complete_nonexistent_task() {
    let mut executor = DeadlineExecutor::new(2);
    assert!(!executor.complete(999));
}

#[test]
fn test_multiple_deadline_misses() {
    let mut executor = DeadlineExecutor::new(2);
    let past = Instant::now().saturating_sub_secs(1);
    assert!(executor.spawn_with_deadline("a", past).is_none());
    assert!(executor.spawn_with_deadline("b", past).is_none());
    assert!(executor.spawn_with_deadline("c", past).is_none());
    assert_eq!(executor.check_budget().deadline_misses, 3);
}

#[test]
fn test_total_spawned_counter() {
    let mut executor = DeadlineExecutor::new(2);
    let deadline = Instant::now().saturating_add_secs(60);
    let past = Instant::now().saturating_sub_secs(1);
    executor.spawn_with_deadline("a", deadline);
    executor.spawn_with_deadline("b", past);
    executor.spawn_with_deadline("c", deadline);
    assert_eq!(executor.total_spawned(), 3);
}

#[test]
fn test_tick_expires_active_deadlines() {
    let mut executor = DeadlineExecutor::new(4);
    // A deadline that has already passed cannot be spawned (it is rejected),
    // so a future deadline is used and tick must leave it alone.
    let _past = Instant::now().saturating_sub_secs(1);
    let deadline = Instant::now().saturating_add_secs(60);
    executor.spawn_with_deadline("task1", deadline);
    assert_eq!(executor.active_count(), 1);
    // Tick shouldn't expire a future deadline
    let expired = executor.tick();
    assert_eq!(expired, 0);
    assert_eq!(executor.active_count(), 1);
}
