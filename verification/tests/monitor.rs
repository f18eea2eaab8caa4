use open_parallel::monitor::{phase_split, MIN_SAMPLES};
use open_parallel::{PairPlan, TaskIntelligenceMonitor, ThroughputBuffer};

#[test]
fn test_reset() {
    let mut monitor = TaskIntelligenceMonitor::<f64>::new("reset");
    monitor.record_task("a", 100.0);
    assert_eq!(monitor.task_count(), 1);
    monitor.reset();
    assert_eq!(monitor.task_count(), 0);
}

#[test]
fn buffer_keeps_most_recent_samples() {
    let mut b = ThroughputBuffer::new(3);
    for x in 1..=5u32 {
        b.push(x);
    }
    assert_eq!(b.values(), &[3, 4, 5]);
    assert_eq!(b.len(), 3);
    let mut one = ThroughputBuffer::new(1);
    one.push(9u32);
    one.push(10u32);
    assert_eq!(one.values(), &[10]);
}

#[test]
fn record_task_groups_by_label_in_first_seen_order() {
    let mut m = TaskIntelligenceMonitor::with_capacity("pool", 2);
    m.record_task("db", 1.0);
    m.record_task("http", 2.0);
    m.record_task("db", 3.0);
    m.record_task("db", 4.0);
    assert_eq!(m.task_count(), 2);
    assert_eq!(m.label(0), "db");
    assert_eq!(m.label(1), "http");
    assert_eq!(m.samples(0), &[3.0, 4.0]);
    assert_eq!(m.samples(1), &[2.0]);
    assert_eq!(m.pool_name(), "pool");
    assert_eq!(m.capacity(), 2);
}

#[test]
fn default_monitor_names_its_pool_default() {
    let m: TaskIntelligenceMonitor<f64> = Default::default();
    assert_eq!(m.pool_name(), "default");
    assert_eq!(m.capacity(), 100);
    assert_eq!(m.task_count(), 0);
}

fn monitor_with(counts: &[(&str, usize)]) -> TaskIntelligenceMonitor<u32> {
    let mut m = TaskIntelligenceMonitor::new("plan");
    for (label, n) in counts {
        for k in 0..*n {
            m.record_task(label, k as u32);
        }
    }
    m
}

#[test]
fn active_tasks_need_min_samples() {
    let m = monitor_with(&[("a", 3), ("b", 2), ("c", 5)]);
    assert_eq!(MIN_SAMPLES, 3);
    assert_eq!(m.active_tasks(), vec![0, 2]);
    let empty = TaskIntelligenceMonitor::<u32>::new("empty");
    assert!(empty.active_tasks().is_empty());
    assert!(empty.correlation_plan().is_empty());
    assert!(empty.transfer_plan().is_empty());
}

#[test]
fn correlation_plan_lists_unordered_pairs_of_active_tasks() {
    let m = monitor_with(&[("a", 3), ("b", 2), ("c", 5), ("d", 4)]);
    let plan = m.correlation_plan();
    let pairs: Vec<(usize, usize, usize)> = plan.iter().map(|p| (p.first, p.second, p.aligned_len)).collect();
    assert_eq!(pairs, vec![(0, 2, 3), (0, 3, 3), (2, 3, 4)]);
}

#[test]
fn transfer_plan_needs_one_more_aligned_sample() {
    let m = monitor_with(&[("a", 3), ("c", 5), ("d", 4)]);
    let plan = m.transfer_plan();
    let expected = vec![
        PairPlan { first: 1, second: 2, aligned_len: 4 },
        PairPlan { first: 2, second: 1, aligned_len: 4 },
    ];
    assert_eq!(plan, expected);
}

#[test]
fn pooled_samples_concatenates_active_histories() {
    let m = monitor_with(&[("a", 3), ("b", 1), ("c", 4)]);
    assert_eq!(m.pooled_samples(), vec![0, 1, 2, 0, 1, 2, 3]);
}

#[test]
fn phase_split_needs_two_halves_of_min_samples() {
    assert_eq!(phase_split(0), None);
    assert_eq!(phase_split(5), None);
    assert_eq!(phase_split(6), Some(3));
    assert_eq!(phase_split(7), Some(3));
    assert_eq!(phase_split(300), Some(150));
}
