use pulse::system::model::Share;
use pulse::system::snapshot::{compute_cpu_usage, SystemSnapshot};
use std::collections::HashMap;

// `compute_cpu_usage` reports the CPU time each process used; its percentage
// is that time over the system's, `Share::new(delta, total).basis_points()`
// in hundredths of a percent.

fn percent(delta: u64, total: u64) -> u128 {
    Share::new(delta, total).basis_points()
}

#[test]
fn test_compute_cpu_usage_normal() {
    let mut prev_procs = HashMap::new();
    prev_procs.insert(100, 1000);
    prev_procs.insert(200, 500);

    let mut curr_procs = HashMap::new();
    curr_procs.insert(100, 1050); // delta = 50
    curr_procs.insert(200, 520); // delta = 20

    let prev = SystemSnapshot { total_cpu: 10000, processes: prev_procs };
    let curr = SystemSnapshot {
        total_cpu: 10100, // total_delta = 100
        processes: curr_procs,
    };

    let usage = compute_cpu_usage(&prev, &curr);
    assert_eq!(usage.len(), 2);
    assert_eq!(percent(*usage.get(&100).unwrap(), 100), 5000);
    assert_eq!(percent(*usage.get(&200).unwrap(), 100), 2000);
}

#[test]
fn test_compute_cpu_usage_zero_total_delta() {
    let mut procs = HashMap::new();
    procs.insert(100, 1000);

    let prev = SystemSnapshot { total_cpu: 10000, processes: procs.clone() };
    let curr = SystemSnapshot { total_cpu: 10000, processes: procs };

    let usage = compute_cpu_usage(&prev, &curr);
    assert!(usage.is_empty());
}

#[test]
fn test_compute_cpu_usage_total_cpu_wrapped() {
    let prev = SystemSnapshot { total_cpu: 10000, processes: HashMap::new() };
    let curr = SystemSnapshot {
        total_cpu: 9000, // wrapped or smaller total_cpu
        processes: HashMap::new(),
    };

    let usage = compute_cpu_usage(&prev, &curr);
    assert!(usage.is_empty());
}

#[test]
fn test_compute_cpu_usage_process_disappeared() {
    let mut prev_procs = HashMap::new();
    prev_procs.insert(100, 1000);
    prev_procs.insert(200, 500);

    let mut curr_procs = HashMap::new();
    curr_procs.insert(100, 1050);

    let prev = SystemSnapshot { total_cpu: 10000, processes: prev_procs };
    let curr = SystemSnapshot { total_cpu: 10100, processes: curr_procs };

    let usage = compute_cpu_usage(&prev, &curr);
    assert_eq!(usage.len(), 1);
    assert!(usage.contains_key(&100));
    assert!(!usage.contains_key(&200));
}

#[test]
fn test_compute_cpu_usage_new_process() {
    let mut prev_procs = HashMap::new();
    prev_procs.insert(100, 1000);

    let mut curr_procs = HashMap::new();
    curr_procs.insert(100, 1050);
    curr_procs.insert(300, 200);

    let prev = SystemSnapshot { total_cpu: 10000, processes: prev_procs };
    let curr = SystemSnapshot { total_cpu: 10100, processes: curr_procs };

    let usage = compute_cpu_usage(&prev, &curr);
    assert_eq!(usage.len(), 1);
    assert!(!usage.contains_key(&300));
}

#[test]
fn test_compute_cpu_usage_process_time_decreased() {
    let mut prev_procs = HashMap::new();
    prev_procs.insert(100, 1000);

    let mut curr_procs = HashMap::new();
    curr_procs.insert(100, 900); // decreased cpu_time

    let prev = SystemSnapshot { total_cpu: 10000, processes: prev_procs };
    let curr = SystemSnapshot { total_cpu: 10100, processes: curr_procs };

    let usage = compute_cpu_usage(&prev, &curr);
    assert_eq!(percent(*usage.get(&100).unwrap(), 100), 0);
}

#[test]
fn test_compute_cpu_usage_empty_snapshots() {
    let prev = SystemSnapshot { total_cpu: 0, processes: HashMap::new() };
    let curr = SystemSnapshot { total_cpu: 100, processes: HashMap::new() };

    let usage = compute_cpu_usage(&prev, &curr);
    assert!(usage.is_empty());
}

#[test]
fn cpu_usage_values_are_exact_deltas() {
    let mut prev_procs = HashMap::new();
    prev_procs.insert(7, 10);
    let mut curr_procs = HashMap::new();
    curr_procs.insert(7, 17);
    let prev = SystemSnapshot { total_cpu: 1, processes: prev_procs };
    let curr = SystemSnapshot { total_cpu: 4, processes: curr_procs };
    let usage = compute_cpu_usage(&prev, &curr);
    assert_eq!(usage.get(&7), Some(&7));
    // 7 of 3 elapsed ticks: more than the whole, kept as measured
    assert_eq!(percent(7, 3), 23333);
}

#[test]
fn share_percentages() {
    assert_eq!(Share::new(1, 3).basis_points(), 3333);
    assert_eq!(Share::new(5, 0).basis_points(), 0);
    assert_eq!(Share::zero().basis_points(), 0);
    assert_eq!(Share::new(u64::MAX, u64::MAX).basis_points(), 10000);
}
