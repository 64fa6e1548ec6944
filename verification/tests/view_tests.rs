use pulse::system::state::ProcessSnapshot;
use pulse::system::view::build_view;
use std::collections::HashMap;

fn snap(ppid: u32, name: &str, cpu_time: u64, memory_kb: u64) -> ProcessSnapshot {
    ProcessSnapshot { ppid, name: name.to_string(), cpu_time, memory_kb }
}

// CPU use is given in clock ticks of the interval.

#[test]
fn test_build_view_normal_and_sorting() {
    let mut processes = HashMap::new();
    processes.insert(1, snap(0, "proc1", 100, 1000));
    processes.insert(2, snap(0, "proc2", 200, 2000));
    processes.insert(3, snap(1, "proc3", 300, 3000));

    let mut cpu_map = HashMap::new();
    cpu_map.insert(1, 155);
    cpu_map.insert(2, 450);
    cpu_map.insert(3, 50);

    let views = build_view(&processes, &cpu_map);
    assert_eq!(views.len(), 3);
    assert_eq!(views[0].pid, 2);
    assert_eq!(views[1].pid, 1);
    assert_eq!(views[2].pid, 3);
    assert_eq!(views[0].cpu_usage, 450);
    assert_eq!(views[0].memory_kb, 2000);
}

#[test]
fn test_build_view_missing_cpu_entry() {
    let mut processes = HashMap::new();
    processes.insert(1, snap(0, "proc1", 100, 1000));

    let views = build_view(&processes, &HashMap::new());
    assert_eq!(views.len(), 1);
    assert_eq!(views[0].pid, 1);
    assert_eq!(views[0].cpu_usage, 0);
}

#[test]
fn test_build_view_empty() {
    let views = build_view(&HashMap::new(), &HashMap::new());
    assert!(views.is_empty());
}

#[test]
fn test_build_view_equal_cpu() {
    let mut processes = HashMap::new();
    processes.insert(10, snap(0, "procA", 100, 500));
    processes.insert(20, snap(0, "procB", 100, 800));

    let mut cpu_map = HashMap::new();
    cpu_map.insert(10, 10);
    cpu_map.insert(20, 10);

    let views = build_view(&processes, &cpu_map);
    assert_eq!(views.len(), 2);
}

#[test]
fn build_view_ignores_cpu_of_unknown_pids() {
    let mut processes = HashMap::new();
    processes.insert(5, snap(0, "five", 1, 55));
    let mut cpu_map = HashMap::new();
    cpu_map.insert(6, 99);
    cpu_map.insert(5, 7);
    let views = build_view(&processes, &cpu_map);
    assert_eq!(views.len(), 1);
    assert_eq!((views[0].pid, views[0].name.as_str(), views[0].cpu_usage, views[0].memory_kb), (5, "five", 7, 55));
}
