use pulse::system::collector::RawProcess;
use pulse::system::model::{InterfaceSnapshot, NetworkStats, Share};
use pulse::system::state::{
    build_network_stats, build_state, compute_cpu, NetDevEntry, ProcessSnapshot, SystemState,
};
use std::collections::HashMap;

fn snap(ppid: u32, name: &str, cpu_time: u64, memory_kb: u64) -> ProcessSnapshot {
    ProcessSnapshot { ppid, name: name.to_string(), cpu_time, memory_kb }
}

#[test]
fn test_build_state_basic() {
    let mut prev = HashMap::new();
    prev.insert(1, snap(0, "init", 10, 100));

    let curr_raw = vec![
        RawProcess { pid: 1, ppid: 0, name: "init".to_string(), cpu_time: 20, memory_kb: 100 },
        RawProcess { pid: 2, ppid: 1, name: "bash".to_string(), cpu_time: 50, memory_kb: 200 },
    ];

    let state = build_state(prev.clone(), curr_raw, 100);
    assert_eq!(state.total_cpu_delta, 100);
    assert_eq!(state.prev, prev);
    assert_eq!(state.curr.len(), 2);
    assert_eq!(state.curr.get(&1).unwrap().cpu_time, 20);
    assert_eq!(state.curr.get(&2).unwrap().name, "bash");
}

#[test]
fn test_build_state_empty() {
    let state = build_state(HashMap::new(), Vec::new(), 0);
    assert_eq!(state.total_cpu_delta, 0);
    assert!(state.prev.is_empty());
    assert!(state.curr.is_empty());
}

#[test]
fn test_build_state_duplicate_pid_overwrites() {
    let curr_raw = vec![
        RawProcess { pid: 10, ppid: 1, name: "old_proc".to_string(), cpu_time: 10, memory_kb: 100 },
        RawProcess { pid: 10, ppid: 1, name: "new_proc".to_string(), cpu_time: 30, memory_kb: 300 },
    ];

    let state = build_state(HashMap::new(), curr_raw, 50);
    assert_eq!(state.curr.len(), 1);
    assert_eq!(state.curr.get(&10).unwrap().name, "new_proc");
    assert_eq!(state.curr.get(&10).unwrap().cpu_time, 30);
}

// `compute_cpu` reports the CPU time each process used; its percentage is
// `Share::new(delta, total_cpu_delta).basis_points()` hundredths.

#[test]
fn test_compute_cpu_basic() {
    let mut prev = HashMap::new();
    prev.insert(10, snap(1, "proc1", 100, 1000));
    prev.insert(20, snap(1, "proc2", 200, 2000));

    let mut curr = HashMap::new();
    curr.insert(10, snap(1, "proc1", 150, 1000)); // delta = 50
    curr.insert(20, snap(1, "proc2", 200, 2000)); // delta = 0 -> omitted

    let state = SystemState {
        prev,
        curr,
        total_cpu_delta: 200, // percentage for proc1 = (50 / 200) * 100 = 25.0%
    };

    let cpu = compute_cpu(&state);
    assert_eq!(cpu.len(), 1);
    assert_eq!(Share::new(*cpu.get(&10).unwrap(), state.total_cpu_delta).basis_points(), 2500);
    assert!(!cpu.contains_key(&20));
}

#[test]
fn test_compute_cpu_zero_total_delta() {
    let mut prev = HashMap::new();
    prev.insert(10, snap(1, "proc1", 100, 1000));
    let mut curr = HashMap::new();
    curr.insert(10, snap(1, "proc1", 150, 1000));

    let state = SystemState { prev, curr, total_cpu_delta: 0 };

    let cpu = compute_cpu(&state);
    assert!(cpu.is_empty());
}

#[test]
fn test_compute_cpu_missing_in_prev() {
    let mut curr = HashMap::new();
    curr.insert(30, snap(1, "proc30", 50, 500));

    let state = SystemState { prev: HashMap::new(), curr, total_cpu_delta: 100 };

    let cpu = compute_cpu(&state);
    assert!(cpu.is_empty());
}

#[test]
fn test_compute_cpu_decreased_cpu_time() {
    let mut prev = HashMap::new();
    prev.insert(10, snap(1, "proc1", 100, 1000));
    let mut curr = HashMap::new();
    curr.insert(10, snap(1, "proc1", 90, 1000)); // decreased

    let state = SystemState { prev, curr, total_cpu_delta: 100 };

    let cpu = compute_cpu(&state);
    assert!(cpu.is_empty());
}

#[test]
fn cpu_entries_stay_within_current_processes() {
    let mut prev = HashMap::new();
    let mut raw = Vec::new();
    for pid in 0..50u32 {
        prev.insert(pid, snap(1, "p", 10, 1));
        if pid % 2 == 0 {
            raw.push(RawProcess { pid, ppid: 1, name: "p".to_string(), cpu_time: 10 + pid as u64, memory_kb: 1 });
        }
    }
    let state = build_state(prev, raw, 1000);
    let cpu = compute_cpu(&state);
    assert_eq!(state.curr.len(), 25);
    assert!(cpu.len() <= state.curr.len());
    for (pid, delta) in &cpu {
        assert!(state.curr.contains_key(pid));
        assert!(*delta > 0 && *delta <= state.curr[pid].cpu_time);
    }
    // pid 0 did not grow
    assert!(!cpu.contains_key(&0));
    assert_eq!(cpu.get(&48), Some(&48));
}

#[test]
fn network_stats_take_the_link_details() {
    let entries = vec![
        NetDevEntry { name: "lo".to_string(), rx_bytes: 100, tx_bytes: 200 },
        NetDevEntry { name: "eth0".to_string(), rx_bytes: 5, tx_bytes: 6 },
        NetDevEntry { name: "lo".to_string(), rx_bytes: 101, tx_bytes: 201 },
    ];
    let links = vec![
        ("unknown".to_string(), 0),
        ("up".to_string(), 3),
        ("unknown".to_string(), 1),
    ];
    let stats = build_network_stats(entries, links);
    assert_eq!(stats.interfaces.len(), 2);
    let eth0 = stats.get(&"eth0".to_string()).expect("eth0");
    assert_eq!(
        *eth0,
        InterfaceSnapshot { rx_bytes: 5, tx_bytes: 6, operstate: "up".to_string(), rx_errors: 3 }
    );
    let lo = stats.get(&"lo".to_string()).expect("lo");
    assert_eq!((lo.rx_bytes, lo.tx_bytes, lo.rx_errors), (101, 201, 1));
    assert!(stats.get(&"wlan0".to_string()).is_none());
}

#[test]
fn reading_back_an_inserted_interface() {
    let mut n = NetworkStats::new();
    let snap = |rx: u64| InterfaceSnapshot { rx_bytes: rx, tx_bytes: 0, operstate: "up".to_string(), rx_errors: 0 };
    n.insert("eth0".to_string(), snap(1));
    n.insert("wlan0".to_string(), snap(2));
    n.insert("eth0".to_string(), snap(3));
    assert_eq!(n.get(&"eth0".to_string()).map(|s| s.rx_bytes), Some(3));
    assert_eq!(n.get(&"wlan0".to_string()).map(|s| s.rx_bytes), Some(2));
    assert_eq!(n.interfaces.len(), 2);
}

#[test]
fn global_cpu_share_is_zero_where_no_time_elapsed() {
    use_share_of_jiffies();
}

fn use_share_of_jiffies() {
    let prev = pulse::system::state::CpuJiffies { total: 100, idle: 50 };
    let idle_grew = pulse::system::state::CpuJiffies { total: 100, idle: 60 };
    let s = pulse::system::engine::global_cpu_share(prev, idle_grew);
    assert_eq!((s.part, s.whole), (0, 0));
    let busy = pulse::system::state::CpuJiffies { total: 200, idle: 80 };
    let s = pulse::system::engine::global_cpu_share(prev, busy);
    assert_eq!((s.part, s.whole), (70, 100));
}
