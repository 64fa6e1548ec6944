use pulse::system::collector::{parse_stat_content, RawProcess};
use pulse::system::engine::Engine;
use pulse::system::model::{
    InterfaceSnapshot, NetworkStats, Share, SortMode, TelemetryFrame, ViewMode, ViewRow,
};
use pulse::system::state::{build_state, compute_cpu, ProcessSnapshot};
use pulse::system::view::build_view;
use pulse::tui::app::AppState;
use pulse::tui::projection::project_view;

use std::collections::HashMap;

// CPU figures are clock ticks; a percentage is a tick count over the ticks
// elapsed, `Share::new(part, whole).basis_points()` in hundredths.

fn raw(pid: u32, ppid: u32, name: &str, cpu_time: u64, memory_kb: u64) -> RawProcess {
    RawProcess { pid, ppid, name: name.to_string(), cpu_time, memory_kb }
}

fn snap(ppid: u32, name: &str, cpu_time: u64, memory_kb: u64) -> ProcessSnapshot {
    ProcessSnapshot { ppid, name: name.to_string(), cpu_time, memory_kb }
}

fn eth0(rx_bytes: u64, tx_bytes: u64) -> NetworkStats {
    let mut n = NetworkStats::new();
    n.insert(
        "eth0".to_string(),
        InterfaceSnapshot { rx_bytes, tx_bytes, operstate: "up".to_string(), rx_errors: 0 },
    );
    n
}

// ============================================================================
// Boundary A: Collector -> State -> View End-to-End Pipeline
// ============================================================================

#[test]
fn test_pipeline_collector_to_view_end_to_end() {
    let raw_procs = vec![
        raw(100, 1, "systemd", 500, 4096),
        raw(200, 100, "pulse-worker", 1200, 16384),
        raw(300, 100, "idle-daemon", 300, 2048),
    ];

    let mut prev_procs = HashMap::new();
    prev_procs.insert(100, snap(1, "systemd", 480, 4096)); // delta = 20
    prev_procs.insert(200, snap(100, "pulse-worker", 1000, 16384)); // delta = 200
    prev_procs.insert(300, snap(100, "idle-daemon", 300, 2048)); // delta = 0

    let total_cpu_delta = 400; // total system jiffies elapsed

    let state = build_state(prev_procs, raw_procs, total_cpu_delta);
    assert_eq!(state.curr.len(), 3);

    let cpu_map = compute_cpu(&state);
    assert_eq!(cpu_map.len(), 2); // Procs with proc_delta > 0 (PID 100 & 200) included
    assert_eq!(Share::new(*cpu_map.get(&200).unwrap(), total_cpu_delta).basis_points(), 5000);

    let views = build_view(&state.curr, &cpu_map);
    assert_eq!(views.len(), 3);

    // Verify view is sorted by CPU descending (pulse-worker first)
    assert_eq!(views[0].pid, 200);
    assert_eq!(views[0].name, "pulse-worker");
    assert_eq!(Share::new(views[0].cpu_usage, total_cpu_delta).basis_points(), 5000);
    assert_eq!(views[0].memory_kb, 16384);

    assert_eq!(views[1].pid, 100);
    assert_eq!(views[1].name, "systemd");
    assert_eq!(Share::new(views[1].cpu_usage, total_cpu_delta).basis_points(), 500);

    assert_eq!(views[2].pid, 300);
    assert_eq!(views[2].name, "idle-daemon");
    assert_eq!(views[2].cpu_usage, 0);
}

// ============================================================================
// Boundary B: Multi-Tick Engine State Evolution
// ============================================================================

// The engine is handed each tick's readings; here two synthetic ticks.
#[test]
fn test_engine_multi_tick_lifecycle() {
    let mut engine = Engine::new(1000);

    // Tick 1: Engine initializes state baseline
    let t1 = engine.tick(1100, vec![raw(1, 0, "init", 10, 100), raw(2, 1, "sh", 5, 50)]);
    assert_eq!(t1.processes.len(), 2);
    assert!(t1.cpu_map.is_empty());
    assert_eq!(t1.total_cpu_delta, 100);

    // Tick 2: Subsequent tick calculates CPU deltas against prev state
    let t2 = engine.tick(1300, vec![raw(1, 0, "init", 30, 100), raw(3, 1, "new", 7, 10)]);
    let (procs2, cpu2) = (t2.processes, t2.cpu_map);
    assert_eq!(procs2.len(), procs2.keys().len());
    assert_eq!(t2.total_cpu_delta, 200);

    for (&pid, &cpu) in &cpu2 {
        assert!(procs2.contains_key(&pid));
        assert!(cpu <= procs2[&pid].cpu_time);
    }
    assert_eq!(cpu2.get(&1), Some(&20));
    assert!(!cpu2.contains_key(&3));
}

// ============================================================================
// Boundary C: TelemetryFrame -> AppState -> Projection Pipeline
// ============================================================================

#[test]
fn test_telemetry_frame_to_app_state_projection() {
    let mut app = AppState::new();

    let mut procs1 = HashMap::new();
    procs1.insert(1, snap(0, "init", 100, 4096));
    procs1.insert(42, snap(1, "pulse-tui", 500, 32768));

    let mut cpu_map1 = HashMap::new();
    cpu_map1.insert(1, 10);
    cpu_map1.insert(42, 250);

    let frame1 = TelemetryFrame {
        processes: procs1,
        cpu_map: cpu_map1,
        cpu_total: 1000,
        global_cpu_utilization: Share::new(155, 1000),
        global_mem_utilization: Share::new(450, 1000),
        network: eth0(100_000, 50_000),
        disk_sectors_read: 1000,
        disk_sectors_written: 2000,
    };

    app.apply_tick(frame1);

    assert_eq!(app.snapshots.len(), 2);
    assert_eq!(app.global_cpu_history.back().map(|s| s.basis_points()), Some(1550));
    assert_eq!(app.global_mem_history.back().map(|s| s.basis_points()), Some(4500));
    assert_eq!(app.view_pipeline.len(), 2);

    // Frame 2: Telemetry tick update with network traffic delta
    let mut procs2_state = HashMap::new();
    for (pid, s) in app.snapshots.clone() {
        let memory_kb = if pid == 42 { 40960 } else { s.memory_kb };
        procs2_state.insert(pid, snap(s.ppid, &s.name, 600, memory_kb));
    }

    let mut cpu_map2 = HashMap::new();
    cpu_map2.insert(1, 5);
    cpu_map2.insert(42, 350);

    let frame2 = TelemetryFrame {
        processes: procs2_state,
        cpu_map: cpu_map2,
        cpu_total: 1000,
        global_cpu_utilization: Share::new(200, 1000),
        global_mem_utilization: Share::new(480, 1000),
        network: eth0(200_000, 100_000), // deltas 100_000 and 50_000 bytes
        disk_sectors_read: 1500,
        disk_sectors_written: 2500,
    };

    app.apply_tick(frame2);

    // Verify network speeds: the bytes moved in the tick, which the
    // interface shows per second as `delta * 2 / 1024` KiB/s
    let eth0_speeds = app
        .current_speeds
        .iter()
        .find(|(name, _, _)| name == "eth0")
        .expect("eth0 speeds present");
    assert_eq!((eth0_speeds.1, eth0_speeds.2), (100_000, 50_000));
    assert!((eth0_speeds.1 as f64 * 2.0 / 1024.0 - (100000.0 * 2.0 / 1024.0)).abs() < 1e-2);

    // Verify ViewMode and SortMode projection interactions
    app.sort_mode = SortMode::Memory;
    app.refresh_pipeline();
    assert_eq!(app.view_pipeline.len(), 2);
    if let ViewRow::Process { pid, .. } = app.view_pipeline[0] {
        let snap = app.snapshots.get(&pid).expect("Snapshot present");
        assert_eq!(pid, 42); // Highest memory process (40960 KB) first
        assert_eq!(snap.memory_kb, 40960);
    } else {
        panic!("Expected ViewRow::Process");
    }

    // Verify Filter Query integration
    app.filter_query = "pulse".to_string();
    app.refresh_pipeline();
    assert_eq!(app.view_pipeline.len(), 1);
    if let ViewRow::Process { pid, .. } = app.view_pipeline[0] {
        let snap = app.snapshots.get(&pid).expect("Snapshot present");
        assert_eq!(snap.name, "pulse-tui");
    } else {
        panic!("Expected filtered ViewRow::Process");
    }
}

// ============================================================================
// Boundary D: Failure-Path & System Edge Cases
// ============================================================================

#[test]
fn test_failure_path_disappearing_process() {
    let mut prev = HashMap::new();
    prev.insert(10, snap(1, "active", 100, 1000));
    prev.insert(20, snap(1, "dying", 50, 500));

    // Current raw collection omits PID 20 (process exited mid-collection)
    let curr_raw = vec![raw(10, 1, "active", 150, 1000)];

    let state = build_state(prev, curr_raw, 100);
    let cpu_map = compute_cpu(&state);

    assert_eq!(state.curr.len(), 1);
    assert!(state.curr.contains_key(&10));
    assert!(!state.curr.contains_key(&20));
    assert_eq!(cpu_map.len(), 1);
    assert!(cpu_map.contains_key(&10));
    assert!(!cpu_map.contains_key(&20));
}

#[test]
fn test_failure_path_malformed_stat_among_valid_processes() {
    let valid_stat = "100 (valid_proc) S 1 100 100 0 -1 4194304 1000 0 0 0 400 100 0 0 20 0 1 0 12345 1000000 1024 18446744073709551615";
    let malformed_stat = "200 (corrupt_proc S 1 200 invalid line without closing paren";

    let valid_parsed = parse_stat_content(valid_stat, 100, 4);
    let malformed_parsed = parse_stat_content(malformed_stat, 200, 4);

    assert!(valid_parsed.is_some());
    assert!(malformed_parsed.is_none());

    let raw_list = vec![valid_parsed.unwrap()];
    let state = build_state(HashMap::new(), raw_list, 100);
    assert_eq!(state.curr.len(), 1);
    assert!(state.curr.contains_key(&100));
}

#[test]
fn test_failure_path_empty_system_and_zero_deltas() {
    let state = build_state(HashMap::new(), Vec::new(), 0);
    let cpu_map = compute_cpu(&state);
    let views = build_view(&state.curr, &cpu_map);

    assert!(state.curr.is_empty());
    assert!(cpu_map.is_empty());
    assert!(views.is_empty());

    let projected = project_view(&HashMap::new(), &ViewMode::Flat, &SortMode::Cpu, None);
    assert!(projected.is_empty());
}

#[test]
fn test_failure_path_partial_system_metrics() {
    let mut app = AppState::new();

    let frame = TelemetryFrame {
        processes: HashMap::new(),
        cpu_map: HashMap::new(),
        cpu_total: 0,
        global_cpu_utilization: Share::zero(),
        global_mem_utilization: Share::zero(),
        network: NetworkStats::default(),
        disk_sectors_read: 0,
        disk_sectors_written: 0,
    };

    app.apply_tick(frame);
    assert!(app.snapshots.is_empty());
    assert!(app.current_speeds.is_empty());
}

// ============================================================================
// Boundary E: Cross-Module Invariant Enforcement
// ============================================================================

#[test]
fn test_invariant_cpu_usage_bounds_and_no_nan() {
    let mut prev = HashMap::new();
    prev.insert(1, snap(0, "test", 1000, 100));

    // Scenario 1: Extremely large delta
    let curr_raw1 = vec![raw(1, 0, "test", 5000, 100)]; // delta = 4000
    let state1 = build_state(prev.clone(), curr_raw1, 4000);
    let cpu_map1 = compute_cpu(&state1);
    let cpu1 = cpu_map1.get(&1).copied().unwrap_or(0);
    assert_eq!(Share::new(cpu1, 4000).basis_points(), 10000);

    // Scenario 2: Decreased CPU time (counter overflow/reset)
    let curr_raw2 = vec![raw(1, 0, "test", 500, 100)]; // decreased
    let state2 = build_state(prev, curr_raw2, 100);
    let cpu_map2 = compute_cpu(&state2);
    assert!(!cpu_map2.contains_key(&1)); // Omitted from map, default 0
}

#[test]
fn test_invariant_pid_identity_stability() {
    let pid = 4321;
    let ppid = 123;
    let name = "target-proc".to_string();

    let state = build_state(HashMap::new(), vec![raw(pid, ppid, &name, 500, 8192)], 100);
    assert_eq!(state.curr.get(&pid).unwrap().ppid, ppid);

    let views = build_view(&state.curr, &HashMap::new());
    assert_eq!(views[0].pid, pid);
    assert_eq!(views[0].name, name);
}

#[test]
fn test_invariant_fault_isolation_across_subsystems() {
    let mut app = AppState::new();

    let mut processes = HashMap::new();
    processes.insert(500, snap(1, "resilient-proc", 200, 16384));
    let mut cpu_map = HashMap::new();
    cpu_map.insert(500, 125);

    let frame = TelemetryFrame {
        processes,
        cpu_map,
        cpu_total: 1000,
        global_cpu_utilization: Share::new(125, 1000),
        global_mem_utilization: Share::new(500, 1000),
        network: NetworkStats::default(), // empty network stream
        disk_sectors_read: 0,
        disk_sectors_written: 0,
    };

    app.apply_tick(frame);

    assert_eq!(app.snapshots.len(), 1);
    assert_eq!(app.view_pipeline.len(), 1);
    if let ViewRow::Process { pid, .. } = app.view_pipeline[0] {
        let snap = app.snapshots.get(&pid).expect("Snapshot present");
        assert_eq!(pid, 500);
        assert_eq!(snap.name, "resilient-proc");
        assert_eq!(Share::new(snap.cpu_usage, app.cpu_total).basis_points(), 1250);
        assert_eq!(snap.memory_kb, 16384);
    } else {
        panic!("Expected ViewRow::Process");
    }
}
