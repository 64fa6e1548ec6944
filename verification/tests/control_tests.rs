use pulse::system::model::{Share, SortMode, TelemetryFrame, ViewMode, ViewRow, NetworkStats};
use pulse::system::state::ProcessSnapshot;
use pulse::tui::app::{AppState, InputMode, Tab};
use pulse::tui::control::{Command, SignalKind, SignalOutcome};
use pulse::tui::input::{map_key, InputEvent, KeyInput};
use std::collections::HashMap;

fn app_with(procs: &[(u32, &str, u64)]) -> AppState {
    let mut app = AppState::new();
    let mut processes = HashMap::new();
    let mut cpu_map = HashMap::new();
    for (pid, name, cpu) in procs {
        processes.insert(*pid, ProcessSnapshot { ppid: 1, name: name.to_string(), cpu_time: 0, memory_kb: 10 });
        cpu_map.insert(*pid, *cpu);
    }
    app.apply_tick(TelemetryFrame {
        processes,
        cpu_map,
        cpu_total: 100,
        global_cpu_utilization: Share::zero(),
        global_mem_utilization: Share::zero(),
        network: NetworkStats::new(),
        disk_sectors_read: 0,
        disk_sectors_written: 0,
    });
    app
}

fn press(app: &mut AppState, c: char) -> Command {
    app.handle_input(map_key(KeyInput::Char(c), false))
}

#[test]
fn keys_map_to_events() {
    assert_eq!(map_key(KeyInput::Char('q'), false), InputEvent::Quit);
    assert_eq!(map_key(KeyInput::Char('k'), false), InputEvent::InitiateKill);
    assert_eq!(map_key(KeyInput::Char('j'), false), InputEvent::Down);
    assert_eq!(map_key(KeyInput::Char('G'), true), InputEvent::Bottom);
    assert_eq!(map_key(KeyInput::Char('G'), false), InputEvent::Char('G'));
    assert_eq!(map_key(KeyInput::Char('4'), false), InputEvent::SwitchTab(Tab::Trace));
    assert_eq!(map_key(KeyInput::Char('x'), false), InputEvent::Char('x'));
    assert_eq!(map_key(KeyInput::Other, false), InputEvent::NoInput);
}

#[test]
fn navigation_moves_within_rows_and_targets() {
    let mut app = app_with(&[(1, "a", 30), (2, "b", 20), (3, "c", 10)]);
    assert_eq!(app.selected, Some(0));
    app.handle_input(InputEvent::Down);
    assert_eq!(app.selected, Some(1));
    assert_eq!(app.target_pid, Some(2));
    app.handle_input(InputEvent::Bottom);
    assert_eq!(app.selected, Some(2));
    app.handle_input(InputEvent::Down);
    assert_eq!(app.selected, Some(2));
    assert_eq!(app.target_pid, Some(3));
    app.handle_input(InputEvent::Top);
    app.handle_input(InputEvent::Up);
    assert_eq!(app.selected, Some(0));
    assert_eq!(app.target_pid, Some(1));
}

#[test]
fn kill_needs_confirmation() {
    let mut app = app_with(&[(7, "victim", 5)]);
    app.handle_input(InputEvent::Top);
    assert_eq!(app.target_pid, Some(7));
    assert_eq!(press(&mut app, 'k'), Command::Stay);
    assert_eq!(app.input_mode, InputMode::Confirm);
    assert_eq!(press(&mut app, 'k'), Command::Send { pid: 7, signal: SignalKind::Kill });
    assert!(app.finish_signal(SignalOutcome::Delivered));
    assert_eq!(app.input_mode, InputMode::Normal);
    assert_eq!(app.error_message, None);

    press(&mut app, 'k');
    assert_eq!(press(&mut app, 't'), Command::Send { pid: 7, signal: SignalKind::Term });
    assert_eq!(press(&mut app, 'T'), Command::Send { pid: 7, signal: SignalKind::Term });
    assert!(!app.finish_signal(SignalOutcome::PermissionDenied));
    assert_eq!(app.error_message.as_deref(), Some("Error: Permission Denied (Run as root)"));
    assert_eq!(app.input_mode, InputMode::Normal);

    press(&mut app, 'k');
    assert_eq!(press(&mut app, 'n'), Command::Stay);
    assert_eq!(app.input_mode, InputMode::Normal);
}

#[test]
fn signal_errors_have_messages() {
    let mut app = AppState::new();
    app.finish_signal(SignalOutcome::NoSuchProcess);
    assert_eq!(app.error_message.as_deref(), Some("Error: Process no longer exists"));
    app.finish_signal(SignalOutcome::Failed);
    assert_eq!(app.error_message.as_deref(), Some("Error: Signal failed"));
    app.finish_signal(SignalOutcome::Delivered);
    assert_eq!(app.error_message.as_deref(), Some("Error: Signal failed"));
}

#[test]
fn no_confirmation_without_a_target() {
    let mut app = AppState::new();
    assert_eq!(app.target_pid, None);
    press(&mut app, 'k');
    assert_eq!(app.input_mode, InputMode::Normal);
}

#[test]
fn filter_typing_and_escape() {
    let mut app = app_with(&[(1, "alpha", 3), (2, "beta", 2)]);
    press(&mut app, '/');
    assert_eq!(app.input_mode, InputMode::Filter);
    press(&mut app, 'b');
    press(&mut app, 'e');
    assert_eq!(app.filter_query, "be");
    assert_eq!(app.view_pipeline.len(), 1);
    assert_eq!(app.selected, Some(0));
    assert_eq!(app.target_pid, Some(2));
    app.handle_input(InputEvent::Backspace);
    assert_eq!(app.filter_query, "b");
    app.handle_input(InputEvent::Esc);
    assert_eq!(app.input_mode, InputMode::Normal);
    assert_eq!(app.filter_query, "");
    assert_eq!(app.view_pipeline.len(), 2);
}

#[test]
fn quitting_and_switching_tabs() {
    let mut app = AppState::new();
    assert_eq!(press(&mut app, 'q'), Command::Quit);
    assert_eq!(press(&mut app, '2'), Command::FadeTab);
    assert_eq!(app.active_tab, Tab::Ekg);
    assert_eq!(press(&mut app, '2'), Command::Stay);
}

#[test]
fn help_blocks_sorting_and_pausing() {
    let mut app = AppState::new();
    press(&mut app, '?');
    assert!(app.show_help);
    press(&mut app, 'm');
    press(&mut app, 'p');
    assert_eq!(app.sort_mode, SortMode::Cpu);
    assert!(!app.paused);
    app.handle_input(InputEvent::Esc);
    assert!(!app.show_help);
    press(&mut app, 'm');
    press(&mut app, 'p');
    assert_eq!(app.sort_mode, SortMode::Memory);
    assert!(app.paused);
}

#[test]
fn tree_toggle_twice_restores_view() {
    let mut app = app_with(&[(1, "a", 1)]);
    press(&mut app, 't');
    assert_eq!(app.view_mode, ViewMode::Container);
    assert!(matches!(app.view_pipeline[0], ViewRow::ContainerHeader { .. }));
    assert_eq!(app.target_pid, None);
    press(&mut app, 't');
    assert_eq!(app.view_mode, ViewMode::Flat);
    assert_eq!(app.target_pid, Some(1));
}

#[test]
fn paused_state_ignores_ticks() {
    let mut app = app_with(&[(1, "a", 1)]);
    app.paused = true;
    let before = app.snapshots.clone();
    app.apply_tick(TelemetryFrame {
        processes: HashMap::new(),
        cpu_map: HashMap::new(),
        cpu_total: 0,
        global_cpu_utilization: Share::zero(),
        global_mem_utilization: Share::zero(),
        network: NetworkStats::new(),
        disk_sectors_read: 9,
        disk_sectors_written: 9,
    });
    assert_eq!(app.snapshots, before);
    assert_eq!(app.prev_disk_read, 0);
}

#[test]
fn disk_history_starts_after_first_total() {
    let mut app = AppState::new();
    let frame = |r: u64, w: u64| TelemetryFrame {
        processes: HashMap::new(),
        cpu_map: HashMap::new(),
        cpu_total: 0,
        global_cpu_utilization: Share::zero(),
        global_mem_utilization: Share::zero(),
        network: NetworkStats::new(),
        disk_sectors_read: r,
        disk_sectors_written: w,
    };
    app.apply_tick(frame(100, 200));
    assert!(app.disk_read_history.is_empty());
    app.apply_tick(frame(150, 180));
    assert_eq!(app.disk_read_history.back(), Some(&50));
    assert_eq!(app.disk_write_history.back(), Some(&0));
}

#[test]
fn pause_and_help_toggle_back() {
    let mut app = AppState::new();
    press(&mut app, 'p');
    assert!(app.paused);
    press(&mut app, 'p');
    assert!(!app.paused);
    press(&mut app, '?');
    assert!(app.show_help);
    press(&mut app, '?');
    assert!(!app.show_help);
}

#[test]
fn no_signal_outside_confirmation() {
    let mut app = app_with(&[(9, "nine", 1)]);
    app.handle_input(InputEvent::NoInput);
    assert_eq!(app.target_pid, Some(9));
    assert_eq!(press(&mut app, 'K'), Command::Stay);
    assert_eq!(press(&mut app, 'T'), Command::Stay);
    press(&mut app, '/');
    assert_eq!(press(&mut app, 'K'), Command::Stay);
    assert_eq!(app.filter_query, "K");
}
