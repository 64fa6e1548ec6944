use pulse::tui::display::{format_bytes, has_more_siblings, is_link_up, row_severity, Severity};
use std::collections::HashMap;

#[test]
fn bytes_in_binary_units() {
    assert_eq!(format_bytes(0), "0.00 KiB");
    assert_eq!(format_bytes(1536), "1.50 KiB");
    assert_eq!(format_bytes(1024 * 1024), "1024.00 KiB");
    assert_eq!(format_bytes(1024 * 1024 + 1), "1.00 MiB");
    assert_eq!(format_bytes(5 * 1024 * 1024 * 1024 / 2), "2.50 GiB");
    assert_eq!(format_bytes(100_000), "97.66 KiB");
}

#[test]
fn tree_siblings() {
    let pids = [1u32, 2, 3, 4, 5];
    let mut depths = HashMap::new();
    depths.insert(1u32, 0usize);
    depths.insert(2, 1);
    depths.insert(3, 2);
    depths.insert(4, 1);
    // pid 5 has no depth: 0
    assert!(has_more_siblings(1, 1, &pids, &depths));
    assert!(!has_more_siblings(2, 2, &pids, &depths));
    assert!(!has_more_siblings(3, 1, &pids, &depths));
    assert!(has_more_siblings(0, 0, &pids, &depths));
    assert!(!has_more_siblings(4, 0, &pids, &depths));
    assert!(!has_more_siblings(usize::MAX, 0, &pids, &depths));
}

#[test]
fn severity_thresholds() {
    assert_eq!(row_severity(71, 100, 0), Severity::Critical);
    assert_eq!(row_severity(70, 100, 0), Severity::Warning);
    assert_eq!(row_severity(30, 100, 0), Severity::Normal);
    assert_eq!(row_severity(0, 100, 1_000_001), Severity::Critical);
    assert_eq!(row_severity(0, 100, 500_001), Severity::Warning);
    assert_eq!(row_severity(5, 0, 0), Severity::Normal);
}

#[test]
fn link_states() {
    assert!(is_link_up("up"));
    assert!(is_link_up("unknown"));
    assert!(!is_link_up("down"));
    assert!(!is_link_up("UP"));
}
