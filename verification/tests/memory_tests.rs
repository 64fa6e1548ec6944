use pulse::system::memory::{memory_usage, parse_meminfo};

#[test]
fn test_parse_meminfo_valid() {
    let sample = "MemTotal:       16384000 kB\nMemFree:         4000000 kB\nMemAvailable:    8000000 kB\nBuffers:          500000 kB\n";
    let (total, avail) = parse_meminfo(sample);
    assert_eq!(total, 16_384_000);
    assert_eq!(avail, 8_000_000);
}

#[test]
fn test_parse_meminfo_malformed_or_missing() {
    let (total, avail) = parse_meminfo("MemTotal: invalid\nSomeOtherKey: 1234");
    assert_eq!(total, 0);
    assert_eq!(avail, 0);
}

#[test]
fn meminfo_later_line_overrides() {
    let (total, avail) = parse_meminfo("MemTotal: 10 kB\nMemTotal: 20 kB\r\nMemAvailable: 5 kB");
    assert_eq!(total, 20);
    assert_eq!(avail, 5);
}

#[test]
fn memory_usage_shares() {
    let s = memory_usage(1000, 400);
    assert_eq!((s.part, s.whole), (600, 1000));
    let s = memory_usage(0, 500);
    assert_eq!((s.part, s.whole), (0, 0));
    let s = memory_usage(1000, 1000);
    assert_eq!((s.part, s.whole), (0, 1000));
    let s = memory_usage(1000, 0);
    assert_eq!((s.part, s.whole), (1000, 1000));
    let s = memory_usage(1000, 1200);
    assert_eq!((s.part, s.whole), (0, 1000));
    let s = memory_usage(16_000_000_000, 4_000_000_000);
    assert_eq!((s.part, s.whole), (12_000_000_000, 16_000_000_000));
}

use pulse::system::memory::memory_usage_percent;

// Percentages are in hundredths of a percent: 6000 stands for 60%.

#[test]
fn test_memory_usage_percent_normal() {
    let percent = memory_usage_percent(1000, 400);
    assert_eq!(percent, 6000);
}

#[test]
fn test_memory_usage_percent_zero_total() {
    let percent = memory_usage_percent(0, 500);
    assert_eq!(percent, 0);
}

#[test]
fn test_memory_usage_percent_available_equals_total() {
    let percent = memory_usage_percent(1000, 1000);
    assert_eq!(percent, 0);
}

#[test]
fn test_memory_usage_percent_available_zero() {
    let percent = memory_usage_percent(1000, 0);
    assert_eq!(percent, 10000);
}

#[test]
fn test_memory_usage_percent_available_greater_than_total() {
    let percent = memory_usage_percent(1000, 1200);
    assert_eq!(percent, 0);
}

#[test]
fn test_memory_usage_percent_large_values() {
    let total = 16_000_000_000u64; // ~16 GB in KB
    let available = 4_000_000_000u64; // ~4 GB in KB
    let percent = memory_usage_percent(total, available);
    assert_eq!(percent, 7500);
}

#[test]
fn memory_usage_percent_rounds_to_nearest_hundredth() {
    // 1/3 of the memory in use: 33.33%
    assert_eq!(memory_usage_percent(3, 2), 3333);
    // 2/3: 66.67%
    assert_eq!(memory_usage_percent(3, 1), 6667);
    // 12.996% shows as 13.00%
    assert_eq!(memory_usage_percent(1_000_000, 1_000_000 - 129_960), 1300);
    // exactly halfway rounds up: 0.005%
    assert_eq!(memory_usage_percent(20_000, 19_999), 1);
}
