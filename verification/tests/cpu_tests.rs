use pulse::system::cpu::{checked_total_cpu_time, parse_total_cpu_time};

#[test]
fn test_parse_total_cpu_time_valid() {
    let sample = "cpu  1000 200 300 4000 500 600 700 0 0 0\ncpu0 500 100 150 2000...\n";
    let total = parse_total_cpu_time(sample);
    // 1000 + 200 + 300 + 4000 + 500 + 600 + 700 = 7300
    assert_eq!(total, 7300);
}

#[test]
fn test_parse_total_cpu_time_short_or_malformed() {
    assert_eq!(parse_total_cpu_time("cpu 10 20"), 30);
    assert_eq!(parse_total_cpu_time("cpu invalid bad"), 0);
    assert_eq!(parse_total_cpu_time(""), 0);
}

#[test]
fn total_cpu_time_of_proc_stat_fixture() {
    let content = "cpu  123456 7890 23456 987654 3456 123 456 0 0 0\ncpu0 1 2 3 4 5 6 7 0 0 0\nintr 1 2 3\n";
    assert_eq!(parse_total_cpu_time(content), 1_146_491);
}

#[test]
fn checked_total_cpu_time_reports_overflow() {
    assert_eq!(checked_total_cpu_time("cpu 18446744073709551615 1"), None);
    assert_eq!(checked_total_cpu_time("cpu 18446744073709551615 0"), Some(u64::MAX));
}
