use pulse::system::collector::{page_size_kb, parse_stat_content};

#[test]
fn test_parse_stat_content_normal() {
    let sample = "1234 (bash) S 100 1234 1234 0 -1 4194304 1000 0 0 0 300 150 0 0 20 0 1 0 12345 1000000 500 18446744073709551615";
    let proc = parse_stat_content(sample, 1234, 4).expect("Failed to parse stat content");

    assert_eq!(proc.pid, 1234);
    assert_eq!(proc.ppid, 100);
    assert_eq!(proc.name, "bash");
    assert_eq!(proc.cpu_time, 450); // utime(300) + stime(150)
    assert_eq!(proc.memory_kb, 2000); // rss(500) * page_size_kb(4)
}

#[test]
fn test_parse_stat_content_with_spaces_and_parens_in_comm() {
    let sample = "9999 (code helper (renderer)) S 1 9999 9999 0 -1 4194304 1000 0 0 0 1000 500 0 0 20 0 1 0 12345 1000000 1024 18446744073709551615";
    let proc = parse_stat_content(sample, 9999, 4).expect("Failed to parse complex comm");

    assert_eq!(proc.pid, 9999);
    assert_eq!(proc.ppid, 1);
    assert_eq!(proc.name, "code helper (renderer)");
    assert_eq!(proc.cpu_time, 1500);
    assert_eq!(proc.memory_kb, 4096);
}

#[test]
fn test_parse_stat_content_malformed() {
    // Missing closing paren
    assert!(parse_stat_content("1234 (bash S 100 1234", 1234, 4).is_none());
    // Inverted parens
    assert!(parse_stat_content("1234 )bash( S 100 1234", 1234, 4).is_none());
    // Missing numeric fields
    assert!(parse_stat_content("1234 (bash) S abc def", 1234, 4).is_none());
}

#[test]
fn stat_content_from_pulse_worker_fixture() {
    let content = "54321 (pulse-worker (pool)) R 1 54321 54321 0 -1 4194304 500 0 0 0 1200 400 0 0 20 0 4 0 99999 123456789 2048 18446744073709551615\n";
    let proc = parse_stat_content(content, 54321, 4).expect("Parse stat content");
    assert_eq!(proc.pid, 54321);
    assert_eq!(proc.ppid, 1);
    assert_eq!(proc.name, "pulse-worker (pool)");
    assert_eq!(proc.cpu_time, 1600);
    assert_eq!(proc.memory_kb, 8192);
}

#[test]
fn stat_content_rejects_overflowing_cpu_time() {
    let content = "7 (x) S 1 0 0 0 0 0 0 0 0 0 18446744073709551615 1 0 0 0 0 0 0 0 0 10";
    assert!(parse_stat_content(content, 7, 4).is_none());
}

#[test]
fn stat_content_accepts_plus_sign_like_from_str() {
    let content = "7 (x) S +1 0 0 0 0 0 0 0 0 0 +5 6 0 0 0 0 0 0 0 0 10";
    let proc = parse_stat_content(content, 7, 4).expect("parse");
    assert_eq!(proc.ppid, 1);
    assert_eq!(proc.cpu_time, 11);
    assert_eq!(proc.memory_kb, 40);
}

#[test]
fn stat_content_with_too_few_fields_is_none() {
    assert!(parse_stat_content("1 (a) S 1 2 3", 1, 4).is_none());
}

#[test]
fn page_size_normalisation() {
    assert_eq!(page_size_kb(4096), 4);
    assert_eq!(page_size_kb(65536), 64);
    assert_eq!(page_size_kb(0), 4);
    assert_eq!(page_size_kb(-1), 4);
}
