use pulse::system::collector::parse_stat_content;
use pulse::system::process::{
    parse_comm, parse_process_cpu_time, parse_status_extra_info, parse_vm_rss,
};

#[test]
fn test_parse_comm() {
    assert_eq!(parse_comm(" bash \n"), "bash");
}

#[test]
fn fixture_test_comm() {
    assert_eq!(parse_comm("pulse-worker\n"), "pulse-worker");
}

#[test]
fn test_parse_vm_rss() {
    let status = "Name:\tbash\nState:\tS (sleeping)\nVmRSS:\t   1024 kB\nThreads:\t1\n";
    assert_eq!(parse_vm_rss(status), Some(1024));
    assert_eq!(parse_vm_rss("Name:\tbash\n"), None);
}

#[test]
fn vm_rss_first_line_decides() {
    assert_eq!(parse_vm_rss("VmRSS:\n VmRSS: 5 kB\nVmRSS: 7 kB\n"), None);
    assert_eq!(parse_vm_rss("VmRSS: x\nVmRSS: 7 kB\n"), None);
}

#[test]
fn test_parse_process_cpu_time_standard_and_with_spaces() {
    let standard = "100 (bash) S 1 100 100 0 -1 4194304 1000 0 0 0 400 100 0 0 20 0 1 0";
    assert_eq!(parse_process_cpu_time(standard), Some(500));

    let with_spaces =
        "200 (code helper (renderer)) S 1 200 200 0 -1 4194304 1000 0 0 0 800 200 0 0 20 0 1 0";
    assert_eq!(parse_process_cpu_time(with_spaces), Some(1000));
}

#[test]
fn process_cpu_time_malformed() {
    assert_eq!(parse_process_cpu_time("1 (a S 1"), None);
    assert_eq!(parse_process_cpu_time("1 (a) S 1 2 3 4 5 6 7 8 9 10 11"), None);
}

#[test]
fn test_parse_status_extra_info() {
    let status = "Name:\tbash\nState:\tS (sleeping)\nPPid:\t42\nThreads:\t4\n";
    let (ppid, threads, state) = parse_status_extra_info(status);
    assert_eq!(ppid, 42);
    assert_eq!(threads, 4);
    assert_eq!(state, "S (sleeping)");
}

#[test]
fn status_extra_info_defaults() {
    let (ppid, threads, state) = parse_status_extra_info("Name:\tx\nPPid:\tnope\n");
    assert_eq!(ppid, 0);
    assert_eq!(threads, 0);
    assert_eq!(state, "Unknown");
}

#[test]
fn status_of_fixture() {
    let content = "Name:\tpulse-worker\nState:\tR (running)\nPPid:\t1\nThreads:\t8\nVmRSS:\t    8192 kB\n";
    assert_eq!(parse_vm_rss(content), Some(8192));
    let (ppid, threads, state) = parse_status_extra_info(content);
    assert_eq!(ppid, 1);
    assert_eq!(threads, 8);
    assert_eq!(state, "R (running)");
}

#[test]
fn stat_readers_agree_on_cpu_time() {
    let content = "42 (a (b) c) S 1 42 42 0 -1 4194304 10 0 0 0 77 23 0 0 20 0 1 0 5 100 9 18446744073709551615";
    let rec = parse_stat_content(content, 42, 4).expect("full record");
    assert_eq!(rec.cpu_time, 100);
    assert_eq!(parse_process_cpu_time(content), Some(rec.cpu_time));
    assert_eq!(rec.name, "a (b) c");
    assert_eq!(rec.memory_kb, 36);
}
