use pulse::system::state::{parse_diskstats, parse_global_jiffies, parse_network_dev};

#[test]
fn test_parse_global_jiffies_valid() {
    let line = "cpu  1000 100 300 5000 200 50 10 0 0 0";
    let jiffies = parse_global_jiffies(line).expect("Should parse cpu line");
    assert_eq!(jiffies.total, 6660);
    assert_eq!(jiffies.idle, 5200); // 5000 + 200
}

#[test]
fn test_parse_global_jiffies_malformed() {
    assert!(parse_global_jiffies("cpu0 100 200").is_none());
    assert!(parse_global_jiffies("not_cpu 100 200").is_none());
}

#[test]
fn global_jiffies_needs_four_numbers() {
    assert!(parse_global_jiffies("cpu 1 2 3").is_none());
    let j = parse_global_jiffies("cpu 1 x 2 3 4\n").expect("four numbers");
    assert_eq!(j.total, 10);
    assert_eq!(j.idle, 4);
}

#[test]
fn global_jiffies_of_fixture() {
    let j = parse_global_jiffies("cpu  123456 7890 23456 987654 3456 123 456 0 0 0\n").expect("Parse global jiffies");
    assert_eq!(j.total, 1_146_491);
    assert_eq!(j.idle, 987654 + 3456);
}

#[test]
fn test_parse_diskstats_valid() {
    let mock_diskstats = r#"   8       0 sda 1000 0 8000 100 2000 0 16000 200 0 300 300
   7       0 loop0 500 0 4000 50 0 0 0 0 0 0 0
 259       0 nvme0n1 3000 0 24000 150 4000 0 32000 250 0 400 400
"#;
    let (read_sectors, write_sectors) =
        parse_diskstats(mock_diskstats).expect("Should parse diskstats");
    assert_eq!(read_sectors, 32000);
    assert_eq!(write_sectors, 48000);
}

#[test]
fn diskstats_skips_ram_and_zram_and_short_lines() {
    let content = "1 0 ram0 1 1 100 1 1 1 100\n2 0 zram0 1 1 100 1 1 1 100\n3 0\n8 0 sdb 1 1 7 1 1 1 9\n";
    assert_eq!(parse_diskstats(content), Some((7, 9)));
}

#[test]
fn diskstats_overflow_is_none() {
    let content = "8 0 sda 0 0 18446744073709551615 0 0 0 0\n8 1 sdb 0 0 1 0 0 0 0\n";
    assert_eq!(parse_diskstats(content), None);
}

#[test]
fn test_parse_network_dev_logic() {
    let mock_proc_net_dev = r#"Inter-|   Receive                                                |  Transmit
 face |bytes    packets errs drop fifo frame compressed multicast|bytes    packets errs drop fifo colls carrier compressed
    lo: 100 0 0 0 0 0 0 0 200 0 0 0 0 0 0 0
  eth0: 0 0 0 0 0 0 0 0 0 0 0 0 0 0 0 0
  wlan0: 500 0 0 0 0 0 0 0 600 0 0 0 0 0 0 0
"#;
    let entries = parse_network_dev(mock_proc_net_dev);
    assert_eq!(entries.len(), 2);
    assert_eq!(entries[0].name, "lo");
    assert_eq!((entries[0].rx_bytes, entries[0].tx_bytes), (100, 200));
    assert_eq!(entries[1].name, "wlan0");
    assert_eq!((entries[1].rx_bytes, entries[1].tx_bytes), (500, 600));
}

#[test]
fn test_parse_network_stats_empty_and_malformed() {
    assert!(parse_network_dev("").is_empty());
    let malformed = r#"Inter-|   Receive
 interface |bytes
eth0:123 0 0 0 0 0 0 0 456 0 0 0 0 0 0 0
invalid_line_without_colon
"#;
    let entries = parse_network_dev(malformed);
    assert_eq!(entries.len(), 1);
    assert_eq!(entries[0].name, "eth0");
    assert_eq!((entries[0].rx_bytes, entries[0].tx_bytes), (123, 456));
}

#[test]
fn diskstats_add_up_over_parts() {
    let a = "   8       0 sda 1000 0 8000 100 2000 0 16000 200 0 300 300\n";
    let b = "   7       0 loop0 500 0 4000 50 0 0 0 0 0 0 0\n 259 0 nvme0n1 3000 0 24000 150 4000 0 32000 250 0 400 400\n";
    let (ra, wa) = parse_diskstats(a).unwrap();
    let (rb, wb) = parse_diskstats(b).unwrap();
    let joined = format!("{a}{b}");
    assert_eq!(parse_diskstats(&joined), Some((ra + rb, wa + wb)));
    let with_ram = format!("{a}   1 0 ram0 9 9 9 9 9 9 9 9\n");
    assert_eq!(parse_diskstats(&with_ram), Some((ra, wa)));
}
