use pacer_daemon::procfs::{cpu_ticks, parse_established_peers, vm_rss};

/// The unit of the status file's memory fields.
const VM_RSS_UNIT_BYTES: f64 = 1024.0;

fn parse_vm_rss_bytes(status: &str) -> Option<f64> {
    let kib: f64 = vm_rss(status)?.parse().ok()?;
    Some(kib * VM_RSS_UNIT_BYTES)
}

#[test]
fn vm_rss_is_kibibytes() {
    // Verbatim shape of the real file, including the fields around VmRSS.
    let status = "Name:\tpacer-daemon\nVmHWM:\t 8413628 kB\nVmRSS:\t 8413628 kB\nThreads:\t97\n";
    let bytes = parse_vm_rss_bytes(status).expect("VmRSS present");
    assert_eq!(bytes, 8_413_628.0 * 1024.0);
    assert!((bytes / (1024.0 * 1024.0 * 1024.0) - 8.02).abs() < 0.01);
}

#[test]
fn vm_rss_absent_or_malformed_is_none() {
    // A kernel without VmRSS (or a kthread) must not panic the scrape.
    assert!(parse_vm_rss_bytes("Name:\tx\nThreads:\t1\n").is_none());
    // A present-but-unparseable value is equally a no-sample, not a zero:
    // reporting 0 would look like a daemon that freed all its memory.
    assert!(parse_vm_rss_bytes("VmRSS:\t notanumber kB\n").is_none());
    assert!(parse_vm_rss_bytes("VmRSS:\n").is_none());
}

/// A real `/proc/net/tcp`: real header, real column order, so the field offsets are
/// exercised rather than assumed. `1D02A8C0` and `1E02A8C0` are two endpoints;
/// `01BB` is 443 and `0050` is 80; `st` 01 is ESTABLISHED and 06 is TIME_WAIT.
const PROC_NET_TCP: &str = "\
  sl  local_address rem_address   st tx_queue rx_queue tr tm->when retrnsmt   uid  timeout inode
   0: 0100007F:2382 1D02A8C0:01BB 01 00000000:00000000 00:00000000 00000000  1000        0 12345
   1: 0100007F:2383 1D02A8C0:01BB 01 00000000:00000000 00:00000000 00000000  1000        0 12346
   2: 0100007F:2384 1E02A8C0:01BB 01 00000000:00000000 00:00000000 00000000  1000        0 12347
   3: 0100007F:2385 1D02A8C0:01BB 06 00000000:00000000 00:00000000 00000000  1000        0 12348
   4: 0100007F:2386 1D02A8C0:0050 01 00000000:00000000 00:00000000 00000000  1000        0 12349
";

#[test]
fn established_peers_counts_connections_and_distinct_endpoints() {
    assert_eq!(parse_established_peers(&[PROC_NET_TCP], 443), (3, 2));
}

#[test]
fn a_socket_that_is_not_established_is_not_counted() {
    let (connections, _) = parse_established_peers(&[PROC_NET_TCP], 443);
    assert_eq!(connections, 3, "TIME_WAIT must not be counted");
}

#[test]
fn another_port_is_a_different_question() {
    assert_eq!(parse_established_peers(&[PROC_NET_TCP], 80), (1, 1));
    assert_eq!(parse_established_peers(&[PROC_NET_TCP], 9000), (0, 0));
}

#[test]
fn both_address_families_are_summed() {
    let v6 = "\
  sl  local_address                         remote_address                        st
   0: 00000000000000000000000001000000:2387 20010DB8000000000000000000000001:01BB 01
";
    assert_eq!(parse_established_peers(&[PROC_NET_TCP, v6], 443), (4, 3));
}

#[test]
fn junk_and_emptiness_yield_zero_rather_than_panicking() {
    assert_eq!(parse_established_peers(&[""], 443), (0, 0));
    assert_eq!(parse_established_peers(&["header only\n"], 443), (0, 0));
    assert_eq!(parse_established_peers(&["h\nshort line\n"], 443), (0, 0));
}

/// A port is four digits, in either case.
#[test]
fn a_port_is_read_in_either_case() {
    let lower = "h\n 0: a:1 A1:01bb 01\n";
    assert_eq!(parse_established_peers(&[lower], 443), (1, 1));
    let short = "h\n 0: a:1 A1:1BB 01\n 1: a:1 A1:001BB 01\n 2: a:1 A1 01\n";
    assert_eq!(parse_established_peers(&[short], 443), (0, 0));
    let top = "h\n 0: a:1 A1:FFFF 01\n 1: a:1 A2:ffff 01\n";
    assert_eq!(parse_established_peers(&[top], 65_535), (2, 2));
}

/// The same address in both tables is one endpoint.
#[test]
fn an_address_counts_once_over_all_tables() {
    assert_eq!(
        parse_established_peers(&[PROC_NET_TCP, PROC_NET_TCP], 443),
        (6, 2)
    );
}

#[test]
fn a_command_may_hold_brackets_and_spaces() {
    let stat = "42 (a ) b) R 1 2 3 4 5 6 7 8 9 10 700 33 0 0";
    assert_eq!(cpu_ticks(stat), Some((700, 33)));
    assert_eq!(cpu_ticks("42 (x) R 1 2 3"), None);
    assert_eq!(cpu_ticks("no bracket"), None);
    assert_eq!(cpu_ticks("42 (x) R 1 2 3 4 5 6 7 8 9 10 seven 33"), None);
}
