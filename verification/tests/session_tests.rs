use mirage::session::{
    check_established, is_sandbox_bwrap_exec, leak_warning_lines, parse_stat_ppid, sandboxed_pids, should_warn_leak,
};

const TCP_HEADER: &str = "  sl  local_address rem_address   st tx_queue rx_queue tr tm->when retrnsmt   uid  timeout inode";

#[test]
fn established_rows_are_found_after_the_header() {
    let listen = format!("{}\n   0: 0100007F:0277 00000000:0000 0A 00000000:00000000 00:00000000 00000000 0 0 1\n", TCP_HEADER);
    assert!(!check_established(&listen));
    let est = format!("{}\n   1: 0100007F:0277 0100007F:9A3C 01 00000000:00000000 00:00000000 00000000 0 0 2\n", TCP_HEADER);
    assert!(check_established(&est));
    // the header itself is never read as a row
    assert!(!check_established("a b c 01\n"));
    assert!(!check_established(""));
}

#[test]
fn parent_pid_follows_the_command_name() {
    assert_eq!(parse_stat_ppid("1234 (bash) S 1000 1234 1234 0 -1"), Some(1000));
    assert_eq!(parse_stat_ppid("99 (odd) name) R 7 99"), Some(7));
    assert_eq!(parse_stat_ppid("no paren here"), None);
    assert_eq!(parse_stat_ppid("5 (x) S"), None);
}

#[test]
fn sandbox_bwrap_is_recognised_by_its_command_line() {
    assert!(is_sandbox_bwrap_exec("bwrap\n", "bwrap\0--bind\0/tmp/mirage-42/hostname\0"));
    assert!(is_sandbox_bwrap_exec("bwrap", "bash\0-c\0export MIRAGE_PROFILE=x"));
    assert!(!is_sandbox_bwrap_exec("bwrap", "bwrap\0--bind\0/\0/"));
    assert!(!is_sandbox_bwrap_exec("bash", "/tmp/mirage-1"));
}

#[test]
fn descendants_of_the_sandbox_are_found() {
    let roots = vec![10];
    let procs = vec![(11, 10), (12, 11), (13, 1), (14, 12), (10, 1)];
    let mut got = sandboxed_pids(&roots, &procs);
    got.sort();
    assert_eq!(got, vec![10, 11, 12, 14]);
}

#[test]
fn leak_warning_only_when_both_sides_are_online() {
    assert!(should_warn_leak(true, true, false));
    assert!(!should_warn_leak(true, true, true));
    assert!(!should_warn_leak(true, false, false));
    assert!(!should_warn_leak(false, true, false));
}

#[test]
fn leak_warning_text() {
    let lines = leak_warning_lines(4321, None);
    assert_eq!(lines.len(), 9);
    assert_eq!(lines[0], "\n[WARN] SESSION BOUNDARY LEAK RISK");
    assert_eq!(lines[1], "Sandboxed process 4321 (profile: unknown) and host process");
    assert_eq!(lines[2], "1 (systemd) are both active on the network at the");
    assert_eq!(leak_warning_lines(1, Some("init"))[2], "1 (init) are both active on the network at the");
}
