use portscope::chars::{parse_u16, parse_u32, parse_u64};
use portscope::model::Protocol;
use portscope::tables::{extract_port, parse_identity_table, parse_memory, parse_path_table,
    parse_process_table, parse_socket_table};

#[test]
fn parse_u64_reads_plain_decimals() {
    assert_eq!(parse_u64("0"), Some(0));
    assert_eq!(parse_u64("5124"), Some(5124));
    assert_eq!(parse_u64("18446744073709551615"), Some(u64::MAX));
}

#[test]
fn parse_u64_rejects_empty_signs_and_overflow() {
    assert_eq!(parse_u64(""), None);
    assert_eq!(parse_u64("+12"), None);
    assert_eq!(parse_u64("-12"), None);
    assert_eq!(parse_u64("12 "), None);
    assert_eq!(parse_u64("18446744073709551616"), None);
}

#[test]
fn parse_u32_and_u16_respect_their_bounds() {
    assert_eq!(parse_u32("4294967295"), Some(u32::MAX));
    assert_eq!(parse_u32("4294967296"), None);
    assert_eq!(parse_u16("65535"), Some(u16::MAX));
    assert_eq!(parse_u16("65536"), None);
}

#[test]
fn extract_port_reads_the_part_after_the_last_colon() {
    assert_eq!(extract_port("0.0.0.0:8080"), Some(8080));
    assert_eq!(extract_port("[::1]:443"), Some(443));
    assert_eq!(extract_port("127.0.0.1:80"), Some(80));
}

#[test]
fn extract_port_rejects_missing_or_oversized_ports() {
    assert_eq!(extract_port("noport"), None);
    assert_eq!(extract_port("1.2.3.4:"), None);
    assert_eq!(extract_port("1.2.3.4:99999"), None);
}

#[test]
fn parse_memory_keeps_only_digits() {
    assert_eq!(parse_memory("5,124 K"), 5124);
    assert_eq!(parse_memory("12,345 K"), 12345);
    assert_eq!(parse_memory("42"), 42);
}

#[test]
fn parse_memory_defaults_to_zero() {
    assert_eq!(parse_memory(""), 0);
    assert_eq!(parse_memory("abc K"), 0);
    assert_eq!(parse_memory("99999999999999999999999"), 0);
}

#[test]
fn socket_table_keeps_listening_tcp_and_udp_rows() {
    let text = "\r\nActive Connections\r\n\r\n  Proto  Local Address          Foreign Address        State           PID\r\n  TCP    0.0.0.0:8080           0.0.0.0:0              LISTENING       100\r\n  TCP    10.0.0.5:50000         93.184.216.34:443      ESTABLISHED     7\r\n  UDP    [::]:53                *:*                    LISTENING       200\r\n";
    let rows = parse_socket_table(text);
    assert_eq!(rows.len(), 2);
    assert_eq!(rows[0].port, 8080);
    assert!(rows[0].protocol == Protocol::Tcp);
    assert_eq!(rows[0].owning_pid, 100);
    assert_eq!(rows[1].port, 53);
    assert!(rows[1].protocol == Protocol::Udp);
    assert_eq!(rows[1].owning_pid, 200);
}

#[test]
fn socket_table_first_owner_of_a_port_wins() {
    let text = "TCP 0.0.0.0:8080 0.0.0.0:0 LISTENING 100\nTCP [::]:8080 [::]:0 LISTENING 999\n";
    let rows = parse_socket_table(text);
    assert_eq!(rows.len(), 1);
    assert_eq!(rows[0].owning_pid, 100);
}

#[test]
fn socket_table_skips_malformed_rows() {
    let text = "garbage\nTCP short LISTENING\nXXX 0.0.0.0:1 0.0.0.0:0 LISTENING 5\nTCP 0.0.0.0:nan 0.0.0.0:0 LISTENING 5\nTCP 0.0.0.0:22 0.0.0.0:0 LISTENING nan\nTCP 0.0.0.0:22 0.0.0.0:0 LISTENING 7\n";
    let rows = parse_socket_table(text);
    assert_eq!(rows.len(), 1);
    assert_eq!(rows[0].port, 22);
    assert_eq!(rows[0].owning_pid, 7);
}

#[test]
fn identity_table_reads_quoted_csv_rows() {
    let text = "\"myapp.exe\",\"100\",\"Console\",\"1\",\"5,000 K\"\r\n\"other.exe\",\"250\",\"Console\",\"1\",\"64 K\"\r\n";
    let rows = parse_identity_table(text);
    assert_eq!(rows.len(), 2);
    assert_eq!(rows[0].pid, 100);
    assert_eq!(rows[0].name, "myapp.exe");
    assert_eq!(rows[1].pid, 250);
    assert_eq!(rows[1].name, "other.exe");
}

#[test]
fn identity_table_skips_pid_zero_and_unparsable_rows() {
    let text = "\"System Idle Process\",\"0\",\"Services\",\"0\",\"8 K\"\nnotacsvrow\n\"ok.exe\",\"nan\",\"x\",\"1\",\"1 K\"\n\"ok.exe\",\"33\"\n";
    let rows = parse_identity_table(text);
    assert_eq!(rows.len(), 1);
    assert_eq!(rows[0].pid, 33);
    assert_eq!(rows[0].name, "ok.exe");
}

#[test]
fn process_table_reads_memory_column() {
    let text = "\"big.exe\",\"10\",\"Console\",\"1\",\"5124 K\"\n\"small.exe\",\"11\",\"Console\",\"1\",\"64 K\"\n";
    let rows = parse_process_table(text);
    assert_eq!(rows.len(), 2);
    assert_eq!(rows[0].pid, 10);
    assert_eq!(rows[0].memory_kb, 5124);
    assert_eq!(rows[1].memory_kb, 64);
}

#[test]
fn process_table_memory_with_inner_comma_is_cut_at_the_comma() {
    // The table is split at every comma, quoted or not, so a memory
    // column written "5,124 K" contributes only the digits before
    // its comma.
    let text = "\"big.exe\",\"10\",\"Console\",\"1\",\"5,124 K\"\n";
    let rows = parse_process_table(text);
    assert_eq!(rows.len(), 1);
    assert_eq!(rows[0].memory_kb, 5);
}

#[test]
fn path_table_skips_header_and_empty_paths() {
    let text = "Node,ExecutablePath,ProcessId\r\nHOST,C:\\apps\\myapp.exe,100\r\nHOST,,200\r\nHOST,C:\\x.exe,nan\r\n";
    let rows = parse_path_table(text);
    assert_eq!(rows.len(), 1);
    assert_eq!(rows[0].pid, 100);
    assert_eq!(rows[0].path, "C:\\apps\\myapp.exe");
}
