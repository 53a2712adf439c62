use portscope::model::{Collector, OpError, Protocol};
use portscope::ops::{get_network_overview, hostname_from_output, kill_by_port,
    kill_by_port_report, kill_process, list_processes, scan_all_listening_ports};

const SOCKETS: &str = "  TCP    0.0.0.0:8080   0.0.0.0:0   LISTENING   100\r\n";

#[test]
fn scan_correlates_socket_identity_and_path() {
    let sockets = String::from(SOCKETS);
    let identities = String::from("\"myapp.exe\",\"100\",\"Console\",\"1\",\"5,000 K\"\r\n");
    let entries = scan_all_listening_ports(Some(&sockets), Some(&identities), None).unwrap();
    assert_eq!(entries.len(), 1);
    assert_eq!(entries[0].port, 8080);
    assert!(entries[0].protocol == Protocol::Tcp);
    assert_eq!(entries[0].pid, 100);
    assert_eq!(entries[0].process_name, "myapp.exe");
    assert!(entries[0].executable_path.is_none());
}

#[test]
fn scan_degrades_to_unknown_without_identity_match() {
    let sockets = String::from(SOCKETS);
    let identities = String::new();
    let entries = scan_all_listening_ports(Some(&sockets), Some(&identities), None).unwrap();
    assert_eq!(entries.len(), 1);
    assert_eq!(entries[0].port, 8080);
    assert_eq!(entries[0].process_name, "Unknown");
    assert!(entries[0].executable_path.is_none());
}

#[test]
fn scan_joins_paths_only_through_known_identities() {
    let sockets = String::from(
        "TCP 0.0.0.0:80 0.0.0.0:0 LISTENING 100\nTCP 0.0.0.0:81 0.0.0.0:0 LISTENING 200\n",
    );
    let identities = String::from("\"known.exe\",\"100\",\"Console\",\"1\",\"1 K\"\n");
    let paths = String::from("Node,ExecutablePath,ProcessId\nH,C:\\known.exe,100\nH,C:\\lost.exe,200\n");
    let entries =
        scan_all_listening_ports(Some(&sockets), Some(&identities), Some(&paths)).unwrap();
    assert_eq!(entries.len(), 2);
    assert_eq!(entries[0].port, 80);
    assert_eq!(entries[0].executable_path.as_deref(), Some("C:\\known.exe"));
    assert_eq!(entries[1].port, 81);
    assert_eq!(entries[1].process_name, "Unknown");
    assert!(entries[1].executable_path.is_none());
}

#[test]
fn scan_sorts_strictly_ascending_with_one_entry_per_port() {
    let sockets = String::from(
        "TCP 0.0.0.0:443 0.0.0.0:0 LISTENING 3\nTCP 0.0.0.0:22 0.0.0.0:0 LISTENING 1\nTCP 0.0.0.0:443 0.0.0.0:0 LISTENING 9\nUDP 0.0.0.0:53 *:* LISTENING 2\n",
    );
    let identities = String::new();
    let entries = scan_all_listening_ports(Some(&sockets), Some(&identities), None).unwrap();
    let ports: Vec<u16> = entries.iter().map(|e| e.port).collect();
    assert_eq!(ports, vec![22, 53, 443]);
    assert_eq!(entries[2].pid, 3);
}

#[test]
fn scan_fails_atomically_when_a_required_collector_fails() {
    let sockets = String::from(SOCKETS);
    let r = scan_all_listening_ports(Some(&sockets), None, None);
    assert_eq!(
        r.unwrap_err(),
        OpError::CollectorUnavailable { collector: Collector::Identities }
    );
    let r2 = scan_all_listening_ports(None, None, None);
    assert_eq!(
        r2.unwrap_err(),
        OpError::CollectorUnavailable { collector: Collector::Sockets }
    );
}

#[test]
fn kill_by_port_resolves_the_owning_pid() {
    let sockets = String::from(SOCKETS);
    assert_eq!(kill_by_port(Some(&sockets), 8080), Ok(100));
}

#[test]
fn kill_by_port_resolves_to_the_first_owner_of_a_duplicated_port() {
    let sockets = String::from(
        "TCP 0.0.0.0:8080 0.0.0.0:0 LISTENING 100\nTCP [::]:8080 [::]:0 LISTENING 999\n",
    );
    assert_eq!(kill_by_port(Some(&sockets), 8080), Ok(100));
}

#[test]
fn scan_of_a_table_without_listeners_is_empty() {
    let sockets = String::from("TCP 10.0.0.5:50000 93.184.216.34:443 ESTABLISHED 7\r\n");
    let identities = String::new();
    let entries = scan_all_listening_ports(Some(&sockets), Some(&identities), None).unwrap();
    assert!(entries.is_empty());
}

#[test]
fn kill_by_port_without_listener_is_not_found() {
    let sockets = String::from(SOCKETS);
    assert_eq!(
        kill_by_port(Some(&sockets), 9999),
        Err(OpError::NotFound { port: 9999 })
    );
}

#[test]
fn kill_by_port_without_socket_feed_fails_as_unavailable() {
    assert_eq!(
        kill_by_port(None, 8080),
        Err(OpError::CollectorUnavailable { collector: Collector::Sockets })
    );
}

#[test]
fn kill_reports_name_the_target() {
    assert_eq!(kill_process(42, true).unwrap(), "Killed PID 42");
    assert_eq!(
        kill_process(42, false).unwrap_err(),
        OpError::TerminationFailed { pid: 42 }
    );
    assert_eq!(
        kill_by_port_report(100, 8080, true).unwrap(),
        "Killed PID 100 on port 8080"
    );
    assert_eq!(
        kill_by_port_report(100, 8080, false).unwrap_err(),
        OpError::TerminationFailed { pid: 100 }
    );
}

#[test]
fn error_messages_carry_the_failed_step_and_target() {
    assert_eq!(
        OpError::CollectorUnavailable { collector: Collector::Sockets }.message(),
        "Failed to run netstat"
    );
    assert_eq!(
        OpError::CollectorUnavailable { collector: Collector::Identities }.message(),
        "Failed to run tasklist"
    );
    assert_eq!(
        OpError::NotFound { port: 9999 }.message(),
        "No process found on port 9999"
    );
    assert_eq!(
        OpError::TerminationFailed { pid: 42 }.message(),
        "Failed to kill PID 42"
    );
}

#[test]
fn list_processes_sorts_descending_by_memory_with_stable_ties() {
    let table = String::from(
        "\"small.exe\",\"11\",\"Console\",\"1\",\"64 K\"\n\"big.exe\",\"10\",\"Console\",\"1\",\"5124 K\"\n\"tie-a.exe\",\"20\",\"Console\",\"1\",\"64 K\"\n",
    );
    let infos = list_processes(Some(&table), None).unwrap();
    assert_eq!(infos.len(), 3);
    assert_eq!(infos[0].name, "big.exe");
    assert_eq!(infos[0].memory_kb, 5124);
    assert_eq!(infos[1].name, "small.exe");
    assert_eq!(infos[2].name, "tie-a.exe");
}

#[test]
fn list_processes_joins_paths_and_skips_pid_zero() {
    let table = String::from(
        "\"System Idle Process\",\"0\",\"Services\",\"0\",\"8 K\"\n\"app.exe\",\"100\",\"Console\",\"1\",\"10 K\"\n",
    );
    let paths = String::from("Node,ExecutablePath,ProcessId\nH,C:\\app.exe,100\n");
    let infos = list_processes(Some(&table), Some(&paths)).unwrap();
    assert_eq!(infos.len(), 1);
    assert_eq!(infos[0].pid, 100);
    assert_eq!(infos[0].executable_path.as_deref(), Some("C:\\app.exe"));
}

#[test]
fn list_processes_without_table_fails_as_unavailable() {
    let r = list_processes(None, None);
    assert_eq!(
        r.unwrap_err(),
        OpError::CollectorUnavailable { collector: Collector::Identities }
    );
}

#[test]
fn hostname_is_trimmed_or_falls_back_to_unknown() {
    let raw = String::from("  myhost\r\n");
    assert_eq!(hostname_from_output(Some(&raw)), "myhost");
    assert_eq!(hostname_from_output(None), "unknown");
}

#[test]
fn network_overview_needs_a_route_but_not_a_hostname() {
    let ip = String::from("10.0.0.5");
    let o = get_network_overview(Some(&ip), None).unwrap();
    assert_eq!(o.local_ip, "10.0.0.5");
    assert_eq!(o.hostname, "unknown");
    let host = String::from("box-1\n");
    let o2 = get_network_overview(Some(&ip), Some(&host)).unwrap();
    assert_eq!(o2.hostname, "box-1");
    let r = get_network_overview(None, Some(&host));
    assert!(matches!(
        r,
        Err(OpError::CollectorUnavailable { collector: Collector::LocalAddress })
    ));
}
