//! The public operations: scanning, listing, termination decisions,
//! and the network self-description.
//!
//! Each operation takes the captured output of the external tools it
//! depends on as an optional string — absent when the tool could not
//! be run — so that the decision logic is verified for every feed the
//! shell can hand in.  The shell alone runs the tools and, for the
//! termination operations, issues the kill request the decision
//! names.

use vstd::prelude::*;
use vstd::string::StringExecFns;
use crate::correlate::{build_port_view, build_process_view, collect_process_details,
    descending_memory, details_model, port_view_model, process_view_model,
    strictly_ascending_ports};
use crate::model::{Collector, ListeningSocket, NetworkOverview, OpError, PathRowModel, PortEntry,
    PortEntryModel, ProcessInfo, ProcessInfoModel};
use crate::render::{killed_message, killed_on_port_message, render_killed, render_killed_on_port};
use crate::split::blank_trimmed;
use crate::split::trim_blank;
use crate::tables::{identity_table, parse_identity_table, parse_path_table, parse_process_table,
    parse_socket_table, path_table, process_table, socket_table};

verus! {

/// The text a shell handed in, when the tool ran.
pub open spec fn opt_text(o: Option<&String>) -> Option<Seq<char>> {
    match o {
        Some(t) => Some(t@),
        None => None,
    }
}

/// The path mapping of an optional path-query output: empty when
/// the best-effort query did not run.
pub open spec fn paths_of(path_text: Option<Seq<char>>) -> Seq<PathRowModel> {
    match path_text {
        Some(t) => path_table(t),
        None => Seq::<PathRowModel>::empty(),
    }
}

/// The port view the three feeds denote.
pub open spec fn scan_model(
    socket_text: Seq<char>,
    identity_text: Seq<char>,
    path_text: Option<Seq<char>>,
) -> Seq<PortEntryModel> {
    port_view_model(
        socket_table(socket_text),
        details_model(identity_table(identity_text), paths_of(path_text)),
    )
}

/// The process view the two feeds denote.
pub open spec fn list_model(
    process_text: Seq<char>,
    path_text: Option<Seq<char>>,
) -> Seq<ProcessInfoModel> {
    process_view_model(process_table(process_text), paths_of(path_text))
}

/// Scans for listening sockets: parses the socket and process
/// feeds, joins them, and returns the port view sorted ascending by
/// port.  The socket and identity feeds are required; the path feed
/// is best-effort and its absence only leaves paths unset.
pub fn scan_all_listening_ports(
    socket_text: Option<&String>,
    identity_text: Option<&String>,
    path_text: Option<&String>,
) -> (r: Result<Vec<PortEntry>, OpError>)
    ensures
        socket_text is None ==> r == Err::<Vec<PortEntry>, OpError>(
            OpError::CollectorUnavailable { collector: Collector::Sockets },
        ),
        socket_text is Some && identity_text is None ==> r == Err::<Vec<PortEntry>, OpError>(
            OpError::CollectorUnavailable { collector: Collector::Identities },
        ),
        match (socket_text, identity_text) {
            (Some(st), Some(it)) => (r matches Ok(v) && v.deep_view() == scan_model(
                st@,
                it@,
                opt_text(path_text),
            ) && strictly_ascending_ports(v.deep_view())),
            _ => true,
        },
{
    match socket_text {
        None => Err(OpError::CollectorUnavailable { collector: Collector::Sockets }),
        Some(st) => match identity_text {
            None => Err(OpError::CollectorUnavailable { collector: Collector::Identities }),
            Some(it) => {
                let sockets = parse_socket_table(st.as_str());
                let names = parse_identity_table(it.as_str());
                let paths = match path_text {
                    Some(pt) => parse_path_table(pt.as_str()),
                    None => Vec::new(),
                };
                proof {
                    if path_text is None {
                        assert(paths.deep_view() =~= Seq::<PathRowModel>::empty());
                    }
                }
                let details = collect_process_details(&names, &paths);
                Ok(build_port_view(&sockets, &details))
            },
        },
    }
}

/// Lists the running processes with their memory use and paths,
/// heaviest first.  The process feed is required; the path feed is
/// best-effort.
pub fn list_processes(process_text: Option<&String>, path_text: Option<&String>) -> (r: Result<
    Vec<ProcessInfo>,
    OpError,
>)
    ensures
        process_text is None ==> r == Err::<Vec<ProcessInfo>, OpError>(
            OpError::CollectorUnavailable { collector: Collector::Identities },
        ),
        process_text matches Some(pt) ==> (r matches Ok(v) && v.deep_view() == list_model(
            pt@,
            opt_text(path_text),
        ) && descending_memory(v.deep_view())),
{
    match process_text {
        None => Err(OpError::CollectorUnavailable { collector: Collector::Identities }),
        Some(pt) => {
            let rows = parse_process_table(pt.as_str());
            let paths = match path_text {
                Some(xt) => parse_path_table(xt.as_str()),
                None => Vec::new(),
            };
            proof {
                if path_text is None {
                    assert(paths.deep_view() =~= Seq::<PathRowModel>::empty());
                }
            }
            Ok(build_process_view(&rows, &paths))
        },
    }
}

/// The pid owning `port` in the collected socket mapping, in which
/// the first socket seen on a port won.
pub open spec fn port_owner(rows: Seq<ListeningSocket>, port: u16) -> Option<u32>
    decreases rows.len(),
{
    if rows.len() == 0 {
        None
    } else if rows[0].port == port {
        Some(rows[0].owning_pid)
    } else {
        port_owner(rows.drop_first(), port)
    }
}

fn find_port_owner(rows: &Vec<ListeningSocket>, port: u16) -> (r: Option<u32>)
    ensures
        r == port_owner(rows@, port),
{
    proof {
        assert(rows@.subrange(0, rows@.len() as int) =~= rows@);
    }
    let mut i: usize = 0;
    while i < rows.len()
        invariant
            0 <= i <= rows@.len(),
            port_owner(rows@, port) == port_owner(rows@.subrange(i as int, rows@.len() as int), port),
        decreases rows@.len() - i,
    {
        proof {
            assert(rows@.subrange(i as int, rows@.len() as int)[0] == rows@[i as int]);
            assert(rows@.subrange(i as int, rows@.len() as int).drop_first() =~= rows@.subrange(
                i + 1,
                rows@.len() as int,
            ));
        }
        if rows[i].port == port {
            return Some(rows[i].owning_pid);
        }
        i = i + 1;
    }
    None
}

/// Resolves which pid a termination by port must target: re-reads
/// the socket feed and looks the port up.  Fails as `NotFound` when
/// no listening socket currently owns the port, so that no
/// termination request is issued for a port nobody listens on.
pub fn kill_by_port(socket_text: Option<&String>, port: u16) -> (r: Result<u32, OpError>)
    ensures
        socket_text is None ==> r == Err::<u32, OpError>(
            OpError::CollectorUnavailable { collector: Collector::Sockets },
        ),
        socket_text matches Some(st) ==> r == (match port_owner(socket_table(st@), port) {
            Some(pid) => Ok::<u32, OpError>(pid),
            None => Err::<u32, OpError>(OpError::NotFound { port }),
        }),
{
    match socket_text {
        None => Err(OpError::CollectorUnavailable { collector: Collector::Sockets }),
        Some(st) => {
            let sockets = parse_socket_table(st.as_str());
            match find_port_owner(&sockets, port) {
                Some(pid) => Ok(pid),
                None => Err(OpError::NotFound { port }),
            }
        },
    }
}

/// Turns the exit status of a termination request by pid into the
/// operation's report.
pub fn kill_process(pid: u32, kill_succeeded: bool) -> (r: Result<String, OpError>)
    ensures
        kill_succeeded ==> (r matches Ok(m) && m@ == killed_message(pid)),
        !kill_succeeded ==> r == Err::<String, OpError>(OpError::TerminationFailed { pid }),
{
    if kill_succeeded {
        Ok(render_killed(pid))
    } else {
        Err(OpError::TerminationFailed { pid })
    }
}

/// Turns the exit status of a termination request resolved by port
/// into the operation's report.
pub fn kill_by_port_report(pid: u32, port: u16, kill_succeeded: bool) -> (r: Result<
    String,
    OpError,
>)
    ensures
        kill_succeeded ==> (r matches Ok(m) && m@ == killed_on_port_message(pid, port)),
        !kill_succeeded ==> r == Err::<String, OpError>(OpError::TerminationFailed { pid }),
{
    if kill_succeeded {
        Ok(render_killed_on_port(pid, port))
    } else {
        Err(OpError::TerminationFailed { pid })
    }
}

/// The displayable hostname: the name-reporting tool's output with
/// blank space trimmed, or the literal fallback when the tool could
/// not be run.
pub open spec fn hostname_model(out: Option<Seq<char>>) -> Seq<char> {
    match out {
        Some(t) => blank_trimmed(t),
        None => "unknown"@,
    }
}

/// Trims the name-reporting tool's output, falling back to the
/// literal `unknown`.
pub fn hostname_from_output(out: Option<&String>) -> (r: String)
    ensures
        r@ == hostname_model(opt_text(out)),
{
    match out {
        Some(t) => trim_blank(t.as_str()),
        None => String::from_str("unknown"),
    }
}

/// Describes the machine itself: its outbound-routable address,
/// which is required, and its hostname, which is best-effort.
pub fn get_network_overview(local_ip: Option<&String>, hostname_out: Option<&String>) -> (r:
    Result<NetworkOverview, OpError>)
    ensures
        local_ip is None ==> (r matches Err(e) && e == (OpError::CollectorUnavailable {
            collector: Collector::LocalAddress,
        })),
        local_ip matches Some(ip) ==> (r matches Ok(o) && o.local_ip@ == ip@ && o.hostname@
            == hostname_model(opt_text(hostname_out))),
{
    match local_ip {
        None => Err(OpError::CollectorUnavailable { collector: Collector::LocalAddress }),
        Some(ip) => Ok(
            NetworkOverview {
                local_ip: ip.clone(),
                hostname: hostname_from_output(hostname_out),
            },
        ),
    }
}

} // verus!
