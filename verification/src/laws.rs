//! The correlation guarantees, proved once for every input: how the
//! port view degrades when the identity or path feed knows nothing
//! of a process.

use vstd::prelude::*;
use crate::correlate::{by_port, detail_of, details_model, entry_model, lookup_detail,
    lookup_name, lookup_path, port_view_model};
use crate::model::{DetailRowModel, ListeningSocket, NameRowModel, PathRowModel};
use crate::sorting::lemma_stable_sorted_contains;
use crate::tables::{dedup_ports, path_of_line, path_rows, path_table};

verus! {

/// Looking a pid up in the joined detail rows answers exactly what
/// the identity and path feeds answer separately: the identity
/// feed's name when it knows the pid, joined with the path feed's
/// path, and nothing otherwise.
pub proof fn lemma_details_lookup(names: Seq<NameRowModel>, paths: Seq<PathRowModel>, pid: u32)
    ensures
        match lookup_name(names, pid) {
            Some(nm) => lookup_detail(details_model(names, paths), pid) == Some(
                DetailRowModel { pid, name: nm, exe_path: lookup_path(paths, pid) },
            ),
            None => lookup_detail(details_model(names, paths), pid) is None,
        },
    decreases names.len(),
{
    let m = details_model(names, paths);
    if names.len() == 0 {
        assert(m.len() == 0);
    } else {
        let body = names.drop_last();
        lemma_details_lookup(body, paths, pid);
        assert(m.last() == detail_of(names.last(), paths));
        assert(m.drop_last() =~= details_model(body, paths));
    }
}

/// Every entry of the port view is the entry of one of the deduped
/// sockets.
proof fn lemma_view_entry_origin(
    sockets: Seq<ListeningSocket>,
    details: Seq<DetailRowModel>,
    i: int,
) -> (j: int)
    requires
        0 <= i < port_view_model(sockets, details).len(),
    ensures
        0 <= j < dedup_ports(sockets).len(),
        port_view_model(sockets, details)[i] == entry_model(dedup_ports(sockets)[j], details),
{
    let mapped = dedup_ports(sockets).map_values(|s: ListeningSocket| entry_model(s, details));
    let out = port_view_model(sockets, details);
    assert(out.contains(out[i]));
    lemma_stable_sorted_contains(mapped, by_port(), out[i]);
    let j = choose|j: int| 0 <= j < mapped.len() && mapped[j] == out[i];
    j
}

/// A pid the identity feed does not know degrades to the `Unknown`
/// placeholder, and carries no path: the entry is kept, never
/// omitted, and its name is never empty.
pub proof fn lemma_missing_identity_is_unknown(
    sockets: Seq<ListeningSocket>,
    names: Seq<NameRowModel>,
    paths: Seq<PathRowModel>,
    i: int,
)
    requires
        0 <= i < port_view_model(sockets, details_model(names, paths)).len(),
        lookup_name(
            names,
            port_view_model(sockets, details_model(names, paths))[i].pid,
        ) is None,
    ensures
        port_view_model(sockets, details_model(names, paths))[i].process_name == "Unknown"@,
        port_view_model(sockets, details_model(names, paths))[i].executable_path is None,
{
    let details = details_model(names, paths);
    let j = lemma_view_entry_origin(sockets, details, i);
    let s = dedup_ports(sockets)[j];
    lemma_details_lookup(names, paths, s.owning_pid);
}

/// A pid the path feed does not know leaves `executable_path`
/// unset, whatever the identity feed says.
pub proof fn lemma_missing_path_is_unset(
    sockets: Seq<ListeningSocket>,
    names: Seq<NameRowModel>,
    paths: Seq<PathRowModel>,
    i: int,
)
    requires
        0 <= i < port_view_model(sockets, details_model(names, paths)).len(),
        lookup_path(
            paths,
            port_view_model(sockets, details_model(names, paths))[i].pid,
        ) is None,
    ensures
        port_view_model(sockets, details_model(names, paths))[i].executable_path is None,
{
    let details = details_model(names, paths);
    let j = lemma_view_entry_origin(sockets, details, i);
    let s = dedup_ports(sockets)[j];
    lemma_details_lookup(names, paths, s.owning_pid);
}

/// Every path the path-query parser keeps is nonempty.
proof fn lemma_path_rows_nonempty(lns: Seq<Seq<char>>, k: int)
    requires
        0 <= k < path_rows(lns).len(),
    ensures
        path_rows(lns)[k].path.len() > 0,
    decreases lns.len(),
{
    if lns.len() > 0 {
        let rest = path_rows(lns.drop_last());
        match path_of_line(lns.last()) {
            Some(m) => {
                if k < rest.len() {
                    lemma_path_rows_nonempty(lns.drop_last(), k);
                }
            },
            None => {
                lemma_path_rows_nonempty(lns.drop_last(), k);
            },
        }
    }
}

/// A found path is the path of some row of the feed.
proof fn lemma_lookup_path_found(paths: Seq<PathRowModel>, pid: u32) -> (j: int)
    requires
        lookup_path(paths, pid) is Some,
    ensures
        0 <= j < paths.len(),
        paths[j].path == lookup_path(paths, pid)->Some_0,
    decreases paths.len(),
{
    if paths.last().pid == pid {
        paths.len() - 1
    } else {
        lemma_lookup_path_found(paths.drop_last(), pid)
    }
}

/// In a port view whose path feed came from parsing a path-query
/// text, a recorded executable path is never the empty string: a
/// missing path is represented as unset, not as empty.
pub proof fn lemma_recorded_paths_nonempty(
    sockets: Seq<ListeningSocket>,
    names: Seq<NameRowModel>,
    text: Seq<char>,
    i: int,
)
    requires
        0 <= i < port_view_model(sockets, details_model(names, path_table(text))).len(),
    ensures
        match port_view_model(sockets, details_model(names, path_table(text)))[i]
            .executable_path {
            Some(p) => p.len() > 0,
            None => true,
        },
{
    let paths = path_table(text);
    let details = details_model(names, paths);
    let view = port_view_model(sockets, details);
    let j = lemma_view_entry_origin(sockets, details, i);
    let s = dedup_ports(sockets)[j];
    lemma_details_lookup(names, paths, s.owning_pid);
    if view[i].executable_path is Some {
        assert(lookup_path(paths, s.owning_pid) is Some);
        let k = lemma_lookup_path_found(paths, s.owning_pid);
        lemma_path_rows_nonempty(
            crate::split::split_at_sep(text, '\n').drop_first(),
            k,
        );
    }
}

} // verus!
