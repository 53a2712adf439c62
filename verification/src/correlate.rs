//! The correlation engine: joins the socket, identity, and path
//! feeds by process identifier into the sorted port and process
//! views.

use vstd::prelude::*;
use vstd::relations::sorted_by;
use vstd::string::StringExecFns;
use crate::model::{opt_str_view, DetailRow, DetailRowModel, ListeningSocket, NameRow,
    NameRowModel, PathRow, PathRowModel, PortEntry, PortEntryModel, ProcessDetail, ProcessInfo,
    ProcessInfoModel, ProcessRow, ProcessRowModel};
use crate::sorting::{insert_sorted, lemma_insert_sorted_splice, lemma_stable_sorted_sorted,
    stable_sorted};
use crate::tables::{dedup_ports, lemma_dedup_ports_distinct, lemma_dedup_ports_same_ports,
    vec_has_port};

verus! {

/// The path recorded for `pid`, the latest row winning as in a
/// keyed map filled row by row.
pub open spec fn lookup_path(paths: Seq<PathRowModel>, pid: u32) -> Option<Seq<char>>
    decreases paths.len(),
{
    if paths.len() == 0 {
        None
    } else if paths.last().pid == pid {
        Some(paths.last().path)
    } else {
        lookup_path(paths.drop_last(), pid)
    }
}

/// The display name recorded for `pid`, the latest row winning.
pub open spec fn lookup_name(names: Seq<NameRowModel>, pid: u32) -> Option<Seq<char>>
    decreases names.len(),
{
    if names.len() == 0 {
        None
    } else if names.last().pid == pid {
        Some(names.last().name)
    } else {
        lookup_name(names.drop_last(), pid)
    }
}

/// The correlated detail recorded for `pid`, the latest row winning.
pub open spec fn lookup_detail(details: Seq<DetailRowModel>, pid: u32) -> Option<DetailRowModel>
    decreases details.len(),
{
    if details.len() == 0 {
        None
    } else if details.last().pid == pid {
        Some(details.last())
    } else {
        lookup_detail(details.drop_last(), pid)
    }
}

/// What one identity fact turns into once the path feed is joined
/// against it.
pub open spec fn detail_of(nr: NameRowModel, paths: Seq<PathRowModel>) -> DetailRowModel {
    DetailRowModel { pid: nr.pid, name: nr.name, exe_path: lookup_path(paths, nr.pid) }
}

/// The identity feed joined against the path feed, row by row.
pub open spec fn details_model(names: Seq<NameRowModel>, paths: Seq<PathRowModel>) -> Seq<
    DetailRowModel,
> {
    names.map_values(|nr: NameRowModel| detail_of(nr, paths))
}

/// Looks up the latest path recorded for `pid`.
pub fn find_path(paths: &Vec<PathRow>, pid: u32) -> (r: Option<String>)
    ensures
        opt_str_view(r) == lookup_path(paths.deep_view(), pid),
{
    let ghost pdv = paths.deep_view();
    proof {
        assert(pdv.subrange(0, pdv.len() as int) =~= pdv);
    }
    let mut j: usize = paths.len();
    while j > 0
        invariant
            0 <= j <= paths@.len(),
            pdv == paths.deep_view(),
            lookup_path(pdv, pid) == lookup_path(pdv.subrange(0, j as int), pid),
        decreases j,
    {
        proof {
            assert(pdv.subrange(0, j as int).last() == pdv[j - 1]);
            assert(pdv.subrange(0, j as int).drop_last() =~= pdv.subrange(0, j - 1));
            assert(pdv[j - 1] == paths@[j - 1]@);
        }
        if paths[j - 1].pid == pid {
            return Some(paths[j - 1].path.clone());
        }
        j = j - 1;
    }
    proof {
        assert(pdv.subrange(0, 0) =~= Seq::<PathRowModel>::empty());
    }
    None
}

/// Looks up the latest correlated detail recorded for `pid`.
fn find_detail(details: &Vec<DetailRow>, pid: u32) -> (r: Option<ProcessDetail>)
    ensures
        match r {
            Some(d) => lookup_detail(details.deep_view(), pid) == Some(
                DetailRowModel { pid, name: d.name@, exe_path: opt_str_view(d.exe_path) },
            ),
            None => lookup_detail(details.deep_view(), pid) is None,
        },
{
    let ghost ddv = details.deep_view();
    proof {
        assert(ddv.subrange(0, ddv.len() as int) =~= ddv);
    }
    let mut j: usize = details.len();
    while j > 0
        invariant
            0 <= j <= details@.len(),
            ddv == details.deep_view(),
            lookup_detail(ddv, pid) == lookup_detail(ddv.subrange(0, j as int), pid),
        decreases j,
    {
        proof {
            assert(ddv.subrange(0, j as int).last() == ddv[j - 1]);
            assert(ddv.subrange(0, j as int).drop_last() =~= ddv.subrange(0, j - 1));
            assert(ddv[j - 1] == details@[j - 1]@);
        }
        if details[j - 1].pid == pid {
            let d = &details[j - 1].detail;
            let exe = match &d.exe_path {
                Some(p) => Some(p.clone()),
                None => None,
            };
            return Some(ProcessDetail { name: d.name.clone(), exe_path: exe });
        }
        j = j - 1;
    }
    proof {
        assert(ddv.subrange(0, 0) =~= Seq::<DetailRowModel>::empty());
    }
    None
}

/// Joins the identity feed against the path feed: one detail row
/// per identity row, in order, each carrying the path recorded for
/// its pid, when any.
pub fn collect_process_details(names: &Vec<NameRow>, paths: &Vec<PathRow>) -> (r: Vec<DetailRow>)
    ensures
        r.deep_view() == details_model(names.deep_view(), paths.deep_view()),
{
    let ghost full = details_model(names.deep_view(), paths.deep_view());
    let mut out: Vec<DetailRow> = Vec::new();
    proof {
        assert(out.deep_view() =~= full.subrange(0, 0));
    }
    let mut i: usize = 0;
    while i < names.len()
        invariant
            0 <= i <= names@.len(),
            full == details_model(names.deep_view(), paths.deep_view()),
            full.len() == names@.len(),
            out.deep_view() == full.subrange(0, i as int),
        decreases names@.len() - i,
    {
        let ghost pre = out.deep_view();
        let exe = find_path(paths, names[i].pid);
        let row = DetailRow {
            pid: names[i].pid,
            detail: ProcessDetail { name: names[i].name.clone(), exe_path: exe },
        };
        proof {
            assert(names.deep_view()[i as int] == names@[i as int]@);
            assert(row@ == full[i as int]);
        }
        out.push(row);
        proof {
            assert(out.deep_view() =~= pre.push(row@));
            assert(full.subrange(0, i + 1) =~= full.subrange(0, i as int).push(full[i as int]));
        }
        i = i + 1;
    }
    proof {
        assert(full.subrange(0, names@.len() as int) =~= full);
    }
    out
}

/// The port-view entry one listening socket yields: its identity
/// when the detail feed knows the pid, the `Unknown` placeholder and
/// no path otherwise.
pub open spec fn entry_model(s: ListeningSocket, details: Seq<DetailRowModel>) -> PortEntryModel {
    match lookup_detail(details, s.owning_pid) {
        Some(d) => PortEntryModel {
            port: s.port,
            protocol: s.protocol,
            pid: s.owning_pid,
            process_name: d.name,
            executable_path: d.exe_path,
        },
        None => PortEntryModel {
            port: s.port,
            protocol: s.protocol,
            pid: s.owning_pid,
            process_name: "Unknown"@,
            executable_path: None,
        },
    }
}

/// Entries are ordered by port, ascending.
pub open spec fn by_port() -> spec_fn(PortEntryModel, PortEntryModel) -> bool {
    |a: PortEntryModel, b: PortEntryModel| a.port <= b.port
}

/// Process entries are ordered by memory use, heaviest first.
pub open spec fn by_memory() -> spec_fn(ProcessInfoModel, ProcessInfoModel) -> bool {
    |a: ProcessInfoModel, b: ProcessInfoModel| a.memory_kb >= b.memory_kb
}

/// The whole port view: one entry per port, first socket owning a
/// port winning, sorted ascending by port.
pub open spec fn port_view_model(
    sockets: Seq<ListeningSocket>,
    details: Seq<DetailRowModel>,
) -> Seq<PortEntryModel> {
    stable_sorted(
        dedup_ports(sockets).map_values(|s: ListeningSocket| entry_model(s, details)),
        by_port(),
    )
}

/// The whole process view: one entry per process row, joined with
/// its path, sorted descending by memory, ties in collector order.
pub open spec fn process_view_model(
    rows: Seq<ProcessRowModel>,
    paths: Seq<PathRowModel>,
) -> Seq<ProcessInfoModel> {
    stable_sorted(rows.map_values(|r: ProcessRowModel| info_model(r, paths)), by_memory())
}

/// The process-view entry one process row yields.
pub open spec fn info_model(row: ProcessRowModel, paths: Seq<PathRowModel>) -> ProcessInfoModel {
    ProcessInfoModel {
        pid: row.pid,
        name: row.name,
        memory_kb: row.memory_kb,
        executable_path: lookup_path(paths, row.pid),
    }
}

/// Ports strictly ascend: at most one entry per port, in order.
pub open spec fn strictly_ascending_ports(s: Seq<PortEntryModel>) -> bool {
    forall|i: int, j: int| 0 <= i < j < s.len() ==> #[trigger] s[i].port < #[trigger] s[j].port
}

/// Memory use never grows along the sequence: heaviest first.
pub open spec fn descending_memory(s: Seq<ProcessInfoModel>) -> bool {
    forall|i: int, j: int|
        0 <= i < j < s.len() ==> #[trigger] s[i].memory_kb >= #[trigger] s[j].memory_kb
}

/// Some entry of `s` sits on `port`.
pub open spec fn entries_have_port(s: Seq<PortEntryModel>, port: u16) -> bool {
    exists|i: int| 0 <= i < s.len() && #[trigger] s[i].port == port
}

/// No two entries of `s` share a port.
pub open spec fn entries_distinct_ports(s: Seq<PortEntryModel>) -> bool {
    forall|i: int, j: int| 0 <= i < j < s.len() ==> #[trigger] s[i].port != #[trigger] s[j].port
}

proof fn lemma_push_entries_have_port(s: Seq<PortEntryModel>, e: PortEntryModel, port: u16)
    ensures
        entries_have_port(s.push(e), port) <==> (entries_have_port(s, port) || e.port == port),
{
    if entries_have_port(s, port) {
        let i = choose|i: int| 0 <= i < s.len() && #[trigger] s[i].port == port;
        assert(s.push(e)[i].port == port);
    }
    if e.port == port {
        assert(s.push(e)[s.len() as int].port == port);
    }
    if entries_have_port(s.push(e), port) {
        let i = choose|i: int| 0 <= i < s.push(e).len() && #[trigger] s.push(e)[i].port == port;
        if i < s.len() {
            assert(s[i].port == port);
        }
    }
}

proof fn lemma_insert_entries_have_port(
    s: Seq<PortEntryModel>,
    e: PortEntryModel,
    leq: spec_fn(PortEntryModel, PortEntryModel) -> bool,
    port: u16,
)
    ensures
        entries_have_port(insert_sorted(s, e, leq), port) <==> (entries_have_port(s, port)
            || e.port == port),
    decreases s.len(),
{
    if s.len() == 0 {
        assert(insert_sorted(s, e, leq) =~= Seq::<PortEntryModel>::empty().push(e));
        lemma_push_entries_have_port(Seq::<PortEntryModel>::empty(), e, port);
    } else if leq(s.last(), e) {
        lemma_push_entries_have_port(s, e, port);
    } else {
        lemma_insert_entries_have_port(s.drop_last(), e, leq, port);
        lemma_push_entries_have_port(insert_sorted(s.drop_last(), e, leq), s.last(), port);
        assert(s =~= s.drop_last().push(s.last()));
        lemma_push_entries_have_port(s.drop_last(), s.last(), port);
    }
}

proof fn lemma_insert_entries_distinct(
    s: Seq<PortEntryModel>,
    e: PortEntryModel,
    leq: spec_fn(PortEntryModel, PortEntryModel) -> bool,
)
    requires
        entries_distinct_ports(s),
        !entries_have_port(s, e.port),
    ensures
        entries_distinct_ports(insert_sorted(s, e, leq)),
    decreases s.len(),
{
    if s.len() == 0 {
    } else if leq(s.last(), e) {
        let out = s.push(e);
        assert forall|i: int, j: int| 0 <= i < j < out.len() implies out[i].port
            != out[j].port by {
            if j == out.len() - 1 {
                if out[i].port == e.port {
                    assert(entries_have_port(s, e.port));
                }
            }
        }
    } else {
        let body = s.drop_last();
        assert(s =~= body.push(s.last()));
        lemma_push_entries_have_port(body, s.last(), e.port);
        lemma_insert_entries_distinct(body, e, leq);
        let ins = insert_sorted(body, e, leq);
        let out = ins.push(s.last());
        assert forall|i: int, j: int| 0 <= i < j < out.len() implies out[i].port
            != out[j].port by {
            if j == out.len() - 1 {
                if out[i].port == s.last().port {
                    assert(entries_have_port(ins, s.last().port));
                    lemma_insert_entries_have_port(body, e, leq, s.last().port);
                    if entries_have_port(body, s.last().port) {
                        let k = choose|k: int|
                            0 <= k < body.len() && #[trigger] body[k].port == s.last().port;
                        assert(s[k].port == s[s.len() - 1].port);
                    }
                }
            }
        }
    }
}

proof fn lemma_stable_sorted_distinct(
    s: Seq<PortEntryModel>,
    leq: spec_fn(PortEntryModel, PortEntryModel) -> bool,
)
    requires
        entries_distinct_ports(s),
    ensures
        entries_distinct_ports(stable_sorted(s, leq)),
        forall|p: u16|
            #[trigger] entries_have_port(stable_sorted(s, leq), p) <==> entries_have_port(s, p),
    decreases s.len(),
{
    if s.len() > 0 {
        let body = s.drop_last();
        assert(entries_distinct_ports(body)) by {
            assert forall|i: int, j: int| 0 <= i < j < body.len() implies body[i].port
                != body[j].port by {
                assert(s[i].port != s[j].port);
            }
        }
        lemma_stable_sorted_distinct(body, leq);
        assert(s =~= body.push(s.last()));
        assert(!entries_have_port(body, s.last().port)) by {
            if entries_have_port(body, s.last().port) {
                let k = choose|k: int|
                    0 <= k < body.len() && #[trigger] body[k].port == s.last().port;
                assert(s[k].port == s[s.len() - 1].port);
            }
        }
        lemma_insert_entries_distinct(stable_sorted(body, leq), s.last(), leq);
        assert forall|p: u16|
            #[trigger] entries_have_port(stable_sorted(s, leq), p) <==> entries_have_port(
            s,
            p,
        ) by {
            lemma_insert_entries_have_port(stable_sorted(body, leq), s.last(), leq, p);
            lemma_push_entries_have_port(body, s.last(), p);
        }
    }
}

fn clone_entry(e: &PortEntry) -> (r: PortEntry)
    ensures
        r@ == e@,
{
    let exe = match &e.executable_path {
        Some(p) => Some(p.clone()),
        None => None,
    };
    PortEntry {
        port: e.port,
        protocol: e.protocol,
        pid: e.pid,
        process_name: e.process_name.clone(),
        executable_path: exe,
    }
}

fn clone_info(e: &ProcessInfo) -> (r: ProcessInfo)
    ensures
        r@ == e@,
{
    let exe = match &e.executable_path {
        Some(p) => Some(p.clone()),
        None => None,
    };
    ProcessInfo {
        pid: e.pid,
        name: e.name.clone(),
        memory_kb: e.memory_kb,
        executable_path: exe,
    }
}

fn sort_entries_by_port(v: &Vec<PortEntry>) -> (r: Vec<PortEntry>)
    ensures
        r.deep_view() == stable_sorted(v.deep_view(), by_port()),
{
    let ghost vdv = v.deep_view();
    let mut out: Vec<PortEntry> = Vec::new();
    proof {
        assert(vdv.subrange(0, 0) =~= Seq::<PortEntryModel>::empty());
        assert(out.deep_view() =~= Seq::<PortEntryModel>::empty());
    }
    let mut i: usize = 0;
    while i < v.len()
        invariant
            0 <= i <= v@.len(),
            vdv == v.deep_view(),
            out.deep_view() == stable_sorted(vdv.subrange(0, i as int), by_port()),
        decreases v@.len() - i,
    {
        let e = clone_entry(&v[i]);
        proof {
            assert(e@ == vdv[i as int]);
        }
        let mut j: usize = out.len();
        while j > 0 && out[j - 1].port > e.port
            invariant
                0 <= j <= out@.len(),
                out@.len() == out.deep_view().len(),
                forall|k: int|
                    j <= k < out@.len() ==> #[trigger] out.deep_view()[k].port > e@.port,
            decreases j,
        {
            proof {
                assert(out.deep_view()[j - 1] == out@[j - 1]@);
            }
            j = j - 1;
        }
        let ghost pre = out.deep_view();
        out.insert(j, e);
        proof {
            assert(vdv.subrange(0, i + 1).drop_last() =~= vdv.subrange(0, i as int));
            assert(vdv.subrange(0, i + 1).last() == vdv[i as int]);
            lemma_insert_sorted_splice(pre, e@, by_port(), j as int);
            assert(out.deep_view() =~= pre.subrange(0, j as int).push(e@) + pre.subrange(
                j as int,
                pre.len() as int,
            ));
        }
        i = i + 1;
    }
    proof {
        assert(vdv.subrange(0, v@.len() as int) =~= vdv);
    }
    out
}

fn sort_infos_by_memory(v: &Vec<ProcessInfo>) -> (r: Vec<ProcessInfo>)
    ensures
        r.deep_view() == stable_sorted(v.deep_view(), by_memory()),
{
    let ghost vdv = v.deep_view();
    let mut out: Vec<ProcessInfo> = Vec::new();
    proof {
        assert(vdv.subrange(0, 0) =~= Seq::<ProcessInfoModel>::empty());
        assert(out.deep_view() =~= Seq::<ProcessInfoModel>::empty());
    }
    let mut i: usize = 0;
    while i < v.len()
        invariant
            0 <= i <= v@.len(),
            vdv == v.deep_view(),
            out.deep_view() == stable_sorted(vdv.subrange(0, i as int), by_memory()),
        decreases v@.len() - i,
    {
        let e = clone_info(&v[i]);
        proof {
            assert(e@ == vdv[i as int]);
        }
        let mut j: usize = out.len();
        while j > 0 && out[j - 1].memory_kb < e.memory_kb
            invariant
                0 <= j <= out@.len(),
                out@.len() == out.deep_view().len(),
                forall|k: int|
                    j <= k < out@.len() ==> #[trigger] out.deep_view()[k].memory_kb
                        < e@.memory_kb,
            decreases j,
        {
            proof {
                assert(out.deep_view()[j - 1] == out@[j - 1]@);
            }
            j = j - 1;
        }
        let ghost pre = out.deep_view();
        out.insert(j, e);
        proof {
            assert(vdv.subrange(0, i + 1).drop_last() =~= vdv.subrange(0, i as int));
            assert(vdv.subrange(0, i + 1).last() == vdv[i as int]);
            lemma_insert_sorted_splice(pre, e@, by_memory(), j as int);
            assert(out.deep_view() =~= pre.subrange(0, j as int).push(e@) + pre.subrange(
                j as int,
                pre.len() as int,
            ));
        }
        i = i + 1;
    }
    proof {
        assert(vdv.subrange(0, v@.len() as int) =~= vdv);
    }
    out
}

/// Builds the port view: one entry per listening socket, the first
/// owner of a port winning, identities joined in, sorted strictly
/// ascending by port.
pub fn build_port_view(sockets: &Vec<ListeningSocket>, details: &Vec<DetailRow>) -> (r: Vec<
    PortEntry,
>)
    ensures
        r.deep_view() == port_view_model(sockets@, details.deep_view()),
        strictly_ascending_ports(r.deep_view()),
{
    let mut uniq: Vec<ListeningSocket> = Vec::new();
    proof {
        assert(sockets@.subrange(0, 0) =~= Seq::<ListeningSocket>::empty());
    }
    let mut i: usize = 0;
    while i < sockets.len()
        invariant
            0 <= i <= sockets@.len(),
            uniq@ == dedup_ports(sockets@.subrange(0, i as int)),
        decreases sockets@.len() - i,
    {
        let ghost rows = sockets@.subrange(0, i as int);
        proof {
            assert(sockets@.subrange(0, i + 1).drop_last() =~= rows);
            assert(sockets@.subrange(0, i + 1).last() == sockets@[i as int]);
            lemma_dedup_ports_same_ports(rows, sockets@[i as int].port);
        }
        let s = sockets[i];
        if !vec_has_port(&uniq, s.port) {
            uniq.push(s);
        }
        i = i + 1;
    }
    proof {
        assert(sockets@.subrange(0, sockets@.len() as int) =~= sockets@);
    }
    let ghost mapped = dedup_ports(sockets@).map_values(
        |s: ListeningSocket| entry_model(s, details.deep_view()),
    );
    let mut entries: Vec<PortEntry> = Vec::new();
    proof {
        assert(entries.deep_view() =~= mapped.subrange(0, 0));
    }
    let mut k: usize = 0;
    while k < uniq.len()
        invariant
            0 <= k <= uniq@.len(),
            uniq@ == dedup_ports(sockets@),
            mapped == dedup_ports(sockets@).map_values(
                |s: ListeningSocket| entry_model(s, details.deep_view()),
            ),
            mapped.len() == uniq@.len(),
            entries.deep_view() == mapped.subrange(0, k as int),
        decreases uniq@.len() - k,
    {
        let ghost pre = entries.deep_view();
        let s = uniq[k];
        let entry = match find_detail(details, s.owning_pid) {
            Some(d) => PortEntry {
                port: s.port,
                protocol: s.protocol,
                pid: s.owning_pid,
                process_name: d.name,
                executable_path: d.exe_path,
            },
            None => PortEntry {
                port: s.port,
                protocol: s.protocol,
                pid: s.owning_pid,
                process_name: String::from_str("Unknown"),
                executable_path: None,
            },
        };
        proof {
            assert(entry@ == mapped[k as int]);
        }
        entries.push(entry);
        proof {
            assert(entries.deep_view() =~= pre.push(entry@));
            assert(mapped.subrange(0, k + 1) =~= mapped.subrange(0, k as int).push(
                mapped[k as int],
            ));
        }
        k = k + 1;
    }
    proof {
        assert(mapped.subrange(0, uniq@.len() as int) =~= mapped);
    }
    let out = sort_entries_by_port(&entries);
    proof {
        lemma_dedup_ports_distinct(sockets@);
        assert(entries_distinct_ports(mapped)) by {
            assert forall|a: int, b: int| 0 <= a < b < mapped.len() implies mapped[a].port
                != mapped[b].port by {
                assert(dedup_ports(sockets@)[a].port != dedup_ports(sockets@)[b].port);
            }
        }
        lemma_stable_sorted_distinct(mapped, by_port());
        assert(forall|a: PortEntryModel, b: PortEntryModel|
            #[trigger] by_port()(a, b) || #[trigger] by_port()(b, a));
        assert(forall|a: PortEntryModel, b: PortEntryModel, c: PortEntryModel|
            #[trigger] by_port()(a, b) && #[trigger] by_port()(b, c) ==> by_port()(a, c));
        lemma_stable_sorted_sorted(mapped, by_port());
        assert forall|a: int, b: int| 0 <= a < b < out.deep_view().len() implies
            out.deep_view()[a].port < out.deep_view()[b].port by {
            assert(by_port()(out.deep_view()[a], out.deep_view()[b]));
        }
    }
    out
}

/// Builds the process view: one entry per process row, its path
/// joined in, sorted descending by memory use, ties kept in
/// collector order.
pub fn build_process_view(rows: &Vec<ProcessRow>, paths: &Vec<PathRow>) -> (r: Vec<ProcessInfo>)
    ensures
        r.deep_view() == process_view_model(rows.deep_view(), paths.deep_view()),
        descending_memory(r.deep_view()),
{
    let ghost mapped = rows.deep_view().map_values(
        |m: ProcessRowModel| info_model(m, paths.deep_view()),
    );
    let mut infos: Vec<ProcessInfo> = Vec::new();
    proof {
        assert(infos.deep_view() =~= mapped.subrange(0, 0));
    }
    let mut k: usize = 0;
    while k < rows.len()
        invariant
            0 <= k <= rows@.len(),
            mapped == rows.deep_view().map_values(
                |m: ProcessRowModel| info_model(m, paths.deep_view()),
            ),
            mapped.len() == rows@.len(),
            infos.deep_view() == mapped.subrange(0, k as int),
        decreases rows@.len() - k,
    {
        let ghost pre = infos.deep_view();
        let exe = find_path(paths, rows[k].pid);
        let info = ProcessInfo {
            pid: rows[k].pid,
            name: rows[k].name.clone(),
            memory_kb: rows[k].memory_kb,
            executable_path: exe,
        };
        proof {
            assert(rows.deep_view()[k as int] == rows@[k as int]@);
            assert(info@ == mapped[k as int]);
        }
        infos.push(info);
        proof {
            assert(infos.deep_view() =~= pre.push(info@));
            assert(mapped.subrange(0, k + 1) =~= mapped.subrange(0, k as int).push(
                mapped[k as int],
            ));
        }
        k = k + 1;
    }
    proof {
        assert(mapped.subrange(0, rows@.len() as int) =~= mapped);
    }
    let out = sort_infos_by_memory(&infos);
    proof {
        assert(forall|a: ProcessInfoModel, b: ProcessInfoModel|
            #[trigger] by_memory()(a, b) || #[trigger] by_memory()(b, a));
        assert(forall|a: ProcessInfoModel, b: ProcessInfoModel, c: ProcessInfoModel|
            #[trigger] by_memory()(a, b) && #[trigger] by_memory()(b, c) ==> by_memory()(a, c));
        lemma_stable_sorted_sorted(mapped, by_memory());
        assert forall|i: int, j: int| 0 <= i < j < out.deep_view().len() implies
            out.deep_view()[i].memory_kb >= out.deep_view()[j].memory_kb by {
            assert(by_memory()(out.deep_view()[i], out.deep_view()[j]));
        }
    }
    out
}

} // verus!
