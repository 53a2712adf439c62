//! The raw fact collectors: parsers for the socket table, the
//! process table, and the executable-path query output.

use vstd::prelude::*;
use vstd::string::StrSliceExecFns;
use crate::chars::{
    all_digits, dec_value, is_dec_digit, parse_u16, parse_u32, u16_of_digits, u32_of_digits,
    u64_of_digits,
};
use crate::model::{ListeningSocket, NameRow, NameRowModel, PathRow, PathRowModel, ProcessRow,
    ProcessRowModel, Protocol};
use crate::split::{after_last_colon, blank_fields, blank_split, blank_trimmed, contains_substr,
    has_substr, quote_trimmed, split_at_sep, split_fields, tail_after_colon, trim_blank,
    trim_quotes};

verus! {

/// A split yields at least one field.
pub proof fn lemma_split_at_sep_len(s: Seq<char>, sep: char)
    ensures
        split_at_sep(s, sep).len() >= 1,
    decreases s.len(),
{
    if s.len() > 0 {
        lemma_split_at_sep_len(s.drop_last(), sep);
    }
}

/// The field spells the TCP protocol, in any letter case.
pub open spec fn is_tcp_token(f: Seq<char>) -> bool {
    f.len() == 3 && (f[0] == 'T' || f[0] == 't') && (f[1] == 'C' || f[1] == 'c') && (f[2] == 'P'
        || f[2] == 'p')
}

/// The field spells the UDP protocol, in any letter case.
pub open spec fn is_udp_token(f: Seq<char>) -> bool {
    f.len() == 3 && (f[0] == 'U' || f[0] == 'u') && (f[1] == 'D' || f[1] == 'd') && (f[2] == 'P'
        || f[2] == 'p')
}

fn tcp_token(f: &str) -> (r: bool)
    ensures
        r == is_tcp_token(f@),
{
    if f.unicode_len() != 3 {
        return false;
    }
    let c0 = f.get_char(0);
    let c1 = f.get_char(1);
    let c2 = f.get_char(2);
    (c0 == 'T' || c0 == 't') && (c1 == 'C' || c1 == 'c') && (c2 == 'P' || c2 == 'p')
}

fn udp_token(f: &str) -> (r: bool)
    ensures
        r == is_udp_token(f@),
{
    if f.unicode_len() != 3 {
        return false;
    }
    let c0 = f.get_char(0);
    let c1 = f.get_char(1);
    let c2 = f.get_char(2);
    (c0 == 'U' || c0 == 'u') && (c1 == 'D' || c1 == 'd') && (c2 == 'P' || c2 == 'p')
}

/// The port a socket address denotes: the decimal number after its
/// last colon, or after its start when it has no colon.
pub open spec fn port_of_addr(s: Seq<char>) -> Option<u16> {
    u16_of_digits(after_last_colon(s))
}

/// Reads the port out of a `host:port` socket address.
pub fn extract_port(addr: &str) -> (r: Option<u16>)
    ensures
        r == port_of_addr(addr@),
{
    let t = tail_after_colon(addr);
    parse_u16(t.as_str())
}

/// The decimal digits of `s`, in order, other characters dropped.
pub open spec fn digits_of(s: Seq<char>) -> Seq<char>
    decreases s.len(),
{
    if s.len() == 0 {
        Seq::<char>::empty()
    } else if is_dec_digit(s.last()) {
        digits_of(s.drop_last()).push(s.last())
    } else {
        digits_of(s.drop_last())
    }
}

/// Every character `digits_of` keeps is a digit.
pub proof fn lemma_digits_of_all_digits(s: Seq<char>)
    ensures
        all_digits(digits_of(s)),
    decreases s.len(),
{
    if s.len() > 0 {
        lemma_digits_of_all_digits(s.drop_last());
    }
}

/// The number a memory column denotes: its digits read as one
/// decimal number, with zero standing in when there are no digits or
/// the number overflows 64 bits.
pub open spec fn memory_of(s: Seq<char>) -> u64 {
    match u64_of_digits(digits_of(s)) {
        Some(v) => v,
        None => 0,
    }
}

/// Reads a memory column such as `5,124 K` as a kilobyte count.
pub fn parse_memory(s: &str) -> (r: u64)
    ensures
        r == memory_of(s@),
{
    let n = s.unicode_len();
    let mut i: usize = 0;
    let mut acc: u64 = 0;
    let mut over: bool = false;
    let mut seen: bool = false;
    while i < n
        invariant
            0 <= i <= n,
            n == s@.len(),
            seen == (digits_of(s@.subrange(0, i as int)).len() > 0),
            !over ==> acc == dec_value(digits_of(s@.subrange(0, i as int))),
            over ==> dec_value(digits_of(s@.subrange(0, i as int))) > u64::MAX,
        decreases n - i,
    {
        let c = s.get_char(i);
        let u = c as u32;
        proof {
            assert(s@.subrange(0, i + 1).drop_last() =~= s@.subrange(0, i as int));
            assert(s@.subrange(0, i + 1).last() == s@[i as int]);
        }
        if 48 <= u && u <= 57 {
            let ghost d = digits_of(s@.subrange(0, i as int));
            proof {
                assert(d.push(s@[i as int]).drop_last() =~= d);
            }
            let dv: u64 = (u - 48) as u64;
            if !over {
                match acc.checked_mul(10) {
                    Some(t) => {
                        match t.checked_add(dv) {
                            Some(v) => {
                                acc = v;
                            },
                            None => {
                                over = true;
                            },
                        }
                    },
                    None => {
                        over = true;
                    },
                }
            } else {
                proof {
                    assert(dec_value(d.push(s@[i as int])) >= dec_value(d));
                }
            }
            seen = true;
        }
        i = i + 1;
    }
    proof {
        assert(s@.subrange(0, n as int) =~= s@);
        lemma_digits_of_all_digits(s@);
    }
    if over || !seen {
        0
    } else {
        acc
    }
}

/// What one socket-table line contributes: a listening TCP or UDP
/// socket when the line has at least five fields, is marked
/// listening, and its protocol, port, and pid columns all read.
pub open spec fn socket_of_line(line: Seq<char>) -> Option<ListeningSocket> {
    let parts = blank_split(line);
    if parts.len() < 5 || !has_substr(line, "LISTENING"@) {
        None
    } else {
        let protocol = if is_tcp_token(parts[0]) {
            Some(Protocol::Tcp)
        } else if is_udp_token(parts[0]) {
            Some(Protocol::Udp)
        } else {
            None
        };
        match protocol {
            None => None,
            Some(pr) => match port_of_addr(parts[1]) {
                None => None,
                Some(port) => match u32_of_digits(parts[4]) {
                    None => None,
                    Some(pid) => Some(ListeningSocket { port, protocol: pr, owning_pid: pid }),
                },
            },
        }
    }
}

/// Reads one socket-table line.
pub fn parse_socket_line(line: &str) -> (r: Option<ListeningSocket>)
    ensures
        r == socket_of_line(line@),
{
    let parts = blank_fields(line);
    if parts.len() < 5 || !contains_substr(line, "LISTENING") {
        return None;
    }
    proof {
        assert(parts.deep_view()[0] == parts@[0]@);
        assert(parts.deep_view()[1] == parts@[1]@);
        assert(parts.deep_view()[4] == parts@[4]@);
    }
    let protocol = if tcp_token(parts[0].as_str()) {
        Some(Protocol::Tcp)
    } else if udp_token(parts[0].as_str()) {
        Some(Protocol::Udp)
    } else {
        None
    };
    match protocol {
        None => None,
        Some(pr) => match extract_port(parts[1].as_str()) {
            None => None,
            Some(port) => match parse_u32(parts[4].as_str()) {
                None => None,
                Some(pid) => Some(ListeningSocket { port, protocol: pr, owning_pid: pid }),
            },
        },
    }
}

/// What one process-table line contributes to the identity mapping:
/// a pid and display name when the comma-separated, quote-trimmed
/// line has at least two fields and a readable, nonzero pid.
pub open spec fn identity_of_line(line: Seq<char>) -> Option<NameRowModel> {
    let fields = split_at_sep(line, ',');
    if fields.len() < 2 {
        None
    } else {
        match u32_of_digits(quote_trimmed(fields[1])) {
            None => None,
            Some(pid) => if pid == 0 {
                None
            } else {
                Some(NameRowModel { pid, name: quote_trimmed(fields[0]) })
            },
        }
    }
}

/// Reads one process-table line as an identity fact.
pub fn parse_identity_line(line: &str) -> (r: Option<NameRow>)
    ensures
        match r {
            Some(row) => identity_of_line(line@) == Some(row@),
            None => identity_of_line(line@) is None,
        },
{
    let fields = split_fields(line, ',');
    if fields.len() < 2 {
        return None;
    }
    proof {
        assert(fields.deep_view()[0] == fields@[0]@);
        assert(fields.deep_view()[1] == fields@[1]@);
    }
    let pid_text = trim_quotes(fields[1].as_str());
    match parse_u32(pid_text.as_str()) {
        None => None,
        Some(pid) => {
            if pid == 0 {
                None
            } else {
                Some(NameRow { pid, name: trim_quotes(fields[0].as_str()) })
            }
        },
    }
}

/// What one process-table line contributes to the process view: as
/// `identity_of_line`, asking for the memory column too.
pub open spec fn process_of_line(line: Seq<char>) -> Option<ProcessRowModel> {
    let fields = split_at_sep(line, ',');
    if fields.len() < 5 {
        None
    } else {
        match u32_of_digits(quote_trimmed(fields[1])) {
            None => None,
            Some(pid) => if pid == 0 {
                None
            } else {
                Some(
                    ProcessRowModel {
                        pid,
                        name: quote_trimmed(fields[0]),
                        memory_kb: memory_of(quote_trimmed(fields[4])),
                    },
                )
            },
        }
    }
}

/// Reads one process-table line with its memory column.
pub fn parse_process_line(line: &str) -> (r: Option<ProcessRow>)
    ensures
        match r {
            Some(row) => process_of_line(line@) == Some(row@),
            None => process_of_line(line@) is None,
        },
{
    let fields = split_fields(line, ',');
    if fields.len() < 5 {
        return None;
    }
    proof {
        assert(fields.deep_view()[0] == fields@[0]@);
        assert(fields.deep_view()[1] == fields@[1]@);
        assert(fields.deep_view()[4] == fields@[4]@);
    }
    let pid_text = trim_quotes(fields[1].as_str());
    match parse_u32(pid_text.as_str()) {
        None => None,
        Some(pid) => {
            if pid == 0 {
                None
            } else {
                let mem_text = trim_quotes(fields[4].as_str());
                Some(
                    ProcessRow {
                        pid,
                        name: trim_quotes(fields[0].as_str()),
                        memory_kb: parse_memory(mem_text.as_str()),
                    },
                )
            }
        },
    }
}

/// What one path-query line contributes: a pid and a nonempty,
/// blank-trimmed executable path from a comma-separated line of at
/// least three fields.
pub open spec fn path_of_line(line: Seq<char>) -> Option<PathRowModel> {
    let fields = split_at_sep(line, ',');
    if fields.len() < 3 {
        None
    } else {
        let exe = blank_trimmed(fields[1]);
        match u32_of_digits(blank_trimmed(fields[2])) {
            None => None,
            Some(pid) => if exe.len() == 0 {
                None
            } else {
                Some(PathRowModel { pid, path: exe })
            },
        }
    }
}

/// Reads one path-query line.
pub fn parse_path_line(line: &str) -> (r: Option<PathRow>)
    ensures
        match r {
            Some(row) => path_of_line(line@) == Some(row@),
            None => path_of_line(line@) is None,
        },
{
    let fields = split_fields(line, ',');
    if fields.len() < 3 {
        return None;
    }
    proof {
        assert(fields.deep_view()[1] == fields@[1]@);
        assert(fields.deep_view()[2] == fields@[2]@);
    }
    let exe = trim_blank(fields[1].as_str());
    let pid_text = trim_blank(fields[2].as_str());
    match parse_u32(pid_text.as_str()) {
        None => None,
        Some(pid) => {
            if exe.unicode_len() == 0 {
                None
            } else {
                Some(PathRow { pid, path: exe })
            }
        },
    }
}

/// Some row of `rows` owns `port`.
pub open spec fn rows_have_port(rows: Seq<ListeningSocket>, port: u16) -> bool {
    exists|i: int| 0 <= i < rows.len() && #[trigger] rows[i].port == port
}

/// No two rows of `rows` share a port.
pub open spec fn distinct_ports(rows: Seq<ListeningSocket>) -> bool {
    forall|i: int, j: int|
        0 <= i < j < rows.len() ==> #[trigger] rows[i].port != #[trigger] rows[j].port
}

/// `rows` with every socket whose port an earlier row already owns
/// dropped: the first occurrence of a port wins.
pub open spec fn dedup_ports(rows: Seq<ListeningSocket>) -> Seq<ListeningSocket>
    decreases rows.len(),
{
    if rows.len() == 0 {
        Seq::<ListeningSocket>::empty()
    } else {
        let rest = dedup_ports(rows.drop_last());
        if rows_have_port(rows.drop_last(), rows.last().port) {
            rest
        } else {
            rest.push(rows.last())
        }
    }
}

proof fn lemma_push_has_port(rows: Seq<ListeningSocket>, e: ListeningSocket, port: u16)
    ensures
        rows_have_port(rows.push(e), port) <==> (rows_have_port(rows, port) || e.port == port),
{
    if rows_have_port(rows, port) {
        let i = choose|i: int| 0 <= i < rows.len() && #[trigger] rows[i].port == port;
        assert(rows.push(e)[i].port == port);
    }
    if e.port == port {
        assert(rows.push(e)[rows.len() as int].port == port);
    }
    if rows_have_port(rows.push(e), port) {
        let i = choose|i: int|
            0 <= i < rows.push(e).len() && #[trigger] rows.push(e)[i].port == port;
        if i < rows.len() {
            assert(rows[i].port == port);
        }
    }
}

/// First-wins removal of duplicate ports keeps exactly the ports
/// the raw rows had.
pub proof fn lemma_dedup_ports_same_ports(rows: Seq<ListeningSocket>, port: u16)
    ensures
        rows_have_port(dedup_ports(rows), port) <==> rows_have_port(rows, port),
    decreases rows.len(),
{
    if rows.len() > 0 {
        let body = rows.drop_last();
        let e = rows.last();
        lemma_dedup_ports_same_ports(body, port);
        assert(rows =~= body.push(e));
        lemma_push_has_port(body, e, port);
        if !rows_have_port(body, e.port) {
            lemma_push_has_port(dedup_ports(body), e, port);
        }
    }
}

/// After first-wins removal no two rows share a port.
pub proof fn lemma_dedup_ports_distinct(rows: Seq<ListeningSocket>)
    ensures
        distinct_ports(dedup_ports(rows)),
    decreases rows.len(),
{
    if rows.len() > 0 {
        let body = rows.drop_last();
        let e = rows.last();
        lemma_dedup_ports_distinct(body);
        if !rows_have_port(body, e.port) {
            lemma_dedup_ports_same_ports(body, e.port);
            let out = dedup_ports(body).push(e);
            assert forall|i: int, j: int| 0 <= i < j < out.len() implies out[i].port
                != out[j].port by {
                if j == out.len() - 1 {
                    assert(out[i] == dedup_ports(body)[i]);
                    if out[i].port == e.port {
                        assert(rows_have_port(dedup_ports(body), e.port));
                    }
                }
            }
        }
    }
}

/// Whether some already-collected socket owns `port`.
pub fn vec_has_port(rows: &Vec<ListeningSocket>, port: u16) -> (r: bool)
    ensures
        r == rows_have_port(rows@, port),
{
    let mut i: usize = 0;
    while i < rows.len()
        invariant
            0 <= i <= rows@.len(),
            forall|j: int| 0 <= j < i ==> #[trigger] rows@[j].port != port,
        decreases rows@.len() - i,
    {
        if rows[i].port == port {
            return true;
        }
        i = i + 1;
    }
    false
}

/// The listening sockets of a whole socket-table text: one row per
/// parsable listening line, first occurrence of each port winning.
pub open spec fn socket_rows(lns: Seq<Seq<char>>) -> Seq<ListeningSocket>
    decreases lns.len(),
{
    if lns.len() == 0 {
        Seq::<ListeningSocket>::empty()
    } else {
        let rest = socket_rows(lns.drop_last());
        match socket_of_line(lns.last()) {
            Some(s) => rest.push(s),
            None => rest,
        }
    }
}

/// The socket mapping a socket-table text denotes.
pub open spec fn socket_table(text: Seq<char>) -> Seq<ListeningSocket> {
    dedup_ports(socket_rows(split_at_sep(text, '\n')))
}

/// Parses a whole socket-table text, keeping listening TCP and UDP
/// rows, the first owner of each port winning.
pub fn parse_socket_table(text: &str) -> (r: Vec<ListeningSocket>)
    ensures
        r@ == socket_table(text@),
        distinct_ports(r@),
{
    let lines = split_fields(text, '\n');
    let ghost ldv = lines.deep_view();
    let mut out: Vec<ListeningSocket> = Vec::new();
    proof {
        assert(ldv.subrange(0, 0) =~= Seq::<Seq<char>>::empty());
    }
    let mut i: usize = 0;
    while i < lines.len()
        invariant
            0 <= i <= lines@.len(),
            ldv == lines.deep_view(),
            out@ == dedup_ports(socket_rows(ldv.subrange(0, i as int))),
        decreases lines@.len() - i,
    {
        let ghost rows = socket_rows(ldv.subrange(0, i as int));
        proof {
            assert(ldv.subrange(0, i + 1).drop_last() =~= ldv.subrange(0, i as int));
            assert(ldv.subrange(0, i + 1).last() == ldv[i as int]);
            assert(ldv[i as int] == lines@[i as int]@);
        }
        match parse_socket_line(lines[i].as_str()) {
            Some(sock) => {
                proof {
                    assert(rows.push(sock).drop_last() =~= rows);
                    lemma_dedup_ports_same_ports(rows, sock.port);
                }
                if !vec_has_port(&out, sock.port) {
                    out.push(sock);
                }
            },
            None => {},
        }
        i = i + 1;
    }
    proof {
        assert(ldv.subrange(0, lines@.len() as int) =~= ldv);
        assert(ldv == split_at_sep(text@, '\n'));
        lemma_dedup_ports_distinct(socket_rows(ldv));
    }
    out
}

/// The identity facts of a whole process-table text, in line order.
pub open spec fn name_rows(lns: Seq<Seq<char>>) -> Seq<NameRowModel>
    decreases lns.len(),
{
    if lns.len() == 0 {
        Seq::<NameRowModel>::empty()
    } else {
        let rest = name_rows(lns.drop_last());
        match identity_of_line(lns.last()) {
            Some(m) => rest.push(m),
            None => rest,
        }
    }
}

/// The identity mapping a process-table text denotes.
pub open spec fn identity_table(text: Seq<char>) -> Seq<NameRowModel> {
    name_rows(split_at_sep(text, '\n'))
}

/// Parses a whole process-table text into identity facts.
pub fn parse_identity_table(text: &str) -> (r: Vec<NameRow>)
    ensures
        r.deep_view() == identity_table(text@),
{
    let lines = split_fields(text, '\n');
    let ghost ldv = lines.deep_view();
    let mut out: Vec<NameRow> = Vec::new();
    proof {
        assert(ldv.subrange(0, 0) =~= Seq::<Seq<char>>::empty());
        assert(out.deep_view() =~= Seq::<NameRowModel>::empty());
    }
    let mut i: usize = 0;
    while i < lines.len()
        invariant
            0 <= i <= lines@.len(),
            ldv == lines.deep_view(),
            out.deep_view() == name_rows(ldv.subrange(0, i as int)),
        decreases lines@.len() - i,
    {
        let ghost pre = out.deep_view();
        proof {
            assert(ldv.subrange(0, i + 1).drop_last() =~= ldv.subrange(0, i as int));
            assert(ldv.subrange(0, i + 1).last() == ldv[i as int]);
            assert(ldv[i as int] == lines@[i as int]@);
        }
        match parse_identity_line(lines[i].as_str()) {
            Some(row) => {
                out.push(row);
                proof {
                    assert(out.deep_view() =~= pre.push(row@));
                }
            },
            None => {},
        }
        i = i + 1;
    }
    proof {
        assert(ldv.subrange(0, lines@.len() as int) =~= ldv);
    }
    out
}

/// The process-view rows of a whole process-table text, in line
/// order.
pub open spec fn process_rows(lns: Seq<Seq<char>>) -> Seq<ProcessRowModel>
    decreases lns.len(),
{
    if lns.len() == 0 {
        Seq::<ProcessRowModel>::empty()
    } else {
        let rest = process_rows(lns.drop_last());
        match process_of_line(lns.last()) {
            Some(m) => rest.push(m),
            None => rest,
        }
    }
}

/// The process rows a process-table text denotes.
pub open spec fn process_table(text: Seq<char>) -> Seq<ProcessRowModel> {
    process_rows(split_at_sep(text, '\n'))
}

/// Parses a whole process-table text with memory columns.
pub fn parse_process_table(text: &str) -> (r: Vec<ProcessRow>)
    ensures
        r.deep_view() == process_table(text@),
{
    let lines = split_fields(text, '\n');
    let ghost ldv = lines.deep_view();
    let mut out: Vec<ProcessRow> = Vec::new();
    proof {
        assert(ldv.subrange(0, 0) =~= Seq::<Seq<char>>::empty());
        assert(out.deep_view() =~= Seq::<ProcessRowModel>::empty());
    }
    let mut i: usize = 0;
    while i < lines.len()
        invariant
            0 <= i <= lines@.len(),
            ldv == lines.deep_view(),
            out.deep_view() == process_rows(ldv.subrange(0, i as int)),
        decreases lines@.len() - i,
    {
        let ghost pre = out.deep_view();
        proof {
            assert(ldv.subrange(0, i + 1).drop_last() =~= ldv.subrange(0, i as int));
            assert(ldv.subrange(0, i + 1).last() == ldv[i as int]);
            assert(ldv[i as int] == lines@[i as int]@);
        }
        match parse_process_line(lines[i].as_str()) {
            Some(row) => {
                out.push(row);
                proof {
                    assert(out.deep_view() =~= pre.push(row@));
                }
            },
            None => {},
        }
        i = i + 1;
    }
    proof {
        assert(ldv.subrange(0, lines@.len() as int) =~= ldv);
    }
    out
}

/// The path facts of a whole path-query text, in line order; the
/// first line is the query's header and is skipped.
pub open spec fn path_rows(lns: Seq<Seq<char>>) -> Seq<PathRowModel>
    decreases lns.len(),
{
    if lns.len() == 0 {
        Seq::<PathRowModel>::empty()
    } else {
        let rest = path_rows(lns.drop_last());
        match path_of_line(lns.last()) {
            Some(m) => rest.push(m),
            None => rest,
        }
    }
}

/// The path mapping a path-query text denotes.
pub open spec fn path_table(text: Seq<char>) -> Seq<PathRowModel> {
    path_rows(split_at_sep(text, '\n').drop_first())
}

/// Parses a whole path-query text, skipping its header line.
pub fn parse_path_table(text: &str) -> (r: Vec<PathRow>)
    ensures
        r.deep_view() == path_table(text@),
{
    let lines = split_fields(text, '\n');
    let ghost ldv = lines.deep_view();
    let mut out: Vec<PathRow> = Vec::new();
    proof {
        lemma_split_at_sep_len(text@, '\n');
        assert(ldv.subrange(1, 1) =~= Seq::<Seq<char>>::empty());
        assert(out.deep_view() =~= Seq::<PathRowModel>::empty());
    }
    let mut i: usize = 1;
    while i < lines.len()
        invariant
            1 <= i <= lines@.len(),
            ldv == lines.deep_view(),
            ldv.len() >= 1,
            out.deep_view() == path_rows(ldv.subrange(1, i as int)),
        decreases lines@.len() - i,
    {
        let ghost pre = out.deep_view();
        proof {
            assert(ldv.subrange(1, i + 1).drop_last() =~= ldv.subrange(1, i as int));
            assert(ldv.subrange(1, i + 1).last() == ldv[i as int]);
            assert(ldv[i as int] == lines@[i as int]@);
        }
        match parse_path_line(lines[i].as_str()) {
            Some(row) => {
                out.push(row);
                proof {
                    assert(out.deep_view() =~= pre.push(row@));
                }
            },
            None => {},
        }
        i = i + 1;
    }
    proof {
        assert(ldv.subrange(1, ldv.len() as int) =~= ldv.drop_first());
    }
    out
}

} // verus!
