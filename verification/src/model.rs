//! The entities of the port and process views, their mathematical
//! models, and the error taxonomy.

use vstd::prelude::*;

verus! {

/// The model of an optional string: its character sequence, when
/// present.
pub open spec fn opt_str_view(o: Option<String>) -> Option<Seq<char>> {
    match o {
        Some(p) => Some(p@),
        None => None,
    }
}

/// Transport protocol of a listening socket.
#[derive(Clone, Copy, Debug, PartialEq, Eq, Structural)]
pub enum Protocol {
    Tcp,
    Udp,
}

/// One row of the socket table: a bound endpoint in the listening
/// state and the process that owns it.
#[derive(Clone, Copy, Debug, PartialEq, Eq, Structural)]
pub struct ListeningSocket {
    pub port: u16,
    pub protocol: Protocol,
    pub owning_pid: u32,
}

/// One entry of the correlated port view.
#[derive(Debug, Clone)]
pub struct PortEntry {
    pub port: u16,
    pub protocol: Protocol,
    pub pid: u32,
    pub process_name: String,
    pub executable_path: Option<String>,
}

/// Mathematical model of a `PortEntry`.
pub ghost struct PortEntryModel {
    pub port: u16,
    pub protocol: Protocol,
    pub pid: u32,
    pub process_name: Seq<char>,
    pub executable_path: Option<Seq<char>>,
}

impl View for PortEntry {
    type V = PortEntryModel;

    open spec fn view(&self) -> PortEntryModel {
        PortEntryModel {
            port: self.port,
            protocol: self.protocol,
            pid: self.pid,
            process_name: self.process_name@,
            executable_path: match self.executable_path {
                Some(p) => Some(p@),
                None => None,
            },
        }
    }
}

impl DeepView for PortEntry {
    type V = PortEntryModel;

    open spec fn deep_view(&self) -> PortEntryModel {
        self.view()
    }
}

/// One entry of the process view, heaviest memory user first.
#[derive(Debug, Clone)]
pub struct ProcessInfo {
    pub pid: u32,
    pub name: String,
    pub memory_kb: u64,
    pub executable_path: Option<String>,
}

/// Mathematical model of a `ProcessInfo`.
pub ghost struct ProcessInfoModel {
    pub pid: u32,
    pub name: Seq<char>,
    pub memory_kb: u64,
    pub executable_path: Option<Seq<char>>,
}

impl View for ProcessInfo {
    type V = ProcessInfoModel;

    open spec fn view(&self) -> ProcessInfoModel {
        ProcessInfoModel {
            pid: self.pid,
            name: self.name@,
            memory_kb: self.memory_kb,
            executable_path: match self.executable_path {
                Some(p) => Some(p@),
                None => None,
            },
        }
    }
}

impl DeepView for ProcessInfo {
    type V = ProcessInfoModel;

    open spec fn deep_view(&self) -> ProcessInfoModel {
        self.view()
    }
}

/// One identity fact: a process and its display name.
#[derive(Debug, Clone)]
pub struct NameRow {
    pub pid: u32,
    pub name: String,
}

/// Mathematical model of a `NameRow`.
pub ghost struct NameRowModel {
    pub pid: u32,
    pub name: Seq<char>,
}

impl View for NameRow {
    type V = NameRowModel;

    open spec fn view(&self) -> NameRowModel {
        NameRowModel { pid: self.pid, name: self.name@ }
    }
}

impl DeepView for NameRow {
    type V = NameRowModel;

    open spec fn deep_view(&self) -> NameRowModel {
        self.view()
    }
}

/// One executable-path fact: a process and the path of its image.
#[derive(Debug, Clone)]
pub struct PathRow {
    pub pid: u32,
    pub path: String,
}

/// Mathematical model of a `PathRow`.
pub ghost struct PathRowModel {
    pub pid: u32,
    pub path: Seq<char>,
}

impl View for PathRow {
    type V = PathRowModel;

    open spec fn view(&self) -> PathRowModel {
        PathRowModel { pid: self.pid, path: self.path@ }
    }
}

impl DeepView for PathRow {
    type V = PathRowModel;

    open spec fn deep_view(&self) -> PathRowModel {
        self.view()
    }
}

/// One row of the process table that also carries the memory column.
#[derive(Debug, Clone)]
pub struct ProcessRow {
    pub pid: u32,
    pub name: String,
    pub memory_kb: u64,
}

/// Mathematical model of a `ProcessRow`.
pub ghost struct ProcessRowModel {
    pub pid: u32,
    pub name: Seq<char>,
    pub memory_kb: u64,
}

impl View for ProcessRow {
    type V = ProcessRowModel;

    open spec fn view(&self) -> ProcessRowModel {
        ProcessRowModel { pid: self.pid, name: self.name@, memory_kb: self.memory_kb }
    }
}

impl DeepView for ProcessRow {
    type V = ProcessRowModel;

    open spec fn deep_view(&self) -> ProcessRowModel {
        self.view()
    }
}

/// What the identity and path feeds together say of one process.
#[derive(Debug, Clone)]
pub struct ProcessDetail {
    pub name: String,
    pub exe_path: Option<String>,
}

/// A process identifier with its correlated detail.
#[derive(Debug, Clone)]
pub struct DetailRow {
    pub pid: u32,
    pub detail: ProcessDetail,
}

/// Mathematical model of a `DetailRow`.
pub ghost struct DetailRowModel {
    pub pid: u32,
    pub name: Seq<char>,
    pub exe_path: Option<Seq<char>>,
}

impl View for DetailRow {
    type V = DetailRowModel;

    open spec fn view(&self) -> DetailRowModel {
        DetailRowModel {
            pid: self.pid,
            name: self.detail.name@,
            exe_path: match self.detail.exe_path {
                Some(p) => Some(p@),
                None => None,
            },
        }
    }
}

impl DeepView for DetailRow {
    type V = DetailRowModel;

    open spec fn deep_view(&self) -> DetailRowModel {
        self.view()
    }
}

/// The machine's own outbound address and name.
#[derive(Debug, Clone)]
pub struct NetworkOverview {
    pub local_ip: String,
    pub hostname: String,
}

/// The required external feeds an operation can lose.
#[derive(Clone, Copy, Debug, PartialEq, Eq, Structural)]
pub enum Collector {
    /// The listening-socket table.
    Sockets,
    /// The process table that supplies identities and memory.
    Identities,
    /// The outbound-route query for the local address.
    LocalAddress,
}

/// Why an operation failed.  The best-effort path feed never raises
/// an error: its absence only leaves `executable_path` unset.
#[derive(Clone, Copy, Debug, PartialEq, Eq, Structural)]
pub enum OpError {
    /// A required external feed was missing or unreadable.
    CollectorUnavailable { collector: Collector },
    /// No listening socket currently owns the requested port.
    NotFound { port: u16 },
    /// The termination command ran and reported failure.
    TerminationFailed { pid: u32 },
}

} // verus!
