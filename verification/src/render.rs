//! Decimal rendering and the human-readable report strings.

use vstd::prelude::*;
use vstd::string::{StrSliceExecFns, StringExecFns};
use crate::model::{Collector, OpError};

verus! {

/// The character of a single decimal digit.
pub open spec fn digit_char(d: nat) -> char {
    if d == 0 {
        '0'
    } else if d == 1 {
        '1'
    } else if d == 2 {
        '2'
    } else if d == 3 {
        '3'
    } else if d == 4 {
        '4'
    } else if d == 5 {
        '5'
    } else if d == 6 {
        '6'
    } else if d == 7 {
        '7'
    } else if d == 8 {
        '8'
    } else {
        '9'
    }
}

/// The decimal rendering of `n`, most significant digit first and
/// without leading zeroes.
pub open spec fn dec_str(n: nat) -> Seq<char>
    decreases n,
{
    if n < 10 {
        seq![digit_char(n)]
    } else {
        dec_str(n / 10).push(digit_char(n % 10))
    }
}

/// Appends the decimal rendering of `n` to `out`.
fn push_dec(out: &mut String, n: u32)
    ensures
        final(out)@ == old(out)@ + dec_str(n as nat),
    decreases n,
{
    if n >= 10 {
        push_dec(out, n / 10);
    }
    let d = n % 10;
    let digits = "0123456789";
    proof {
        reveal_strlit("0123456789");
    }
    let piece = digits.substring_char(d as usize, d as usize + 1);
    proof {
        assert(piece@ =~= seq![digit_char(d as nat)]);
    }
    out.append(piece);
    proof {
        if n >= 10 {
            assert(old(out)@ + dec_str((n / 10) as nat) + piece@ =~= old(out)@ + dec_str(n as nat));
        } else {
            assert(old(out)@ + piece@ =~= old(out)@ + dec_str(n as nat));
        }
    }
}

/// The report string of a successful termination by pid.
pub open spec fn killed_message(pid: u32) -> Seq<char> {
    "Killed PID "@ + dec_str(pid as nat)
}

/// The report string of a successful termination resolved by port.
pub open spec fn killed_on_port_message(pid: u32, port: u16) -> Seq<char> {
    "Killed PID "@ + dec_str(pid as nat) + " on port "@ + dec_str(port as nat)
}

/// Builds the report of a successful termination by pid.
pub fn render_killed(pid: u32) -> (r: String)
    ensures
        r@ == killed_message(pid),
{
    let mut out = String::from_str("Killed PID ");
    push_dec(&mut out, pid);
    out
}

/// Builds the report of a successful termination resolved by port.
pub fn render_killed_on_port(pid: u32, port: u16) -> (r: String)
    ensures
        r@ == killed_on_port_message(pid, port),
{
    let mut out = String::from_str("Killed PID ");
    push_dec(&mut out, pid);
    out.append(" on port ");
    push_dec(&mut out, port as u32);
    proof {
        assert(("Killed PID "@ + dec_str(pid as nat) + " on port "@) + dec_str(port as nat)
            =~= killed_on_port_message(pid, port));
    }
    out
}

/// The cause string of an error.
pub open spec fn error_message(e: OpError) -> Seq<char> {
    match e {
        OpError::CollectorUnavailable { collector: Collector::Sockets } => {
            "Failed to run netstat"@
        },
        OpError::CollectorUnavailable { collector: Collector::Identities } => {
            "Failed to run tasklist"@
        },
        OpError::CollectorUnavailable { collector: Collector::LocalAddress } => {
            "Local address detection failed"@
        },
        OpError::NotFound { port } => "No process found on port "@ + dec_str(port as nat),
        OpError::TerminationFailed { pid } => "Failed to kill PID "@ + dec_str(pid as nat),
    }
}

impl OpError {
    /// The human-readable cause, naming the external step that failed
    /// or the port or pid concerned.
    pub fn message(&self) -> (r: String)
        ensures
            r@ == error_message(*self),
    {
        match self {
            OpError::CollectorUnavailable { collector: Collector::Sockets } => {
                String::from_str("Failed to run netstat")
            },
            OpError::CollectorUnavailable { collector: Collector::Identities } => {
                String::from_str("Failed to run tasklist")
            },
            OpError::CollectorUnavailable { collector: Collector::LocalAddress } => {
                String::from_str("Local address detection failed")
            },
            OpError::NotFound { port } => {
                let mut out = String::from_str("No process found on port ");
                push_dec(&mut out, *port as u32);
                out
            },
            OpError::TerminationFailed { pid } => {
                let mut out = String::from_str("Failed to kill PID ");
                push_dec(&mut out, *pid);
                out
            },
        }
    }
}

} // verus!
