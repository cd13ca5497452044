//! Error types shared across the library.

use crate::text::{join2, join3, join_texts, joined, texts};
use vstd::prelude::*;

verus! {

/// Errors from display backends.
#[derive(Debug)]
pub enum BackendError {
    /// The configuration serial in the plan no longer matches the display
    /// server's state. Callers should re-snapshot and retry once.
    StaleSerial,
    InvalidLayout(String),
    UnknownOutput(String),
    /// The display did not come back after enable, typically a DisplayPort
    /// monitor in deep sleep that dropped off the bus. Actionable, not fatal.
    OutputUnresponsive(String),
    Server(String),
    /// This backend cannot run in the current session (wrong compositor,
    /// missing protocol/API). Auto-detection treats this as "try the next one".
    Unavailable(String),
}

/// What a backend error says to the user.
pub open spec fn backend_message(e: BackendError) -> Seq<char> {
    match e {
        BackendError::StaleSerial => "stale configuration serial; re-snapshot and retry"@,
        BackendError::InvalidLayout(m) => "invalid layout: "@ + m@,
        BackendError::UnknownOutput(m) => "unknown output: "@ + m@,
        BackendError::OutputUnresponsive(m) => "output '"@ + m@
            + "' did not respond; wake the monitor (power button) and retry"@,
        BackendError::Server(m) => "display server error: "@ + m@,
        BackendError::Unavailable(m) => "backend unavailable: "@ + m@,
    }
}

impl BackendError {
    /// The error's message.
    pub fn message(&self) -> (r: String)
        ensures
            r@ == backend_message(*self),
    {
        match self {
            BackendError::StaleSerial => "stale configuration serial; re-snapshot and retry".to_owned(),
            BackendError::InvalidLayout(m) => join2("invalid layout: ", m.as_str()),
            BackendError::UnknownOutput(m) => join2("unknown output: ", m.as_str()),
            BackendError::OutputUnresponsive(m) => join3(
                "output '",
                m.as_str(),
                "' did not respond; wake the monitor (power button) and retry",
            ),
            BackendError::Server(m) => join2("display server error: ", m.as_str()),
            BackendError::Unavailable(m) => join2("backend unavailable: ", m.as_str()),
        }
    }
}

/// Errors resolving a target (alias / connector / EDID substring) or a stored
/// identity against live outputs.
#[derive(Debug, PartialEq, Eq)]
pub enum ResolveError {
    NotFound(String),
    Ambiguous { target: String, candidates: Vec<String> },
}

/// What a resolution error says to the user.
pub open spec fn resolve_message(e: ResolveError) -> Seq<char> {
    match e {
        ResolveError::NotFound(t) => "no output matches '"@ + t@ + "'"@,
        ResolveError::Ambiguous { target, candidates } => "ambiguous target '"@ + target@
            + "': matches "@ + joined(texts(candidates@), ", "@)
            + "; use a connector name to disambiguate"@,
    }
}

impl ResolveError {
    /// The error's message.
    pub fn message(&self) -> (r: String)
        ensures
            r@ == resolve_message(*self),
    {
        match self {
            ResolveError::NotFound(t) => join3("no output matches '", t.as_str(), "'"),
            ResolveError::Ambiguous { target, candidates } => {
                let mut s = join3("ambiguous target '", target.as_str(), "': matches ");
                s.append(join_texts(candidates, ", ").as_str());
                s.append("; use a connector name to disambiguate");
                s
            },
        }
    }
}

} // verus!
