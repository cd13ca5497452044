//! Wire types shared between daemon and clients.

use crate::guards::RiskClass;
use crate::profile::ProfileWarning;
use crate::text::{join2, same_text};
use vstd::prelude::*;

verus! {

/// Options for enable/disable/toggle requests.
#[derive(Debug, Clone, Copy, PartialEq, Eq, Structural)]
pub struct SetOpts {
    /// Suppress the interactive-risk requirement: the caller has already
    /// confirmed the risk with the user (or is a script that accepts it).
    pub force: bool,
    /// Never arm a revert timer. Refused for mandatory-timer risks (last
    /// active display, built-in panel).
    pub no_timer: bool,
    /// Arm a revert timer of this many seconds. `None` = client default
    /// (no timer for routine changes; 20 s where mandatory).
    pub revert_secs: Option<u64>,
}

impl Default for SetOpts {
    fn default() -> (r: Self)
        ensures
            !r.force,
            !r.no_timer,
            r.revert_secs is None,
    {
        SetOpts { force: false, no_timer: false, revert_secs: None }
    }
}

/// Result of a state-changing request.
#[derive(Debug, Clone)]
pub enum SetOutcome {
    /// Change applied and persisted.
    Applied { warnings: Vec<ProfileWarning> },
    /// Nothing to do.
    AlreadyInState,
    /// Change applied temporarily; confirm or it reverts at the deadline.
    Pending { job_id: u64, deadline_secs: u64, risk: RiskClass, warnings: Vec<ProfileWarning> },
    /// A guard refused the request (e.g. `no_timer` on a mandatory-timer
    /// risk, or risk not acknowledged with `force` over IPC).
    GuardRefused { reason: String },
}

#[derive(Debug, Clone)]
pub struct ProfileInfo {
    pub name: String,
    pub hotkey: Option<String>,
    pub active: bool,
    /// Live state no longer matches this profile (only meaningful when active).
    pub drifted: bool,
}

#[derive(Debug, Clone)]
pub struct ProfilesInfo {
    pub profiles: Vec<ProfileInfo>,
    pub active: Option<String>,
    /// The active profile was suspended by the loop guard.
    pub suspended: bool,
}

#[derive(Debug, Clone, Copy, PartialEq, Eq, Structural)]
pub struct PendingInfo {
    pub job_id: u64,
    pub deadline_secs: u64,
    pub risk: RiskClass,
}

#[derive(Debug, Clone)]
pub struct StatusInfo {
    pub version: String,
    pub backend: String,
    pub active_profile: Option<String>,
    pub suspended: bool,
    pub drifted: bool,
    pub pending: Option<PendingInfo>,
    pub outputs_total: usize,
    pub outputs_enabled: usize,
}

/// Machine-readable error classification carried across the IPC boundary so
/// clients can keep their exit-code semantics (2 = ambiguous, 3 = guarded).
#[derive(Debug, Clone, Copy, PartialEq, Eq, Structural)]
pub enum ApiErrorKind {
    NotFound,
    Ambiguous,
    Guard,
    Backend,
    Other,
}

/// Envelope for daemon method results.
#[derive(Debug, Clone)]
pub enum Envelope<T> {
    Success(T),
    Failure { kind: ApiErrorKind, message: String },
}

impl<T> Envelope<T> {
    /// The result that the envelope carries.
    pub fn into_result(self) -> (r: Result<T, IpcError>)
        ensures
            match self {
                Envelope::Success(v) => r == Ok::<T, IpcError>(v),
                Envelope::Failure { kind, message } => r == Err::<T, IpcError>(
                    IpcError::Api { kind, message },
                ),
            },
    {
        match self {
            Envelope::Success(v) => Ok(v),
            Envelope::Failure { kind, message } => Err(IpcError::Api { kind, message }),
        }
    }
}

/// Why a client could not use the daemon.
#[derive(Debug)]
pub enum IpcError {
    Unreachable(String),
    Api { kind: ApiErrorKind, message: String },
    Protocol(String),
}

/// What a client error says to the user.
pub open spec fn ipc_message(e: IpcError) -> Seq<char> {
    match e {
        IpcError::Unreachable(m) => "daemon not reachable: "@ + m@,
        IpcError::Api { kind: _, message } => message@,
        IpcError::Protocol(m) => "protocol error: "@ + m@,
    }
}

impl IpcError {
    /// The error's message.
    pub fn message(&self) -> (r: String)
        ensures
            r@ == ipc_message(*self),
    {
        match self {
            IpcError::Unreachable(m) => join2("daemon not reachable: ", m.as_str()),
            IpcError::Api { kind: _, message } => message.clone(),
            IpcError::Protocol(m) => join2("protocol error: ", m.as_str()),
        }
    }
}

/// Events broadcast by the daemon (DBus signals / pipe notifications).
#[derive(Debug, Clone)]
pub enum DaemonEvent {
    OutputsChanged,
    PendingChange { job_id: u64, seconds_remaining: u64 },
    PendingResolved { job_id: u64, kept: bool },
    ProfileApplied { name: String },
    ProfileDrifted { name: String },
    ProfileSuspended { name: String },
}

/// What an event says, with its texts as character sequences.
pub enum EventView {
    OutputsChanged,
    PendingChange { job_id: u64, seconds_remaining: u64 },
    PendingResolved { job_id: u64, kept: bool },
    ProfileApplied { name: Seq<char> },
    ProfileDrifted { name: Seq<char> },
    ProfileSuspended { name: Seq<char> },
}

impl View for DaemonEvent {
    type V = EventView;

    open spec fn view(&self) -> EventView {
        match *self {
            DaemonEvent::OutputsChanged => EventView::OutputsChanged,
            DaemonEvent::PendingChange { job_id, seconds_remaining } => EventView::PendingChange {
                job_id,
                seconds_remaining,
            },
            DaemonEvent::PendingResolved { job_id, kept } => EventView::PendingResolved {
                job_id,
                kept,
            },
            DaemonEvent::ProfileApplied { name } => EventView::ProfileApplied { name: name@ },
            DaemonEvent::ProfileDrifted { name } => EventView::ProfileDrifted { name: name@ },
            DaemonEvent::ProfileSuspended { name } => EventView::ProfileSuspended { name: name@ },
        }
    }
}

/// The state a request word asks for: `on`, `off`, or `toggle` for the other
/// state than the current one.
pub open spec fn request_of(word: Seq<char>) -> Option<Option<bool>> {
    if word == "on"@ {
        Some(Some(true))
    } else if word == "off"@ {
        Some(Some(false))
    } else if word == "toggle"@ {
        Some(None)
    } else {
        None
    }
}

/// Read a request word.
pub fn parse_request(word: &str) -> (r: Option<Option<bool>>)
    ensures
        r == request_of(word@),
{
    if same_text(word, "on") {
        Some(Some(true))
    } else if same_text(word, "off") {
        Some(Some(false))
    } else if same_text(word, "toggle") {
        Some(None)
    } else {
        None
    }
}

/// The request word for a wanted state.
pub fn request_word(enabled: Option<bool>) -> (r: &'static str)
    ensures
        request_of(r@) == Some(enabled),
{
    proof {
        reveal_strlit("on");
        reveal_strlit("off");
        reveal_strlit("toggle");
        assert("off"@.len() != "on"@.len());
        assert("toggle"@.len() != "on"@.len() && "toggle"@.len() != "off"@.len());
    }
    match enabled {
        Some(true) => "on",
        Some(false) => "off",
        None => "toggle",
    }
}

/// Exactly three words ask for a state: one for on, one for off and one for the other one.
pub proof fn three_words_ask_for_a_state(word: Seq<char>)
    ensures
        request_of(word) == Some(Some(true)) <==> word == "on"@,
        request_of(word) == Some(Some(false)) <==> word == "off"@,
        request_of(word) == Some(None::<bool>) <==> word == "toggle"@,
        request_of(word) is Some <==> word == "on"@ || word == "off"@ || word == "toggle"@,
{
    reveal_strlit("on");
    assert("on"@.len() == 2);
    reveal_strlit("off");
    assert("off"@.len() == 3);
    reveal_strlit("toggle");
    assert("toggle"@.len() == 6);
}

} // verus!
