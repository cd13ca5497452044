//! Command-line logic: what the `nosignal` command decides and prints, with or
//! without a running daemon.

use crate::error::{backend_message, resolve_message, BackendError, ResolveError};
use crate::guards::{assess, risk_name, risk_of, RiskClass};
use crate::identity::{resolve_target, target_hits, target_result};
use crate::ipc::{ipc_message, ApiErrorKind, IpcError, SetOpts, SetOutcome, StatusInfo};
use crate::layout::normalize;
use crate::profile::ProfileWarning;
use crate::remembered::{neighbors_in, neighbors_of, Neighbor, RememberedLayouts};
use crate::switch::{plan_switch, switch_fits, switch_is_within, switch_layout, wanted};
use crate::text::{
    chars_of, contains, decimal, join2, join3, occurrences_are_parts, occurs_at, occurs_in,
    push_decimal, same_text, signed_decimal, signed_decimal_text, texts, trim_text, trimmed,
};
use crate::topology::{
    mode_text, output_enabled, planned_as_is, planning_as_is_changes_nothing, LayoutPlan, Output,
    PlannedOutput, Topology,
};
use vstd::prelude::*;

verus! {

/// Seconds after which a mandatory timer reverts, unless the user says
/// otherwise.
pub const DEFAULT_TIMER_SECS: u64 = 20;

/// Why a command failed.
#[derive(Debug)]
pub enum CliError {
    Resolve(ResolveError),
    Guard(String),
    Backend(BackendError),
    Other(String),
    /// The daemon found that a target is ambiguous.
    Ambiguous(String),
}

/// What a command error says to the user.
pub open spec fn cli_message(e: CliError) -> Seq<char> {
    match e {
        CliError::Resolve(e) => resolve_message(e),
        CliError::Guard(m) => m@,
        CliError::Backend(e) => backend_message(e),
        CliError::Other(m) => m@,
        CliError::Ambiguous(m) => m@,
    }
}

/// The exit code of a command error: 2 for an ambiguous target, 3 for a guarded
/// action that was refused, 1 otherwise.
pub open spec fn code_of(e: CliError) -> i32 {
    match e {
        CliError::Resolve(ResolveError::Ambiguous { .. }) => 2,
        CliError::Guard(_) => 3,
        CliError::Ambiguous(_) => 2,
        _ => 1,
    }
}

/// Actionable follow-up for known hardware realities.
pub open spec fn hint_of(e: CliError) -> Option<Seq<char>> {
    match e {
        CliError::Resolve(ResolveError::NotFound(_)) => Some(
            "if this display was just disabled or powered off, a DisplayPort monitor in deep sleep can drop off the bus entirely — wake it with its power button and retry"@,
        ),
        CliError::Backend(BackendError::OutputUnresponsive(_)) => Some(
            "wake the monitor with its power button and retry"@,
        ),
        _ => None,
    }
}

/// Whether an error is the one that an error of the daemon client becomes.
pub open spec fn ipc_failed(r: CliError, e: IpcError) -> bool {
    match e {
        IpcError::Api { kind: ApiErrorKind::Ambiguous, message } => r == CliError::Ambiguous(
            message,
        ),
        IpcError::Api { kind: ApiErrorKind::Guard, message } => r == CliError::Guard(
            message,
        ),
        _ => r matches CliError::Other(m) && m@ == ipc_message(e),
    }
}

impl CliError {
    /// The exit code of the command.
    pub fn exit_code(&self) -> (r: i32)
        ensures
            r == code_of(*self),
            1 <= r <= 3,
    {
        match self {
            CliError::Resolve(ResolveError::Ambiguous { .. }) => 2,
            CliError::Guard(_) => 3,
            CliError::Ambiguous(_) => 2,
            _ => 1,
        }
    }

    /// Actionable follow-up for known hardware realities.
    pub fn hint(&self) -> (r: Option<&'static str>)
        ensures
            match r {
                Some(h) => hint_of(*self) == Some(h@),
                None => hint_of(*self) is None,
            },
    {
        match self {
            CliError::Resolve(ResolveError::NotFound(_)) => Some(
                "if this display was just disabled or powered off, a DisplayPort monitor in deep sleep can drop off the bus entirely — wake it with its power button and retry",
            ),
            CliError::Backend(BackendError::OutputUnresponsive(_)) => Some(
                "wake the monitor with its power button and retry",
            ),
            _ => None,
        }
    }

    /// The error's message.
    pub fn message(&self) -> (r: String)
        ensures
            r@ == cli_message(*self),
    {
        match self {
            CliError::Resolve(e) => e.message(),
            CliError::Guard(m) => m.clone(),
            CliError::Backend(e) => e.message(),
            CliError::Other(m) => m.clone(),
            CliError::Ambiguous(m) => m.clone(),
        }
    }

    /// The command error that an error of the daemon client becomes; the exit
    /// codes of ambiguous and guarded requests are kept.
    pub fn from_ipc(e: IpcError) -> (r: Self)
        ensures
            ipc_failed(r, e),
    {
        match e {
            IpcError::Api { kind, message } => match kind {
                ApiErrorKind::Ambiguous => CliError::Ambiguous(message),
                ApiErrorKind::Guard => CliError::Guard(message),
                _ => CliError::Other(message),
            },
            other => CliError::Other(other.message()),
        }
    }
}

/// The options of the commands that switch an output.
#[derive(Debug, Clone, Copy, PartialEq, Eq, Structural)]
pub struct ToggleOpts {
    pub force: bool,
    pub no_timer: bool,
    pub timer: Option<u64>,
}

impl ToggleOpts {
    /// The options as the daemon takes them.
    pub fn to_set_opts(self) -> (r: SetOpts)
        ensures
            r == (SetOpts {
                force: self.force,
                no_timer: self.no_timer,
                revert_secs: self.timer,
            }),
    {
        SetOpts { force: self.force, no_timer: self.no_timer, revert_secs: self.timer }
    }

    /// The options of `nosignal on`, which never arms a timer.
    pub fn for_on() -> (r: Self)
        ensures
            r == (ToggleOpts { force: false, no_timer: true, timer: None }),
    {
        ToggleOpts { force: false, no_timer: true, timer: None }
    }
}

// -------------------------------------------------------------- direct mode

/// What a risk means.
pub open spec fn risk_words(risk: RiskClass) -> Seq<char> {
    match risk {
        RiskClass::LastActiveDisplay =>
            "this disables your LAST active display; the desktop will go dark until the change is confirmed or auto-reverts"@,
        RiskClass::BuiltinPanel =>
            "this disables a built-in laptop panel; if the external display fails you may be left without a screen"@,
        RiskClass::Routine => "routine change"@,
    }
}

/// What a risk means.
pub fn risk_text(risk: RiskClass) -> (r: &'static str)
    ensures
        r@ == risk_words(risk),
{
    match risk {
        RiskClass::LastActiveDisplay =>
            "this disables your LAST active display; the desktop will go dark until the change is confirmed or auto-reverts",
        RiskClass::BuiltinPanel =>
            "this disables a built-in laptop panel; if the external display fails you may be left without a screen",
        RiskClass::Routine => "routine change",
    }
}

/// The revert timer of a change made without a daemon; `Err` when a mandatory
/// timer was to be left out.
pub open spec fn direct_timer(risk: RiskClass, opts: ToggleOpts) -> Result<Option<u64>, ()> {
    if risk != RiskClass::Routine {
        if opts.no_timer {
            Err(())
        } else {
            match opts.timer {
                Some(secs) => Ok(Some(secs)),
                None => Ok(Some(DEFAULT_TIMER_SECS)),
            }
        }
    } else if opts.no_timer {
        Ok(None)
    } else {
        Ok(opts.timer)
    }
}

/// What a command to switch an output leads to.
#[derive(Debug)]
pub struct DirectChange {
    pub plan: LayoutPlan,
    pub connector: String,
    pub want: bool,
    pub risk: RiskClass,
    /// Whether the user is to be warned and asked first.
    pub ask: bool,
    /// Seconds after which the change reverts; none for a change that stays.
    pub timer: Option<u64>,
}

/// What a command to switch an output leads to.
#[derive(Debug)]
pub enum DirectStep {
    /// Nothing: this is what to tell the user.
    Already(String),
    /// The change is refused.
    Refuse(CliError),
    /// Apply the change.
    Apply(DirectChange),
}

/// How a state is called.
pub open spec fn state_word(enabled: bool) -> Seq<char> {
    if enabled {
        "enabled"@
    } else {
        "disabled"@
    }
}

fn state_text(enabled: bool) -> (r: &'static str)
    ensures
        r@ == state_word(enabled),
{
    if enabled {
        "enabled"
    } else {
        "disabled"
    }
}

/// What the user is told about a change that stays.
pub fn done_text(connector: &str, want: bool) -> (r: String)
    ensures
        r@ == connector@ + " is now "@ + state_word(want),
{
    join3(connector, " is now ", state_text(want))
}

/// Whether a step is what a command leads to.
pub open spec fn direct_result(
    step: DirectStep,
    topology: Topology,
    o: Output,
    enabled: Option<bool>,
    opts: ToggleOpts,
    remembered: RememberedLayouts,
) -> bool {
    let want = wanted(o, enabled);
    let layout = switch_layout(topology.outputs@, o, want, remembered);
    let risk = risk_of(topology.outputs@, layout);
    if want == o.enabled {
        step matches DirectStep::Already(m) && m@ == o.identity.connector@ + " is already "@
            + state_word(want)
    } else {
        match direct_timer(risk, opts) {
            Err(_) => step matches DirectStep::Refuse(CliError::Guard(m)) && m@
                == "refusing --no-timer: "@ + risk_words(risk)
                + " — the auto-revert timer is mandatory here"@,
            Ok(timer) => {
                &&& step matches DirectStep::Apply(change)
                &&& change.plan.serial == topology.serial
                &&& change.plan.outputs@ == layout
                &&& change.connector@ == o.identity.connector@
                &&& change.want == want
                &&& change.risk == risk
                &&& change.ask == (risk != RiskClass::Routine && !opts.force)
                &&& change.timer == timer
            },
        }
    }
}

/// Decide about switching one output of a snapshot.
pub fn switch_directly(
    topology: &Topology,
    output: &Output,
    enabled: Option<bool>,
    opts: ToggleOpts,
    remembered: &RememberedLayouts,
) -> (r: DirectStep)
    requires
        wanted(*output, enabled) != output.enabled ==> switch_fits(
            topology.outputs@,
            *output,
            wanted(*output, enabled),
            *remembered,
        ),
    ensures
        direct_result(r, *topology, *output, enabled, opts, *remembered),
{
    let want: bool = match enabled {
        Some(w) => w,
        None => !output.enabled,
    };
    let connector = &output.identity.connector;
    if output.enabled == want {
        return DirectStep::Already(join3(connector.as_str(), " is already ", state_text(want)));
    }
    let mut plan = plan_switch(topology, output, want, remembered);
    normalize(&mut plan);
    let risk = assess(topology, &plan);
    if risk.timer_mandatory() && opts.no_timer {
        return DirectStep::Refuse(
            CliError::Guard(
                join3(
                    "refusing --no-timer: ",
                    risk_text(risk),
                    " — the auto-revert timer is mandatory here",
                ),
            ),
        );
    }
    let timer: Option<u64> = if risk.timer_mandatory() {
        match opts.timer {
            Some(secs) => Some(secs),
            None => Some(DEFAULT_TIMER_SECS),
        }
    } else if opts.no_timer {
        None
    } else {
        opts.timer
    };
    DirectStep::Apply(
        DirectChange {
            plan,
            connector: connector.clone(),
            want,
            risk,
            ask: risk.timer_mandatory() && !opts.force,
            timer,
        },
    )
}

/// What is to be remembered of an output (see [`RememberedLayouts::remember`]).
#[derive(Debug)]
pub struct Memory {
    pub planned: PlannedOutput,
    pub around: Vec<Neighbor>,
}

/// Whether a memory is what is worth remembering of an output before it is
/// switched: its config and its neighbors when it is switched off, nothing
/// otherwise.
pub open spec fn worth_remembering(
    r: Option<Memory>,
    outputs: Seq<Output>,
    o: Output,
    enabled: Option<bool>,
) -> bool {
    if o.enabled && !wanted(o, enabled) {
        &&& r is Some
        &&& r->0.planned == planned_as_is(o)
        &&& r->0.around@ == neighbors_in(outputs, o.identity.connector@)
    } else {
        r is None
    }
}

/// A decided command: what to remember first, then what to do.
#[derive(Debug)]
pub struct DirectDecision {
    pub remember: Option<Memory>,
    pub step: DirectStep,
}

/// Whether a decision is what a command to switch the output that a target names leads to.
pub open spec fn command_result(
    r: Result<Option<DirectDecision>, CliError>,
    topology: Topology,
    target: Seq<char>,
    enabled: Option<bool>,
    opts: ToggleOpts,
    remembered: RememberedLayouts,
) -> bool {
    let outputs = topology.outputs@;
    let hits = target_hits(target, outputs);
    let want = wanted(hits[0], enabled);
    let fits = switch_fits(outputs, hits[0], want, remembered);
    match r {
        Err(e) => {
            &&& hits.len() != 1
            &&& e matches CliError::Resolve(err)
            &&& target_result(Err(err), hits, target)
        },
        Ok(None) => hits.len() == 1 && want != hits[0].enabled && !fits,
        Ok(Some(decision)) => {
            &&& hits.len() == 1
            &&& want != hits[0].enabled ==> fits
            &&& worth_remembering(decision.remember, outputs, hits[0], enabled)
            &&& direct_result(
                decision.step,
                topology,
                hits[0],
                enabled,
                opts,
                remembered,
            )
        },
    }
}

/// Decide about a command to switch the output that a target names. `Ok(None)`
/// says that the coordinates of the switched layout do not fit.
pub fn set_enabled(
    topology: &Topology,
    target: &str,
    enabled: Option<bool>,
    opts: ToggleOpts,
    remembered: &RememberedLayouts,
) -> (r: Result<Option<DirectDecision>, CliError>)
    ensures
        command_result(r, *topology, target@, enabled, opts, *remembered),
{
    let output: &Output = match resolve_target(target, topology.outputs.as_slice()) {
        Ok(o) => o,
        Err(e) => {
            return Err(CliError::Resolve(e));
        },
    };
    let want: bool = match enabled {
        Some(w) => w,
        None => !output.enabled,
    };
    if want != output.enabled && !switch_is_within(topology, output, want, remembered) {
        return Ok(None);
    }
    let remember: Option<Memory> = if output.enabled && !want {
        Some(
            Memory {
                planned: PlannedOutput::from_output(output),
                around: neighbors_of(&topology.outputs, output.identity.connector.as_str()),
            },
        )
    } else {
        None
    };
    let step = switch_directly(topology, output, enabled, opts, remembered);
    Ok(Some(DirectDecision { remember, step }))
}

/// Whether an error is the one of a failed apply.
pub open spec fn apply_failed(r: CliError, e: BackendError, enabling: bool) -> bool {
    if enabling && e is Server {
        r matches CliError::Backend(BackendError::OutputUnresponsive(m)) && m@ == backend_message(e)
    } else {
        r == CliError::Backend(e)
    }
}

/// The error of a failed apply. A server error while enabling mostly means that
/// the display did not come back.
pub fn enable_hint(e: BackendError, enabling: bool) -> (r: CliError)
    ensures
        apply_failed(r, e, enabling),
{
    if enabling {
        if let BackendError::Server(_) = &e {
            return CliError::Backend(BackendError::OutputUnresponsive(e.message()));
        }
    }
    CliError::Backend(e)
}

/// Whether an answer says yes.
pub open spec fn agrees(answer: Seq<char>) -> bool {
    trimmed(answer) == "y"@ || trimmed(answer) == "Y"@ || trimmed(answer) == "yes"@
}

/// Whether an answer says yes.
pub fn is_yes(answer: &str) -> (r: bool)
    ensures
        r == agrees(answer@),
{
    let word = trim_text(answer);
    same_text(word.as_str(), "y") || same_text(word.as_str(), "Y") || same_text(
        word.as_str(),
        "yes",
    )
}

// -------------------------------------------------------------- daemon mode

/// Whether the user is to be asked, and the request made again with force: the
/// daemon refused a risky change that was not acknowledged.
pub open spec fn asks_again(outcome: SetOutcome, force: bool) -> bool {
    !force && match outcome {
        SetOutcome::GuardRefused { reason } => occurs_in(reason@, "force"@),
        _ => false,
    }
}

/// Whether the user is to be asked, and the request made again with force.
pub fn needs_acknowledgement(outcome: &SetOutcome, force: bool) -> (r: bool)
    ensures
        r == asks_again(*outcome, force),
{
    match outcome {
        SetOutcome::GuardRefused { reason } => !force && contains(reason.as_str(), "force"),
        _ => false,
    }
}

/// What the command does with an outcome of the daemon.
#[derive(Debug)]
pub enum OutcomeStep {
    /// Note the warnings and say so.
    Report { warnings: Vec<ProfileWarning>, text: String },
    /// Show the notice, then wait for the user to keep the change.
    Await { notice: String, secs: u64 },
    /// The daemon refused.
    Refuse(CliError),
}

/// Whether a step is what an outcome of the daemon leads to.
pub open spec fn outcome_handled(r: OutcomeStep, outcome: SetOutcome) -> bool {
    match outcome {
        SetOutcome::Applied { warnings } => r matches OutcomeStep::Report {
            warnings: w,
            text,
        } && w == warnings && text@ == "done"@,
        SetOutcome::AlreadyInState => r matches OutcomeStep::Report { warnings: w, text }
            && w@.len() == 0 && text@ == "already in the requested state"@,
        SetOutcome::Pending { deadline_secs, risk, .. } => r matches OutcomeStep::Await {
            notice,
            secs,
        } && secs == deadline_secs && notice@ == "applied temporarily ("@ + risk_name(risk)
            + ") — press Enter to keep, or run `nosignal confirm`"@,
        SetOutcome::GuardRefused { reason } => r == OutcomeStep::Refuse(
            CliError::Guard(reason),
        ),
    }
}

/// Decide what to do with an outcome of the daemon.
pub fn outcome_step(outcome: SetOutcome) -> (r: OutcomeStep)
    ensures
        outcome_handled(r, outcome),
{
    match outcome {
        SetOutcome::Applied { warnings } => OutcomeStep::Report { warnings, text: "done".to_owned() },
        SetOutcome::AlreadyInState => OutcomeStep::Report {
            warnings: Vec::new(),
            text: "already in the requested state".to_owned(),
        },
        SetOutcome::Pending { job_id: _, deadline_secs, risk, warnings: _ } => OutcomeStep::Await {
            notice: join3(
                "applied temporarily (",
                risk.name(),
                ") — press Enter to keep, or run `nosignal confirm`",
            ),
            secs: deadline_secs,
        },
        SetOutcome::GuardRefused { reason } => OutcomeStep::Refuse(CliError::Guard(reason)),
    }
}

/// What the command says once a pending change is kept or not.
pub fn settled_text(kept: bool) -> (r: &'static str)
    ensures
        r@ == if kept {
            "kept"@
        } else {
            "auto-reverted by the daemon"@
        },
{
    if kept {
        "kept"
    } else {
        "auto-reverted by the daemon"
    }
}

// --------------------------------------------------------------------- text

/// So many spaces.
pub open spec fn spaces(n: nat) -> Seq<char> {
    Seq::new(n, |i: int| ' ')
}

/// A text, filled up with spaces to a width.
pub open spec fn padded(s: Seq<char>, width: nat) -> Seq<char> {
    if s.len() < width {
        s + spaces((width - s.len()) as nat)
    } else {
        s
    }
}

fn push_padded(out: &mut String, s: &str, width: usize)
    ensures
        final(out)@ == old(out)@ + padded(s@, width as nat),
{
    let ghost start = out@;
    out.append(s);
    let n: usize = chars_of(s).len();
    let mut k: usize = n;
    assert(out@ =~= start + s@ + spaces(0));
    while k < width
        invariant
            n == s@.len(),
            n <= k,
            k <= width || k == n,
            out@ == start + s@ + spaces((k - n) as nat),
        decreases width - k,
    {
        out.push(' ');
        k = k + 1;
        assert(out@ =~= start + s@ + spaces((k - n) as nat));
    }
    assert(out@ =~= start + padded(s@, width as nat));
}

/// One line of the output list.
pub open spec fn list_line(
    connector: Seq<char>,
    name: Seq<char>,
    state: Seq<char>,
    mode: Seq<char>,
    position: Seq<char>,
    flags: Seq<char>,
) -> Seq<char> {
    padded(connector, 12) + " "@ + padded(name, 28) + " "@ + padded(state, 5) + " "@ + padded(
        mode,
        20,
    ) + " "@ + padded(position, 12) + " "@ + flags
}

fn list_text(
    connector: &str,
    name: &str,
    state: &str,
    mode: &str,
    position: &str,
    flags: &str,
) -> (r: String)
    ensures
        r@ == list_line(connector@, name@, state@, mode@, position@, flags@),
{
    let mut s = String::new();
    push_padded(&mut s, connector, 12);
    s.append(" ");
    push_padded(&mut s, name, 28);
    s.append(" ");
    push_padded(&mut s, state, 5);
    s.append(" ");
    push_padded(&mut s, mode, 20);
    s.append(" ");
    push_padded(&mut s, position, 12);
    s.append(" ");
    s.append(flags);
    assert(s@ =~= list_line(connector@, name@, state@, mode@, position@, flags@));
    s
}

/// The headings of the output list.
pub fn list_header() -> (r: String)
    ensures
        r@ == list_line("CONNECTOR"@, "NAME"@, "STATE"@, "MODE"@, "POSITION"@, "FLAGS"@),
{
    list_text("CONNECTOR", "NAME", "STATE", "MODE", "POSITION", "FLAGS")
}

/// How a state is listed.
pub open spec fn on_off(enabled: bool) -> Seq<char> {
    if enabled {
        "on"@
    } else {
        "off"@
    }
}

fn on_off_text(enabled: bool) -> (r: &'static str)
    ensures
        r@ == on_off(enabled),
{
    if enabled {
        "on"
    } else {
        "off"
    }
}

/// The listed name of an output, with its alias.
pub open spec fn listed_name(o: Output) -> Seq<char> {
    match o.alias {
        Some(alias) => o.display_name@ + " ["@ + alias@ + "]"@,
        None => o.display_name@,
    }
}

/// The listed flags of an output.
pub open spec fn listed_flags(o: Output) -> Seq<char> {
    if o.primary && o.builtin {
        "primary,builtin"@
    } else if o.primary {
        "primary"@
    } else if o.builtin {
        "builtin"@
    } else {
        ""@
    }
}

/// The line of an output in the output list.
pub open spec fn listed(o: Output) -> Seq<char> {
    list_line(
        o.identity.connector@,
        listed_name(o),
        on_off(o.enabled),
        match o.mode {
            Some(m) => mode_text(m),
            None => "-"@,
        },
        if o.enabled {
            signed_decimal(o.position.0 as int) + ","@ + signed_decimal(o.position.1 as int)
        } else {
            "-"@
        },
        listed_flags(o),
    )
}

/// The line of an output in the output list.
pub fn list_row(o: &Output) -> (r: String)
    ensures
        r@ == listed(*o),
{
    let name: String = match &o.alias {
        Some(alias) => {
            let mut s = join3(o.display_name.as_str(), " [", alias.as_str());
            s.append("]");
            s
        },
        None => o.display_name.clone(),
    };
    let mode: String = match o.mode {
        Some(m) => m.to_text(),
        None => "-".to_owned(),
    };
    let position: String = if o.enabled {
        join3(
            signed_decimal_text(o.position.0 as i64).as_str(),
            ",",
            signed_decimal_text(o.position.1 as i64).as_str(),
        )
    } else {
        "-".to_owned()
    };
    let flags: &str = if o.primary && o.builtin {
        "primary,builtin"
    } else if o.primary {
        "primary"
    } else if o.builtin {
        "builtin"
    } else {
        ""
    };
    list_text(
        o.identity.connector.as_str(),
        name.as_str(),
        on_off_text(o.enabled),
        mode.as_str(),
        position.as_str(),
        flags,
    )
}

/// The line about the number of outputs.
pub open spec fn counts_line(total: nat, enabled: nat) -> Seq<char> {
    "outputs:  "@ + decimal(total) + " connected, "@ + decimal(enabled) + " enabled"@
}

/// The line about the number of outputs.
pub fn counts_text(total: usize, enabled: usize) -> (r: String)
    ensures
        r@ == counts_line(total as nat, enabled as nat),
{
    let mut s = "outputs:  ".to_owned();
    push_decimal(&mut s, total as u64);
    s.append(" connected, ");
    push_decimal(&mut s, enabled as u64);
    s.append(" enabled");
    assert(s@ =~= counts_line(total as nat, enabled as nat));
    s
}

/// The lines that tell the state of a topology.
pub open spec fn status_lines(backend: Seq<char>, outputs: Seq<Output>) -> Seq<Seq<char>> {
    seq![
        "backend:  "@ + backend,
        counts_line(outputs.len(), outputs.filter(output_enabled()).len()),
    ] + outputs.map_values(
        |o: Output| "  "@ + padded(o.identity.connector@, 12) + " "@ + on_off(o.enabled),
    )
}

/// The lines that tell the state of a topology.
pub fn status_text(backend: &str, topology: &Topology) -> (r: Vec<String>)
    ensures
        texts(r@) == status_lines(backend@, topology.outputs@),
{
    let mut lines: Vec<String> = Vec::new();
    lines.push(join2("backend:  ", backend));
    lines.push(counts_text(topology.outputs.len(), topology.enabled_count()));
    let ghost all = status_lines(backend@, topology.outputs@);
    assert(texts(lines@) =~= all.take(2));
    for i in 0..topology.outputs.len()
        invariant
            all == status_lines(backend@, topology.outputs@),
            texts(lines@) == all.take(i + 2),
    {
        let o = &topology.outputs[i];
        let mut s = "  ".to_owned();
        push_padded(&mut s, o.identity.connector.as_str(), 12);
        s.append(" ");
        s.append(on_off_text(o.enabled));
        assert(s@ =~= all[i + 2]);
        let ghost before = lines@;
        lines.push(s);
        assert(texts(lines@) =~= all.take(i + 3)) by {
            assert(texts(lines@) =~= texts(before).push(s@));
        }
    }
    assert(all.take(all.len() as int) =~= all);
    lines
}

/// The notes about an active profile.
pub open spec fn profile_notes(drifted: bool, suspended: bool) -> Seq<char> {
    if drifted && suspended {
        " (drifted, SUSPENDED by loop guard)"@
    } else if drifted {
        " (drifted)"@
    } else if suspended {
        " (SUSPENDED by loop guard)"@
    } else {
        ""@
    }
}

/// The lines that tell the state of the daemon.
pub open spec fn daemon_lines(s: StatusInfo) -> Seq<Seq<char>> {
    seq![
        "daemon:   running (v"@ + s.version@ + ")"@,
        "backend:  "@ + s.backend@,
        counts_line(s.outputs_total as nat, s.outputs_enabled as nat),
        match s.active_profile {
            Some(name) => "profile:  "@ + name@ + profile_notes(s.drifted, s.suspended),
            None => "profile:  none active"@,
        },
    ] + match s.pending {
        Some(p) => seq![
            "pending:  job "@ + decimal(p.job_id as nat) + " auto-reverts in "@ + decimal(
                p.deadline_secs as nat,
            ) + "s — `nosignal confirm` to keep"@,
        ],
        None => Seq::empty(),
    }
}

/// The lines that tell the state of the daemon.
pub fn daemon_text(s: &StatusInfo) -> (r: Vec<String>)
    ensures
        texts(r@) == daemon_lines(*s),
{
    let mut lines: Vec<String> = Vec::new();
    lines.push(join3("daemon:   running (v", s.version.as_str(), ")"));
    lines.push(join2("backend:  ", s.backend.as_str()));
    lines.push(counts_text(s.outputs_total, s.outputs_enabled));
    lines.push(
        match &s.active_profile {
            Some(name) => {
                let notes: &str = if s.drifted && s.suspended {
                    " (drifted, SUSPENDED by loop guard)"
                } else if s.drifted {
                    " (drifted)"
                } else if s.suspended {
                    " (SUSPENDED by loop guard)"
                } else {
                    ""
                };
                join3("profile:  ", name.as_str(), notes)
            },
            None => "profile:  none active".to_owned(),
        },
    );
    if let Some(p) = s.pending {
        let mut line = "pending:  job ".to_owned();
        push_decimal(&mut line, p.job_id);
        line.append(" auto-reverts in ");
        push_decimal(&mut line, p.deadline_secs);
        line.append("s — `nosignal confirm` to keep");
        lines.push(line);
    }
    assert(texts(lines@) =~= daemon_lines(*s));
    lines
}

// --------------------------------------------------------------------- laws

/// Without a daemon too, no option makes a risky change go without a timer.
pub proof fn risky_direct_change_has_a_timer(risk: RiskClass, opts: ToggleOpts)
    requires
        risk != RiskClass::Routine,
    ensures
        direct_timer(risk, opts) != Ok::<Option<u64>, ()>(None),
{
}

/// Without a daemon too, a timer runs for exactly as long as was asked for; a risky
/// change has twenty seconds where nothing was asked for, and is refused only where
/// it is to go without a timer.
pub proof fn direct_timer_runs_as_long_as_asked(risk: RiskClass, opts: ToggleOpts)
    ensures
        direct_timer(risk, opts) is Err <==> risk != RiskClass::Routine && opts.no_timer,
        direct_timer(risk, opts) matches Ok(Some(secs)) ==> {
            &&& opts.timer matches Some(asked) ==> secs == asked
            &&& opts.timer is None ==> secs == 20 && risk != RiskClass::Routine
        },
        direct_timer(risk, opts) == Ok::<Option<u64>, ()>(None) <==> risk == RiskClass::Routine && (
        opts.no_timer || opts.timer is None),
{
}

/// A command that names exactly one display is about that display, and one that names none
/// or several fails.
pub proof fn command_is_about_the_named_display(
    r: Result<Option<DirectDecision>, CliError>,
    topology: Topology,
    target: Seq<char>,
    want: bool,
    opts: ToggleOpts,
    remembered: RememberedLayouts,
)
    requires
        command_result(r, topology, target, Some(want), opts, remembered),
    ensures
        ({
            let hits = target_hits(target, topology.outputs@);
            &&& r is Err <==> hits.len() != 1
            &&& r matches Err(e) ==> e is Resolve
            &&& r matches Ok(Some(decision)) ==> {
                &&& decision.step is Already <==> hits[0].enabled == want
                &&& decision.remember is Some <==> hits[0].enabled && !want
                &&& decision.remember matches Some(m) ==> m.planned.identity == hits[0].identity
                    && m.planned.enabled && m.planned.position == hits[0].position && (hits[0].mode
                    is Some ==> m.planned.mode == hits[0].mode)
                &&& decision.step matches DirectStep::Apply(change) ==> {
                    &&& change.connector@ == hits[0].identity.connector@
                    &&& change.want == want
                    &&& change.plan.serial == topology.serial
                    &&& change.plan.outputs@ == switch_layout(
                        topology.outputs@,
                        hits[0],
                        want,
                        remembered,
                    )
                }
            }
        }),
{
    let hits = target_hits(target, topology.outputs@);
    planning_as_is_changes_nothing(hits[0]);
}

/// The user is asked before a risky change unless it is forced, and only a risky change
/// that is to go without a timer is refused.
pub proof fn risky_command_is_asked_about(
    step: DirectStep,
    topology: Topology,
    o: Output,
    want: bool,
    opts: ToggleOpts,
    remembered: RememberedLayouts,
)
    requires
        direct_result(step, topology, o, Some(want), opts, remembered),
        want != o.enabled,
    ensures
        ({
            let risk = risk_of(
                topology.outputs@,
                switch_layout(topology.outputs@, o, want, remembered),
            );
            &&& step is Refuse <==> risk != RiskClass::Routine && opts.no_timer
            &&& step matches DirectStep::Refuse(e) ==> e is Guard
            &&& step matches DirectStep::Apply(change) ==> {
                &&& change.risk == risk
                &&& change.ask <==> risk != RiskClass::Routine && !opts.force
                &&& risk != RiskClass::Routine ==> change.timer is Some
                &&& opts.timer is Some && !opts.no_timer ==> change.timer == opts.timer
                &&& risk == RiskClass::Routine && opts.no_timer ==> change.timer is None
            }
        }),
{
}

/// A command ends with 2 for an ambiguous target, with 3 for a refused change, and with 1
/// for anything else, whether it ran by itself or through the daemon.
pub proof fn exit_codes_tell_the_failures_apart(direct: CliError, told: CliError, e: IpcError)
    requires
        ipc_failed(told, e),
    ensures
        1 <= code_of(direct) <= 3,
        code_of(direct) == 2 <==> direct is Ambiguous || (direct matches CliError::Resolve(why)
            && why is Ambiguous),
        code_of(direct) == 3 <==> direct is Guard,
        code_of(told) == 2 <==> (e matches IpcError::Api { kind, .. } && kind
            == ApiErrorKind::Ambiguous),
        code_of(told) == 3 <==> (e matches IpcError::Api { kind, .. } && kind
            == ApiErrorKind::Guard),
        cli_message(told) == ipc_message(e),
{
}

/// Help is offered exactly where a monitor may be asleep: a display is not found, or it did
/// not come back. A server error while a display is switched on counts as the latter.
pub proof fn help_is_offered_for_a_sleeping_monitor(
    direct: CliError,
    failed: CliError,
    e: BackendError,
    enabling: bool,
)
    requires
        apply_failed(failed, e, enabling),
    ensures
        hint_of(direct) is Some <==> (direct matches CliError::Resolve(why) && why is NotFound) || (
        direct matches CliError::Backend(why) && why is OutputUnresponsive),
        hint_of(failed) is Some <==> e is OutputUnresponsive || (enabling && e is Server),
        !(enabling && e is Server) ==> cli_message(failed) == backend_message(e),
        code_of(failed) == 1,
{
}

/// The user is asked again only after a refusal, and never where the change was forced.
pub proof fn forced_change_is_not_asked_about_again(outcome: SetOutcome, force: bool)
    ensures
        asks_again(outcome, force) ==> outcome is GuardRefused && !force,
        !force ==> (outcome matches SetOutcome::GuardRefused { reason } ==> (asks_again(
            outcome,
            force,
        ) <==> occurs_in(reason@, "force"@))),
{
}

/// A pending change is awaited for as long as the daemon gives it, a refusal fails, and
/// anything else is reported.
pub proof fn pending_change_is_awaited(r: OutcomeStep, outcome: SetOutcome)
    requires
        outcome_handled(r, outcome),
    ensures
        r is Await <==> outcome is Pending,
        r is Refuse <==> outcome is GuardRefused,
        r is Report <==> outcome is Applied || outcome is AlreadyInState,
        outcome matches SetOutcome::Pending { deadline_secs, .. } ==> (
        r matches OutcomeStep::Await { secs, .. } && secs == deadline_secs),
        outcome matches SetOutcome::GuardRefused { reason } ==> (r matches OutcomeStep::Refuse(e)
            && code_of(e) == 3 && cli_message(e) == reason@),
        outcome matches SetOutcome::Applied { warnings } ==> (r matches OutcomeStep::Report {
            warnings: w,
            ..
        } && w == warnings),
{
}

/// Every line of the list begins with the connector, and tells an output that is on from one
/// that is off, and one at another place from it.
pub proof fn list_tells_outputs_apart(o: Output, p: Output)
    ensures
        listed(o).len() >= 12,
        o.identity.connector@.len() <= 12 ==> listed(o).take(
            o.identity.connector@.len() as int,
        ) == o.identity.connector@,
        on_off(o.enabled) == on_off(p.enabled) <==> o.enabled == p.enabled,
        on_off(true).len() == 2,
        listed_flags(o) == listed_flags(p) <==> o.primary == p.primary && o.builtin == p.builtin,
        listed_flags(o).len() == 0 <==> !o.primary && !o.builtin,
        o.alias is None ==> listed_name(o) == o.display_name@,
        o.alias is Some ==> occurs_in(listed_name(o), o.alias->0@) && listed_name(o).len()
            > o.display_name@.len(),
{
    reveal_strlit("on");
    reveal_strlit("off");
    reveal_strlit("");
    reveal_strlit("primary");
    reveal_strlit("builtin");
    reveal_strlit("primary,builtin");
    reveal_strlit(" [");
    reveal_strlit("]");
    assert("primary"@[0] != "builtin"@[0]);
    let c = o.identity.connector@;
    assert(padded(c, 12).len() >= 12);
    if c.len() <= 12 {
        assert(listed(o).take(c.len() as int) =~= c);
    }
    if o.alias is Some {
        let a = o.alias->0@;
        let n = o.display_name@.len() as int + 2;
        assert(occurs_at(listed_name(o), a, n)) by {
            assert(listed_name(o).subrange(n, n + a.len()) =~= a);
        }
    }
}

/// The status has a line for the backend, one for the counts and one for each output.
pub proof fn status_has_a_line_for_each_output(backend: Seq<char>, outputs: Seq<Output>, i: int)
    requires
        0 <= i < outputs.len(),
    ensures
        status_lines(backend, outputs).len() == outputs.len() + 2,
        status_lines(backend, outputs)[i + 2] == "  "@ + padded(outputs[i].identity.connector@, 12)
            + " "@ + on_off(outputs[i].enabled),
        status_lines(backend, outputs)[1] == counts_line(
            outputs.len(),
            outputs.filter(output_enabled()).len(),
        ),
{
}

/// The state of the daemon has a line for a pending job exactly if there is one, and notes
/// of a profile tell drift and suspension apart.
pub proof fn daemon_state_tells_what_is_pending(s: StatusInfo, a: (bool, bool), b: (bool, bool))
    ensures
        daemon_lines(s).len() == if s.pending is Some {
            5nat
        } else {
            4
        },
        s.active_profile is Some ==> daemon_lines(s)[3] == "profile:  "@ + s.active_profile->0@
            + profile_notes(s.drifted, s.suspended),
        s.active_profile is None ==> daemon_lines(s)[3] == "profile:  none active"@,
        profile_notes(a.0, a.1) == profile_notes(b.0, b.1) <==> a == b,
        profile_notes(false, false).len() == 0,
{
    reveal_strlit("");
    reveal_strlit(" (drifted)");
    reveal_strlit(" (SUSPENDED by loop guard)");
    reveal_strlit(" (drifted, SUSPENDED by loop guard)");
    assert(profile_notes(true, true).len() == 35);
    assert(profile_notes(true, false).len() == 10);
    assert(profile_notes(false, true).len() == 26);
}

/// A line of the list tells the name of an output, its mode and, where it is on, its place.
pub proof fn list_tells_name_mode_and_place(o: Output)
    ensures
        occurs_in(listed(o), o.display_name@),
        o.mode is Some ==> occurs_in(listed(o), mode_text(o.mode->0)),
        o.enabled ==> occurs_in(
            listed(o),
            signed_decimal(o.position.0 as int) + ","@ + signed_decimal(o.position.1 as int),
        ),
        occurs_in(listed(o), on_off(o.enabled)),
        occurs_in(listed(o), listed_flags(o)),
{
    let name = listed_name(o);
    let state = on_off(o.enabled);
    let mode = match o.mode {
        Some(m) => mode_text(m),
        None => "-"@,
    };
    let place = if o.enabled {
        signed_decimal(o.position.0 as int) + ","@ + signed_decimal(o.position.1 as int)
    } else {
        "-"@
    };
    let rest = if o.alias is Some {
        " ["@ + o.alias->0@ + "]"@
    } else {
        Seq::empty()
    };
    occurrences_are_parts(name, o.display_name@, Seq::empty(), rest);
    assert(Seq::empty() + o.display_name@ + rest =~= name);
    let connector = o.identity.connector@;
    let flags = listed_flags(o);
    columns_are_there(connector, name, state, mode, place, flags);
    occurrence_carries_over(listed(o), name, o.display_name@);
}

proof fn columns_are_there(
    connector: Seq<char>,
    name: Seq<char>,
    state: Seq<char>,
    mode: Seq<char>,
    place: Seq<char>,
    flags: Seq<char>,
)
    ensures
        ({
            let s = list_line(connector, name, state, mode, place, flags);
            occurs_in(s, name) && occurs_in(s, state) && occurs_in(s, mode) && occurs_in(s, place)
                && occurs_in(s, flags)
        }),
{
    let a = padded(connector, 12) + " "@;
    let b = a + padded(name, 28) + " "@;
    let c = b + padded(state, 5) + " "@;
    let d = c + padded(mode, 20) + " "@;
    let e = d + padded(place, 12) + " "@;
    column_is_there(a, name, 28, " "@);
    column_is_there(b, state, 5, " "@);
    column_is_there(c, mode, 20, " "@);
    column_is_there(d, place, 12, " "@);
    occurrence_is_kept(b, padded(state, 5), name);
    occurrence_is_kept(b + padded(state, 5), " "@, name);
    occurrence_is_kept(c, padded(mode, 20), name);
    occurrence_is_kept(c, padded(mode, 20), state);
    occurrence_is_kept(c + padded(mode, 20), " "@, name);
    occurrence_is_kept(c + padded(mode, 20), " "@, state);
    occurrence_is_kept(d, padded(place, 12), name);
    occurrence_is_kept(d, padded(place, 12), state);
    occurrence_is_kept(d, padded(place, 12), mode);
    occurrence_is_kept(d + padded(place, 12), " "@, name);
    occurrence_is_kept(d + padded(place, 12), " "@, state);
    occurrence_is_kept(d + padded(place, 12), " "@, mode);
    occurrence_is_kept(e, flags, name);
    occurrence_is_kept(e, flags, state);
    occurrence_is_kept(e, flags, mode);
    occurrence_is_kept(e, flags, place);
    occurrences_are_parts(e, flags, e, Seq::empty());
    assert(e + flags + Seq::empty() =~= e + flags);
}

proof fn occurrence_is_kept(s: Seq<char>, more: Seq<char>, needle: Seq<char>)
    requires
        occurs_in(s, needle),
    ensures
        occurs_in(s + more, needle),
{
    let at = choose|at: int| occurs_at(s, needle, at);
    assert((s + more).subrange(at, at + needle.len()) =~= s.subrange(at, at + needle.len()));
    assert(occurs_at(s + more, needle, at));
}

proof fn column_is_there(before: Seq<char>, column: Seq<char>, width: nat, after: Seq<char>)
    ensures
        occurs_in(before + padded(column, width) + after, column),
{
    let filler = padded(column, width).skip(column.len() as int);
    assert(before + padded(column, width) + after =~= before + column + (filler + after));
    occurrences_are_parts(before, column, before, filler + after);
}

proof fn occurrence_carries_over(s: Seq<char>, outer: Seq<char>, inner: Seq<char>)
    requires
        occurs_in(s, outer),
        occurs_in(outer, inner),
    ensures
        occurs_in(s, inner),
{
    let i = choose|at: int| occurs_at(s, outer, at);
    let j = choose|at: int| occurs_at(outer, inner, at);
    assert(s.subrange(i + j, i + j + inner.len()) =~= outer.subrange(j, j + inner.len()));
    assert(occurs_at(s, inner, i + j));
}

} // verus!
