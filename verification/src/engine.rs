//! The daemon engine: owns all display logic, state, guards, timers, profiles,
//! audio follow-through, and the persistence/re-assert loop.
//!
//! The engine decides; it does not act. Each operation takes what the outside
//! world reported (a snapshot, the result of an apply, the time, the default
//! sink), updates the engine's state, and says what is to be done next. What
//! needs no answer (saving a file, telling clients, arming a timer) is queued
//! as an [`Effect`].

use crate::backend::ApplyMode;
use crate::config::{alias_identity, aliased, other_alias, DaemonConfig};
use crate::error::{backend_message, resolve_message, BackendError, ResolveError};
use crate::guards::{assess, risk_of, RiskClass};
use crate::identity::{
    absent_display_has_no_hits, connectors, edids_agree, identity_stands_for_its_display,
    names_only, quality, quality_goes_by_edid_then_connector, resolve_target, same_identity,
    target_hits, target_result, unrelated, MatchQuality, OutputIdentity,
};
use crate::ipc::{
    ApiErrorKind, DaemonEvent, EventView, PendingInfo, ProfileInfo, ProfilesInfo, SetOpts,
    SetOutcome, StatusInfo,
};
use crate::layout::{
    normalize, normalized, normalized_keeps_the_rest, restore_fits, restore_plan, restored,
    restoring_gives_the_earlier_layout, restoring_plans_every_output_once, same_displays,
    spread_fits,
};
use crate::profile::{
    absent, any_moved, applied_entries_are_settled, captures, copy_audio, entry_ambiguous,
    entry_error, entry_hits, entry_identity, entry_moved, entry_settles, migrated, migrated_entry,
    migrated_entry_hits, migrated_profile_asks_for_the_same, named, no_conflict, not_named,
    profile_outputs, profile_warnings, stored_profile_is_found, warnings_of, with_profile, Profile,
    ProfileOutput, ProfileStore, ProfileWarning,
};
use crate::remembered::{
    around_at, neighbors_in, neighbors_of, recalled, remembered_config_is_recalled, remembers,
    slot_for, with_remembered, Neighbor, RememberedLayouts,
};
use crate::seqs::{
    filter_all, filter_has, filter_held, filter_meets, filter_none, filter_push, find_where,
    first_where, first_where_facts, first_where_is, first_where_none,
};
use crate::state::{restore_identity, AudioRestore, DaemonState, PersistedPending};
use crate::switch::{
    place_fits, plan_switch, refusal_message, switch_fits, switch_is_within, switch_layout,
    switch_plan, timer_for, timer_rule, wanted, Refusal,
};
use crate::text::{join2, join3, same_text, texts};
use crate::topology::{
    copy_text, distinct_connectors, output_at, output_enabled, planned_as_is,
    planning_as_is_changes_nothing, plans_as_is, same_output, same_topology, LayoutPlan, Output,
    PlannedOutput, Topology,
};
use vstd::prelude::*;

verus! {

#[derive(Debug)]
pub enum EngineError {
    Resolve(ResolveError),
    Backend(BackendError),
    NoSuchProfile(String),
    Store(String),
}

/// What an engine error says to the user.
pub open spec fn engine_message(e: EngineError) -> Seq<char> {
    match e {
        EngineError::Resolve(e) => resolve_message(e),
        EngineError::Backend(e) => backend_message(e),
        EngineError::NoSuchProfile(name) => "no profile named '"@ + name@ + "'"@,
        EngineError::Store(m) => "state error: "@ + m@,
    }
}

/// How clients see an engine error.
pub open spec fn engine_kind(e: EngineError) -> ApiErrorKind {
    match e {
        EngineError::Resolve(ResolveError::NotFound(_)) => ApiErrorKind::NotFound,
        EngineError::Resolve(ResolveError::Ambiguous { .. }) => ApiErrorKind::Ambiguous,
        EngineError::Backend(_) => ApiErrorKind::Backend,
        EngineError::NoSuchProfile(_) => ApiErrorKind::NotFound,
        EngineError::Store(_) => ApiErrorKind::Other,
    }
}

impl EngineError {
    /// The classification that clients see.
    pub fn kind(&self) -> (r: ApiErrorKind)
        ensures
            r == engine_kind(*self),
    {
        match self {
            EngineError::Resolve(ResolveError::NotFound(_)) => ApiErrorKind::NotFound,
            EngineError::Resolve(ResolveError::Ambiguous { .. }) => ApiErrorKind::Ambiguous,
            EngineError::Backend(_) => ApiErrorKind::Backend,
            EngineError::NoSuchProfile(_) => ApiErrorKind::NotFound,
            EngineError::Store(_) => ApiErrorKind::Other,
        }
    }

    /// The error's message.
    pub fn message(&self) -> (r: String)
        ensures
            r@ == engine_message(*self),
    {
        match self {
            EngineError::Resolve(e) => e.message(),
            EngineError::Backend(e) => e.message(),
            EngineError::NoSuchProfile(name) => join3("no profile named '", name.as_str(), "'"),
            EngineError::Store(m) => join2("state error: ", m.as_str()),
        }
    }
}

/// Something to be done that needs no answer.
#[derive(Debug)]
pub enum Effect {
    /// Write the daemon state.
    SaveState,
    /// Write the remembered layouts.
    SaveRemembered,
    /// Write the profiles.
    SaveProfiles,
    /// Tell the clients.
    Emit(DaemonEvent),
    /// Revert the job unless it is resolved within so many seconds.
    StartTimer { job_id: u64, secs: u64 },
    /// Forget the timer of a job.
    AbortTimer { job_id: u64 },
    /// Record the default sink once the audio server has failed over.
    CaptureFallback { connector: String },
    /// Make the sink the default as soon as it is there.
    PreferSink { sink: String },
}

/// What an effect is, with its texts as character sequences.
pub enum EffectView {
    SaveState,
    SaveRemembered,
    SaveProfiles,
    Emit(EventView),
    StartTimer { job_id: u64, secs: u64 },
    AbortTimer { job_id: u64 },
    CaptureFallback { connector: Seq<char> },
    PreferSink { sink: Seq<char> },
}

impl View for Effect {
    type V = EffectView;

    open spec fn view(&self) -> EffectView {
        match *self {
            Effect::SaveState => EffectView::SaveState,
            Effect::SaveRemembered => EffectView::SaveRemembered,
            Effect::SaveProfiles => EffectView::SaveProfiles,
            Effect::Emit(e) => EffectView::Emit(e@),
            Effect::StartTimer { job_id, secs } => EffectView::StartTimer { job_id, secs },
            Effect::AbortTimer { job_id } => EffectView::AbortTimer { job_id },
            Effect::CaptureFallback { connector } => EffectView::CaptureFallback {
                connector: connector@,
            },
            Effect::PreferSink { sink } => EffectView::PreferSink { sink: sink@ },
        }
    }
}

/// What a list of effects is.
pub open spec fn effects_of(list: Seq<Effect>) -> Seq<EffectView> {
    list.map_values(|e: Effect| e@)
}

/// A change that was applied temporarily and awaits confirmation.
#[derive(Debug)]
pub struct Pending {
    pub id: u64,
    /// The layout to go back to.
    pub prior: Topology,
    /// Monotonic nanoseconds at which the change reverts.
    pub deadline: u128,
    pub risk: RiskClass,
    /// Output the job disabled (audio follow-through on confirm), if any.
    pub disabled: Option<Output>,
    /// Output the job re-enabled (audio restore on confirm), if any.
    pub enabled: Option<Output>,
    /// The default sink before the job disabled its output.
    pub sink: Option<String>,
}

/// How many re-asserts within the window the loop guard allows.
pub const LOOP_GUARD_MAX: usize = 5;

/// The window of the loop guard, in nanoseconds.
pub const LOOP_GUARD_WINDOW: u128 = 30_000_000_000;

/// Nanoseconds per second.
pub const NANOS: u128 = 1_000_000_000;

/// The state of the daemon.
#[derive(Debug)]
pub struct Engine {
    pub config: DaemonConfig,
    pub profiles: ProfileStore,
    pub remembered: RememberedLayouts,
    pub daemon: DaemonState,
    pub pending: Option<Pending>,
    /// The layout was changed from outside since the active profile was applied.
    pub drifted: bool,
    /// Monotonic times of recent re-assert applies (loop guard).
    pub reasserts: Vec<u128>,
    pub last_connectors: Vec<String>,
    pub next_job: u64,
    /// What is to be done, in order.
    pub effects: Vec<Effect>,
}

/// A layout to apply in order to switch one output.
#[derive(Debug)]
pub struct Change {
    pub plan: LayoutPlan,
    /// The snapshot that the plan was derived from.
    pub prior: Topology,
    pub output: Output,
    pub want: bool,
    /// Seconds after which the change reverts; none for a change that stays.
    pub timer: Option<u64>,
    pub risk: RiskClass,
    /// The default sink before an output is disabled.
    pub sink: Option<String>,
}

/// How an apply sticks: temporarily as long as it may revert.
pub open spec fn mode_for(timer: Option<u64>) -> ApplyMode {
    if timer is Some {
        ApplyMode::Temporary
    } else {
        ApplyMode::Persistent
    }
}

/// How an apply sticks: temporarily as long as it may revert.
pub fn apply_mode(timer: Option<u64>) -> (r: ApplyMode)
    ensures
        r == mode_for(timer),
{
    match timer {
        Some(_) => ApplyMode::Temporary,
        None => ApplyMode::Persistent,
    }
}

/// What is to be done about a request.
#[derive(Debug)]
pub enum Step {
    /// Nothing more; this is the outcome.
    Done(SetOutcome),
    /// Apply the change (see [`needs_rebase`]), then report it with
    /// [`Engine::change_applied`].
    Apply(Change),
}

/// Audio follow-through for an output that went or came back.
#[derive(Debug)]
pub enum AudioJob {
    /// The output went; `sink` was the default before.
    AfterDisable { output: Output, sink: Option<String> },
    AfterEnable { output: Output },
}

/// Whether an apply failed because the configuration changed under it, so that
/// the plan is to be rebased onto a fresh snapshot and applied once more.
pub fn needs_rebase(result: &Result<(), BackendError>) -> (r: bool)
    ensures
        r == (*result matches Err(BackendError::StaleSerial)),
{
    match result {
        Err(BackendError::StaleSerial) => true,
        _ => false,
    }
}

// ------------------------------------------------------- switching outputs

/// Whether a fullscreen program holds a request back.
pub open spec fn held_back(want: bool, opts: SetOpts, fullscreen: bool) -> bool {
    !want && !opts.force && fullscreen
}

/// Whether an outcome is a refusal with the given reason.
pub open spec fn refuses(outcome: SetOutcome, reason: Refusal) -> bool {
    match outcome {
        SetOutcome::GuardRefused { reason: text } => text@ == refusal_message(reason),
        _ => false,
    }
}

/// What is remembered when an output is switched: its config and where the other
/// outputs are, if it is switched off.
pub open spec fn remembered_for(
    before: RememberedLayouts,
    after: RememberedLayouts,
    outputs: Seq<Output>,
    o: Output,
    want: bool,
) -> bool {
    if want {
        after == before
    } else {
        remembers(
            before,
            after,
            planned_as_is(o),
            neighbors_in(outputs, o.identity.connector@),
        )
    }
}

/// What a request to switch an output leads to, from the engine `before` to
/// the engine `after`.
pub open spec fn switch_result(
    step: Step,
    before: Engine,
    after: Engine,
    topology: Topology,
    o: Output,
    enabled: Option<bool>,
    opts: SetOpts,
    fullscreen: bool,
    sink: Option<String>,
) -> bool {
    let want = wanted(o, enabled);
    let outputs = topology.outputs@;
    let layout = switch_layout(outputs, o, want, before.remembered);
    let risk = risk_of(outputs, layout);
    if want == o.enabled {
        &&& step matches Step::Done(SetOutcome::AlreadyInState)
        &&& after == before
    } else if held_back(want, opts, fullscreen) {
        &&& step matches Step::Done(outcome) && refuses(outcome, Refusal::Fullscreen)
        &&& after == before
    } else {
        &&& after == Engine { remembered: after.remembered, effects: after.effects, ..before }
        &&& remembered_for(before.remembered, after.remembered, outputs, o, want)
        &&& effects_of(after.effects@) == if want {
            effects_of(before.effects@)
        } else {
            effects_of(before.effects@).push(EffectView::SaveRemembered)
        }
        &&& match timer_rule(risk, opts, before.config.revert_secs) {
            Err(reason) => step matches Step::Done(outcome) && refuses(outcome, reason),
            Ok(timer) => {
                &&& step matches Step::Apply(change)
                &&& change.plan.serial == topology.serial
                &&& change.plan.outputs@ == layout
                &&& same_topology(change.prior, topology)
                &&& same_output(change.output, o)
                &&& change.want == want
                &&& change.timer == timer
                &&& change.risk == risk
                &&& change.sink == if want {
                    None
                } else {
                    sink
                }
            },
        }
    }
}

/// What follows when a change was applied: one that may revert is pending with
/// the sink from before it, one that stays has its audio follow-through.
pub open spec fn applied_result(
    r: (SetOutcome, Option<AudioJob>),
    before: Engine,
    after: Engine,
    change: Change,
    now: u128,
    unix_now: u64,
    prior_json: String,
) -> bool {
    match change.timer {
        None => {
            &&& r.0 matches SetOutcome::Applied { warnings } && warnings@.len() == 0
            &&& r.1 == Some(
                if change.want {
                    AudioJob::AfterEnable { output: change.output }
                } else {
                    AudioJob::AfterDisable { output: change.output, sink: change.sink }
                },
            )
            &&& after == before
        },
        Some(secs) => {
            &&& r.0 matches SetOutcome::Pending { job_id, deadline_secs, risk, warnings }
                && job_id == before.next_job && deadline_secs == secs && risk
                == change.risk && warnings@.len() == 0
            &&& r.1 is None
            &&& after.pending == Some(
                Pending {
                    id: before.next_job,
                    prior: change.prior,
                    deadline: (now + secs * 1_000_000_000) as u128,
                    risk: change.risk,
                    disabled: if change.want {
                        None
                    } else {
                        Some(change.output)
                    },
                    enabled: if change.want {
                        Some(change.output)
                    } else {
                        None
                    },
                    sink: change.sink,
                },
            )
            &&& after == (Engine {
                pending: after.pending,
                daemon: DaemonState {
                    pending: after.daemon.pending,
                    ..before.daemon
                },
                next_job: following_job(before.next_job),
                effects: after.effects,
                ..before
            })
            &&& persists(
                after.daemon.pending,
                before.next_job,
                unix_now + secs,
                prior_json,
            )
            &&& effects_of(after.effects@) == effects_of(before.effects@)
                + pending_effects(before, secs)
        },
    }
}

/// Audio follow-through of a resolved job: a kept change concerns the output that
/// it switched, with the sink from before; a reverted disable brings its output
/// back.
pub open spec fn audio_follow_up(jobs: Seq<AudioJob>, p: Pending, keep: bool) -> bool {
    let off = p.disabled;
    let on = p.enabled;
    &&& jobs.len() == (if off is Some {
        1int
    } else {
        0
    }) + (if keep && on is Some {
        1int
    } else {
        0
    })
    &&& off is Some ==> if keep {
        jobs[0] matches AudioJob::AfterDisable { output, sink } && same_output(
            output,
            off->0,
        ) && sink == p.sink
    } else {
        jobs[0] matches AudioJob::AfterEnable { output } && same_output(output, off->0)
    }
    &&& keep && on is Some ==> {
        jobs.last() matches AudioJob::AfterEnable { output } && same_output(output, on->0)
    }
}

/// What is recorded when an output went whose default sink was `current`.
pub open spec fn sink_recorded(
    before: Engine,
    after: Engine,
    o: Output,
    current: Option<String>,
) -> bool {
    match current {
        None => after == before,
        Some(sink) => {
            let list = after.daemon.audio_restore@;
            &&& after == (Engine {
                daemon: DaemonState {
                    audio_restore: after.daemon.audio_restore,
                    ..before.daemon
                },
                effects: after.effects,
                ..before
            })
            &&& list == before.daemon.audio_restore@.filter(
                other_sink(o.identity.connector@),
            ).push(
                AudioRestore {
                    connector: o.identity.connector,
                    edid: o.identity.edid,
                    sink,
                    fallback: None,
                },
            )
            &&& effects_of(after.effects@) == effects_of(before.effects@) + seq![
                EffectView::SaveState,
                EffectView::CaptureFallback { connector: o.identity.connector@ },
            ]
        },
    }
}

proof fn same_output_switches_alike(
    s: Seq<PlannedOutput>,
    a: Output,
    b: Output,
    want: bool,
    m: RememberedLayouts,
)
    requires
        same_output(a, b),
    ensures
        switch_plan(s, a, want, m) == switch_plan(s, b, want, m),
        place_fits(s, a, m) == place_fits(s, b, m),
        planned_as_is(a) == planned_as_is(b),
{
}

// ---------------------------------------------------------------- pending

/// The job that an engine starts next.
pub open spec fn following_job(id: u64) -> u64 {
    if id == u64::MAX {
        0
    } else {
        (id + 1) as u64
    }
}

/// Effects of starting a pending job.
pub open spec fn pending_effects(before: Engine, secs: u64) -> Seq<EffectView> {
    let id = before.next_job;
    seq![EffectView::StartTimer { job_id: id, secs }] + (match before.pending {
        Some(p) => seq![EffectView::AbortTimer { job_id: p.id }],
        None => Seq::empty(),
    }) + seq![
        EffectView::SaveState,
        EffectView::Emit(EventView::PendingChange { job_id: id, seconds_remaining: secs }),
    ]
}

/// Whether the deadlines of a job that starts now fit.
pub open spec fn deadline_fits(secs: u64, now: u128, unix_now: u64) -> bool {
    now + secs * 1_000_000_000 <= u128::MAX && unix_now + secs <= u64::MAX
}

/// Whether a job of so many seconds has a deadline on both clocks.
pub fn deadline_within(secs: u64, now: u128, unix_now: u64) -> (r: bool)
    ensures
        r == deadline_fits(secs, now, unix_now),
{
    let nanos: u128 = (secs as u128) * 1_000_000_000;
    now <= u128::MAX - nanos && unix_now <= u64::MAX - secs
}

/// The persisted form of a job that starts now.
pub open spec fn persists(
    p: Option<PersistedPending>,
    id: u64,
    deadline_epoch: int,
    json: String,
) -> bool {
    &&& p is Some
    &&& p->0.job_id == id
    &&& p->0.deadline_epoch == deadline_epoch
    &&& p->0.prior_json == json
}

/// Whole seconds until a deadline; zero once it has passed.
pub open spec fn seconds_left(deadline: u128, now: u128) -> u64 {
    if deadline <= now {
        0
    } else if (deadline - now) / 1_000_000_000 <= u64::MAX {
        ((deadline - now) / 1_000_000_000) as u64
    } else {
        u64::MAX
    }
}

/// The decision about a pending job.
#[derive(Debug)]
pub struct Resolution {
    pub pending: Pending,
    pub keep: bool,
}

/// Whether a job is resolved by a request about the job `expect`, or about any.
pub open spec fn resolves(pending: Option<Pending>, expect: Option<u64>) -> bool {
    pending is Some && (expect is None || expect == Some(pending->0.id))
}

/// What resolving a pending job leads to.
pub open spec fn resolution_result(
    r: Option<Resolution>,
    before: Engine,
    after: Engine,
    expect: Option<u64>,
    keep: bool,
) -> bool {
    if resolves(before.pending, expect) {
        &&& r is Some
        &&& r->0.pending == before.pending->0
        &&& r->0.keep == keep
        &&& after == Engine {
            pending: None,
            daemon: DaemonState { pending: None, ..before.daemon },
            effects: after.effects,
            ..before
        }
        &&& effects_of(after.effects@) == effects_of(before.effects@) + seq![
            EffectView::AbortTimer { job_id: before.pending->0.id },
            EffectView::SaveState,
        ]
    } else {
        r is None && after == before
    }
}

// ------------------------------------------------------------------ audio

/// The condition that a stored sink belongs to another connector.
pub open spec fn other_sink(connector: Seq<char>) -> spec_fn(AudioRestore) -> bool {
    |a: AudioRestore| a.connector@ != connector
}

/// The condition that a stored sink belongs to a connector.
pub open spec fn sink_at(connector: Seq<char>) -> spec_fn(AudioRestore) -> bool {
    |a: AudioRestore| a.connector@ == connector
}

/// The condition that a stored sink matches a display at one quality, and at the
/// same connector if `there` says so.
pub open spec fn sink_with(id: OutputIdentity, q: MatchQuality, there: bool) -> spec_fn(
    AudioRestore,
) -> bool {
    |a: AudioRestore|
        quality(id, restore_identity(a)) == q && (there ==> a.connector@ == id.connector@)
}

/// Where the sink of a display is stored: at the EDID match with its connector,
/// otherwise at the first EDID match, otherwise at the first connector match.
pub open spec fn sink_of(id: OutputIdentity, list: Seq<AudioRestore>) -> Option<int> {
    match first_where(list, sink_with(id, MatchQuality::Edid, true)) {
        Some(i) => Some(i),
        None => match first_where(list, sink_with(id, MatchQuality::Edid, false)) {
            Some(i) => Some(i),
            None => first_where(list, sink_with(id, MatchQuality::Connector, false)),
        },
    }
}

/// Whether the user chose another sink while an output was gone: neither what
/// the audio server fell back to nor the sink to restore.
pub open spec fn user_changed(a: AudioRestore, current: Option<String>) -> bool {
    match (a.fallback, current) {
        (Some(fallback), Some(now)) => now@ != fallback@ && now@ != a.sink@,
        _ => false,
    }
}

// --------------------------------------------------------------- profiles

/// The active profile, if it is still stored.
pub open spec fn active_profile(e: Engine) -> Option<Profile> {
    match e.daemon.active_profile {
        Some(name) => find_where(e.profiles.profiles@, named(name@)),
        None => None,
    }
}

/// Whether live outputs differ from what a profile demands.
pub open spec fn drifts(entries: Seq<ProfileOutput>, outputs: Seq<Output>) -> bool {
    match first_where(entries, entry_settles(outputs)) {
        Some(i) => entry_hits(entries[i], outputs).len() == 1,
        None => false,
    }
}

/// What clients learn of one profile.
pub open spec fn informs(
    info: ProfileInfo,
    p: Profile,
    active: Option<String>,
    outputs: Seq<Output>,
) -> bool {
    let is_active = active is Some && active->0@ == p.name@;
    &&& info.name == p.name
    &&& info.hotkey == p.hotkey
    &&& info.active == is_active
    &&& info.drifted == (is_active && drifts(p.outputs@, outputs))
}

/// Whether a plan turns off an output that is on.
pub open spec fn turned_off(plan: Seq<PlannedOutput>, outputs: Seq<Output>, i: int) -> bool {
    &&& !plan[i].enabled
    &&& match find_where(outputs, output_at(plan[i].identity.connector@)) {
        Some(o) => o.enabled,
        None => false,
    }
}

/// The configs remembered when the first `n` outputs of a plan are applied.
pub open spec fn remembered_through(
    plan: Seq<PlannedOutput>,
    outputs: Seq<Output>,
    s: Seq<PlannedOutput>,
    n: int,
) -> Seq<PlannedOutput>
    decreases n,
{
    if n <= 0 {
        s
    } else {
        let before = remembered_through(plan, outputs, s, n - 1);
        if turned_off(plan, outputs, n - 1) {
            with_remembered(
                before,
                planned_as_is(
                    find_where(outputs, output_at(plan[n - 1].identity.connector@))->0,
                ),
            )
        } else {
            before
        }
    }
}

/// The neighbors stored at an index when the first `n` outputs of a plan are
/// applied.
pub open spec fn around_through(
    plan: Seq<PlannedOutput>,
    outputs: Seq<Output>,
    m: RememberedLayouts,
    n: int,
    k: int,
) -> Seq<Neighbor>
    decreases n,
{
    if n <= 0 {
        around_at(m.neighbors@, k)
    } else {
        let o = find_where(outputs, output_at(plan[n - 1].identity.connector@))->0;
        if turned_off(plan, outputs, n - 1) && k == slot_for(
            remembered_through(plan, outputs, m.outputs@, n - 1),
            o.identity,
        ) {
            neighbors_in(outputs, o.identity.connector@)
        } else {
            around_through(plan, outputs, m, n - 1, k)
        }
    }
}

/// Whether a plan turns off any output that is on.
pub open spec fn turns_any_off(plan: Seq<PlannedOutput>, outputs: Seq<Output>, n: int) -> bool {
    exists|i: int| 0 <= i < n && #[trigger] turned_off(plan, outputs, i)
}

/// A profile that is about to be applied.
#[derive(Debug)]
pub struct ProfileChange {
    pub name: String,
    pub plan: LayoutPlan,
    /// The snapshot that the plan was derived from.
    pub prior: Topology,
    pub warnings: Vec<ProfileWarning>,
    /// The displays are not yet in the wanted state, so the plan is to be
    /// applied; otherwise nothing is to be done.
    pub needed: bool,
    /// Seconds after which the change reverts; none for a change that stays.
    pub timer: Option<u64>,
    pub risk: RiskClass,
    /// Sink that the profile prefers.
    pub sink: Option<String>,
}

/// The sink that a profile prefers.
pub open spec fn preferred_sink(p: Profile) -> Option<String> {
    match p.audio {
        Some(a) => a.preferred_sink,
        None => None,
    }
}

/// Effects of a profile's audio preference.
pub open spec fn sink_effects(sink: Option<String>) -> Seq<EffectView> {
    match sink {
        Some(s) => seq![EffectView::PreferSink { sink: s@ }],
        None => Seq::empty(),
    }
}

/// What a request to apply a stored profile leads to.
pub open spec fn profile_result(
    r: Result<ProfileChange, EngineError>,
    before: Engine,
    after: Engine,
    serial: String,
    outputs: Seq<Output>,
    name: Seq<char>,
) -> bool {
    match find_where(before.profiles.profiles@, named(name)) {
        None => {
            &&& r matches Err(EngineError::NoSuchProfile(n)) && n@ == name
            &&& after == before
        },
        Some(p) => match first_where(p.outputs@, entry_ambiguous(outputs)) {
            Some(i) => {
                &&& r matches Err(EngineError::Resolve(e)) && entry_error(e, p.outputs@[i], outputs)
                &&& after == before
            },
            None => {
                let layout = normalized(profile_outputs(p.outputs@, outputs));
                let risk = risk_of(outputs, layout);
                let n = layout.len() as int;
                &&& r matches Ok(change)
                &&& change.name@ == name
                &&& change.plan.serial == serial
                &&& change.plan.outputs@ == layout
                &&& change.prior.serial == serial
                &&& change.prior.outputs@ == outputs
                &&& warnings_of(change.warnings@) == profile_warnings(p.outputs@, outputs)
                &&& change.needed == (first_where(p.outputs@, entry_settles(outputs)) is Some)
                &&& change.risk == risk
                &&& change.timer == if risk == RiskClass::Routine {
                    None
                } else {
                    Some(before.config.revert_secs)
                }
                &&& change.sink == preferred_sink(p)
                &&& after == Engine {
                    remembered: after.remembered,
                    effects: after.effects,
                    ..before
                }
                &&& after.remembered.outputs@ == remembered_through(
                    layout,
                    outputs,
                    before.remembered.outputs@,
                    n,
                )
                &&& forall|k: int|
                    #[trigger] around_at(after.remembered.neighbors@, k) == around_through(
                        layout,
                        outputs,
                        before.remembered,
                        n,
                        k,
                    )
                &&& effects_of(after.effects@) == if turns_any_off(layout, outputs, n) {
                    effects_of(before.effects@).push(EffectView::SaveRemembered)
                } else {
                    effects_of(before.effects@)
                }
            },
        },
    }
}

/// Effects of moving a stored profile to the connectors where its displays are.
pub open spec fn migration_effects(
    profiles: Seq<Profile>,
    name: Seq<char>,
    outputs: Seq<Output>,
) -> Seq<EffectView> {
    match find_where(profiles, named(name)) {
        Some(p) => if any_moved(p.outputs@, outputs) {
            seq![EffectView::SaveProfiles]
        } else {
            Seq::empty()
        },
        None => Seq::empty(),
    }
}

/// Whether stored profiles differ only in that the first with the given name
/// took over the connectors where its displays are now.
pub open spec fn migrated_store(
    before: Seq<Profile>,
    after: Seq<Profile>,
    name: Seq<char>,
    outputs: Seq<Output>,
) -> bool {
    &&& after.len() == before.len()
    &&& forall|j: int|
        0 <= j < after.len() && first_where(before, named(name)) != Some(j)
            ==> #[trigger] after[j] == before[j]
    &&& match first_where(before, named(name)) {
        Some(i) => {
            &&& after[i].name == before[i].name
            &&& after[i].hotkey == before[i].hotkey
            &&& after[i].audio == before[i].audio
            &&& after[i].outputs@ == migrated(before[i].outputs@, outputs)
        },
        None => true,
    }
}

// ------------------------------------------------------------- re-asserting

/// The re-asserts that the loop guard still counts: those before the first one
/// within the window are dropped.
pub open spec fn recent(s: Seq<u128>, now: u128) -> Seq<u128>
    decreases s.len(),
{
    if s.len() > 0 && now - s[0] > LOOP_GUARD_WINDOW {
        recent(s.drop_first(), now)
    } else {
        s
    }
}

/// A layout to apply because the displays left the active profile.
#[derive(Debug)]
pub struct Reassert {
    pub plan: LayoutPlan,
    pub name: String,
    /// The snapshot that the plan was derived from.
    pub prior: Topology,
    pub risk: RiskClass,
    /// Seconds after which the change reverts; none for a change that stays.
    pub timer: Option<u64>,
}

/// Whether re-asserting gets as far as making a plan for the active profile.
pub open spec fn reassert_plans(e: Engine, outputs: Seq<Output>, hotplug: bool, now: u128) -> bool {
    &&& !e.daemon.suspended
    &&& active_profile(e) is Some
    &&& drifts(active_profile(e)->0.outputs@, outputs)
    &&& hotplug
    &&& recent(e.reasserts@, now).len() < LOOP_GUARD_MAX
}

/// Whether a layout that is to be re-asserted lies close enough together to be
/// moved to the origin.
pub open spec fn reassert_fits(e: Engine, outputs: Seq<Output>, hotplug: bool, now: u128) -> bool {
    reassert_plans(e, outputs, hotplug, now) ==> {
        let p = active_profile(e)->0;
        first_where(p.outputs@, entry_ambiguous(outputs)) is None ==> spread_fits(
            profile_outputs(p.outputs@, outputs),
        )
    }
}

/// What checking the active profile against a snapshot leads to.
pub open spec fn reassert_result(
    r: Option<Reassert>,
    before: Engine,
    after: Engine,
    serial: String,
    outputs: Seq<Output>,
    hotplug: bool,
    now: u128,
) -> bool {
    let left = recent(before.reasserts@, now);
    if before.daemon.suspended || active_profile(before) is None {
        r is None && after == before
    } else {
        let name = before.daemon.active_profile->0@;
        let entries = active_profile(before)->0.outputs@;
        match first_where(entries, entry_settles(outputs)) {
            None => r is None && after == (Engine { drifted: false, ..before }),
            Some(i) => if entry_hits(entries[i], outputs).len() > 1 {
                r is None && after == before
            } else if !hotplug {
                &&& r is None
                &&& after == Engine { drifted: true, effects: after.effects, ..before }
                &&& effects_of(after.effects@) == if before.drifted {
                    effects_of(before.effects@)
                } else {
                    effects_of(before.effects@).push(
                        EffectView::Emit(EventView::ProfileDrifted { name }),
                    )
                }
            } else if left.len() >= LOOP_GUARD_MAX {
                &&& r is None
                &&& after == Engine {
                    daemon: DaemonState { suspended: true, ..before.daemon },
                    reasserts: after.reasserts,
                    effects: after.effects,
                    ..before
                }
                &&& after.reasserts@ == left
                &&& effects_of(after.effects@) == effects_of(before.effects@) + seq![
                    EffectView::SaveState,
                    EffectView::Emit(EventView::ProfileSuspended { name }),
                ]
            } else {
                &&& after == Engine { reasserts: after.reasserts, ..before }
                &&& after.reasserts@ == left.push(now)
                &&& match first_where(entries, entry_ambiguous(outputs)) {
                    Some(_) => r is None,
                    None => {
                        &&& r is Some
                        &&& r->0.plan.serial == serial
                        &&& r->0.plan.outputs@ == normalized(profile_outputs(entries, outputs))
                        &&& r->0.name@ == name
                        &&& r->0.prior.serial == serial
                        &&& r->0.prior.outputs@ == outputs
                        &&& r->0.risk == risk_of(outputs, r->0.plan.outputs@)
                        &&& r->0.timer == if r->0.risk == RiskClass::Routine {
                            None
                        } else {
                            Some(before.config.revert_secs)
                        }
                    },
                }
            },
        }
    }
}

/// What follows when a re-assert was applied: one that may revert is pending, and
/// the profile follows its displays to their connectors.
pub open spec fn reassert_reported(
    before: Engine,
    after: Engine,
    change: Reassert,
    now: u128,
    unix_now: u64,
    prior_json: String,
) -> bool {
    let id = before.next_job;
    let outputs = change.prior.outputs@;
    &&& after == Engine {
        profiles: after.profiles,
        pending: after.pending,
        daemon: DaemonState { pending: after.daemon.pending, ..before.daemon },
        next_job: if change.timer is Some {
            following_job(id)
        } else {
            id
        },
        effects: after.effects,
        ..before
    }
    &&& after.profiles.schema_version == before.profiles.schema_version
    &&& migrated_store(before.profiles.profiles@, after.profiles.profiles@, change.name@, outputs)
    &&& match change.timer {
        Some(secs) => {
            &&& after.pending == Some(
                Pending {
                    id,
                    prior: change.prior,
                    deadline: (now + secs * 1_000_000_000) as u128,
                    risk: change.risk,
                    disabled: None,
                    enabled: None,
                    sink: None,
                },
            )
            &&& persists(after.daemon.pending, id, unix_now + secs, prior_json)
        },
        None => after.pending == before.pending && after.daemon.pending == before.daemon.pending,
    }
    &&& effects_of(after.effects@) == effects_of(before.effects@) + migration_effects(
        before.profiles.profiles@,
        change.name@,
        outputs,
    ) + (match change.timer {
        Some(secs) => pending_effects(before, secs),
        None => Seq::empty(),
    }) + seq![EffectView::Emit(EventView::ProfileApplied { name: change.name@ })]
}

/// What is to be done at startup about a job from before a restart.
#[derive(Debug)]
pub enum Recovery {
    /// There is none, or it is not due and cannot be read.
    Leave,
    /// It is overdue: go back to this layout, then forget the job.
    Revert(Topology),
    /// It is overdue and cannot be read: forget it.
    Forget,
    /// It is not due: pending again for so many seconds.
    Rearm { prior: Topology, secs: u64 },
}

/// What is to be done at startup about the job that was persisted, if any.
pub open spec fn recovery_result(
    r: Recovery,
    pending: Option<PersistedPending>,
    prior: Option<Topology>,
    unix_now: u64,
) -> bool {
    match (pending, prior) {
        (None, _) => r is Leave,
        (Some(p), Some(t)) => if p.deadline_epoch <= unix_now {
            r == Recovery::Revert(t)
        } else {
            r == (Recovery::Rearm {
                prior: t,
                secs: (p.deadline_epoch - unix_now) as u64,
            })
        },
        (Some(p), None) => if p.deadline_epoch <= unix_now {
            r is Forget
        } else {
            r is Leave
        },
    }
}

/// What becomes of the stored sink of an output that came back.
pub open spec fn sink_returned(
    r: Option<String>,
    before: Engine,
    after: Engine,
    o: Output,
    current: Option<String>,
) -> bool {
    match sink_of(o.identity, before.daemon.audio_restore@) {
        None => r is None && after == before,
        Some(i) => {
            let entry = before.daemon.audio_restore@[i];
            &&& r == if user_changed(entry, current) {
                None
            } else {
                Some(entry.sink)
            }
            &&& after == (Engine {
                daemon: DaemonState {
                    audio_restore: after.daemon.audio_restore,
                    ..before.daemon
                },
                effects: after.effects,
                ..before
            })
            &&& after.daemon.audio_restore@ == before.daemon.audio_restore@.remove(i)
            &&& effects_of(after.effects@) == effects_of(before.effects@).push(
                EffectView::SaveState,
            )
        },
    }
}

/// What becomes of a stored sink once the audio server has failed over.
pub open spec fn fallback_noted(
    before: Engine,
    after: Engine,
    connector: Seq<char>,
    sink: Option<String>,
) -> bool {
    match first_where(before.daemon.audio_restore@, sink_at(connector)) {
        None => after == before,
        Some(i) => {
            let list = before.daemon.audio_restore@;
            &&& after == (Engine {
                daemon: DaemonState {
                    audio_restore: after.daemon.audio_restore,
                    ..before.daemon
                },
                effects: after.effects,
                ..before
            })
            &&& after.daemon.audio_restore@ == list.update(
                i,
                AudioRestore { fallback: sink, ..list[i] },
            )
            &&& effects_of(after.effects@) == effects_of(before.effects@).push(
                EffectView::SaveState,
            )
        },
    }
}

/// What follows when a profile was applied: it is the active one, and one that may revert
/// is pending.
pub open spec fn profile_reported(
    r: SetOutcome,
    before: Engine,
    after: Engine,
    change: ProfileChange,
    now: u128,
    unix_now: u64,
    prior_json: String,
) -> bool {
    let waits = change.needed && change.timer is Some;
    let id = before.next_job;
    &&& after == (Engine {
        profiles: after.profiles,
        pending: after.pending,
        daemon: DaemonState {
            active_profile: after.daemon.active_profile,
            suspended: false,
            pending: after.daemon.pending,
            ..before.daemon
        },
        drifted: false,
        reasserts: after.reasserts,
        next_job: if waits {
            following_job(id)
        } else {
            id
        },
        effects: after.effects,
        ..before
    })
    &&& after.profiles.schema_version == before.profiles.schema_version
    &&& migrated_store(
        before.profiles.profiles@,
        after.profiles.profiles@,
        change.name@,
        change.prior.outputs@,
    )
    &&& after.daemon.active_profile is Some
    &&& after.daemon.active_profile->0@ == change.name@
    &&& after.reasserts@.len() == 0
    &&& effects_of(after.effects@) == effects_of(before.effects@)
        + migration_effects(
        before.profiles.profiles@,
        change.name@,
        change.prior.outputs@,
    ) + (if waits {
        pending_effects(before, change.timer->0)
    } else {
        Seq::empty()
    }) + seq![EffectView::SaveState] + sink_effects(change.sink) + seq![
        EffectView::Emit(EventView::ProfileApplied { name: change.name@ }),
    ]
    &&& if waits {
        let secs = change.timer->0;
        &&& r matches SetOutcome::Pending { job_id, deadline_secs, risk, warnings }
            && job_id == id && deadline_secs == secs && risk == change.risk && warnings@
            == change.warnings@
        &&& after.pending == Some(
            Pending {
                id,
                prior: change.prior,
                deadline: (now + secs * 1_000_000_000) as u128,
                risk: change.risk,
                disabled: None,
                enabled: None,
                sink: None,
            },
        )
        &&& persists(after.daemon.pending, id, unix_now + secs, prior_json)
    } else {
        &&& after.pending == before.pending
        &&& after.daemon.pending == before.daemon.pending
        &&& if change.needed {
            r matches SetOutcome::Applied { warnings } && warnings@ == change.warnings@
        } else {
            r is AlreadyInState
        }
    }
}

/// What follows when the displays changed: nothing while a job is pending; otherwise the
/// clients are told, and whether displays came or went.
pub open spec fn event_result(
    r: Option<bool>,
    before: Engine,
    after: Engine,
    outputs: Seq<Output>,
) -> bool {
    match before.pending {
        Some(_) => r is None && after == before,
        None => {
            &&& after == (Engine {
                last_connectors: after.last_connectors,
                effects: after.effects,
                ..before
            })
            &&& texts(after.last_connectors@) == connectors(outputs)
            &&& r == Some(
                connectors(outputs).to_set() != texts(
                    before.last_connectors@,
                ).to_set(),
            )
            &&& effects_of(after.effects@) == effects_of(before.effects@).push(
                EffectView::Emit(EventView::OutputsChanged),
            )
        },
    }
}

/// What naming a display leads to.
pub open spec fn alias_result(
    r: Result<(), EngineError>,
    before: Engine,
    after: Engine,
    outputs: Seq<Output>,
    alias: Seq<char>,
    target: Seq<char>,
) -> bool {
    let hits = target_hits(target, outputs);
    match r {
        Err(e) => {
            &&& hits.len() != 1
            &&& e matches EngineError::Resolve(err)
            &&& target_result(Err(err), hits, target)
            &&& after == before
        },
        Ok(_) => {
            let list = after.config.aliases@;
            &&& hits.len() == 1
            &&& after == (Engine { config: after.config, ..before })
            &&& after.config.revert_secs == before.config.revert_secs
            &&& list.len() > 0
            &&& list.drop_last() == before.config.aliases@.filter(
                other_alias(alias, hits[0].identity),
            )
            &&& list.last().name@ == alias
            &&& alias_identity(list.last()) == hits[0].identity
        },
    }
}

/// What a request to switch the output that a target names leads to; nothing is decided
/// where the layout would not fit.
pub open spec fn request_result(
    r: Result<Option<Step>, EngineError>,
    before: Engine,
    after: Engine,
    serial: String,
    outputs: Seq<Output>,
    target: Seq<char>,
    enabled: Option<bool>,
    opts: SetOpts,
    fullscreen: bool,
    sink: Option<String>,
) -> bool {
    let hits = target_hits(target, outputs);
    let want = wanted(hits[0], enabled);
    let changes = want != hits[0].enabled && !held_back(want, opts, fullscreen);
    let fits = switch_fits(outputs, hits[0], want, before.remembered);
    match r {
        Err(e) => {
            &&& hits.len() != 1
            &&& e matches EngineError::Resolve(err)
            &&& target_result(Err(err), hits, target)
            &&& after == before
        },
        Ok(None) => {
            hits.len() == 1 && changes && !fits && after == before
        },
        Ok(Some(step)) => {
            &&& hits.len() == 1
            &&& changes ==> fits
            &&& exists|topology: Topology|
                {
                    &&& topology.serial == serial
                    &&& topology.outputs@ == outputs
                    &&& #[trigger] switch_result(
                        step,
                        before,
                        after,
                        topology,
                        hits[0],
                        enabled,
                        opts,
                        fullscreen,
                        sink,
                    )
                }
        },
    }
}

/// What follows when a profile was deleted: it is active no more.
pub open spec fn profile_dropped(
    before: Engine,
    after: Engine,
    name: Seq<char>,
) -> bool {
    if before.daemon.active_profile is Some && before.daemon.active_profile->0@
        == name {
        &&& after == (Engine {
            daemon: DaemonState { active_profile: None, ..before.daemon },
            effects: after.effects,
            ..before
        })
        &&& effects_of(after.effects@) == effects_of(before.effects@).push(
            EffectView::SaveState,
        )
    } else {
        after == before
    }
}

/// What saving the displays under a name does to the stored profiles.
pub open spec fn profile_stored(
    before: Engine,
    after: Engine,
    outputs: Seq<Output>,
    name: Seq<char>,
) -> bool {
    &&& after == Engine { profiles: after.profiles, ..before }
    &&& after.profiles.schema_version == before.profiles.schema_version
    &&& exists|p: Profile|
        {
            let existing = find_where(before.profiles.profiles@, named(name));
            &&& p.name@ == name
            &&& p.outputs@.len() == outputs.len()
            &&& forall|i: int|
                0 <= i < outputs.len() ==> captures(#[trigger] p.outputs@[i], outputs[i])
            &&& p.hotkey == match existing {
                Some(e) => e.hotkey,
                None => None,
            }
            &&& p.audio == match existing {
                Some(e) => e.audio,
                None => None,
            }
            &&& after.profiles.profiles@ == #[trigger] with_profile(before.profiles.profiles@, p)
        }
}

/// What clients learn of the daemon.
pub open spec fn status_told(
    r: StatusInfo,
    e: Engine,
    outputs: Seq<Output>,
    version: Seq<char>,
    backend: Seq<char>,
    now: u128,
) -> bool {
    &&& r.version@ == version
    &&& r.backend@ == backend
    &&& r.active_profile == e.daemon.active_profile
    &&& r.suspended == e.daemon.suspended
    &&& r.drifted == e.drifted
    &&& r.pending == match e.pending {
        Some(p) => Some(
            PendingInfo {
                job_id: p.id,
                deadline_secs: seconds_left(p.deadline, now),
                risk: p.risk,
            },
        ),
        None => None,
    }
    &&& r.outputs_total == outputs.len()
    &&& r.outputs_enabled == outputs.filter(output_enabled()).len()
}

/// The layout that a decision about a pending job leads to: the one that is there, or the
/// one from before the job.
pub open spec fn resolved_layout(r: Resolution, fresh: Seq<Output>) -> Seq<PlannedOutput> {
    if r.keep {
        plans_as_is(fresh)
    } else {
        normalized(restored(fresh, r.pending.prior.outputs@))
    }
}

impl Engine {
    /// An engine with the state that was read at startup.
    pub fn new(
        config: DaemonConfig,
        profiles: ProfileStore,
        remembered: RememberedLayouts,
        daemon: DaemonState,
    ) -> (r: Self)
        ensures
            r.config == config,
            r.profiles == profiles,
            r.remembered == remembered,
            r.daemon == daemon,
            r.pending is None,
            !r.drifted,
            r.reasserts@.len() == 0,
            r.last_connectors@.len() == 0,
            r.next_job == 1,
            r.effects@.len() == 0,
    {
        Engine {
            config,
            profiles,
            remembered,
            daemon,
            pending: None,
            drifted: false,
            reasserts: Vec::new(),
            last_connectors: Vec::new(),
            next_job: 1,
            effects: Vec::new(),
        }
    }

    /// What is to be done, in order; the queue is empty afterwards.
    pub fn take_effects(&mut self) -> (r: Vec<Effect>)
        ensures
            r@ == old(self).effects@,
            final(self).effects@.len() == 0,
            *final(self) == (Engine { effects: final(self).effects, ..*old(self) }),
    {
        let mut out: Vec<Effect> = Vec::new();
        std::mem::swap(&mut out, &mut self.effects);
        out
    }

    fn queue(&mut self, e: Effect)
        ensures
            *final(self) == (Engine { effects: final(self).effects, ..*old(self) }),
            effects_of(final(self).effects@) == effects_of(old(self).effects@).push(e@),
    {
        self.effects.push(e);
        assert(effects_of(self.effects@) =~= effects_of(old(self).effects@).push(e@));
    }

    /// A snapshot with configured aliases attached.
    pub fn snapshot(&self, topology: Topology) -> (r: Topology)
        ensures
            r.serial == topology.serial,
            r.outputs@ == aliased(topology.outputs@, self.config.aliases@),
    {
        let mut topology = topology;
        self.config.attach_aliases(&mut topology);
        topology
    }

    // ------------------------------------------------------- switching

    /// Whether all coordinates of a switched layout fit.
    pub fn switch_within(&self, topology: &Topology, output: &Output, want: bool) -> (r: bool)
        ensures
            r == switch_fits(topology.outputs@, *output, want, self.remembered),
    {
        switch_is_within(topology, output, want, &self.remembered)
    }

    /// Decide about switching one output of a snapshot.
    pub fn switch_output(
        &mut self,
        topology: Topology,
        output: &Output,
        enabled: Option<bool>,
        opts: SetOpts,
        fullscreen: bool,
        sink: Option<String>,
    ) -> (r: Step)
        requires
            wanted(*output, enabled) != output.enabled && !held_back(
                wanted(*output, enabled),
                opts,
                fullscreen,
            ) ==> switch_fits(
                topology.outputs@,
                *output,
                wanted(*output, enabled),
                old(self).remembered,
            ),
        ensures
            switch_result(
                r,
                *old(self),
                *final(self),
                topology,
                *output,
                enabled,
                opts,
                fullscreen,
                sink,
            ),
    {
        let want: bool = match enabled {
            Some(w) => w,
            None => !output.enabled,
        };
        if output.enabled == want {
            return Step::Done(SetOutcome::AlreadyInState);
        }
        if !want && !opts.force && fullscreen {
            return Step::Done(
                SetOutcome::GuardRefused { reason: Refusal::Fullscreen.message() },
            );
        }
        let mut plan = plan_switch(&topology, output, want, &self.remembered);
        normalize(&mut plan);
        if !want {
            let around = neighbors_of(&topology.outputs, output.identity.connector.as_str());
            self.remembered.remember(PlannedOutput::from_output(output), around);
            self.queue(Effect::SaveRemembered);
        }
        let risk = assess(&topology, &plan);
        match timer_for(risk, opts, self.config.revert_secs) {
            Err(reason) => Step::Done(SetOutcome::GuardRefused { reason: reason.message() }),
            Ok(timer) => {
                let prior = topology.clone();
                let before: Option<String> = if want {
                    None
                } else {
                    sink
                };
                Step::Apply(
                    Change { plan, prior, output: output.clone(), want, timer, risk, sink: before },
                )
            },
        }
    }

    /// Decide about a request to switch the output that a target names; `sink` is
    /// the default sink, as it is before anything is applied.
    /// `Ok(None)` says that the coordinates of the switched layout do not fit;
    /// nothing has changed then.
    pub fn set_enabled(
        &mut self,
        snapshot: Topology,
        target: &str,
        enabled: Option<bool>,
        opts: SetOpts,
        fullscreen: bool,
        sink: Option<String>,
    ) -> (r: Result<Option<Step>, EngineError>)
        ensures
            request_result(
                r,
                *old(self),
                *final(self),
                snapshot.serial,
                aliased(snapshot.outputs@, old(self).config.aliases@),
                target@,
                enabled,
                opts,
                fullscreen,
                sink,
            ),
    {
        let topology = self.snapshot(snapshot);
        let output: Output = match resolve_target(target, topology.outputs.as_slice()) {
            Ok(o) => o.clone(),
            Err(e) => {
                return Err(EngineError::Resolve(e));
            },
        };
        let ghost hit = target_hits(target@, topology.outputs@)[0];
        let want: bool = match enabled {
            Some(w) => w,
            None => !output.enabled,
        };
        proof {
            same_output_switches_alike(
                plans_as_is(topology.outputs@),
                output,
                hit,
                want,
                self.remembered,
            );
        }
        if want != output.enabled && !(!want && !opts.force && fullscreen) && !self.switch_within(
            &topology,
            &output,
            want,
        ) {
            return Ok(None);
        }
        let ghost kept = topology;
        let step = self.switch_output(topology, &output, enabled, opts, fullscreen, sink);
        assert(switch_result(
            step,
            *old(self),
            *self,
            kept,
            hit,
            enabled,
            opts,
            fullscreen,
            sink,
        ));
        Ok(Some(step))
    }

    /// Report that a change was applied. Gives the outcome of the request and
    /// the audio follow-through of a change that stays.
    pub fn change_applied(
        &mut self,
        change: Change,
        now: u128,
        unix_now: u64,
        prior_json: String,
    ) -> (r: (SetOutcome, Option<AudioJob>))
        requires
            change.timer matches Some(secs) ==> deadline_fits(secs, now, unix_now),
        ensures
            applied_result(r, *old(self), *final(self), change, now, unix_now, prior_json),
    {
        let Change { plan, prior, output, want, timer, risk, sink } = change;
        match timer {
            Some(secs) => {
                let (disabled, enabled): (Option<Output>, Option<Output>) = if want {
                    (None, Some(output))
                } else {
                    (Some(output), None)
                };
                let job_id: u64 = self.begin_pending(
                    prior,
                    secs,
                    risk,
                    disabled,
                    enabled,
                    sink,
                    now,
                    unix_now,
                    prior_json,
                );
                (
                    SetOutcome::Pending {
                        job_id,
                        deadline_secs: secs,
                        risk,
                        warnings: Vec::new(),
                    },
                    None,
                )
            },
            None => (
                SetOutcome::Applied { warnings: Vec::new() },
                Some(
                    if want {
                        AudioJob::AfterEnable { output }
                    } else {
                        AudioJob::AfterDisable { output, sink }
                    },
                ),
            ),
        }
    }

    // --------------------------------------------------------- pending

    /// Start a pending job: the temporary change reverts at the deadline unless
    /// it is confirmed. A job that is already pending is replaced, and its
    /// timer forgotten.
    pub fn begin_pending(
        &mut self,
        prior: Topology,
        secs: u64,
        risk: RiskClass,
        disabled: Option<Output>,
        enabled: Option<Output>,
        sink: Option<String>,
        now: u128,
        unix_now: u64,
        prior_json: String,
    ) -> (r: u64)
        requires
            deadline_fits(secs, now, unix_now),
        ensures
            r == old(self).next_job,
            final(self).pending == Some(
                (Pending {
                    id: old(self).next_job,
                    prior,
                    deadline: (now + secs * 1_000_000_000) as u128,
                    risk,
                    disabled,
                    enabled,
                    sink,
                }),
            ),
            *final(self) == (Engine {
                pending: final(self).pending,
                daemon: DaemonState { pending: final(self).daemon.pending, ..old(self).daemon },
                next_job: following_job(old(self).next_job),
                effects: final(self).effects,
                ..*old(self)
            }),
            persists(
                final(self).daemon.pending,
                old(self).next_job,
                unix_now + secs,
                prior_json,
            ),
            effects_of(final(self).effects@) == effects_of(old(self).effects@) + pending_effects(
                *old(self),
                secs,
            ),
    {
        let job_id: u64 = self.next_job;
        self.next_job = if job_id == u64::MAX {
            0
        } else {
            job_id + 1
        };
        let deadline: u128 = now + (secs as u128) * 1_000_000_000;
        self.queue(Effect::StartTimer { job_id, secs });
        let replaced: Option<u64> = match &self.pending {
            Some(old_job) => Some(old_job.id),
            None => None,
        };
        if let Some(id) = replaced {
            self.queue(Effect::AbortTimer { job_id: id });
        }
        self.pending = Some(Pending { id: job_id, prior, deadline, risk, disabled, enabled, sink });
        self.daemon.pending = Some(
            PersistedPending { job_id, deadline_epoch: unix_now + secs, prior_json },
        );
        self.queue(Effect::SaveState);
        self.queue(Effect::Emit(DaemonEvent::PendingChange { job_id, seconds_remaining: secs }));
        assert(effects_of(self.effects@) =~= effects_of(old(self).effects@) + pending_effects(
            *old(self),
            secs,
        ));
        job_id
    }

    fn resolve_pending(&mut self, expect: Option<u64>, keep: bool) -> (r: Option<Resolution>)
        ensures
            resolution_result(r, *old(self), *final(self), expect, keep),
    {
        let due: bool = match &self.pending {
            Some(p) => match expect {
                Some(id) => id == p.id,
                None => true,
            },
            None => false,
        };
        if !due {
            return None;
        }
        let mut taken: Option<Pending> = None;
        std::mem::swap(&mut taken, &mut self.pending);
        match taken {
            Some(pending) => {
                self.daemon.pending = None;
                self.queue(Effect::AbortTimer { job_id: pending.id });
                self.queue(Effect::SaveState);
                assert(effects_of(self.effects@) =~= effects_of(old(self).effects@) + seq![
                    EffectView::AbortTimer { job_id: pending.id },
                    EffectView::SaveState,
                ]);
                Some(Resolution { pending, keep })
            },
            None => None,
        }
    }

    /// Keep the pending change, if there is one.
    pub fn confirm_pending(&mut self) -> (r: Option<Resolution>)
        ensures
            resolution_result(r, *old(self), *final(self), None, true),
    {
        self.resolve_pending(None, true)
    }

    /// Undo the pending change, if there is one.
    pub fn revert_pending(&mut self) -> (r: Option<Resolution>)
        ensures
            resolution_result(r, *old(self), *final(self), None, false),
    {
        self.resolve_pending(None, false)
    }

    /// Undo the pending change whose timer ran out, unless it was resolved or
    /// replaced by a newer one.
    pub fn timer_fired(&mut self, job_id: u64) -> (r: Option<Resolution>)
        ensures
            resolution_result(r, *old(self), *final(self), Some(job_id), false),
    {
        self.resolve_pending(Some(job_id), false)
    }

    /// Report that the layout of a resolved job was applied.
    pub fn pending_resolved(&mut self, resolution: Resolution)
        ensures
            *final(self) == (Engine { effects: final(self).effects, ..*old(self) }),
            effects_of(final(self).effects@) == effects_of(old(self).effects@).push(
                EffectView::Emit(
                    EventView::PendingResolved {
                        job_id: resolution.pending.id,
                        kept: resolution.keep,
                    },
                ),
            ),
    {
        self.queue(
            Effect::Emit(
                DaemonEvent::PendingResolved {
                    job_id: resolution.pending.id,
                    kept: resolution.keep,
                },
            ),
        );
    }

    // ----------------------------------------------------------- audio

    /// Record the default sink of the time before an output disappeared, and
    /// have recorded later what the audio server failed over to.
    pub fn audio_after_disable(&mut self, output: &Output, current: Option<String>)
        ensures
            sink_recorded(*old(self), *final(self), *output, current),
    {
        let sink = match current {
            Some(s) => s,
            None => {
                return ;
            },
        };
        let ghost all = self.daemon.audio_restore@;
        let ghost p = other_sink(output.identity.connector@);
        let n = self.daemon.audio_restore.len();
        let mut k: usize = 0;
        let mut i: usize = 0;
        proof {
            assert(all.take(0) =~= Seq::<AudioRestore>::empty());
            reveal(Seq::filter);
            assert(self.daemon.audio_restore@ =~= all.take(0).filter(p) + all.skip(0));
        }
        while k < n
            invariant
                k <= n == all.len(),
                i <= k,
                p == other_sink(output.identity.connector@),
                *self == (Engine {
                    daemon: DaemonState {
                        audio_restore: self.daemon.audio_restore,
                        ..old(self).daemon
                    },
                    ..*old(self)
                }),
                i == all.take(k as int).filter(p).len(),
                self.daemon.audio_restore@ == all.take(k as int).filter(p) + all.skip(k as int),
            decreases n - k,
        {
            let ghost kept = all.take(k as int).filter(p);
            proof {
                filter_push(all.take(k as int), p, all[k as int]);
                assert(all.take(k as int).push(all[k as int]) =~= all.take(k + 1));
                assert(all.skip(k as int)[0] == all[k as int]);
                assert(self.daemon.audio_restore@[i as int] == all[k as int]);
            }
            if same_text(
                self.daemon.audio_restore[i].connector.as_str(),
                output.identity.connector.as_str(),
            ) {
                self.daemon.audio_restore.remove(i);
                assert(self.daemon.audio_restore@ =~= kept + all.skip(k + 1));
            } else {
                assert(self.daemon.audio_restore@ =~= kept.push(all[k as int]) + all.skip(k + 1));
                i = i + 1;
            }
            k = k + 1;
        }
        proof {
            assert(all.take(n as int) =~= all);
            assert(self.daemon.audio_restore@ =~= all.filter(p));
        }
        let identity = output.identity.clone();
        self.daemon.audio_restore.push(
            AudioRestore {
                connector: identity.connector,
                edid: identity.edid,
                sink,
                fallback: None,
            },
        );
        self.queue(Effect::SaveState);
        self.queue(Effect::CaptureFallback { connector: output.identity.connector.clone() });
        assert(effects_of(self.effects@) =~= effects_of(old(self).effects@) + seq![
            EffectView::SaveState,
            EffectView::CaptureFallback { connector: output.identity.connector@ },
        ]);
    }

    /// Report the default sink after the audio server failed over.
    pub fn fallback_captured(&mut self, connector: &str, sink: Option<String>)
        ensures
            fallback_noted(*old(self), *final(self), connector@, sink),
    {
        let n = self.daemon.audio_restore.len();
        let mut i: usize = 0;
        while i < n
            invariant
                i <= n == self.daemon.audio_restore@.len(),
                *self == *old(self),
                forall|j: int|
                    0 <= j < i ==> !sink_at(connector@)(self.daemon.audio_restore@[j]),
            decreases n - i,
        {
            if same_text(self.daemon.audio_restore[i].connector.as_str(), connector) {
                proof {
                    first_where_is(self.daemon.audio_restore@, sink_at(connector@), i as int);
                }
                self.daemon.audio_restore[i].fallback = sink;
                self.queue(Effect::SaveState);
                return ;
            }
            i = i + 1;
        }
        proof {
            first_where_none(self.daemon.audio_restore@, sink_at(connector@));
        }
    }

    fn find_sink(&self, output: &Output, q: MatchQuality, there: bool) -> (r: Option<usize>)
        ensures
            match (
                r,
                first_where(self.daemon.audio_restore@, sink_with(output.identity, q, there)),
            ) {
                (Some(i), Some(want)) => i == want && i < self.daemon.audio_restore@.len(),
                (None, None) => true,
                _ => false,
            },
    {
        for i in 0..self.daemon.audio_restore.len()
            invariant
                forall|j: int|
                    0 <= j < i ==> !sink_with(output.identity, q, there)(
                        self.daemon.audio_restore@[j],
                    ),
        {
            let a = &self.daemon.audio_restore[i];
            if output.identity.match_quality(&a.identity()) == q && (!there || same_text(
                a.connector.as_str(),
                output.identity.connector.as_str(),
            )) {
                proof {
                    first_where_is(
                        self.daemon.audio_restore@,
                        sink_with(output.identity, q, there),
                        i as int,
                    );
                }
                return Some(i);
            }
        }
        proof {
            first_where_none(
                self.daemon.audio_restore@,
                sink_with(output.identity, q, there),
            );
        }
        None
    }

    /// The sink to restore now that an output is back, unless the user switched
    /// sinks manually while it was gone. The record of it is dropped.
    pub fn audio_after_enable(&mut self, output: &Output, current: Option<String>) -> (r: Option<
        String,
    >)
        ensures
            sink_returned(r, *old(self), *final(self), *output, current),
    {
        let found: Option<usize> = match self.find_sink(output, MatchQuality::Edid, true) {
            Some(i) => Some(i),
            None => match self.find_sink(output, MatchQuality::Edid, false) {
                Some(i) => Some(i),
                None => self.find_sink(output, MatchQuality::Connector, false),
            },
        };
        match found {
            Some(i) => {
                let entry = self.daemon.audio_restore.remove(i);
                self.queue(Effect::SaveState);
                let changed: bool = match (&entry.fallback, &current) {
                    (Some(fallback), Some(now)) => !same_text(now.as_str(), fallback.as_str())
                        && !same_text(now.as_str(), entry.sink.as_str()),
                    _ => false,
                };
                if changed {
                    None
                } else {
                    Some(entry.sink)
                }
            },
            None => None,
        }
    }

    // -------------------------------------------------------- profiles

    /// The stored profiles as clients see them.
    pub fn list_profiles(&self, snapshot: Topology) -> (r: ProfilesInfo)
        ensures
            r.active == self.daemon.active_profile,
            r.suspended == self.daemon.suspended,
            r.profiles@.len() == self.profiles.profiles@.len(),
            forall|i: int|
                0 <= i < r.profiles@.len() ==> informs(
                    #[trigger] r.profiles@[i],
                    self.profiles.profiles@[i],
                    self.daemon.active_profile,
                    aliased(snapshot.outputs@, self.config.aliases@),
                ),
    {
        let topology = self.snapshot(snapshot);
        let mut profiles: Vec<ProfileInfo> = Vec::new();
        for i in 0..self.profiles.profiles.len()
            invariant
                profiles.len() == i,
                forall|j: int|
                    0 <= j < i ==> informs(
                        #[trigger] profiles@[j],
                        self.profiles.profiles@[j],
                        self.daemon.active_profile,
                        topology.outputs@,
                    ),
        {
            let p = &self.profiles.profiles[i];
            let active: bool = match &self.daemon.active_profile {
                Some(name) => same_text(name.as_str(), p.name.as_str()),
                None => false,
            };
            let drifted: bool = active && match p.is_satisfied_by(&topology) {
                Ok(satisfied) => !satisfied,
                Err(_) => false,
            };
            proof {
                first_where_facts(p.outputs@, entry_settles(topology.outputs@));
            }
            profiles.push(
                ProfileInfo {
                    name: p.name.clone(),
                    hotkey: copy_text(&p.hotkey),
                    active,
                    drifted,
                },
            );
        }
        ProfilesInfo {
            profiles,
            active: copy_text(&self.daemon.active_profile),
            suspended: self.daemon.suspended,
        }
    }

    fn remember_turned_off(&mut self, plan: &LayoutPlan, topology: &Topology)
        ensures
            *final(self) == (Engine {
                remembered: final(self).remembered,
                effects: final(self).effects,
                ..*old(self)
            }),
            final(self).remembered.outputs@ == remembered_through(
                plan.outputs@,
                topology.outputs@,
                old(self).remembered.outputs@,
                plan.outputs@.len() as int,
            ),
            forall|k: int|
                #[trigger] around_at(final(self).remembered.neighbors@, k) == around_through(
                    plan.outputs@,
                    topology.outputs@,
                    old(self).remembered,
                    plan.outputs@.len() as int,
                    k,
                ),
            effects_of(final(self).effects@) == if turns_any_off(
                plan.outputs@,
                topology.outputs@,
                plan.outputs@.len() as int,
            ) {
                effects_of(old(self).effects@).push(EffectView::SaveRemembered)
            } else {
                effects_of(old(self).effects@)
            },
    {
        let mut any: bool = false;
        let n = plan.outputs.len();
        let mut i: usize = 0;
        while i < n
            invariant
                i <= n == plan.outputs.len(),
                *self == (Engine { remembered: self.remembered, ..*old(self) }),
                self.remembered.outputs@ == remembered_through(
                    plan.outputs@,
                    topology.outputs@,
                    old(self).remembered.outputs@,
                    i as int,
                ),
                forall|k: int|
                    #[trigger] around_at(self.remembered.neighbors@, k) == around_through(
                        plan.outputs@,
                        topology.outputs@,
                        old(self).remembered,
                        i as int,
                        k,
                    ),
                any == turns_any_off(plan.outputs@, topology.outputs@, i as int),
            decreases n - i,
        {
            let p = &plan.outputs[i];
            let ghost was = self.remembered;
            assert(turned_off(plan.outputs@, topology.outputs@, i as int) ==> turns_any_off(
                plan.outputs@,
                topology.outputs@,
                i + 1,
            ));
            if !p.enabled {
                if let Some(live) = topology.find_connector(p.identity.connector.as_str()) {
                    if live.enabled {
                        assert(turned_off(plan.outputs@, topology.outputs@, i as int));
                        let around = neighbors_of(
                            &topology.outputs,
                            live.identity.connector.as_str(),
                        );
                        self.remembered.remember(PlannedOutput::from_output(live), around);
                        any = true;
                    }
                }
            }
            assert forall|k: int|
                #[trigger] around_at(self.remembered.neighbors@, k) == around_through(
                    plan.outputs@,
                    topology.outputs@,
                    old(self).remembered,
                    i + 1,
                    k,
                ) by {
                assert(around_at(was.neighbors@, k) == around_through(
                    plan.outputs@,
                    topology.outputs@,
                    old(self).remembered,
                    i as int,
                    k,
                ));
            }
            proof {
                if turns_any_off(plan.outputs@, topology.outputs@, i + 1) && !turned_off(
                    plan.outputs@,
                    topology.outputs@,
                    i as int,
                ) {
                    let k = choose|k: int|
                        0 <= k < i + 1 && #[trigger] turned_off(
                            plan.outputs@,
                            topology.outputs@,
                            k,
                        );
                    assert(k < i);
                    assert(turns_any_off(plan.outputs@, topology.outputs@, i as int));
                }
                if turns_any_off(plan.outputs@, topology.outputs@, i as int) {
                    let k = choose|k: int|
                        0 <= k < i && #[trigger] turned_off(plan.outputs@, topology.outputs@, k);
                    assert(turned_off(plan.outputs@, topology.outputs@, k));
                }
            }
            i = i + 1;
        }
        if any {
            self.queue(Effect::SaveRemembered);
        }
    }

    /// Decide about applying a stored profile. Outputs that it turns off are
    /// remembered. Profile applies never prompt; the revert timer is the safety
    /// net when a profile blanks every display.
    pub fn apply_profile(&mut self, snapshot: Topology, name: &str) -> (r: Result<
        ProfileChange,
        EngineError,
    >)
        requires
            ({
                let outputs = aliased(snapshot.outputs@, old(self).config.aliases@);
                match find_where(old(self).profiles.profiles@, named(name@)) {
                    Some(p) => first_where(p.outputs@, entry_ambiguous(outputs)) is None
                        ==> spread_fits(profile_outputs(p.outputs@, outputs)),
                    None => true,
                }
            }),
        ensures
            profile_result(
                r,
                *old(self),
                *final(self),
                snapshot.serial,
                aliased(snapshot.outputs@, old(self).config.aliases@),
                name@,
            ),
    {
        let topology = self.snapshot(snapshot);
        let profile: Profile = match self.profiles.find(name) {
            Some(p) => p.clone(),
            None => {
                return Err(EngineError::NoSuchProfile(name.to_owned()));
            },
        };
        let (plan, warnings) = match profile.to_plan(&topology) {
            Ok(found) => found,
            Err(e) => {
                return Err(EngineError::Resolve(e));
            },
        };
        self.remember_turned_off(&plan, &topology);
        proof {
            first_where_facts(profile.outputs@, entry_settles(topology.outputs@));
            first_where_facts(profile.outputs@, entry_ambiguous(topology.outputs@));
        }
        let needed: bool = match profile.is_satisfied_by(&topology) {
            Ok(satisfied) => !satisfied,
            Err(e) => {
                proof {
                    let i = first_where(
                        profile.outputs@,
                        entry_settles(topology.outputs@),
                    )->0;
                    assert(!entry_ambiguous(topology.outputs@)(profile.outputs@[i]));
                }
                return Err(EngineError::Resolve(e));
            },
        };
        let risk = assess(&topology, &plan);
        let timer: Option<u64> = if risk.timer_mandatory() {
            Some(self.config.revert_secs)
        } else {
            None
        };
        let sink: Option<String> = match &profile.audio {
            Some(prefs) => copy_text(&prefs.preferred_sink),
            None => None,
        };
        Ok(
            ProfileChange {
                name: name.to_owned(),
                plan,
                prior: topology,
                warnings,
                needed,
                timer,
                risk,
                sink,
            },
        )
    }

    fn migrate_profile(&mut self, name: &str, topology: &Topology)
        ensures
            *final(self) == (Engine {
                profiles: final(self).profiles,
                effects: final(self).effects,
                ..*old(self)
            }),
            final(self).profiles.schema_version == old(self).profiles.schema_version,
            migrated_store(
                old(self).profiles.profiles@,
                final(self).profiles.profiles@,
                name@,
                topology.outputs@,
            ),
            effects_of(final(self).effects@) == effects_of(old(self).effects@)
                + migration_effects(
                old(self).profiles.profiles@,
                name@,
                topology.outputs@,
            ),
    {
        let mut moved: bool = false;
        if let Some(i) = self.profiles.index_of(name) {
            moved = self.profiles.profiles[i].migrate(topology);
        }
        if moved {
            self.queue(Effect::SaveProfiles);
        }
        assert(effects_of(self.effects@) =~= effects_of(old(self).effects@) + migration_effects(
            old(self).profiles.profiles@,
            name@,
            topology.outputs@,
        ));
    }

    /// Report that a profile was applied, or needed no applying. It is the
    /// active profile from now on, no longer suspended or drifted, and its
    /// stored connectors follow displays that have moved.
    pub fn profile_applied(
        &mut self,
        change: ProfileChange,
        now: u128,
        unix_now: u64,
        prior_json: String,
    ) -> (r: SetOutcome)
        requires
            change.needed && change.timer is Some ==> deadline_fits(
                change.timer->0,
                now,
                unix_now,
            ),
        ensures
            profile_reported(r, *old(self), *final(self), change, now, unix_now, prior_json),
    {
        let ProfileChange { name, plan, prior, warnings, needed, timer, risk, sink } = change;
        let ghost wait_effects: Seq<EffectView> = if change.needed && change.timer is Some {
            pending_effects(*self, change.timer->0)
        } else {
            Seq::empty()
        };
        let ghost moves = migration_effects(
            self.profiles.profiles@,
            change.name@,
            change.prior.outputs@,
        );
        self.migrate_profile(name.as_str(), &prior);
        let outcome: SetOutcome = if !needed {
            SetOutcome::AlreadyInState
        } else {
            match timer {
                Some(secs) => {
                    let job_id: u64 = self.begin_pending(
                        prior,
                        secs,
                        risk,
                        None,
                        None,
                        None,
                        now,
                        unix_now,
                        prior_json,
                    );
                    SetOutcome::Pending { job_id, deadline_secs: secs, risk, warnings }
                },
                None => SetOutcome::Applied { warnings },
            }
        };
        assert(effects_of(self.effects@) =~= effects_of(old(self).effects@) + moves + wait_effects);
        self.daemon.active_profile = Some(name.clone());
        self.daemon.suspended = false;
        self.drifted = false;
        self.reasserts = Vec::new();
        self.queue(Effect::SaveState);
        let ghost sink_effects = sink_effects(sink);
        if let Some(s) = sink {
            self.queue(Effect::PreferSink { sink: s });
        }
        self.queue(Effect::Emit(DaemonEvent::ProfileApplied { name }));
        assert(effects_of(self.effects@) =~= effects_of(old(self).effects@) + moves + wait_effects
            + seq![
            EffectView::SaveState,
        ] + sink_effects + seq![
            EffectView::Emit(EventView::ProfileApplied { name: change.name@ }),
        ]);
        outcome
    }

    /// Capture the current layout as a (new or replaced) profile; an existing
    /// profile with this name keeps its hotkey and audio preference. The
    /// profiles are then to be written; report that with
    /// [`Engine::profile_saved`].
    pub fn save_profile(&mut self, snapshot: Topology, name: &str)
        ensures
            profile_stored(
                *old(self),
                *final(self),
                aliased(snapshot.outputs@, old(self).config.aliases@),
                name@,
            ),
    {
        let topology = self.snapshot(snapshot);
        let mut profile = Profile::capture(name, &topology);
        if let Some(existing) = self.profiles.find(name) {
            profile.hotkey = copy_text(&existing.hotkey);
            profile.audio = copy_audio(&existing.audio);
        }
        let ghost p = profile;
        self.profiles.upsert(profile);
        assert(self.profiles.profiles@ == with_profile(old(self).profiles.profiles@, p));
    }

    /// Report that the profiles were written after one was saved.
    pub fn profile_saved(&mut self, name: &str)
        ensures
            *final(self) == (Engine {
                drifted: old(self).drifted && !(old(self).daemon.active_profile is Some && old(
                    self,
                ).daemon.active_profile->0@ == name@),
                ..*old(self)
            }),
    {
        let active: bool = match &self.daemon.active_profile {
            Some(current) => same_text(current.as_str(), name),
            None => false,
        };
        if active {
            self.drifted = false;
        }
    }

    /// Remove a profile; `false` when there is none with this name. Otherwise
    /// the profiles are to be written; report that with
    /// [`Engine::profile_deleted`].
    pub fn delete_profile(&mut self, name: &str) -> (r: bool)
        ensures
            *final(self) == (Engine { profiles: final(self).profiles, ..*old(self) }),
            final(self).profiles.schema_version == old(self).profiles.schema_version,
            final(self).profiles.profiles@ == old(self).profiles.profiles@.filter(
                not_named(name@),
            ),
            r == (first_where(old(self).profiles.profiles@, named(name@)) is Some),
    {
        self.profiles.remove(name)
    }

    /// Report that the profiles were written after one was removed.
    pub fn profile_deleted(&mut self, name: &str)
        ensures
            profile_dropped(*old(self), *final(self), name@),
    {
        let active: bool = match &self.daemon.active_profile {
            Some(current) => same_text(current.as_str(), name),
            None => false,
        };
        if active {
            self.daemon.active_profile = None;
            self.queue(Effect::SaveState);
        }
    }

    /// Give the output that a target names an alias. The configuration is then
    /// to be written.
    pub fn set_alias(&mut self, snapshot: Topology, alias: &str, target: &str) -> (r: Result<
        (),
        EngineError,
    >)
        ensures
            alias_result(
                r,
                *old(self),
                *final(self),
                aliased(snapshot.outputs@, old(self).config.aliases@),
                alias@,
                target@,
            ),
    {
        let topology = self.snapshot(snapshot);
        let identity: OutputIdentity = match resolve_target(target, topology.outputs.as_slice()) {
            Ok(o) => o.identity.clone(),
            Err(e) => {
                return Err(EngineError::Resolve(e));
            },
        };
        self.config.set_alias(alias, &identity);
        Ok(())
    }

    // ---------------------------------------------------------- status

    /// The state of the daemon as clients see it.
    pub fn status(&self, snapshot: &Topology, version: &str, backend: &str, now: u128) -> (r:
        StatusInfo)
        ensures
            status_told(r, *self, snapshot.outputs@, version@, backend@, now),
    {
        let pending: Option<PendingInfo> = match &self.pending {
            Some(p) => {
                let left: u64 = if p.deadline <= now {
                    0
                } else {
                    let secs: u128 = (p.deadline - now) / 1_000_000_000;
                    if secs <= u64::MAX as u128 {
                        secs as u64
                    } else {
                        u64::MAX
                    }
                };
                Some(PendingInfo { job_id: p.id, deadline_secs: left, risk: p.risk })
            },
            None => None,
        };
        StatusInfo {
            version: version.to_owned(),
            backend: backend.to_owned(),
            active_profile: copy_text(&self.daemon.active_profile),
            suspended: self.daemon.suspended,
            drifted: self.drifted,
            pending,
            outputs_total: snapshot.outputs.len(),
            outputs_enabled: snapshot.enabled_count(),
        }
    }

    // ---------------------------------------------------- persistence

    /// What to do about a pending job that was persisted before a restart.
    /// `prior` is its stored layout, if that could be read.
    pub fn startup(&self, unix_now: u64, prior: Option<Topology>) -> (r: Recovery)
        ensures
            recovery_result(r, self.daemon.pending, prior, unix_now),
    {
        match &self.daemon.pending {
            None => Recovery::Leave,
            Some(p) => match prior {
                Some(t) => if p.deadline_epoch <= unix_now {
                    Recovery::Revert(t)
                } else {
                    Recovery::Rearm { prior: t, secs: p.deadline_epoch - unix_now }
                },
                None => if p.deadline_epoch <= unix_now {
                    Recovery::Forget
                } else {
                    Recovery::Leave
                },
            },
        }
    }

    /// Forget the job that was persisted before a restart.
    pub fn forget_pending(&mut self)
        ensures
            *final(self) == (Engine {
                daemon: DaemonState { pending: None, ..old(self).daemon },
                effects: final(self).effects,
                ..*old(self)
            }),
            effects_of(final(self).effects@) == effects_of(old(self).effects@).push(
                EffectView::SaveState,
            ),
    {
        self.daemon.pending = None;
        self.queue(Effect::SaveState);
    }

    /// Take a snapshot's connectors as the known ones; `true` when they differ
    /// from those known before.
    pub fn note_connectors(&mut self, topology: &Topology) -> (r: bool)
        ensures
            *final(self) == (Engine { last_connectors: final(self).last_connectors, ..*old(self) }),
            texts(final(self).last_connectors@) == connectors(topology.outputs@),
            r == (connectors(topology.outputs@).to_set() != texts(
                old(self).last_connectors@,
            ).to_set()),
    {
        let mut list: Vec<String> = Vec::new();
        for i in 0..topology.outputs.len()
            invariant
                list.len() == i,
                forall|j: int|
                    0 <= j < i ==> (#[trigger] list@[j])@
                        == topology.outputs@[j].identity.connector@,
        {
            list.push(topology.outputs[i].identity.connector.clone());
        }
        assert(texts(list@) =~= connectors(topology.outputs@));
        let same: bool = within(&list, &self.last_connectors) && within(
            &self.last_connectors,
            &list,
        );
        proof {
            let a = texts(list@).to_set();
            let b = texts(self.last_connectors@).to_set();
            if same {
                assert(a =~= b);
            }
        }
        self.last_connectors = list;
        !same
    }

    /// React to a (debounced) topology event. `None` while a temporary change
    /// of ours is in flight; otherwise clients are told, and the result says
    /// whether displays were plugged or unplugged, for [`Engine::reassert`].
    pub fn handle_topology_event(&mut self, topology: &Topology) -> (r: Option<bool>)
        ensures
            event_result(r, *old(self), *final(self), topology.outputs@),
    {
        if self.pending.is_some() {
            return None;
        }
        self.queue(Effect::Emit(DaemonEvent::OutputsChanged));
        let hotplug = self.note_connectors(topology);
        Some(hotplug)
    }

    fn recent_reasserts(&self, now: u128) -> (r: usize)
        ensures
            r == recent(self.reasserts@, now).len(),
    {
        let ghost s = self.reasserts@;
        let n: usize = self.reasserts.len();
        let mut i: usize = 0;
        assert(s.skip(0) =~= s);
        while i < n && now > self.reasserts[i] && now - self.reasserts[i] > LOOP_GUARD_WINDOW
            invariant
                i <= n == s.len(),
                s == self.reasserts@,
                recent(s.skip(i as int), now) == recent(s, now),
            decreases n - i,
        {
            assert(s.skip(i as int)[0] == s[i as int]);
            assert(s.skip(i as int).drop_first() =~= s.skip(i + 1));
            i = i + 1;
        }
        proof {
            if i < n {
                assert(s.skip(i as int)[0] == s[i as int]);
            }
        }
        n - i
    }

    /// Whether a layout that is to be re-asserted lies close enough together to be
    /// moved to the origin (see [`Engine::reassert`]).
    pub fn reassert_within(&self, snapshot: Topology, hotplug: bool, now: u128) -> (r: bool)
        ensures
            r == reassert_fits(
                *self,
                aliased(snapshot.outputs@, self.config.aliases@),
                hotplug,
                now,
            ),
    {
        let topology = self.snapshot(snapshot);
        if !hotplug || self.daemon.suspended || self.recent_reasserts(now) >= LOOP_GUARD_MAX {
            return true;
        }
        match &self.daemon.active_profile {
            Some(name) => match self.profiles.find(name.as_str()) {
                Some(p) => {
                    proof {
                        first_where_facts(p.outputs@, entry_settles(topology.outputs@));
                    }
                    match p.is_satisfied_by(&topology) {
                        Ok(false) => p.layout_fits(&topology),
                        _ => true,
                    }
                },
                None => true,
            },
            None => true,
        }
    }

    /// Core of the persistence engine. `hotplug` decides whether divergence
    /// from the active profile is corrected (the result is to be applied) or
    /// only flagged (drift). The loop guard suspends the profile rather than
    /// fight the compositor indefinitely.
    pub fn reassert(&mut self, snapshot: Topology, hotplug: bool, now: u128) -> (r: Option<
        Reassert,
    >)
        requires
            reassert_fits(
                *old(self),
                aliased(snapshot.outputs@, old(self).config.aliases@),
                hotplug,
                now,
            ),
        ensures
            reassert_result(
                r,
                *old(self),
                *final(self),
                snapshot.serial,
                aliased(snapshot.outputs@, old(self).config.aliases@),
                hotplug,
                now,
            ),
    {
        let topology = self.snapshot(snapshot);
        if self.daemon.suspended {
            return None;
        }
        let name: String = match &self.daemon.active_profile {
            Some(name) => name.clone(),
            None => {
                return None;
            },
        };
        let profile: Profile = match self.profiles.find(name.as_str()) {
            Some(p) => p.clone(),
            None => {
                return None;
            },
        };
        proof {
            first_where_facts(profile.outputs@, entry_settles(topology.outputs@));
        }
        match profile.is_satisfied_by(&topology) {
            Err(_) => None,
            Ok(true) => {
                self.drifted = false;
                None
            },
            Ok(false) => {
                if !hotplug {
                    if !self.drifted {
                        self.drifted = true;
                        self.queue(Effect::Emit(DaemonEvent::ProfileDrifted { name }));
                    }
                    return None;
                }
                self.drop_old_reasserts(now);
                if self.reasserts.len() >= LOOP_GUARD_MAX {
                    self.daemon.suspended = true;
                    self.queue(Effect::SaveState);
                    self.queue(Effect::Emit(DaemonEvent::ProfileSuspended { name }));
                    assert(effects_of(self.effects@) =~= effects_of(old(self).effects@) + seq![
                        EffectView::SaveState,
                        EffectView::Emit(EventView::ProfileSuspended { name: name@ }),
                    ]);
                    return None;
                }
                self.reasserts.push(now);
                match profile.to_plan(&topology) {
                    Ok((plan, _)) => {
                        let risk = assess(&topology, &plan);
                        let timer: Option<u64> = if risk.timer_mandatory() {
                            Some(self.config.revert_secs)
                        } else {
                            None
                        };
                        Some(Reassert { plan, name, prior: topology, risk, timer })
                    },
                    Err(_) => None,
                }
            },
        }
    }

    fn drop_old_reasserts(&mut self, now: u128)
        ensures
            *final(self) == (Engine { reasserts: final(self).reasserts, ..*old(self) }),
            final(self).reasserts@ == recent(old(self).reasserts@, now),
    {
        while self.reasserts.len() > 0 && now > self.reasserts[0] && now - self.reasserts[0]
            > LOOP_GUARD_WINDOW
            invariant
                *self == (Engine { reasserts: self.reasserts, ..*old(self) }),
                recent(self.reasserts@, now) == recent(old(self).reasserts@, now),
            decreases self.reasserts.len(),
        {
            let ghost before = self.reasserts@;
            self.reasserts.remove(0);
            assert(self.reasserts@ =~= before.drop_first());
        }
    }

    /// Report that a re-assert was applied. One that may revert is pending from
    /// now on; the profile follows its displays to their connectors.
    pub fn reasserted(&mut self, change: Reassert, now: u128, unix_now: u64, prior_json: String)
        requires
            change.timer matches Some(secs) ==> deadline_fits(secs, now, unix_now),
        ensures
            reassert_reported(*old(self), *final(self), change, now, unix_now, prior_json),
    {
        let Reassert { plan, name, prior, risk, timer } = change;
        let ghost moves = migration_effects(
            self.profiles.profiles@,
            change.name@,
            change.prior.outputs@,
        );
        let ghost waits: Seq<EffectView> = match change.timer {
            Some(secs) => pending_effects(*self, secs),
            None => Seq::empty(),
        };
        self.migrate_profile(name.as_str(), &prior);
        if let Some(secs) = timer {
            self.begin_pending(prior, secs, risk, None, None, None, now, unix_now, prior_json);
        }
        assert(effects_of(self.effects@) =~= effects_of(old(self).effects@) + moves + waits);
        self.queue(Effect::Emit(DaemonEvent::ProfileApplied { name }));
        assert(effects_of(self.effects@) =~= effects_of(old(self).effects@) + moves + waits + seq![
            EffectView::Emit(EventView::ProfileApplied { name: change.name@ }),
        ]);
    }
}

fn within(a: &Vec<String>, b: &Vec<String>) -> (r: bool)
    ensures
        r == (forall|x: Seq<char>| texts(a@).to_set().contains(x) ==> texts(b@).to_set().contains(x)),
{
    for i in 0..a.len()
        invariant
            forall|j: int| 0 <= j < i ==> texts(b@).contains((#[trigger] a@[j])@),
    {
        let mut found: bool = false;
        for k in 0..b.len()
            invariant
                i < a.len(),
                found == (exists|j: int| 0 <= j < k && (#[trigger] b@[j])@ == a@[i as int]@),
        {
            if same_text(a[i].as_str(), b[k].as_str()) {
                assert(b@[k as int]@ == a@[i as int]@);
                found = true;
            }
        }
        if !found {
            proof {
                let x = a@[i as int]@;
                assert(texts(a@)[i as int] == x);
                assert(texts(a@).to_set().contains(x));
                if texts(b@).contains(x) {
                    let k = choose|k: int| 0 <= k < texts(b@).len() && texts(b@)[k] == x;
                    assert(b@[k]@ == x);
                }
            }
            return false;
        }
        proof {
            let k = choose|j: int| 0 <= j < b.len() && (#[trigger] b@[j])@ == a@[i as int]@;
            assert(texts(b@)[k] == a@[i as int]@);
        }
    }
    proof {
        assert forall|x: Seq<char>| texts(a@).to_set().contains(x) implies texts(
            b@,
        ).to_set().contains(x) by {
            let j = choose|j: int| 0 <= j < texts(a@).len() && texts(a@)[j] == x;
            assert(texts(b@).contains(a@[j]@));
        }
    }
    true
}

impl Resolution {
    /// Whether the layout of a reverted job can be moved to the origin (see
    /// [`Resolution::plan`]).
    pub fn fits(&self, fresh: &Topology) -> (r: bool)
        ensures
            r == (self.keep || spread_fits(
                restored(fresh.outputs@, self.pending.prior.outputs@),
            )),
    {
        self.keep || restore_fits(fresh, &self.pending.prior)
    }

    /// The layout that resolves the job, for a fresh snapshot: what is there
    /// now, made to stick, or what was there before.
    pub fn plan(&self, fresh: &Topology) -> (r: LayoutPlan)
        requires
            !self.keep ==> spread_fits(restored(fresh.outputs@, self.pending.prior.outputs@)),
        ensures
            r.serial == fresh.serial,
            r.outputs@ == resolved_layout(*self, fresh.outputs@),
    {
        if self.keep {
            LayoutPlan::from_topology(fresh)
        } else {
            restore_plan(fresh, &self.pending.prior)
        }
    }

    /// Audio follow-through once the layout is applied: a kept change concerns
    /// the output that it switched; a reverted disable brings its output back.
    pub fn audio_jobs(&self) -> (r: Vec<AudioJob>)
        ensures
            audio_follow_up(r@, self.pending, self.keep),
    {
        let mut jobs: Vec<AudioJob> = Vec::new();
        if let Some(o) = &self.pending.disabled {
            if self.keep {
                jobs.push(
                    AudioJob::AfterDisable {
                        output: o.clone(),
                        sink: copy_text(&self.pending.sink),
                    },
                );
            } else {
                jobs.push(AudioJob::AfterEnable { output: o.clone() });
            }
        }
        if self.keep {
            if let Some(o) = &self.pending.enabled {
                jobs.push(AudioJob::AfterEnable { output: o.clone() });
            }
        }
        jobs
    }
}

// --------------------------------------------------------------------- laws

/// Whether times never run backwards.
pub open spec fn in_order(s: Seq<u128>) -> bool {
    forall|i: int, j: int| 0 <= i <= j < s.len() ==> #[trigger] s[i] <= #[trigger] s[j]
}

/// The loop guard counts exactly the re-asserts within its window: as long as
/// time does not run backwards, every one it keeps lies within the window and
/// every one it drops lies before it.
pub proof fn loop_guard_counts_the_window(s: Seq<u128>, now: u128)
    requires
        in_order(s),
    ensures
        ({
            let left = recent(s, now);
            let dropped = s.len() - left.len();
            &&& left.len() <= s.len()
            &&& left == s.skip(dropped)
            &&& forall|i: int|
                0 <= i < s.len() ==> (now - #[trigger] s[i] > LOOP_GUARD_WINDOW <==> i < dropped)
        }),
    decreases s.len(),
{
    if s.len() > 0 && now - s[0] > LOOP_GUARD_WINDOW {
        let t = s.drop_first();
        assert forall|i: int, j: int| 0 <= i <= j < t.len() implies #[trigger] t[i]
            <= #[trigger] t[j] by {
            assert(s[i + 1] <= s[j + 1]);
        }
        loop_guard_counts_the_window(t, now);
        let left = recent(s, now);
        let dropped = s.len() - left.len();
        assert(left =~= s.skip(dropped));
        assert forall|i: int| 0 <= i < s.len() implies (now - #[trigger] s[i] > LOOP_GUARD_WINDOW
            <==> i < dropped) by {
            if i > 0 {
                assert(t[i - 1] == s[i]);
            }
        }
    } else {
        assert(s.skip(0) =~= s);
        assert forall|i: int| 0 <= i < s.len() implies !(now - #[trigger] s[i]
            > LOOP_GUARD_WINDOW) by {
            assert(s[0] <= s[i]);
        }
    }
}

/// The loop guard never lets more than its limit of re-asserts pass within its
/// window, whatever the compositor does.
pub proof fn reasserts_stay_within_the_limit(
    r: Option<Reassert>,
    before: Engine,
    after: Engine,
    serial: String,
    outputs: Seq<Output>,
    hotplug: bool,
    now: u128,
)
    requires
        reassert_result(r, before, after, serial, outputs, hotplug, now),
        before.reasserts@.len() <= LOOP_GUARD_MAX,
    ensures
        after.reasserts@.len() <= LOOP_GUARD_MAX,
        r is Some ==> after.reasserts@.len() > 0 && after.reasserts@.last() == now,
{
    recent_is_shorter(before.reasserts@, now);
}

proof fn recent_is_shorter(s: Seq<u128>, now: u128)
    ensures
        recent(s, now).len() <= s.len(),
    decreases s.len(),
{
    if s.len() > 0 && now - s[0] > LOOP_GUARD_WINDOW {
        recent_is_shorter(s.drop_first(), now);
    }
}

/// A stored profile that followed its displays is still found under its name.
proof fn active_profile_moves(before: Engine, after: Engine, outputs: Seq<Output>)
    requires
        active_profile(before) is Some,
        after.daemon.active_profile == before.daemon.active_profile,
        migrated_store(
            before.profiles.profiles@,
            after.profiles.profiles@,
            before.daemon.active_profile->0@,
            outputs,
        ),
    ensures
        active_profile(after) is Some,
        active_profile(after)->0.outputs@ == migrated(active_profile(before)->0.outputs@, outputs),
{
    let s = before.profiles.profiles@;
    let t = after.profiles.profiles@;
    let p = named(before.daemon.active_profile->0@);
    first_where_facts(s, p);
    let i = first_where(s, p)->0;
    assert forall|j: int| 0 <= j < i implies !p(t[j]) by {
        assert(t[j] == s[j]);
    }
    assert(p(s[i]));
    first_where_is(t, p, i);
}

/// A hotplug that brings the displays out of line is answered with the layout of
/// the active profile, as long as the profile resolves and the loop guard has
/// room; once that layout is reached and reported, nothing more is asserted.
pub proof fn hotplug_is_answered_once(
    first: Option<Reassert>,
    second: Option<Reassert>,
    engines: (Engine, Engine, Engine, Engine),
    serials: (String, String),
    outputs: Seq<Output>,
    reached: Seq<Output>,
    hotplug: bool,
    times: (u128, u128, u128),
    unix_now: u64,
    prior_json: String,
)
    requires
        reassert_plans(engines.0, outputs, true, times.0),
        first_where(active_profile(engines.0)->0.outputs@, entry_ambiguous(outputs)) is None,
        no_conflict(active_profile(engines.0)->0.outputs@, outputs),
        distinct_connectors(outputs),
        reassert_result(first, engines.0, engines.1, serials.0, outputs, true, times.0),
        first is Some ==> reassert_reported(
            engines.1,
            engines.2,
            first->0,
            times.1,
            unix_now,
            prior_json,
        ),
        same_displays(reached, outputs),
        first is Some ==> forall|i: int|
            0 <= i < reached.len() ==> (#[trigger] reached[i]).enabled
                == first->0.plan.outputs@[i].enabled,
        reassert_result(second, engines.2, engines.3, serials.1, reached, hotplug, times.2),
    ensures
        first is Some,
        first->0.plan.outputs@ == normalized(
            profile_outputs(active_profile(engines.0)->0.outputs@, outputs),
        ),
        second is None,
        !engines.3.drifted,
{
    let entries = active_profile(engines.0)->0.outputs@;
    let moved = migrated(entries, outputs);
    active_profile_moves(engines.1, engines.2, outputs);
    migrated_profile_asks_for_the_same(entries, outputs);
    assert(no_conflict(moved, outputs)) by {
        assert forall|a: int, b: int|
            0 <= a < moved.len() && 0 <= b < moved.len() && entry_hits(
                #[trigger] moved[a],
                outputs,
            ).len() == 1 && entry_hits(#[trigger] moved[b], outputs) == entry_hits(
                moved[a],
                outputs,
            ) implies moved[a].enabled == moved[b].enabled by {
            migrated_entry_hits(entries[a], outputs);
            migrated_entry_hits(entries[b], outputs);
            assert(entries[a].enabled == entries[b].enabled);
        }
    }
    applied_entries_are_settled(moved, outputs, reached);
}

/// A re-assert that would switch every display off, or an internal panel, is only
/// ever applied temporarily and is pending once it is reported.
pub proof fn risky_reassert_is_temporary(
    r: Option<Reassert>,
    engines: (Engine, Engine, Engine),
    serial: String,
    outputs: Seq<Output>,
    hotplug: bool,
    times: (u128, u128),
    unix_now: u64,
    prior_json: String,
)
    requires
        reassert_result(r, engines.0, engines.1, serial, outputs, hotplug, times.0),
        r is Some,
        risk_of(outputs, r->0.plan.outputs@) != RiskClass::Routine,
        reassert_reported(engines.1, engines.2, r->0, times.1, unix_now, prior_json),
    ensures
        mode_for(r->0.timer) == ApplyMode::Temporary,
        engines.2.pending is Some,
        engines.2.pending->0.prior.outputs@ == outputs,
        effects_of(engines.2.effects@).contains(
            EffectView::StartTimer {
                job_id: engines.2.pending->0.id,
                secs: engines.0.config.revert_secs,
            },
        ),
{
    let secs = engines.0.config.revert_secs;
    let head = effects_of(engines.1.effects@) + migration_effects(
        engines.1.profiles.profiles@,
        r->0.name@,
        outputs,
    );
    assert(pending_effects(engines.1, secs)[0] == (EffectView::StartTimer {
        job_id: engines.1.next_job,
        secs,
    }));
    assert(effects_of(engines.2.effects@)[head.len() as int] == pending_effects(
        engines.1,
        secs,
    )[0]);
}

/// A change of layout without a hotplug is never fought: nothing is applied,
/// and a difference from the active profile is marked as drift.
pub proof fn external_changes_are_not_fought(
    r: Option<Reassert>,
    before: Engine,
    after: Engine,
    serial: String,
    outputs: Seq<Output>,
    now: u128,
)
    requires
        reassert_result(r, before, after, serial, outputs, false, now),
    ensures
        r is None,
        !before.daemon.suspended && active_profile(before) is Some && drifts(
            active_profile(before)->0.outputs@,
            outputs,
        ) ==> after.drifted,
{
    if active_profile(before) is Some {
        first_where_facts(
            active_profile(before)->0.outputs@,
            entry_settles(outputs),
        );
    }
}

/// A suspended profile is left alone until it is applied again.
pub proof fn suspended_profile_is_left_alone(
    r: Option<Reassert>,
    before: Engine,
    after: Engine,
    serial: String,
    outputs: Seq<Output>,
    hotplug: bool,
    now: u128,
)
    requires
        reassert_result(r, before, after, serial, outputs, hotplug, now),
        before.daemon.suspended,
    ensures
        r is None,
        after == before,
{
}

/// A job is resolved at most once: once its layout was kept or reverted, its
/// timer finds nothing to do.
pub proof fn resolved_job_is_gone(
    r: Option<Resolution>,
    before: Engine,
    after: Engine,
    expect: Option<u64>,
    keep: bool,
    again: Option<u64>,
)
    requires
        resolution_result(r, before, after, expect, keep),
        r is Some,
    ensures
        !resolves(after.pending, again),
{
}

/// A timer resolves no other job than its own.
pub proof fn timer_resolves_its_own_job(
    r: Option<Resolution>,
    before: Engine,
    after: Engine,
    job_id: u64,
)
    requires
        resolution_result(r, before, after, Some(job_id), false),
        r is Some,
    ensures
        r->0.pending.id == job_id,
{
}

/// A job that nobody confirmed is reverted: its timer restores every display that
/// is still connected to its state from before the change.
pub proof fn unconfirmed_job_is_reverted(
    r: Option<Resolution>,
    before: Engine,
    after: Engine,
    fresh: Seq<Output>,
    i: int,
    j: int,
)
    requires
        before.pending is Some,
        resolution_result(r, before, after, Some(before.pending->0.id), false),
        distinct_connectors(before.pending->0.prior.outputs@),
        0 <= i < fresh.len(),
        0 <= j < before.pending->0.prior.outputs@.len(),
        same_identity(fresh[i].identity, before.pending->0.prior.outputs@[j].identity),
    ensures
        r is Some,
        !r->0.keep,
        after.pending is None,
        restored(fresh, r->0.pending.prior.outputs@)[i] == (PlannedOutput {
            identity: fresh[i].identity,
            ..planned_as_is(before.pending->0.prior.outputs@[j])
        }),
{
    restoring_gives_the_earlier_layout(fresh, before.pending->0.prior.outputs@, i, j);
}

/// A risky switch is only ever applied temporarily.
pub proof fn risky_switch_is_temporary(
    step: Step,
    before: Engine,
    after: Engine,
    topology: Topology,
    o: Output,
    enabled: Option<bool>,
    opts: SetOpts,
    fullscreen: bool,
    sink: Option<String>,
)
    requires
        switch_result(step, before, after, topology, o, enabled, opts, fullscreen, sink),
    ensures
        step matches Step::Apply(change) ==> (change.risk != RiskClass::Routine ==> mode_for(
            change.timer,
        ) == ApplyMode::Temporary),
{
}

/// The sink recorded for an output that was switched off is the one that was the
/// default before the change was applied, whether the change stayed at once or was
/// confirmed later.
pub proof fn sink_from_before_is_recorded(
    step: Step,
    engines: (Engine, Engine, Engine, Engine, Engine, Engine),
    topology: Topology,
    o: Output,
    opts: SetOpts,
    fullscreen: bool,
    sink: String,
    applied: (SetOutcome, Option<AudioJob>),
    times: (u128, u64),
    prior_json: String,
    confirmed: Option<Resolution>,
    jobs: Seq<AudioJob>,
)
    requires
        switch_result(
            step,
            engines.0,
            engines.1,
            topology,
            o,
            Some(false),
            opts,
            fullscreen,
            Some(sink),
        ),
        step is Apply,
        applied_result(
            applied,
            engines.1,
            engines.2,
            step->Apply_0,
            times.0,
            times.1,
            prior_json,
        ),
        step->Apply_0.timer is Some ==> {
            &&& resolution_result(
                confirmed,
                engines.2,
                engines.3,
                Some(engines.2.pending->0.id),
                true,
            )
            &&& confirmed is Some ==> audio_follow_up(
                jobs,
                confirmed->0.pending,
                confirmed->0.keep,
            )
        },
        step->Apply_0.timer is None ==> applied.1 is Some ==> jobs == seq![applied.1->0],
        jobs.len() > 0 ==> (jobs[0] matches AudioJob::AfterDisable { output, sink } ==>
            sink_recorded(engines.4, engines.5, output, sink)),
    ensures
        jobs.len() == 1,
        jobs[0] matches AudioJob::AfterDisable { output, sink: from } && same_output(output, o)
            && from == Some(sink),
        ({
            let recorded = engines.5.daemon.audio_restore@;
            &&& recorded.len() > 0
            &&& recorded.last().connector@ == o.identity.connector@
            &&& recorded.last().sink == sink
        }),
{
}

/// The sink that was the default before an output was switched off is the one to
/// restore when the output returns, unless the user chose another one meanwhile.
pub proof fn recorded_sink_is_restored(
    list: Seq<AudioRestore>,
    entry: AudioRestore,
    fallback: Option<String>,
    current: Option<String>,
)
    ensures
        ({
            let recorded = list.filter(other_sink(entry.connector@)).push(entry);
            let k = recorded.len() - 1;
            let known = AudioRestore { fallback, ..entry };
            let captured = recorded.update(k, known);
            &&& first_where(recorded, sink_at(entry.connector@)) == Some(k)
            &&& sink_of(restore_identity(entry), captured) == Some(k)
            &&& current is None || current->0@ == entry.sink@ || (fallback is Some && current->0@
                == fallback->0@) ==> !user_changed(known, current)
        }),
{
    let others = other_sink(entry.connector@);
    let recorded = list.filter(others).push(entry);
    let k = recorded.len() - 1;
    let known = AudioRestore { fallback, ..entry };
    let captured = recorded.update(k, known);
    let id = restore_identity(entry);
    assert forall|j: int| 0 <= j < k implies (#[trigger] captured[j]).connector@
        != entry.connector@ by {
        filter_meets(list, others, j);
        assert(captured[j] == list.filter(others)[j]);
    }
    assert forall|j: int| 0 <= j < k implies !sink_at(entry.connector@)(recorded[j]) by {
        assert(captured[j] == recorded[j]);
    }
    first_where_is(recorded, sink_at(entry.connector@), k);
    if id.edid is Some {
        first_where_is(captured, sink_with(id, MatchQuality::Edid, true), k);
    } else {
        first_where_none(captured, sink_with(id, MatchQuality::Edid, true));
        first_where_none(captured, sink_with(id, MatchQuality::Edid, false));
        first_where_is(captured, sink_with(id, MatchQuality::Connector, false), k);
    }
}

/// A switch that is acknowledged and may revert is pending for exactly the seconds
/// that the request gives, and for the configured ones where it gives none.
pub proof fn pending_switch_lasts_as_long_as_asked(
    step: Step,
    engines: (Engine, Engine, Engine),
    topology: Topology,
    o: Output,
    enabled: Option<bool>,
    opts: SetOpts,
    sink: Option<String>,
    applied: (SetOutcome, Option<AudioJob>),
    times: (u128, u64),
    prior_json: String,
)
    requires
        switch_result(
            step,
            engines.0,
            engines.1,
            topology,
            o,
            enabled,
            opts,
            false,
            sink,
        ),
        step is Apply ==> applied_result(
            applied,
            engines.1,
            engines.2,
            step->Apply_0,
            times.0,
            times.1,
            prior_json,
        ),
    ensures
        step is Apply && !opts.no_timer && opts.revert_secs is Some ==> {
            &&& applied.0 matches SetOutcome::Pending { deadline_secs, .. } && deadline_secs
                == opts.revert_secs->0
            &&& engines.2.pending is Some
        },
        step is Apply && step->Apply_0.risk != RiskClass::Routine && opts.revert_secs is None
            ==> (applied.0 matches SetOutcome::Pending { deadline_secs, .. } && deadline_secs
            == engines.0.config.revert_secs),
        step is Apply && step->Apply_0.risk == RiskClass::Routine && (opts.no_timer
            || opts.revert_secs is None) ==> {
            &&& applied.0 is Applied
            &&& engines.2.pending == engines.0.pending
        },
{
}

/// What clients are told of an error goes by what went wrong.
pub proof fn error_kinds_tell_what_went_wrong(e: EngineError)
    ensures
        engine_kind(e) == ApiErrorKind::Backend <==> e is Backend,
        engine_kind(e) == ApiErrorKind::Other <==> e is Store,
        engine_kind(e) == ApiErrorKind::Ambiguous <==> (e matches EngineError::Resolve(why) && why
            is Ambiguous),
        engine_kind(e) == ApiErrorKind::NotFound <==> e is NoSuchProfile || (
        e matches EngineError::Resolve(why) && why is NotFound),
{
}

/// A fullscreen program holds back nothing but switching a display off, and not even
/// that where it is forced.
pub proof fn fullscreen_holds_back_only_switching_off(
    step: Step,
    before: Engine,
    after: Engine,
    topology: Topology,
    o: Output,
    want: bool,
    opts: SetOpts,
    fullscreen: bool,
    sink: Option<String>,
)
    requires
        switch_result(step, before, after, topology, o, Some(want), opts, fullscreen, sink),
        o.enabled != want,
    ensures
        fullscreen && !want && !opts.force ==> {
            &&& step matches Step::Done(SetOutcome::GuardRefused { reason }) && reason@
                == refusal_message(Refusal::Fullscreen)
            &&& after == before
        },
        !fullscreen || want || opts.force ==> match step {
            Step::Apply(change) => change.want == want && same_output(change.output, o),
            Step::Done(outcome) => (opts.no_timer || !opts.force) && risk_of(
                topology.outputs@,
                switch_layout(topology.outputs@, o, want, before.remembered),
            ) != RiskClass::Routine && outcome is GuardRefused,
        },
{
}

/// An output that is in the wanted state is left alone.
pub proof fn nothing_is_done_in_the_wanted_state(
    step: Step,
    before: Engine,
    after: Engine,
    topology: Topology,
    o: Output,
    opts: SetOpts,
    fullscreen: bool,
    sink: Option<String>,
)
    requires
        switch_result(
            step,
            before,
            after,
            topology,
            o,
            Some(o.enabled),
            opts,
            fullscreen,
            sink,
        ),
    ensures
        step matches Step::Done(outcome) && outcome is AlreadyInState,
        after == before,
{
}

/// What a switch that may revert goes back to is the layout from before it, at the end of
/// the seconds that it was given, on both clocks.
pub proof fn pending_switch_goes_back_to_before(
    step: Step,
    engines: (Engine, Engine, Engine),
    topology: Topology,
    o: Output,
    want: bool,
    opts: SetOpts,
    sink: Option<String>,
    applied: (SetOutcome, Option<AudioJob>),
    times: (u128, u64),
    prior_json: String,
)
    requires
        switch_result(step, engines.0, engines.1, topology, o, Some(want), opts, false, sink),
        step is Apply,
        step->Apply_0.timer is Some,
        deadline_fits(step->Apply_0.timer->0, times.0, times.1),
        applied_result(
            applied,
            engines.1,
            engines.2,
            step->Apply_0,
            times.0,
            times.1,
            prior_json,
        ),
    ensures
        ({
            let p = engines.2.pending->0;
            let secs = step->Apply_0.timer->0;
            let kept = engines.2.daemon.pending->0;
            &&& engines.2.pending is Some
            &&& applied.0 matches SetOutcome::Pending { job_id, risk, .. } && job_id == p.id && risk
                == risk_of(topology.outputs@, step->Apply_0.plan.outputs@)
            &&& applied.1 is None
            &&& same_topology(p.prior, topology)
            &&& p.deadline == times.0 + secs * 1_000_000_000
            &&& want ==> p.disabled is None && p.enabled is Some && same_output(p.enabled->0, o)
            &&& !want ==> p.enabled is None && p.disabled is Some && same_output(p.disabled->0, o)
                && p.sink == sink
            &&& engines.2.daemon.pending is Some
            &&& kept.job_id == p.id
            &&& kept.deadline_epoch == times.1 + secs
            &&& kept.prior_json == prior_json
            &&& engines.2.next_job != p.id
        }),
{
}

/// A switch that stays is followed by the audio of its output.
pub proof fn lasting_switch_is_followed_by_audio(
    r: (SetOutcome, Option<AudioJob>),
    before: Engine,
    after: Engine,
    change: Change,
    now: u128,
    unix_now: u64,
    prior_json: String,
)
    requires
        applied_result(r, before, after, change, now, unix_now, prior_json),
        change.timer is None,
    ensures
        r.0 is Applied,
        after == before,
        change.want ==> (r.1 matches Some(AudioJob::AfterEnable { output }) && output
            == change.output),
        !change.want ==> (r.1 matches Some(AudioJob::AfterDisable { output, sink }) && output
            == change.output && sink == change.sink),
{
}

/// A new job has a timer of its own, and stops that of the job that it replaces. Clients
/// are told of it.
pub proof fn new_job_replaces_the_old(before: Engine, secs: u64)
    ensures
        ({
            let effects = pending_effects(before, secs);
            let id = before.next_job;
            &&& effects.contains(EffectView::StartTimer { job_id: id, secs })
            &&& effects.contains(EffectView::SaveState)
            &&& effects.contains(
                EffectView::Emit(EventView::PendingChange { job_id: id, seconds_remaining: secs }),
            )
            &&& before.pending is Some ==> effects.contains(
                EffectView::AbortTimer { job_id: before.pending->0.id },
            )
            &&& before.pending is None ==> forall|job_id: u64|
                !#[trigger] effects.contains(EffectView::AbortTimer { job_id })
            &&& id < u64::MAX ==> following_job(id) == id + 1
            &&& following_job(id) != id
        }),
{
    let effects = pending_effects(before, secs);
    let id = before.next_job;
    let n = effects.len() as int;
    assert(effects[0] == (EffectView::StartTimer { job_id: id, secs }));
    assert(effects[n - 2] == EffectView::SaveState);
    assert(effects[n - 1] == EffectView::Emit(
        EventView::PendingChange { job_id: id, seconds_remaining: secs },
    ));
    if before.pending is Some {
        assert(effects[1] == (EffectView::AbortTimer { job_id: before.pending->0.id }));
    } else {
        assert(n == 3);
    }
}

/// Deciding about a job takes it away, also from what is stored for a restart, and stops
/// its timer. A decision about another job changes nothing.
pub proof fn deciding_takes_the_job(
    r: Option<Resolution>,
    before: Engine,
    after: Engine,
    expect: Option<u64>,
    keep: bool,
)
    requires
        resolution_result(r, before, after, expect, keep),
    ensures
        before.pending is None ==> r is None && after == before,
        before.pending is Some && expect is Some && expect->0 != before.pending->0.id ==> r is None
            && after == before,
        before.pending is Some && (expect is None || expect->0 == before.pending->0.id) ==> {
            &&& r is Some
            &&& r->0.pending == before.pending->0
            &&& r->0.keep == keep
            &&& after.pending is None
            &&& after.daemon.pending is None
            &&& effects_of(after.effects@).contains(
                EffectView::AbortTimer { job_id: before.pending->0.id },
            )
            &&& effects_of(after.effects@).contains(EffectView::SaveState)
        },
{
    if resolves(before.pending, expect) {
        let e = effects_of(after.effects@);
        let n = effects_of(before.effects@).len() as int;
        assert(e[n] == (EffectView::AbortTimer { job_id: before.pending->0.id }));
        assert(e[n + 1] == EffectView::SaveState);
    }
}

/// Keeping a change leaves every display as it is. Reverting it gives each display that
/// was there before its state, mode, scale and rotation from before.
pub proof fn decision_is_carried_out(r: Resolution, fresh: Seq<Output>, i: int, j: int)
    requires
        0 <= i < fresh.len(),
        distinct_connectors(r.pending.prior.outputs@),
        0 <= j < r.pending.prior.outputs@.len(),
        same_identity(fresh[i].identity, r.pending.prior.outputs@[j].identity),
        r.keep || spread_fits(restored(fresh, r.pending.prior.outputs@)),
    ensures
        ({
            let p = resolved_layout(r, fresh)[i];
            let o = if r.keep {
                fresh[i]
            } else {
                r.pending.prior.outputs@[j]
            };
            &&& resolved_layout(r, fresh).len() == fresh.len()
            &&& p.identity == fresh[i].identity
            &&& p.enabled == o.enabled
            &&& o.mode is Some ==> p.mode == o.mode
            &&& 0 < o.scale.bits <= 0x7ff0_0000_0000_0000 ==> p.scale == o.scale
            &&& p.transform == o.transform
            &&& r.keep ==> p.position == o.position && p.primary == o.primary
        }),
{
    let prior = r.pending.prior.outputs@;
    restoring_gives_the_earlier_layout(fresh, prior, i, j);
    restoring_plans_every_output_once(fresh, prior);
    planning_as_is_changes_nothing(fresh[i]);
    planning_as_is_changes_nothing(prior[j]);
    if !r.keep {
        normalized_keeps_the_rest(restored(fresh, prior), i, i);
    }
}

/// A restart leaves a job the time that it had left, and reverts one whose time is up.
pub proof fn restart_keeps_the_deadline(
    r: Recovery,
    pending: Option<PersistedPending>,
    prior: Option<Topology>,
    unix_now: u64,
)
    requires
        recovery_result(r, pending, prior, unix_now),
    ensures
        pending is None ==> r is Leave,
        pending is Some && prior is Some && pending->0.deadline_epoch > unix_now ==> (
        r matches Recovery::Rearm { prior: t, secs } && t == prior->0 && unix_now + secs
            == pending->0.deadline_epoch),
        pending is Some && prior is Some && pending->0.deadline_epoch <= unix_now ==> (
        r matches Recovery::Revert(t) && t == prior->0),
        pending is Some && prior is None && pending->0.deadline_epoch <= unix_now ==> r is Forget,
        pending is Some && prior is None && pending->0.deadline_epoch > unix_now ==> r is Leave,
{
}

/// The seconds that clients are told are the whole seconds that are left.
pub proof fn whole_seconds_are_told(deadline: u128, now: u128)
    ensures
        deadline <= now ==> seconds_left(deadline, now) == 0,
        now < deadline && seconds_left(deadline, now) < u64::MAX ==> {
            let s = seconds_left(deadline, now);
            now + s * 1_000_000_000 <= deadline < now + (s + 1) * 1_000_000_000
        },
        now < deadline && seconds_left(deadline, now) == u64::MAX ==> now + u64::MAX * 1_000_000_000
            <= deadline,
{
}

/// Recording a sink replaces what was recorded for the same connector and keeps what was
/// recorded for the others. Where there was no default sink nothing is recorded.
pub proof fn one_sink_is_recorded_per_connector(
    before: Engine,
    after: Engine,
    o: Output,
    current: Option<String>,
    a: AudioRestore,
)
    requires
        sink_recorded(before, after, o, current),
    ensures
        current is None ==> after == before,
        current is Some ==> {
            let list = after.daemon.audio_restore@;
            &&& a.connector@ != o.identity.connector@ ==> (list.contains(a)
                <==> before.daemon.audio_restore@.contains(a))
            &&& a.connector@ == o.identity.connector@ && list.contains(a) ==> a.sink == current->0
                && a.edid == o.identity.edid && a.fallback is None
            &&& list.len() > 0 && list.last().connector == o.identity.connector
            &&& effects_of(after.effects@).contains(
                EffectView::CaptureFallback { connector: o.identity.connector@ },
            )
        },
{
    if current is Some {
        let p = other_sink(o.identity.connector@);
        let old_list = before.daemon.audio_restore@;
        let kept = old_list.filter(p);
        let list = after.daemon.audio_restore@;
        if a.connector@ != o.identity.connector@ && old_list.contains(a) {
            let k = choose|k: int| 0 <= k < old_list.len() && old_list[k] == a;
            assert(p(old_list[k]));
            filter_has(old_list, p, k);
            let j = choose|j: int| 0 <= j < kept.len() && kept[j] == a;
            assert(list[j] == a);
        }
        if list.contains(a) {
            let j = choose|j: int| 0 <= j < list.len() && list[j] == a;
            if j < kept.len() {
                filter_meets(old_list, p, j);
                assert(kept[j] == a);
                filter_held(old_list, p, j);
            }
        }
        let e = effects_of(after.effects@);
        assert(e[e.len() - 1] == (EffectView::CaptureFallback {
            connector: o.identity.connector@,
        }));
    }
}

/// The sink that an output gets back is the one stored for its display: by its EDID,
/// first at its own connector, and only where no EDID agrees by its connector.
pub proof fn sink_follows_the_display(id: OutputIdentity, list: Seq<AudioRestore>, k: int)
    requires
        0 <= k < list.len(),
    ensures
        ({
            let there = OutputIdentity { connector: list[k].connector, edid: list[k].edid };
            let found = sink_of(id, list);
            &&& edids_agree(id, there) ==> {
                &&& found is Some
                &&& 0 <= found->0 < list.len()
                &&& edids_agree(id, restore_identity(list[found->0]))
                &&& list[k].connector@ == id.connector@ ==> found->0 <= k
                    && list[found->0].connector@ == id.connector@
            }
            &&& list[k].connector@ == id.connector@ ==> {
                &&& found is Some
                &&& 0 <= found->0 < list.len()
                &&& edids_agree(id, restore_identity(list[found->0])) || list[found->0].connector@
                    == id.connector@
            }
            &&& unrelated(id, there) ==> found != Some(k)
        }),
{
    first_where_facts(list, sink_with(id, MatchQuality::Edid, true));
    first_where_facts(list, sink_with(id, MatchQuality::Edid, false));
    first_where_facts(list, sink_with(id, MatchQuality::Connector, false));
    let there = OutputIdentity { connector: list[k].connector, edid: list[k].edid };
    assert(restore_identity(list[k]) == there);
    quality_goes_by_edid_then_connector(id, there);
    if edids_agree(id, there) {
        assert(sink_with(id, MatchQuality::Edid, false)(list[k]));
        if list[k].connector@ == id.connector@ {
            assert(sink_with(id, MatchQuality::Edid, true)(list[k]));
        }
    } else if list[k].connector@ == id.connector@ {
        assert(sink_with(id, MatchQuality::Connector, false)(list[k]));
    }
    if sink_of(id, list) is Some {
        let f = sink_of(id, list)->0;
        quality_goes_by_edid_then_connector(id, restore_identity(list[f]));
        assert(sink_with(id, MatchQuality::Edid, true)(list[f]) || sink_with(
            id,
            MatchQuality::Edid,
            false,
        )(list[f]) || sink_with(id, MatchQuality::Connector, false)(list[f]));
    }
}

/// An output that came back gets its stored sink, unless the user chose a sink that is
/// neither that one nor what the audio server fell back to. Either way it is stored no more.
pub proof fn stored_sink_comes_back(
    r: Option<String>,
    before: Engine,
    after: Engine,
    o: Output,
    current: Option<String>,
)
    requires
        sink_returned(r, before, after, o, current),
    ensures
        match sink_of(o.identity, before.daemon.audio_restore@) {
            None => r is None && after == before,
            Some(i) => {
                let a = before.daemon.audio_restore@[i];
                &&& current is None || a.fallback is None || current->0@ == a.fallback->0@
                    || current->0@ == a.sink@ ==> r == Some(a.sink)
                &&& current is Some && a.fallback is Some && current->0@ != a.fallback->0@
                    && current->0@ != a.sink@ ==> r is None
                &&& after.daemon.audio_restore@ == before.daemon.audio_restore@.remove(i)
            },
        },
{
}

/// What the audio server fell back to is noted for the display at the connector alone.
pub proof fn fallback_is_noted_where_it_belongs(
    before: Engine,
    after: Engine,
    connector: Seq<char>,
    sink: Option<String>,
    k: int,
)
    requires
        fallback_noted(before, after, connector, sink),
        0 <= k < before.daemon.audio_restore@.len(),
        forall|j: int|
            0 <= j < before.daemon.audio_restore@.len() && j != k ==> (
            #[trigger] before.daemon.audio_restore@[j]).connector@
                != before.daemon.audio_restore@[k].connector@,
    ensures
        ({
            let list = before.daemon.audio_restore@;
            let then = after.daemon.audio_restore@;
            &&& then.len() == list.len()
            &&& list[k].connector@ == connector ==> then[k].fallback == sink && then[k].sink
                == list[k].sink && then[k].connector == list[k].connector && then[k].edid
                == list[k].edid
            &&& list[k].connector@ != connector ==> then[k] == list[k]
        }),
{
    let list = before.daemon.audio_restore@;
    first_where_facts(list, sink_at(connector));
    if list[k].connector@ == connector {
        first_where_is(list, sink_at(connector), k);
    } else if first_where(list, sink_at(connector)) is Some {
        assert(sink_at(connector)(list[first_where(list, sink_at(connector))->0]));
    }
}

/// A profile is shown as active exactly if it is the active one, and as drifted only where
/// the active one and the displays differ.
pub proof fn active_profile_is_shown(
    info: ProfileInfo,
    p: Profile,
    active: Option<String>,
    outputs: Seq<Output>,
    at: Seq<Option<int>>,
)
    requires
        informs(info, p, active, outputs),
        at.len() == p.outputs@.len(),
        forall|k: int|
            0 <= k < p.outputs@.len() ==> match #[trigger] at[k] {
                Some(i) => names_only(entry_identity(p.outputs@[k]), outputs, i),
                None => absent(entry_identity(p.outputs@[k]), outputs),
            },
    ensures
        info.name == p.name,
        info.hotkey == p.hotkey,
        info.active <==> active is Some && active->0@ == p.name@,
        info.drifted <==> info.active && exists|k: int|
            0 <= k < at.len() && (#[trigger] at[k] matches Some(i) && outputs[i].enabled
                != p.outputs@[k].enabled),
{
    let entries = p.outputs@;
    let q = entry_settles(outputs);
    assert forall|k: int| 0 <= k < entries.len() implies q(#[trigger] entries[k]) == (
    at[k] matches Some(i) && outputs[i].enabled != entries[k].enabled) && entry_hits(
        entries[k],
        outputs,
    ).len() <= 1 by {
        match at[k] {
            Some(i) => identity_stands_for_its_display(entry_identity(entries[k]), outputs, i),
            None => absent_display_has_no_hits(entry_identity(entries[k]), outputs),
        }
    }
    first_where_facts(entries, q);
    match first_where(entries, q) {
        Some(k) => {
            assert(q(entries[k]));
            assert(at[k] is Some);
        },
        None => {
            assert forall|k: int| 0 <= k < at.len() implies !(#[trigger] at[k] matches Some(i)
                && outputs[i].enabled != entries[k].enabled) by {
                assert(!q(entries[k]));
            }
        },
    }
}

/// Applying a stored profile follows the profile of that name. A risky one reverts after
/// the configured seconds, any other stays, and an unknown name is refused.
pub proof fn stored_profile_is_applied(
    r: Result<ProfileChange, EngineError>,
    before: Engine,
    after: Engine,
    serial: String,
    outputs: Seq<Output>,
    name: Seq<char>,
    k: int,
)
    requires
        profile_result(r, before, after, serial, outputs, name),
    ensures
        (forall|j: int|
            0 <= j < before.profiles.profiles@.len() ==> (
            #[trigger] before.profiles.profiles@[j]).name@ != name) ==> {
            &&& r matches Err(EngineError::NoSuchProfile(n)) && n@ == name
            &&& after == before
        },
        0 <= k < before.profiles.profiles@.len() && before.profiles.profiles@[k].name@ == name && (
        forall|j: int|
            0 <= j < k ==> (#[trigger] before.profiles.profiles@[j]).name@ != name) ==> {
            let p = before.profiles.profiles@[k];
            match r {
                Ok(change) => {
                    &&& change.name@ == name
                    &&& change.plan.outputs@ == normalized(profile_outputs(p.outputs@, outputs))
                    &&& change.prior.outputs@ == outputs
                    &&& change.risk == risk_of(outputs, change.plan.outputs@)
                    &&& change.risk == RiskClass::Routine ==> change.timer is None
                    &&& change.risk != RiskClass::Routine ==> change.timer == Some(
                        before.config.revert_secs,
                    )
                    &&& p.audio is None ==> change.sink is None
                    &&& p.audio is Some ==> change.sink == p.audio->0.preferred_sink
                },
                Err(e) => e is Resolve && after == before,
            }
        },
{
    let s = before.profiles.profiles@;
    first_where_facts(s, named(name));
    if forall|j: int| 0 <= j < s.len() ==> (#[trigger] s[j]).name@ != name {
        first_where_none(s, named(name));
    }
    if 0 <= k < s.len() && s[k].name@ == name && (forall|j: int|
        0 <= j < k ==> (#[trigger] s[j]).name@ != name) {
        first_where_is(s, named(name), k);
    }
}

/// A plan that turns off a display that is on has its config remembered; any other output
/// of a plan has nothing remembered.
pub proof fn what_a_profile_turns_off_is_remembered(
    plan: Seq<PlannedOutput>,
    outputs: Seq<Output>,
    s: Seq<PlannedOutput>,
    n: int,
    j: int,
)
    requires
        0 < n <= plan.len(),
        0 <= j < outputs.len(),
        outputs[j].identity.connector@ == plan[n - 1].identity.connector@,
        distinct_connectors(outputs),
    ensures
        !plan[n - 1].enabled && outputs[j].enabled ==> recalled(
            remembered_through(plan, outputs, s, n),
            outputs[j].identity,
        ) == Some(planned_as_is(outputs[j])),
        plan[n - 1].enabled || !outputs[j].enabled ==> remembered_through(plan, outputs, s, n)
            == remembered_through(plan, outputs, s, n - 1),
        turned_off(plan, outputs, n - 1) <==> !plan[n - 1].enabled && outputs[j].enabled,
{
    let at = output_at(plan[n - 1].identity.connector@);
    assert forall|i: int| 0 <= i < j implies !at(outputs[i]) by {
        assert(outputs[i].identity.connector@ != outputs[j].identity.connector@);
    }
    first_where_is(outputs, at, j);
    let before = remembered_through(plan, outputs, s, n - 1);
    let id = outputs[j].identity;
    if !plan[n - 1].enabled && outputs[j].enabled {
        remembered_config_is_recalled(before, planned_as_is(outputs[j]), id);
    }
}

/// An applied profile is the active one and no longer drifted or suspended, and the loop
/// guard starts anew. What it prefers to hear from is asked for, and clients are told.
pub proof fn applied_profile_is_active(
    r: SetOutcome,
    before: Engine,
    after: Engine,
    change: ProfileChange,
    now: u128,
    unix_now: u64,
    prior_json: String,
)
    requires
        profile_reported(r, before, after, change, now, unix_now, prior_json),
        change.needed && change.timer is Some ==> deadline_fits(change.timer->0, now, unix_now),
    ensures
        after.daemon.active_profile is Some && after.daemon.active_profile->0@ == change.name@,
        !after.daemon.suspended,
        !after.drifted,
        after.reasserts@.len() == 0,
        change.sink is Some ==> effects_of(after.effects@).contains(
            EffectView::PreferSink { sink: change.sink->0@ },
        ),
        effects_of(after.effects@).last() == EffectView::Emit(
            EventView::ProfileApplied { name: change.name@ },
        ),
        !change.needed ==> r is AlreadyInState && after.pending == before.pending,
        change.needed && change.timer is None ==> r is Applied && after.pending == before.pending,
        change.needed && change.timer is Some ==> {
            let secs = change.timer->0;
            &&& r matches SetOutcome::Pending { job_id, deadline_secs, risk, .. } && job_id
                == before.next_job && deadline_secs == secs && risk == change.risk
            &&& after.pending is Some
            &&& after.pending->0.id == before.next_job
            &&& after.pending->0.prior == change.prior
            &&& after.pending->0.deadline == now + secs * 1_000_000_000
            &&& after.daemon.pending is Some
            &&& after.daemon.pending->0.job_id == before.next_job
            &&& after.daemon.pending->0.deadline_epoch == unix_now + secs
        },
{
    let e = effects_of(after.effects@);
    let n = e.len() as int;
    if change.sink is Some {
        assert(e[n - 2] == (EffectView::PreferSink { sink: change.sink->0@ }));
    }
    assert(e[n - 1] == EffectView::Emit(EventView::ProfileApplied { name: change.name@ }));
}

/// A profile is written again exactly if one of its displays moved to another connector.
pub proof fn moved_profile_is_written(
    profiles: Seq<Profile>,
    name: Seq<char>,
    outputs: Seq<Output>,
    k: int,
)
    requires
        0 <= k < profiles.len(),
        profiles[k].name@ == name,
        forall|j: int| 0 <= j < k ==> (#[trigger] profiles[j]).name@ != name,
    ensures
        migration_effects(profiles, name, outputs) == if exists|i: int|
            0 <= i < profiles[k].outputs@.len() && (
            #[trigger] profiles[k].outputs@[i]).connector@ != migrated(
                profiles[k].outputs@,
                outputs,
            )[i].connector@ {
            seq![EffectView::SaveProfiles]
        } else {
            Seq::empty()
        },
{
    first_where_is(profiles, named(name), k);
    let s = profiles[k].outputs@;
    assert forall|i: int| 0 <= i < s.len() implies entry_moved(#[trigger] s[i], outputs) == (
    s[i].connector@ != migrated(s, outputs)[i].connector@) by {
        assert(migrated(s, outputs)[i] == migrated_entry(s[i], outputs));
    }
    if any_moved(s, outputs) {
        let i = choose|i: int| 0 <= i < s.len() && entry_moved(#[trigger] s[i], outputs);
        assert(s[i].connector@ != migrated(s, outputs)[i].connector@);
    }
}

/// The displays are re-asserted only after a hotplug, with the layout of the active
/// profile, and a risky layout reverts after the configured seconds. Five re-asserts
/// within half a minute suspend the profile.
pub proof fn reassert_follows_the_active_profile(
    r: Option<Reassert>,
    before: Engine,
    after: Engine,
    serial: String,
    outputs: Seq<Output>,
    hotplug: bool,
    now: u128,
)
    requires
        reassert_result(r, before, after, serial, outputs, hotplug, now),
        in_order(before.reasserts@),
    ensures
        r is Some ==> {
            &&& hotplug
            &&& !before.daemon.suspended
            &&& active_profile(before) is Some
            &&& r->0.name@ == before.daemon.active_profile->0@
            &&& r->0.plan.outputs@ == normalized(
                profile_outputs(active_profile(before)->0.outputs@, outputs),
            )
            &&& r->0.risk == risk_of(outputs, r->0.plan.outputs@)
            &&& r->0.risk == RiskClass::Routine ==> r->0.timer is None
            &&& r->0.risk != RiskClass::Routine ==> r->0.timer == Some(before.config.revert_secs)
            &&& before.reasserts@.len() >= 5 ==> now - before.reasserts@[before.reasserts@.len()
                - 5] > 30_000_000_000
        },
        hotplug && !before.daemon.suspended && active_profile(before) is Some && drifts(
            active_profile(before)->0.outputs@,
            outputs,
        ) && before.reasserts@.len() >= 5 && now - before.reasserts@[before.reasserts@.len() - 5]
            <= 30_000_000_000 ==> {
            &&& r is None
            &&& after.daemon.suspended
            &&& effects_of(after.effects@).last() == EffectView::Emit(
                EventView::ProfileSuspended { name: before.daemon.active_profile->0@ },
            )
        },
{
    let s = before.reasserts@;
    loop_guard_counts_the_window(s, now);
    if active_profile(before) is Some {
        first_where_facts(active_profile(before)->0.outputs@, entry_settles(outputs));
    }
    if s.len() >= 5 {
        assert(now - s[s.len() - 5] > LOOP_GUARD_WINDOW <==> s.len() - 5 < s.len() - recent(
            s,
            now,
        ).len());
    }
}

/// Displays that are back in line are no longer marked as drifted.
pub proof fn settled_displays_are_not_drifted(
    r: Option<Reassert>,
    before: Engine,
    after: Engine,
    serial: String,
    outputs: Seq<Output>,
    hotplug: bool,
    now: u128,
)
    requires
        reassert_result(r, before, after, serial, outputs, hotplug, now),
        !before.daemon.suspended,
        active_profile(before) is Some,
        forall|k: int|
            0 <= k < active_profile(before)->0.outputs@.len() ==> {
                let e = #[trigger] active_profile(before)->0.outputs@[k];
                let hits = entry_hits(e, outputs);
                hits.len() == 0 || (hits.len() == 1 && hits[0].enabled == e.enabled)
            },
    ensures
        r is None,
        !after.drifted,
        after.effects == before.effects,
{
    first_where_none(active_profile(before)->0.outputs@, entry_settles(outputs));
}

/// Whether an output has the connector.
pub open spec fn connected(outputs: Seq<Output>, connector: Seq<char>) -> bool {
    exists|i: int|
        0 <= i < outputs.len() && (#[trigger] outputs[i]).identity.connector@ == connector
}

/// Whether a list holds a text.
pub open spec fn listed(list: Seq<String>, text: Seq<char>) -> bool {
    exists|i: int| 0 <= i < list.len() && (#[trigger] list[i])@ == text
}

/// While a job is pending no change of the displays is reported; otherwise every one is, as
/// a hotplug exactly if a connector came or went.
pub proof fn hotplug_is_told_from_other_changes(
    r: Option<bool>,
    before: Engine,
    after: Engine,
    outputs: Seq<Output>,
)
    requires
        event_result(r, before, after, outputs),
    ensures
        before.pending is Some ==> r is None && after == before,
        before.pending is None ==> {
            &&& r is Some
            &&& r->0 <==> exists|c: Seq<char>| #[trigger]
                connected(outputs, c) != listed(before.last_connectors@, c)
            &&& after.last_connectors@.len() == outputs.len()
            &&& forall|i: int|
                0 <= i < outputs.len() ==> (#[trigger] after.last_connectors@[i])@
                    == outputs[i].identity.connector@
            &&& effects_of(after.effects@).last() == EffectView::Emit(EventView::OutputsChanged)
        },
{
    if before.pending is None {
        let new = connectors(outputs);
        let was = texts(before.last_connectors@);
        let now = texts(after.last_connectors@);
        assert(after.last_connectors@.len() == now.len() == outputs.len());
        assert forall|i: int| 0 <= i < outputs.len() implies (#[trigger] after.last_connectors@[i])@
            == outputs[i].identity.connector@ by {
            assert(now[i] == after.last_connectors@[i]@);
            assert(new[i] == outputs[i].identity.connector@);
        }
        assert forall|c: Seq<char>|
            #[trigger] connected(outputs, c) == new.to_set().contains(c) && listed(
                before.last_connectors@,
                c,
            ) == was.to_set().contains(c) by {
            if connected(outputs, c) {
                let i = choose|i: int|
                    0 <= i < outputs.len() && (#[trigger] outputs[i]).identity.connector@ == c;
                assert(new[i] == c);
            }
            if new.to_set().contains(c) {
                let i = choose|i: int| 0 <= i < new.len() && new[i] == c;
                assert(outputs[i].identity.connector@ == c);
            }
            if listed(before.last_connectors@, c) {
                let i = choose|i: int|
                    0 <= i < before.last_connectors@.len() && (
                    #[trigger] before.last_connectors@[i])@ == c;
                assert(was[i] == c);
            }
            if was.to_set().contains(c) {
                let i = choose|i: int| 0 <= i < was.len() && was[i] == c;
                assert(before.last_connectors@[i]@ == c);
            }
        }
        if forall|c: Seq<char>| #[trigger]
            connected(outputs, c) == listed(before.last_connectors@, c) {
            assert forall|c: Seq<char>| new.to_set().contains(c) == was.to_set().contains(c) by {
                assert(connected(outputs, c) == listed(before.last_connectors@, c));
            }
            assert(new.to_set() =~= was.to_set());
        }
        let e = effects_of(after.effects@);
        assert(e[e.len() - 1] == EffectView::Emit(EventView::OutputsChanged));
    }
}

/// A request that names exactly one display is about that display, and one that names
/// none or several is refused and changes nothing.
pub proof fn request_is_about_the_named_display(
    r: Result<Option<Step>, EngineError>,
    before: Engine,
    after: Engine,
    serial: String,
    outputs: Seq<Output>,
    target: Seq<char>,
    want: bool,
    opts: SetOpts,
    sink: Option<String>,
)
    requires
        request_result(
            r,
            before,
            after,
            serial,
            outputs,
            target,
            Some(want),
            opts,
            false,
            sink,
        ),
    ensures
        r is Err <==> target_hits(target, outputs).len() != 1,
        r is Err ==> after == before,
        r matches Ok(Some(Step::Apply(change))) ==> {
            &&& same_output(change.output, target_hits(target, outputs)[0])
            &&& change.want == want
            &&& change.prior.outputs@.len() == outputs.len()
            &&& change.plan.serial == serial
            &&& change.plan.outputs@ == switch_layout(
                outputs,
                target_hits(target, outputs)[0],
                want,
                before.remembered,
            )
        },
        r matches Ok(Some(Step::Done(outcome))) ==> (outcome is AlreadyInState <==> target_hits(
            target,
            outputs,
        )[0].enabled == want),
{
}

/// A display that was named has exactly that name, which no other display keeps.
pub proof fn naming_a_display_takes_the_name(
    r: Result<(), EngineError>,
    before: Engine,
    after: Engine,
    outputs: Seq<Output>,
    alias: Seq<char>,
    target: Seq<char>,
    i: int,
)
    requires
        alias_result(r, before, after, outputs, alias, target),
    ensures
        r is Err <==> target_hits(target, outputs).len() != 1,
        r is Err ==> after == before,
        r is Ok ==> {
            let list = after.config.aliases@;
            let last = list.last();
            &&& last.name@ == alias
            &&& last.connector == target_hits(target, outputs)[0].identity.connector
            &&& last.edid == target_hits(target, outputs)[0].identity.edid
            &&& after.config.revert_secs == before.config.revert_secs
            &&& 0 <= i < list.len() - 1 ==> list[i].name@ != alias
                && before.config.aliases@.contains(list[i])
        },
{
    if r is Ok {
        let list = after.config.aliases@;
        let p = other_alias(alias, target_hits(target, outputs)[0].identity);
        if 0 <= i < list.len() - 1 {
            assert(list.drop_last()[i] == list[i]);
            filter_meets(before.config.aliases@, p, i);
            filter_held(before.config.aliases@, p, i);
        }
    }
}

/// A profile that was saved holds the displays as they are, and keeps its hotkey and its
/// preferred sink if it was stored before.
pub proof fn saved_profile_holds_the_displays(
    before: Engine,
    after: Engine,
    outputs: Seq<Output>,
    name: Seq<char>,
    i: int,
)
    requires
        profile_stored(before, after, outputs, name),
        0 <= i < outputs.len(),
    ensures
        ({
            let was = find_where(before.profiles.profiles@, named(name));
            let p = find_where(after.profiles.profiles@, named(name));
            &&& p is Some
            &&& p->0.name@ == name
            &&& p->0.outputs@.len() == outputs.len()
            &&& p->0.outputs@[i].connector == outputs[i].identity.connector
            &&& p->0.outputs@[i].edid == outputs[i].identity.edid
            &&& p->0.outputs@[i].enabled == outputs[i].enabled
            &&& p->0.outputs@[i].position == Some(outputs[i].position)
            &&& p->0.outputs@[i].scale == Some(outputs[i].scale)
            &&& p->0.outputs@[i].transform == Some(outputs[i].transform)
            &&& p->0.outputs@[i].primary == Some(outputs[i].primary)
            &&& p->0.hotkey == match was {
                Some(e) => e.hotkey,
                None => None,
            }
            &&& p->0.audio == match was {
                Some(e) => e.audio,
                None => None,
            }
            &&& after.config == before.config && after.daemon == before.daemon && after.pending
                == before.pending
        }),
{
    let s = before.profiles.profiles@;
    let p = choose|p: Profile|
        {
            let existing = find_where(s, named(name));
            &&& p.name@ == name
            &&& p.outputs@.len() == outputs.len()
            &&& forall|i: int|
                0 <= i < outputs.len() ==> captures(#[trigger] p.outputs@[i], outputs[i])
            &&& p.hotkey == match existing {
                Some(e) => e.hotkey,
                None => None,
            }
            &&& p.audio == match existing {
                Some(e) => e.audio,
                None => None,
            }
            &&& after.profiles.profiles@ == #[trigger] with_profile(s, p)
        };
    stored_profile_is_found(s, p, name);
    assert(captures(p.outputs@[i], outputs[i]));
}

/// A deleted profile is active no more; deleting another one changes nothing.
pub proof fn deleted_profile_is_not_active(before: Engine, after: Engine, name: Seq<char>)
    requires
        profile_dropped(before, after, name),
    ensures
        !(after.daemon.active_profile is Some && after.daemon.active_profile->0@ == name),
        !(before.daemon.active_profile is Some && before.daemon.active_profile->0@ == name)
            ==> after == before,
        before.daemon.active_profile is Some && before.daemon.active_profile->0@ == name ==> {
            &&& effects_of(after.effects@).last() == EffectView::SaveState
            &&& after.daemon.suspended == before.daemon.suspended
            &&& after.daemon.audio_restore == before.daemon.audio_restore
            &&& after.profiles == before.profiles
        },
{
}

/// The status tells the state of the daemon, the job that is pending, and how many of the
/// displays are on.
pub proof fn status_tells_the_state(
    r: StatusInfo,
    e: Engine,
    outputs: Seq<Output>,
    version: Seq<char>,
    backend: Seq<char>,
    now: u128,
)
    requires
        status_told(r, e, outputs, version, backend, now),
    ensures
        r.version@ == version,
        r.backend@ == backend,
        r.active_profile == e.daemon.active_profile,
        r.suspended == e.daemon.suspended,
        r.drifted == e.drifted,
        r.pending is Some <==> e.pending is Some,
        e.pending is Some ==> r.pending->0.job_id == e.pending->0.id && r.pending->0.risk
            == e.pending->0.risk && r.pending->0.deadline_secs == seconds_left(
            e.pending->0.deadline,
            now,
        ),
        r.outputs_total == outputs.len(),
        (forall|i: int| 0 <= i < outputs.len() ==> (#[trigger] outputs[i]).enabled)
            ==> r.outputs_enabled == outputs.len(),
        (forall|i: int| 0 <= i < outputs.len() ==> !(#[trigger] outputs[i]).enabled)
            ==> r.outputs_enabled == 0,
{
    let p = output_enabled();
    if forall|i: int| 0 <= i < outputs.len() ==> (#[trigger] outputs[i]).enabled {
        filter_all(outputs, p);
    }
    if forall|i: int| 0 <= i < outputs.len() ==> !(#[trigger] outputs[i]).enabled {
        filter_none(outputs, p);
    }
}

/// One more display that is on counts as one more, and one that is off does not count.
pub proof fn displays_that_are_on_are_counted(outputs: Seq<Output>, o: Output)
    ensures
        outputs.push(o).filter(output_enabled()).len() == outputs.filter(output_enabled()).len()
            + if o.enabled {
            1int
        } else {
            0
        },
{
    filter_push(outputs, output_enabled(), o);
}

/// A profile that turns off a display that is on has what is around that display remembered
/// with it, and has all that written; one that turns none off has nothing written.
pub proof fn what_is_around_is_remembered_too(
    r: Result<ProfileChange, EngineError>,
    before: Engine,
    after: Engine,
    serial: String,
    outputs: Seq<Output>,
    name: Seq<char>,
    k: int,
    j: int,
)
    requires
        profile_result(r, before, after, serial, outputs, name),
        r is Ok,
        distinct_connectors(outputs),
        r->Ok_0.plan.outputs@.len() > 0,
        0 <= j < outputs.len(),
        outputs[j].identity.connector@
            == r->Ok_0.plan.outputs@.last().identity.connector@,
    ensures
        ({
            let plan = r->Ok_0.plan.outputs@;
            let n = plan.len() as int;
            let m = before.remembered;
            let off = !plan[n - 1].enabled && outputs[j].enabled;
            let slot = slot_for(
                remembered_through(plan, outputs, m.outputs@, n - 1),
                outputs[j].identity,
            );
            &&& off && k == slot ==> around_at(after.remembered.neighbors@, k) == neighbors_in(
                outputs,
                outputs[j].identity.connector@,
            )
            &&& !off || k != slot ==> around_at(after.remembered.neighbors@, k) == around_through(
                plan,
                outputs,
                m,
                n - 1,
                k,
            )
            &&& around_through(plan, outputs, m, 0, k) == around_at(m.neighbors@, k)
            &&& after.remembered.outputs@ == remembered_through(plan, outputs, m.outputs@, n)
            &&& off ==> effects_of(after.effects@).last() == EffectView::SaveRemembered
            &&& (forall|i: int| 0 <= i < n ==> (#[trigger] plan[i]).enabled) ==> effects_of(
                after.effects@,
            ) == effects_of(before.effects@)
        }),
{
    let plan = r->Ok_0.plan.outputs@;
    let n = plan.len() as int;
    what_a_profile_turns_off_is_remembered(plan, outputs, before.remembered.outputs@, n, j);
    let at = output_at(plan[n - 1].identity.connector@);
    assert forall|i: int| 0 <= i < j implies !at(outputs[i]) by {
        assert(outputs[i].identity.connector@ != outputs[j].identity.connector@);
    }
    first_where_is(outputs, at, j);
    assert(around_at(after.remembered.neighbors@, k) == around_through(
        plan,
        outputs,
        before.remembered,
        n,
        k,
    ));
}

/// A kept change is followed by the audio of the output that it switched. A reverted change
/// brings back the audio of the output that it had switched off, and nothing else.
pub proof fn audio_follows_what_was_decided(jobs: Seq<AudioJob>, p: Pending, keep: bool)
    requires
        audio_follow_up(jobs, p, keep),
        p.disabled is None || p.enabled is None,
    ensures
        p.disabled is Some && keep ==> jobs.len() == 1 && (jobs[0] matches AudioJob::AfterDisable {
            output,
            sink,
        } && same_output(output, p.disabled->0) && sink == p.sink),
        p.disabled is Some && !keep ==> jobs.len() == 1 && (jobs[0] matches AudioJob::AfterEnable {
            output,
        } && same_output(output, p.disabled->0)),
        p.enabled is Some && keep ==> jobs.len() == 1 && (jobs[0] matches AudioJob::AfterEnable {
            output,
        } && same_output(output, p.enabled->0)),
        p.enabled is Some && !keep ==> jobs.len() == 0,
        p.enabled is None && p.disabled is None ==> jobs.len() == 0,
{
}

} // verus!
