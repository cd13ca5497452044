//! Engine behavior against the mock backend, with a clock that the tests turn.

use nosignal::audio::{AudioController, FakeAudio};
use nosignal::backend::ApplyMode;
use nosignal::config::DaemonConfig;
use nosignal::engine::{
    apply_mode, deadline_within, needs_rebase, AudioJob, Effect, Engine, EngineError, Recovery,
    Resolution, Step,
};
use nosignal::error::BackendError;
use nosignal::fixtures;
use nosignal::ipc::{ApiErrorKind, DaemonEvent, ProfilesInfo, SetOpts, SetOutcome, StatusInfo};
use nosignal::layout::rebase_plan;
use nosignal::mock::MockBackend;
use nosignal::profile::{ProfileStore, ProfileWarning};
use nosignal::remembered::RememberedLayouts;
use nosignal::state::{AudioRestore, DaemonState};
use nosignal::topology::{LayoutPlan, Output, Topology};

const SECOND: u128 = 1_000_000_000;

struct Rig {
    engine: Engine,
    backend: MockBackend,
    audio: FakeAudio,
    now: u128,
    timers: Vec<(u128, u64)>,
    captures: Vec<(u128, String)>,
    events: Vec<DaemonEvent>,
    profile_saves: usize,
}

fn rig() -> Rig {
    Rig {
        engine: Engine::new(
            DaemonConfig::fallback(),
            ProfileStore::default(),
            RememberedLayouts::default(),
            DaemonState::default(),
        ),
        backend: MockBackend::new(fixtures::desk_with_tv()),
        audio: FakeAudio::default(),
        now: 0,
        timers: Vec::new(),
        captures: Vec::new(),
        events: Vec::new(),
        profile_saves: 0,
    }
}

impl Rig {
    fn unix(&self) -> u64 {
        1_000_000 + (self.now / SECOND) as u64
    }

    fn settle(&mut self) {
        for effect in self.engine.take_effects() {
            match effect {
                Effect::StartTimer { job_id, secs } => {
                    self.timers.push((self.now + u128::from(secs) * SECOND, job_id));
                }
                Effect::AbortTimer { job_id } => self.timers.retain(|t| t.1 != job_id),
                Effect::CaptureFallback { connector } => {
                    self.captures.push((self.now + 2 * SECOND, connector));
                }
                Effect::PreferSink { sink } => self.prefer(&sink),
                Effect::Emit(event) => self.events.push(event),
                Effect::SaveProfiles => self.profile_saves += 1,
                Effect::SaveState | Effect::SaveRemembered => {}
            }
        }
    }

    fn prefer(&mut self, sink: &str) {
        if self.audio.has_sink(sink) {
            assert!(self.audio.set_default_sink(sink));
        }
    }

    fn apply(&mut self, plan: &LayoutPlan, mode: ApplyMode) -> Result<(), BackendError> {
        let result = self.backend.apply(plan, mode);
        if needs_rebase(&result) {
            let fresh = self.backend.snapshot()?;
            return self.backend.apply(&rebase_plan(plan, &fresh), mode);
        }
        result
    }

    fn follow(&mut self, job: AudioJob) {
        match job {
            AudioJob::AfterDisable { output, sink } => {
                self.engine.audio_after_disable(&output, sink);
            }
            AudioJob::AfterEnable { output } => {
                let current = self.audio.default_sink();
                if let Some(sink) = self.engine.audio_after_enable(&output, current) {
                    self.prefer(&sink);
                }
            }
        }
    }

    fn set_enabled(
        &mut self,
        target: &str,
        enabled: Option<bool>,
        opts: SetOpts,
    ) -> Result<SetOutcome, EngineError> {
        let snapshot = self.backend.topology();
        let sink = self.audio.default_sink();
        let step = self
            .engine
            .set_enabled(snapshot, target, enabled, opts, false, sink)?
            .expect("coordinates fit");
        let outcome = match step {
            Step::Done(outcome) => outcome,
            Step::Apply(change) => {
                let plan = change.plan.clone();
                self.apply(&plan, apply_mode(change.timer)).map_err(EngineError::Backend)?;
                let (now, unix) = (self.now, self.unix());
                let (outcome, job) =
                    self.engine.change_applied(change, now, unix, "prior".to_string());
                if let Some(job) = job {
                    self.follow(job);
                }
                outcome
            }
        };
        self.settle();
        Ok(outcome)
    }

    fn resolve(&mut self, resolution: Option<Resolution>) -> bool {
        let Some(resolution) = resolution else { return false };
        let fresh = self.backend.topology();
        assert!(resolution.fits(&fresh));
        let plan = resolution.plan(&fresh);
        self.apply(&plan, ApplyMode::Persistent).unwrap();
        for job in resolution.audio_jobs() {
            self.follow(job);
        }
        self.engine.pending_resolved(resolution);
        self.settle();
        true
    }

    fn confirm_pending(&mut self) -> bool {
        let resolution = self.engine.confirm_pending();
        self.resolve(resolution)
    }

    fn wait(&mut self, secs: u128) {
        self.now += secs * SECOND;
        let due: Vec<(u128, u64)> =
            self.timers.iter().copied().filter(|t| t.0 <= self.now).collect();
        self.timers.retain(|t| t.0 > self.now);
        for (_, job) in due {
            let resolution = self.engine.timer_fired(job);
            self.resolve(resolution);
        }
        let due: Vec<(u128, String)> =
            self.captures.iter().filter(|c| c.0 <= self.now).cloned().collect();
        self.captures.retain(|c| c.0 > self.now);
        for (_, connector) in due {
            let sink = self.audio.default_sink();
            self.engine.fallback_captured(&connector, sink);
        }
        self.settle();
    }

    fn save_profile(&mut self, name: &str) {
        let snapshot = self.backend.topology();
        self.engine.save_profile(snapshot, name);
        self.engine.profile_saved(name);
        self.settle();
    }

    fn apply_profile(&mut self, name: &str) -> Result<SetOutcome, EngineError> {
        let snapshot = self.backend.topology();
        let change = self.engine.apply_profile(snapshot, name)?;
        if change.needed {
            let plan = change.plan.clone();
            self.apply(&plan, apply_mode(change.timer)).map_err(EngineError::Backend)?;
        }
        let (now, unix) = (self.now, self.unix());
        let outcome = self.engine.profile_applied(change, now, unix, "prior".to_string());
        self.settle();
        Ok(outcome)
    }

    fn delete_profile(&mut self, name: &str) -> bool {
        let removed = self.engine.delete_profile(name);
        self.engine.profile_deleted(name);
        self.settle();
        removed
    }

    fn startup(&mut self) {
        let snapshot = self.backend.topology();
        self.engine.note_connectors(&snapshot);
        let now = self.now;
        self.reassert(true, now);
    }

    fn reassert(&mut self, hotplug: bool, now: u128) {
        let snapshot = self.backend.topology();
        assert!(self.engine.reassert_within(snapshot.clone(), hotplug, now));
        if let Some(change) = self.engine.reassert(snapshot, hotplug, now) {
            if self.apply(&change.plan, apply_mode(change.timer)).is_ok() {
                let unix = self.unix();
                self.engine.reasserted(change, now, unix, "prior".to_string());
            }
        }
        self.settle();
    }

    fn handle_topology_event(&mut self) {
        let snapshot = self.backend.topology();
        let noted = self.engine.handle_topology_event(&snapshot);
        self.settle();
        if let Some(hotplug) = noted {
            let now = self.now;
            self.reassert(hotplug, now);
        }
    }

    fn list_profiles(&self) -> ProfilesInfo {
        self.engine.list_profiles(self.backend.topology())
    }

    fn status(&self) -> StatusInfo {
        self.engine.status(&self.backend.topology(), "0.1.0", "mock", self.now)
    }

    fn replug_tv(&mut self) {
        let mut tv =
            fixtures::output("HDMI-A-1", Some(fixtures::edid("SAM", "0x7201", "777")), true);
        tv.position = (3840, 0);
        self.backend.simulate_disconnect("HDMI-A-1");
        self.handle_topology_event();
        self.backend.simulate_connect(tv);
        self.handle_topology_event();
    }

    fn enabled(&self, connector: &str) -> bool {
        self.backend.topology().find_connector(connector).map(|o| o.enabled).unwrap_or(false)
    }
}

fn forced(revert_secs: Option<u64>) -> SetOpts {
    SetOpts { force: true, no_timer: false, revert_secs }
}

#[test]
fn routine_toggle_applies_immediately() {
    let mut r = rig();
    let out = r.set_enabled("TV", Some(false), SetOpts::default()).unwrap();
    assert!(matches!(out, SetOutcome::Applied { .. }));
    assert!(!r.enabled("HDMI-A-1"));

    // Idempotent.
    let out = r.set_enabled("TV", Some(false), SetOpts::default()).unwrap();
    assert!(matches!(out, SetOutcome::AlreadyInState));
}

#[test]
fn re_enable_restores_remembered_position() {
    let mut r = rig();
    r.set_enabled("TV", Some(false), SetOpts::default()).unwrap();
    r.set_enabled("TV", Some(true), SetOpts::default()).unwrap();
    let tv = r.backend.topology().find_connector("HDMI-A-1").cloned().unwrap();
    assert!(tv.enabled);
    assert_eq!(tv.position, (3840, 0), "remembered position restored");
}

#[test]
fn last_display_pending_auto_reverts_e1() {
    let mut r = rig();
    r.set_enabled("TV", Some(false), SetOpts::default()).unwrap();

    // Disabling DP-1 now hits the last-display guard.
    let refused = r.set_enabled("DP-1", Some(false), SetOpts::default()).unwrap();
    assert!(matches!(refused, SetOutcome::GuardRefused { .. }));

    let no_timer = r
        .set_enabled(
            "DP-1",
            Some(false),
            SetOpts { force: true, no_timer: true, revert_secs: None },
        )
        .unwrap();
    assert!(matches!(no_timer, SetOutcome::GuardRefused { .. }));

    let out = r.set_enabled("DP-1", Some(false), forced(None)).unwrap();
    let SetOutcome::Pending { deadline_secs, .. } = out else {
        panic!("expected pending, got {out:?}");
    };
    assert_eq!(deadline_secs, 20);
    assert!(!r.enabled("DP-1"));

    // Nobody confirms; the timer fires and the display comes back.
    r.wait(21);
    assert!(r.enabled("DP-1"));
}

#[test]
fn confirm_pending_keeps_the_change() {
    let mut r = rig();
    r.set_enabled("TV", Some(false), SetOpts::default()).unwrap();
    r.set_enabled("DP-1", Some(false), forced(Some(30))).unwrap();
    assert!(r.confirm_pending());
    r.wait(60);
    assert!(
        !r.enabled("DP-1"),
        "confirmed change must survive past the original deadline"
    );
}

#[test]
fn profile_reasserts_after_hotplug_e3() {
    let mut r = rig();
    // Save "tv-off" profile: capture with TV disabled.
    r.set_enabled("TV", Some(false), SetOpts::default()).unwrap();
    r.save_profile("tv-off");
    r.apply_profile("tv-off").unwrap();
    r.startup();

    // TV power-cycled: drops off and returns enabled (as compositors do).
    r.replug_tv();

    assert!(!r.enabled("HDMI-A-1"), "profile re-asserted: TV stays off");
}

#[test]
fn external_change_marks_drift_without_fighting_e4() {
    let mut r = rig();
    r.set_enabled("TV", Some(false), SetOpts::default()).unwrap();
    r.save_profile("tv-off");
    r.apply_profile("tv-off").unwrap();
    r.startup();
    let applies_before = r.backend.apply_count();

    // User re-enables the TV in GNOME Settings: same connector set, layout
    // change only.
    let mut outputs = r.backend.topology().outputs;
    let tv = outputs.iter_mut().find(|o| o.identity.connector == "HDMI-A-1").unwrap();
    tv.enabled = true;
    tv.mode = Some(fixtures::mode(3840, 2160, 60_000));
    r.backend.simulate_change(outputs);
    r.handle_topology_event();

    assert!(r.enabled("HDMI-A-1"), "daemon must not fight the user");
    assert_eq!(r.backend.apply_count(), applies_before);
    assert!(r.status().drifted);
}

#[test]
fn loop_guard_suspends_profile_e5() {
    let mut r = rig();
    r.set_enabled("TV", Some(false), SetOpts::default()).unwrap();
    r.save_profile("tv-off");
    r.apply_profile("tv-off").unwrap();
    r.startup();

    // A hostile compositor re-enables the TV on every hotplug, forever.
    for _ in 0..8 {
        r.replug_tv();
    }

    assert!(r.status().suspended, "loop guard must suspend, not fight forever");

    // Explicit re-apply clears the suspension.
    r.apply_profile("tv-off").unwrap();
    assert!(!r.status().suspended);
}

#[test]
fn audio_sink_recorded_and_restored_e10() {
    let mut r = rig();
    r.audio.state.default = Some("hdmi-sink".into());
    r.audio.state.sinks = vec!["hdmi-sink".into(), "analog".into()];

    r.set_enabled("TV", Some(false), SetOpts::default()).unwrap();
    // PipeWire fails over on its own.
    r.audio.state.default = Some("analog".into());
    r.wait(3); // fallback capture

    r.set_enabled("TV", Some(true), SetOpts::default()).unwrap();
    let calls = r.audio.state.set_calls.clone();
    assert_eq!(calls, vec!["hdmi-sink".to_string()], "sink restored");
}

#[test]
fn audio_not_restored_when_user_switched_meanwhile() {
    let mut r = rig();
    r.audio.state.default = Some("hdmi-sink".into());
    r.audio.state.sinks = vec!["hdmi-sink".into(), "analog".into(), "usb-dac".into()];

    r.set_enabled("TV", Some(false), SetOpts::default()).unwrap();
    r.audio.state.default = Some("analog".into());
    r.wait(3);

    // User deliberately picks a different sink while the TV is off.
    r.audio.state.default = Some("usb-dac".into());

    r.set_enabled("TV", Some(true), SetOpts::default()).unwrap();
    let calls = r.audio.state.set_calls.clone();
    assert!(calls.is_empty(), "user's choice must be respected");
}

#[test]
fn profiles_crud_and_active_persistence() {
    let mut r = rig();
    r.save_profile("desk");
    r.set_enabled("TV", Some(false), SetOpts::default()).unwrap();
    r.save_profile("movie-off");

    let info = r.list_profiles();
    assert_eq!(info.profiles.len(), 2);
    assert_eq!(info.active, None);

    r.apply_profile("desk").unwrap();
    assert!(r.enabled("HDMI-A-1"), "desk profile re-enables the TV");
    let info = r.list_profiles();
    assert_eq!(info.active.as_deref(), Some("desk"));

    assert!(r.delete_profile("movie-off"));
    assert!(!r.delete_profile("movie-off"));
    let info = r.list_profiles();
    assert_eq!(info.profiles.len(), 1);
}

#[test]
fn alias_attaches_to_snapshots() {
    let mut r = rig();
    let snapshot = r.backend.topology();
    r.engine.set_alias(snapshot, "cinema", "HDMI-A-1").unwrap();
    let topo = r.engine.snapshot(r.backend.topology());
    let tv = topo.find_connector("HDMI-A-1").unwrap();
    assert_eq!(tv.alias.as_deref(), Some("cinema"));

    // And resolves as a target.
    let out = r.set_enabled("cinema", Some(false), SetOpts::default()).unwrap();
    assert!(matches!(out, SetOutcome::Applied { .. }));
}

// -------------------------------------------------------------- more cases

#[test]
fn refusals_tell_why() {
    let mut r = rig();
    r.set_enabled("TV", Some(false), SetOpts::default()).unwrap();
    let SetOutcome::GuardRefused { reason } =
        r.set_enabled("DP-1", Some(false), SetOpts::default()).unwrap()
    else {
        panic!("expected a refusal");
    };
    assert_eq!(
        reason,
        "LastActiveDisplay: risky change requires the caller to acknowledge with force"
    );
    let opts = SetOpts { force: true, no_timer: true, revert_secs: Some(5) };
    let SetOutcome::GuardRefused { reason } =
        r.set_enabled("DP-1", Some(false), opts).unwrap()
    else {
        panic!("expected a refusal");
    };
    assert_eq!(
        reason,
        "LastActiveDisplay: the auto-revert timer is mandatory and cannot be disabled"
    );
}

#[test]
fn fullscreen_programs_hold_a_disable_back() {
    let mut r = rig();
    let step = r
        .engine
        .set_enabled(r.backend.topology(), "TV", Some(false), SetOpts::default(), true, None)
        .unwrap()
        .unwrap();
    let Step::Done(SetOutcome::GuardRefused { reason }) = step else {
        panic!("expected a refusal, got {step:?}");
    };
    assert!(reason.contains("fullscreen"));
    assert!(r.engine.remembered.outputs.is_empty());
    let step = r
        .engine
        .set_enabled(r.backend.topology(), "TV", Some(false), forced(None), true, None)
        .unwrap()
        .unwrap();
    assert!(matches!(step, Step::Apply(_)));
}

#[test]
fn unknown_targets_and_profiles_are_reported() {
    let mut r = rig();
    let err = r.set_enabled("VGA-9", None, SetOpts::default()).unwrap_err();
    assert_eq!(err.kind(), ApiErrorKind::NotFound);
    assert_eq!(err.message(), "no output matches 'VGA-9'");
    let err = r.apply_profile("nope").unwrap_err();
    assert_eq!(err.kind(), ApiErrorKind::NotFound);
    assert_eq!(err.message(), "no profile named 'nope'");
    let err = EngineError::Store("disk".into());
    assert_eq!(err.kind(), ApiErrorKind::Other);
    assert_eq!(err.message(), "state error: disk");
}

#[test]
fn a_routine_change_with_a_timer_is_temporary() {
    let mut r = rig();
    let opts = SetOpts { force: false, no_timer: false, revert_secs: Some(7) };
    let out = r.set_enabled("TV", None, opts).unwrap();
    assert!(matches!(out, SetOutcome::Pending { job_id: 1, deadline_secs: 7, .. }));
    let pending = r.status().pending.unwrap();
    assert_eq!((pending.job_id, pending.deadline_secs), (1, 7));
    assert_eq!(r.engine.daemon.pending.as_ref().unwrap().deadline_epoch, 1_000_007);
    r.wait(3);
    assert_eq!(r.status().pending.unwrap().deadline_secs, 4);
    r.wait(4);
    assert!(r.enabled("HDMI-A-1"));
    assert!(r.status().pending.is_none());
    assert!(r.engine.daemon.pending.is_none());
}

#[test]
fn an_old_timer_does_not_resolve_a_newer_job() {
    let mut r = rig();
    r.set_enabled("TV", Some(false), forced(Some(10))).unwrap();
    assert!(r.engine.timer_fired(99).is_none());
    assert!(r.engine.pending.is_some());
    let resolution = r.engine.revert_pending();
    assert!(r.resolve(resolution));
    assert!(r.enabled("HDMI-A-1"));
    assert!(!r.confirm_pending());
}

#[test]
fn a_stale_plan_is_rebased() {
    let mut r = rig();
    let snapshot = r.backend.topology();
    let step = r
        .engine
        .set_enabled(snapshot.clone(), "TV", Some(false), SetOpts::default(), false, None)
        .unwrap()
        .unwrap();
    let Step::Apply(change) = step else { panic!("expected a change") };
    // Another tool changes the layout before the plan is applied.
    r.backend.simulate_change(snapshot.outputs);
    r.apply(&change.plan, ApplyMode::Persistent).unwrap();
    assert!(!r.enabled("HDMI-A-1"));
}

#[test]
fn startup_deals_with_a_job_left_over() {
    let mut r = rig();
    assert!(matches!(r.engine.startup(5, None), Recovery::Leave));
    r.set_enabled("TV", Some(false), forced(Some(10))).unwrap();
    let prior = fixtures::desk_with_tv();
    let due = r.engine.daemon.pending.as_ref().unwrap().deadline_epoch;
    assert!(matches!(r.engine.startup(due, Some(prior.clone())), Recovery::Revert(_)));
    assert!(matches!(r.engine.startup(due, None), Recovery::Forget));
    assert!(matches!(
        r.engine.startup(due - 4, Some(prior)),
        Recovery::Rearm { secs: 4, .. }
    ));
    assert!(matches!(r.engine.startup(due - 4, None), Recovery::Leave));
    r.engine.forget_pending();
    assert!(r.engine.daemon.pending.is_none());
}

#[test]
fn a_replugged_display_moves_its_profile_entry() {
    let mut r = rig();
    r.save_profile("desk");
    let mut outputs: Vec<Output> = r.backend.topology().outputs;
    outputs[1].identity.connector = "HDMI-A-2".into();
    outputs[1].enabled = false;
    r.backend.simulate_change(outputs);
    let out = r.apply_profile("desk").unwrap();
    let SetOutcome::Applied { warnings } = out else { panic!("expected an apply") };
    assert_eq!(
        warnings,
        vec![ProfileWarning::ConnectorMigrated {
            stored: "HDMI-A-1".into(),
            live: "HDMI-A-2".into(),
        }]
    );
    let stored = r.engine.profiles.find("desk").unwrap();
    assert_eq!(stored.outputs[1].connector, "HDMI-A-2");
    assert_eq!(r.profile_saves, 1);
    r.apply_profile("desk").unwrap();
    assert_eq!(r.profile_saves, 1, "nothing moved, nothing to write");
}

#[test]
fn a_hotplug_moves_the_entries_of_the_active_profile() {
    let mut r = rig();
    r.set_enabled("TV", Some(false), SetOpts::default()).unwrap();
    r.save_profile("tv-off");
    r.apply_profile("tv-off").unwrap();
    r.startup();
    // The TV comes back at another connector, switched on.
    let mut tv =
        fixtures::output("HDMI-A-2", Some(fixtures::edid("SAM", "0x7201", "777")), true);
    tv.position = (3840, 0);
    r.backend.simulate_disconnect("HDMI-A-1");
    r.handle_topology_event();
    r.backend.simulate_connect(tv);
    r.handle_topology_event();
    assert!(!r.enabled("HDMI-A-2"));
    let stored = r.engine.profiles.find("tv-off").unwrap();
    assert_eq!(stored.outputs[1].connector, "HDMI-A-2");
    assert_eq!(r.profile_saves, 1);
}

#[test]
fn off_and_on_gives_the_exact_layout_back() {
    for order in [["DP-1", "HDMI-A-1"], ["HDMI-A-1", "DP-1"]] {
        let mut r = rig();
        let before = r.backend.topology().outputs;
        r.set_enabled(order[0], Some(false), SetOpts::default()).unwrap();
        r.set_enabled(order[0], Some(true), SetOpts::default()).unwrap();
        let after = r.backend.topology().outputs;
        for (was, is) in before.iter().zip(&after) {
            assert_eq!(is.position, was.position);
            assert_eq!(is.primary, was.primary);
            assert_eq!(is.mode, was.mode);
        }
        assert_eq!((after[0].position, after[1].position), ((0, 0), (3840, 0)));
        assert!(after[0].primary && !after[1].primary);
    }
}

#[test]
fn a_display_keeps_its_place_when_the_others_change_places() {
    let mut r = rig();
    let mut third =
        fixtures::output("DP-2", Some(fixtures::edid("DEL", "0xa0b1", "67890")), true);
    third.position = (7680, 0);
    r.backend.simulate_connect(third);
    r.set_enabled("DP-2", Some(false), SetOpts::default()).unwrap();
    let mut outputs = r.backend.topology().outputs;
    outputs[0].position = (3840, 0);
    outputs[1].position = (0, 0);
    r.backend.simulate_change(outputs);
    r.set_enabled("DP-2", Some(true), SetOpts::default()).unwrap();
    let places: Vec<(i32, i32)> =
        r.backend.topology().outputs.iter().map(|o| o.position).collect();
    assert_eq!(places, vec![(3840, 0), (0, 0), (7680, 0)]);
}

#[test]
fn a_display_follows_neighbors_that_moved_together() {
    let mut r = rig();
    let mut third =
        fixtures::output("DP-2", Some(fixtures::edid("DEL", "0xa0b1", "67890")), true);
    third.position = (7680, 0);
    r.backend.simulate_connect(third);
    // Both others move to the left by one width while the first is off.
    r.set_enabled("DP-1", Some(false), SetOpts::default()).unwrap();
    let places: Vec<(i32, i32)> =
        r.backend.topology().outputs.iter().skip(1).map(|o| o.position).collect();
    assert_eq!(places, vec![(0, 0), (3840, 0)]);
    r.set_enabled("DP-1", Some(true), SetOpts::default()).unwrap();
    let places: Vec<(i32, i32)> =
        r.backend.topology().outputs.iter().map(|o| o.position).collect();
    assert_eq!(places, vec![(0, 0), (3840, 0), (7680, 0)]);
}

#[test]
fn a_reassert_that_would_blank_the_desktop_reverts() {
    let mut r = rig();
    r.set_enabled("TV", Some(false), SetOpts::default()).unwrap();
    r.save_profile("tv-off");
    r.apply_profile("tv-off").unwrap();
    r.startup();
    // Only the TV is left, and it is on.
    r.backend.simulate_disconnect("DP-1");
    r.replug_tv();
    let pending = r.status().pending.expect("a blanking layout is pending");
    assert_eq!(pending.deadline_secs, 20);
    assert!(!r.enabled("HDMI-A-1"));
    assert!(r.engine.pending.as_ref().unwrap().prior.outputs[0].enabled);
    r.wait(21);
    assert!(r.enabled("HDMI-A-1"), "nobody confirmed");
    assert!(r.status().pending.is_none());
}

#[test]
fn a_routine_reassert_stays() {
    let mut r = rig();
    r.set_enabled("TV", Some(false), SetOpts::default()).unwrap();
    r.save_profile("tv-off");
    r.apply_profile("tv-off").unwrap();
    r.startup();
    r.replug_tv();
    assert!(r.status().pending.is_none());
    assert!(!r.enabled("HDMI-A-1"));
}

#[test]
fn the_sink_of_a_confirmed_change_is_the_one_from_before() {
    let mut r = rig();
    r.audio.state.default = Some("hdmi-sink".into());
    r.audio.state.sinks = vec!["hdmi-sink".into(), "analog".into()];
    r.set_enabled("TV", Some(false), forced(Some(10))).unwrap();
    // The audio server fails over before the change is confirmed.
    r.audio.state.default = Some("analog".into());
    assert!(r.confirm_pending());
    r.wait(3);
    assert_eq!(r.engine.daemon.audio_restore[0].sink, "hdmi-sink");
    r.set_enabled("TV", Some(true), SetOpts::default()).unwrap();
    assert_eq!(r.audio.state.set_calls, vec!["hdmi-sink".to_string()]);
}

#[test]
fn a_sink_follows_the_panel_rather_than_the_connector() {
    let mut r = rig();
    let edid = |serial: &str| Some(fixtures::edid("SAM", "0x7201", serial));
    let entry = |connector: &str, serial: &str, sink: &str| AudioRestore {
        connector: connector.into(),
        edid: edid(serial),
        sink: sink.into(),
        fallback: None,
    };
    r.engine.daemon.audio_restore =
        vec![entry("HDMI-A-2", "", "other-sink"), entry("HDMI-A-1", "777", "tv-sink")];
    r.engine.daemon.audio_restore[0].edid = None;
    let moved = fixtures::output("HDMI-A-2", edid("777"), true);
    assert_eq!(r.engine.audio_after_enable(&moved, None).as_deref(), Some("tv-sink"));
    assert_eq!(r.engine.audio_after_enable(&moved, None).as_deref(), Some("other-sink"));
    assert!(r.engine.audio_after_enable(&moved, None).is_none());
}

#[test]
fn an_alias_is_replaced_for_its_display() {
    let mut r = rig();
    for name in ["telly", "cinema"] {
        let snapshot = r.backend.topology();
        r.engine.set_alias(snapshot, name, "HDMI-A-1").unwrap();
    }
    let topo = r.engine.snapshot(r.backend.topology());
    let tv = topo.find_connector("HDMI-A-1").unwrap();
    assert_eq!(tv.alias.as_deref(), Some("cinema"));
    assert_eq!(r.engine.config.aliases.len(), 1);
}

#[test]
fn deadlines_must_lie_on_the_clocks() {
    assert!(deadline_within(20, 0, 1_000_000));
    assert!(!deadline_within(20, 0, u64::MAX - 19));
    assert!(!deadline_within(1, u128::MAX - 5, 0));
}

#[test]
fn events_tell_what_happened() {
    let mut r = rig();
    r.save_profile("desk");
    r.set_enabled("TV", Some(false), forced(Some(10))).unwrap();
    assert!(r.confirm_pending());
    r.apply_profile("desk").unwrap();
    let told: Vec<String> = r.events.iter().map(|e| format!("{e:?}")).collect();
    assert_eq!(
        told,
        vec![
            "PendingChange { job_id: 1, seconds_remaining: 10 }",
            "PendingResolved { job_id: 1, kept: true }",
            "ProfileApplied { name: \"desk\" }",
        ]
    );
}

#[test]
fn events_during_a_pending_change_are_ignored() {
    let mut r = rig();
    r.set_enabled("TV", Some(false), forced(Some(10))).unwrap();
    let snapshot: Topology = r.backend.topology();
    assert!(r.engine.handle_topology_event(&snapshot).is_none());
}
