use nosignal::audio::{printed_sink, sink_listed};
use nosignal::cli::{
    counts_text, daemon_text, done_text, enable_hint, is_yes, list_header, list_row,
    needs_acknowledgement, outcome_step, risk_text, set_enabled, settled_text, status_text,
    CliError, DirectStep, OutcomeStep, ToggleOpts,
};
use nosignal::config::DaemonConfig;
use nosignal::ddc::{self, DdcError, DisplayInfo};
use nosignal::error::{BackendError, ResolveError};
use nosignal::fixtures;
use nosignal::guards::RiskClass;
use nosignal::hotkeys::{activated_profile, shortcuts};
use nosignal::identity::OutputIdentity;
use nosignal::ipc::{
    parse_request, request_word, ApiErrorKind, Envelope, IpcError, PendingInfo, ProfileInfo,
    ProfilesInfo, SetOpts, SetOutcome, StatusInfo,
};
use nosignal::json::parse_json;
use nosignal::remembered::RememberedLayouts;
use nosignal::rpc::{call_method, dbus_switch, event_line, response_line, route, Request};
use nosignal::select::{detect, BackendKind, Platform};
use nosignal::topology::Topology;
use nosignal::tray::{build_menu, menu_action, tray_opts, window_request, MenuAction, MenuEntry};

fn toggle(force: bool, no_timer: bool, timer: Option<u64>) -> ToggleOpts {
    ToggleOpts { force, no_timer, timer }
}

fn with_tv_off() -> Topology {
    let mut topo = fixtures::desk_with_tv();
    topo.outputs[1].enabled = false;
    topo
}

// ---------------------------------------------------------------------- cli

#[test]
fn direct_toggle_of_the_tv_is_routine() {
    let topo = fixtures::desk_with_tv();
    let none = RememberedLayouts::default();
    let decision = set_enabled(&topo, "tv", None, toggle(false, false, None), &none)
        .unwrap()
        .unwrap();
    let memory = decision.remember.unwrap();
    assert_eq!(memory.planned.position, (3840, 0));
    assert_eq!(memory.around.len(), 1);
    assert_eq!(memory.around[0].identity.connector, "DP-1");
    assert_eq!(memory.around[0].position, (0, 0));
    let DirectStep::Apply(change) = decision.step else { panic!("expected a change") };
    assert!(!change.want && !change.ask);
    assert_eq!(change.timer, None);
    assert_eq!(change.risk, RiskClass::Routine);
    assert!(!change.plan.outputs[1].enabled);

    let decision = set_enabled(&topo, "tv", Some(true), ToggleOpts::for_on(), &none)
        .unwrap()
        .unwrap();
    assert!(decision.remember.is_none());
    let DirectStep::Already(text) = decision.step else { panic!("expected no change") };
    assert_eq!(text, "HDMI-A-1 is already enabled");
    assert_eq!(done_text("HDMI-A-1", false), "HDMI-A-1 is now disabled");
}

#[test]
fn direct_blackout_needs_a_timer() {
    let topo = with_tv_off();
    let none = RememberedLayouts::default();
    let decide = |opts: ToggleOpts| {
        set_enabled(&topo, "DP-1", Some(false), opts, &none).unwrap().unwrap().step
    };
    let DirectStep::Refuse(err) = decide(toggle(true, true, Some(9))) else {
        panic!("expected a refusal")
    };
    assert_eq!(err.exit_code(), 3);
    assert_eq!(
        err.message(),
        "refusing --no-timer: this disables your LAST active display; the desktop will go \
         dark until the change is confirmed or auto-reverts — the auto-revert timer is \
         mandatory here"
    );
    let DirectStep::Apply(change) = decide(toggle(false, false, None)) else {
        panic!("expected a change")
    };
    assert!(change.ask);
    assert_eq!(change.timer, Some(20));
    let DirectStep::Apply(change) = decide(toggle(true, false, Some(9))) else {
        panic!("expected a change")
    };
    assert!(!change.ask);
    assert_eq!(change.timer, Some(9));
}

#[test]
fn direct_enable_goes_to_the_right_edge() {
    let topo = with_tv_off();
    let none = RememberedLayouts::default();
    let decision =
        set_enabled(&topo, "TV", Some(true), ToggleOpts::for_on(), &none).unwrap().unwrap();
    let DirectStep::Apply(change) = decision.step else { panic!("expected a change") };
    assert_eq!(change.plan.outputs[1].position, (3840, 0));
    assert!(change.plan.outputs[1].enabled);
}

#[test]
fn direct_switch_out_of_range_is_not_planned() {
    let mut topo = with_tv_off();
    topo.outputs[0].position = (i32::MAX, 0);
    let none = RememberedLayouts::default();
    let decision = set_enabled(&topo, "TV", Some(true), ToggleOpts::for_on(), &none).unwrap();
    assert!(decision.is_none());
}

#[test]
fn cli_errors_have_codes_and_hints() {
    let err = set_enabled(
        &fixtures::desk_with_tv(),
        "nope",
        None,
        toggle(false, false, None),
        &RememberedLayouts::default(),
    )
    .unwrap_err();
    assert_eq!(err.exit_code(), 1);
    assert!(err.hint().unwrap().contains("DisplayPort monitor in deep sleep"));
    let err = CliError::Resolve(ResolveError::Ambiguous {
        target: "x".into(),
        candidates: vec!["a".into()],
    });
    assert_eq!(err.exit_code(), 2);
    assert!(err.hint().is_none());

    let err = enable_hint(BackendError::Server("gone".into()), true);
    assert_eq!(err.hint(), Some("wake the monitor with its power button and retry"));
    assert_eq!(
        err.message(),
        "output 'display server error: gone' did not respond; wake the monitor (power \
         button) and retry"
    );
    let err = enable_hint(BackendError::Server("gone".into()), false);
    assert_eq!(err.message(), "display server error: gone");
}

#[test]
fn ipc_errors_keep_their_exit_codes() {
    let api = |kind: ApiErrorKind| IpcError::Api { kind, message: "m".into() };
    assert_eq!(CliError::from_ipc(api(ApiErrorKind::Ambiguous)).exit_code(), 2);
    assert_eq!(CliError::from_ipc(api(ApiErrorKind::Guard)).exit_code(), 3);
    assert_eq!(CliError::from_ipc(api(ApiErrorKind::Backend)).exit_code(), 1);
    let err = CliError::from_ipc(IpcError::Unreachable("x".into()));
    assert_eq!(err.message(), "daemon not reachable: x");
    let err = CliError::from_ipc(IpcError::Protocol("x".into()));
    assert_eq!(err.message(), "protocol error: x");
}

#[test]
fn the_list_is_aligned() {
    assert_eq!(
        list_header(),
        format!(
            "{:<12} {:<28} {:<5} {:<20} {:<12} FLAGS",
            "CONNECTOR", "NAME", "STATE", "MODE", "POSITION"
        )
    );
    let mut topo = fixtures::desk_with_tv();
    topo.outputs[1].mode = None;
    topo.outputs[1].enabled = false;
    topo.outputs[0].builtin = true;
    assert_eq!(
        list_row(&topo.outputs[0]),
        format!(
            "{:<12} {:<28} {:<5} {:<20} {:<12} {}",
            "DP-1", "Mock DP-1", "on", "3840x2160@60.000", "0,0", "primary,builtin"
        )
    );
    assert_eq!(
        list_row(&topo.outputs[1]),
        format!(
            "{:<12} {:<28} {:<5} {:<20} {:<12} {}",
            "HDMI-A-1", "Mock HDMI-A-1 [TV]", "off", "-", "-", ""
        )
    );
    topo.outputs[1].display_name = "ü".repeat(30);
    topo.outputs[1].alias = None;
    assert!(list_row(&topo.outputs[1]).contains(&format!("{} off", "ü".repeat(30))));
}

#[test]
fn status_lines_are_told() {
    let lines = status_text("mock", &with_tv_off());
    assert_eq!(
        lines,
        vec![
            "backend:  mock",
            "outputs:  2 connected, 1 enabled",
            "  DP-1         on",
            "  HDMI-A-1     off",
        ]
    );
    assert_eq!(counts_text(3, 0), "outputs:  3 connected, 0 enabled");
    let mut status = StatusInfo {
        version: "0.1.0".into(),
        backend: "mock".into(),
        active_profile: Some("desk".into()),
        suspended: true,
        drifted: true,
        pending: Some(PendingInfo { job_id: 4, deadline_secs: 12, risk: RiskClass::Routine }),
        outputs_total: 2,
        outputs_enabled: 1,
    };
    assert_eq!(
        daemon_text(&status),
        vec![
            "daemon:   running (v0.1.0)",
            "backend:  mock",
            "outputs:  2 connected, 1 enabled",
            "profile:  desk (drifted, SUSPENDED by loop guard)",
            "pending:  job 4 auto-reverts in 12s — `nosignal confirm` to keep",
        ]
    );
    status.active_profile = None;
    status.pending = None;
    assert_eq!(daemon_text(&status)[3], "profile:  none active");
    assert_eq!(daemon_text(&status).len(), 4);
}

#[test]
fn answers_and_acknowledgements() {
    assert!(is_yes("y\n") && is_yes(" Y ") && is_yes("yes\r\n"));
    assert!(!is_yes("") && !is_yes("YES") && !is_yes("n"));
    let refused = SetOutcome::GuardRefused { reason: "acknowledge with force".into() };
    assert!(needs_acknowledgement(&refused, false));
    assert!(!needs_acknowledgement(&refused, true));
    let final_no = SetOutcome::GuardRefused { reason: "no".into() };
    assert!(!needs_acknowledgement(&final_no, false));
    assert!(!needs_acknowledgement(&SetOutcome::AlreadyInState, false));
    assert_eq!(risk_text(RiskClass::Routine), "routine change");
}

// ------------------------------------------------------------------- ipc/rpc

#[test]
fn outcomes_are_told() {
    let pending = SetOutcome::Pending {
        job_id: 7,
        deadline_secs: 20,
        risk: RiskClass::LastActiveDisplay,
        warnings: vec![],
    };
    match outcome_step(pending) {
        OutcomeStep::Await { notice, secs } => {
            assert_eq!(secs, 20);
            assert_eq!(
                notice,
                "applied temporarily (LastActiveDisplay) — press Enter to keep, or run `nosignal confirm`"
            );
        }
        other => panic!("{other:?}"),
    }
    match outcome_step(SetOutcome::AlreadyInState) {
        OutcomeStep::Report { warnings, text } => {
            assert!(warnings.is_empty());
            assert_eq!(text, "already in the requested state");
        }
        other => panic!("{other:?}"),
    }
    match outcome_step(SetOutcome::Applied { warnings: vec![] }) {
        OutcomeStep::Report { text, .. } => assert_eq!(text, "done"),
        other => panic!("{other:?}"),
    }
    match outcome_step(SetOutcome::GuardRefused { reason: "no".into() }) {
        OutcomeStep::Refuse(e) => assert_eq!(e.exit_code(), 3),
        other => panic!("{other:?}"),
    }
    assert_eq!(settled_text(true), "kept");
    assert_eq!(settled_text(false), "auto-reverted by the daemon");
}

#[test]
fn request_words_round_trip() {
    for want in [Some(true), Some(false), None] {
        assert_eq!(parse_request(request_word(want)), Some(want));
    }
    assert_eq!(parse_request("ON"), None);
}

#[test]
fn envelopes_open() {
    assert_eq!(Envelope::Success(3).into_result().unwrap(), 3);
    let failed: Envelope<u8> =
        Envelope::Failure { kind: ApiErrorKind::Guard, message: "no".into() };
    assert_eq!(failed.into_result().unwrap_err().message(), "no");
}

#[test]
fn methods_are_routed() {
    let params = parse_json(
        r#"{"target": "TV", "mode": "toggle", "name": "desk", "alias": "cinema"}"#,
    )
    .unwrap();
    let opts = SetOpts { force: true, no_timer: false, revert_secs: Some(3) };
    let told = |method: &str| format!("{:?}", route(method, &params, None).unwrap());
    for (method, want) in [
        ("list_outputs", "ListOutputs"),
        ("confirm_pending", "ConfirmPending"),
        ("revert_pending", "RevertPending"),
        ("list_profiles", "ListProfiles"),
        ("apply_profile", "ApplyProfile { name: \"desk\" }"),
        ("save_profile", "SaveProfile { name: \"desk\" }"),
        ("delete_profile", "DeleteProfile { name: \"desk\" }"),
        ("set_alias", "SetAlias { alias: \"cinema\", target: \"TV\" }"),
        ("get_status", "GetStatus"),
        ("quit", "Quit"),
    ] {
        assert_eq!(told(method), want);
    }
    let Request::SetOutputEnabled { target, enabled, opts: given } =
        route("set_output_enabled", &params, Some(Ok(opts))).unwrap()
    else {
        panic!("expected a switch");
    };
    assert_eq!((target.as_str(), enabled, given), ("TV", None, opts));
}

#[test]
fn bad_requests_tell_what_is_wrong() {
    let refuse = |method: &str, params: &str, opts: Option<Result<SetOpts, String>>| {
        route(method, &parse_json(params).unwrap(), opts).unwrap_err().message()
    };
    assert_eq!(refuse("fly", "{}", None), "state error: unknown method 'fly'");
    assert_eq!(
        refuse("apply_profile", r#"{"name": 3}"#, None),
        "state error: missing string param 'name'"
    );
    assert_eq!(
        refuse("set_output_enabled", "{}", None),
        "state error: missing string param 'target'"
    );
    assert_eq!(
        refuse("set_output_enabled", r#"{"target": "x"}"#, None),
        "state error: missing string param 'mode'"
    );
    assert_eq!(
        refuse("set_output_enabled", r#"{"target": "x", "mode": "up"}"#, None),
        "state error: bad mode 'up'"
    );
    assert_eq!(
        refuse(
            "set_output_enabled",
            r#"{"target": "x", "mode": "on"}"#,
            Some(Err("nope".into()))
        ),
        "state error: bad opts: nope"
    );
    assert_eq!(
        dbus_switch("x".into(), "up", Ok(SetOpts::default())).unwrap_err().message(),
        "state error: bad mode 'up' (expected on|off|toggle)"
    );
    assert_eq!(
        dbus_switch("x".into(), "on", Err("e".into())).unwrap_err().message(),
        "state error: bad opts: e"
    );
    assert!(dbus_switch("x".into(), "off", Ok(SetOpts::default())).is_ok());
}

#[test]
fn pipe_lines_are_framed() {
    assert_eq!(response_line("7", "{\"a\":1}"), "{\"id\":7,\"payload\":{\"a\":1}}\n");
    assert_eq!(event_line("\"x\""), "{\"event\":\"x\"}\n");
    assert_eq!(call_method(&parse_json(r#"{"method": "quit"}"#).unwrap()), "quit");
    assert_eq!(call_method(&parse_json(r#"{"method": 1}"#).unwrap()), "");
}

// ------------------------------------------------------------------- config

#[test]
fn aliases_attach_by_edid_first() {
    let mut config = DaemonConfig::fallback();
    assert_eq!(config.revert_secs, 20);
    let mut topo = fixtures::desk_with_tv();
    config.set_alias("left", &OutputIdentity::new("HDMI-A-1", None));
    let moved = OutputIdentity::new("HDMI-A-9", topo.outputs[1].identity.edid.clone());
    config.set_alias("cinema", &moved);
    config.attach_aliases(&mut topo);
    assert_eq!(topo.outputs[1].alias.as_deref(), Some("cinema"));
    config.set_alias("cinema", &topo.outputs[0].identity);
    assert_eq!(config.aliases.len(), 2, "an alias names one output");
}

#[test]
fn displays_at_one_connector_keep_their_own_aliases() {
    let mut config = DaemonConfig::fallback();
    let panel = |serial: &str| {
        OutputIdentity::new("HDMI-A-1", Some(fixtures::edid("SAM", "0x7201", serial)))
    };
    let names = |config: &DaemonConfig| -> Vec<String> {
        config.aliases.iter().map(|a| a.name.clone()).collect()
    };
    config.set_alias("tv", &panel("1"));
    config.set_alias("cinema", &panel("2"));
    assert_eq!(names(&config), vec!["tv", "cinema"]);
    for (serial, alias) in [("1", "tv"), ("2", "cinema")] {
        let mut topo = fixtures::desk_with_tv();
        topo.outputs[1].identity = panel(serial);
        config.attach_aliases(&mut topo);
        assert_eq!(topo.outputs[1].alias.as_deref(), Some(alias));
    }
    // Another name for the first panel, which has moved.
    let moved = OutputIdentity::new("DP-3", panel("1").edid);
    config.set_alias("telly", &moved);
    assert_eq!(names(&config), vec!["cinema", "telly"]);
}

#[test]
fn the_alias_of_a_connector_is_replaced() {
    let mut config = DaemonConfig::fallback();
    config.set_alias("tv", &OutputIdentity::new("HDMI-A-1", None));
    config.set_alias("desk", &OutputIdentity::new("DP-1", None));
    config.set_alias("cinema", &OutputIdentity::new("HDMI-A-1", None));
    let names: Vec<&str> = config.aliases.iter().map(|a| a.name.as_str()).collect();
    assert_eq!(names, vec!["desk", "cinema"]);
    assert_eq!(config.aliases[1].identity(), OutputIdentity::new("HDMI-A-1", None));
}

// ---------------------------------------------------------------------- ddc

#[test]
fn ddc_displays_are_matched() {
    let id = OutputIdentity::new("DP-1", Some(fixtures::edid("DEL", "0xa0b1", "12345")));
    let by_name = |maker: &str, serial: &str| DisplayInfo {
        edid_data: Some(vec![0; 4]),
        manufacturer_id: Some(maker.into()),
        serial_number: Some(serial.into()),
    };
    assert!(ddc::matches_identity(&by_name("del", "12345"), &id));
    assert!(!ddc::matches_identity(&by_name("del", "1"), &id));
    assert!(!ddc::matches_identity(&by_name("sam", "12345"), &id));
    let unnamed = OutputIdentity::new("DP-1", None);
    assert!(!ddc::matches_identity(&by_name("del", "12345"), &unnamed));

    // A readable EDID decides alone.
    let mut bytes = vec![0u8; 128];
    bytes[..8].copy_from_slice(&[0x00, 0xFF, 0xFF, 0xFF, 0xFF, 0xFF, 0xFF, 0x00]);
    bytes[8] = 0x10;
    bytes[9] = 0xac;
    bytes[10] = 0xb1;
    bytes[11] = 0xa0;
    bytes[12..16].copy_from_slice(&12345u32.to_le_bytes());
    let by_edid = DisplayInfo {
        edid_data: Some(bytes),
        manufacturer_id: Some("SAM".into()),
        serial_number: None,
    };
    assert!(ddc::matches_identity(&by_edid, &id));

    let list = vec![by_name("sam", "1"), by_edid];
    assert_eq!(ddc::find(&list, &id).unwrap(), 1);
    let err = ddc::find(&list, &unnamed).unwrap_err();
    assert_eq!(err.message(), "no DDC/CI-capable display matches DP-1");
    assert_eq!(DdcError::Comm("x".into()).message(), "DDC/CI communication failed: x");
    assert_eq!(
        DdcError::Unsupported.message(),
        "DDC/CI is not supported on this platform"
    );
    assert_eq!((ddc::VCP_POWER_MODE, ddc::POWER_SOFT_OFF), (0xD6, 4));
}

// ----------------------------------------------------------- tray and hotkeys

fn info(name: &str, hotkey: Option<&str>, active: bool) -> ProfileInfo {
    ProfileInfo {
        name: name.into(),
        hotkey: hotkey.map(String::from),
        active,
        drifted: false,
    }
}

#[test]
fn the_tray_menu_shows_outputs_and_profiles() {
    let topo = with_tv_off();
    let profiles = ProfilesInfo {
        profiles: vec![info("desk", None, true), info("movie", None, false)],
        active: Some("desk".into()),
        suspended: false,
    };
    let shown: Vec<String> = build_menu(Some(&topo), Some(&profiles))
        .iter()
        .map(|e| match e {
            MenuEntry::Check { id, label, checked } => format!("{id}|{label}|{checked}"),
            MenuEntry::Item { id, label } => format!("{id}|{label}"),
            MenuEntry::Separator => "-".to_string(),
        })
        .collect();
    assert_eq!(
        shown,
        vec![
            "output:DP-1|DP-1|true",
            "output:HDMI-A-1|TV (HDMI-A-1)|false",
            "-",
            "profile:desk|● desk",
            "profile:movie|  movie",
            "-",
            "open|Open NoSignal",
            "quit|Quit",
        ]
    );
    assert_eq!(build_menu(None, None).len(), 2);
}

#[test]
fn tray_clicks_are_understood() {
    assert!(matches!(menu_action("open"), MenuAction::Open));
    assert!(matches!(menu_action("quit"), MenuAction::Quit));
    assert!(matches!(menu_action("output:DP-1"), MenuAction::Toggle(c) if c == "DP-1"));
    assert!(matches!(menu_action("profile:a:b"), MenuAction::Apply(n) if n == "a:b"));
    assert!(matches!(menu_action("other"), MenuAction::Ignore));
    assert!(tray_opts().force && !tray_opts().no_timer);
    assert_eq!(window_request("on"), Some(true));
    assert_eq!(window_request("off"), Some(false));
    assert_eq!(window_request("?"), None);
}

#[test]
fn hotkeys_bind_profiles() {
    let list = shortcuts(&vec![
        info("a", None, false),
        info("movie", Some("<Super>F9"), false),
    ]);
    assert_eq!(list.len(), 1);
    assert_eq!(list[0].id, "profile-movie");
    assert_eq!(list[0].description, "Apply NoSignal profile 'movie'");
    assert_eq!(list[0].trigger, "<Super>F9");
    assert_eq!(activated_profile(&list[0].id).as_deref(), Some("movie"));
    assert!(activated_profile("other").is_none());
}

// ------------------------------------------------------------ select, audio

#[test]
fn the_backend_is_detected() {
    assert_eq!(
        detect(None, "ubuntu:gnome", Platform::Linux).unwrap(),
        BackendKind::Gnome,
        "desktop names are compared in upper case"
    );
    assert_eq!(detect(Some("mock"), "", Platform::Windows).unwrap(), BackendKind::Mock);
    assert_eq!(detect(Some("gnome"), "", Platform::Linux).unwrap(), BackendKind::Gnome);
    let refuse = |name: Option<&str>, desktop: &str, platform: Platform| {
        detect(name, desktop, platform).unwrap_err().message()
    };
    assert_eq!(
        refuse(Some("gnome"), "", Platform::Windows),
        "backend unavailable: unknown backend 'gnome' (NOSIGNAL_BACKEND)"
    );
    assert!(refuse(None, "KDE", Platform::Linux).contains("XDG_CURRENT_DESKTOP='KDE'"));
    assert!(refuse(None, "", Platform::Windows).contains("arrives in M4"));
    assert!(refuse(None, "", Platform::Other).contains("CONTRIBUTING.md"));
}

#[test]
fn pactl_output_is_read() {
    assert_eq!(printed_sink("hdmi-sink\n").as_deref(), Some("hdmi-sink"));
    assert_eq!(printed_sink(" \n"), None);
    let sinks = "0\thdmi-sink\tmodule\n1\tanalog\tmodule\n";
    assert!(sink_listed(sinks, "analog"));
    assert!(!sink_listed(sinks, "module"));
    assert!(!sink_listed(sinks, ""));
}
