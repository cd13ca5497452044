use nosignal::edid::parse;
use nosignal::error::ResolveError;
use nosignal::guards::{assess, RiskClass};
use nosignal::identity::{resolve_identity, resolve_target, EdidId, OutputIdentity};
use nosignal::layout::{compact_horizontal, normalize, rebase_plan, restore_plan};
use nosignal::mode_spec::ModeSpec;
use nosignal::profile::{Profile, ProfileOutput, ProfileStore, ProfileWarning, StoreError};
use nosignal::remembered::{neighbors_of, RememberedLayouts};
use nosignal::topology::{
    connector_is_builtin, LayoutPlan, Mode, Output, PlannedOutput, Scale, Topology, Transform,
};
use nosignal::{APP_ID, DBUS_NAME, DBUS_PATH, PIPE_NAME};

fn scale(x: f64) -> Scale {
    Scale { bits: x.to_bits() }
}

fn mode(w: u32, h: u32, mhz: u32) -> Mode {
    Mode { width: w, height: h, refresh_mhz: mhz }
}

fn edid(vendor: &str, product: &str, serial: &str) -> EdidId {
    EdidId { vendor: vendor.into(), product: product.into(), serial: serial.into() }
}

// --------------------------------------------------------------------- edid

/// Build a minimal valid EDID: header, vendor "DEL", product 0xA0B1,
/// numeric serial, optional serial-string descriptor.
fn edid_bytes(serial_desc: Option<&str>) -> Vec<u8> {
    let mut e = vec![0u8; 128];
    e[..8].copy_from_slice(&[0x00, 0xFF, 0xFF, 0xFF, 0xFF, 0xFF, 0xFF, 0x00]);
    // "DEL": D=4, E=5, L=12
    let mfg: u16 = (4 << 10) | (5 << 5) | 12;
    e[8..10].copy_from_slice(&mfg.to_be_bytes());
    e[10..12].copy_from_slice(&0xA0B1u16.to_le_bytes());
    e[12..16].copy_from_slice(&305419896u32.to_le_bytes());
    if let Some(s) = serial_desc {
        // Descriptor 0 at offset 54: type 0xFF serial string.
        e[54] = 0;
        e[55] = 0;
        e[57] = 0xFF;
        let mut text = s.as_bytes().to_vec();
        text.push(0x0A);
        text.resize(13, 0x20);
        e[59..72].copy_from_slice(&text);
    }
    e
}

#[test]
fn parses_vendor_product_and_numeric_serial() {
    let id = parse(&edid_bytes(None)).unwrap();
    assert_eq!(id.vendor, "DEL");
    assert_eq!(id.product, "0xa0b1");
    assert_eq!(id.serial, "305419896");
}

#[test]
fn serial_string_descriptor_wins() {
    let id = parse(&edid_bytes(Some("ABC123XYZ"))).unwrap();
    assert_eq!(id.serial, "ABC123XYZ");
}

#[test]
fn garbage_is_rejected() {
    assert!(parse(&[0u8; 16]).is_none());
    assert!(parse(&[7u8; 128]).is_none());
}

#[test]
fn unknown_vendor_letters_show_as_question_marks() {
    let mut e = edid_bytes(None);
    e[8] = 0;
    e[9] = 0;
    assert_eq!(parse(&e).unwrap().vendor, "???");
}

#[test]
fn blank_serial_string_falls_back_to_the_number() {
    let id = parse(&edid_bytes(Some("   "))).unwrap();
    assert_eq!(id.serial, "305419896");
}

// ------------------------------------------------------------------- guards

fn topo(outputs: Vec<Output>) -> Topology {
    Topology { serial: "1".into(), outputs }
}

fn out(connector: &str, enabled: bool, builtin: bool) -> Output {
    Output {
        identity: OutputIdentity::new(connector, None),
        enabled,
        builtin,
        ..Output::default()
    }
}

#[test]
fn disabling_the_last_display_is_flagged() {
    let t = topo(vec![out("DP-1", true, false), out("HDMI-A-1", false, false)]);
    let mut plan = LayoutPlan::from_topology(&t);
    plan.set_enabled("DP-1", false);
    assert_eq!(assess(&t, &plan), RiskClass::LastActiveDisplay);
    assert!(RiskClass::LastActiveDisplay.timer_mandatory());
}

#[test]
fn disabling_builtin_panel_is_flagged_even_with_others_active() {
    let t = topo(vec![out("eDP-1", true, true), out("DP-1", true, false)]);
    let mut plan = LayoutPlan::from_topology(&t);
    plan.set_enabled("eDP-1", false);
    assert_eq!(assess(&t, &plan), RiskClass::BuiltinPanel);
}

#[test]
fn routine_toggle_with_other_display_remaining() {
    let t = topo(vec![out("DP-1", true, false), out("HDMI-A-1", true, false)]);
    let mut plan = LayoutPlan::from_topology(&t);
    plan.set_enabled("HDMI-A-1", false);
    assert_eq!(assess(&t, &plan), RiskClass::Routine);
    assert!(!RiskClass::Routine.timer_mandatory());
}

#[test]
fn re_enabling_is_routine() {
    let t = topo(vec![out("DP-1", true, false), out("HDMI-A-1", false, false)]);
    let mut plan = LayoutPlan::from_topology(&t);
    plan.set_enabled("HDMI-A-1", true);
    assert_eq!(assess(&t, &plan), RiskClass::Routine);
}

#[test]
fn risk_classes_have_names() {
    assert_eq!(RiskClass::LastActiveDisplay.name(), "LastActiveDisplay");
    assert_eq!(RiskClass::BuiltinPanel.name(), "BuiltinPanel");
    assert_eq!(RiskClass::Routine.name(), "Routine");
}

// ----------------------------------------------------------------- identity

fn known(connector: &str, edid_id: Option<EdidId>, alias: Option<&str>) -> Output {
    Output {
        identity: OutputIdentity::new(connector, edid_id),
        alias: alias.map(String::from),
        ..Output::default()
    }
}

#[test]
fn target_resolution_prefers_alias_then_connector_then_edid() {
    let outputs = vec![
        known("DP-1", Some(edid("DEL", "0xa0b1", "12345")), Some("main")),
        known("HDMI-A-1", Some(edid("SAM", "0x7201", "777")), Some("TV")),
    ];
    assert_eq!(resolve_target("tv", &outputs).unwrap().identity.connector, "HDMI-A-1");
    assert_eq!(resolve_target("dp-1", &outputs).unwrap().identity.connector, "DP-1");
    assert_eq!(resolve_target("sam", &outputs).unwrap().identity.connector, "HDMI-A-1");
    assert!(matches!(resolve_target("nothing", &outputs), Err(ResolveError::NotFound(_))));
}

#[test]
fn an_alias_hides_a_connector_of_the_same_name() {
    let outputs = vec![known("tv", None, None), known("DP-1", None, Some("TV"))];
    assert_eq!(resolve_target("Tv", &outputs).unwrap().identity.connector, "DP-1");
}

#[test]
fn target_case_is_folded_beyond_ascii() {
    let outputs = vec![known("DP-1", None, Some("KÜCHE"))];
    assert_eq!(resolve_target("küche", &outputs).unwrap().identity.connector, "DP-1");
}

#[test]
fn ambiguous_targets_list_their_candidates() {
    let outputs = vec![
        known("DP-1", Some(edid("GSM", "0x1", "1")), None),
        known("DP-2", Some(edid("GSM", "0x1", "2")), None),
    ];
    let err = resolve_target("gsm", &outputs).unwrap_err();
    assert_eq!(
        err.message(),
        "ambiguous target 'gsm': matches DP-1, DP-2; use a connector name to disambiguate"
    );
    let err = resolve_target("vga", &outputs).unwrap_err();
    assert_eq!(err.message(), "no output matches 'vga'");
}

#[test]
fn edid_match_wins_over_connector_when_replugged() {
    // The TV was stored on HDMI-A-1, but replugged into HDMI-A-2 while an
    // unrelated display took HDMI-A-1.
    let tv = edid("SAM", "0x7201", "777");
    let wanted = OutputIdentity::new("HDMI-A-1", Some(tv.clone()));
    let outputs = vec![
        known("HDMI-A-1", Some(edid("DEL", "0xa0b1", "1")), None),
        known("HDMI-A-2", Some(tv), None),
    ];
    let hit = resolve_identity(&wanted, &outputs).unwrap().unwrap();
    assert_eq!(hit.identity.connector, "HDMI-A-2");
}

#[test]
fn connector_fallback_when_edid_absent() {
    let wanted = OutputIdentity::new("DP-2", None);
    let outputs = vec![known("DP-2", Some(edid("AUS", "0x11", "0")), None)];
    let hit = resolve_identity(&wanted, &outputs).unwrap().unwrap();
    assert_eq!(hit.identity.connector, "DP-2");
}

#[test]
fn duplicate_edids_are_a_hard_ambiguity_error() {
    // Two identical monitors reporting serial 0.
    let dup = edid("GSM", "0x5b09", "0");
    let wanted = OutputIdentity::new("DP-9", Some(dup.clone()));
    let outputs =
        vec![known("DP-1", Some(dup.clone()), None), known("DP-2", Some(dup), None)];
    let err = resolve_identity(&wanted, &outputs).unwrap_err();
    match err {
        ResolveError::Ambiguous { candidates, .. } => {
            assert_eq!(candidates, vec!["DP-1", "DP-2"]);
        }
        other => panic!("expected ambiguity, got {other:?}"),
    }
}

#[test]
fn disconnected_profile_entry_resolves_to_none() {
    let wanted = OutputIdentity::new("HDMI-A-1", Some(edid("SAM", "0x7201", "777")));
    let outputs = vec![known("DP-1", Some(edid("DEL", "0xa0b1", "1")), None)];
    assert!(resolve_identity(&wanted, &outputs).unwrap().is_none());
}

// ------------------------------------------------------------------- layout

fn planned(connector: &str, enabled: bool, pos: (i32, i32), primary: bool) -> PlannedOutput {
    PlannedOutput {
        identity: OutputIdentity::new(connector, None),
        enabled,
        mode: Some(mode(1920, 1080, 60_000)),
        position: pos,
        scale: scale(1.0),
        transform: Transform::Normal,
        primary,
    }
}

fn plan(outputs: Vec<PlannedOutput>) -> LayoutPlan {
    LayoutPlan { serial: "1".into(), outputs }
}

#[test]
fn origin_translates_to_zero_after_disabling_leftmost() {
    let mut plan = plan(vec![
        planned("DP-1", false, (0, 0), false),
        planned("DP-2", true, (1920, 0), true),
    ]);
    normalize(&mut plan);
    assert_eq!(plan.outputs[1].position, (0, 0));
}

#[test]
fn primary_moves_to_an_enabled_output() {
    let mut plan = plan(vec![
        planned("DP-1", false, (0, 0), true), // disabled primary
        planned("DP-2", true, (1920, 0), false),
    ]);
    normalize(&mut plan);
    assert!(!plan.outputs[0].primary);
    assert!(plan.outputs[1].primary);
}

#[test]
fn exactly_one_primary_survives() {
    let mut plan = plan(vec![
        planned("DP-1", true, (0, 0), true),
        planned("DP-2", true, (1920, 0), true),
    ]);
    normalize(&mut plan);
    let primaries = plan.outputs.iter().filter(|o| o.primary).count();
    assert_eq!(primaries, 1);
}

#[test]
fn compaction_closes_the_gap_left_by_a_middle_monitor() {
    let mut plan = plan(vec![
        planned("DP-1", true, (0, 0), true),
        planned("DP-2", false, (1920, 0), false), // middle, disabled
        planned("DP-3", true, (3840, 0), false),
    ]);
    compact_horizontal(&mut plan);
    assert_eq!(plan.outputs[0].position, (0, 0));
    assert_eq!(plan.outputs[2].position, (1920, 0));
}

#[test]
fn rotated_output_advances_by_its_height() {
    let mut left = planned("DP-1", true, (0, 0), true);
    left.transform = Transform::Rot90;
    let right = planned("DP-2", true, (5000, 0), false);
    let mut plan = plan(vec![left, right]);
    compact_horizontal(&mut plan);
    assert_eq!(plan.outputs[1].position.0, 1080);
}

#[test]
fn scaled_output_advances_by_its_logical_width() {
    let mut left = planned("DP-1", true, (0, 0), true);
    left.scale = scale(1.5);
    let mut middle = planned("DP-2", true, (5000, 0), false);
    middle.scale = scale(0.0); // counts as 1.0
    let right = planned("DP-3", true, (9000, 0), false);
    let mut plan = plan(vec![left, middle, right]);
    compact_horizontal(&mut plan);
    assert_eq!(plan.outputs[1].position.0, 1280);
    assert_eq!(plan.outputs[2].position.0, 3200);
}

#[test]
fn normalizing_twice_changes_nothing_more() {
    let mut once = plan(vec![
        planned("DP-1", true, (-100, 30), false),
        planned("DP-2", true, (1920, -8), true),
        planned("DP-3", false, (4000, 0), true),
    ]);
    normalize(&mut once);
    assert_eq!(once.outputs[0].position, (0, 38));
    assert_eq!(once.outputs[1].position, (2020, 0));
    assert_eq!(once.outputs[2].position, (4000, 0));
    let mut twice = once.clone();
    normalize(&mut twice);
    for i in 0..3 {
        assert_eq!(once.outputs[i].position, twice.outputs[i].position);
        assert_eq!(once.outputs[i].primary, twice.outputs[i].primary);
    }
}

// ----------------------------------------------------------------- topology

#[test]
fn mode_spec_parses_and_picks_best_match() {
    let modes =
        [mode(3840, 2160, 60_000), mode(3840, 2160, 119_880), mode(1920, 1080, 60_000)];

    let spec = ModeSpec::parse("3840x2160@120").unwrap();
    assert_eq!(spec.best_match(&modes).unwrap().refresh_mhz, 119_880);

    let spec = ModeSpec::parse("3840x2160").unwrap();
    assert_eq!(spec.best_match(&modes).unwrap().refresh_mhz, 119_880);

    let spec = ModeSpec::parse("2560x1440").unwrap();
    assert!(spec.best_match(&modes).is_none());

    assert!(ModeSpec::parse("garbage").is_none());
}

#[test]
fn mode_specs_take_the_number_notations_of_floats() {
    let modes = [mode(1920, 1080, 59_940), mode(1920, 1080, 60_000), mode(1920, 1080, 24_000)];
    for (text, want) in [
        ("1920x1080@59.94", 59_940),
        (" 1920x1080@60 ", 60_000),
        ("1920x1080@6e1", 60_000),
        ("1920x1080@2.4e1", 24_000),
        ("1920x1080@.0", 24_000),
        ("1920x1080@inf", 59_940), // all equally far: the first
    ] {
        let spec = ModeSpec::parse(text).unwrap();
        assert_eq!(spec.best_match(&modes).unwrap().refresh_mhz, want, "{text}");
    }
    for text in ["1920x1080@", "1920x1080@x", "x1080", "1920x", "-1x5", "1920 x1080@60@60"] {
        assert!(ModeSpec::parse(text).is_none(), "{text}");
    }
}

#[test]
fn a_mode_text_reads_back_as_that_mode() {
    let m = mode(2560, 1440, 143_912);
    assert_eq!(m.to_text(), "2560x1440@143.912");
    let spec = ModeSpec::parse(&m.to_text()).unwrap();
    assert_eq!(spec.best_match(&[mode(2560, 1440, 143_911), m]), Some(m));
}

#[test]
fn transform_round_trips() {
    for v in 0..=7u8 {
        assert_eq!(Transform::from_u8(v).unwrap().to_u8(), v);
    }
    assert!(Transform::from_u8(8).is_none());
}

#[test]
fn builtin_connector_heuristic() {
    assert!(connector_is_builtin("eDP-1"));
    assert!(connector_is_builtin("LVDS-1"));
    assert!(!connector_is_builtin("DP-1"));
    assert!(!connector_is_builtin("HDMI-A-1"));
}

#[test]
fn proxy_literals_match_core_constants() {
    assert_eq!(DBUS_NAME, "io.github.shadowxcc.NoSignal.Daemon1");
    assert_eq!(DBUS_PATH, "/io/github/shadowxcc/NoSignal/Daemon1");
}

#[test]
fn application_names() {
    assert_eq!(APP_ID, "org.nosignal.NoSignal");
    assert_eq!(PIPE_NAME, r"\\.\pipe\nosignal-daemon");
}

// ------------------------------------------------------------------ profile

fn tv_edid() -> EdidId {
    edid("SAM", "0x7201", "777")
}

fn sample_topology() -> Topology {
    Topology {
        serial: "42".into(),
        outputs: vec![
            Output {
                identity: OutputIdentity::new("DP-1", None),
                display_name: "Dell U2723QE".into(),
                enabled: true,
                mode: Some(mode(3840, 2160, 60_000)),
                modes: vec![mode(3840, 2160, 60_000), mode(1920, 1080, 60_000)],
                scale: scale(1.0),
                primary: true,
                ..Output::default()
            },
            Output {
                identity: OutputIdentity::new("HDMI-A-1", Some(tv_edid())),
                alias: Some("TV".into()),
                display_name: "Samsung TV".into(),
                enabled: true,
                mode: Some(mode(3840, 2160, 60_000)),
                modes: vec![mode(3840, 2160, 60_000), mode(3840, 2160, 119_880)],
                position: (3840, 0),
                scale: scale(2.0),
                ..Output::default()
            },
        ],
    }
}

fn tv_entry(enabled: bool) -> ProfileOutput {
    ProfileOutput {
        edid: Some(tv_edid()),
        connector: "HDMI-A-1".into(),
        enabled,
        ..ProfileOutput::default()
    }
}

fn profile(name: &str, entry: ProfileOutput) -> Profile {
    Profile { name: name.into(), outputs: vec![entry], ..Profile::default() }
}

fn find<'a>(plan: &'a LayoutPlan, connector: &str) -> &'a PlannedOutput {
    plan.outputs.iter().find(|o| o.identity.connector == connector).unwrap()
}

#[test]
fn profile_plan_disables_tv_and_keeps_unnamed_outputs() {
    let topo = sample_topology();
    let movie_off =
        profile("desk", ProfileOutput { alias: Some("TV".into()), ..tv_entry(false) });

    let (plan, warnings) = movie_off.to_plan(&topo).unwrap();
    assert!(warnings.is_empty());
    let tv = find(&plan, "HDMI-A-1");
    assert!(!tv.enabled);
    let dp = find(&plan, "DP-1");
    assert!(dp.enabled, "unnamed output keeps current state");
    assert!(dp.primary);
}

#[test]
fn replugged_tv_matches_by_edid_and_reports_migration() {
    let mut topo = sample_topology();
    // TV moved to HDMI-A-2.
    topo.outputs[1].identity.connector = "HDMI-A-2".into();

    let profile = profile("p", tv_entry(false));
    let (plan, warnings) = profile.to_plan(&topo).unwrap();
    assert!(!find(&plan, "HDMI-A-2").enabled);
    assert_eq!(
        warnings,
        vec![ProfileWarning::ConnectorMigrated {
            stored: "HDMI-A-1".into(),
            live: "HDMI-A-2".into(),
        }]
    );
}

#[test]
fn a_migrated_profile_asks_for_the_same_without_a_warning() {
    let mut topo = sample_topology();
    topo.outputs[1].identity.connector = "HDMI-A-2".into();
    let mut p = profile("desk", tv_entry(false));
    let (before, _) = p.to_plan(&topo).unwrap();
    p.migrate(&topo);
    assert_eq!(p.outputs[0].connector, "HDMI-A-2");
    let (after, warnings) = p.to_plan(&topo).unwrap();
    assert_eq!(after, before);
    assert!(warnings.is_empty());
}

#[test]
fn a_reached_profile_is_satisfied() {
    let mut topo = sample_topology();
    let p = profile("desk", tv_entry(false));
    assert!(!p.is_satisfied_by(&topo).unwrap());
    let (plan, _) = p.to_plan(&topo).unwrap();
    for (output, planned) in topo.outputs.iter_mut().zip(&plan.outputs) {
        output.enabled = planned.enabled;
    }
    assert!(p.is_satisfied_by(&topo).unwrap());
}

#[test]
fn disconnected_entry_warns_but_applies_rest() {
    let mut topo = sample_topology();
    topo.outputs.remove(1); // TV unplugged
    let profile = profile("p", tv_entry(false));
    let (plan, warnings) = profile.to_plan(&topo).unwrap();
    assert_eq!(plan.outputs.len(), 1);
    assert_eq!(warnings, vec![ProfileWarning::NotConnected { connector: "HDMI-A-1".into() }]);
}

#[test]
fn mode_pin_resolves_to_closest_advertised_mode() {
    let topo = sample_topology();
    let profile =
        profile("movie", ProfileOutput { mode: Some("3840x2160@120".into()), ..tv_entry(true) });
    let (plan, warnings) = profile.to_plan(&topo).unwrap();
    assert!(warnings.is_empty());
    assert_eq!(find(&plan, "HDMI-A-1").mode.unwrap().refresh_mhz, 119_880);
}

#[test]
fn unavailable_mode_pin_warns() {
    let topo = sample_topology();
    let profile =
        profile("movie", ProfileOutput { mode: Some("640x480".into()), ..tv_entry(true) });
    let (plan, warnings) = profile.to_plan(&topo).unwrap();
    assert_eq!(
        warnings,
        vec![ProfileWarning::ModeUnavailable {
            connector: "HDMI-A-1".into(),
            mode: "640x480".into(),
        }]
    );
    assert_eq!(find(&plan, "HDMI-A-1").mode, Some(mode(3840, 2160, 60_000)));
}

#[test]
fn drift_detection_compares_enabled_state_only() {
    let topo = sample_topology();
    let profile = profile("p", tv_entry(false));
    // TV is currently enabled but the profile wants it off: drifted.
    assert!(!profile.is_satisfied_by(&topo).unwrap());

    let mut off = topo.clone();
    off.outputs[1].enabled = false;
    assert!(profile.is_satisfied_by(&off).unwrap());
}

#[test]
fn captured_profile_gives_its_layout_back() {
    let topo = sample_topology();
    let captured = Profile::capture("desk", &topo);
    assert_eq!(captured.outputs.len(), 2);
    assert_eq!(captured.outputs[1].edid, Some(tv_edid()));
    assert!(captured.is_satisfied_by(&topo).unwrap());
    let (plan, warnings) = captured.to_plan(&topo).unwrap();
    assert!(warnings.is_empty());
    assert_eq!(find(&plan, "HDMI-A-1").position, (3840, 0));
    assert_eq!(find(&plan, "HDMI-A-1").scale, scale(2.0));
    assert_eq!(find(&plan, "HDMI-A-1").mode, Some(mode(3840, 2160, 60_000)));
}

#[test]
fn store_finds_replaces_and_removes_profiles() {
    let mut store = ProfileStore::default();
    store.upsert(profile("a", tv_entry(false)));
    store.upsert(profile("b", tv_entry(true)));
    store.upsert(profile("a", tv_entry(true)));
    assert_eq!(store.profiles.len(), 2);
    assert!(store.find("a").unwrap().outputs[0].enabled);
    assert!(store.find("c").is_none());
    assert!(store.remove("a"));
    assert!(!store.remove("a"));
    assert!(store.find("a").is_none());
}

#[test]
fn a_store_of_a_newer_schema_is_refused() {
    let mut store = ProfileStore::default();
    store.schema_version = 999;
    let err = store.accept().unwrap_err();
    assert!(matches!(err, StoreError::SchemaTooNew { found: 999, .. }));
}

// --------------------------------------------------------------- remembered

fn remembered_tv(pos: (i32, i32)) -> PlannedOutput {
    PlannedOutput {
        identity: OutputIdentity::new("HDMI-A-1", Some(tv_edid())),
        enabled: true,
        mode: Some(mode(3840, 2160, 119_880)),
        position: pos,
        scale: scale(2.0),
        transform: Transform::Normal,
        primary: false,
    }
}

#[test]
fn upsert_replaces_by_identity() {
    let mut store = RememberedLayouts::default();
    store.upsert(remembered_tv((3840, 0)));
    store.upsert(remembered_tv((0, 2160)));
    assert_eq!(store.outputs.len(), 1);
    assert_eq!(store.outputs[0].position, (0, 2160));
}

#[test]
fn remembered_layout_follows_the_panel() {
    let mut store = RememberedLayouts::default();
    store.upsert(remembered_tv((3840, 0)));
    // Same panel replugged into a different connector still matches.
    let moved = OutputIdentity::new("HDMI-A-2", Some(tv_edid()));
    assert_eq!(store.find(&moved).unwrap().position, (3840, 0));
    let other = OutputIdentity::new("HDMI-A-2", None);
    assert!(store.find(&other).is_none());
}

#[test]
fn a_panel_is_remembered_in_its_own_place() {
    let at = |connector: &str, edid_id: Option<EdidId>, pos: (i32, i32)| PlannedOutput {
        identity: OutputIdentity::new(connector, edid_id),
        ..remembered_tv(pos)
    };
    let mut store = RememberedLayouts::default();
    store.upsert(at("HDMI-A-1", None, (1, 0)));
    store.upsert(at("DP-1", Some(tv_edid()), (2, 0)));
    // The panel from DP-1 is now at HDMI-A-1.
    store.upsert(at("HDMI-A-1", Some(tv_edid()), (3, 0)));
    let places: Vec<(i32, i32)> = store.outputs.iter().map(|p| p.position).collect();
    assert_eq!(places, vec![(1, 0), (3, 0)]);
}

#[test]
fn neighbors_are_remembered_with_a_layout() {
    let topo = sample_topology();
    let around = neighbors_of(&topo.outputs, "HDMI-A-1");
    assert!(around.iter().all(|n| n.identity.connector != "HDMI-A-1"));
    assert_eq!(around.len(), topo.outputs.len() - 1);
    let mut store = RememberedLayouts::default();
    store.remember(remembered_tv((3840, 0)), around);
    let id = OutputIdentity::new("HDMI-A-1", Some(tv_edid()));
    assert_eq!(store.neighbors_for(&id).len(), topo.outputs.len() - 1);
    store.upsert(remembered_tv((0, 0)));
    assert!(store.neighbors_for(&id).is_empty());
}

// ------------------------------------------------- restoring and rebasing

fn twin(connector: &str, pos: (i32, i32)) -> Output {
    let mut o = known(connector, Some(edid("LEN", "0x61c0", "0")), None);
    o.enabled = true;
    o.position = pos;
    o
}

#[test]
fn twins_are_restored_each_to_its_own_state() {
    let prior = topo(vec![twin("DP-1", (0, 0)), twin("DP-2", (1920, 0))]);
    let mut current = topo(vec![twin("DP-2", (0, 0)), twin("DP-1", (1920, 0))]);
    current.outputs[0].enabled = false;
    let plan = restore_plan(&current, &prior);
    assert_eq!(plan.outputs[0].identity.connector, "DP-2");
    assert_eq!(plan.outputs[0].position, (1920, 0));
    assert!(plan.outputs[0].enabled);
    assert_eq!(plan.outputs[1].identity.connector, "DP-1");
    assert_eq!(plan.outputs[1].position, (0, 0));
}

#[test]
fn a_restored_display_keeps_its_live_connector() {
    let prior = topo(vec![twin("DP-1", (0, 0)), out("HDMI-A-1", true, false)]);
    let mut fresh = out("VGA-1", true, false);
    fresh.position = (500, 500);
    let current = topo(vec![fresh, twin("DP-7", (1920, 0))]);
    let plan = restore_plan(&current, &prior);
    assert_eq!(plan.outputs.len(), 2);
    assert_eq!(plan.outputs[0].identity.connector, "VGA-1");
    assert_eq!(plan.outputs[0].position, (500, 500));
    assert_eq!(plan.outputs[1].identity.connector, "DP-7");
    assert_eq!(plan.outputs[1].position, (0, 0));
}

#[test]
fn rebasing_follows_the_displays_that_are_there() {
    let mut first = planned("DP-1", false, (0, 0), false);
    first.identity = twin("DP-1", (0, 0)).identity;
    let mut second = planned("DP-2", true, (0, 0), true);
    second.identity = twin("DP-2", (0, 0)).identity;
    let gone = planned("HDMI-A-1", true, (1920, 0), false);
    let wanted = plan(vec![first, second, gone]);
    let mut new = out("VGA-1", true, false);
    new.position = (1920, 0);
    let fresh = topo(vec![new, twin("DP-2", (0, 0)), twin("DP-1", (3840, 0))]);
    let rebased = rebase_plan(&wanted, &fresh);
    assert_eq!(rebased.serial, fresh.serial);
    let shown: Vec<(&str, bool, (i32, i32))> = rebased
        .outputs
        .iter()
        .map(|p| (p.identity.connector.as_str(), p.enabled, p.position))
        .collect();
    assert_eq!(
        shown,
        vec![("VGA-1", true, (1920, 0)), ("DP-2", true, (0, 0)), ("DP-1", false, (0, 0))]
    );
}
