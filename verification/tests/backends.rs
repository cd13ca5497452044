use nosignal::backend::{
    obstacle_error, switches_on, wake_step, ApplyMode, Capabilities, Obstacle, WakeStep,
};
use nosignal::error::BackendError;
use nosignal::fixtures;
use nosignal::gnome::{self, CurrentState, LogicalMonitor, Monitor, MonitorMode, MonitorSpec};
use nosignal::identity::OutputIdentity;
use nosignal::json::parse_json;
use nosignal::kde::{
    build_args, kscreen_rotation_to_transform, parse_topology, serial_of,
    transform_to_kscreen_rotation,
};
use nosignal::layout::normalize;
use nosignal::nearest::{can_snap, snap_scale};
use nosignal::text::decode;
use nosignal::topology::{LayoutPlan, Mode, PlannedOutput, Scale, Topology, Transform};
use nosignal::windows::{
    self, after_apply, after_query, Attempt, CcdState, PathInfo, Rotation, TargetName, Technology,
};
use nosignal::wlroots::{
    self, conclude, request_for, ConfigRequest, ConfigResult, HeadCommand, HeadEvent, Mirror,
    ModeEvent,
};
use nosignal::x11::{self, Assignment, CrtcInfo, ModeInfo, OutputInfo, Resources, ScreenInfo};

fn scale(x: f64) -> Scale {
    Scale { bits: x.to_bits() }
}

fn mode(w: u32, h: u32, mhz: u32) -> Mode {
    Mode { width: w, height: h, refresh_mhz: mhz }
}

fn planned(connector: &str, enabled: bool, mode: Option<Mode>, pos: (i32, i32)) -> PlannedOutput {
    PlannedOutput {
        identity: OutputIdentity::new(connector, None),
        enabled,
        mode,
        position: pos,
        scale: scale(1.0),
        transform: Transform::Normal,
        primary: false,
    }
}

// ---------------------------------------------------------------------- kde

const SAMPLE: &str = r#"{
  "outputs": [
    {
      "id": 1, "name": "DP-1", "type": "DisplayPort", "connected": true,
      "enabled": true, "priority": 1,
      "pos": {"x": 0, "y": 0}, "scale": 1, "rotation": 1,
      "currentModeId": "0", "preferredModes": ["0"],
      "vendor": "Dell Inc.", "model": "U2723QE", "serialNumber": "ABC123",
      "modes": [
        {"id": "0", "name": "3840x2160@60", "refreshRate": 59.997,
         "size": {"width": 3840, "height": 2160}},
        {"id": "1", "name": "1920x1080@60", "refreshRate": 60.0,
         "size": {"width": 1920, "height": 1080}}
      ]
    },
    {
      "id": 2, "name": "HDMI-A-1", "type": "HDMI", "connected": true,
      "enabled": false, "priority": 0,
      "pos": {"x": 3840, "y": 0}, "scale": 2, "rotation": 1,
      "modes": [
        {"id": "5", "name": "3840x2160@60", "refreshRate": 60.0,
         "size": {"width": 3840, "height": 2160}}
      ]
    },
    {
      "id": 3, "name": "DP-9", "connected": false, "enabled": false,
      "modes": []
    }
  ]
}"#;

fn scale_texts(plan: &LayoutPlan) -> Vec<String> {
    plan.outputs.iter().map(|p| format!("{}", f64::from_bits(p.scale.bits))).collect()
}

#[test]
fn parses_kscreen_json() {
    let topo = parse_topology(SAMPLE).unwrap();
    assert_eq!(topo.outputs.len(), 2, "disconnected outputs are skipped");

    let dp = topo.find_connector("DP-1").unwrap();
    assert!(dp.enabled);
    assert!(dp.primary);
    assert_eq!(dp.mode.unwrap().refresh_mhz, 59_997);
    let edid = dp.identity.edid.as_ref().unwrap();
    assert_eq!(edid.serial, "ABC123");

    let tv = topo.find_connector("HDMI-A-1").unwrap();
    assert!(!tv.enabled);
    assert!(tv.identity.edid.is_none(), "no vendor fields = no EDID id");
}

#[test]
fn builds_apply_args_for_disable_and_enable() {
    let topo = parse_topology(SAMPLE).unwrap();
    let mut plan = LayoutPlan::from_topology(&topo);
    {
        let tv = plan.find_connector_mut("HDMI-A-1").unwrap();
        tv.enabled = true;
        tv.mode = Some(mode(3840, 2160, 60_000));
    }
    plan.set_enabled("DP-1", false);
    normalize(&mut plan);

    let args = build_args(&plan, &topo, &scale_texts(&plan)).unwrap();
    assert!(args.contains(&"output.DP-1.disable".to_string()));
    assert!(args.contains(&"output.HDMI-A-1.enable".to_string()));
    assert!(args.contains(&"output.HDMI-A-1.mode.3840x2160@60".to_string()));
    assert!(args.contains(&"output.HDMI-A-1.priority.1".to_string()));
}

#[test]
fn unavailable_mode_is_invalid_layout() {
    let topo = parse_topology(SAMPLE).unwrap();
    let mut plan = LayoutPlan::from_topology(&topo);
    {
        let dp = plan.find_connector_mut("DP-1").unwrap();
        dp.mode = Some(mode(2560, 1440, 144_000));
    }
    let err = build_args(&plan, &topo, &scale_texts(&plan)).unwrap_err();
    assert!(matches!(err, BackendError::InvalidLayout(_)));
}

#[test]
fn rotation_mapping_round_trips_the_basics() {
    assert_eq!(kscreen_rotation_to_transform(1), Transform::Normal);
    assert_eq!(kscreen_rotation_to_transform(2), Transform::Rot90);
    assert_eq!(transform_to_kscreen_rotation(Transform::Rot270), "right");
}

#[test]
fn kscreen_serial_follows_the_snapshot() {
    assert_eq!(serial_of(SAMPLE), serial_of(SAMPLE));
    assert_eq!(parse_topology(SAMPLE).unwrap().serial, serial_of(SAMPLE));
    let changed = SAMPLE.replace("3840, \"y\": 0", "0, \"y\": 0");
    assert_ne!(serial_of(SAMPLE), serial_of(&changed));
}

#[test]
fn kscreen_garbage_is_a_server_error() {
    for text in ["", "{", "{}", "[]", r#"{"outputs": 3}"#] {
        assert!(matches!(parse_topology(text), Err(BackendError::Server(_))), "{text}");
    }
    let err = parse_topology("{}").unwrap_err();
    assert_eq!(err.message(), "display server error: kscreen-doctor JSON: no outputs");
}

#[test]
fn json_documents_are_read() {
    let doc = parse_json(r#"{"a": [1, -2, 2.5, true, null, "x"], "b": {"c": "d"}}"#).unwrap();
    assert!(doc.get("a").is_some());
    assert!(doc.get("c").is_none());
    assert!(doc.get_nested("b", "c").is_some());
    assert!(parse_json("{\"a\":").is_err());
}

// -------------------------------------------------------------------- gnome

fn mode_entry(id: &str, w: i32, h: i32, hz: f64, current: bool) -> MonitorMode {
    MonitorMode {
        id: id.into(),
        width: w,
        height: h,
        refresh_bits: hz.to_bits(),
        preferred_scale: scale(1.0),
        supported_scales: vec![scale(1.0), scale(2.0)],
        current,
        preferred: false,
    }
}

fn spec(connector: &str, vendor: &str, product: &str, serial: &str) -> MonitorSpec {
    MonitorSpec {
        connector: connector.into(),
        vendor: vendor.into(),
        product: product.into(),
        serial: serial.into(),
    }
}

fn sample_state() -> CurrentState {
    let dp = Monitor {
        spec: spec("DP-1", "DEL", "DELL U2723QE", "ABC123"),
        modes: vec![
            mode_entry("3840x2160@59.997", 3840, 2160, 59.997, true),
            mode_entry("1920x1080@60.000", 1920, 1080, 60.0, false),
        ],
        builtin: false,
        display_name: None,
    };
    let tv = Monitor {
        spec: spec("HDMI-A-1", "SAM", "SAMSUNG", "0x01000000"),
        modes: vec![
            mode_entry("3840x2160@60.000", 3840, 2160, 60.0, true),
            mode_entry("3840x2160@119.880", 3840, 2160, 119.88, false),
        ],
        builtin: false,
        display_name: None,
    };
    // Only DP-1 is in a logical monitor; the TV is disabled.
    let logical = LogicalMonitor {
        x: 0,
        y: 0,
        scale: scale(1.0),
        transform: 0,
        primary: true,
        monitors: vec![spec("DP-1", "DEL", "DELL U2723QE", "ABC123")],
    };
    CurrentState { serial: 7, monitors: vec![dp, tv], logical_monitors: vec![logical] }
}

#[test]
fn state_maps_to_topology_with_disabled_monitor() {
    let topo = gnome::state_to_topology(&sample_state());
    assert_eq!(topo.serial, "7");
    assert_eq!(topo.outputs.len(), 2);

    let dp = topo.find_connector("DP-1").unwrap();
    assert!(dp.enabled);
    assert!(dp.primary);
    assert_eq!(dp.mode.unwrap().refresh_mhz, 59_997);
    assert_eq!(dp.identity.edid.as_ref().unwrap().vendor, "DEL");

    let tv = topo.find_connector("HDMI-A-1").unwrap();
    assert!(!tv.enabled, "monitor absent from logical monitors = off");
    assert_eq!(tv.modes.len(), 2);
}

#[test]
fn plan_omits_disabled_outputs_from_logical_monitors() {
    let state = sample_state();
    let topo = gnome::state_to_topology(&state);
    let plan = LayoutPlan::from_topology(&topo);
    let logical = gnome::build_logical_monitors(&plan, &state.monitors).unwrap();
    // TV is disabled, so only one logical monitor, for DP-1.
    assert_eq!(logical.len(), 1);
    assert_eq!(logical[0].assignments[0].connector, "DP-1");
    assert_eq!(logical[0].assignments[0].mode_id, "3840x2160@59.997");
}

#[test]
fn enabling_uses_closest_mode_id_and_supported_scale() {
    let state = sample_state();
    let topo = gnome::state_to_topology(&state);
    let mut plan = LayoutPlan::from_topology(&topo);
    {
        let tv = plan.find_connector_mut("HDMI-A-1").unwrap();
        tv.enabled = true;
        // asks for 120, closest is 119.88
        tv.mode = Some(mode(3840, 2160, 120_000));
        tv.position = (3840, 0);
        tv.scale = scale(1.7); // unsupported: snaps to 2.0
    }
    let logical = gnome::build_logical_monitors(&plan, &state.monitors).unwrap();
    let tv_lm =
        logical.iter().find(|lm| lm.assignments[0].connector == "HDMI-A-1").unwrap();
    assert_eq!(tv_lm.assignments[0].mode_id, "3840x2160@119.880");
    assert_eq!(tv_lm.scale, scale(2.0));
}

#[test]
fn mirrored_outputs_share_one_logical_monitor() {
    let state = sample_state();
    let topo = gnome::state_to_topology(&state);
    let mut plan = LayoutPlan::from_topology(&topo);
    {
        let tv = plan.find_connector_mut("HDMI-A-1").unwrap();
        tv.enabled = true;
        tv.mode = Some(mode(3840, 2160, 60_000));
        tv.position = (0, 0); // same position as DP-1 = mirror
    }
    let logical = gnome::build_logical_monitors(&plan, &state.monitors).unwrap();
    assert_eq!(logical.len(), 1);
    assert_eq!(logical[0].assignments.len(), 2);
}

#[test]
fn a_mirrored_primary_is_primary_whatever_its_place() {
    let state = sample_state();
    let topo = gnome::state_to_topology(&state);
    for primary in 0..2 {
        let mut plan = LayoutPlan::from_topology(&topo);
        for (i, p) in plan.outputs.iter_mut().enumerate() {
            p.enabled = true;
            p.mode = Some(mode(3840, 2160, 60_000));
            p.position = (0, 0);
            p.scale = scale(1.0);
            p.transform = Transform::Normal;
            p.primary = i == primary;
        }
        let logical = gnome::build_logical_monitors(&plan, &state.monitors).unwrap();
        assert_eq!(logical.len(), 1);
        assert_eq!(logical[0].assignments.len(), 2);
        assert!(logical[0].primary);
    }
}

#[test]
fn mutter_plans_are_checked() {
    let state = sample_state();
    let topo = gnome::state_to_topology(&state);
    let mut plan = LayoutPlan::from_topology(&topo);
    assert!(gnome::can_scale(&plan, &state.monitors));
    assert!(gnome::plan_apply(&plan, &state).is_ok());

    plan.outputs[0].mode = None;
    let err = gnome::plan_apply(&plan, &state).unwrap_err();
    assert_eq!(err.message(), "invalid layout: enabled output DP-1 has no mode");
    plan.outputs[0].mode = Some(mode(640, 480, 60_000));
    let err = gnome::plan_apply(&plan, &state).unwrap_err();
    assert_eq!(err.message(), "invalid layout: mode 640x480@60.000 not available on DP-1");
    plan.outputs[0].identity.connector = "VGA-1".into();
    let err = gnome::plan_apply(&plan, &state).unwrap_err();
    assert!(matches!(err, BackendError::UnknownOutput(name) if name == "VGA-1"));
    plan.serial = "6".into();
    let err = gnome::plan_apply(&plan, &state).unwrap_err();
    assert!(matches!(err, BackendError::StaleSerial));
}

#[test]
fn unknown_edid_fields_make_no_identity() {
    let id = gnome::spec_to_identity(&spec("DP-1", "unknown", "", "unknown"));
    assert!(id.edid.is_none());
    let id = gnome::spec_to_identity(&spec("DP-1", "unknown", "X", ""));
    assert_eq!(id.edid.unwrap().vendor, "unknown");
}

#[test]
fn apply_methods_of_mutter() {
    assert_eq!(gnome::apply_method(ApplyMode::Verify), 0);
    assert_eq!(gnome::apply_method(ApplyMode::Temporary), 1);
    assert_eq!(gnome::apply_method(ApplyMode::Persistent), 2);
}

#[test]
fn scales_snap_to_the_closest_supported_one() {
    let snap = |wanted: f64, list: &[f64]| {
        let supported: Vec<Scale> = list.iter().map(|x| scale(*x)).collect();
        assert!(can_snap(scale(wanted), &supported));
        f64::from_bits(snap_scale(scale(wanted), scale(1.25), &supported).bits)
    };
    assert_eq!(snap(1.7, &[1.0, 2.0]), 2.0);
    assert_eq!(snap(1.5, &[1.0, 2.0]), 1.0);
    assert_eq!(snap(1.5, &[2.0, 1.0]), 2.0);
    assert_eq!(snap(1.333, &[1.0, 1.25, 1.3333333730697632, 1.5]), 1.3333333730697632);
    assert_eq!(snap(0.0, &[1.0, 0.5]), 0.5);
    assert_eq!(snap(-3.0, &[1.0, -1.0, 2.0]), -1.0);
    assert_eq!(snap(2.0, &[-2.5, 4.0]), 4.0);
    assert_eq!(snap(1e300, &[1.0, 1e299]), 1e299);
    assert_eq!(snap(5e-324, &[1e-323, 0.0]), 1e-323);
    assert_eq!(snap(f64::INFINITY, &[1.0, 2.0]), 1.0);
    assert_eq!(snap(1.0, &[f64::INFINITY, 7.0]), 7.0);
    assert_eq!(snap(3.5, &[]), 3.5);
    assert_eq!(snap(-3.5, &[]), 1.25);
    assert_eq!(snap(f64::NAN, &[2.0]), 2.0);
    assert!(!can_snap(scale(f64::NAN), &vec![scale(1.0), scale(2.0)]));
    let both = vec![scale(f64::INFINITY), scale(2.0)];
    assert!(!can_snap(scale(f64::INFINITY), &both));
}

// ---------------------------------------------------------------------- x11

fn mode_info(id: u32, w: u16, h: u16, clock: u32, ht: u16, vt: u16) -> ModeInfo {
    ModeInfo {
        id,
        width: w,
        height: h,
        dot_clock: clock,
        htotal: ht,
        vtotal: vt,
        mode_flags: 0,
    }
}

#[test]
fn refresh_math_matches_xrandr() {
    // 1920x1080@60: 148.5 MHz / (2200 * 1125) = 60.000
    let m = mode_info(1, 1920, 1080, 148_500_000, 2200, 1125);
    assert_eq!(x11::mode_refresh_mhz(&m), 60_000);

    let mut interlaced = mode_info(2, 1920, 1080, 74_250_000, 2200, 1125);
    interlaced.mode_flags = x11::INTERLACE;
    assert_eq!(x11::mode_refresh_mhz(&interlaced), 60_000);
}

#[test]
fn doublescan_halves_the_refresh() {
    let mut m = mode_info(1, 320, 240, 12_600_000, 400, 262);
    assert_eq!(x11::mode_refresh_mhz(&m), 120_229);
    m.mode_flags = x11::DOUBLE_SCAN;
    assert_eq!(x11::mode_refresh_mhz(&m), 60_115);
    m.mode_flags = x11::DOUBLE_SCAN + x11::INTERLACE;
    assert_eq!(x11::mode_refresh_mhz(&m), 120_229);
    m.vtotal = 0;
    assert_eq!(x11::mode_refresh_mhz(&m), 0);
}

#[test]
fn rotation_mapping_round_trips() {
    for t in [Transform::Normal, Transform::Rot90, Transform::Rot180, Transform::Rot270] {
        assert_eq!(x11::rotation_to_transform(x11::transform_to_rotation(t)), t);
    }
}

#[test]
fn reflections_round_trip_too() {
    for v in 4..8 {
        let t = Transform::from_u8(v).unwrap();
        assert_eq!(x11::rotation_to_transform(x11::transform_to_rotation(t)), t);
    }
    assert_eq!(x11::rotation_to_transform(32 + 2), Transform::FlippedRot90);
}

#[test]
fn screen_bounds_account_for_rotation() {
    let mut left = planned("DP-1", true, Some(mode(1920, 1080, 60_000)), (0, 0));
    left.transform = Transform::Rot90;
    left.primary = true;
    let right = planned("DP-2", false, None, (5000, 0));
    let plan = LayoutPlan { serial: "s".into(), outputs: vec![left, right] };
    // Rotated: width becomes 1080; the disabled output is ignored.
    assert_eq!(x11::screen_bounds(&plan), (1080, 1920));
}

fn randr_output(id: u32, name: &str, crtc: u32, crtcs: Vec<u32>) -> OutputInfo {
    OutputInfo {
        output: id,
        name: name.as_bytes().to_vec(),
        connected: true,
        crtc,
        crtcs,
        modes: vec![1, 2, 77],
        num_preferred: 1,
        edid: None,
        current: None,
    }
}

fn randr() -> (Resources, Vec<OutputInfo>) {
    let res = Resources {
        timestamp: 5,
        config_timestamp: 9,
        modes: vec![
            mode_info(1, 1920, 1080, 148_500_000, 2200, 1125),
            mode_info(2, 1280, 720, 74_250_000, 1650, 750),
        ],
    };
    let mut dp = randr_output(50, "DP-1", 10, vec![10, 11]);
    dp.current = Some(CrtcInfo { crtc: 10, mode: 1, x: 0, y: 0, rotation: 1 });
    let tv = randr_output(51, "HDMI-1", 0, vec![10, 11]);
    let mut gone = randr_output(52, "VGA-1", 0, vec![11]);
    gone.connected = false;
    (res, vec![dp, tv, gone])
}

#[test]
fn randr_state_becomes_a_topology() {
    let (res, infos) = randr();
    let topo = x11::read_topology(&res, &infos, 50);
    assert_eq!(topo.serial, "5:9");
    assert_eq!(topo.outputs.len(), 2);
    let dp = &topo.outputs[0];
    assert_eq!(dp.identity.connector, "DP-1");
    assert_eq!(dp.display_name, "DP-1");
    assert!(dp.enabled && dp.primary);
    assert_eq!(dp.mode, Some(mode(1920, 1080, 60_000)));
    assert_eq!(dp.preferred_mode, Some(mode(1920, 1080, 60_000)));
    assert_eq!(dp.modes.len(), 2, "unknown mode ids are skipped");
    assert!(!topo.outputs[1].enabled);
}

#[test]
fn randr_names_are_decoded_from_bytes() {
    let (res, mut infos) = randr();
    infos[0].name = vec![b'D', 0xff, b'P'];
    let topo = x11::read_topology(&res, &infos, 0);
    assert_eq!(topo.outputs[0].identity.connector, "D\u{fffd}P");
    assert_eq!(decode(&[0xc3, 0xbc]), "ü");
}

fn x11_plan(outputs: Vec<PlannedOutput>) -> LayoutPlan {
    LayoutPlan { serial: "5:9".into(), outputs }
}

#[test]
fn crtcs_are_kept_or_picked() {
    let (res, infos) = randr();
    let hd = Some(mode(1920, 1080, 60_000));
    let plan = x11_plan(vec![
        planned("DP-1", true, hd, (0, 0)),
        planned("HDMI-1", true, Some(mode(1280, 720, 59_940)), (1920, 0)),
    ]);
    let list = x11::plan_apply(&plan, &res, &infos, ApplyMode::Temporary).unwrap().unwrap();
    assert_eq!(
        list,
        vec![
            Assignment { crtc: 10, output: 50, mode_id: 1, x: 0, y: 0, rotation: 1 },
            Assignment { crtc: 11, output: 51, mode_id: 2, x: 1920, y: 0, rotation: 1 },
        ]
    );
    let screen = ScreenInfo {
        width_in_pixels: 1920,
        height_in_pixels: 1080,
        width_in_millimeters: 508,
        height_in_millimeters: 286,
    };
    assert!(x11::corners_within(&plan));
    let change = x11::complete_change(&plan, &infos, screen, list);
    assert_eq!((change.width, change.height), (3200, 1080));
    assert_eq!((change.mm_width, change.mm_height), (847, 286));
    assert_eq!(change.primary, 0);

    let crtcs = vec![
        CrtcInfo { crtc: 10, mode: 1, x: 0, y: 0, rotation: 1 },
        CrtcInfo { crtc: 11, mode: 2, x: 0, y: 0, rotation: 1 },
        CrtcInfo { crtc: 12, mode: 0, x: 0, y: 0, rotation: 1 },
    ];
    let detach = x11::crtcs_to_detach(&change.assignments, &crtcs);
    assert_eq!(detach, vec![crtcs[1]]);
}

#[test]
fn x11_plans_are_checked() {
    let (res, mut infos) = randr();
    let hd = Some(mode(1920, 1080, 60_000));
    let refuse = |plan: &LayoutPlan, infos: &Vec<OutputInfo>| {
        x11::plan_apply(plan, &res, infos, ApplyMode::Persistent).unwrap_err().message()
    };
    let mut plan = x11_plan(vec![planned("VGA-1", true, hd, (0, 0))]);
    assert_eq!(refuse(&plan, &infos), "unknown output: VGA-1");
    plan.outputs[0] = planned("DP-1", true, None, (0, 0));
    assert_eq!(refuse(&plan, &infos), "invalid layout: enabled output DP-1 has no mode");
    plan.outputs[0] = planned("DP-1", true, Some(mode(800, 600, 60_000)), (0, 0));
    assert_eq!(
        refuse(&plan, &infos),
        "invalid layout: mode 800x600@60.000 not available on DP-1"
    );
    infos[1].crtcs = vec![10];
    plan.outputs[0] = planned("DP-1", true, hd, (0, 0));
    plan.outputs.push(planned("HDMI-1", true, hd, (1920, 0)));
    assert_eq!(refuse(&plan, &infos), "invalid layout: no free CRTC for HDMI-1");
    plan.outputs[1].enabled = false;
    assert!(x11::plan_apply(&plan, &res, &infos, ApplyMode::Verify).unwrap().is_none());
    plan.serial = "5:8".into();
    assert!(matches!(
        x11::plan_apply(&plan, &res, &infos, ApplyMode::Verify),
        Err(BackendError::StaleSerial)
    ));
}

#[test]
fn old_randr_is_unavailable() {
    assert!(x11::check_version(1, 3).is_ok());
    assert!(x11::check_version(2, 0).is_ok());
    let err = x11::check_version(1, 2).unwrap_err();
    assert_eq!(err.message(), "backend unavailable: RandR 1.2 too old (need 1.3+)");
}

#[test]
fn screen_size_without_pixels() {
    assert_eq!(x11::to_millimeters(100, 10, 0), u16::MAX);
    assert_eq!(x11::to_millimeters(100, 0, 0), 0);
    assert_eq!(x11::to_millimeters(3, 1, 2), 2);
}

// ------------------------------------------------------------------ wlroots

fn mirror() -> Mirror {
    let mut m = Mirror::new();
    for (head, name) in [(1u64, "HDMI-A-1"), (2, "DP-1")] {
        m.add_head(head);
        m.head_event(head, HeadEvent::Name(name.into()));
        let mode = 10 * head;
        m.head_event(head, HeadEvent::Mode(mode));
        m.mode_event(mode, ModeEvent::Size(1920, 1080));
        m.mode_event(mode, ModeEvent::Refresh(60_000));
        m.mode_event(mode, ModeEvent::Preferred);
    }
    m.head_event(2, HeadEvent::Enabled(true));
    m.head_event(2, HeadEvent::CurrentMode(20));
    m.head_event(2, HeadEvent::Scale(scale(1.5)));
    m.head_event(2, HeadEvent::Transform(1));
    m.head_event(2, HeadEvent::Position(7, 8));
    m.head_event(2, HeadEvent::Make("DEL".into()));
    m.head_event(2, HeadEvent::Model("U27".into()));
    m.head_event(2, HeadEvent::SerialNumber("9".into()));
    m.head_event(2, HeadEvent::Description("Dell".into()));
    m
}

#[test]
fn mirror_becomes_a_sorted_topology() {
    let mut m = mirror();
    assert!(!m.done(4), "the first state is no change");
    assert!(m.done(5));
    let topo = wlroots::build_topology(&m);
    assert_eq!(topo.serial, "5");
    let names: Vec<&str> =
        topo.outputs.iter().map(|o| o.identity.connector.as_str()).collect();
    assert_eq!(names, vec!["DP-1", "HDMI-A-1"]);
    let dp = &topo.outputs[0];
    assert!(dp.enabled && dp.primary);
    assert_eq!(dp.mode, Some(mode(1920, 1080, 60_000)));
    assert_eq!(dp.preferred_mode, dp.mode);
    assert_eq!(dp.scale, scale(1.5));
    assert_eq!(dp.transform, Transform::Rot90);
    assert_eq!(dp.position, (7, 8));
    assert_eq!(dp.display_name, "Dell");
    assert_eq!(dp.identity.edid.as_ref().unwrap().product, "U27");
    let tv = &topo.outputs[1];
    assert!(!tv.enabled && !tv.primary);
    assert_eq!(tv.display_name, "HDMI-A-1");
    assert!(tv.identity.edid.is_none());
}

#[test]
fn mirror_follows_heads_and_modes() {
    let mut m = mirror();
    m.head_event(2, HeadEvent::Enabled(false));
    assert!(wlroots::build_topology(&m).outputs[0].mode.is_none());
    m.mode_event(20, ModeEvent::Size(-5, 9));
    assert_eq!(m.modes[1].width, 0);
    m.mode_event(20, ModeEvent::Finished);
    assert_eq!(m.modes.len(), 1);
    m.head_event(99, HeadEvent::Name("x".into()));
    m.head_event(1, HeadEvent::Finished);
    assert_eq!(m.heads.len(), 1);
    assert!(m.modes.is_empty());
}

#[test]
fn wlroots_plans_become_commands() {
    let m = mirror();
    let mut plan = LayoutPlan {
        serial: "0".into(),
        outputs: vec![
            planned("DP-1", false, None, (0, 0)),
            planned("HDMI-A-1", true, Some(mode(1920, 1080, 59_940)), (0, 0)),
        ],
    };
    assert_eq!(
        wlroots::plan_apply(&plan, &m).unwrap(),
        vec![
            HeadCommand::Disable { head: 2 },
            HeadCommand::Enable {
                head: 1,
                mode: 10,
                position: (0, 0),
                transform: Transform::Normal,
                scale: scale(1.0),
            },
        ]
    );
    plan.outputs[1].mode = None;
    let err = wlroots::plan_apply(&plan, &m).unwrap_err();
    assert_eq!(err.message(), "invalid layout: enabled output HDMI-A-1 has no mode");
    plan.outputs[0].identity.connector = "DP-7".into();
    let err = wlroots::plan_apply(&plan, &m).unwrap_err();
    assert_eq!(err.message(), "unknown output: DP-7");
    plan.serial = "1".into();
    assert!(matches!(wlroots::plan_apply(&plan, &m), Err(BackendError::StaleSerial)));
}

#[test]
fn wlroots_answers_are_read() {
    assert!(conclude(Some(ConfigResult::Succeeded)).is_ok());
    assert!(matches!(
        conclude(Some(ConfigResult::Failed)),
        Err(BackendError::InvalidLayout(m)) if m == "compositor rejected the configuration"
    ));
    assert!(matches!(
        conclude(Some(ConfigResult::Cancelled)),
        Err(BackendError::StaleSerial)
    ));
    assert!(matches!(
        conclude(None),
        Err(BackendError::Server(m)) if m == "no response to output configuration"
    ));
}

#[test]
fn only_a_verified_configuration_is_tested() {
    assert_eq!(request_for(ApplyMode::Verify), ConfigRequest::Test);
    assert_eq!(request_for(ApplyMode::Temporary), ConfigRequest::Apply);
    assert_eq!(request_for(ApplyMode::Persistent), ConfigRequest::Apply);
}

// ------------------------------------------------------------------ windows

fn utf16(s: &str) -> Vec<u16> {
    let mut v: Vec<u16> = s.encode_utf16().collect();
    v.push(0);
    v.push(65);
    v
}

fn path(flags: u32, id: u32, device: &str, technology: Technology, source: u32) -> PathInfo {
    PathInfo {
        flags,
        target_id: id,
        target_available: 1,
        technology,
        rotation: Rotation::Identity,
        source_mode: source,
        target_mode: if source == windows::MODE_IDX_INVALID { source } else { source + 1 },
        unresolved: false,
        name: Some(TargetName {
            device_path: utf16(device),
            friendly: utf16(""),
            connector_instance: 0,
            edid_manufacture_id: 0xac10,
            edid_product_code: 0xa0b1,
            registry_edid: None,
        }),
    }
}

fn ccd() -> CcdState {
    let none = windows::MODE_IDX_INVALID;
    let mut gone = path(0, 9, "gone", Technology::Dvi, none);
    gone.target_available = 0;
    CcdState {
        paths: vec![
            path(0, 2, "tv", Technology::Hdmi, none),
            path(0, 1, "desk", Technology::DisplayPort, none),
            path(1, 1, "desk", Technology::DisplayPort, 0),
            path(0, 2, "tv", Technology::Hdmi, none),
            gone,
        ],
        modes: vec![
            windows::ModeInfo::Source { x: 0, y: 0, width: 2560, height: 1440 },
            windows::ModeInfo::Target { numerator: 143_856_000, denominator: 1_000_000 },
        ],
    }
}

#[test]
fn ccd_paths_become_a_topology() {
    let state = ccd();
    let topo = windows::build_topology(&state);
    assert_eq!(topo.serial, windows::state_serial(&state));
    assert_eq!(topo.outputs.len(), 2);
    let desk = &topo.outputs[0];
    assert_eq!(desk.identity.connector, "DP-1");
    assert_eq!(desk.display_name, "DP-1");
    assert!(desk.enabled && desk.primary);
    assert_eq!(desk.mode, Some(mode(2560, 1440, 143_856)));
    assert_eq!(desk.modes, vec![mode(2560, 1440, 143_856)]);
    let edid = desk.identity.edid.as_ref().unwrap();
    assert_eq!((edid.vendor.as_str(), edid.product.as_str()), ("DEL", "0xa0b1"));
    let tv = &topo.outputs[1];
    assert_eq!(tv.identity.connector, "HDMI-2");
    assert!(!tv.enabled && !tv.primary);
    assert!(tv.mode.is_none() && tv.modes.is_empty());
}

#[test]
fn ccd_edits_activate_and_move_paths() {
    let state = ccd();
    let serial = windows::state_serial(&state);
    let mut desk = planned("DP-1", true, None, (100, 50));
    desk.primary = true;
    let mut tv = planned("HDMI-2", true, None, (2660, 50));
    tv.transform = Transform::Rot180;
    let plan = LayoutPlan { serial, outputs: vec![desk, tv] };
    let change = windows::try_apply(&plan, state, ApplyMode::Persistent)
        .unwrap()
        .unwrap()
        .unwrap();
    assert_eq!(
        change.modes[0],
        windows::ModeInfo::Source { x: 0, y: 0, width: 2560, height: 1440 }
    );
    assert_eq!(change.paths[2].flags, 1);
    let tv = &change.paths[0];
    assert_eq!(tv.flags, 1);
    assert_eq!(tv.rotation, Rotation::Rotate180);
    assert!(tv.unresolved);
    assert_eq!(tv.source_mode, windows::MODE_IDX_INVALID);
    assert_ne!(windows::state_serial(&change), windows::state_serial(&ccd()));
}

#[test]
fn a_misplaced_monitor_is_moved_to_its_planned_position() {
    // Windows resolved the TV to the left of the desk display.
    let mut state = ccd();
    state.paths[0].flags = 1;
    state.paths[0].source_mode = 2;
    state.paths[0].target_mode = 1;
    state.modes.push(windows::ModeInfo::Source { x: -1920, y: 0, width: 1920, height: 1080 });
    let serial = windows::state_serial(&state);
    let mut desk = planned("DP-1", true, None, (100, 50));
    desk.primary = true;
    let tv = planned("HDMI-2", true, None, (2660, 50));
    let plan = LayoutPlan { serial: "before".into(), outputs: vec![desk, tv] };
    let change = windows::settle(&plan, state).unwrap();
    assert_ne!(windows::state_serial(&change), serial);
    assert_eq!(
        change.modes[2],
        windows::ModeInfo::Source { x: 2560, y: 0, width: 1920, height: 1080 }
    );
    assert_eq!(change.modes[0], ccd().modes[0]);
    assert_eq!(change.paths[0].source_mode, 2);
    assert!(windows::settle(&plan, change).is_none());
    assert!(windows::settle(&plan, ccd()).is_none());
}

#[test]
fn ccd_disable_clears_the_flag() {
    let state = ccd();
    let serial = windows::state_serial(&state);
    let plan = LayoutPlan { serial, outputs: vec![planned("DP-1", false, None, (0, 0))] };
    assert!(windows::shifts_within(&plan, &state));
    let change =
        windows::plan_apply(&plan, state, ApplyMode::Temporary).unwrap().unwrap();
    assert_eq!(change.paths[2].flags, 0);
    assert!(windows::plan_apply(&plan, ccd(), ApplyMode::Verify).unwrap().is_none());
}

#[test]
fn ccd_plans_are_checked() {
    let serial = windows::state_serial(&ccd());
    let mut plan =
        LayoutPlan { serial, outputs: vec![planned("VGA-1", true, None, (0, 0))] };
    let err = windows::plan_apply(&plan, ccd(), ApplyMode::Temporary).unwrap_err();
    assert_eq!(err.message(), "unknown output: VGA-1");
    plan.outputs[0] = planned("DP-1", true, None, (i32::MIN, 0));
    plan.outputs.push(planned("HDMI-2", true, None, (1, 0)));
    plan.outputs[1].primary = true;
    assert!(windows::try_apply(&plan, ccd(), ApplyMode::Temporary).is_none());
    plan.serial = "0".into();
    assert!(matches!(
        windows::try_apply(&plan, ccd(), ApplyMode::Temporary),
        Some(Err(BackendError::StaleSerial))
    ));
}

#[test]
fn windows_small_parts() {
    assert_eq!(windows::decode_pnp(0xac10), "DEL");
    assert_eq!(windows::tech_label(Technology::EmbeddedDisplayPort), "eDP");
    assert!(windows::is_builtin_tech(Technology::Lvds));
    assert!(!windows::is_builtin_tech(Technology::Dvi));
    assert_eq!(
        windows::registry_subkey(r"\\?\DISPLAY#DEL1234#5&1&0#{guid}").unwrap(),
        r"SYSTEM\CurrentControlSet\Enum\DISPLAY\DEL1234\5&1&0\Device Parameters"
    );
    assert!(windows::registry_subkey("a#b").is_none());
    assert_eq!(
        windows::win_err("QueryDisplayConfig", -5).message(),
        "display server error: QueryDisplayConfig failed with error -5"
    );
    for r in [Rotation::Identity, Rotation::Rotate90, Rotation::Rotate180, Rotation::Rotate270] {
        let t = windows::ccd_rotation_to_transform(r);
        assert_eq!(windows::transform_to_ccd_rotation(t), r);
    }
}

#[test]
fn windows_calls_are_retried() {
    assert!(matches!(after_apply(1, 0), Attempt::Done));
    assert!(matches!(after_apply(2, 31), Attempt::Again));
    let Attempt::GiveUp(e) = after_apply(3, 31) else { panic!("expected an end") };
    assert_eq!(
        e.message(),
        "display server error: SetDisplayConfig failed after 3 attempts (error 31); \
         Windows may need a nudge from Settings > System > Display"
    );
    assert!(matches!(after_query(1, 122), Attempt::Again));
    assert!(matches!(after_query(4, 122), Attempt::GiveUp(_)));
    assert!(matches!(after_query(1, 5), Attempt::GiveUp(_)));
    assert!(matches!(after_query(1, 0), Attempt::Done));
}

// ------------------------------------------------------------------- shared

#[test]
fn obstacles_have_messages() {
    assert_eq!(
        obstacle_error("DP-1", Obstacle::NoCrtc).message(),
        "invalid layout: no free CRTC for DP-1"
    );
    let caps = Capabilities::default();
    assert!(!caps.events && !caps.native_persistence);
}

#[test]
fn backend_errors_have_messages() {
    assert_eq!(
        BackendError::StaleSerial.message(),
        "stale configuration serial; re-snapshot and retry"
    );
    assert_eq!(
        BackendError::OutputUnresponsive("TV".into()).message(),
        "output 'TV' did not respond; wake the monitor (power button) and retry"
    );
}

#[test]
fn topologies_are_cloned_whole() {
    let topo: Topology = gnome::state_to_topology(&sample_state());
    let copy = topo.clone();
    assert_eq!(copy.outputs, topo.outputs);
    assert_eq!(copy.serial, topo.serial);
}

// ------------------------------------------------------- sleeping monitors

#[test]
fn a_sleeping_monitor_is_given_ten_seconds() {
    let failure = || BackendError::Server("no response".into());
    let mut waited = 0;
    let mut failed = 1;
    let error = loop {
        match wake_step(failure(), true, failed) {
            WakeStep::Wait { secs } => waited += secs,
            WakeStep::GiveUp(e) => break e,
        }
        failed += 1;
    };
    assert_eq!((failed, waited), (5, 10));
    assert_eq!(
        error.message(),
        "output 'display server error: no response' did not respond; \
         wake the monitor (power button) and retry"
    );
}

#[test]
fn only_sleeping_monitors_are_waited_for() {
    let failure = || BackendError::Server("no response".into());
    assert!(matches!(
        wake_step(failure(), false, 1),
        WakeStep::GiveUp(BackendError::Server(m)) if m == "no response"
    ));
    let unknown = BackendError::UnknownOutput("DP-1".into());
    assert!(matches!(
        wake_step(unknown, true, 1),
        WakeStep::GiveUp(BackendError::UnknownOutput(m)) if m == "DP-1"
    ));
    let asleep = || BackendError::OutputUnresponsive("DP-1".into());
    assert!(matches!(wake_step(asleep(), true, 4), WakeStep::Wait { secs: 4 }));
    assert!(matches!(
        wake_step(asleep(), true, 5),
        WakeStep::GiveUp(BackendError::OutputUnresponsive(m)) if m == "DP-1"
    ));
}

#[test]
fn plans_that_switch_an_output_on_are_told_apart() {
    let topo = fixtures::desk_with_tv();
    let mut plan = LayoutPlan::from_topology(&topo);
    assert!(!switches_on(&plan, &topo));
    let mut off = topo.clone();
    off.outputs[1].enabled = false;
    assert!(switches_on(&plan, &off));
    plan.outputs[1].enabled = false;
    assert!(!switches_on(&plan, &off));
}
