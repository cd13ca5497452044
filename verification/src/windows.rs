//! Windows backend logic: the paths and modes of the CCD (Connecting and
//! Configuring Displays) API as a topology, and the edits to them that a layout
//! plan asks for.
//!
//! Semantics encoded here:
//! - disable = clear the active flag on the target's path;
//! - enable = mark an available inactive path active with invalid mode indices,
//!   letting Windows resolve modes from its database (which remembers the
//!   monitor's last layout);
//! - a re-enabled monitor that Windows puts somewhere else is moved to its planned
//!   position afterwards;
//! - Windows' "primary display" is whichever sits at (0,0): applying a plan
//!   translates all positions so the planned primary lands there.

use crate::backend::ApplyMode;
use crate::binary64::{ratio_in_thousandths, ratio_thousandths};
use crate::bits::{bit_set, has_bit};
use crate::edid::{self, has_header, holds_identity, pnp_vendor, product_text, vendor_of};
use crate::error::BackendError;
use crate::identity::{copy_edid, EdidId, OutputIdentity};
use crate::layout::enabled_primary;
use crate::seqs::{
    arranged, arranged_holds, arranged_in_order, find_where, first_where, first_where_facts,
    first_where_is, first_where_none, orders, placed_is,
};
use crate::text::{
    before_nul, comes_before, decimal, fields, fields_join_to_the_text, fields_part_at_a_mark,
    hash_text, hexadecimal, join2, join3, notations_tell_numbers_apart, padded_hexadecimal,
    push_decimal, push_hexadecimal, same_text, signed_decimal, signed_decimal_text, split_fields,
    text_before, text_hash, text_order_is_total, text_order_is_transitive,
    text_without_a_mark_is_one_field, utf16_str, utf16_text,
};
use crate::topology::{
    encoding_counts_quarter_turns, transform_code, LayoutPlan, Mode, Output, PlannedOutput, Scale,
    Topology, Transform, ONE_BITS,
};
use vstd::prelude::*;

verus! {

/// How an output is connected.
#[derive(Debug, Clone, Copy, PartialEq, Eq, Structural)]
pub enum Technology {
    Hdmi,
    Dvi,
    DisplayPort,
    EmbeddedDisplayPort,
    Internal,
    Lvds,
    Other,
}

/// Rotation of a path's target.
#[derive(Debug, Clone, Copy, PartialEq, Eq, Structural)]
pub enum Rotation {
    Identity,
    Rotate90,
    Rotate180,
    Rotate270,
}

/// What Windows tells of a monitor.
#[derive(Debug)]
pub struct TargetName {
    /// Device path and friendly name, UTF-16 up to the first NUL.
    pub device_path: Vec<u16>,
    pub friendly: Vec<u16>,
    pub connector_instance: u32,
    pub edid_manufacture_id: u16,
    pub edid_product_code: u16,
    /// The EDID that the registry holds for the device path, if any.
    pub registry_edid: Option<Vec<u8>>,
}

/// A CCD path: a source and a target that can be, or are, connected.
#[derive(Debug)]
pub struct PathInfo {
    pub flags: u32,
    pub target_id: u32,
    /// Nonzero when a monitor is connected.
    pub target_available: i32,
    pub technology: Technology,
    pub rotation: Rotation,
    /// Index of the source mode.
    pub source_mode: u32,
    /// Index of the target mode.
    pub target_mode: u32,
    /// Whether scaling, scan line order and refresh rate are left to Windows.
    pub unresolved: bool,
    /// The monitor's names, if Windows tells them.
    pub name: Option<TargetName>,
}

/// A CCD mode.
#[derive(Debug, Clone, Copy, PartialEq, Eq, Structural)]
pub enum ModeInfo {
    /// Where a source lies on the desktop.
    Source { x: i32, y: i32, width: u32, height: u32 },
    /// The vertical refresh of a target.
    Target { numerator: u32, denominator: u32 },
    Other,
}

/// The display configuration that CCD reports.
#[derive(Debug)]
pub struct CcdState {
    pub paths: Vec<PathInfo>,
    pub modes: Vec<ModeInfo>,
}

/// Path flag of active paths.
pub const PATH_ACTIVE: u32 = 1;

/// Mode index of paths without a mode.
pub const MODE_IDX_INVALID: u32 = 0xffff_ffff;

/// How often an apply is tried.
pub const APPLY_ATTEMPTS: u32 = 3;

/// How often a query is tried while the buffer sizes race.
pub const QUERY_ATTEMPTS: u32 = 4;

// --------------------------------------------------------------- small parts

/// The error about a failed Windows call.
pub fn win_err(context: &str, code: i32) -> (r: BackendError)
    ensures
        r matches BackendError::Server(m) && m@ == context@ + " failed with error "@
            + signed_decimal(code as int),
{
    let mut s = join2(context, " failed with error ");
    s.append(signed_decimal_text(code as i64).as_str());
    BackendError::Server(s)
}

/// The connector prefix of a technology.
pub open spec fn label_of(tech: Technology) -> Seq<char> {
    match tech {
        Technology::Hdmi => "HDMI"@,
        Technology::Dvi => "DVI"@,
        Technology::DisplayPort => "DP"@,
        Technology::EmbeddedDisplayPort => "eDP"@,
        Technology::Internal => "INTERNAL"@,
        Technology::Lvds => "LVDS"@,
        Technology::Other => "OUT"@,
    }
}

/// The connector prefix of a technology.
pub fn tech_label(tech: Technology) -> (r: &'static str)
    ensures
        r@ == label_of(tech),
{
    match tech {
        Technology::Hdmi => "HDMI",
        Technology::Dvi => "DVI",
        Technology::DisplayPort => "DP",
        Technology::EmbeddedDisplayPort => "eDP",
        Technology::Internal => "INTERNAL",
        Technology::Lvds => "LVDS",
        Technology::Other => "OUT",
    }
}

/// Whether a technology is that of a built-in panel.
pub open spec fn builtin_tech(tech: Technology) -> bool {
    tech == Technology::Internal || tech == Technology::Lvds || tech
        == Technology::EmbeddedDisplayPort
}

/// Whether a technology is that of a built-in panel.
pub fn is_builtin_tech(tech: Technology) -> (r: bool)
    ensures
        r == builtin_tech(tech),
{
    match tech {
        Technology::Internal | Technology::Lvds | Technology::EmbeddedDisplayPort => true,
        _ => false,
    }
}

/// Decode the 2-byte EDID manufacture id CCD hands us (big-endian PNP, so that
/// the first byte is the low one).
pub fn decode_pnp(mfg: u16) -> (r: String)
    ensures
        r@ == vendor_of((mfg % 256) as u8, (mfg / 256) as u8),
{
    pnp_vendor((mfg % 256) as u8, (mfg / 256) as u8)
}

/// Where the registry holds the EDID of a device path
/// `\\?\DISPLAY#<hwid>#<instance>#{guid}`; `None` when the path has another form.
pub open spec fn subkey_of(device_path: Seq<char>) -> Option<Seq<char>> {
    let parts = fields(device_path, '#');
    if parts.len() < 3 {
        None
    } else {
        Some(
            "SYSTEM\\CurrentControlSet\\Enum\\DISPLAY\\"@ + parts[1] + "\\"@ + parts[2]
                + "\\Device Parameters"@,
        )
    }
}

/// Where the registry holds the EDID of a device path.
pub fn registry_subkey(device_path: &str) -> (r: Option<String>)
    ensures
        match r {
            Some(k) => subkey_of(device_path@) == Some(k@),
            None => subkey_of(device_path@) is None,
        },
{
    let parts = split_fields(device_path, '#');
    if parts.len() < 3 {
        assert(fields(device_path@, '#').len() == parts@.len());
        return None;
    }
    assert(fields(device_path@, '#')[1] == parts@[1]@);
    assert(fields(device_path@, '#')[2] == parts@[2]@);
    let mut s = join3("SYSTEM\\CurrentControlSet\\Enum\\DISPLAY\\", parts[1].as_str(), "\\");
    s.append(parts[2].as_str());
    s.append("\\Device Parameters");
    Some(s)
}

/// The transform of a rotation.
pub open spec fn rotation_transform(r: Rotation) -> Transform {
    match r {
        Rotation::Identity => Transform::Normal,
        Rotation::Rotate90 => Transform::Rot90,
        Rotation::Rotate180 => Transform::Rot180,
        Rotation::Rotate270 => Transform::Rot270,
    }
}

/// The transform of a rotation.
pub fn ccd_rotation_to_transform(r: Rotation) -> (t: Transform)
    ensures
        t == rotation_transform(r),
{
    match r {
        Rotation::Identity => Transform::Normal,
        Rotation::Rotate90 => Transform::Rot90,
        Rotation::Rotate180 => Transform::Rot180,
        Rotation::Rotate270 => Transform::Rot270,
    }
}

/// The rotation of a transform; CCD knows no reflections.
pub open spec fn transform_rotation(t: Transform) -> Rotation {
    match t {
        Transform::Normal | Transform::Flipped => Rotation::Identity,
        Transform::Rot90 | Transform::FlippedRot90 => Rotation::Rotate90,
        Transform::Rot180 | Transform::FlippedRot180 => Rotation::Rotate180,
        Transform::Rot270 | Transform::FlippedRot270 => Rotation::Rotate270,
    }
}

/// The rotation of a transform; CCD knows no reflections.
pub fn transform_to_ccd_rotation(t: Transform) -> (r: Rotation)
    ensures
        r == transform_rotation(t),
{
    match t {
        Transform::Normal | Transform::Flipped => Rotation::Identity,
        Transform::Rot90 | Transform::FlippedRot90 => Rotation::Rotate90,
        Transform::Rot180 | Transform::FlippedRot180 => Rotation::Rotate180,
        Transform::Rot270 | Transform::FlippedRot270 => Rotation::Rotate270,
    }
}

/// A rotation survives the way to a transform and back.
pub proof fn rotation_round_trip(r: Rotation)
    ensures
        transform_rotation(rotation_transform(r)) == r,
{
}

// ------------------------------------------------------------------- serial

/// The numbers of a path that make up its part of the serial.
pub open spec fn path_words(p: PathInfo) -> Seq<char> {
    decimal(p.flags as nat) + ","@ + decimal(p.target_id as nat) + ","@ + signed_decimal(
        p.target_available as int,
    ) + ","@ + decimal(p.source_mode as nat) + ";"@
}

/// The numbers of a source mode; other modes take no part in the serial.
pub open spec fn mode_words(m: ModeInfo) -> Seq<char> {
    match m {
        ModeInfo::Source { x, y, width, height } => signed_decimal(x as int) + ","@
            + signed_decimal(y as int) + ","@ + decimal(width as nat) + ","@ + decimal(
            height as nat,
        ) + ";"@,
        _ => Seq::empty(),
    }
}

/// The numbers of the paths, one after the other.
pub open spec fn paths_words(paths: Seq<PathInfo>) -> Seq<char>
    decreases paths.len(),
{
    if paths.len() == 0 {
        Seq::empty()
    } else {
        paths_words(paths.drop_last()) + path_words(paths.last())
    }
}

/// The numbers of the source modes, one after the other.
pub open spec fn modes_words(modes: Seq<ModeInfo>) -> Seq<char>
    decreases modes.len(),
{
    if modes.len() == 0 {
        Seq::empty()
    } else {
        modes_words(modes.drop_last()) + mode_words(modes.last())
    }
}

/// What the serial is a hash of.
pub open spec fn state_words(state: CcdState) -> Seq<char> {
    paths_words(state.paths@) + "|"@ + modes_words(state.modes@)
}

/// The configuration serial: CCD has none, a hash of the state stands for it.
pub open spec fn serial_of(state: CcdState) -> Seq<char> {
    hexadecimal(text_hash(state_words(state)) as nat)
}

/// Write down the numbers that make up the serial.
pub fn describe_state(state: &CcdState) -> (r: String)
    ensures
        r@ == state_words(*state),
{
    let mut s = String::new();
    assert(s@ =~= paths_words(state.paths@.take(0)));
    for i in 0..state.paths.len()
        invariant
            s@ == paths_words(state.paths@.take(i as int)),
    {
        let ghost before = s@;
        assert(state.paths@.take(i + 1).drop_last() =~= state.paths@.take(i as int));
        let p = &state.paths[i];
        push_decimal(&mut s, p.flags as u64);
        s.append(",");
        push_decimal(&mut s, p.target_id as u64);
        s.append(",");
        s.append(signed_decimal_text(p.target_available as i64).as_str());
        s.append(",");
        push_decimal(&mut s, p.source_mode as u64);
        s.append(";");
        assert(s@ =~= before + path_words(*p));
    }
    assert(state.paths@.take(state.paths@.len() as int) =~= state.paths@);
    s.append("|");
    let ghost prefix = s@;
    assert(s@ =~= prefix + modes_words(state.modes@.take(0)));
    for i in 0..state.modes.len()
        invariant
            s@ == prefix + modes_words(state.modes@.take(i as int)),
    {
        let ghost before = s@;
        assert(state.modes@.take(i + 1).drop_last() =~= state.modes@.take(i as int));
        if let ModeInfo::Source { x, y, width, height } = state.modes[i] {
            s.append(signed_decimal_text(x as i64).as_str());
            s.append(",");
            s.append(signed_decimal_text(y as i64).as_str());
            s.append(",");
            push_decimal(&mut s, width as u64);
            s.append(",");
            push_decimal(&mut s, height as u64);
            s.append(";");
        }
        assert(s@ =~= before + mode_words(state.modes@[i as int]));
        assert(s@ =~= prefix + modes_words(state.modes@.take(i + 1)));
    }
    assert(state.modes@.take(state.modes@.len() as int) =~= state.modes@);
    s
}

/// The configuration serial of a state.
pub fn state_serial(state: &CcdState) -> (r: String)
    ensures
        r@ == serial_of(*state),
{
    let mut s = String::new();
    push_hexadecimal(&mut s, hash_text(describe_state(state).as_str()));
    assert(s@ =~= serial_of(*state));
    s
}

// ------------------------------------------------------------------ targets

/// One connected monitor as assembled from CCD paths and target device names.
#[derive(Debug)]
pub struct TargetView {
    pub path_index: usize,
    pub connector: String,
    pub friendly: String,
    pub device_path: String,
    pub edid: Option<EdidId>,
    pub builtin: bool,
    pub active: bool,
    pub mode: Option<Mode>,
    pub position: (i32, i32),
    pub transform: Transform,
}

/// Which paths a monitor is seen by: the first that names it, and the one that
/// it is driven by, which is the first active one if there is any.
#[verifier::ext_equal]
pub struct Slot {
    pub first: int,
    pub chosen: int,
    pub active: bool,
}

/// Whether a path is active.
pub open spec fn path_active(p: PathInfo) -> bool {
    has_bit(p.flags as int, PATH_ACTIVE as int)
}

/// Whether a path leads to a connected monitor that Windows names.
pub open spec fn reaches_monitor(p: PathInfo) -> bool {
    p.target_available != 0 && p.name is Some
}

/// The device path of the monitor that a path leads to.
pub open spec fn device_of(p: PathInfo) -> Seq<char> {
    utf16_text(before_nul(p.name->0.device_path@))
}

/// The connector of the monitor that a path leads to.
pub open spec fn connector_of(p: PathInfo) -> Seq<char> {
    label_of(p.technology) + "-"@ + decimal(
        if p.name->0.connector_instance != 0 {
            p.name->0.connector_instance as nat
        } else {
            p.target_id as nat
        },
    )
}

/// The condition that a slot is for a device.
pub open spec fn slot_for(paths: Seq<PathInfo>, device: Seq<char>) -> spec_fn(Slot) -> bool {
    |s: Slot| device_of(paths[s.first]) == device
}

/// The monitors that the first `n` paths lead to.
pub open spec fn slots(paths: Seq<PathInfo>, n: int) -> Seq<Slot>
    decreases n,
{
    if n <= 0 {
        Seq::empty()
    } else {
        let before = slots(paths, n - 1);
        let p = paths[n - 1];
        if !reaches_monitor(p) {
            before
        } else {
            match first_where(before, slot_for(paths, device_of(p))) {
                Some(k) => if path_active(p) && !before[k].active {
                    before.update(k, Slot { first: before[k].first, chosen: n - 1, active: true })
                } else {
                    before
                },
                None => before.push(Slot { first: n - 1, chosen: n - 1, active: path_active(p) }),
            }
        }
    }
}

/// The order of monitors: by connector.
pub open spec fn connector_before(paths: Seq<PathInfo>) -> spec_fn(Slot, Slot) -> bool {
    |a: Slot, b: Slot| text_before(connector_of(paths[a.first]), connector_of(paths[b.first]))
}

/// The monitors of a state, ordered by connector.
pub open spec fn targets(paths: Seq<PathInfo>) -> Seq<Slot> {
    arranged(slots(paths, paths.len() as int), connector_before(paths))
}

/// The source mode that a path is in.
pub open spec fn source_of(p: PathInfo, modes: Seq<ModeInfo>) -> Option<ModeInfo> {
    if p.source_mode != MODE_IDX_INVALID && p.source_mode < modes.len()
        && modes[p.source_mode as int] is Source {
        Some(modes[p.source_mode as int])
    } else {
        None
    }
}

/// The refresh rate that a path's target has, in millihertz.
pub open spec fn refresh_of(p: PathInfo, modes: Seq<ModeInfo>) -> Option<u32> {
    if p.target_mode != MODE_IDX_INVALID && p.target_mode < modes.len() {
        match modes[p.target_mode as int] {
            ModeInfo::Target { numerator, denominator } => if denominator != 0 {
                Some(ratio_in_thousandths(numerator as nat, denominator as nat))
            } else {
                None
            },
            _ => None,
        }
    } else {
        None
    }
}

/// The position that an active path gives its monitor.
pub open spec fn position_of(p: PathInfo, modes: Seq<ModeInfo>) -> (i32, i32) {
    match source_of(p, modes) {
        Some(ModeInfo::Source { x, y, .. }) => (x, y),
        _ => (0i32, 0i32),
    }
}

/// The mode that an active path gives its monitor; 60 Hz unless the target
/// tells otherwise.
pub open spec fn mode_of(p: PathInfo, modes: Seq<ModeInfo>) -> Option<Mode> {
    match source_of(p, modes) {
        Some(ModeInfo::Source { width, height, .. }) => Some(
            Mode {
                width,
                height,
                refresh_mhz: match refresh_of(p, modes) {
                    Some(r) => r,
                    None => 60_000,
                },
            },
        ),
        _ => None,
    }
}

/// Whether an EDID identity is the one that Windows knows of a monitor: from the
/// registry, otherwise from the ids that CCD hands out, if there are any.
pub open spec fn edid_shown(e: Option<EdidId>, name: TargetName) -> bool {
    match name.registry_edid {
        Some(b) if b@.len() >= 128 && has_header(b@) => holds_identity(e, b@),
        _ => if name.edid_manufacture_id != 0 {
            &&& e is Some
            &&& e->0.vendor@ == vendor_of(
                (name.edid_manufacture_id % 256) as u8,
                (name.edid_manufacture_id / 256) as u8,
            )
            &&& e->0.product@ == "0x"@ + padded_hexadecimal(name.edid_product_code as nat, 4)
            &&& e->0.serial@ == Seq::<char>::empty()
        } else {
            e is None
        },
    }
}

/// Whether a view is that of a monitor.
pub open spec fn views(v: TargetView, s: Slot, paths: Seq<PathInfo>, modes: Seq<ModeInfo>) -> bool {
    let first = paths[s.first];
    let chosen = paths[s.chosen];
    &&& v.path_index == s.chosen
    &&& v.connector@ == connector_of(first)
    &&& v.friendly@ == utf16_text(before_nul(first.name->0.friendly@))
    &&& v.device_path@ == device_of(first)
    &&& edid_shown(v.edid, first.name->0)
    &&& v.builtin == builtin_tech(first.technology)
    &&& v.active == s.active
    &&& if s.active {
        &&& v.mode == mode_of(chosen, modes)
        &&& v.position == position_of(chosen, modes)
        &&& v.transform == rotation_transform(chosen.rotation)
    } else {
        &&& v.mode is None
        &&& v.position == (0i32, 0i32)
        &&& v.transform == rotation_transform(first.rotation)
    }
}

/// Whether views are those of the monitors, one by one.
pub open spec fn all_viewed(
    list: Seq<TargetView>,
    s: Seq<Slot>,
    paths: Seq<PathInfo>,
    modes: Seq<ModeInfo>,
) -> bool {
    &&& list.len() == s.len()
    &&& forall|i: int| 0 <= i < list.len() ==> views(#[trigger] list[i], s[i], paths, modes)
}

fn is_active(p: &PathInfo) -> (r: bool)
    ensures
        r == path_active(*p),
{
    bit_set(p.flags, PATH_ACTIVE)
}

/// Take over what an active path says of its monitor.
fn fill_active_fields(view: &mut TargetView, modes: &Vec<ModeInfo>, p: &PathInfo)
    requires
        old(view).mode is None,
        old(view).position == (0i32, 0i32),
    ensures
        final(view).mode == mode_of(*p, modes@),
        final(view).position == position_of(*p, modes@),
        final(view).transform == rotation_transform(p.rotation),
        *final(view) == (TargetView {
            mode: final(view).mode,
            position: final(view).position,
            transform: final(view).transform,
            ..*old(view)
        }),
{
    view.transform = ccd_rotation_to_transform(p.rotation);
    if p.source_mode == MODE_IDX_INVALID || p.source_mode as usize >= modes.len() {
        return ;
    }
    let (x, y, width, height): (i32, i32, u32, u32) = match modes[p.source_mode as usize] {
        ModeInfo::Source { x, y, width, height } => (x, y, width, height),
        _ => {
            return ;
        },
    };
    view.position = (x, y);
    let mut refresh_mhz: u32 = 60_000;
    if p.target_mode != MODE_IDX_INVALID && (p.target_mode as usize) < modes.len() {
        if let ModeInfo::Target { numerator, denominator } = modes[p.target_mode as usize] {
            if denominator != 0 {
                refresh_mhz = ratio_thousandths(numerator as u64, denominator as u64);
            }
        }
    }
    view.mode = Some(Mode { width, height, refresh_mhz });
}

fn read_edid(name: &TargetName) -> (r: Option<EdidId>)
    ensures
        edid_shown(r, *name),
{
    if let Some(b) = &name.registry_edid {
        let e = edid::parse(b.as_slice());
        if e.is_some() {
            return e;
        }
    }
    if name.edid_manufacture_id != 0 {
        Some(
            EdidId {
                vendor: decode_pnp(name.edid_manufacture_id),
                product: product_text(name.edid_product_code),
                serial: String::new(),
            },
        )
    } else {
        None
    }
}

fn connector_text(p: &PathInfo, name: &TargetName) -> (r: String)
    requires
        p.name == Some(*name),
    ensures
        r@ == connector_of(*p),
{
    let mut s = join2(tech_label(p.technology), "-");
    let number: u32 = if name.connector_instance != 0 {
        name.connector_instance
    } else {
        p.target_id
    };
    push_decimal(&mut s, number as u64);
    s
}

fn new_view(i: usize, p: &PathInfo, name: &TargetName, modes: &Vec<ModeInfo>, Ghost(paths): Ghost<
    Seq<PathInfo>,
>) -> (r: TargetView)
    requires
        i < paths.len(),
        paths[i as int] == *p,
        p.name == Some(*name),
    ensures
        views(r, Slot { first: i as int, chosen: i as int, active: path_active(*p) }, paths, modes@),
{
    let active = is_active(p);
    let mut view = TargetView {
        path_index: i,
        connector: connector_text(p, name),
        friendly: utf16_str(&name.friendly),
        device_path: utf16_str(&name.device_path),
        edid: read_edid(name),
        builtin: is_builtin_tech(p.technology),
        active,
        mode: None,
        position: (0, 0),
        transform: ccd_rotation_to_transform(p.rotation),
    };
    if active {
        fill_active_fields(&mut view, modes, p);
    }
    view
}

fn find_device(list: &Vec<TargetView>, device: &str) -> (r: Option<usize>)
    ensures
        match r {
            Some(k) => {
                &&& k < list@.len()
                &&& list@[k as int].device_path@ == device@
                &&& forall|j: int| 0 <= j < k ==> (#[trigger] list@[j]).device_path@ != device@
            },
            None => forall|j: int|
                0 <= j < list@.len() ==> (#[trigger] list@[j]).device_path@ != device@,
        },
{
    for i in 0..list.len()
        invariant
            forall|j: int| 0 <= j < i ==> (#[trigger] list@[j]).device_path@ != device@,
    {
        if same_text(list[i].device_path.as_str(), device) {
            return Some(i);
        }
    }
    None
}

/// A slot's paths are among those looked at, and the chosen one is active
/// exactly when the slot is.
proof fn slots_in_range(paths: Seq<PathInfo>, n: int)
    requires
        0 <= n <= paths.len(),
    ensures
        forall|k: int|
            0 <= k < slots(paths, n).len() ==> {
                let s = #[trigger] slots(paths, n)[k];
                &&& 0 <= s.first < n
                &&& 0 <= s.chosen < n
                &&& s.active == path_active(paths[s.chosen])
                &&& !s.active ==> s.chosen == s.first
                &&& reaches_monitor(paths[s.first])
            },
    decreases n,
{
    if n > 0 {
        slots_in_range(paths, n - 1);
        let before = slots(paths, n - 1);
        let p = paths[n - 1];
        if reaches_monitor(p) {
            first_where_facts(before, slot_for(paths, device_of(p)));
            let now = slots(paths, n);
            assert forall|k: int| 0 <= k < now.len() implies {
                let s = #[trigger] now[k];
                &&& 0 <= s.first < n
                &&& 0 <= s.chosen < n
                &&& s.active == path_active(paths[s.chosen])
                &&& !s.active ==> s.chosen == s.first
                &&& reaches_monitor(paths[s.first])
            } by {
                if k < before.len() {
                    let b = before[k];
                    assert(0 <= b.first < n - 1);
                }
            }
        }
    }
}

/// Look at one more path.
fn take_in(list: &mut Vec<TargetView>, state: &CcdState, i: usize)
    requires
        i < state.paths@.len(),
        all_viewed(old(list)@, slots(state.paths@, i as int), state.paths@, state.modes@),
    ensures
        all_viewed(final(list)@, slots(state.paths@, i + 1), state.paths@, state.modes@),
{
    let ghost paths = state.paths@;
    let ghost modes = state.modes@;
    let p = &state.paths[i];
    if p.target_available == 0 {
        return ;
    }
    let name = match &p.name {
        Some(n) => n,
        None => {
            return ;
        },
    };
    let ghost before = slots(paths, i as int);
    let ghost now = slots(paths, i + 1);
    let ghost same = slot_for(paths, device_of(*p));
    let ghost old_list = list@;
    let device_path = utf16_str(&name.device_path);
    match find_device(list, device_path.as_str()) {
        Some(k) => {
            proof {
                assert(views(list@[k as int], before[k as int], paths, modes));
                assert forall|j: int| 0 <= j < k implies !same(before[j]) by {
                    assert(views(list@[j], before[j], paths, modes));
                }
                first_where_is(before, same, k as int);
                slots_in_range(paths, i as int);
            }
            if is_active(p) && !list[k].active {
                let mut view = list.remove(k);
                view.active = true;
                view.path_index = i;
                fill_active_fields(&mut view, &state.modes, p);
                list.insert(k, view);
                proof {
                    assert forall|j: int| 0 <= j < list@.len() implies views(
                        #[trigger] list@[j],
                        now[j],
                        paths,
                        modes,
                    ) by {
                        if j != k {
                            assert(list@[j] == old_list[j]);
                            assert(views(old_list[j], before[j], paths, modes));
                        }
                    }
                }
            }
        },
        None => {
            proof {
                assert forall|j: int| 0 <= j < before.len() implies !same(before[j]) by {
                    assert(views(list@[j], before[j], paths, modes));
                }
                first_where_none(before, same);
            }
            list.push(new_view(i, p, name, &state.modes, Ghost(paths)));
            proof {
                assert forall|j: int| 0 <= j < list@.len() implies views(
                    #[trigger] list@[j],
                    now[j],
                    paths,
                    modes,
                ) by {
                    if j < old_list.len() {
                        assert(views(old_list[j], before[j], paths, modes));
                    }
                }
            }
        },
    }
}

fn collect_unsorted(state: &CcdState) -> (r: Vec<TargetView>)
    ensures
        all_viewed(
            r@,
            slots(state.paths@, state.paths@.len() as int),
            state.paths@,
            state.modes@,
        ),
{
    let mut list: Vec<TargetView> = Vec::new();
    for i in 0..state.paths.len()
        invariant
            all_viewed(list@, slots(state.paths@, i as int), state.paths@, state.modes@),
    {
        take_in(&mut list, state, i);
    }
    list
}

fn insertion_index(list: &Vec<TargetView>, connector: &str) -> (k: usize)
    ensures
        k <= list@.len(),
        forall|j: int|
            k <= j < list@.len() ==> text_before(connector@, (#[trigger] list@[j]).connector@),
        k > 0 ==> !text_before(connector@, list@[k - 1].connector@),
{
    let mut k: usize = list.len();
    while k > 0 && comes_before(connector, list[k - 1].connector.as_str())
        invariant
            k <= list@.len(),
            forall|j: int|
                k <= j < list@.len() ==> text_before(connector@, (#[trigger] list@[j]).connector@),
        decreases k,
    {
        k = k - 1;
    }
    k
}

/// Assemble per-target views from the CCD state. For inactive targets CCD
/// reports one path per possible source; the first available one is kept. One
/// view per physical monitor; the active path is preferred.
pub fn collect_targets(state: &CcdState) -> (r: Vec<TargetView>)
    ensures
        all_viewed(r@, targets(state.paths@), state.paths@, state.modes@),
{
    let mut rest = collect_unsorted(state);
    let mut sorted: Vec<TargetView> = Vec::new();
    let n: usize = rest.len();
    let ghost paths = state.paths@;
    let ghost modes = state.modes@;
    let ghost all = slots(paths, paths.len() as int);
    let ghost p = connector_before(paths);
    assert(all.skip(0) =~= all);
    let mut i: usize = 0;
    while i < n
        invariant
            i <= n == all.len(),
            paths == state.paths@,
            modes == state.modes@,
            p == connector_before(paths),
            all_viewed(rest@, all.skip(i as int), paths, modes),
            all_viewed(sorted@, arranged(all.take(i as int), p), paths, modes),
        decreases n - i,
    {
        let ghost before = arranged(all.take(i as int), p);
        let ghost slot = all[i as int];
        let ghost old_rest = rest@;
        proof {
            assert(all.skip(i as int)[0] == slot);
            assert(views(rest@[0], slot, paths, modes));
        }
        let v = rest.remove(0);
        let k = insertion_index(&sorted, v.connector.as_str());
        let ghost old_sorted = sorted@;
        proof {
            assert forall|j: int| k <= j < before.len() implies p(slot, #[trigger] before[j]) by {
                assert(views(sorted@[j], before[j], paths, modes));
            }
            if k > 0 {
                assert(views(sorted@[k - 1], before[k - 1], paths, modes));
            }
            placed_is(before, slot, p, k as int);
            assert(all.take(i + 1).drop_last() =~= all.take(i as int));
        }
        sorted.insert(k, v);
        proof {
            let now = arranged(all.take(i + 1), p);
            assert(now == before.insert(k as int, slot));
            assert forall|j: int| 0 <= j < sorted@.len() implies views(
                #[trigger] sorted@[j],
                now[j],
                paths,
                modes,
            ) by {
                if j < k {
                    assert(views(old_sorted[j], before[j], paths, modes));
                } else if j > k {
                    assert(views(old_sorted[j - 1], before[j - 1], paths, modes));
                }
            }
            let later = all.skip(i + 1);
            assert forall|j: int| 0 <= j < rest@.len() implies views(
                #[trigger] rest@[j],
                later[j],
                paths,
                modes,
            ) by {
                assert(views(old_rest[j + 1], all.skip(i as int)[j + 1], paths, modes));
            }
        }
        i = i + 1;
    }
    assert(all.take(n as int) =~= all);
    sorted
}

// ----------------------------------------------------------------- snapshot

/// The modes that an output offers: CCD doesn't enumerate them, so the current
/// one only.
pub open spec fn offered(mode: Option<Mode>) -> Seq<Mode> {
    match mode {
        Some(m) => seq![m],
        None => Seq::empty(),
    }
}

/// Whether an output is the one that a view stands for. The primary display is
/// the active one at the origin.
pub open spec fn described(o: Output, v: TargetView) -> bool {
    &&& o.identity.connector@ == v.connector@
    &&& o.identity.edid == v.edid
    &&& o.alias is None
    &&& o.display_name@ == if v.friendly@.len() == 0 {
        v.connector@
    } else {
        v.friendly@
    }
    &&& o.builtin == v.builtin
    &&& o.enabled == v.active
    &&& o.mode == v.mode
    &&& o.preferred_mode is None
    &&& o.modes@ == offered(v.mode)
    &&& o.position == v.position
    &&& o.scale.bits == ONE_BITS
    &&& o.transform == v.transform
    &&& o.primary == (v.active && v.position == (0i32, 0i32))
}

/// The output that a view stands for.
pub fn read_target(v: &TargetView) -> (r: Output)
    ensures
        described(r, *v),
{
    let nameless = same_text(v.friendly.as_str(), "");
    proof {
        reveal_strlit("");
        if v.friendly@.len() == 0 {
            assert(v.friendly@ =~= ""@);
        }
    }
    let display_name: String = if nameless {
        v.connector.clone()
    } else {
        v.friendly.clone()
    };
    let mut modes: Vec<Mode> = Vec::new();
    if let Some(m) = v.mode {
        modes.push(m);
    }
    assert(modes@ =~= offered(v.mode));
    Output {
        identity: OutputIdentity { edid: copy_edid(&v.edid), connector: v.connector.clone() },
        alias: None,
        display_name,
        builtin: v.builtin,
        enabled: v.active,
        mode: v.mode,
        preferred_mode: None,
        modes,
        position: v.position,
        scale: Scale::one(),
        transform: v.transform,
        primary: v.active && v.position.0 == 0 && v.position.1 == 0,
    }
}

/// Whether an output is that of a monitor.
pub open spec fn shown(o: Output, s: Slot, paths: Seq<PathInfo>, modes: Seq<ModeInfo>) -> bool {
    exists|v: TargetView| views(v, s, paths, modes) && #[trigger] described(o, v)
}

/// The topology that a CCD state is.
pub fn build_topology(state: &CcdState) -> (r: Topology)
    ensures
        r.serial@ == serial_of(*state),
        r.outputs@.len() == targets(state.paths@).len(),
        forall|i: int|
            0 <= i < r.outputs@.len() ==> shown(
                #[trigger] r.outputs@[i],
                targets(state.paths@)[i],
                state.paths@,
                state.modes@,
            ),
{
    let list = collect_targets(state);
    let mut outputs: Vec<Output> = Vec::new();
    for i in 0..list.len()
        invariant
            all_viewed(list@, targets(state.paths@), state.paths@, state.modes@),
            outputs@.len() == i,
            forall|j: int|
                0 <= j < i ==> shown(
                    #[trigger] outputs@[j],
                    targets(state.paths@)[j],
                    state.paths@,
                    state.modes@,
                ),
    {
        let o = read_target(&list[i]);
        proof {
            let v = list@[i as int];
            assert(views(v, targets(state.paths@)[i as int], state.paths@, state.modes@)
                && described(o, v));
        }
        outputs.push(o);
    }
    Topology { serial: state_serial(state), outputs }
}

// -------------------------------------------------------------------- apply

/// Flags with the active flag set.
pub open spec fn activated(flags: u32) -> u32 {
    if has_bit(flags as int, PATH_ACTIVE as int) {
        flags
    } else {
        (flags + 1) as u32
    }
}

/// Flags with the active flag cleared.
pub open spec fn deactivated(flags: u32) -> u32 {
    if has_bit(flags as int, PATH_ACTIVE as int) {
        (flags - 1) as u32
    } else {
        flags
    }
}

fn activate(flags: u32) -> (r: u32)
    ensures
        r == activated(flags),
{
    if bit_set(flags, PATH_ACTIVE) {
        flags
    } else {
        flags + 1
    }
}

fn deactivate(flags: u32) -> (r: u32)
    ensures
        r == deactivated(flags),
{
    if bit_set(flags, PATH_ACTIVE) {
        flags - 1
    } else {
        flags
    }
}

/// The condition that a slot has a connector.
pub open spec fn slot_at(paths: Seq<PathInfo>, connector: Seq<char>) -> spec_fn(Slot) -> bool {
    |s: Slot| connector_of(paths[s.first]) == connector
}

/// The monitor at a connector.
pub open spec fn target_at(paths: Seq<PathInfo>, connector: Seq<char>) -> Option<Slot> {
    find_where(targets(paths), slot_at(paths, connector))
}

/// The condition that no monitor is at a planned connector.
pub open spec fn unreachable_output(paths: Seq<PathInfo>) -> spec_fn(PlannedOutput) -> bool {
    |p: PlannedOutput| target_at(paths, p.identity.connector@) is None
}

/// Where the planned primary output lies.
pub open spec fn origin_of(plan: Seq<PlannedOutput>) -> (i32, i32) {
    match find_where(plan, enabled_primary()) {
        Some(p) => p.position,
        None => (0i32, 0i32),
    }
}

/// A path after the edit for a planned output.
pub open spec fn path_after(p: PlannedOutput, s: Slot, path: PathInfo) -> PathInfo {
    if !p.enabled {
        PathInfo { flags: deactivated(path.flags), ..path }
    } else if s.active {
        PathInfo {
            flags: activated(path.flags),
            rotation: transform_rotation(p.transform),
            ..path
        }
    } else {
        PathInfo {
            flags: activated(path.flags),
            rotation: transform_rotation(p.transform),
            source_mode: MODE_IDX_INVALID,
            target_mode: MODE_IDX_INVALID,
            unresolved: true,
            ..path
        }
    }
}

/// Whether the edit for a planned output moves a source mode.
pub open spec fn moves_source(
    p: PlannedOutput,
    s: Slot,
    path: PathInfo,
    modes: Seq<ModeInfo>,
) -> bool {
    p.enabled && s.active && source_of(path, modes) is Some
}

/// The modes after the edit for a planned output: an output that is already on
/// moves to its planned position.
pub open spec fn modes_after(
    p: PlannedOutput,
    s: Slot,
    path: PathInfo,
    modes: Seq<ModeInfo>,
    origin: (i32, i32),
) -> Seq<ModeInfo> {
    if moves_source(p, s, path, modes) {
        match modes[path.source_mode as int] {
            ModeInfo::Source { width, height, .. } => modes.update(
                path.source_mode as int,
                ModeInfo::Source {
                    x: (p.position.0 - origin.0) as i32,
                    y: (p.position.1 - origin.1) as i32,
                    width,
                    height,
                },
            ),
            _ => modes,
        }
    } else {
        modes
    }
}

/// Paths and modes after the edits for the first `n` planned outputs.
pub open spec fn edited(
    plan: Seq<PlannedOutput>,
    paths: Seq<PathInfo>,
    modes: Seq<ModeInfo>,
    n: int,
) -> (Seq<PathInfo>, Seq<ModeInfo>)
    decreases n,
{
    if n <= 0 {
        (paths, modes)
    } else {
        let before = edited(plan, paths, modes, n - 1);
        let p = plan[n - 1];
        let s = target_at(paths, p.identity.connector@)->0;
        let path = before.0[s.chosen];
        (
            before.0.update(s.chosen, path_after(p, s, path)),
            modes_after(p, s, path, before.1, origin_of(plan)),
        )
    }
}

/// Whether the planned position of an output, seen from the planned primary, is
/// a coordinate.
pub open spec fn shift_fits(p: PlannedOutput, origin: (i32, i32)) -> bool {
    &&& i32::MIN <= p.position.0 - origin.0 <= i32::MAX
    &&& i32::MIN <= p.position.1 - origin.1 <= i32::MAX
}

/// Whether every output that moves has a position that is a coordinate.
pub open spec fn shifts_fit(plan: Seq<PlannedOutput>, state: CcdState) -> bool {
    forall|i: int|
        0 <= i < plan.len() ==> match target_at(
            state.paths@,
            (#[trigger] plan[i]).identity.connector@,
        ) {
            Some(s) => moves_source(plan[i], s, state.paths@[s.chosen], state.modes@)
                ==> shift_fits(plan[i], origin_of(plan)),
            None => true,
        }
}

/// The monitors' paths are paths of the state.
proof fn targets_in_range(paths: Seq<PathInfo>)
    ensures
        forall|k: int|
            0 <= k < targets(paths).len() ==> {
                let s = #[trigger] targets(paths)[k];
                &&& 0 <= s.first < paths.len()
                &&& 0 <= s.chosen < paths.len()
                &&& s.active == path_active(paths[s.chosen])
            },
{
    let all = slots(paths, paths.len() as int);
    slots_in_range(paths, paths.len() as int);
    assert forall|k: int| 0 <= k < targets(paths).len() implies {
        let s = #[trigger] targets(paths)[k];
        &&& 0 <= s.first < paths.len()
        &&& 0 <= s.chosen < paths.len()
        &&& s.active == path_active(paths[s.chosen])
    } by {
        arranged_holds(all, connector_before(paths), k);
        let j = choose|j: int| 0 <= j < all.len() && all[j] == targets(paths)[k];
        assert(all[j] == targets(paths)[k]);
    }
}

fn find_target(list: &Vec<TargetView>, connector: &str, Ghost(state): Ghost<CcdState>) -> (r: Option<
    usize,
>)
    requires
        all_viewed(list@, targets(state.paths@), state.paths@, state.modes@),
    ensures
        match (r, target_at(state.paths@, connector@)) {
            (Some(k), Some(s)) => k < list@.len() && targets(state.paths@)[k as int] == s,
            (None, None) => true,
            _ => false,
        },
{
    let ghost paths = state.paths@;
    let ghost p = slot_at(paths, connector@);
    for i in 0..list.len()
        invariant
            paths == state.paths@,
            p == slot_at(paths, connector@),
            all_viewed(list@, targets(paths), paths, state.modes@),
            forall|j: int| 0 <= j < i ==> !p(targets(paths)[j]),
    {
        assert(views(list@[i as int], targets(paths)[i as int], paths, state.modes@));
        if same_text(list[i].connector.as_str(), connector) {
            proof {
                first_where_is(targets(paths), p, i as int);
            }
            return Some(i);
        }
    }
    proof {
        first_where_none(targets(paths), p);
    }
    None
}

fn find_origin(plan: &LayoutPlan) -> (r: (i32, i32))
    ensures
        r == origin_of(plan.outputs@),
{
    for i in 0..plan.outputs.len()
        invariant
            forall|j: int| 0 <= j < i ==> !enabled_primary()(plan.outputs@[j]),
    {
        let p = &plan.outputs[i];
        if p.enabled && p.primary {
            proof {
                first_where_is(plan.outputs@, enabled_primary(), i as int);
            }
            return p.position;
        }
    }
    proof {
        first_where_none(plan.outputs@, enabled_primary());
    }
    (0, 0)
}

fn has_source(path: &PathInfo, modes: &Vec<ModeInfo>) -> (r: bool)
    ensures
        r == (source_of(*path, modes@) is Some),
{
    if path.source_mode == MODE_IDX_INVALID || path.source_mode as usize >= modes.len() {
        return false;
    }
    match modes[path.source_mode as usize] {
        ModeInfo::Source { .. } => true,
        _ => false,
    }
}

/// Whether every output that moves has a position that is a coordinate.
pub fn shifts_within(plan: &LayoutPlan, state: &CcdState) -> (r: bool)
    ensures
        r == shifts_fit(plan.outputs@, *state),
{
    let list = collect_targets(state);
    let origin = find_origin(plan);
    proof {
        targets_in_range(state.paths@);
    }
    for i in 0..plan.outputs.len()
        invariant
            all_viewed(list@, targets(state.paths@), state.paths@, state.modes@),
            origin == origin_of(plan.outputs@),
            forall|k: int|
                0 <= k < targets(state.paths@).len() ==> 0 <= (
                #[trigger] targets(state.paths@)[k]).chosen < state.paths@.len(),
            forall|j: int|
                0 <= j < i ==> match target_at(
                    state.paths@,
                    (#[trigger] plan.outputs@[j]).identity.connector@,
                ) {
                    Some(s) => moves_source(
                        plan.outputs@[j],
                        s,
                        state.paths@[s.chosen],
                        state.modes@,
                    ) ==> shift_fits(plan.outputs@[j], origin),
                    None => true,
                },
    {
        let p = &plan.outputs[i];
        if let Some(k) = find_target(&list, p.identity.connector.as_str(), Ghost(*state)) {
            assert(views(
                list@[k as int],
                targets(state.paths@)[k as int],
                state.paths@,
                state.modes@,
            ));
            let v = &list[k];
            if p.enabled && v.active && has_source(&state.paths[v.path_index], &state.modes) {
                let x: i64 = p.position.0 as i64 - origin.0 as i64;
                let y: i64 = p.position.1 as i64 - origin.1 as i64;
                if x < i32::MIN as i64 || x > i32::MAX as i64 || y < i32::MIN as i64 || y
                    > i32::MAX as i64 {
                    assert(!shift_fits(plan.outputs@[i as int], origin));
                    return false;
                }
            }
        }
    }
    true
}

/// Edit the state for one planned output.
fn edit_one(p: &PlannedOutput, v: &TargetView, state: &mut CcdState, origin: (i32, i32), Ghost(
    s,
): Ghost<Slot>)
    requires
        v.path_index == s.chosen,
        v.active == s.active,
        0 <= s.chosen < old(state).paths@.len(),
        moves_source(*p, s, old(state).paths@[s.chosen], old(state).modes@) ==> shift_fits(
            *p,
            origin,
        ),
    ensures
        final(state).paths@ == old(state).paths@.update(
            s.chosen,
            path_after(*p, s, old(state).paths@[s.chosen]),
        ),
        final(state).modes@ == modes_after(
            *p,
            s,
            old(state).paths@[s.chosen],
            old(state).modes@,
            origin,
        ),
{
    let k: usize = v.path_index;
    let ghost before = state.paths@;
    let ghost path = before[k as int];
    if !p.enabled {
        let flags: u32 = deactivate(state.paths[k].flags);
        state.paths[k].flags = flags;
        assert(state.paths@ =~= before.update(s.chosen, path_after(*p, s, path)));
        return ;
    }
    if v.active && has_source(&state.paths[k], &state.modes) {
        let index: usize = state.paths[k].source_mode as usize;
        if let ModeInfo::Source { width, height, .. } = state.modes[index] {
            state.modes.set(
                index,
                ModeInfo::Source {
                    x: p.position.0 - origin.0,
                    y: p.position.1 - origin.1,
                    width,
                    height,
                },
            );
        }
    }
    let flags: u32 = activate(state.paths[k].flags);
    state.paths[k].flags = flags;
    state.paths[k].rotation = transform_to_ccd_rotation(p.transform);
    if !v.active {
        // Freshly enabled: let Windows resolve modes and placement from its
        // database.
        state.paths[k].source_mode = MODE_IDX_INVALID;
        state.paths[k].target_mode = MODE_IDX_INVALID;
        state.paths[k].unresolved = true;
    }
    assert(state.paths@ =~= before.update(s.chosen, path_after(*p, s, path)));
}

/// Decide about applying a plan: the configuration to set, or `None` when a
/// valid plan was only to be verified.
pub fn plan_apply(plan: &LayoutPlan, state: CcdState, mode: ApplyMode) -> (r: Result<
    Option<CcdState>,
    BackendError,
>)
    requires
        plan.serial@ == serial_of(state) && find_where(
            plan.outputs@,
            unreachable_output(state.paths@),
        ) is None && mode != ApplyMode::Verify ==> shifts_fit(plan.outputs@, state),
    ensures
        if plan.serial@ != serial_of(state) {
            r matches Err(BackendError::StaleSerial)
        } else {
            match find_where(plan.outputs@, unreachable_output(state.paths@)) {
                Some(p) => r matches Err(BackendError::UnknownOutput(m)) && m@
                    == p.identity.connector@,
                None => {
                    &&& r is Ok
                    &&& r->Ok_0 is None <==> mode == ApplyMode::Verify
                    &&& r->Ok_0 matches Some(change) ==> (change.paths@, change.modes@) == edited(
                        plan.outputs@,
                        state.paths@,
                        state.modes@,
                        plan.outputs@.len() as int,
                    )
                },
            }
        },
{
    let ghost start = state;
    let ghost paths = start.paths@;
    let ghost modes = start.modes@;
    let ghost lost = unreachable_output(paths);
    let ghost s = plan.outputs@;
    if !same_text(plan.serial.as_str(), state_serial(&state).as_str()) {
        return Err(BackendError::StaleSerial);
    }
    let list = collect_targets(&state);
    for i in 0..plan.outputs.len()
        invariant
            s == plan.outputs@,
            paths == start.paths@,
            lost == unreachable_output(paths),
            start == state,
            plan.serial@ == serial_of(start),
            all_viewed(list@, targets(paths), paths, start.modes@),
            forall|j: int| 0 <= j < i ==> !lost(s[j]),
    {
        let connector = &plan.outputs[i].identity.connector;
        if find_target(&list, connector.as_str(), Ghost(start)).is_none() {
            proof {
                first_where_is(s, lost, i as int);
            }
            return Err(BackendError::UnknownOutput(connector.clone()));
        }
    }
    proof {
        first_where_none(s, lost);
        targets_in_range(paths);
    }
    if mode == ApplyMode::Verify {
        return Ok(None);
    }
    let origin = find_origin(plan);
    let mut state = state;
    for i in 0..plan.outputs.len()
        invariant
            s == plan.outputs@,
            paths == start.paths@,
            modes == start.modes@,
            lost == unreachable_output(paths),
            origin == origin_of(s),
            all_viewed(list@, targets(paths), paths, modes),
            forall|k: int|
                0 <= k < targets(paths).len() ==> 0 <= (#[trigger] targets(paths)[k]).chosen
                    < paths.len(),
            forall|j: int| 0 <= j < s.len() ==> !lost(#[trigger] s[j]),
            shifts_fit(s, start),
            (state.paths@, state.modes@) == edited(s, paths, modes, i as int),
            state.paths@.len() == paths.len(),
            state.modes@.len() == modes.len(),
            forall|k: int|
                0 <= k < paths.len() ==> (#[trigger] state.paths@[k]).source_mode
                    == MODE_IDX_INVALID || state.paths@[k].source_mode == paths[k].source_mode,
            forall|k: int|
                0 <= k < modes.len() ==> ((#[trigger] state.modes@[k]) is Source
                    <==> modes[k] is Source),
    {
        let p = &plan.outputs[i];
        let ghost slot = target_at(paths, s[i as int].identity.connector@)->0;
        assert(!lost(s[i as int]));
        if let Some(k) = find_target(&list, p.identity.connector.as_str(), Ghost(start)) {
            assert(views(list@[k as int], targets(paths)[k as int], paths, modes));
            edit_one(p, &list[k], &mut state, origin, Ghost(slot));
        }
    }
    Ok(Some(state))
}

/// Apply a plan as [`plan_apply`] does, or `None` when an output would move to a
/// position that is no coordinate.
pub fn try_apply(plan: &LayoutPlan, state: CcdState, mode: ApplyMode) -> (r: Option<
    Result<Option<CcdState>, BackendError>,
>)
    ensures
        r is None <==> plan.serial@ == serial_of(state) && mode != ApplyMode::Verify
            && !shifts_fit(plan.outputs@, state),
        r matches Some(done) ==> if plan.serial@ != serial_of(state) {
            done matches Err(BackendError::StaleSerial)
        } else {
            match find_where(plan.outputs@, unreachable_output(state.paths@)) {
                Some(p) => done matches Err(BackendError::UnknownOutput(m)) && m@
                    == p.identity.connector@,
                None => {
                    &&& done is Ok
                    &&& done->Ok_0 is None <==> mode == ApplyMode::Verify
                    &&& done->Ok_0 matches Some(change) ==> (change.paths@, change.modes@)
                        == edited(
                        plan.outputs@,
                        state.paths@,
                        state.modes@,
                        plan.outputs@.len() as int,
                    )
                },
            }
        },
{
    if mode != ApplyMode::Verify && same_text(
        plan.serial.as_str(),
        state_serial(&state).as_str(),
    ) && !shifts_within(plan, &state) {
        return None;
    }
    Some(plan_apply(plan, state, mode))
}

/// The planned position of an output, seen from the planned primary.
pub open spec fn shifted(p: PlannedOutput, origin: (i32, i32)) -> (int, int) {
    (p.position.0 - origin.0, p.position.1 - origin.1)
}

/// Whether a planned output is on, but not at its planned position.
pub open spec fn astray(p: PlannedOutput, origin: (i32, i32), state: CcdState) -> bool {
    match target_at(state.paths@, p.identity.connector@) {
        Some(s) => {
            let path = state.paths@[s.chosen];
            let at = position_of(path, state.modes@);
            &&& moves_source(p, s, path, state.modes@)
            &&& (at.0 as int, at.1 as int) != shifted(p, origin)
        },
        None => false,
    }
}

/// Whether any planned output is on, but not at its planned position.
pub open spec fn any_astray(plan: Seq<PlannedOutput>, state: CcdState) -> bool {
    exists|i: int| 0 <= i < plan.len() && astray(#[trigger] plan[i], origin_of(plan), state)
}

/// The modes once the first `n` planned outputs that are on have been moved to
/// their planned positions.
pub open spec fn settled(
    plan: Seq<PlannedOutput>,
    paths: Seq<PathInfo>,
    modes: Seq<ModeInfo>,
    n: int,
) -> Seq<ModeInfo>
    decreases n,
{
    if n <= 0 {
        modes
    } else {
        let before = settled(plan, paths, modes, n - 1);
        let p = plan[n - 1];
        match target_at(paths, p.identity.connector@) {
            Some(s) => modes_after(p, s, paths[s.chosen], before, origin_of(plan)),
            None => before,
        }
    }
}

/// Move one planned output that is on to its planned position.
fn settle_one(p: &PlannedOutput, v: &TargetView, state: &mut CcdState, origin: (i32, i32), Ghost(
    s,
): Ghost<Slot>)
    requires
        v.path_index == s.chosen,
        v.active == s.active,
        0 <= s.chosen < old(state).paths@.len(),
        moves_source(*p, s, old(state).paths@[s.chosen], old(state).modes@) ==> shift_fits(
            *p,
            origin,
        ),
    ensures
        final(state).paths == old(state).paths,
        final(state).modes@ == modes_after(
            *p,
            s,
            old(state).paths@[s.chosen],
            old(state).modes@,
            origin,
        ),
{
    let k: usize = v.path_index;
    if p.enabled && v.active && has_source(&state.paths[k], &state.modes) {
        let index: usize = state.paths[k].source_mode as usize;
        if let ModeInfo::Source { width, height, .. } = state.modes[index] {
            state.modes.set(
                index,
                ModeInfo::Source {
                    x: p.position.0 - origin.0,
                    y: p.position.1 - origin.1,
                    width,
                    height,
                },
            );
        }
    }
}

/// The configuration to set after a plan was applied, on the state that is there
/// now: the planned outputs that are on, at their planned positions. `None` when
/// they are there, or when one of the positions is no coordinate.
pub fn settle(plan: &LayoutPlan, state: CcdState) -> (r: Option<CcdState>)
    ensures
        r is Some <==> shifts_fit(plan.outputs@, state) && any_astray(plan.outputs@, state),
        r matches Some(change) ==> {
            &&& change.paths == state.paths
            &&& change.modes@ == settled(
                plan.outputs@,
                state.paths@,
                state.modes@,
                plan.outputs@.len() as int,
            )
        },
{
    if !shifts_within(plan, &state) {
        return None;
    }
    let ghost start = state;
    let ghost paths = start.paths@;
    let ghost modes = start.modes@;
    let ghost s = plan.outputs@;
    let list = collect_targets(&state);
    let origin = find_origin(plan);
    proof {
        targets_in_range(paths);
    }
    let mut moved: bool = false;
    let mut state = state;
    for i in 0..plan.outputs.len()
        invariant
            s == plan.outputs@,
            paths == start.paths@,
            modes == start.modes@,
            origin == origin_of(s),
            all_viewed(list@, targets(paths), paths, modes),
            forall|k: int|
                0 <= k < targets(paths).len() ==> 0 <= (#[trigger] targets(paths)[k]).chosen
                    < paths.len(),
            shifts_fit(s, start),
            state.paths == start.paths,
            state.modes@ == settled(s, paths, modes, i as int),
            state.modes@.len() == modes.len(),
            forall|k: int|
                0 <= k < modes.len() ==> ((#[trigger] state.modes@[k]) is Source
                    <==> modes[k] is Source),
            moved == exists|j: int| 0 <= j < i && astray(#[trigger] s[j], origin, start),
    {
        let p = &plan.outputs[i];
        let ghost q = s[i as int];
        if let Some(k) = find_target(&list, p.identity.connector.as_str(), Ghost(start)) {
            let ghost slot = targets(paths)[k as int];
            assert(views(list@[k as int], slot, paths, modes));
            let v = &list[k];
            if p.enabled && v.active && has_source(&state.paths[v.path_index], &state.modes) {
                assert(moves_source(q, slot, paths[slot.chosen], modes));
                if v.position.0 != p.position.0 - origin.0 || v.position.1 != p.position.1
                    - origin.1 {
                    moved = true;
                }
            }
            settle_one(p, v, &mut state, origin, Ghost(slot));
        }
    }
    if moved {
        Some(state)
    } else {
        None
    }
}

/// How to go on after a Windows call.
#[derive(Debug)]
pub enum Attempt {
    Done,
    Again,
    GiveUp(BackendError),
}

/// Decide after the given number of attempts to set the configuration, the last
/// of which returned `rc`. Applies are retried a bounded number of times:
/// complex topologies can need more than one.
pub fn after_apply(attempts: u32, rc: i32) -> (r: Attempt)
    ensures
        if rc == 0 {
            r is Done
        } else if attempts < APPLY_ATTEMPTS {
            r is Again
        } else {
            r matches Attempt::GiveUp(BackendError::Server(m)) && m@
                == "SetDisplayConfig failed after 3 attempts (error "@ + signed_decimal(rc as int)
                + "); Windows may need a nudge from Settings > System > Display"@
        },
{
    if rc == 0 {
        return Attempt::Done;
    }
    if attempts < APPLY_ATTEMPTS {
        return Attempt::Again;
    }
    let mut s = join2(
        "SetDisplayConfig failed after 3 attempts (error ",
        signed_decimal_text(rc as i64).as_str(),
    );
    s.append("); Windows may need a nudge from Settings > System > Display");
    Attempt::GiveUp(BackendError::Server(s))
}

/// Code of the error that a buffer is too small.
pub const INSUFFICIENT_BUFFER: i32 = 122;

/// Decide after the given number of attempts to query the configuration, the
/// last of which returned `rc`. The buffer sizes can change between the call
/// that asks for them and the query.
pub fn after_query(attempts: u32, rc: i32) -> (r: Attempt)
    ensures
        if rc == 0 {
            r is Done
        } else if rc != INSUFFICIENT_BUFFER {
            r matches Attempt::GiveUp(BackendError::Server(m)) && m@
                == "QueryDisplayConfig"@ + " failed with error "@ + signed_decimal(rc as int)
        } else if attempts < QUERY_ATTEMPTS {
            r is Again
        } else {
            r matches Attempt::GiveUp(BackendError::Server(m)) && m@
                == "QueryDisplayConfig kept racing buffer sizes"@
        },
{
    if rc == 0 {
        Attempt::Done
    } else if rc != INSUFFICIENT_BUFFER {
        Attempt::GiveUp(win_err("QueryDisplayConfig", rc))
    } else if attempts < QUERY_ATTEMPTS {
        Attempt::Again
    } else {
        Attempt::GiveUp(
            BackendError::Server("QueryDisplayConfig kept racing buffer sizes".to_owned()),
        )
    }
}

// --------------------------------------------------------------------- laws

/// The order by connector is an order.
proof fn connectors_order(paths: Seq<PathInfo>)
    ensures
        orders(connector_before(paths)),
{
    let p = connector_before(paths);
    let name = |s: Slot| connector_of(paths[s.first]);
    assert forall|a: Slot, b: Slot| #[trigger] p(a, b) implies !p(b, a) by {
        text_order_is_total(name(a), name(b));
    }
    assert forall|a: Slot, b: Slot, c: Slot|
        !(#[trigger] p(b, a)) && !(#[trigger] p(c, b)) implies !p(c, a) by {
        text_order_is_total(name(a), name(b));
        text_order_is_total(name(b), name(c));
        text_order_is_total(name(a), name(c));
        if p(a, b) && p(b, c) {
            text_order_is_transitive(name(a), name(b), name(c));
        }
    }
}

/// The monitors are ordered by connector.
pub proof fn targets_are_sorted(paths: Seq<PathInfo>, i: int, j: int)
    requires
        0 <= i < j < targets(paths).len(),
    ensures
        !text_before(
            connector_of(paths[targets(paths)[j].first]),
            connector_of(paths[targets(paths)[i].first]),
        ),
{
    connectors_order(paths);
    arranged_in_order(slots(paths, paths.len() as int), connector_before(paths), i, j);
}

/// There is one slot per physical monitor among the paths looked at, and one
/// for each of them.
pub proof fn one_slot_per_monitor(paths: Seq<PathInfo>, n: int)
    requires
        0 <= n <= paths.len(),
    ensures
        forall|i: int, j: int|
            0 <= i < slots(paths, n).len() && 0 <= j < slots(paths, n).len() && i != j
                ==> device_of(paths[(#[trigger] slots(paths, n)[i]).first]) != device_of(
                paths[(#[trigger] slots(paths, n)[j]).first],
            ),
        forall|i: int|
            0 <= i < n && reaches_monitor(#[trigger] paths[i]) ==> exists|k: int|
                0 <= k < slots(paths, n).len() && device_of(
                    paths[(#[trigger] slots(paths, n)[k]).first],
                ) == device_of(paths[i]),
    decreases n,
{
    if n > 0 {
        one_slot_per_monitor(paths, n - 1);
        let before = slots(paths, n - 1);
        let now = slots(paths, n);
        let p = paths[n - 1];
        if reaches_monitor(p) {
            let same = slot_for(paths, device_of(p));
            first_where_facts(before, same);
            assert forall|k: int| 0 <= k < before.len() implies (#[trigger] now[k]).first
                == before[k].first by {}
            assert forall|i: int, j: int|
                0 <= i < now.len() && 0 <= j < now.len() && i != j implies device_of(
                paths[(#[trigger] now[i]).first],
            ) != device_of(paths[(#[trigger] now[j]).first]) by {
                if i < before.len() && j < before.len() {
                    assert(device_of(paths[before[i].first]) != device_of(paths[before[j].first]));
                } else if i < before.len() {
                    assert(!same(before[i]));
                } else {
                    assert(!same(before[j]));
                }
            }
            assert forall|i: int| 0 <= i < n && reaches_monitor(#[trigger] paths[i]) implies exists|
                k: int,
            |
                0 <= k < now.len() && device_of(paths[(#[trigger] now[k]).first]) == device_of(
                    paths[i],
                ) by {
                if i < n - 1 {
                    let k = choose|k: int|
                        0 <= k < before.len() && device_of(paths[(#[trigger] before[k]).first])
                            == device_of(paths[i]);
                    assert(now[k].first == before[k].first);
                } else {
                    match first_where(before, same) {
                        Some(k) => {
                            assert(same(before[k]));
                            assert(now[k].first == before[k].first);
                        },
                        None => {
                            assert(now[before.len() as int].first == n - 1);
                        },
                    }
                }
            }
        }
    }
}

/// Switching an output off leaves the modes alone and touches no other path.
pub proof fn disabling_touches_one_path(
    p: PlannedOutput,
    s: Slot,
    paths: Seq<PathInfo>,
    modes: Seq<ModeInfo>,
    origin: (i32, i32),
)
    requires
        !p.enabled,
        0 <= s.chosen < paths.len(),
    ensures
        modes_after(p, s, paths[s.chosen], modes, origin) == modes,
        !path_active(path_after(p, s, paths[s.chosen])),
{
}

/// An output that is switched on gets an active path.
pub proof fn enabling_activates_the_path(p: PlannedOutput, s: Slot, path: PathInfo)
    requires
        p.enabled,
    ensures
        path_active(path_after(p, s, path)),
{
}

/// The planned primary output, if it is on already, lands at the origin.
pub proof fn primary_lands_at_the_origin(
    plan: Seq<PlannedOutput>,
    s: Slot,
    path: PathInfo,
    modes: Seq<ModeInfo>,
)
    requires
        find_where(plan, enabled_primary()) is Some,
        moves_source(find_where(plan, enabled_primary())->0, s, path, modes),
    ensures
        position_of(
            path,
            modes_after(find_where(plan, enabled_primary())->0, s, path, modes, origin_of(plan)),
        ) == (0i32, 0i32),
{
}

/// Moving outputs keeps the modes and what each of them is.
proof fn settling_keeps_the_modes(
    plan: Seq<PlannedOutput>,
    paths: Seq<PathInfo>,
    modes: Seq<ModeInfo>,
    n: int,
)
    ensures
        settled(plan, paths, modes, n).len() == modes.len(),
        forall|k: int|
            0 <= k < modes.len() ==> ((#[trigger] settled(plan, paths, modes, n)[k]) is Source
                <==> modes[k] is Source),
    decreases n,
{
    if n > 0 {
        settling_keeps_the_modes(plan, paths, modes, n - 1);
    }
}

/// Whether two planned outputs show the same source, as cloned displays do.
pub open spec fn share_source(
    plan: Seq<PlannedOutput>,
    paths: Seq<PathInfo>,
    i: int,
    j: int,
) -> bool {
    match (
        target_at(paths, plan[i].identity.connector@),
        target_at(paths, plan[j].identity.connector@),
    ) {
        (Some(a), Some(b)) => paths[a.chosen].source_mode == paths[b.chosen].source_mode,
        _ => false,
    }
}

/// A planned output that is on, wherever Windows had put it, is at its planned
/// position once the outputs have been moved, unless it shares its source with
/// another one.
pub proof fn settling_restores_the_position(
    plan: Seq<PlannedOutput>,
    state: CcdState,
    i: int,
    n: int,
)
    requires
        0 <= i < n <= plan.len(),
        shifts_fit(plan, state),
        target_at(state.paths@, plan[i].identity.connector@) matches Some(s) && moves_source(
            plan[i],
            s,
            state.paths@[s.chosen],
            state.modes@,
        ),
        forall|j: int| 0 <= j < plan.len() && j != i ==> !share_source(plan, state.paths@, i, j),
    ensures
        ({
            let s = target_at(state.paths@, plan[i].identity.connector@)->0;
            let at = position_of(
                state.paths@[s.chosen],
                settled(plan, state.paths@, state.modes@, n),
            );
            (at.0 as int, at.1 as int) == shifted(plan[i], origin_of(plan))
        }),
    decreases n,
{
    let paths = state.paths@;
    settling_keeps_the_modes(plan, paths, state.modes@, n - 1);
    if n - 1 > i {
        settling_restores_the_position(plan, state, i, n - 1);
        assert(!share_source(plan, paths, i, n - 1));
    }
}

/// Quarter turns are the same in both notations; reflections are left out.
pub proof fn rotations_count_quarter_turns(t: Transform)
    ensures
        transform_code(rotation_transform(Rotation::Identity)) == 0,
        transform_code(rotation_transform(Rotation::Rotate90)) == 1,
        transform_code(rotation_transform(Rotation::Rotate180)) == 2,
        transform_code(rotation_transform(Rotation::Rotate270)) == 3,
        transform_code(rotation_transform(transform_rotation(t))) == transform_code(t) % 4,
{
    encoding_counts_quarter_turns(t);
}

/// A path is made active for an output that is planned to be on, and inactive for one
/// that is planned to be off, with no other flag changed. One that is on is turned
/// as planned. One that was off gives up its modes, for Windows to find new ones;
/// one that was on keeps them.
pub proof fn path_is_edited_as_planned(p: PlannedOutput, s: Slot, path: PathInfo)
    ensures
        ({
            let after = path_after(p, s, path);
            &&& after.flags % 2 == (if p.enabled {
                1int
            } else {
                0
            })
            &&& after.flags / 2 == path.flags / 2
            &&& p.enabled ==> transform_code(rotation_transform(after.rotation)) == transform_code(
                p.transform,
            ) % 4
            &&& !p.enabled ==> after.rotation == path.rotation
            &&& p.enabled && !s.active ==> after.source_mode == 0xffff_ffff && after.target_mode
                == 0xffff_ffff && after.unresolved
            &&& !p.enabled || s.active ==> after.source_mode == path.source_mode
                && after.target_mode == path.target_mode && after.unresolved == path.unresolved
            &&& after.target_id == path.target_id && after.target_available
                == path.target_available && after.technology == path.technology && after.name
                == path.name
        }),
{
    rotations_count_quarter_turns(p.transform);
    assert(path.flags % 2 == 1 ==> path.flags >= 1);
}

/// An output that stays on is moved to where it is planned to be, seen from the
/// planned primary, in its own source alone, whose size is kept. For any other
/// output no source is touched.
pub proof fn source_is_moved_as_planned(
    p: PlannedOutput,
    s: Slot,
    path: PathInfo,
    modes: Seq<ModeInfo>,
    origin: (i32, i32),
)
    requires
        shift_fits(p, origin),
    ensures
        ({
            let after = modes_after(p, s, path, modes, origin);
            let k = path.source_mode as int;
            let moves = p.enabled && s.active && path.source_mode != 0xffff_ffff && k < modes.len()
                && modes[k] is Source;
            &&& after.len() == modes.len()
            &&& forall|j: int|
                0 <= j < modes.len() && (j != k || !moves) ==> #[trigger] after[j] == modes[j]
            &&& moves ==> match (after[k], modes[k]) {
                (
                    ModeInfo::Source { x, y, width, height },
                    ModeInfo::Source { width: w, height: h, .. },
                ) => {
                    &&& x == p.position.0 - origin.0
                    &&& y == p.position.1 - origin.1
                    &&& width == w
                    &&& height == h
                },
                _ => false,
            }
        }),
{
}

/// The planned primary output is the origin.
pub proof fn origin_is_the_planned_primary(plan: Seq<PlannedOutput>, i: int)
    requires
        0 <= i < plan.len(),
        plan[i].enabled && plan[i].primary,
        forall|j: int| 0 <= j < i ==> !((#[trigger] plan[j]).enabled && plan[j].primary),
    ensures
        origin_of(plan) == plan[i].position,
{
    first_where_is(plan, enabled_primary(), i);
}

/// Whether every planned output has a monitor, and each its own path.
pub open spec fn own_paths(plan: Seq<PlannedOutput>, paths: Seq<PathInfo>) -> bool {
    &&& forall|i: int|
        0 <= i < plan.len() ==> (target_at(
            paths,
            (#[trigger] plan[i]).identity.connector@,
        ) matches Some(s) && 0 <= s.chosen < paths.len())
    &&& forall|i: int, j: int|
        0 <= i < plan.len() && 0 <= j < plan.len() && i != j ==> target_at(
            paths,
            (#[trigger] plan[i]).identity.connector@,
        )->0.chosen != target_at(paths, (#[trigger] plan[j]).identity.connector@)->0.chosen
}

/// A whole plan edits the path of each of its outputs as planned, and no other path.
pub proof fn every_path_is_edited_as_planned(
    plan: Seq<PlannedOutput>,
    paths: Seq<PathInfo>,
    modes: Seq<ModeInfo>,
    n: int,
    k: int,
)
    requires
        own_paths(plan, paths),
        0 <= n <= plan.len(),
        0 <= k < paths.len(),
    ensures
        edited(plan, paths, modes, n).0.len() == paths.len(),
        forall|i: int|
            0 <= i < n && target_at(
                paths,
                (#[trigger] plan[i]).identity.connector@,
            )->0.chosen == k ==> edited(plan, paths, modes, n).0[k] == path_after(
                plan[i],
                target_at(paths, plan[i].identity.connector@)->0,
                paths[k],
            ),
        (forall|i: int|
            0 <= i < n ==> target_at(
                paths,
                (#[trigger] plan[i]).identity.connector@,
            )->0.chosen != k) ==> edited(plan, paths, modes, n).0[k] == paths[k],
    decreases n,
{
    if n > 0 {
        every_path_is_edited_as_planned(plan, paths, modes, n - 1, k);
        let p = plan[n - 1];
        let s = target_at(paths, p.identity.connector@)->0;
        assert(0 <= s.chosen < paths.len());
        if s.chosen == k {
            assert forall|i: int| 0 <= i < n - 1 implies target_at(
                paths,
                (#[trigger] plan[i]).identity.connector@,
            )->0.chosen != k by {
                assert(plan[n - 1].identity.connector@ == p.identity.connector@);
            }
        }
    }
}

/// What Windows tells of a monitor is kept. It is on if one of its paths is active,
/// and then where the source of that path lies and as large; the primary display is
/// the one at the origin. A monitor that is off has neither mode nor place.
pub proof fn monitor_is_read_as_told(o: Output, s: Slot, paths: Seq<PathInfo>, modes: Seq<ModeInfo>)
    requires
        shown(o, s, paths, modes),
    ensures
        o.identity.connector@ == label_of(paths[s.first].technology) + "-"@ + decimal(
            if paths[s.first].name->0.connector_instance != 0 {
                paths[s.first].name->0.connector_instance as nat
            } else {
                paths[s.first].target_id as nat
            },
        ),
        o.enabled == s.active,
        o.primary <==> s.active && o.position == (0i32, 0i32),
        !s.active ==> o.mode is None && o.position == (0i32, 0i32) && o.modes@.len() == 0,
        ({
            let path = paths[s.chosen];
            let k = path.source_mode as int;
            s.active ==> transform_code(o.transform) == transform_code(
                rotation_transform(path.rotation),
            ) && if path.source_mode != 0xffff_ffff && k < modes.len() {
                match modes[k] {
                    ModeInfo::Source { x, y, width, height } => {
                        &&& o.position == (x, y)
                        &&& o.mode is Some
                        &&& o.mode->0.width == width
                        &&& o.mode->0.height == height
                        &&& o.modes@ == seq![o.mode->0]
                    },
                    _ => o.mode is None,
                }
            } else {
                o.mode is None
            }
        }),
        o.scale.bits == 0x3ff0_0000_0000_0000,
        paths[s.first].technology == Technology::Internal ==> o.builtin,
        paths[s.first].technology == Technology::EmbeddedDisplayPort ==> o.builtin,
        paths[s.first].technology == Technology::Lvds ==> o.builtin,
        paths[s.first].technology == Technology::Hdmi ==> !o.builtin,
        paths[s.first].technology == Technology::DisplayPort ==> !o.builtin,
        paths[s.first].technology == Technology::Dvi ==> !o.builtin,
{
    let v = choose|v: TargetView| views(v, s, paths, modes) && #[trigger] described(o, v);
    assert(views(v, s, paths, modes));
}

/// What was set is what is read back: a monitor whose path and source are as edited is
/// on exactly if it was planned to be, and then at its planned place, seen from the
/// planned primary.
pub proof fn edited_monitor_is_read_back(
    p: PlannedOutput,
    s: Slot,
    path: PathInfo,
    modes: Seq<ModeInfo>,
    origin: (i32, i32),
)
    requires
        shift_fits(p, origin),
        s.active,
        source_of(path, modes) is Some,
    ensures
        ({
            let after = path_after(p, s, path);
            let then = modes_after(p, s, path, modes, origin);
            &&& path_active(after) == p.enabled
            &&& p.enabled ==> position_of(after, then).0 == p.position.0 - origin.0
                && position_of(after, then).1 == p.position.1 - origin.1
            &&& p.enabled && mode_of(path, modes) is Some ==> mode_of(after, then) == mode_of(
                path,
                modes,
            )
        }),
{
}

/// The EDID in the registry is the one that is shown where it can be read. Otherwise the
/// manufacturer and the product that Windows tells are, the manufacturer with its bytes
/// swapped and without a serial; nothing is shown where it tells no manufacturer.
pub proof fn registry_edid_comes_first(e: Option<EdidId>, name: TargetName, read: Option<EdidId>)
    requires
        edid_shown(e, name),
        name.registry_edid is Some ==> holds_identity(read, name.registry_edid->0@),
        name.registry_edid is None ==> read is None,
    ensures
        read is Some ==> e is Some && e->0.vendor@ == read->0.vendor@ && e->0.product@
            == read->0.product@ && e->0.serial@ == read->0.serial@,
        read is None ==> (e is Some <==> name.edid_manufacture_id != 0),
        read is None && e is Some ==> e->0.vendor@ == vendor_of(
            (name.edid_manufacture_id % 256) as u8,
            (name.edid_manufacture_id / 256) as u8,
        ) && e->0.serial@.len() == 0,
{
}

/// The registry key of a monitor is made of the second and the third part of its device
/// path.
pub proof fn key_is_made_of_the_device_path(
    a: Seq<char>,
    b: Seq<char>,
    c: Seq<char>,
    rest: Seq<char>,
)
    requires
        forall|i: int| 0 <= i < a.len() ==> #[trigger] a[i] != '#',
        forall|i: int| 0 <= i < b.len() ==> #[trigger] b[i] != '#',
        forall|i: int| 0 <= i < c.len() ==> #[trigger] c[i] != '#',
    ensures
        subkey_of(a + seq!['#'] + (b + seq!['#'] + (c + seq!['#'] + rest))) == Some(
            "SYSTEM\\CurrentControlSet\\Enum\\DISPLAY\\"@ + b + "\\"@ + c
                + "\\Device Parameters"@,
        ),
        subkey_of(a + seq!['#'] + b) is None,
        subkey_of(a) is None,
{
    text_without_a_mark_is_one_field(a, '#');
    text_without_a_mark_is_one_field(b, '#');
    text_without_a_mark_is_one_field(c, '#');
    fields_part_at_a_mark(c, rest, '#');
    fields_part_at_a_mark(b, c + seq!['#'] + rest, '#');
    fields_part_at_a_mark(a, b + seq!['#'] + (c + seq!['#'] + rest), '#');
    fields_part_at_a_mark(a, b, '#');
    fields_join_to_the_text(rest, '#');
}

proof fn part_ends_at_the_mark(
    a: Seq<char>,
    b: Seq<char>,
    x: Seq<char>,
    y: Seq<char>,
    mark: char,
)
    requires
        a + seq![mark] + x == b + seq![mark] + y,
        forall|i: int| 0 <= i < a.len() ==> #[trigger] a[i] != mark,
        forall|i: int| 0 <= i < b.len() ==> #[trigger] b[i] != mark,
    ensures
        a == b,
        x == y,
{
    let s = a + seq![mark] + x;
    let t = b + seq![mark] + y;
    let n = a.len() as int;
    let m = b.len() as int;
    assert(s[n] == mark);
    assert(t[m] == mark);
    if n < m {
        assert(t[n] == b[n]);
    }
    if m < n {
        assert(s[m] == a[m]);
    }
    assert(s.take(n) =~= a);
    assert(t.take(n) =~= b);
    assert(s.skip(n + 1) =~= x);
    assert(t.skip(n + 1) =~= y);
}

proof fn number_has_no_mark(n: int)
    ensures
        forall|i: int|
            0 <= i < signed_decimal(n).len() ==> #[trigger] signed_decimal(n)[i] != ','
                && signed_decimal(n)[i] != ';',
{
    notations_tell_numbers_apart(n, n);
}

/// The words of two paths differ as soon as the paths differ in their flags, their target,
/// whether that is available, or their source.
pub proof fn words_tell_paths_apart(a: PathInfo, b: PathInfo)
    requires
        path_words(a) == path_words(b),
    ensures
        a.flags == b.flags,
        a.target_id == b.target_id,
        a.target_available == b.target_available,
        a.source_mode == b.source_mode,
{
    reveal_strlit(",");
    reveal_strlit(";");
    let comma = seq![','];
    let end = seq![';'];
    assert(","@ =~= comma);
    assert(";"@ =~= end);
    let a1 = signed_decimal(a.flags as int);
    let a2 = signed_decimal(a.target_id as int);
    let a3 = signed_decimal(a.target_available as int);
    let a4 = signed_decimal(a.source_mode as int);
    let b1 = signed_decimal(b.flags as int);
    let b2 = signed_decimal(b.target_id as int);
    let b3 = signed_decimal(b.target_available as int);
    let b4 = signed_decimal(b.source_mode as int);
    number_has_no_mark(a.flags as int);
    number_has_no_mark(a.target_id as int);
    number_has_no_mark(a.target_available as int);
    number_has_no_mark(a.source_mode as int);
    number_has_no_mark(b.flags as int);
    number_has_no_mark(b.target_id as int);
    number_has_no_mark(b.target_available as int);
    number_has_no_mark(b.source_mode as int);
    let ra3 = a4 + end + Seq::empty();
    let rb3 = b4 + end + Seq::empty();
    let ra2 = a3 + comma + ra3;
    let rb2 = b3 + comma + rb3;
    let ra1 = a2 + comma + ra2;
    let rb1 = b2 + comma + rb2;
    assert(path_words(a) =~= a1 + comma + ra1);
    assert(path_words(b) =~= b1 + comma + rb1);
    part_ends_at_the_mark(a1, b1, ra1, rb1, ',');
    part_ends_at_the_mark(a2, b2, ra2, rb2, ',');
    part_ends_at_the_mark(a3, b3, ra3, rb3, ',');
    part_ends_at_the_mark(a4, b4, Seq::empty(), Seq::empty(), ';');
    notations_tell_numbers_apart(a.flags as int, b.flags as int);
    notations_tell_numbers_apart(a.target_id as int, b.target_id as int);
    notations_tell_numbers_apart(a.target_available as int, b.target_available as int);
    notations_tell_numbers_apart(a.source_mode as int, b.source_mode as int);
}

proof fn words_of_more_paths(before: Seq<PathInfo>, after: Seq<PathInfo>)
    ensures
        paths_words(before + after) == paths_words(before) + paths_words(after),
    decreases after.len(),
{
    let all = before + after;
    if after.len() == 0 {
        assert(all =~= before);
        assert(paths_words(before) + Seq::empty() =~= paths_words(before));
    } else {
        assert(all.drop_last() =~= before + after.drop_last());
        words_of_more_paths(before, after.drop_last());
        assert(paths_words(before) + paths_words(after.drop_last()) + path_words(after.last())
            =~= paths_words(before) + paths_words(after));
    }
}

/// A change of the flags, the target or the source of any one path shows in the words that
/// the serial of a state is made of.
pub proof fn changed_path_shows_in_the_words(
    s: CcdState,
    t: CcdState,
    before: Seq<PathInfo>,
    after: Seq<PathInfo>,
    a: PathInfo,
    b: PathInfo,
)
    requires
        s.paths@ == before + seq![a] + after,
        t.paths@ == before + seq![b] + after,
        s.modes@ == t.modes@,
        state_words(s) == state_words(t),
    ensures
        a.flags == b.flags,
        a.target_id == b.target_id,
        a.target_available == b.target_available,
        a.source_mode == b.source_mode,
{
    words_of_one_among_paths(before, a, after);
    words_of_one_among_paths(before, b, after);
    let x = paths_words(before);
    let y = paths_words(after);
    let z = "|"@ + modes_words(s.modes@);
    assert(x + path_words(a) + y + z == state_words(s)) by {
        assert(x + path_words(a) + y + z =~= state_words(s));
    }
    assert(x + path_words(b) + y + z == state_words(t)) by {
        assert(x + path_words(b) + y + z =~= state_words(t));
    }
    middle_is_the_same(x, path_words(a), path_words(b), y, z);
    words_tell_paths_apart(a, b);
}

proof fn words_of_one_among_paths(before: Seq<PathInfo>, a: PathInfo, after: Seq<PathInfo>)
    ensures
        paths_words(before + seq![a] + after) == paths_words(before) + path_words(a) + paths_words(
            after,
        ),
{
    words_of_more_paths(before.push(a), after);
    assert(before.push(a).drop_last() =~= before);
    assert(before + seq![a] + after =~= before.push(a) + after);
}

proof fn middle_is_the_same(
    x: Seq<char>,
    a: Seq<char>,
    b: Seq<char>,
    y: Seq<char>,
    z: Seq<char>,
)
    requires
        x + a + y + z == x + b + y + z,
    ensures
        a == b,
{
    let n = x.len() as int;
    assert((x + a + y + z).len() == n + a.len() + y.len() + z.len());
    assert((x + b + y + z).len() == n + b.len() + y.len() + z.len());
    assert((x + a + y + z).subrange(n, n + a.len()) =~= a);
    assert((x + b + y + z).subrange(n, n + b.len()) =~= b);
}

/// The words of two sources differ as soon as the sources differ in place or size.
pub proof fn words_tell_sources_apart(a: ModeInfo, b: ModeInfo)
    requires
        a is Source,
        b is Source,
        mode_words(a) == mode_words(b),
    ensures
        a == b,
{
    reveal_strlit(",");
    reveal_strlit(";");
    let comma = seq![','];
    let end = seq![';'];
    assert(","@ =~= comma);
    assert(";"@ =~= end);
    match (a, b) {
        (
            ModeInfo::Source { x, y, width, height },
            ModeInfo::Source { x: x2, y: y2, width: width2, height: height2 },
        ) => {
            number_has_no_mark(x as int);
            number_has_no_mark(y as int);
            number_has_no_mark(width as int);
            number_has_no_mark(height as int);
            number_has_no_mark(x2 as int);
            number_has_no_mark(y2 as int);
            number_has_no_mark(width2 as int);
            number_has_no_mark(height2 as int);
            let a1 = signed_decimal(x as int);
            let a2 = signed_decimal(y as int);
            let a3 = signed_decimal(width as int);
            let a4 = signed_decimal(height as int);
            let b1 = signed_decimal(x2 as int);
            let b2 = signed_decimal(y2 as int);
            let b3 = signed_decimal(width2 as int);
            let b4 = signed_decimal(height2 as int);
            let ra3 = a4 + end + Seq::empty();
            let rb3 = b4 + end + Seq::empty();
            let ra2 = a3 + comma + ra3;
            let rb2 = b3 + comma + rb3;
            let ra1 = a2 + comma + ra2;
            let rb1 = b2 + comma + rb2;
            assert(mode_words(a) =~= a1 + comma + ra1);
            assert(mode_words(b) =~= b1 + comma + rb1);
            part_ends_at_the_mark(a1, b1, ra1, rb1, ',');
            part_ends_at_the_mark(a2, b2, ra2, rb2, ',');
            part_ends_at_the_mark(a3, b3, ra3, rb3, ',');
            part_ends_at_the_mark(a4, b4, Seq::empty(), Seq::empty(), ';');
            notations_tell_numbers_apart(x as int, x2 as int);
            notations_tell_numbers_apart(y as int, y2 as int);
            notations_tell_numbers_apart(width as int, width2 as int);
            notations_tell_numbers_apart(height as int, height2 as int);
        },
        _ => {},
    }
}

/// An output is astray exactly if it is on, was planned to be, and is not where it was
/// planned to be, seen from the planned primary.
pub proof fn astray_is_off_its_planned_place(
    p: PlannedOutput,
    origin: (i32, i32),
    state: CcdState,
    s: Slot,
    x: i32,
    y: i32,
)
    requires
        target_at(state.paths@, p.identity.connector@) == Some(s),
        source_of(state.paths@[s.chosen], state.modes@) matches Some(
            ModeInfo::Source { x: at, y: down, .. },
        ) && at == x && down == y,
    ensures
        astray(p, origin, state) <==> p.enabled && s.active && (x != p.position.0 - origin.0 || y
            != p.position.1 - origin.1),
{
}

/// A monitor is called by its friendly name, or else by its connector; its identity and its
/// being built in are what was seen of it, and it prefers no mode.
pub proof fn monitor_is_called_by_its_friendly_name(o: Output, v: TargetView)
    requires
        described(o, v),
    ensures
        v.friendly@.len() > 0 ==> o.display_name@ == v.friendly@,
        v.friendly@.len() == 0 ==> o.display_name@ == o.identity.connector@,
        o.identity.connector@ == v.connector@,
        o.identity.edid == v.edid,
        o.builtin == v.builtin,
        o.preferred_mode is None,
        o.alias is None,
{
}

} // verus!
