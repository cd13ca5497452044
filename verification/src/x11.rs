//! X11 backend logic: what RandR reports as a topology, and the CRTC
//! configuration that a layout plan asks for.

use crate::backend::{obstacle_error, reports, ApplyMode, Obstacle};
use crate::binary64::{
    even_quotient_is_exact, ratio_in_thousandths, ratio_in_whole, ratio_thousandths, ratio_whole,
};
use crate::bits::{bit_set, has_bit, low_i16, low_u16, truncate_i16, truncate_u16};
use crate::edid::{self, holds_identity};
use crate::error::BackendError;
use crate::identity::{EdidId, OutputIdentity};
use crate::layout::enabled_primary;
use crate::mode_spec::{apart, closest_at, closest_mode, nearest_mode_keeps_the_size};
use crate::seqs::{
    filter_has, filter_held, filter_meets, filter_push, find_where, first_where_facts,
    first_where_is, first_where_none,
};
use crate::text::{decimal, decode, join3, push_decimal, same_text, utf8_text};
use crate::topology::{
    builtin_connector, connector_is_builtin, encoding_counts_quarter_turns, swaps_axes,
    transform_code, LayoutPlan, Mode, Output, PlannedOutput, Scale, Topology, Transform, ONE_BITS,
};
use vstd::prelude::*;

verus! {

/// Accept RandR 1.3 and later.
pub fn check_version(major: u32, minor: u32) -> (r: Result<(), BackendError>)
    ensures
        match r {
            Ok(_) => major > 1 || (major == 1 && minor >= 3),
            Err(e) => {
                &&& major < 1 || (major == 1 && minor < 3)
                &&& e matches BackendError::Unavailable(m)
                &&& m@ == "RandR "@ + decimal(major as nat) + "."@ + decimal(minor as nat)
                    + " too old (need 1.3+)"@
            },
        },
{
    if major > 1 || (major == 1 && minor >= 3) {
        return Ok(());
    }
    let mut s = "RandR ".to_owned();
    push_decimal(&mut s, major as u64);
    s.append(".");
    push_decimal(&mut s, minor as u64);
    s.append(" too old (need 1.3+)");
    Err(BackendError::Unavailable(s))
}

/// A RandR mode.
#[derive(Debug, Clone, Copy, PartialEq, Eq, Structural)]
pub struct ModeInfo {
    pub id: u32,
    pub width: u16,
    pub height: u16,
    /// Pixel clock in hertz.
    pub dot_clock: u32,
    pub htotal: u16,
    pub vtotal: u16,
    /// RandR mode flags.
    pub mode_flags: u32,
}

/// RandR mode flag of interlaced modes.
pub const INTERLACE: u32 = 16;

/// RandR mode flag of doublescan modes.
pub const DOUBLE_SCAN: u32 = 32;

/// What drives an output: a CRTC and its configuration.
#[derive(Debug, Clone, Copy, PartialEq, Eq, Structural)]
pub struct CrtcInfo {
    pub crtc: u32,
    /// Mode id; zero when the CRTC is off.
    pub mode: u32,
    pub x: i16,
    pub y: i16,
    /// RandR rotation flags.
    pub rotation: u16,
}

/// A RandR output.
#[derive(Debug)]
pub struct OutputInfo {
    pub output: u32,
    pub name: Vec<u8>,
    pub connected: bool,
    /// The CRTC that drives the output; zero when it is off.
    pub crtc: u32,
    /// CRTCs that can drive the output.
    pub crtcs: Vec<u32>,
    /// Ids of the modes that the output advertises, preferred ones first.
    pub modes: Vec<u32>,
    pub num_preferred: u16,
    /// The EDID property, if it could be read.
    pub edid: Option<Vec<u8>>,
    /// The configuration of the CRTC that drives the output, if one does.
    pub current: Option<CrtcInfo>,
}

/// The screen resources of RandR.
#[derive(Debug)]
pub struct Resources {
    pub timestamp: u32,
    pub config_timestamp: u32,
    pub modes: Vec<ModeInfo>,
}

/// Refresh rate of a RandR mode in millihertz, with the interlace/doublescan
/// adjustments xrandr applies: a doublescan frame has twice the lines, an
/// interlaced one half of them.
pub open spec fn refresh_of(m: ModeInfo) -> u32 {
    let lines = (m.htotal * m.vtotal) as nat;
    let doubled = has_bit(m.mode_flags as int, DOUBLE_SCAN as int);
    let halved = has_bit(m.mode_flags as int, INTERLACE as int);
    if lines == 0 {
        0
    } else if doubled == halved {
        ratio_in_thousandths(m.dot_clock as nat, lines)
    } else if doubled {
        ratio_in_thousandths(m.dot_clock as nat, 2 * lines)
    } else {
        ratio_in_thousandths(2 * m.dot_clock as nat, lines)
    }
}

/// Refresh rate of a RandR mode in millihertz.
pub fn mode_refresh_mhz(mode: &ModeInfo) -> (r: u32)
    ensures
        r == refresh_of(*mode),
{
    let lines: u64 = {
        let h: u64 = mode.htotal as u64;
        let v: u64 = mode.vtotal as u64;
        assert(h * v <= 0xffff * 0xffff) by (nonlinear_arith)
            requires
                h <= 0xffff,
                v <= 0xffff,
        ;
        h * v
    };
    let doubled = bit_set(mode.mode_flags, DOUBLE_SCAN);
    let halved = bit_set(mode.mode_flags, INTERLACE);
    if lines == 0 {
        0
    } else if doubled == halved {
        ratio_thousandths(mode.dot_clock as u64, lines)
    } else if doubled {
        ratio_thousandths(mode.dot_clock as u64, 2 * lines)
    } else {
        ratio_thousandths(2 * (mode.dot_clock as u64), lines)
    }
}

/// The display mode that a RandR mode is.
pub open spec fn mode_from(m: ModeInfo) -> Mode {
    Mode { width: m.width as u32, height: m.height as u32, refresh_mhz: refresh_of(m) }
}

/// The display mode that a RandR mode is.
pub fn mode_of(info: &ModeInfo) -> (r: Mode)
    ensures
        r == mode_from(*info),
{
    Mode {
        width: info.width as u32,
        height: info.height as u32,
        refresh_mhz: mode_refresh_mhz(info),
    }
}

/// The transform that RandR rotation flags stand for.
pub open spec fn transform_from(r: u16) -> Transform {
    let flipped = has_bit(r as int, 16) || has_bit(r as int, 32);
    if has_bit(r as int, 2) {
        if flipped {
            Transform::FlippedRot90
        } else {
            Transform::Rot90
        }
    } else if has_bit(r as int, 4) {
        if flipped {
            Transform::FlippedRot180
        } else {
            Transform::Rot180
        }
    } else if has_bit(r as int, 8) {
        if flipped {
            Transform::FlippedRot270
        } else {
            Transform::Rot270
        }
    } else if flipped {
        Transform::Flipped
    } else {
        Transform::Normal
    }
}

/// The transform that RandR rotation flags stand for.
pub fn rotation_to_transform(r: u16) -> (t: Transform)
    ensures
        t == transform_from(r),
{
    let flags: u32 = r as u32;
    let flipped = bit_set(flags, 16) || bit_set(flags, 32);
    let base: u8 = if bit_set(flags, 2) {
        1
    } else if bit_set(flags, 4) {
        2
    } else if bit_set(flags, 8) {
        3
    } else {
        0
    };
    let code: u8 = if flipped {
        base + 4
    } else {
        base
    };
    match Transform::from_u8(code) {
        Some(t) => t,
        None => Transform::Normal,
    }
}

/// The RandR rotation flags of a transform.
pub open spec fn rotation_from(t: Transform) -> u16 {
    match t {
        Transform::Normal => 1,
        Transform::Rot90 => 2,
        Transform::Rot180 => 4,
        Transform::Rot270 => 8,
        Transform::Flipped => 17,
        Transform::FlippedRot90 => 18,
        Transform::FlippedRot180 => 20,
        Transform::FlippedRot270 => 24,
    }
}

/// The RandR rotation flags of a transform; reflections are along the x axis.
pub fn transform_to_rotation(t: Transform) -> (r: u16)
    ensures
        r == rotation_from(t),
{
    match t {
        Transform::Normal => 1,
        Transform::Rot90 => 2,
        Transform::Rot180 => 4,
        Transform::Rot270 => 8,
        Transform::Flipped => 17,
        Transform::FlippedRot90 => 18,
        Transform::FlippedRot180 => 20,
        Transform::FlippedRot270 => 24,
    }
}

/// A transform survives the way to RandR and back.
pub proof fn rotation_round_trip(t: Transform)
    ensures
        transform_from(rotation_from(t)) == t,
{
}

// ----------------------------------------------------------------- snapshot

/// The mode with an id; the last of several.
pub open spec fn mode_entry(table: Seq<ModeInfo>, id: u32) -> Option<ModeInfo>
    decreases table.len(),
{
    if table.len() == 0 {
        None
    } else if table.last().id == id {
        Some(table.last())
    } else {
        mode_entry(table.drop_last(), id)
    }
}

fn find_mode(table: &Vec<ModeInfo>, id: u32) -> (r: Option<ModeInfo>)
    ensures
        r == mode_entry(table@, id),
{
    let mut found: Option<ModeInfo> = None;
    for i in 0..table.len()
        invariant
            found == mode_entry(table@.take(i as int), id),
    {
        assert(table@.take(i + 1).drop_last() =~= table@.take(i as int));
        if table[i].id == id {
            found = Some(table[i]);
        }
    }
    assert(table@.take(table@.len() as int) =~= table@);
    found
}

/// The display mode with an id.
pub open spec fn mode_with(table: Seq<ModeInfo>, id: u32) -> Option<Mode> {
    match mode_entry(table, id) {
        Some(m) => Some(mode_from(m)),
        None => None,
    }
}

fn mode_by_id(table: &Vec<ModeInfo>, id: u32) -> (r: Option<Mode>)
    ensures
        r == mode_with(table@, id),
{
    match find_mode(table, id) {
        Some(m) => Some(mode_of(&m)),
        None => None,
    }
}

/// The condition that a mode id is in the table.
pub open spec fn known(table: Seq<ModeInfo>) -> spec_fn(u32) -> bool {
    |id: u32| mode_entry(table, id) is Some
}

/// The display modes of the known ids.
pub open spec fn known_modes(ids: Seq<u32>, table: Seq<ModeInfo>) -> Seq<Mode> {
    ids.filter(known(table)).map_values(|id: u32| mode_with(table, id)->0)
}

/// The ids that are in the table, and their display modes.
struct KnownModes {
    ids: Vec<u32>,
    modes: Vec<Mode>,
}

fn known_mode_list(ids: &Vec<u32>, table: &Vec<ModeInfo>) -> (r: KnownModes)
    ensures
        r.ids@ == ids@.filter(known(table@)),
        r.modes@ == known_modes(ids@, table@),
{
    let mut kept: Vec<u32> = Vec::new();
    let mut modes: Vec<Mode> = Vec::new();
    proof {
        assert(ids@.take(0) =~= Seq::<u32>::empty());
        reveal(Seq::filter);
        assert(modes@ =~= known_modes(ids@.take(0), table@));
    }
    for i in 0..ids.len()
        invariant
            kept@ == ids@.take(i as int).filter(known(table@)),
            modes@ == known_modes(ids@.take(i as int), table@),
    {
        proof {
            filter_push(ids@.take(i as int), known(table@), ids@[i as int]);
            assert(ids@.take(i as int).push(ids@[i as int]) =~= ids@.take(i + 1));
        }
        if let Some(m) = mode_by_id(table, ids[i]) {
            kept.push(ids[i]);
            modes.push(m);
            assert(modes@ =~= known_modes(ids@.take(i + 1), table@));
        }
    }
    assert(ids@.take(ids@.len() as int) =~= ids@);
    KnownModes { ids: kept, modes }
}

/// Whether an output is the one that RandR describes.
pub open spec fn described(o: Output, info: OutputInfo, table: Seq<ModeInfo>, primary: u32) -> bool {
    let name = utf8_text(info.name@);
    &&& o.identity.connector@ == name
    &&& match info.edid {
        Some(bytes) => holds_identity(o.identity.edid, bytes@),
        None => o.identity.edid is None,
    }
    &&& o.alias is None
    &&& o.display_name@ == match o.identity.edid {
        Some(e) => e.vendor@ + " "@ + e.product@,
        None => name,
    }
    &&& o.builtin == builtin_connector(name)
    &&& o.enabled == (info.current is Some)
    &&& o.mode == match info.current {
        Some(c) => mode_with(table, c.mode),
        None => None,
    }
    &&& o.preferred_mode == if info.num_preferred > 0 && info.modes@.len() > 0 {
        mode_with(table, info.modes@[0])
    } else {
        None
    }
    &&& o.modes@ == known_modes(info.modes@, table)
    &&& o.position == match info.current {
        Some(c) => (c.x as i32, c.y as i32),
        None => (0i32, 0i32),
    }
    &&& o.scale.bits == ONE_BITS
    &&& o.transform == match info.current {
        Some(c) => transform_from(c.rotation),
        None => Transform::Normal,
    }
    &&& o.primary == (info.output == primary)
}

/// The condition that an output is connected.
pub open spec fn connected() -> spec_fn(OutputInfo) -> bool {
    |i: OutputInfo| i.connected
}

/// Whether outputs are those that RandR describes.
pub open spec fn all_described(
    outputs: Seq<Output>,
    infos: Seq<OutputInfo>,
    table: Seq<ModeInfo>,
    primary: u32,
) -> bool {
    &&& outputs.len() == infos.len()
    &&& forall|i: int|
        0 <= i < outputs.len() ==> described(#[trigger] outputs[i], infos[i], table, primary)
}

/// The configuration serial: both timestamps of the screen resources.
pub open spec fn serial_of(res: Resources) -> Seq<char> {
    decimal(res.timestamp as nat) + ":"@ + decimal(res.config_timestamp as nat)
}

/// The configuration serial of the screen resources.
pub fn serial_text(res: &Resources) -> (r: String)
    ensures
        r@ == serial_of(*res),
{
    let mut s = String::new();
    push_decimal(&mut s, res.timestamp as u64);
    s.append(":");
    push_decimal(&mut s, res.config_timestamp as u64);
    assert(s@ =~= serial_of(*res));
    s
}

fn read_output(info: &OutputInfo, table: &Vec<ModeInfo>, primary: u32) -> (r: Output)
    ensures
        described(r, *info, table@, primary),
{
    let name = decode(info.name.as_slice());
    let edid: Option<EdidId> = match &info.edid {
        Some(bytes) => edid::parse(bytes.as_slice()),
        None => None,
    };
    let display_name: String = match &edid {
        Some(e) => join3(e.vendor.as_str(), " ", e.product.as_str()),
        None => name.clone(),
    };
    let preferred: Option<Mode> = if info.num_preferred > 0 && info.modes.len() > 0 {
        mode_by_id(table, info.modes[0])
    } else {
        None
    };
    let list = known_mode_list(&info.modes, table);
    let builtin = connector_is_builtin(name.as_str());
    let (enabled, mode, position, transform): (bool, Option<Mode>, (i32, i32), Transform) =
        match info.current {
        Some(c) => (
            true,
            mode_by_id(table, c.mode),
            (c.x as i32, c.y as i32),
            rotation_to_transform(c.rotation),
        ),
        None => (false, None, (0, 0), Transform::Normal),
    };
    Output {
        identity: OutputIdentity { edid, connector: name },
        alias: None,
        display_name,
        builtin,
        enabled,
        mode,
        preferred_mode: preferred,
        modes: list.modes,
        position,
        scale: Scale::one(),
        transform,
        primary: info.output == primary,
    }
}

/// The topology that RandR reports; disconnected outputs are skipped.
pub fn read_topology(res: &Resources, infos: &Vec<OutputInfo>, primary: u32) -> (r: Topology)
    ensures
        r.serial@ == serial_of(*res),
        all_described(r.outputs@, infos@.filter(connected()), res.modes@, primary),
{
    let mut outputs: Vec<Output> = Vec::new();
    proof {
        assert(infos@.take(0) =~= Seq::<OutputInfo>::empty());
        reveal(Seq::filter);
    }
    for i in 0..infos.len()
        invariant
            all_described(
                outputs@,
                infos@.take(i as int).filter(connected()),
                res.modes@,
                primary,
            ),
    {
        proof {
            filter_push(infos@.take(i as int), connected(), infos@[i as int]);
            assert(infos@.take(i as int).push(infos@[i as int]) =~= infos@.take(i + 1));
        }
        if infos[i].connected {
            outputs.push(read_output(&infos[i], &res.modes, primary));
        }
    }
    assert(infos@.take(infos@.len() as int) =~= infos@);
    Topology { serial: serial_text(res), outputs }
}

// -------------------------------------------------------------------- apply

/// Size an output occupies on screen (rotation swaps the mode dimensions;
/// X11 has no fractional per-output scale).
pub open spec fn size_of(p: PlannedOutput) -> (u16, u16) {
    match p.mode {
        None => (0u16, 0u16),
        Some(m) => if swaps_axes(p.transform) {
            (low_u16(m.height as int), low_u16(m.width as int))
        } else {
            (low_u16(m.width as int), low_u16(m.height as int))
        },
    }
}

/// Size an output occupies on screen.
pub fn planned_size(p: &PlannedOutput) -> (r: (u16, u16))
    ensures
        r == size_of(*p),
{
    match p.mode {
        None => (0, 0),
        Some(m) => if p.transform.swaps_axes() {
            (truncate_u16(m.height), truncate_u16(m.width))
        } else {
            (truncate_u16(m.width), truncate_u16(m.height))
        },
    }
}

/// The larger of two numbers.
pub open spec fn larger(a: int, b: int) -> int {
    if a >= b {
        a
    } else {
        b
    }
}

/// The right and bottom edge of the enabled outputs among the first `n`, never
/// left of or above the origin.
pub open spec fn far_corner(s: Seq<PlannedOutput>, n: int) -> (int, int)
    decreases n,
{
    if n <= 0 {
        (0int, 0int)
    } else {
        let before = far_corner(s, n - 1);
        let p = s[n - 1];
        if p.enabled {
            (
                larger(before.0, p.position.0 + size_of(p).0),
                larger(before.1, p.position.1 + size_of(p).1),
            )
        } else {
            before
        }
    }
}

/// Whether the far corner of every enabled output is a coordinate.
pub open spec fn corners_fit(s: Seq<PlannedOutput>) -> bool {
    forall|i: int|
        0 <= i < s.len() && (#[trigger] s[i]).enabled ==> s[i].position.0 + size_of(s[i]).0
            <= i32::MAX && s[i].position.1 + size_of(s[i]).1 <= i32::MAX
}

/// Whether the far corner of every enabled output is a coordinate.
pub fn corners_within(plan: &LayoutPlan) -> (r: bool)
    ensures
        r == corners_fit(plan.outputs@),
{
    for i in 0..plan.outputs.len()
        invariant
            forall|j: int|
                0 <= j < i && (#[trigger] plan.outputs@[j]).enabled
                    ==> plan.outputs@[j].position.0 + size_of(plan.outputs@[j]).0 <= i32::MAX
                    && plan.outputs@[j].position.1 + size_of(plan.outputs@[j]).1 <= i32::MAX,
    {
        let p = &plan.outputs[i];
        if p.enabled {
            let size = planned_size(p);
            let x: i64 = p.position.0 as i64 + size.0 as i64;
            let y: i64 = p.position.1 as i64 + size.1 as i64;
            if x > i32::MAX as i64 || y > i32::MAX as i64 {
                assert(plan.outputs@[i as int].enabled);
                return false;
            }
        }
    }
    true
}

/// The screen size that a plan needs: the bounding box of its enabled outputs
/// and the origin, at least one pixel each way.
pub open spec fn bounds_of(s: Seq<PlannedOutput>) -> (u16, u16) {
    let corner = far_corner(s, s.len() as int);
    (low_u16(larger(corner.0, 1)), low_u16(larger(corner.1, 1)))
}

/// Bounding box of the enabled outputs: the required screen size.
pub fn screen_bounds(plan: &LayoutPlan) -> (r: (u16, u16))
    requires
        corners_fit(plan.outputs@),
    ensures
        r == bounds_of(plan.outputs@),
{
    let mut w: i32 = 0;
    let mut h: i32 = 0;
    let ghost s = plan.outputs@;
    for i in 0..plan.outputs.len()
        invariant
            s == plan.outputs@,
            corners_fit(s),
            w == far_corner(s, i as int).0,
            h == far_corner(s, i as int).1,
            w >= 0,
            h >= 0,
    {
        let p = &plan.outputs[i];
        if p.enabled {
            assert(s[i as int].enabled);
            let size = planned_size(p);
            let x: i32 = p.position.0 + size.0 as i32;
            let y: i32 = p.position.1 + size.1 as i32;
            if x > w {
                w = x;
            }
            if y > h {
                h = y;
            }
        }
    }
    let w: u32 = if w < 1 {
        1
    } else {
        w as u32
    };
    let h: u32 = if h < 1 {
        1
    } else {
        h as u32
    };
    (truncate_u16(w), truncate_u16(h))
}

/// The CRTC configuration of one enabled output.
#[derive(Debug, Clone, Copy, PartialEq, Eq, Structural)]
pub struct Assignment {
    pub crtc: u32,
    pub output: u32,
    pub mode_id: u32,
    pub x: i16,
    pub y: i16,
    pub rotation: u16,
}

/// The connected output with a name; the last of several.
pub open spec fn output_named(infos: Seq<OutputInfo>, name: Seq<char>) -> Option<OutputInfo>
    decreases infos.len(),
{
    if infos.len() == 0 {
        None
    } else if infos.last().connected && utf8_text(infos.last().name@) == name {
        Some(infos.last())
    } else {
        output_named(infos.drop_last(), name)
    }
}

fn find_output<'a>(infos: &'a Vec<OutputInfo>, name: &str) -> (r: Option<&'a OutputInfo>)
    ensures
        match (r, output_named(infos@, name@)) {
            (Some(i), Some(want)) => *i == want,
            (None, None) => true,
            _ => false,
        },
{
    let mut found: Option<&'a OutputInfo> = None;
    for i in 0..infos.len()
        invariant
            match (found, output_named(infos@.take(i as int), name@)) {
                (Some(f), Some(want)) => *f == want,
                (None, None) => true,
                _ => false,
            },
    {
        assert(infos@.take(i + 1).drop_last() =~= infos@.take(i as int));
        if infos[i].connected && same_text(decode(infos[i].name.as_slice()).as_str(), name) {
            found = Some(&infos[i]);
        }
    }
    assert(infos@.take(infos@.len() as int) =~= infos@);
    found
}

/// Whether an assignment uses a CRTC.
pub open spec fn uses(done: Seq<Assignment>, crtc: u32) -> bool {
    exists|i: int| 0 <= i < done.len() && (#[trigger] done[i]).crtc == crtc
}

fn in_use(done: &Vec<Assignment>, crtc: u32) -> (r: bool)
    ensures
        r == uses(done@, crtc),
{
    for i in 0..done.len()
        invariant
            forall|j: int| 0 <= j < i ==> (#[trigger] done@[j]).crtc != crtc,
    {
        if done[i].crtc == crtc {
            assert(done@[i as int].crtc == crtc);
            return true;
        }
    }
    false
}

/// The condition that a CRTC is free.
pub open spec fn free(done: Seq<Assignment>) -> spec_fn(u32) -> bool {
    |c: u32| !uses(done, c)
}

/// The CRTC for an output: the one that drives it now, if it is free, otherwise
/// the first free one that can.
pub open spec fn crtc_for(info: OutputInfo, done: Seq<Assignment>) -> Option<u32> {
    if info.crtc != 0 && !uses(done, info.crtc) {
        Some(info.crtc)
    } else {
        find_where(info.crtcs@, free(done))
    }
}

fn choose_crtc(info: &OutputInfo, done: &Vec<Assignment>) -> (r: Option<u32>)
    ensures
        r == crtc_for(*info, done@),
{
    if info.crtc != 0 && !in_use(done, info.crtc) {
        return Some(info.crtc);
    }
    for i in 0..info.crtcs.len()
        invariant
            info.crtc == 0 || uses(done@, info.crtc),
            forall|j: int| 0 <= j < i ==> !free(done@)(info.crtcs@[j]),
    {
        if !in_use(done, info.crtcs[i]) {
            proof {
                first_where_is(info.crtcs@, free(done@), i as int);
            }
            return Some(info.crtcs[i]);
        }
    }
    proof {
        first_where_none(info.crtcs@, free(done@));
    }
    None
}

/// How an enabled output is driven, given the assignments before it: in the
/// planned mode, or the one of the same resolution with the closest refresh.
pub open spec fn assignment_for(
    p: PlannedOutput,
    infos: Seq<OutputInfo>,
    table: Seq<ModeInfo>,
    done: Seq<Assignment>,
) -> Result<Assignment, Obstacle> {
    match output_named(infos, p.identity.connector@) {
        None => Err(Obstacle::Unknown),
        Some(info) => match p.mode {
            None => Err(Obstacle::Modeless),
            Some(m) => match closest_at(known_modes(info.modes@, table), m) {
                None => Err(Obstacle::Unavailable(m)),
                Some(k) => match crtc_for(info, done) {
                    None => Err(Obstacle::NoCrtc),
                    Some(crtc) => Ok(
                        Assignment {
                            crtc,
                            output: info.output,
                            mode_id: info.modes@.filter(known(table))[k],
                            x: low_i16(p.position.0 as int),
                            y: low_i16(p.position.1 as int),
                            rotation: rotation_from(p.transform),
                        },
                    ),
                },
            },
        },
    }
}

/// The assignments of the enabled outputs among the first `n`, or the first
/// output that cannot be driven and why.
pub open spec fn assigned(
    plan: Seq<PlannedOutput>,
    infos: Seq<OutputInfo>,
    table: Seq<ModeInfo>,
    n: int,
) -> Result<Seq<Assignment>, (int, Obstacle)>
    decreases n,
{
    if n <= 0 {
        Ok(Seq::empty())
    } else {
        match assigned(plan, infos, table, n - 1) {
            Err(e) => Err(e),
            Ok(done) => if !plan[n - 1].enabled {
                Ok(done)
            } else {
                match assignment_for(plan[n - 1], infos, table, done) {
                    Ok(a) => Ok(done.push(a)),
                    Err(o) => Err((n - 1, o)),
                }
            },
        }
    }
}

fn assign_one(
    p: &PlannedOutput,
    infos: &Vec<OutputInfo>,
    table: &Vec<ModeInfo>,
    done: &Vec<Assignment>,
) -> (r: Result<Assignment, Obstacle>)
    ensures
        r == assignment_for(*p, infos@, table@, done@),
{
    let info = match find_output(infos, p.identity.connector.as_str()) {
        Some(i) => i,
        None => {
            return Err(Obstacle::Unknown);
        },
    };
    let wanted: Mode = match p.mode {
        Some(m) => m,
        None => {
            return Err(Obstacle::Modeless);
        },
    };
    let list = known_mode_list(&info.modes, table);
    let k: usize = match closest_mode(&list.modes, wanted) {
        Some(k) => k,
        None => {
            return Err(Obstacle::Unavailable(wanted));
        },
    };
    let crtc: u32 = match choose_crtc(info, done) {
        Some(c) => c,
        None => {
            return Err(Obstacle::NoCrtc);
        },
    };
    Ok(
        Assignment {
            crtc,
            output: info.output,
            mode_id: list.ids[k],
            x: truncate_i16(p.position.0),
            y: truncate_i16(p.position.1),
            rotation: transform_to_rotation(p.transform),
        },
    )
}

/// Assign CRTCs and mode ids to the enabled outputs of a plan.
pub fn assign(plan: &LayoutPlan, infos: &Vec<OutputInfo>, table: &Vec<ModeInfo>) -> (r: Result<
    Vec<Assignment>,
    BackendError,
>)
    ensures
        match (r, assigned(plan.outputs@, infos@, table@, plan.outputs@.len() as int)) {
            (Ok(list), Ok(want)) => list@ == want,
            (Err(e), Err((i, o))) => reports(e, plan.outputs@[i].identity.connector@, o),
            _ => false,
        },
{
    let mut done: Vec<Assignment> = Vec::new();
    let n = plan.outputs.len();
    let mut i: usize = 0;
    while i < n
        invariant
            i <= n == plan.outputs.len(),
            assigned(plan.outputs@, infos@, table@, i as int) == Ok::<
                Seq<Assignment>,
                (int, Obstacle),
            >(done@),
        decreases n - i,
    {
        let p = &plan.outputs[i];
        if p.enabled {
            match assign_one(p, infos, table, &done) {
                Ok(a) => {
                    done.push(a);
                },
                Err(o) => {
                    proof {
                        assigned_fails(plan.outputs@, infos@, table@, i + 1, n as int);
                    }
                    return Err(obstacle_error(p.identity.connector.as_str(), o));
                },
            }
        }
        i = i + 1;
    }
    Ok(done)
}

proof fn assigned_fails(
    plan: Seq<PlannedOutput>,
    infos: Seq<OutputInfo>,
    table: Seq<ModeInfo>,
    m: int,
    n: int,
)
    requires
        0 < m <= n,
        assigned(plan, infos, table, m) is Err,
    ensures
        assigned(plan, infos, table, n) == assigned(plan, infos, table, m),
    decreases n - m,
{
    if m < n {
        assigned_fails(plan, infos, table, m, n - 1);
    }
}

/// The size of the screen before the change.
#[derive(Debug, Clone, Copy, PartialEq, Eq, Structural)]
pub struct ScreenInfo {
    pub width_in_pixels: u16,
    pub height_in_pixels: u16,
    pub width_in_millimeters: u16,
    pub height_in_millimeters: u16,
}

/// The physical size of so many pixels at the resolution of the screen.
pub open spec fn millimeters(pixels: u16, screen_mm: u16, screen_pixels: u16) -> u16 {
    ratio_in_whole((pixels * screen_mm) as nat, screen_pixels as nat, u16::MAX as nat) as u16
}

/// The physical size of so many pixels at the resolution of the screen, so that
/// its DPI stays.
pub fn to_millimeters(pixels: u16, screen_mm: u16, screen_pixels: u16) -> (r: u16)
    ensures
        r == millimeters(pixels, screen_mm, screen_pixels),
{
    let a: u64 = {
        let x: u64 = pixels as u64;
        let y: u64 = screen_mm as u64;
        assert(x * y <= 0xffff * 0xffff) by (nonlinear_arith)
            requires
                x <= 0xffff,
                y <= 0xffff,
        ;
        x * y
    };
    let v = ratio_whole(a, screen_pixels as u64, u16::MAX as u64);
    proof {
        ratio_bounded(a as nat, screen_pixels as nat, u16::MAX as nat);
    }
    v as u16
}

proof fn ratio_bounded(a: nat, b: nat, max: nat)
    ensures
        ratio_in_whole(a, b, max) <= max,
{
}

/// A RandR configuration to apply.
#[derive(Debug)]
pub struct ScreenChange {
    pub assignments: Vec<Assignment>,
    pub width: u16,
    pub height: u16,
    pub mm_width: u16,
    pub mm_height: u16,
    /// The primary output; zero for none.
    pub primary: u32,
}

/// The output that becomes primary: the first enabled primary of the plan, if
/// it is connected; zero for none.
pub open spec fn primary_output(plan: Seq<PlannedOutput>, infos: Seq<OutputInfo>) -> u32 {
    match find_where(plan, enabled_primary()) {
        Some(p) => match output_named(infos, p.identity.connector@) {
            Some(info) => info.output,
            None => 0,
        },
        None => 0,
    }
}

fn choose_primary(plan: &LayoutPlan, infos: &Vec<OutputInfo>) -> (r: u32)
    ensures
        r == primary_output(plan.outputs@, infos@),
{
    for i in 0..plan.outputs.len()
        invariant
            forall|j: int| 0 <= j < i ==> !enabled_primary()(plan.outputs@[j]),
    {
        let p = &plan.outputs[i];
        if p.enabled && p.primary {
            proof {
                first_where_is(plan.outputs@, enabled_primary(), i as int);
            }
            return match find_output(infos, p.identity.connector.as_str()) {
                Some(info) => info.output,
                None => 0,
            };
        }
    }
    proof {
        first_where_none(plan.outputs@, enabled_primary());
    }
    0
}

/// Decide about applying a plan: the CRTC configurations to set, or `None` when
/// a valid plan was only to be verified.
pub fn plan_apply(
    plan: &LayoutPlan,
    res: &Resources,
    infos: &Vec<OutputInfo>,
    mode: ApplyMode,
) -> (r: Result<Option<Vec<Assignment>>, BackendError>)
    ensures
        if plan.serial@ != serial_of(*res) {
            r matches Err(BackendError::StaleSerial)
        } else {
            match assigned(plan.outputs@, infos@, res.modes@, plan.outputs@.len() as int) {
                Err((i, o)) => r is Err && reports(
                    r->Err_0,
                    plan.outputs@[i].identity.connector@,
                    o,
                ),
                Ok(list) => {
                    &&& r is Ok
                    &&& r->Ok_0 is None <==> mode == ApplyMode::Verify
                    &&& r->Ok_0 matches Some(assignments) ==> assignments@ == list
                },
            }
        },
{
    if !same_text(plan.serial.as_str(), serial_text(res).as_str()) {
        return Err(BackendError::StaleSerial);
    }
    match assign(plan, infos, &res.modes) {
        Err(e) => Err(e),
        Ok(assignments) => if mode == ApplyMode::Verify {
            Ok(None)
        } else {
            Ok(Some(assignments))
        },
    }
}

/// The whole configuration: the CRTCs, the screen around them, and the primary
/// output. The physical size grows and shrinks with the screen, so that its DPI
/// stays.
pub fn complete_change(
    plan: &LayoutPlan,
    infos: &Vec<OutputInfo>,
    screen: ScreenInfo,
    assignments: Vec<Assignment>,
) -> (r: ScreenChange)
    requires
        corners_fit(plan.outputs@),
    ensures
        r.assignments == assignments,
        (r.width, r.height) == bounds_of(plan.outputs@),
        r.mm_width == millimeters(r.width, screen.width_in_millimeters, screen.width_in_pixels),
        r.mm_height == millimeters(
            r.height,
            screen.height_in_millimeters,
            screen.height_in_pixels,
        ),
        r.primary == primary_output(plan.outputs@, infos@),
{
    let (width, height): (u16, u16) = screen_bounds(plan);
    ScreenChange {
        assignments,
        width,
        height,
        mm_width: to_millimeters(width, screen.width_in_millimeters, screen.width_in_pixels),
        mm_height: to_millimeters(height, screen.height_in_millimeters, screen.height_in_pixels),
        primary: choose_primary(plan, infos),
    }
}

/// Whether a CRTC already has an assigned configuration.
pub open spec fn settled(c: CrtcInfo, list: Seq<Assignment>) -> bool {
    exists|i: int|
        0 <= i < list.len() && (#[trigger] list[i]).crtc == c.crtc && list[i].mode_id == c.mode
            && list[i].x == c.x && list[i].y == c.y && list[i].rotation == c.rotation
}

/// The condition that a CRTC is on but unused or configured otherwise, so that
/// it is to be switched off before the screen is resized.
pub open spec fn in_the_way(list: Seq<Assignment>) -> spec_fn(CrtcInfo) -> bool {
    |c: CrtcInfo| c.mode != 0 && !settled(c, list)
}

fn is_settled(c: &CrtcInfo, list: &Vec<Assignment>) -> (r: bool)
    ensures
        r == settled(*c, list@),
{
    for i in 0..list.len()
        invariant
            forall|j: int|
                0 <= j < i ==> !((#[trigger] list@[j]).crtc == c.crtc && list@[j].mode_id == c.mode
                    && list@[j].x == c.x && list@[j].y == c.y && list@[j].rotation == c.rotation),
    {
        let a = &list[i];
        if a.crtc == c.crtc && a.mode_id == c.mode && a.x == c.x && a.y == c.y && a.rotation
            == c.rotation {
            assert(list@[i as int].crtc == c.crtc);
            return true;
        }
    }
    false
}

/// The CRTCs that are to be switched off before the screen is resized.
pub fn crtcs_to_detach(assignments: &Vec<Assignment>, crtcs: &Vec<CrtcInfo>) -> (r: Vec<CrtcInfo>)
    ensures
        r@ == crtcs@.filter(in_the_way(assignments@)),
{
    let mut out: Vec<CrtcInfo> = Vec::new();
    proof {
        assert(crtcs@.take(0) =~= Seq::<CrtcInfo>::empty());
        reveal(Seq::filter);
    }
    for i in 0..crtcs.len()
        invariant
            out@ == crtcs@.take(i as int).filter(in_the_way(assignments@)),
    {
        proof {
            filter_push(crtcs@.take(i as int), in_the_way(assignments@), crtcs@[i as int]);
            assert(crtcs@.take(i as int).push(crtcs@[i as int]) =~= crtcs@.take(i + 1));
        }
        if crtcs[i].mode != 0 && !is_settled(&crtcs[i], assignments) {
            out.push(crtcs[i]);
        }
    }
    assert(crtcs@.take(crtcs@.len() as int) =~= crtcs@);
    out
}

// --------------------------------------------------------------------- laws

/// No two outputs are assigned the same CRTC.
pub proof fn no_crtc_drives_two_outputs(
    plan: Seq<PlannedOutput>,
    infos: Seq<OutputInfo>,
    table: Seq<ModeInfo>,
    n: int,
)
    requires
        assigned(plan, infos, table, n) is Ok,
    ensures
        ({
            let list = assigned(plan, infos, table, n)->Ok_0;
            forall|i: int, j: int|
                0 <= i < list.len() && 0 <= j < list.len() && i != j ==> (#[trigger] list[i]).crtc
                    != (#[trigger] list[j]).crtc
        }),
    decreases n,
{
    if n > 0 {
        no_crtc_drives_two_outputs(plan, infos, table, n - 1);
        if plan[n - 1].enabled {
            let done = assigned(plan, infos, table, n - 1)->Ok_0;
            let p = plan[n - 1];
            let info = output_named(infos, p.identity.connector@)->0;
            first_where_facts(info.crtcs@, free(done));
            let list = assigned(plan, infos, table, n)->Ok_0;
            let a = list.last();
            assert(!uses(done, a.crtc));
            assert forall|i: int, j: int|
                0 <= i < list.len() && 0 <= j < list.len() && i != j implies (
            #[trigger] list[i]).crtc != (#[trigger] list[j]).crtc by {
                if i < done.len() && j < done.len() {
                    assert(list[i] == done[i] && list[j] == done[j]);
                } else if i < done.len() {
                    assert(done[i].crtc != a.crtc);
                } else {
                    assert(done[j].crtc != a.crtc);
                }
            }
        }
    }
}

/// The screen holds every enabled output that lies right of and below the
/// origin, as long as its far corner is at most 65535.
pub proof fn screen_holds_the_outputs(s: Seq<PlannedOutput>, i: int)
    requires
        0 <= i < s.len(),
        s[i].enabled,
        far_corner(s, s.len() as int).0 <= 0xffff,
        far_corner(s, s.len() as int).1 <= 0xffff,
    ensures
        s[i].position.0 + size_of(s[i]).0 <= bounds_of(s).0,
        s[i].position.1 + size_of(s[i]).1 <= bounds_of(s).1,
{
    corner_grows(s, i + 1, s.len() as int);
    corner_positive(s, s.len() as int);
}

proof fn corner_grows(s: Seq<PlannedOutput>, m: int, n: int)
    requires
        0 <= m <= n,
    ensures
        far_corner(s, m).0 <= far_corner(s, n).0,
        far_corner(s, m).1 <= far_corner(s, n).1,
    decreases n - m,
{
    if m < n {
        corner_grows(s, m, n - 1);
    }
}

proof fn corner_positive(s: Seq<PlannedOutput>, n: int)
    ensures
        far_corner(s, n).0 >= 0,
        far_corner(s, n).1 >= 0,
    decreases n,
{
    if n > 0 {
        corner_positive(s, n - 1);
    }
}

/// Whether an output is the only connected one with a name.
pub open spec fn only_connected(infos: Seq<OutputInfo>, name: Seq<char>, n: int) -> bool {
    &&& 0 <= n < infos.len()
    &&& infos[n].connected
    &&& utf8_text(infos[n].name@) == name
    &&& forall|j: int|
        0 <= j < infos.len() && j != n && (#[trigger] infos[j]).connected ==> utf8_text(
            infos[j].name@,
        ) != name
}

proof fn only_output_is_found(infos: Seq<OutputInfo>, name: Seq<char>, n: int)
    requires
        only_connected(infos, name, n),
    ensures
        output_named(infos, name) == Some(infos[n]),
    decreases infos.len(),
{
    let t = infos.drop_last();
    if n < t.len() {
        assert(forall|j: int| 0 <= j < t.len() ==> t[j] == infos[j]);
        assert(!infos[infos.len() - 1].connected || utf8_text(infos[infos.len() - 1].name@)
            != name);
        only_output_is_found(t, name, n);
    }
}

/// Whether a mode of the table is the last with an id.
pub open spec fn last_with_id(table: Seq<ModeInfo>, id: u32, t: int) -> bool {
    &&& 0 <= t < table.len()
    &&& table[t].id == id
    &&& forall|j: int| t < j < table.len() ==> (#[trigger] table[j]).id != id
}

proof fn entry_is_the_last(table: Seq<ModeInfo>, id: u32)
    ensures
        forall|t: int|
            #[trigger] last_with_id(table, id, t) ==> mode_entry(table, id) == Some(table[t]),
        mode_entry(table, id) is Some ==> exists|t: int|
            #[trigger] last_with_id(table, id, t) && mode_entry(table, id) == Some(table[t]),
    decreases table.len(),
{
    if table.len() > 0 {
        let rest = table.drop_last();
        let n = table.len() - 1;
        entry_is_the_last(rest, id);
        assert(forall|j: int| 0 <= j < rest.len() ==> rest[j] == table[j]);
        assert(table[n] == table.last());
        if table[n].id == id {
            assert(last_with_id(table, id, n));
            assert forall|t: int| #[trigger] last_with_id(table, id, t) implies mode_entry(
                table,
                id,
            ) == Some(table[t]) by {
                assert(t == n);
            }
        } else {
            assert forall|t: int| #[trigger] last_with_id(table, id, t) implies mode_entry(
                table,
                id,
            ) == Some(table[t]) by {
                assert(last_with_id(rest, id, t));
            }
            if mode_entry(rest, id) is Some {
                let t = choose|t: int|
                    #[trigger] last_with_id(rest, id, t) && mode_entry(rest, id) == Some(rest[t]);
                assert(last_with_id(table, id, t));
            }
        }
    }
}

/// An output that is planned to be on is driven at its planned position, turned as
/// planned, in a mode that it advertises: of exactly the planned width and height,
/// and of the refresh closest to the planned one. Its CRTC can drive it and drives
/// no output before it, and is the one that drives it now wherever that is free.
#[verifier::spinoff_prover]
#[verifier::rlimit(40)]
pub proof fn output_is_driven_as_planned(
    p: PlannedOutput,
    infos: Seq<OutputInfo>,
    table: Seq<ModeInfo>,
    done: Seq<Assignment>,
    n: int,
)
    requires
        only_connected(infos, p.identity.connector@, n),
    ensures
        p.mode is None ==> assignment_for(p, infos, table, done) == Err::<Assignment, Obstacle>(
            Obstacle::Modeless,
        ),
        p.mode matches Some(wanted) ==> {
            let info = infos[n];
            match assignment_for(p, infos, table, done) {
                Ok(a) => {
                    &&& a.output == info.output
                    &&& i16::MIN <= p.position.0 <= i16::MAX ==> a.x == p.position.0
                    &&& i16::MIN <= p.position.1 <= i16::MAX ==> a.y == p.position.1
                    &&& transform_from(a.rotation) == p.transform
                    &&& info.modes@.contains(a.mode_id)
                    &&& exists|t: int|
                        #[trigger] last_with_id(table, a.mode_id, t) && table[t].width
                            == wanted.width && table[t].height == wanted.height && (forall|
                            k: int,
                            u: int,
                        |
                            #![trigger info.modes@[k], table[u]]
                            0 <= k < info.modes@.len() && last_with_id(table, info.modes@[k], u)
                                && table[u].width == wanted.width && table[u].height
                                == wanted.height ==> apart(
                                refresh_of(table[t]) as int,
                                wanted.refresh_mhz as int,
                            ) <= apart(refresh_of(table[u]) as int, wanted.refresh_mhz as int))
                    &&& a.crtc == info.crtc || info.crtcs@.contains(a.crtc)
                    &&& forall|k: int|
                        0 <= k < done.len() ==> (#[trigger] done[k]).crtc != a.crtc
                    &&& info.crtc != 0 && (forall|k: int|
                        0 <= k < done.len() ==> (#[trigger] done[k]).crtc != info.crtc) ==> a.crtc
                        == info.crtc
                },
                Err(o) => {
                    ||| {
                        &&& o == Obstacle::Unavailable(wanted)
                        &&& forall|k: int, u: int|
                            #![trigger info.modes@[k], table[u]]
                            0 <= k < info.modes@.len() && last_with_id(table, info.modes@[k], u)
                                ==> table[u].width != wanted.width || table[u].height
                                != wanted.height
                    }
                    ||| {
                        &&& o == Obstacle::NoCrtc
                        &&& forall|c: int|
                            0 <= c < info.crtcs@.len() ==> uses(done, #[trigger] info.crtcs@[c])
                    }
                },
            }
        },
{
    let info = infos[n];
    only_output_is_found(infos, p.identity.connector@, n);
    if p.mode is Some {
        let wanted = p.mode->0;
        let list = known_modes(info.modes@, table);
        let ids = info.modes@.filter(known(table));
        nearest_mode_keeps_the_size(list, wanted);
        assert forall|k: int, u: int|
            #![trigger info.modes@[k], table[u]]
            0 <= k < info.modes@.len() && last_with_id(table, info.modes@[k], u) implies exists|
            j: int,
        |
            0 <= j < list.len() && #[trigger] list[j] == mode_from(table[u]) by {
            entry_is_the_last(table, info.modes@[k]);
            assert(known(table)(info.modes@[k]));
            filter_has(info.modes@, known(table), k);
            let j = choose|j: int| 0 <= j < ids.len() && ids[j] == info.modes@[k];
            assert(list[j] == mode_from(table[u]));
        }
        first_where_facts(info.crtcs@, free(done));
        match closest_at(list, wanted) {
            Some(k) => {
                let id = ids[k];
                filter_meets(info.modes@, known(table), k);
                filter_held(info.modes@, known(table), k);
                entry_is_the_last(table, id);
                let t = choose|t: int|
                    #[trigger] last_with_id(table, id, t) && mode_entry(table, id) == Some(table[t]);
                assert(list[k] == mode_from(table[t]));
                assert forall|a: int, u: int|
                    #![trigger info.modes@[a], table[u]]
                    0 <= a < info.modes@.len() && last_with_id(table, info.modes@[a], u)
                        && table[u].width == wanted.width && table[u].height
                        == wanted.height implies apart(
                    refresh_of(table[t]) as int,
                    wanted.refresh_mhz as int,
                ) <= apart(refresh_of(table[u]) as int, wanted.refresh_mhz as int) by {
                    let j = choose|j: int|
                        0 <= j < list.len() && #[trigger] list[j] == mode_from(table[u]);
                    assert(list[j].width == wanted.width);
                }
                if crtc_for(info, done) is Some {
                    rotation_round_trip(p.transform);
                    assert(last_with_id(table, id, t));
                } else {
                    assert forall|c: int| 0 <= c < info.crtcs@.len() implies uses(
                        done,
                        #[trigger] info.crtcs@[c],
                    ) by {
                        assert(!free(done)(info.crtcs@[c]));
                    }
                }
            },
            None => {
                assert forall|a: int, u: int|
                    #![trigger info.modes@[a], table[u]]
                    0 <= a < info.modes@.len() && last_with_id(
                        table,
                        info.modes@[a],
                        u,
                    ) implies table[u].width != wanted.width || table[u].height
                    != wanted.height by {
                    let j = choose|j: int|
                        0 <= j < list.len() && #[trigger] list[j] == mode_from(table[u]);
                    assert(list[j].width != wanted.width || list[j].height != wanted.height);
                }
            },
        }
    }
}

/// How many of the first `n` outputs are planned to be on.
pub open spec fn on_before(plan: Seq<PlannedOutput>, n: int) -> nat
    decreases n,
{
    if n <= 0 {
        0
    } else {
        on_before(plan, n - 1) + if plan[n - 1].enabled {
            1nat
        } else {
            0nat
        }
    }
}

/// Every output that is planned to be on has one assignment, in the order of the
/// plan, made with regard to the ones before it; outputs that are planned to be off
/// have none.
pub proof fn every_enabled_output_is_assigned(
    plan: Seq<PlannedOutput>,
    infos: Seq<OutputInfo>,
    table: Seq<ModeInfo>,
    n: int,
    i: int,
)
    requires
        0 <= n <= plan.len(),
        assigned(plan, infos, table, n) is Ok,
        0 <= i < n,
    ensures
        ({
            let list = assigned(plan, infos, table, n)->Ok_0;
            let k = on_before(plan, i) as int;
            &&& list.len() == on_before(plan, n)
            &&& plan[i].enabled ==> k < list.len() && assignment_for(
                plan[i],
                infos,
                table,
                list.take(k),
            ) == Ok::<Assignment, Obstacle>(list[k])
        }),
    decreases n,
{
    let list = assigned(plan, infos, table, n)->Ok_0;
    let before = assigned(plan, infos, table, n - 1)->Ok_0;
    if n > 1 {
        if i < n - 1 {
            every_enabled_output_is_assigned(plan, infos, table, n - 1, i);
            let k = on_before(plan, i) as int;
            if plan[i].enabled {
                assert(list.take(k) =~= before.take(k));
                assert(list[k] == before[k]);
            }
        } else {
            every_enabled_output_is_assigned(plan, infos, table, n - 1, 0);
        }
    } else {
        assert(before =~= Seq::<Assignment>::empty());
    }
    if i == n - 1 && plan[i].enabled {
        assert(list.take(before.len() as int) =~= before);
    }
}

/// What was assigned is what is read back: an output whose CRTC has the assigned
/// configuration is on, at the assigned place, turned as planned, and in a mode of
/// the planned size.
pub proof fn assigned_output_is_read_back(
    p: PlannedOutput,
    infos: Seq<OutputInfo>,
    table: Seq<ModeInfo>,
    done: Seq<Assignment>,
    n: int,
    info: OutputInfo,
    primary: u32,
    o: Output,
)
    requires
        only_connected(infos, p.identity.connector@, n),
        assignment_for(p, infos, table, done) is Ok,
        ({
            let a = assignment_for(p, infos, table, done)->Ok_0;
            info.current == Some(
                CrtcInfo { crtc: a.crtc, mode: a.mode_id, x: a.x, y: a.y, rotation: a.rotation },
            )
        }),
        i16::MIN <= p.position.0 <= i16::MAX,
        i16::MIN <= p.position.1 <= i16::MAX,
        described(o, info, table, primary),
    ensures
        o.enabled,
        o.position == p.position,
        o.transform == p.transform,
        o.mode is Some,
        o.mode->0.width == p.mode->0.width,
        o.mode->0.height == p.mode->0.height,
        o.primary == (info.output == primary),
{
    output_is_driven_as_planned(p, infos, table, done, n);
    let a = assignment_for(p, infos, table, done)->Ok_0;
    entry_is_the_last(table, a.mode_id);
    let t = choose|t: int|
        #[trigger] last_with_id(table, a.mode_id, t) && table[t].width == p.mode->0.width
            && table[t].height == p.mode->0.height;
    assert(mode_entry(table, a.mode_id) == Some(table[t]));
}

/// An output that no CRTC drives is off, at the origin, unturned and in no mode; a
/// connected output is known by its name.
pub proof fn undriven_output_is_off(o: Output, info: OutputInfo, table: Seq<ModeInfo>, primary: u32)
    requires
        described(o, info, table, primary),
    ensures
        o.enabled <==> info.current is Some,
        info.current is None ==> o.mode is None && o.position == (0i32, 0i32) && o.transform
            == Transform::Normal,
        o.identity.connector@ == utf8_text(info.name@),
        o.scale.bits == 0x3ff0_0000_0000_0000,
        info.edid is None ==> o.identity.edid is None && o.display_name@ == utf8_text(info.name@),
        info.num_preferred == 0 ==> o.preferred_mode is None,
        info.num_preferred > 0 && info.modes@.len() > 0 ==> forall|t: int|
            #[trigger] last_with_id(table, info.modes@[0], t) ==> o.preferred_mode is Some
                && o.preferred_mode->0.width == table[t].width && o.preferred_mode->0.height
                == table[t].height,
{
    if info.modes@.len() > 0 {
        entry_is_the_last(table, info.modes@[0]);
    }
}

/// The output that becomes primary is the one that the plan has as its only enabled
/// primary.
pub proof fn primary_is_the_planned_one(
    plan: Seq<PlannedOutput>,
    infos: Seq<OutputInfo>,
    i: int,
    n: int,
)
    requires
        0 <= i < plan.len(),
        plan[i].enabled && plan[i].primary,
        forall|j: int|
            0 <= j < plan.len() && j != i ==> !((#[trigger] plan[j]).enabled && plan[j].primary),
        only_connected(infos, plan[i].identity.connector@, n),
    ensures
        primary_output(plan, infos) == infos[n].output,
{
    only_output_is_found(infos, plan[i].identity.connector@, n);
    first_where_is(plan, enabled_primary(), i);
}

/// An output takes as much room as its mode, with the width and the height swapped
/// after an odd number of quarter turns.
pub proof fn turned_output_swaps_its_sides(p: PlannedOutput)
    requires
        p.mode is Some,
        p.mode->0.width <= 0xffff,
        p.mode->0.height <= 0xffff,
    ensures
        transform_code(p.transform) % 2 == 0 ==> size_of(p).0 == p.mode->0.width && size_of(p).1
            == p.mode->0.height,
        transform_code(p.transform) % 2 == 1 ==> size_of(p).0 == p.mode->0.height && size_of(p).1
            == p.mode->0.width,
{
    encoding_counts_quarter_turns(p.transform);
}

/// The screen is no larger than it has to be: it ends where some output that is on
/// ends, or is a single pixel wide or high.
pub proof fn screen_is_no_larger_than_needed(s: Seq<PlannedOutput>)
    requires
        far_corner(s, s.len() as int).0 <= 0xffff,
        far_corner(s, s.len() as int).1 <= 0xffff,
    ensures
        bounds_of(s).0 == 1 || exists|i: int|
            0 <= i < s.len() && (#[trigger] s[i]).enabled && s[i].position.0 + size_of(s[i]).0
                == bounds_of(s).0,
        bounds_of(s).1 == 1 || exists|i: int|
            0 <= i < s.len() && (#[trigger] s[i]).enabled && s[i].position.1 + size_of(s[i]).1
                == bounds_of(s).1,
{
    corner_is_reached(s, s.len() as int);
    corner_positive(s, s.len() as int);
}

proof fn corner_is_reached(s: Seq<PlannedOutput>, n: int)
    requires
        0 <= n <= s.len(),
    ensures
        far_corner(s, n).0 == 0 || exists|i: int|
            0 <= i < n && (#[trigger] s[i]).enabled && s[i].position.0 + size_of(s[i]).0
                == far_corner(s, n).0,
        far_corner(s, n).1 == 0 || exists|i: int|
            0 <= i < n && (#[trigger] s[i]).enabled && s[i].position.1 + size_of(s[i]).1
                == far_corner(s, n).1,
    decreases n,
{
    if n > 0 {
        corner_is_reached(s, n - 1);
        assert(s[n - 1].enabled || !s[n - 1].enabled);
    }
}

/// A screen of unchanged size keeps its physical size.
pub proof fn unchanged_screen_keeps_its_physical_size(pixels: u16, mm: u16)
    requires
        pixels > 0,
    ensures
        millimeters(pixels, mm, pixels) == mm,
{
    if mm > 0 {
        vstd::arithmetic::power2::lemma2_to64();
        vstd::arithmetic::power2::lemma2_to64_rest();
        even_quotient_is_exact(mm as nat, pixels as nat, u16::MAX as nat);
        assert(pixels * mm == mm * pixels) by (nonlinear_arith);
    }
}

/// Before the screen is resized, exactly those CRTCs are switched off that are on and
/// have no assignment that they already meet.
pub proof fn settled_crtcs_stay_on(crtcs: Seq<CrtcInfo>, list: Seq<Assignment>, i: int)
    requires
        0 <= i < crtcs.len(),
    ensures
        ({
            let c = crtcs[i];
            let met = exists|k: int|
                0 <= k < list.len() && (#[trigger] list[k]).crtc == c.crtc && list[k].mode_id
                    == c.mode && list[k].x == c.x && list[k].y == c.y && list[k].rotation
                    == c.rotation;
            crtcs.filter(in_the_way(list)).contains(c) <==> c.mode != 0 && !met
        }),
{
    let p = in_the_way(list);
    if p(crtcs[i]) {
        filter_has(crtcs, p, i);
    }
    if crtcs.filter(p).contains(crtcs[i]) {
        let k = choose|k: int| 0 <= k < crtcs.filter(p).len() && crtcs.filter(p)[k] == crtcs[i];
        filter_meets(crtcs, p, k);
    }
}

/// Every connected output is shown, under its own name and as on if a CRTC drives it, and
/// nothing else is shown.
pub proof fn every_connected_output_is_shown(
    outputs: Seq<Output>,
    infos: Seq<OutputInfo>,
    table: Seq<ModeInfo>,
    primary: u32,
    i: int,
    k: int,
)
    requires
        all_described(outputs, infos.filter(connected()), table, primary),
        0 <= i < infos.len(),
    ensures
        infos[i].connected ==> exists|j: int|
            0 <= j < outputs.len() && (#[trigger] outputs[j]).identity.connector@ == utf8_text(
                infos[i].name@,
            ) && outputs[j].enabled == (infos[i].current is Some),
        0 <= k < outputs.len() ==> exists|j: int|
            0 <= j < infos.len() && (#[trigger] infos[j]).connected && utf8_text(infos[j].name@)
                == outputs[k].identity.connector@,
{
    let p = connected();
    let kept = infos.filter(p);
    if infos[i].connected {
        filter_has(infos, p, i);
        let j = choose|j: int| 0 <= j < kept.len() && kept[j] == infos[i];
        assert(described(outputs[j], kept[j], table, primary));
    }
    if 0 <= k < outputs.len() {
        filter_meets(infos, p, k);
        filter_held(infos, p, k);
        assert(described(outputs[k], kept[k], table, primary));
        let j = choose|j: int| 0 <= j < infos.len() && infos[j] == kept[k];
        assert(infos[j].connected);
    }
}

/// An output is called by the vendor and the product of its EDID, or else by its connector.
/// It prefers the first of its modes where it prefers any, and has no scale.
pub proof fn output_is_called_by_its_edid(
    o: Output,
    info: OutputInfo,
    table: Seq<ModeInfo>,
    primary: u32,
)
    requires
        described(o, info, table, primary),
    ensures
        o.identity.edid matches Some(e) ==> o.display_name@ == e.vendor@ + " "@ + e.product@,
        o.identity.edid is None ==> o.display_name@ == o.identity.connector@,
        info.num_preferred == 0 || info.modes@.len() == 0 ==> o.preferred_mode is None,
        info.num_preferred > 0 && info.modes@.len() > 0 ==> forall|t: int|
            #[trigger] last_with_id(table, info.modes@[0], t) ==> (o.preferred_mode matches Some(m)
                && m.width == table[t].width && m.height == table[t].height),
        o.scale.bits == 0x3ff0_0000_0000_0000,
        o.alias is None,
{
    if info.num_preferred > 0 && info.modes@.len() > 0 {
        assert forall|t: int| #[trigger] last_with_id(table, info.modes@[0], t) implies (
        o.preferred_mode matches Some(m) && m.width == table[t].width && m.height
            == table[t].height) by {
            entry_is_the_last(table, info.modes@[0]);
        }
    }
}

} // verus!
