//! GNOME backend logic: Mutter's display configuration as a topology, and the
//! logical monitors that a layout plan asks for.

use crate::backend::{obstacle_error, reports, ApplyMode, Obstacle};
use crate::binary64::{in_thousandths, to_thousandths};
use crate::bits::{low_u32, low_u8, signed_to_u32, truncate_u8};
use crate::error::BackendError;
use crate::identity::{EdidId, OutputIdentity};
use crate::mode_spec::{apart, closest_at, closest_mode, nearest_mode_keeps_the_size};
use crate::nearest::{
    can_snap, finite, scaled, snap_defined, snap_scale, snapped, snapped_is_closest,
    supported_scale_is_kept,
};
use crate::seqs::{
    filter_has, filter_held, filter_meets, filter_none, filter_of_prefix, filter_push, find_where,
    first_where_facts, first_where_is, first_where_none,
};
use crate::text::{decimal, decimal_text, same_text};
use crate::topology::{
    builtin_connector, connector_is_builtin, scale_positive, transform_code, transform_of,
    transform_round_trip, LayoutPlan, Mode, Output, PlannedOutput, Scale, Topology, Transform,
    ONE_BITS,
};
use vstd::prelude::*;

verus! {

/// How Mutter names a monitor.
#[derive(Debug)]
pub struct MonitorSpec {
    pub connector: String,
    pub vendor: String,
    pub product: String,
    pub serial: String,
}

/// A mode of a monitor.
#[derive(Debug)]
pub struct MonitorMode {
    pub id: String,
    pub width: i32,
    pub height: i32,
    /// Refresh rate in hertz, as the bits of a binary64 number.
    pub refresh_bits: u64,
    pub preferred_scale: Scale,
    pub supported_scales: Vec<Scale>,
    /// The `is-current` property.
    pub current: bool,
    /// The `is-preferred` property.
    pub preferred: bool,
}

/// A connected monitor.
#[derive(Debug)]
pub struct Monitor {
    pub spec: MonitorSpec,
    pub modes: Vec<MonitorMode>,
    /// The `is-builtin` property.
    pub builtin: bool,
    /// The `display-name` property.
    pub display_name: Option<String>,
}

/// A region of the desktop and the monitors that show it.
#[derive(Debug)]
pub struct LogicalMonitor {
    pub x: i32,
    pub y: i32,
    pub scale: Scale,
    pub transform: u32,
    pub primary: bool,
    pub monitors: Vec<MonitorSpec>,
}

/// Mutter's current display configuration.
#[derive(Debug)]
pub struct CurrentState {
    pub serial: u32,
    pub monitors: Vec<Monitor>,
    pub logical_monitors: Vec<LogicalMonitor>,
}

/// Whether Mutter does not know an EDID field.
pub open spec fn unknown(s: Seq<char>) -> bool {
    s.len() == 0 || s == "unknown"@
}

fn is_unknown(s: &String) -> (r: bool)
    ensures
        r == unknown(s@),
{
    let empty = same_text(s.as_str(), "");
    proof {
        reveal_strlit("");
        if s@.len() == 0 {
            assert(s@ =~= ""@);
        }
    }
    empty || same_text(s.as_str(), "unknown")
}

/// Whether an identity is the one that a monitor spec gives: without an EDID
/// when every field of it is unknown.
pub open spec fn identifies(id: OutputIdentity, spec: MonitorSpec) -> bool {
    &&& id.connector@ == spec.connector@
    &&& if unknown(spec.vendor@) && unknown(spec.product@) && unknown(spec.serial@) {
        id.edid is None
    } else {
        &&& id.edid is Some
        &&& id.edid->0.vendor@ == spec.vendor@
        &&& id.edid->0.product@ == spec.product@
        &&& id.edid->0.serial@ == spec.serial@
    }
}

/// The identity that a monitor spec gives.
pub fn spec_to_identity(spec: &MonitorSpec) -> (r: OutputIdentity)
    ensures
        identifies(r, *spec),
{
    let edid: Option<EdidId> = if is_unknown(&spec.vendor) && is_unknown(&spec.product)
        && is_unknown(&spec.serial) {
        None
    } else {
        Some(
            EdidId {
                vendor: spec.vendor.clone(),
                product: spec.product.clone(),
                serial: spec.serial.clone(),
            },
        )
    };
    OutputIdentity { edid, connector: spec.connector.clone() }
}

/// The display mode that a mode of Mutter is.
pub open spec fn mode_from(m: MonitorMode) -> Mode {
    Mode {
        width: low_u32(m.width as int),
        height: low_u32(m.height as int),
        refresh_mhz: in_thousandths(m.refresh_bits),
    }
}

fn mode_of(m: &MonitorMode) -> (r: Mode)
    ensures
        r == mode_from(*m),
{
    Mode {
        width: signed_to_u32(m.width),
        height: signed_to_u32(m.height),
        refresh_mhz: to_thousandths(m.refresh_bits),
    }
}

/// The display modes of a monitor.
pub open spec fn modes_from(modes: Seq<MonitorMode>) -> Seq<Mode> {
    modes.map_values(|m: MonitorMode| mode_from(m))
}

fn mode_list(modes: &Vec<MonitorMode>) -> (r: Vec<Mode>)
    ensures
        r@ == modes_from(modes@),
{
    let mut r: Vec<Mode> = Vec::new();
    for i in 0..modes.len()
        invariant
            r@ == modes_from(modes@.take(i as int)),
    {
        r.push(mode_of(&modes[i]));
        assert(r@ =~= modes_from(modes@.take(i + 1)));
    }
    assert(modes@.take(modes@.len() as int) =~= modes@);
    r
}

/// The condition that a mode is the current one.
pub open spec fn current() -> spec_fn(MonitorMode) -> bool {
    |m: MonitorMode| m.current
}

/// The condition that a mode is the preferred one.
pub open spec fn preferred() -> spec_fn(MonitorMode) -> bool {
    |m: MonitorMode| m.preferred
}

/// The last mode that meets a condition.
pub open spec fn last_mode(modes: Seq<MonitorMode>, p: spec_fn(MonitorMode) -> bool) -> Option<Mode>
    decreases modes.len(),
{
    if modes.len() == 0 {
        None
    } else if p(modes.last()) {
        Some(mode_from(modes.last()))
    } else {
        last_mode(modes.drop_last(), p)
    }
}

/// The condition that a logical monitor drives a connector.
pub open spec fn drives(connector: Seq<char>) -> spec_fn(LogicalMonitor) -> bool {
    |lm: LogicalMonitor|
        exists|i: int|
            0 <= i < lm.monitors@.len() && (#[trigger] lm.monitors@[i]).connector@ == connector
}

fn drives_connector(lm: &LogicalMonitor, connector: &str) -> (r: bool)
    ensures
        r == drives(connector@)(*lm),
{
    for i in 0..lm.monitors.len()
        invariant
            forall|j: int|
                0 <= j < i ==> (#[trigger] lm.monitors@[j]).connector@ != connector@,
    {
        if same_text(lm.monitors[i].connector.as_str(), connector) {
            assert(lm.monitors@[i as int].connector@ == connector@);
            return true;
        }
    }
    false
}

fn find_logical<'a>(list: &'a Vec<LogicalMonitor>, connector: &str) -> (r: Option<
    &'a LogicalMonitor,
>)
    ensures
        match (r, find_where(list@, drives(connector@))) {
            (Some(lm), Some(want)) => *lm == want,
            (None, None) => true,
            _ => false,
        },
{
    for i in 0..list.len()
        invariant
            forall|j: int| 0 <= j < i ==> !drives(connector@)(list@[j]),
    {
        if drives_connector(&list[i], connector) {
            proof {
                first_where_is(list@, drives(connector@), i as int);
            }
            return Some(&list[i]);
        }
    }
    proof {
        first_where_none(list@, drives(connector@));
    }
    None
}

/// The transform that Mutter's number stands for; only its lowest byte counts.
pub open spec fn transform_from(n: u32) -> Transform {
    match transform_of(low_u8(n as int)) {
        Some(t) => t,
        None => Transform::Normal,
    }
}

/// Whether an output is the one that Mutter describes: a monitor that no logical
/// monitor shows is off.
pub open spec fn described(o: Output, m: Monitor, logical: Seq<LogicalMonitor>) -> bool {
    let connector = m.spec.connector@;
    let shown = find_where(logical, drives(connector));
    &&& identifies(o.identity, m.spec)
    &&& o.alias is None
    &&& o.display_name@ == match m.display_name {
        Some(name) => name@,
        None => connector,
    }
    &&& o.builtin == (m.builtin || builtin_connector(connector))
    &&& o.mode == last_mode(m.modes@, current())
    &&& o.preferred_mode == last_mode(m.modes@, preferred())
    &&& o.modes@ == modes_from(m.modes@)
    &&& match shown {
        Some(lm) => {
            &&& o.enabled
            &&& o.position == (lm.x, lm.y)
            &&& o.scale == lm.scale
            &&& o.transform == transform_from(lm.transform)
            &&& o.primary == lm.primary
        },
        None => {
            &&& !o.enabled
            &&& o.position == (0i32, 0i32)
            &&& o.scale.bits == ONE_BITS
            &&& o.transform == Transform::Normal
            &&& !o.primary
        },
    }
}

fn read_monitor(m: &Monitor, logical: &Vec<LogicalMonitor>) -> (r: Output)
    ensures
        described(r, *m, logical@),
{
    let mut mode: Option<Mode> = None;
    let mut preferred_mode: Option<Mode> = None;
    for i in 0..m.modes.len()
        invariant
            mode == last_mode(m.modes@.take(i as int), current()),
            preferred_mode == last_mode(m.modes@.take(i as int), preferred()),
    {
        assert(m.modes@.take(i + 1).drop_last() =~= m.modes@.take(i as int));
        let entry = &m.modes[i];
        if entry.current {
            mode = Some(mode_of(entry));
        }
        if entry.preferred {
            preferred_mode = Some(mode_of(entry));
        }
    }
    assert(m.modes@.take(m.modes@.len() as int) =~= m.modes@);
    let connector = &m.spec.connector;
    let display_name: String = match &m.display_name {
        Some(name) => name.clone(),
        None => connector.clone(),
    };
    let identity = spec_to_identity(&m.spec);
    let builtin = m.builtin || connector_is_builtin(connector.as_str());
    let modes = mode_list(&m.modes);
    match find_logical(logical, connector.as_str()) {
        Some(lm) => {
            let transform: Transform = match Transform::from_u8(truncate_u8(lm.transform)) {
                Some(t) => t,
                None => Transform::Normal,
            };
            Output {
                identity,
                alias: None,
                display_name,
                builtin,
                enabled: true,
                mode,
                preferred_mode,
                modes,
                position: (lm.x, lm.y),
                scale: lm.scale,
                transform,
                primary: lm.primary,
            }
        },
        None => Output {
            identity,
            alias: None,
            display_name,
            builtin,
            enabled: false,
            mode,
            preferred_mode,
            modes,
            position: (0, 0),
            scale: Scale::one(),
            transform: Transform::Normal,
            primary: false,
        },
    }
}

/// The topology that Mutter's configuration is.
pub fn state_to_topology(state: &CurrentState) -> (r: Topology)
    ensures
        r.serial@ == decimal(state.serial as nat),
        r.outputs@.len() == state.monitors@.len(),
        forall|i: int|
            0 <= i < r.outputs@.len() ==> described(
                #[trigger] r.outputs@[i],
                state.monitors@[i],
                state.logical_monitors@,
            ),
{
    let mut outputs: Vec<Output> = Vec::new();
    for i in 0..state.monitors.len()
        invariant
            outputs@.len() == i,
            forall|j: int|
                0 <= j < i ==> described(
                    #[trigger] outputs@[j],
                    state.monitors@[j],
                    state.logical_monitors@,
                ),
    {
        outputs.push(read_monitor(&state.monitors[i], &state.logical_monitors));
    }
    Topology { serial: decimal_text(state.serial as u64), outputs }
}

// -------------------------------------------------------------------- apply

/// Which mode a monitor of a logical monitor gets.
#[derive(Debug)]
pub struct ApplyAssignment {
    pub connector: String,
    pub mode_id: String,
}

/// A logical monitor to set up.
#[derive(Debug)]
pub struct ApplyLogical {
    pub x: i32,
    pub y: i32,
    pub scale: Scale,
    pub transform: u32,
    pub primary: bool,
    pub assignments: Vec<ApplyAssignment>,
}

/// The condition that a monitor is at a connector.
pub open spec fn monitor_at(connector: Seq<char>) -> spec_fn(Monitor) -> bool {
    |m: Monitor| m.spec.connector@ == connector
}

/// The mode of Mutter for an enabled output: exact first, then the closest
/// refresh at the same resolution.
pub open spec fn choice(p: PlannedOutput, monitors: Seq<Monitor>) -> Result<MonitorMode, Obstacle> {
    match find_where(monitors, monitor_at(p.identity.connector@)) {
        None => Err(Obstacle::Unknown),
        Some(m) => match p.mode {
            None => Err(Obstacle::Modeless),
            Some(wanted) => match closest_at(modes_from(m.modes@), wanted) {
                None => Err(Obstacle::Unavailable(wanted)),
                Some(k) => Ok(m.modes@[k]),
            },
        },
    }
}

fn find_monitor<'a>(monitors: &'a Vec<Monitor>, connector: &str) -> (r: Option<&'a Monitor>)
    ensures
        match (r, find_where(monitors@, monitor_at(connector@))) {
            (Some(m), Some(want)) => *m == want,
            (None, None) => true,
            _ => false,
        },
{
    for i in 0..monitors.len()
        invariant
            forall|j: int| 0 <= j < i ==> !monitor_at(connector@)(monitors@[j]),
    {
        if same_text(monitors[i].spec.connector.as_str(), connector) {
            proof {
                first_where_is(monitors@, monitor_at(connector@), i as int);
            }
            return Some(&monitors[i]);
        }
    }
    proof {
        first_where_none(monitors@, monitor_at(connector@));
    }
    None
}

/// Find the Mutter mode for an enabled output.
pub fn find_mode<'a>(p: &PlannedOutput, monitors: &'a Vec<Monitor>) -> (r: Result<
    &'a MonitorMode,
    Obstacle,
>)
    ensures
        match (r, choice(*p, monitors@)) {
            (Ok(m), Ok(want)) => *m == want,
            (Err(o), Err(want)) => o == want,
            _ => false,
        },
{
    let monitor = match find_monitor(monitors, p.identity.connector.as_str()) {
        Some(m) => m,
        None => {
            return Err(Obstacle::Unknown);
        },
    };
    let wanted: Mode = match p.mode {
        Some(m) => m,
        None => {
            return Err(Obstacle::Modeless);
        },
    };
    match closest_mode(&mode_list(&monitor.modes), wanted) {
        Some(k) => Ok(&monitor.modes[k]),
        None => Err(Obstacle::Unavailable(wanted)),
    }
}

/// The positions of the enabled outputs, each once, in the order in which they
/// first occur.
pub open spec fn positions(s: Seq<PlannedOutput>) -> Seq<(i32, i32)>
    decreases s.len(),
{
    if s.len() == 0 {
        Seq::empty()
    } else {
        let before = positions(s.drop_last());
        if s.last().enabled && !before.contains(s.last().position) {
            before.push(s.last().position)
        } else {
            before
        }
    }
}

fn position_list(plan: &LayoutPlan) -> (r: Vec<(i32, i32)>)
    ensures
        r@ == positions(plan.outputs@),
{
    let mut r: Vec<(i32, i32)> = Vec::new();
    let ghost s = plan.outputs@;
    for i in 0..plan.outputs.len()
        invariant
            s == plan.outputs@,
            r@ == positions(s.take(i as int)),
    {
        assert(s.take(i + 1).drop_last() =~= s.take(i as int));
        let p = &plan.outputs[i];
        if p.enabled && !position_listed(&r, p.position) {
            r.push(p.position);
        }
    }
    assert(s.take(s.len() as int) =~= s);
    r
}

fn position_listed(list: &Vec<(i32, i32)>, position: (i32, i32)) -> (r: bool)
    ensures
        r == list@.contains(position),
{
    for i in 0..list.len()
        invariant
            forall|j: int| 0 <= j < i ==> list@[j] != position,
    {
        if list[i].0 == position.0 && list[i].1 == position.1 {
            assert(list@[i as int] == position);
            return true;
        }
    }
    false
}

/// The condition that an output is enabled at a position.
pub open spec fn shown_at(position: (i32, i32)) -> spec_fn(PlannedOutput) -> bool {
    |p: PlannedOutput| p.enabled && p.position == position
}

/// The enabled outputs at a position. Sharing a position is how Mutter
/// represents mirroring.
pub open spec fn members(s: Seq<PlannedOutput>, position: (i32, i32)) -> Seq<PlannedOutput> {
    s.filter(shown_at(position))
}

/// The condition that an output cannot be set up.
pub open spec fn stuck(monitors: Seq<Monitor>) -> spec_fn(PlannedOutput) -> bool {
    |p: PlannedOutput| choice(p, monitors) is Err
}

/// The condition that an output at a position cannot be set up.
pub open spec fn stuck_at(s: Seq<PlannedOutput>, monitors: Seq<Monitor>) -> spec_fn(
    (i32, i32),
) -> bool {
    |position: (i32, i32)| find_where(members(s, position), stuck(monitors)) is Some
}

/// The first output that cannot be set up, going through the logical monitors
/// one by one.
pub open spec fn first_stuck(s: Seq<PlannedOutput>, monitors: Seq<Monitor>) -> Option<
    PlannedOutput,
> {
    match find_where(positions(s), stuck_at(s, monitors)) {
        Some(position) => find_where(members(s, position), stuck(monitors)),
        None => None,
    }
}

/// Whether one of the outputs that share a position is primary.
pub open spec fn has_primary(group: Seq<PlannedOutput>) -> bool {
    exists|i: int| 0 <= i < group.len() && (#[trigger] group[i]).primary
}

/// Whether a logical monitor is the one for a position: it shows every enabled
/// output there, in the scale that fits the first of them, and is primary if any
/// of them is.
pub open spec fn sets_up(
    l: ApplyLogical,
    s: Seq<PlannedOutput>,
    position: (i32, i32),
    monitors: Seq<Monitor>,
) -> bool {
    let group = members(s, position);
    let first = group[0];
    let mode = choice(first, monitors)->Ok_0;
    &&& (l.x, l.y) == position
    &&& l.scale == snapped(first.scale, mode.preferred_scale, mode.supported_scales@)
    &&& l.transform == transform_code(first.transform) as u32
    &&& l.primary == has_primary(group)
    &&& l.assignments@.len() == group.len()
    &&& forall|i: int|
        0 <= i < group.len() ==> {
            &&& (#[trigger] l.assignments@[i]).connector@ == group[i].identity.connector@
            &&& l.assignments@[i].mode_id@ == choice(group[i], monitors)->Ok_0.id@
        }
}

/// Whether the scale of every enabled output that can be set up can be compared
/// with those that its mode supports.
pub open spec fn scales_defined(s: Seq<PlannedOutput>, monitors: Seq<Monitor>) -> bool {
    forall|i: int|
        0 <= i < s.len() && (#[trigger] s[i]).enabled && choice(s[i], monitors) is Ok
            ==> snap_defined(s[i].scale, choice(s[i], monitors)->Ok_0.supported_scales@)
}

/// Whether the scale of every enabled output that can be set up can be compared
/// with those that its mode supports.
pub fn can_scale(plan: &LayoutPlan, monitors: &Vec<Monitor>) -> (r: bool)
    ensures
        r == scales_defined(plan.outputs@, monitors@),
{
    for i in 0..plan.outputs.len()
        invariant
            forall|j: int|
                0 <= j < i && (#[trigger] plan.outputs@[j]).enabled && choice(
                    plan.outputs@[j],
                    monitors@,
                ) is Ok ==> snap_defined(
                    plan.outputs@[j].scale,
                    choice(plan.outputs@[j], monitors@)->Ok_0.supported_scales@,
                ),
    {
        let p = &plan.outputs[i];
        if p.enabled {
            if let Ok(mode) = find_mode(p, monitors) {
                if !can_snap(p.scale, &mode.supported_scales) {
                    assert(plan.outputs@[i as int].enabled);
                    return false;
                }
            }
        }
    }
    true
}

fn find_stuck(plan: &LayoutPlan, position: (i32, i32), monitors: &Vec<Monitor>) -> (r: Option<
    (usize, Obstacle),
>)
    ensures
        match (r, find_where(members(plan.outputs@, position), stuck(monitors@))) {
            (Some((i, o)), Some(p)) => {
                &&& i < plan.outputs@.len()
                &&& plan.outputs@[i as int] == p
                &&& choice(p, monitors@) == Err::<MonitorMode, Obstacle>(o)
            },
            (None, None) => true,
            _ => false,
        },
{
    let ghost s = plan.outputs@;
    let ghost here = shown_at(position);
    let ghost blocked = stuck(monitors@);
    let ghost mut done = Seq::<PlannedOutput>::empty();
    proof {
        assert(s.take(0) =~= Seq::<PlannedOutput>::empty());
        reveal(Seq::filter);
    }
    for i in 0..plan.outputs.len()
        invariant
            s == plan.outputs@,
            here == shown_at(position),
            blocked == stuck(monitors@),
            done == s.take(i as int).filter(here),
            forall|j: int| 0 <= j < done.len() ==> !blocked(#[trigger] done[j]),
    {
        let ghost before = done;
        proof {
            filter_push(s.take(i as int), here, s[i as int]);
            assert(s.take(i as int).push(s[i as int]) =~= s.take(i + 1));
            done = s.take(i + 1).filter(here);
        }
        let p = &plan.outputs[i];
        if p.enabled && p.position.0 == position.0 && p.position.1 == position.1 {
            if let Err(o) = find_mode(p, monitors) {
                proof {
                    let all = s.filter(here);
                    filter_of_prefix(s, here, i + 1);
                    assert(all[before.len() as int] == done[before.len() as int]);
                    assert forall|j: int| 0 <= j < before.len() implies !blocked(all[j]) by {
                        assert(all[j] == done[j] && done[j] == before[j]);
                    }
                    first_where_is(all, blocked, before.len() as int);
                }
                return Some((i, o));
            }
            assert(!blocked(s[i as int]));
        }
    }
    proof {
        assert(s.take(s.len() as int) =~= s);
        first_where_none(s.filter(here), blocked);
    }
    None
}

/// Whether an enabled output is at a position.
spec fn occupied(s: Seq<PlannedOutput>, position: (i32, i32)) -> bool {
    exists|i: int| 0 <= i < s.len() && shown_at(position)(#[trigger] s[i])
}

/// Every enabled output is at one of the positions, there is an output at each
/// of them, and they are distinct.
proof fn positions_cover(s: Seq<PlannedOutput>)
    ensures
        forall|i: int|
            0 <= i < s.len() && (#[trigger] s[i]).enabled ==> positions(s).contains(s[i].position),
        forall|k: int| 0 <= k < positions(s).len() ==> occupied(s, #[trigger] positions(s)[k]),
        forall|i: int, j: int|
            0 <= i < positions(s).len() && 0 <= j < positions(s).len() && i != j
                ==> #[trigger] positions(s)[i] != #[trigger] positions(s)[j],
    decreases s.len(),
{
    if s.len() > 0 {
        let t = s.drop_last();
        positions_cover(t);
        let before = positions(t);
        let all = positions(s);
        assert forall|i: int| 0 <= i < s.len() && (#[trigger] s[i]).enabled implies all.contains(
            s[i].position,
        ) by {
            if i < t.len() {
                assert(t[i].enabled);
                let k = choose|k: int| 0 <= k < before.len() && before[k] == s[i].position;
                assert(all[k] == before[k]);
            } else if !before.contains(s[i].position) {
                assert(all[before.len() as int] == s[i].position);
            }
        }
        assert forall|k: int| 0 <= k < all.len() implies occupied(s, #[trigger] all[k]) by {
            if k < before.len() {
                assert(occupied(t, before[k]));
                let i = choose|i: int| 0 <= i < t.len() && shown_at(before[k])(#[trigger] t[i]);
                assert(shown_at(all[k])(s[i]));
            } else {
                assert(shown_at(all[k])(s[s.len() - 1]));
            }
        }
        assert forall|i: int, j: int|
            0 <= i < all.len() && 0 <= j < all.len() && i != j implies #[trigger] all[i]
            != #[trigger] all[j] by {
            if i < before.len() && j < before.len() {
                assert(before[i] != before[j]);
            } else if i < before.len() {
                assert(before.contains(before[i]));
            } else {
                assert(before.contains(before[j]));
            }
        }
    }
}

/// Without an output that cannot be set up, every enabled one can be.
proof fn none_stuck(s: Seq<PlannedOutput>, monitors: Seq<Monitor>)
    requires
        first_stuck(s, monitors) is None,
    ensures
        forall|i: int| 0 <= i < s.len() && (#[trigger] s[i]).enabled ==> choice(s[i], monitors) is Ok,
{
    positions_cover(s);
    first_where_facts(positions(s), stuck_at(s, monitors));
    assert forall|i: int| 0 <= i < s.len() && (#[trigger] s[i]).enabled implies choice(
        s[i],
        monitors,
    ) is Ok by {
        let position = s[i].position;
        let k = choose|k: int| 0 <= k < positions(s).len() && positions(s)[k] == position;
        assert(!stuck_at(s, monitors)(positions(s)[k]));
        let group = members(s, position);
        first_where_facts(group, stuck(monitors));
        filter_has(s, shown_at(position), i);
        let j = choose|j: int| 0 <= j < group.len() && group[j] == s[i];
        assert(!stuck(monitors)(group[j]));
    }
}

proof fn primary_among_more(group: Seq<PlannedOutput>, p: PlannedOutput)
    ensures
        has_primary(group.push(p)) == (has_primary(group) || p.primary),
{
    let all = group.push(p);
    if has_primary(group) {
        let i = choose|i: int| 0 <= i < group.len() && (#[trigger] group[i]).primary;
        assert(all[i].primary);
    }
    if p.primary {
        assert(all[group.len() as int].primary);
    }
    if has_primary(all) {
        let i = choose|i: int| 0 <= i < all.len() && (#[trigger] all[i]).primary;
        if i < group.len() {
            assert(group[i].primary);
        }
    }
}

fn set_up(plan: &LayoutPlan, position: (i32, i32), monitors: &Vec<Monitor>) -> (r: ApplyLogical)
    requires
        forall|i: int|
            0 <= i < plan.outputs@.len() && (#[trigger] plan.outputs@[i]).enabled ==> choice(
                plan.outputs@[i],
                monitors@,
            ) is Ok,
        scales_defined(plan.outputs@, monitors@),
        members(plan.outputs@, position).len() > 0,
    ensures
        sets_up(r, plan.outputs@, position, monitors@),
{
    let mut scale: Scale = Scale::one();
    let mut transform: u32 = 0;
    let mut primary = false;
    let mut assignments: Vec<ApplyAssignment> = Vec::new();
    let ghost s = plan.outputs@;
    let ghost here = shown_at(position);
    proof {
        assert(s.take(0) =~= Seq::<PlannedOutput>::empty());
        reveal(Seq::filter);
    }
    for i in 0..plan.outputs.len()
        invariant
            s == plan.outputs@,
            here == shown_at(position),
            forall|j: int|
                0 <= j < s.len() && (#[trigger] s[j]).enabled ==> choice(s[j], monitors@) is Ok,
            scales_defined(s, monitors@),
            assignments@.len() == s.take(i as int).filter(here).len(),
            forall|j: int|
                0 <= j < assignments@.len() ==> {
                    let p = s.take(i as int).filter(here)[j];
                    &&& (#[trigger] assignments@[j]).connector@ == p.identity.connector@
                    &&& assignments@[j].mode_id@ == choice(p, monitors@)->Ok_0.id@
                },
            primary == has_primary(s.take(i as int).filter(here)),
            assignments@.len() > 0 ==> {
                let first = s.take(i as int).filter(here)[0];
                let mode = choice(first, monitors@)->Ok_0;
                &&& scale == snapped(first.scale, mode.preferred_scale, mode.supported_scales@)
                &&& transform == transform_code(first.transform) as u32
            },
    {
        proof {
            filter_push(s.take(i as int), here, s[i as int]);
            assert(s.take(i as int).push(s[i as int]) =~= s.take(i + 1));
            if here(s[i as int]) {
                primary_among_more(s.take(i as int).filter(here), s[i as int]);
            }
        }
        let p = &plan.outputs[i];
        if p.enabled && p.position.0 == position.0 && p.position.1 == position.1 {
            assert(s[i as int].enabled);
            if let Ok(mode) = find_mode(p, monitors) {
                if assignments.len() == 0 {
                    scale = snap_scale(p.scale, mode.preferred_scale, &mode.supported_scales);
                    transform = p.transform.to_u8() as u32;
                }
                primary = primary || p.primary;
                assignments.push(
                    ApplyAssignment {
                        connector: p.identity.connector.clone(),
                        mode_id: mode.id.clone(),
                    },
                );
            }
        }
    }
    assert(s.take(s.len() as int) =~= s);
    ApplyLogical { x: position.0, y: position.1, scale, transform, primary, assignments }
}

/// Group the enabled outputs of a plan by position into logical monitors.
pub fn build_logical_monitors(plan: &LayoutPlan, monitors: &Vec<Monitor>) -> (r: Result<
    Vec<ApplyLogical>,
    BackendError,
>)
    requires
        first_stuck(plan.outputs@, monitors@) is None ==> scales_defined(
            plan.outputs@,
            monitors@,
        ),
    ensures
        match first_stuck(plan.outputs@, monitors@) {
            Some(p) => r is Err && reports(
                r->Err_0,
                p.identity.connector@,
                choice(p, monitors@)->Err_0,
            ),
            None => {
                &&& r is Ok
                &&& r->Ok_0@.len() == positions(plan.outputs@).len()
                &&& forall|k: int|
                    0 <= k < r->Ok_0@.len() ==> sets_up(
                        #[trigger] r->Ok_0@[k],
                        plan.outputs@,
                        positions(plan.outputs@)[k],
                        monitors@,
                    )
            },
        },
{
    let list = position_list(plan);
    let ghost s = plan.outputs@;
    let ghost p = stuck_at(s, monitors@);
    for k in 0..list.len()
        invariant
            s == plan.outputs@,
            list@ == positions(s),
            p == stuck_at(s, monitors@),
            forall|j: int| 0 <= j < k ==> !p(list@[j]),
    {
        if let Some((i, o)) = find_stuck(plan, list[k], monitors) {
            proof {
                first_where_is(list@, p, k as int);
            }
            return Err(obstacle_error(plan.outputs[i].identity.connector.as_str(), o));
        }
    }
    proof {
        first_where_none(list@, p);
        none_stuck(s, monitors@);
        positions_cover(s);
    }
    let mut result: Vec<ApplyLogical> = Vec::new();
    for k in 0..list.len()
        invariant
            s == plan.outputs@,
            list@ == positions(s),
            result@.len() == k,
            forall|i: int|
                0 <= i < s.len() && (#[trigger] s[i]).enabled ==> choice(s[i], monitors@) is Ok,
            scales_defined(s, monitors@),
            forall|j: int|
                0 <= j < k ==> sets_up(#[trigger] result@[j], s, list@[j], monitors@),
            forall|j: int| 0 <= j < list@.len() ==> occupied(s, #[trigger] list@[j]),
    {
        proof {
            let position = list@[k as int];
            assert(occupied(s, position));
            let i = choose|i: int| 0 <= i < s.len() && shown_at(position)(#[trigger] s[i]);
            filter_has(s, shown_at(position), i);
        }
        result.push(set_up(plan, list[k], monitors));
    }
    Ok(result)
}

/// Mutter's apply methods: verify, temporary, persistent.
pub open spec fn method_of(mode: ApplyMode) -> u32 {
    match mode {
        ApplyMode::Verify => 0,
        ApplyMode::Temporary => 1,
        ApplyMode::Persistent => 2,
    }
}

/// Mutter's number for an apply mode.
pub fn apply_method(mode: ApplyMode) -> (r: u32)
    ensures
        r == method_of(mode),
{
    match mode {
        ApplyMode::Verify => 0,
        ApplyMode::Temporary => 1,
        ApplyMode::Persistent => 2,
    }
}

/// Decide about applying a plan to the current configuration: the logical
/// monitors to set up.
pub fn plan_apply(plan: &LayoutPlan, state: &CurrentState) -> (r: Result<
    Vec<ApplyLogical>,
    BackendError,
>)
    requires
        plan.serial@ == decimal(state.serial as nat) && first_stuck(
            plan.outputs@,
            state.monitors@,
        ) is None ==> scales_defined(plan.outputs@, state.monitors@),
    ensures
        if plan.serial@ != decimal(state.serial as nat) {
            r matches Err(BackendError::StaleSerial)
        } else {
            match first_stuck(plan.outputs@, state.monitors@) {
                Some(p) => r is Err && reports(
                    r->Err_0,
                    p.identity.connector@,
                    choice(p, state.monitors@)->Err_0,
                ),
                None => {
                    &&& r is Ok
                    &&& r->Ok_0@.len() == positions(plan.outputs@).len()
                    &&& forall|k: int|
                        0 <= k < r->Ok_0@.len() ==> sets_up(
                            #[trigger] r->Ok_0@[k],
                            plan.outputs@,
                            positions(plan.outputs@)[k],
                            state.monitors@,
                        )
                },
            }
        },
{
    if !same_text(plan.serial.as_str(), decimal_text(state.serial as u64).as_str()) {
        return Err(BackendError::StaleSerial);
    }
    build_logical_monitors(plan, &state.monitors)
}

// --------------------------------------------------------------------- laws

/// Every enabled output is shown by exactly one logical monitor: the positions
/// are distinct, and the one of each enabled output is among them.
pub proof fn every_enabled_output_is_shown_once(s: Seq<PlannedOutput>)
    ensures
        forall|i: int, j: int|
            0 <= i < positions(s).len() && 0 <= j < positions(s).len() && i != j
                ==> #[trigger] positions(s)[i] != #[trigger] positions(s)[j],
        forall|i: int|
            0 <= i < s.len() && (#[trigger] s[i]).enabled ==> positions(s).contains(s[i].position)
                && members(s, s[i].position).contains(s[i]),
{
    positions_cover(s);
    assert forall|i: int| 0 <= i < s.len() && (#[trigger] s[i]).enabled implies members(
        s,
        s[i].position,
    ).contains(s[i]) by {
        filter_has(s, shown_at(s[i].position), i);
    }
}

/// Exactly one logical monitor is primary: the one that shows the primary output,
/// also where that is mirrored by others.
pub proof fn one_logical_monitor_is_primary(
    list: Seq<ApplyLogical>,
    s: Seq<PlannedOutput>,
    monitors: Seq<Monitor>,
    k: int,
) -> (m: int)
    requires
        list.len() == positions(s).len(),
        forall|n: int|
            0 <= n < list.len() ==> sets_up(#[trigger] list[n], s, positions(s)[n], monitors),
        0 <= k < s.len(),
        s[k].enabled,
        forall|j: int| 0 <= j < s.len() && (#[trigger] s[j]).enabled ==> s[j].primary == (j == k),
    ensures
        0 <= m < list.len(),
        (list[m].x, list[m].y) == s[k].position,
        forall|n: int| 0 <= n < list.len() ==> (#[trigger] list[n]).primary == (n == m),
{
    positions_cover(s);
    let m = choose|m: int| 0 <= m < positions(s).len() && positions(s)[m] == s[k].position;
    assert(sets_up(list[m], s, positions(s)[m], monitors));
    assert forall|n: int| 0 <= n < list.len() implies (#[trigger] list[n]).primary == (n == m) by {
        let position = positions(s)[n];
        let here = shown_at(position);
        let group = members(s, position);
        assert(sets_up(list[n], s, position, monitors));
        if n == m {
            filter_has(s, here, k);
            let i = choose|i: int| 0 <= i < group.len() && group[i] == s[k];
            assert(group[i].primary);
        } else if has_primary(group) {
            let i = choose|i: int| 0 <= i < group.len() && (#[trigger] group[i]).primary;
            filter_meets(s, here, i);
            filter_held(s, here, i);
            let j = choose|j: int| 0 <= j < s.len() && s[j] == group[i];
            assert(s[j].enabled && s[j].primary);
            assert(positions(s)[n] == positions(s)[m]);
        }
    }
    m
}

/// A disabled output is in no logical monitor.
pub proof fn disabled_outputs_are_left_out(s: Seq<PlannedOutput>, position: (i32, i32), i: int)
    requires
        0 <= i < members(s, position).len(),
    ensures
        members(s, position)[i].enabled,
        members(s, position)[i].position == position,
{
    filter_meets(s, shown_at(position), i);
}

/// Whether logical monitors are those that a plan asks for.
pub open spec fn sets_up_all(
    list: Seq<ApplyLogical>,
    s: Seq<PlannedOutput>,
    monitors: Seq<Monitor>,
) -> bool {
    &&& list.len() == positions(s).len()
    &&& forall|n: int|
        0 <= n < list.len() ==> sets_up(#[trigger] list[n], s, positions(s)[n], monitors)
}

/// Whether an output is the first enabled one at its position.
pub open spec fn first_there(s: Seq<PlannedOutput>, i: int) -> bool {
    &&& 0 <= i < s.len()
    &&& s[i].enabled
    &&& forall|j: int|
        0 <= j < i && (#[trigger] s[j]).enabled ==> s[j].position != s[i].position
}

proof fn leads_its_group(s: Seq<PlannedOutput>, i: int)
    requires
        first_there(s, i),
    ensures
        members(s, s[i].position).len() > 0,
        members(s, s[i].position)[0] == s[i],
{
    let p = shown_at(s[i].position);
    filter_none(s.take(i), p);
    filter_push(s.take(i), p, s[i]);
    assert(s.take(i).push(s[i]) =~= s.take(i + 1));
    filter_of_prefix(s, p, i + 1);
    assert(s.take(i + 1).filter(p)[0] == s[i]);
}

/// Each position at which an output is on has one logical monitor, at that position
/// and turned as the first output there is planned to be: its number is that of the
/// planned transform, so that reading it gives the planned transform back.
pub proof fn outputs_are_turned_as_planned(
    list: Seq<ApplyLogical>,
    s: Seq<PlannedOutput>,
    monitors: Seq<Monitor>,
    i: int,
) -> (m: int)
    requires
        sets_up_all(list, s, monitors),
        first_there(s, i),
    ensures
        0 <= m < list.len(),
        (list[m].x, list[m].y) == s[i].position,
        forall|n: int|
            0 <= n < list.len() && n != m ==> ((#[trigger] list[n]).x, list[n].y) != s[i].position,
        list[m].transform < 8,
        list[m].transform == transform_code(s[i].transform),
        transform_from(list[m].transform) == s[i].transform,
{
    positions_cover(s);
    leads_its_group(s, i);
    let m = choose|m: int| 0 <= m < positions(s).len() && positions(s)[m] == s[i].position;
    assert(sets_up(list[m], s, positions(s)[m], monitors));
    assert forall|n: int| 0 <= n < list.len() && n != m implies ((#[trigger] list[n]).x, list[n].y)
        != s[i].position by {
        assert(sets_up(list[n], s, positions(s)[n], monitors));
        assert(positions(s)[n] != positions(s)[m]);
    }
    transform_round_trip(s[i].transform, 0);
    m
}

/// Whether a scale is the only one of its value among the supported ones.
pub open spec fn plainly_supported(wanted: Scale, supported: Seq<Scale>) -> bool {
    &&& supported.contains(wanted)
    &&& finite(wanted.bits)
    &&& forall|k: int|
        0 <= k < supported.len() && finite((#[trigger] supported[k]).bits) && scaled(
            supported[k].bits,
        ) == scaled(wanted.bits) ==> supported[k] == wanted
}

/// A logical monitor has the planned scale of the first output at its position if
/// the mode supports it, and never a scale that the mode does not support.
pub proof fn outputs_are_scaled_as_supported(
    list: Seq<ApplyLogical>,
    s: Seq<PlannedOutput>,
    monitors: Seq<Monitor>,
    i: int,
    m: int,
)
    requires
        sets_up_all(list, s, monitors),
        first_there(s, i),
        choice(s[i], monitors) is Ok,
        0 <= m < list.len(),
        (list[m].x, list[m].y) == s[i].position,
    ensures
        ({
            let mode = choice(s[i], monitors)->Ok_0;
            let supported = mode.supported_scales@;
            &&& plainly_supported(s[i].scale, supported) ==> list[m].scale == s[i].scale
            &&& supported.len() > 0 ==> supported.contains(list[m].scale)
            &&& supported.len() == 0 && scale_positive(s[i].scale) ==> list[m].scale == s[i].scale
            &&& supported.len() == 0 && !scale_positive(s[i].scale) ==> list[m].scale
                == mode.preferred_scale
        }),
{
    leads_its_group(s, i);
    assert(sets_up(list[m], s, positions(s)[m], monitors));
    let mode = choice(s[i], monitors)->Ok_0;
    let supported = mode.supported_scales@;
    if supported.len() > 0 {
        snapped_is_closest(s[i].scale, mode.preferred_scale, supported, 0);
    }
    if plainly_supported(s[i].scale, supported) {
        supported_scale_is_kept(s[i].scale, mode.preferred_scale, supported);
    }
}

/// The mode for an enabled output is one of the monitor at its connector: of exactly
/// the planned width and height, and of the refresh closest to the planned one.
pub proof fn output_gets_the_planned_mode(p: PlannedOutput, monitors: Seq<Monitor>, n: int)
    requires
        0 <= n < monitors.len(),
        monitors[n].spec.connector@ == p.identity.connector@,
        forall|j: int|
            0 <= j < n ==> (#[trigger] monitors[j]).spec.connector@ != p.identity.connector@,
        forall|k: int|
            0 <= k < monitors[n].modes@.len() ==> (#[trigger] monitors[n].modes@[k]).width >= 0
                && monitors[n].modes@[k].height >= 0,
    ensures
        p.mode is None ==> choice(p, monitors) == Err::<MonitorMode, Obstacle>(Obstacle::Modeless),
        p.mode matches Some(wanted) ==> match choice(p, monitors) {
            Ok(m) => {
                &&& monitors[n].modes@.contains(m)
                &&& m.width == wanted.width && m.height == wanted.height
                &&& forall|k: int|
                    0 <= k < monitors[n].modes@.len() && (#[trigger] monitors[n].modes@[k]).width
                        == wanted.width && monitors[n].modes@[k].height == wanted.height ==> apart(
                        in_thousandths(m.refresh_bits) as int,
                        wanted.refresh_mhz as int,
                    ) <= apart(
                        in_thousandths(monitors[n].modes@[k].refresh_bits) as int,
                        wanted.refresh_mhz as int,
                    )
            },
            Err(o) => {
                &&& o == Obstacle::Unavailable(wanted)
                &&& forall|k: int|
                    0 <= k < monitors[n].modes@.len() ==> (#[trigger] monitors[n].modes@[k]).width
                        != wanted.width || monitors[n].modes@[k].height != wanted.height
            },
        },
{
    first_where_is(monitors, monitor_at(p.identity.connector@), n);
    let list = monitors[n].modes@;
    let modes = modes_from(list);
    assert forall|k: int| 0 <= k < list.len() implies (#[trigger] modes[k]).width == list[k].width
        && modes[k].height == list[k].height && modes[k].refresh_mhz == in_thousandths(
        list[k].refresh_bits,
    ) by {
        assert(list[k].width >= 0);
    }
    if p.mode is Some {
        nearest_mode_keeps_the_size(modes, p.mode->0);
        match closest_at(modes, p.mode->0) {
            Some(k) => {
                assert(list[k] == choice(p, monitors)->Ok_0);
                assert forall|j: int|
                    0 <= j < list.len() && (#[trigger] list[j]).width == p.mode->0.width
                        && list[j].height == p.mode->0.height implies apart(
                    in_thousandths(list[k].refresh_bits) as int,
                    p.mode->0.refresh_mhz as int,
                ) <= apart(
                    in_thousandths(list[j].refresh_bits) as int,
                    p.mode->0.refresh_mhz as int,
                ) by {
                    assert(modes[j].width == list[j].width);
                }
            },
            None => {
                assert forall|k: int| 0 <= k < list.len() implies (#[trigger] list[k]).width
                    != p.mode->0.width || list[k].height != p.mode->0.height by {
                    assert(modes[k].width == list[k].width);
                }
            },
        }
    }
}

/// Whether an output with a connector is planned to be on at a position.
pub open spec fn planned_there(
    s: Seq<PlannedOutput>,
    position: (i32, i32),
    connector: Seq<char>,
) -> bool {
    exists|i: int|
        0 <= i < s.len() && (#[trigger] s[i]).enabled && s[i].position == position
            && s[i].identity.connector@ == connector
}

/// Every enabled output is named by the logical monitor at its position, with the id
/// of the mode found for it, and a logical monitor names no other output.
pub proof fn logical_monitors_name_the_outputs(
    list: Seq<ApplyLogical>,
    s: Seq<PlannedOutput>,
    monitors: Seq<Monitor>,
    m: int,
)
    requires
        sets_up_all(list, s, monitors),
        0 <= m < list.len(),
    ensures
        forall|i: int|
            0 <= i < s.len() && (#[trigger] s[i]).enabled && s[i].position == (
            list[m].x,
            list[m].y,
        ) ==> exists|a: int|
            0 <= a < list[m].assignments@.len() && (
            #[trigger] list[m].assignments@[a]).connector@ == s[i].identity.connector@
                && list[m].assignments@[a].mode_id@ == choice(s[i], monitors)->Ok_0.id@,
        forall|a: int|
            0 <= a < list[m].assignments@.len() ==> planned_there(
                s,
                (list[m].x, list[m].y),
                (#[trigger] list[m].assignments@[a]).connector@,
            ),
{
    let position = positions(s)[m];
    let here = shown_at(position);
    let group = members(s, position);
    assert(sets_up(list[m], s, position, monitors));
    assert forall|i: int|
        0 <= i < s.len() && (#[trigger] s[i]).enabled && s[i].position == (
        list[m].x,
        list[m].y,
    ) implies exists|a: int|
        0 <= a < list[m].assignments@.len() && (#[trigger] list[m].assignments@[a]).connector@
            == s[i].identity.connector@ && list[m].assignments@[a].mode_id@ == choice(
            s[i],
            monitors,
        )->Ok_0.id@ by {
        filter_has(s, here, i);
        let a = choose|a: int| 0 <= a < group.len() && group[a] == s[i];
        assert(list[m].assignments@[a].connector@ == group[a].identity.connector@);
    }
    assert forall|a: int| 0 <= a < list[m].assignments@.len() implies planned_there(
        s,
        (list[m].x, list[m].y),
        (#[trigger] list[m].assignments@[a]).connector@,
    ) by {
        filter_held(s, here, a);
        filter_meets(s, here, a);
        let i = choose|i: int| 0 <= i < s.len() && s[i] == group[a];
        assert(s[i].enabled);
    }
}

/// Whether Mutter reports the logical monitors that were set up.
pub open spec fn took_over(logical: Seq<LogicalMonitor>, list: Seq<ApplyLogical>) -> bool {
    &&& logical.len() == list.len()
    &&& forall|n: int|
        0 <= n < list.len() ==> {
            let lm = #[trigger] logical[n];
            &&& lm.x == list[n].x
            &&& lm.y == list[n].y
            &&& lm.scale == list[n].scale
            &&& lm.transform == list[n].transform
            &&& lm.primary == list[n].primary
            &&& lm.monitors@.len() == list[n].assignments@.len()
            &&& forall|k: int|
                0 <= k < lm.monitors@.len() ==> (#[trigger] lm.monitors@[k]).connector@
                    == list[n].assignments@[k].connector@
        }
}

/// What was set up is what is read back: an output is on exactly if it was planned
/// to be, and then at its planned position, turned as planned if it leads its
/// position, in the scale that was set up, and part of the primary logical monitor
/// if it is the primary output.
pub proof fn applied_plan_is_read_back(
    list: Seq<ApplyLogical>,
    s: Seq<PlannedOutput>,
    monitors: Seq<Monitor>,
    logical: Seq<LogicalMonitor>,
    i: int,
    mon: Monitor,
    o: Output,
)
    requires
        sets_up_all(list, s, monitors),
        took_over(logical, list),
        0 <= i < s.len(),
        forall|j: int|
            0 <= j < s.len() && j != i ==> (#[trigger] s[j]).identity.connector@
                != s[i].identity.connector@,
        mon.spec.connector@ == s[i].identity.connector@,
        described(o, mon, logical),
    ensures
        o.identity.connector@ == s[i].identity.connector@,
        o.enabled == s[i].enabled,
        s[i].enabled ==> o.position == s[i].position,
        first_there(s, i) ==> o.transform == s[i].transform,
        s[i].enabled && s[i].primary ==> o.primary,
        s[i].enabled ==> exists|m: int|
            0 <= m < list.len() && ((#[trigger] list[m]).x, list[m].y) == s[i].position && o.scale
                == list[m].scale,
{
    let c = s[i].identity.connector@;
    positions_cover(s);
    assert forall|n: int| 0 <= n < logical.len() implies drives(c)(#[trigger] logical[n]) == (
    s[i].enabled && s[i].position == (list[n].x, list[n].y)) by {
        let at = (list[n].x, list[n].y);
        logical_monitors_name_the_outputs(list, s, monitors, n);
        if s[i].enabled && s[i].position == at {
            let a = choose|a: int|
                0 <= a < list[n].assignments@.len() && (
                #[trigger] list[n].assignments@[a]).connector@ == s[i].identity.connector@
                    && list[n].assignments@[a].mode_id@ == choice(s[i], monitors)->Ok_0.id@;
            assert(logical[n].monitors@[a].connector@ == c);
        }
        if drives(c)(logical[n]) {
            let a = choose|a: int|
                0 <= a < logical[n].monitors@.len() && (
                #[trigger] logical[n].monitors@[a]).connector@ == c;
            assert(list[n].assignments@[a].connector@ == c);
            let j = choose|j: int|
                0 <= j < s.len() && (#[trigger] s[j]).enabled && s[j].position == at
                    && s[j].identity.connector@ == c;
            assert(j == i);
        }
    }
    if s[i].enabled {
        let m = choose|m: int| 0 <= m < positions(s).len() && positions(s)[m] == s[i].position;
        assert(sets_up(list[m], s, positions(s)[m], monitors));
        assert forall|n: int| 0 <= n < m implies !drives(c)(logical[n]) by {
            assert(sets_up(list[n], s, positions(s)[n], monitors));
            assert(positions(s)[n] != positions(s)[m]);
            assert(drives(c)(logical[n]) == (s[i].position == (list[n].x, list[n].y)));
        }
        assert(drives(c)(logical[m]));
        first_where_is(logical, drives(c), m);
        assert((list[m].x, list[m].y) == s[i].position);
        if s[i].primary {
            let group = members(s, s[i].position);
            filter_has(s, shown_at(s[i].position), i);
            let k = choose|k: int| 0 <= k < group.len() && group[k] == s[i];
            assert(group[k].primary);
        }
        if first_there(s, i) {
            let at = outputs_are_turned_as_planned(list, s, monitors, i);
            assert(at == m);
        }
    } else {
        first_where_none(logical, drives(c));
    }
}

/// What Mutter tells of a monitor is kept: its connector and, where any of it is
/// known, its EDID; its name if it has one; whether it is built in; all of its
/// modes, in order; and as current and preferred mode one that is marked so,
/// whenever any is.
pub proof fn monitor_is_read_as_told(o: Output, m: Monitor, logical: Seq<LogicalMonitor>)
    requires
        described(o, m, logical),
    ensures
        o.identity.connector@ == m.spec.connector@,
        o.identity.edid matches Some(e) ==> e.vendor@ == m.spec.vendor@ && e.product@
            == m.spec.product@ && e.serial@ == m.spec.serial@,
        o.identity.edid is None <==> ((m.spec.vendor@.len() == 0 || m.spec.vendor@ == "unknown"@)
            && (m.spec.product@.len() == 0 || m.spec.product@ == "unknown"@) && (
        m.spec.serial@.len() == 0 || m.spec.serial@ == "unknown"@)),
        m.display_name matches Some(name) ==> o.display_name@ == name@,
        m.display_name is None ==> o.display_name@ == m.spec.connector@,
        m.builtin ==> o.builtin,
        o.modes@.len() == m.modes@.len(),
        forall|k: int|
            0 <= k < m.modes@.len() && 0 <= (#[trigger] m.modes@[k]).width && 0
                <= m.modes@[k].height ==> {
                &&& o.modes@[k].width == m.modes@[k].width
                &&& o.modes@[k].height == m.modes@[k].height
                &&& o.modes@[k].refresh_mhz == in_thousandths(m.modes@[k].refresh_bits)
            },
        o.mode is Some <==> exists|k: int|
            0 <= k < m.modes@.len() && (#[trigger] m.modes@[k]).current,
        o.mode is Some ==> exists|k: int|
            0 <= k < m.modes@.len() && (#[trigger] m.modes@[k]).current && o.mode == Some(
                o.modes@[k],
            ),
        o.preferred_mode is Some <==> exists|k: int|
            0 <= k < m.modes@.len() && (#[trigger] m.modes@[k]).preferred,
        o.preferred_mode is Some ==> exists|k: int|
            0 <= k < m.modes@.len() && (#[trigger] m.modes@[k]).preferred && o.preferred_mode
                == Some(o.modes@[k]),
{
    last_mode_is_marked(m.modes@, current());
    last_mode_is_marked(m.modes@, preferred());
    if o.mode is Some {
        let k = choose|k: int|
            0 <= k < m.modes@.len() && current()(#[trigger] m.modes@[k]) && o.mode == Some(
                mode_from(m.modes@[k]),
            );
        assert(m.modes@[k].current && o.modes@[k] == mode_from(m.modes@[k]));
    }
    if o.preferred_mode is Some {
        let k = choose|k: int|
            0 <= k < m.modes@.len() && preferred()(#[trigger] m.modes@[k]) && o.preferred_mode
                == Some(mode_from(m.modes@[k]));
        assert(m.modes@[k].preferred && o.modes@[k] == mode_from(m.modes@[k]));
    }
    assert forall|k: int| 0 <= k < m.modes@.len() && (#[trigger] m.modes@[k]).current implies
        o.mode is Some by {
        assert(current()(m.modes@[k]));
    }
    assert forall|k: int| 0 <= k < m.modes@.len() && (#[trigger] m.modes@[k]).preferred implies
        o.preferred_mode is Some by {
        assert(preferred()(m.modes@[k]));
    }
}

proof fn last_mode_is_marked(modes: Seq<MonitorMode>, p: spec_fn(MonitorMode) -> bool)
    ensures
        last_mode(modes, p) is Some ==> exists|k: int|
            0 <= k < modes.len() && p(#[trigger] modes[k]) && last_mode(modes, p) == Some(
                mode_from(modes[k]),
            ),
        last_mode(modes, p) is None ==> forall|k: int|
            0 <= k < modes.len() ==> !p(#[trigger] modes[k]),
    decreases modes.len(),
{
    if modes.len() > 0 {
        let t = modes.drop_last();
        last_mode_is_marked(t, p);
        assert(forall|k: int| 0 <= k < t.len() ==> t[k] == modes[k]);
        let n = modes.len() - 1;
        assert(modes[n] == modes.last());
        if !p(modes[n]) {
            if last_mode(t, p) is Some {
                let k = choose|k: int|
                    0 <= k < t.len() && p(#[trigger] t[k]) && last_mode(t, p) == Some(
                        mode_from(t[k]),
                    );
                assert(p(modes[k]));
            } else {
                assert forall|k: int| 0 <= k < modes.len() implies !p(#[trigger] modes[k]) by {
                    if k < n {
                        assert(!p(t[k]));
                    }
                }
            }
        } else {
            assert(p(modes[n]));
        }
    }
}

/// A plan that is only to be verified, one that is to last for the session and one
/// that is to stay are asked for by different methods, in that order.
pub proof fn methods_tell_the_modes_apart(mode: ApplyMode)
    ensures
        method_of(ApplyMode::Verify) == 0,
        method_of(ApplyMode::Temporary) == 1,
        method_of(ApplyMode::Persistent) == 2,
        method_of(mode) < 3,
{
}

} // verus!
