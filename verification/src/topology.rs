//! Topology snapshot and layout-plan types shared by all backends.
//!
//! Backends apply **whole layouts, never single-output deltas**: that is how
//! Mutter and Windows CCD actually work and it sidesteps ordering bugs.

use crate::binary64::INFINITY;
use crate::identity::OutputIdentity;
use crate::seqs::{filter_push, find_where, first_where, first_where_is, first_where_none};
use crate::text::{
    ascii_lower, ascii_lower_char, begins_with, chars_of, decimal, padded_decimal, push_decimal,
    push_padded_decimal, same_text, starts_with, to_ascii_lower,
};
use vstd::prelude::*;

verus! {

/// A display mode. Refresh is stored in millihertz so modes compare exactly
/// (59.997 Hz == 59_997 mHz).
#[derive(Debug, Clone, Copy, PartialEq, Eq, Hash, Structural)]
pub struct Mode {
    pub width: u32,
    pub height: u32,
    pub refresh_mhz: u32,
}

/// `WxH@Hz` with three decimals, e.g. `3840x2160@59.997`.
pub open spec fn mode_text(m: Mode) -> Seq<char> {
    decimal(m.width as nat) + seq!['x'] + decimal(m.height as nat) + seq!['@'] + decimal(
        (m.refresh_mhz / 1000) as nat,
    ) + seq!['.'] + padded_decimal((m.refresh_mhz % 1000) as nat, 3)
}

impl Mode {
    /// The mode in the notation that [`ModeSpec`] reads.
    pub fn to_text(&self) -> (r: String)
        ensures
            r@ == mode_text(*self),
    {
        let mut s = String::new();
        push_decimal(&mut s, self.width as u64);
        s.push('x');
        push_decimal(&mut s, self.height as u64);
        s.push('@');
        push_decimal(&mut s, (self.refresh_mhz / 1000) as u64);
        s.push('.');
        push_padded_decimal(&mut s, (self.refresh_mhz % 1000) as u64, 3);
        assert(s@ =~= mode_text(*self));
        s
    }
}

/// Output rotation/reflection, matching the eight wl_output/Mutter transforms.
#[derive(Debug, Clone, Copy, PartialEq, Eq, Hash, Structural)]
pub enum Transform {
    Normal,
    Rot90,
    Rot180,
    Rot270,
    Flipped,
    FlippedRot90,
    FlippedRot180,
    FlippedRot270,
}

impl Default for Transform {
    fn default() -> (r: Self)
        ensures
            r == Transform::Normal,
    {
        Transform::Normal
    }
}

/// Numeric encoding shared by Mutter and wayland (0..=7).
pub open spec fn transform_code(t: Transform) -> u8 {
    match t {
        Transform::Normal => 0,
        Transform::Rot90 => 1,
        Transform::Rot180 => 2,
        Transform::Rot270 => 3,
        Transform::Flipped => 4,
        Transform::FlippedRot90 => 5,
        Transform::FlippedRot180 => 6,
        Transform::FlippedRot270 => 7,
    }
}

/// The transform with a given numeric encoding.
pub open spec fn transform_of(v: u8) -> Option<Transform> {
    if v == 0 {
        Some(Transform::Normal)
    } else if v == 1 {
        Some(Transform::Rot90)
    } else if v == 2 {
        Some(Transform::Rot180)
    } else if v == 3 {
        Some(Transform::Rot270)
    } else if v == 4 {
        Some(Transform::Flipped)
    } else if v == 5 {
        Some(Transform::FlippedRot90)
    } else if v == 6 {
        Some(Transform::FlippedRot180)
    } else if v == 7 {
        Some(Transform::FlippedRot270)
    } else {
        None
    }
}

/// Whether a transform swaps the width and the height of a mode.
pub open spec fn swaps_axes(t: Transform) -> bool {
    t == Transform::Rot90 || t == Transform::Rot270 || t == Transform::FlippedRot90 || t
        == Transform::FlippedRot270
}

impl Transform {
    /// Numeric encoding shared by Mutter and wayland (0..=7).
    pub fn to_u8(self) -> (r: u8)
        ensures
            r == transform_code(self),
            r <= 7,
    {
        match self {
            Transform::Normal => 0,
            Transform::Rot90 => 1,
            Transform::Rot180 => 2,
            Transform::Rot270 => 3,
            Transform::Flipped => 4,
            Transform::FlippedRot90 => 5,
            Transform::FlippedRot180 => 6,
            Transform::FlippedRot270 => 7,
        }
    }

    /// The transform with this encoding; `None` above 7.
    pub fn from_u8(v: u8) -> (r: Option<Self>)
        ensures
            r == transform_of(v),
    {
        match v {
            0 => Some(Transform::Normal),
            1 => Some(Transform::Rot90),
            2 => Some(Transform::Rot180),
            3 => Some(Transform::Rot270),
            4 => Some(Transform::Flipped),
            5 => Some(Transform::FlippedRot90),
            6 => Some(Transform::FlippedRot180),
            7 => Some(Transform::FlippedRot270),
            _ => None,
        }
    }

    /// Whether 90°/270° rotation swaps width and height.
    pub fn swaps_axes(self) -> (r: bool)
        ensures
            r == swaps_axes(self),
    {
        match self {
            Transform::Rot90 | Transform::Rot270 | Transform::FlippedRot90
            | Transform::FlippedRot270 => true,
            _ => false,
        }
    }
}

/// Encoding a transform and decoding it gives the transform back, and only the
/// codes 0 to 7 decode, each to the transform it encodes.
pub proof fn transform_round_trip(t: Transform, v: u8)
    ensures
        transform_of(transform_code(t)) == Some(t),
        transform_of(v) is Some <==> v <= 7,
        transform_of(v) is Some ==> transform_code(transform_of(v)->0) == v,
{
}

/// A scale factor, held as the bits of an IEEE 754 binary64 number so that a
/// value offered by the display server is handed back unchanged.
#[derive(Debug, Clone, Copy, PartialEq, Eq, Hash, Structural)]
pub struct Scale {
    pub bits: u64,
}

/// Bits of the scale 1.0.
pub const ONE_BITS: u64 = 0x3ff0_0000_0000_0000;

/// Whether the number is greater than zero (neither zero, negative nor NaN).
pub open spec fn scale_positive(s: Scale) -> bool {
    0 < s.bits <= INFINITY
}

/// The scale itself when positive, 1.0 otherwise.
pub open spec fn usable_scale(s: Scale) -> Scale {
    if scale_positive(s) {
        s
    } else {
        Scale { bits: ONE_BITS }
    }
}

impl Scale {
    /// The scale 1.0.
    pub fn one() -> (r: Self)
        ensures
            r.bits == ONE_BITS,
    {
        Scale { bits: ONE_BITS }
    }

    /// Whether the scale is greater than zero.
    pub fn is_positive(self) -> (r: bool)
        ensures
            r == scale_positive(self),
    {
        0 < self.bits && self.bits <= INFINITY
    }

    /// The scale itself when positive, 1.0 otherwise.
    pub fn usable(self) -> (r: Self)
        ensures
            r == usable_scale(self),
    {
        if self.is_positive() {
            self
        } else {
            Scale::one()
        }
    }
}

/// One physical output as reported by a backend snapshot.
#[derive(Debug, PartialEq)]
pub struct Output {
    pub identity: OutputIdentity,
    /// User-facing alias ("TV", "left") attached by the daemon from config.
    pub alias: Option<String>,
    /// Human-readable name from the backend, e.g. "Samsung Electric Company 55\"".
    pub display_name: String,
    /// Internal panel (eDP/LVDS/DSI): gets the extra disable guard.
    pub builtin: bool,
    /// Currently driving a signal (part of the desktop).
    pub enabled: bool,
    /// Current mode when enabled.
    pub mode: Option<Mode>,
    pub preferred_mode: Option<Mode>,
    /// All modes the display advertises.
    pub modes: Vec<Mode>,
    /// Logical position in the desktop coordinate space.
    pub position: (i32, i32),
    pub scale: Scale,
    pub transform: Transform,
    pub primary: bool,
}

impl Default for Output {
    fn default() -> (r: Self)
        ensures
            r.identity.edid is None,
            r.identity.connector@.len() == 0,
            r.alias is None,
            r.display_name@.len() == 0,
            !r.builtin,
            !r.enabled,
            r.mode is None,
            r.preferred_mode is None,
            r.modes@.len() == 0,
            r.position == (0i32, 0i32),
            r.scale.bits == 0,
            r.transform == Transform::Normal,
            !r.primary,
    {
        Output {
            identity: OutputIdentity { edid: None, connector: String::new() },
            alias: None,
            display_name: String::new(),
            builtin: false,
            enabled: false,
            mode: None,
            preferred_mode: None,
            modes: Vec::new(),
            position: (0, 0),
            scale: Scale { bits: 0 },
            transform: Transform::Normal,
            primary: false,
        }
    }
}

/// Whether two outputs agree in everything they report.
pub open spec fn same_output(a: Output, b: Output) -> bool {
    &&& a.identity == b.identity
    &&& a.alias == b.alias
    &&& a.display_name == b.display_name
    &&& a.builtin == b.builtin
    &&& a.enabled == b.enabled
    &&& a.mode == b.mode
    &&& a.preferred_mode == b.preferred_mode
    &&& a.modes@ == b.modes@
    &&& a.position == b.position
    &&& a.scale == b.scale
    &&& a.transform == b.transform
    &&& a.primary == b.primary
}

/// A copy of an optional text.
pub fn copy_text(t: &Option<String>) -> (r: Option<String>)
    ensures
        r == *t,
{
    match t {
        Some(s) => Some(s.clone()),
        None => None,
    }
}

/// A copy of a list of modes.
pub fn copy_modes(modes: &Vec<Mode>) -> (r: Vec<Mode>)
    ensures
        r@ == modes@,
{
    let mut out: Vec<Mode> = Vec::new();
    for i in 0..modes.len()
        invariant
            out@ == modes@.take(i as int),
    {
        out.push(modes[i]);
        assert(modes@.take(i as int).push(modes@[i as int]) =~= modes@.take(i + 1));
    }
    assert(modes@.take(modes@.len() as int) =~= modes@);
    out
}

/// Whether a list holds a mode.
pub fn has_mode(modes: &Vec<Mode>, m: Mode) -> (r: bool)
    ensures
        r == modes@.contains(m),
{
    for i in 0..modes.len()
        invariant
            forall|j: int| 0 <= j < i ==> modes@[j] != m,
    {
        if modes[i] == m {
            assert(modes@[i as int] == m);
            return true;
        }
    }
    false
}

impl Clone for Output {
    fn clone(&self) -> (r: Self)
        ensures
            same_output(r, *self),
    {
        Output {
            identity: self.identity.clone(),
            alias: copy_text(&self.alias),
            display_name: self.display_name.clone(),
            builtin: self.builtin,
            enabled: self.enabled,
            mode: self.mode,
            preferred_mode: self.preferred_mode,
            modes: copy_modes(&self.modes),
            position: self.position,
            scale: self.scale,
            transform: self.transform,
            primary: self.primary,
        }
    }
}

/// Whether a connector name denotes an internal panel.
pub open spec fn builtin_connector(connector: Seq<char>) -> bool {
    let c = ascii_lower(connector);
    begins_with(c, "edp"@) || begins_with(c, "lvds"@) || begins_with(c, "dsi"@)
}

/// Heuristic for internal panels, shared by backends that only expose the
/// connector name.
pub fn connector_is_builtin(connector: &str) -> (r: bool)
    ensures
        r == builtin_connector(connector@),
{
    let c = to_ascii_lower(connector);
    starts_with(&c, &chars_of("edp")) || starts_with(&c, &chars_of("lvds")) || starts_with(
        &c,
        &chars_of("dsi"),
    )
}

/// Whether no two outputs share a connector.
pub open spec fn distinct_connectors(outputs: Seq<Output>) -> bool {
    forall|i: int, j: int|
        0 <= i < outputs.len() && 0 <= j < outputs.len() && i != j ==> (
        #[trigger] outputs[i]).identity.connector@ != (#[trigger] outputs[j]).identity.connector@
}

/// Full snapshot of the current display configuration.
#[derive(Debug, PartialEq)]
pub struct Topology {
    /// Backend-opaque configuration serial. Plans derived from a snapshot
    /// carry it back so backends can reject stale applies.
    pub serial: String,
    pub outputs: Vec<Output>,
}

/// Whether two snapshots report the same.
pub open spec fn same_topology(a: Topology, b: Topology) -> bool {
    &&& a.serial == b.serial
    &&& a.outputs@.len() == b.outputs@.len()
    &&& forall|i: int|
        0 <= i < a.outputs@.len() ==> same_output(#[trigger] a.outputs@[i], b.outputs@[i])
}

impl Clone for Topology {
    fn clone(&self) -> (r: Self)
        ensures
            same_topology(r, *self),
    {
        let mut outputs: Vec<Output> = Vec::new();
        for i in 0..self.outputs.len()
            invariant
                outputs.len() == i,
                forall|j: int|
                    0 <= j < i ==> same_output(#[trigger] outputs@[j], self.outputs@[j]),
        {
            outputs.push(self.outputs[i].clone());
        }
        Topology { serial: self.serial.clone(), outputs }
    }
}

/// The condition that an output has the given connector.
pub open spec fn output_at(connector: Seq<char>) -> spec_fn(Output) -> bool {
    |o: Output| o.identity.connector@ == connector
}

/// The condition that an output is part of the desktop.
pub open spec fn output_enabled() -> spec_fn(Output) -> bool {
    |o: Output| o.enabled
}

impl Topology {
    /// The outputs that are part of the desktop, in order.
    pub fn enabled_outputs(&self) -> (r: Vec<&Output>)
        ensures
            r@.map_values(|o: &Output| *o) == self.outputs@.filter(output_enabled()),
    {
        let mut out: Vec<&Output> = Vec::new();
        let ghost view = |o: &Output| *o;
        proof {
            assert(self.outputs@.take(0) =~= Seq::empty());
            reveal(Seq::filter);
        }
        assert(out@.map_values(view) =~= self.outputs@.take(0).filter(output_enabled()));
        for i in 0..self.outputs.len()
            invariant
                view == |o: &Output| *o,
                out@.map_values(view) == self.outputs@.take(i as int).filter(output_enabled()),
        {
            let ghost before = out@;
            proof {
                filter_push(
                    self.outputs@.take(i as int),
                    output_enabled(),
                    self.outputs@[i as int],
                );
                assert(self.outputs@.take(i as int).push(self.outputs@[i as int])
                    =~= self.outputs@.take(i + 1));
            }
            if self.outputs[i].enabled {
                out.push(&self.outputs[i]);
                assert(out@.map_values(view) =~= before.map_values(view).push(
                    self.outputs@[i as int],
                ));
            }
        }
        assert(self.outputs@.take(self.outputs@.len() as int) =~= self.outputs@);
        out
    }

    /// How many outputs are part of the desktop.
    pub fn enabled_count(&self) -> (r: usize)
        ensures
            r == self.outputs@.filter(output_enabled()).len(),
    {
        let hits = self.enabled_outputs();
        assert(hits@.map_values(|o: &Output| *o).len() == hits@.len());
        hits.len()
    }

    /// The first output with the given connector.
    pub fn find_connector(&self, connector: &str) -> (r: Option<&Output>)
        ensures
            match (r, find_where(self.outputs@, output_at(connector@))) {
                (Some(o), Some(want)) => *o == want,
                (None, None) => true,
                _ => false,
            },
    {
        for i in 0..self.outputs.len()
            invariant
                forall|j: int| 0 <= j < i ==> !output_at(connector@)(self.outputs@[j]),
        {
            if same_text(self.outputs[i].identity.connector.as_str(), connector) {
                proof {
                    first_where_is(self.outputs@, output_at(connector@), i as int);
                }
                return Some(&self.outputs[i]);
            }
        }
        proof {
            first_where_none(self.outputs@, output_at(connector@));
        }
        None
    }
}

/// Desired state for one output within a [`LayoutPlan`].
#[derive(Debug, PartialEq)]
pub struct PlannedOutput {
    pub identity: OutputIdentity,
    pub enabled: bool,
    /// `None` = keep the output's current mode, falling back to preferred.
    pub mode: Option<Mode>,
    pub position: (i32, i32),
    pub scale: Scale,
    pub transform: Transform,
    pub primary: bool,
}

impl Clone for PlannedOutput {
    fn clone(&self) -> (r: Self)
        ensures
            r == *self,
    {
        PlannedOutput {
            identity: self.identity.clone(),
            enabled: self.enabled,
            mode: self.mode,
            position: self.position,
            scale: self.scale,
            transform: self.transform,
            primary: self.primary,
        }
    }
}

/// The first of two optional modes that is present.
pub open spec fn mode_or(a: Option<Mode>, b: Option<Mode>) -> Option<Mode> {
    match a {
        Some(m) => Some(m),
        None => b,
    }
}

/// The plan that leaves an output as it is.
pub open spec fn planned_as_is(o: Output) -> PlannedOutput {
    PlannedOutput {
        identity: o.identity,
        enabled: o.enabled,
        mode: mode_or(o.mode, o.preferred_mode),
        position: o.position,
        scale: usable_scale(o.scale),
        transform: o.transform,
        primary: o.primary,
    }
}

impl PlannedOutput {
    /// Plan an output as it is.
    pub fn from_output(o: &Output) -> (r: Self)
        ensures
            r == planned_as_is(*o),
    {
        PlannedOutput {
            identity: o.identity.clone(),
            enabled: o.enabled,
            mode: match o.mode {
                Some(m) => Some(m),
                None => o.preferred_mode,
            },
            position: o.position,
            scale: o.scale.usable(),
            transform: o.transform,
            primary: o.primary,
        }
    }
}

/// A full desired topology: one entry per known output. Disable = entry with
/// `enabled: false` (backends translate to their own semantics, e.g. Mutter
/// omits the monitor from `logical_monitors`).
#[derive(Debug, PartialEq)]
pub struct LayoutPlan {
    /// Serial of the [`Topology`] this plan was derived from.
    pub serial: String,
    pub outputs: Vec<PlannedOutput>,
}

impl Clone for LayoutPlan {
    fn clone(&self) -> (r: Self)
        ensures
            r.serial == self.serial,
            r.outputs@ == self.outputs@,
    {
        let mut outputs: Vec<PlannedOutput> = Vec::new();
        for i in 0..self.outputs.len()
            invariant
                outputs@ == self.outputs@.take(i as int),
        {
            outputs.push(self.outputs[i].clone());
            assert(self.outputs@.take(i as int).push(self.outputs@[i as int])
                =~= self.outputs@.take(i + 1));
        }
        assert(self.outputs@.take(self.outputs@.len() as int) =~= self.outputs@);
        LayoutPlan { serial: self.serial.clone(), outputs }
    }
}

/// The condition that a planned output has the given connector.
pub open spec fn planned_at(connector: Seq<char>) -> spec_fn(PlannedOutput) -> bool {
    |p: PlannedOutput| p.identity.connector@ == connector
}

/// The condition that a planned output is to be part of the desktop.
pub open spec fn planned_enabled() -> spec_fn(PlannedOutput) -> bool {
    |p: PlannedOutput| p.enabled
}

/// Every output of a snapshot planned as it is.
pub open spec fn plans_as_is(outputs: Seq<Output>) -> Seq<PlannedOutput> {
    outputs.map_values(|o: Output| planned_as_is(o))
}

impl LayoutPlan {
    /// Start from the current state: every output planned as-is.
    pub fn from_topology(t: &Topology) -> (r: Self)
        ensures
            r.serial == t.serial,
            r.outputs@ == plans_as_is(t.outputs@),
    {
        let mut outputs: Vec<PlannedOutput> = Vec::new();
        for i in 0..t.outputs.len()
            invariant
                outputs.len() == i,
                forall|j: int| 0 <= j < i ==> outputs@[j] == planned_as_is(t.outputs@[j]),
        {
            outputs.push(PlannedOutput::from_output(&t.outputs[i]));
        }
        assert(outputs@ =~= plans_as_is(t.outputs@));
        LayoutPlan { serial: t.serial.clone(), outputs }
    }

    /// Index of the first planned output with the given connector.
    pub fn index_of_connector(&self, connector: &str) -> (r: Option<usize>)
        ensures
            match (r, first_where(self.outputs@, planned_at(connector@))) {
                (Some(i), Some(want)) => i == want && i < self.outputs@.len(),
                (None, None) => true,
                _ => false,
            },
    {
        for i in 0..self.outputs.len()
            invariant
                forall|j: int| 0 <= j < i ==> !planned_at(connector@)(self.outputs@[j]),
        {
            if same_text(self.outputs[i].identity.connector.as_str(), connector) {
                proof {
                    first_where_is(self.outputs@, planned_at(connector@), i as int);
                }
                return Some(i);
            }
        }
        proof {
            first_where_none(self.outputs@, planned_at(connector@));
        }
        None
    }

    /// The first planned output with the given connector, to be changed.
    pub fn find_connector_mut(&mut self, connector: &str) -> (r: Option<&mut PlannedOutput>)
        ensures
            match (r, first_where(old(self).outputs@, planned_at(connector@))) {
                (Some(p), Some(i)) => {
                    &&& *p == old(self).outputs@[i]
                    &&& final(self).outputs@ == old(self).outputs@.update(i, *final(p))
                    &&& final(self).serial == old(self).serial
                },
                (None, None) => *final(self) == *old(self),
                _ => false,
            },
    {
        match self.index_of_connector(connector) {
            Some(i) => Some(&mut self.outputs[i]),
            None => None,
        }
    }

    /// Set the enabled state of the output with the given connector; `false`
    /// when the plan has no such output.
    pub fn set_enabled(&mut self, connector: &str, enabled: bool) -> (r: bool)
        ensures
            final(self).serial == old(self).serial,
            match first_where(old(self).outputs@, planned_at(connector@)) {
                Some(i) => r && final(self).outputs@ == old(self).outputs@.update(
                    i,
                    (PlannedOutput { enabled, ..old(self).outputs@[i] }),
                ),
                None => !r && final(self).outputs@ == old(self).outputs@,
            },
    {
        match self.index_of_connector(connector) {
            Some(i) => {
                self.outputs[i].enabled = enabled;
                true
            },
            None => false,
        }
    }

    /// How many planned outputs are to be part of the desktop.
    pub fn enabled_count(&self) -> (r: usize)
        ensures
            r == self.outputs@.filter(planned_enabled()).len(),
    {
        let mut count: usize = 0;
        proof {
            assert(self.outputs@.take(0) =~= Seq::empty());
            reveal(Seq::filter);
        }
        for i in 0..self.outputs.len()
            invariant
                count == self.outputs@.take(i as int).filter(planned_enabled()).len(),
                count <= i,
        {
            proof {
                filter_push(
                    self.outputs@.take(i as int),
                    planned_enabled(),
                    self.outputs@[i as int],
                );
                assert(self.outputs@.take(i as int).push(self.outputs@[i as int])
                    =~= self.outputs@.take(i + 1));
            }
            if self.outputs[i].enabled {
                count = count + 1;
            }
        }
        assert(self.outputs@.take(self.outputs@.len() as int) =~= self.outputs@);
        count
    }
}

// --------------------------------------------------------------------- laws

/// The encoding counts quarter turns, from 4 on for mirrored outputs; the width and
/// the height change places exactly after an odd number of quarter turns.
pub proof fn encoding_counts_quarter_turns(t: Transform)
    ensures
        transform_code(t) % 4 == 0 <==> t == Transform::Normal || t == Transform::Flipped,
        transform_code(t) % 4 == 1 <==> t == Transform::Rot90 || t == Transform::FlippedRot90,
        transform_code(t) % 4 == 2 <==> t == Transform::Rot180 || t == Transform::FlippedRot180,
        transform_code(t) % 4 == 3 <==> t == Transform::Rot270 || t == Transform::FlippedRot270,
        transform_code(t) >= 4 <==> t == Transform::Flipped || t == Transform::FlippedRot90 || t
            == Transform::FlippedRot180 || t == Transform::FlippedRot270,
        transform_code(t) < 8,
        swaps_axes(t) <==> transform_code(t) % 2 == 1,
{
}

/// Planning an output as it is keeps its identity, state, place and transform; its
/// mode too, or the preferred one for an output that is in none; and its scale,
/// unless that is no positive number, which counts as one.
pub proof fn planning_as_is_changes_nothing(o: Output)
    ensures
        ({
            let p = planned_as_is(o);
            &&& p.identity == o.identity
            &&& p.enabled == o.enabled
            &&& o.mode is Some ==> p.mode == o.mode
            &&& o.mode is None ==> p.mode == o.preferred_mode
            &&& p.position == o.position
            &&& 0 < o.scale.bits <= 0x7ff0_0000_0000_0000 ==> p.scale == o.scale
            &&& o.scale.bits == 0 || o.scale.bits > 0x7ff0_0000_0000_0000 ==> p.scale.bits
                == 0x3ff0_0000_0000_0000
            &&& p.transform == o.transform
            &&& p.primary == o.primary
        }),
{
}

/// Whether a text begins with another one, up to the case of ASCII letters.
pub open spec fn begins_ignoring_case(s: Seq<char>, prefix: Seq<char>) -> bool {
    &&& prefix.len() <= s.len()
    &&& forall|i: int|
        0 <= i < prefix.len() ==> s[i] == #[trigger] prefix[i] || ('A' <= s[i] <= 'Z' && s[i] as u32
            + 32 == prefix[i] as u32)
}

/// The internal panels are those at connectors named eDP, LVDS or DSI, in capital
/// or small letters.
pub proof fn panels_are_known_by_their_connector(connector: Seq<char>)
    ensures
        builtin_connector(connector) <==> begins_ignoring_case(connector, "edp"@)
            || begins_ignoring_case(connector, "lvds"@) || begins_ignoring_case(connector, "dsi"@),
{
    reveal_strlit("edp");
    reveal_strlit("lvds");
    reveal_strlit("dsi");
    folding_is_ignoring_case(connector, "edp"@);
    folding_is_ignoring_case(connector, "lvds"@);
    folding_is_ignoring_case(connector, "dsi"@);
}

proof fn folding_is_ignoring_case(s: Seq<char>, prefix: Seq<char>)
    requires
        forall|i: int| 0 <= i < prefix.len() ==> 'a' <= #[trigger] prefix[i] <= 'z',
    ensures
        begins_with(ascii_lower(s), prefix) == begins_ignoring_case(s, prefix),
{
    let low = ascii_lower(s);
    if prefix.len() <= s.len() {
        if begins_with(low, prefix) {
            assert forall|i: int| 0 <= i < prefix.len() implies s[i] == #[trigger] prefix[i] || (
            'A' <= s[i] <= 'Z' && s[i] as u32 + 32 == prefix[i] as u32) by {
                assert(low.take(prefix.len() as int)[i] == prefix[i]);
                assert(low[i] == ascii_lower_char(s[i]));
            }
        }
        if begins_ignoring_case(s, prefix) {
            assert forall|i: int| 0 <= i < prefix.len() implies low.take(prefix.len() as int)[i]
                == prefix[i] by {
                assert(s[i] == prefix[i] || 'A' <= s[i] <= 'Z');
                assert(low[i] == ascii_lower_char(s[i]));
            }
            assert(low.take(prefix.len() as int) =~= prefix);
        }
    }
}

/// A copy of a snapshot reports everything that the snapshot does.
pub proof fn copied_snapshot_reports_the_same(a: Topology, b: Topology, i: int)
    requires
        same_topology(a, b),
        0 <= i < b.outputs@.len(),
    ensures
        a.serial == b.serial,
        a.outputs@.len() == b.outputs@.len(),
        ({
            let x = a.outputs@[i];
            let y = b.outputs@[i];
            &&& x == Output { modes: x.modes, ..y }
            &&& x.modes@ == y.modes@
        }),
{
    assert(same_output(a.outputs@[i], b.outputs@[i]));
}

} // verus!
