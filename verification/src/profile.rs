//! Profile schema (versioned from day one) and profile to plan resolution.
//!
//! A profile stores a **full layout** for the outputs it names (enabled state
//! plus mode, position, scale, transform, and primary) and is silent about
//! outputs it doesn't name (they keep their current state).

use crate::error::ResolveError;
use crate::identity::{
    absent_display_has_no_hits, connectors, copy_edid, edids_agree, identity_hits,
    identity_stands_for_its_display, identity_text, matches_at, matching, names_only, quality,
    resolve_identity, twins_are_both_candidates, unrelated, EdidId, MatchQuality, OutputIdentity,
};
use crate::layout::{
    distinct_displays, normalize, normalized, same_displays, spread_fits, spread_within,
};
use crate::mode_spec::{
    advertised_mode_is_found_again, best_mode, mode_text_reads_back, spec_in, ModeSpec,
};
use crate::seqs::{
    filter_first, filter_has, filter_meets, filter_none, filter_of_prefix, filter_push,
    filter_single, filters_alike, find_where, first_where, first_where_facts, first_where_is,
    first_where_none,
};
use crate::text::{decimal, join2, push_decimal, same_text, texts};
use crate::topology::{
    copy_text, distinct_connectors, mode_or, mode_text, planned_as_is, planned_at, plans_as_is,
    scale_positive, LayoutPlan, Mode, Output, PlannedOutput, Scale, Topology, Transform,
};
use vstd::prelude::*;

verus! {

/// The newest profile store schema this library reads.
pub const SCHEMA_VERSION: u32 = 1;

/// The profile store.
#[derive(Debug, Clone, PartialEq)]
pub struct ProfileStore {
    pub schema_version: u32,
    pub profiles: Vec<Profile>,
}

impl Default for ProfileStore {
    fn default() -> (r: Self)
        ensures
            r.schema_version == SCHEMA_VERSION,
            r.profiles@.len() == 0,
    {
        ProfileStore { schema_version: SCHEMA_VERSION, profiles: Vec::new() }
    }
}

#[derive(Debug, PartialEq)]
pub struct Profile {
    /// Hot-switchable by name.
    pub name: String,
    /// Optional global hotkey, e.g. `<Super>F9`.
    pub hotkey: Option<String>,
    pub outputs: Vec<ProfileOutput>,
    pub audio: Option<AudioPrefs>,
}

/// Whether two profiles agree in everything.
pub open spec fn same_profile(a: Profile, b: Profile) -> bool {
    a.name == b.name && a.hotkey == b.hotkey && a.outputs@ == b.outputs@ && a.audio == b.audio
}

impl Clone for Profile {
    fn clone(&self) -> (r: Self)
        ensures
            same_profile(r, *self),
    {
        let mut outputs: Vec<ProfileOutput> = Vec::new();
        for i in 0..self.outputs.len()
            invariant
                outputs@ == self.outputs@.take(i as int),
        {
            outputs.push(self.outputs[i].clone());
            assert(self.outputs@.take(i as int).push(self.outputs@[i as int])
                =~= self.outputs@.take(i + 1));
        }
        assert(self.outputs@.take(self.outputs@.len() as int) =~= self.outputs@);
        Profile {
            name: self.name.clone(),
            hotkey: copy_text(&self.hotkey),
            outputs,
            audio: copy_audio(&self.audio),
        }
    }
}

impl Default for Profile {
    fn default() -> (r: Self)
        ensures
            r.name@.len() == 0,
            r.hotkey is None,
            r.outputs@.len() == 0,
            r.audio is None,
    {
        Profile { name: String::new(), hotkey: None, outputs: Vec::new(), audio: None }
    }
}

/// Desired state for one output. Both identifiers are stored; resolution is
/// EDID first, connector fallback (see [`crate::identity`]).
#[derive(Debug, PartialEq)]
pub struct ProfileOutput {
    /// User-facing alias ("TV", "left").
    pub alias: Option<String>,
    pub edid: Option<EdidId>,
    pub connector: String,
    pub enabled: bool,
    /// Mode spec like `3840x2160@120`; omitted = current/preferred.
    pub mode: Option<String>,
    pub position: Option<(i32, i32)>,
    pub scale: Option<Scale>,
    pub transform: Option<Transform>,
    pub primary: Option<bool>,
}

impl Clone for ProfileOutput {
    fn clone(&self) -> (r: Self)
        ensures
            r == *self,
    {
        ProfileOutput {
            alias: copy_text(&self.alias),
            edid: copy_edid(&self.edid),
            connector: self.connector.clone(),
            enabled: self.enabled,
            mode: copy_text(&self.mode),
            position: self.position,
            scale: self.scale,
            transform: self.transform,
            primary: self.primary,
        }
    }
}

impl Default for ProfileOutput {
    fn default() -> (r: Self)
        ensures
            r.alias is None,
            r.edid is None,
            r.connector@.len() == 0,
            !r.enabled,
            r.mode is None,
            r.position is None,
            r.scale is None,
            r.transform is None,
            r.primary is None,
    {
        ProfileOutput {
            alias: None,
            edid: None,
            connector: String::new(),
            enabled: false,
            mode: None,
            position: None,
            scale: None,
            transform: None,
            primary: None,
        }
    }
}

/// The identity that a profile entry names.
pub open spec fn entry_identity(e: ProfileOutput) -> OutputIdentity {
    OutputIdentity { edid: e.edid, connector: e.connector }
}

impl ProfileOutput {
    /// The identity that this entry names.
    pub fn identity(&self) -> (r: OutputIdentity)
        ensures
            r == entry_identity(*self),
    {
        OutputIdentity { edid: copy_edid(&self.edid), connector: self.connector.clone() }
    }
}

#[derive(Debug, PartialEq)]
pub struct AudioPrefs {
    /// Sink to restore when this profile's displays come back, e.g. a
    /// PipeWire node name on Linux.
    pub preferred_sink: Option<String>,
}

impl Clone for AudioPrefs {
    fn clone(&self) -> (r: Self)
        ensures
            r == *self,
    {
        AudioPrefs { preferred_sink: copy_text(&self.preferred_sink) }
    }
}

impl Default for AudioPrefs {
    fn default() -> (r: Self)
        ensures
            r.preferred_sink is None,
    {
        AudioPrefs { preferred_sink: None }
    }
}

/// A copy of optional audio preferences.
pub fn copy_audio(a: &Option<AudioPrefs>) -> (r: Option<AudioPrefs>)
    ensures
        r == *a,
{
    match a {
        Some(p) => Some(p.clone()),
        None => None,
    }
}

/// Non-fatal notes produced while resolving a profile against live outputs.
#[derive(Debug, PartialEq, Eq)]
pub enum ProfileWarning {
    /// A profile entry matched nothing: display not connected. The profile
    /// stays "silent" about it.
    NotConnected { connector: String },
    /// EDID matched on a different connector than stored (replugged); the
    /// stored connector should be updated on next save.
    ConnectorMigrated { stored: String, live: String },
    /// The stored mode spec doesn't match any mode the display advertises;
    /// current/preferred mode is used instead.
    ModeUnavailable { connector: String, mode: String },
}

impl Clone for ProfileWarning {
    fn clone(&self) -> (r: Self)
        ensures
            r == *self,
    {
        match self {
            ProfileWarning::NotConnected { connector } => ProfileWarning::NotConnected {
                connector: connector.clone(),
            },
            ProfileWarning::ConnectorMigrated { stored, live } => ProfileWarning::ConnectorMigrated {
                stored: stored.clone(),
                live: live.clone(),
            },
            ProfileWarning::ModeUnavailable { connector, mode } => ProfileWarning::ModeUnavailable {
                connector: connector.clone(),
                mode: mode.clone(),
            },
        }
    }
}

/// What a warning says, with its texts as character sequences.
pub enum Warning {
    NotConnected { connector: Seq<char> },
    ConnectorMigrated { stored: Seq<char>, live: Seq<char> },
    ModeUnavailable { connector: Seq<char>, mode: Seq<char> },
}

impl View for ProfileWarning {
    type V = Warning;

    open spec fn view(&self) -> Warning {
        match *self {
            ProfileWarning::NotConnected { connector } => Warning::NotConnected {
                connector: connector@,
            },
            ProfileWarning::ConnectorMigrated { stored, live } => Warning::ConnectorMigrated {
                stored: stored@,
                live: live@,
            },
            ProfileWarning::ModeUnavailable { connector, mode } => Warning::ModeUnavailable {
                connector: connector@,
                mode: mode@,
            },
        }
    }
}

/// What a list of warnings says.
pub open spec fn warnings_of(list: Seq<ProfileWarning>) -> Seq<Warning> {
    list.map_values(|w: ProfileWarning| w@)
}

// ------------------------------------------------------------- resolution

/// The mode that a stored mode specification selects.
pub open spec fn pinned_mode(spec: Option<String>, modes: Seq<Mode>) -> Option<Mode> {
    match spec {
        Some(text) => match spec_in(text@) {
            Some(s) => best_mode(s, modes),
            None => None,
        },
        None => None,
    }
}

/// The first of two optional values that is present.
pub open spec fn given<T>(a: Option<T>, b: T) -> T {
    match a {
        Some(v) => v,
        None => b,
    }
}

/// A planned output with the demands of a profile entry.
pub open spec fn with_entry(p: PlannedOutput, e: ProfileOutput, modes: Seq<Mode>) -> PlannedOutput {
    PlannedOutput {
        identity: p.identity,
        enabled: e.enabled,
        mode: mode_or(pinned_mode(e.mode, modes), p.mode),
        position: given(e.position, p.position),
        scale: given(e.scale, p.scale),
        transform: given(e.transform, p.transform),
        primary: given(e.primary, p.primary),
    }
}

/// The live outputs that a profile entry stands for.
pub open spec fn entry_hits(e: ProfileOutput, outputs: Seq<Output>) -> Seq<Output> {
    identity_hits(entry_identity(e), outputs)
}

/// The condition that a profile entry stands for more than one live output.
pub open spec fn entry_ambiguous(outputs: Seq<Output>) -> spec_fn(ProfileOutput) -> bool {
    |e: ProfileOutput| entry_hits(e, outputs).len() > 1
}

/// The planned outputs of a profile before normalization: the current state,
/// changed by each entry that stands for exactly one live output.
pub open spec fn profile_outputs(entries: Seq<ProfileOutput>, outputs: Seq<Output>) -> Seq<
    PlannedOutput,
>
    decreases entries.len(),
{
    if entries.len() == 0 {
        plans_as_is(outputs)
    } else {
        let before = profile_outputs(entries.drop_last(), outputs);
        let e = entries.last();
        let hits = entry_hits(e, outputs);
        if hits.len() != 1 {
            before
        } else {
            match first_where(plans_as_is(outputs), planned_at(hits[0].identity.connector@)) {
                Some(i) => before.update(i, with_entry(before[i], e, hits[0].modes@)),
                None => before,
            }
        }
    }
}

/// What one profile entry is warned of.
pub open spec fn entry_warnings(e: ProfileOutput, outputs: Seq<Output>) -> Seq<Warning> {
    let hits = entry_hits(e, outputs);
    if hits.len() == 0 {
        seq![Warning::NotConnected { connector: e.connector@ }]
    } else {
        let live = hits[0];
        (if live.identity.connector@ != e.connector@ {
            seq![
                Warning::ConnectorMigrated {
                    stored: e.connector@,
                    live: live.identity.connector@,
                },
            ]
        } else {
            Seq::empty()
        }) + (if e.mode is Some && pinned_mode(e.mode, live.modes@) is None {
            seq![
                Warning::ModeUnavailable { connector: live.identity.connector@, mode: e.mode->0@ },
            ]
        } else {
            Seq::empty()
        })
    }
}

/// What a profile is warned of, entry by entry.
pub open spec fn profile_warnings(entries: Seq<ProfileOutput>, outputs: Seq<Output>) -> Seq<Warning>
    decreases entries.len(),
{
    if entries.len() == 0 {
        Seq::empty()
    } else {
        profile_warnings(entries.drop_last(), outputs) + entry_warnings(entries.last(), outputs)
    }
}

/// The error about a profile entry that stands for several live outputs.
pub open spec fn entry_error(err: ResolveError, e: ProfileOutput, outputs: Seq<Output>) -> bool {
    match err {
        ResolveError::Ambiguous { target, candidates } => {
            &&& target@ == identity_text(entry_identity(e))
            &&& texts(candidates@) == connectors(entry_hits(e, outputs))
        },
        ResolveError::NotFound(_) => false,
    }
}

/// The condition that a profile entry settles the drift check: it is
/// ambiguous, or its display is not in the wanted state.
pub open spec fn entry_settles(outputs: Seq<Output>) -> spec_fn(ProfileOutput) -> bool {
    |e: ProfileOutput|
        {
            let hits = entry_hits(e, outputs);
            hits.len() > 1 || (hits.len() == 1 && hits[0].enabled != e.enabled)
        }
}

/// Whether live outputs satisfy a profile, as the drift check sees it.
pub open spec fn satisfaction(
    r: Result<bool, ResolveError>,
    entries: Seq<ProfileOutput>,
    outputs: Seq<Output>,
) -> bool {
    match first_where(entries, entry_settles(outputs)) {
        Some(i) => if entry_hits(entries[i], outputs).len() > 1 {
            r is Err && entry_error(r->Err_0, entries[i], outputs)
        } else {
            r == Ok::<bool, ResolveError>(false)
        },
        None => r == Ok::<bool, ResolveError>(true),
    }
}

/// A profile entry at the connector where its display is now.
pub open spec fn migrated_entry(e: ProfileOutput, outputs: Seq<Output>) -> ProfileOutput {
    let hits = entry_hits(e, outputs);
    if hits.len() == 1 && hits[0].identity.connector@ != e.connector@ {
        ProfileOutput { connector: hits[0].identity.connector, ..e }
    } else {
        e
    }
}

/// Whether the display of a profile entry is at another connector than stored.
pub open spec fn entry_moved(e: ProfileOutput, outputs: Seq<Output>) -> bool {
    let hits = entry_hits(e, outputs);
    hits.len() == 1 && hits[0].identity.connector@ != e.connector@
}

/// Whether the display of any profile entry is at another connector than stored.
pub open spec fn any_moved(entries: Seq<ProfileOutput>, outputs: Seq<Output>) -> bool {
    exists|i: int| 0 <= i < entries.len() && entry_moved(#[trigger] entries[i], outputs)
}

/// Profile entries at the connectors where their displays are now.
pub open spec fn migrated(entries: Seq<ProfileOutput>, outputs: Seq<Output>) -> Seq<ProfileOutput> {
    entries.map_values(|e: ProfileOutput| migrated_entry(e, outputs))
}

proof fn moved_among_more(entries: Seq<ProfileOutput>, e: ProfileOutput, outputs: Seq<Output>)
    ensures
        any_moved(entries.push(e), outputs) == (any_moved(entries, outputs) || entry_moved(
            e,
            outputs,
        )),
{
    let all = entries.push(e);
    if any_moved(entries, outputs) {
        let i = choose|i: int|
            0 <= i < entries.len() && entry_moved(#[trigger] entries[i], outputs);
        assert(entry_moved(all[i], outputs));
    }
    if entry_moved(e, outputs) {
        assert(entry_moved(all[entries.len() as int], outputs));
    }
    if any_moved(all, outputs) {
        let i = choose|i: int| 0 <= i < all.len() && entry_moved(#[trigger] all[i], outputs);
        if i < entries.len() {
            assert(entry_moved(entries[i], outputs));
        }
    }
}

/// A migrated entry stands for the same outputs as before.
pub proof fn migrated_entry_hits(e: ProfileOutput, outputs: Seq<Output>)
    ensures
        entry_hits(migrated_entry(e, outputs), outputs) == entry_hits(e, outputs),
{
    let hits = entry_hits(e, outputs);
    if hits.len() == 1 && hits[0].identity.connector@ != e.connector@ {
        let before = matches_at(entry_identity(e), MatchQuality::Edid);
        let after = matches_at(
            entry_identity(migrated_entry(e, outputs)),
            MatchQuality::Edid,
        );
        if outputs.filter(before).len() == 0 {
            filter_meets(outputs, matches_at(entry_identity(e), MatchQuality::Connector), 0);
        }
        assert(before =~= after);
    }
}

/// Once a profile has followed its displays to their connectors, it asks for the
/// same layout as before, and no display is at another connector than stored.
pub proof fn migrated_profile_asks_for_the_same(
    entries: Seq<ProfileOutput>,
    outputs: Seq<Output>,
)
    requires
        first_where(entries, entry_ambiguous(outputs)) is None,
    ensures
        first_where(migrated(entries, outputs), entry_ambiguous(outputs)) is None,
        profile_outputs(migrated(entries, outputs), outputs) == profile_outputs(entries, outputs),
        forall|k: int|
            0 <= k < profile_warnings(migrated(entries, outputs), outputs).len() ==> !((
            #[trigger] profile_warnings(migrated(entries, outputs), outputs)[k])
                is ConnectorMigrated),
    decreases entries.len(),
{
    let moved = migrated(entries, outputs);
    first_where_facts(entries, entry_ambiguous(outputs));
    assert forall|i: int| 0 <= i < moved.len() implies !entry_ambiguous(outputs)(
        #[trigger] moved[i],
    ) by {
        migrated_entry_hits(entries[i], outputs);
        assert(!entry_ambiguous(outputs)(entries[i]));
    }
    first_where_none(moved, entry_ambiguous(outputs));
    if entries.len() > 0 {
        let rest = entries.drop_last();
        let e = entries.last();
        assert(moved.drop_last() =~= migrated(rest, outputs));
        assert(moved.last() == migrated_entry(e, outputs));
        assert forall|i: int| 0 <= i < rest.len() implies !entry_ambiguous(outputs)(
            #[trigger] rest[i],
        ) by {
            assert(!entry_ambiguous(outputs)(entries[i]));
        }
        first_where_none(rest, entry_ambiguous(outputs));
        migrated_profile_asks_for_the_same(rest, outputs);
        migrated_entry_hits(e, outputs);
        let before = profile_warnings(migrated(rest, outputs), outputs);
        let added = entry_warnings(moved.last(), outputs);
        let all = profile_warnings(moved, outputs);
        assert forall|k: int| 0 <= k < all.len() implies !((#[trigger] all[k])
            is ConnectorMigrated) by {
            if k < before.len() {
                assert(all[k] == before[k]);
            } else {
                assert(all[k] == added[k - before.len()]);
            }
        }
    }
}

/// The entry that captures an output.
pub open spec fn captures(e: ProfileOutput, o: Output) -> bool {
    &&& e.alias == o.alias
    &&& e.edid == o.identity.edid
    &&& e.connector == o.identity.connector
    &&& e.enabled == o.enabled
    &&& match (e.mode, o.mode) {
        (Some(text), Some(m)) => text@ == mode_text(m),
        (None, None) => true,
        _ => false,
    }
    &&& e.position == Some(o.position)
    &&& e.scale == Some(o.scale)
    &&& e.transform == Some(o.transform)
    &&& e.primary == Some(o.primary)
}

proof fn profile_outputs_shape(entries: Seq<ProfileOutput>, outputs: Seq<Output>)
    ensures
        profile_outputs(entries, outputs).len() == outputs.len(),
        forall|i: int|
            0 <= i < outputs.len() ==> (#[trigger] profile_outputs(entries, outputs)[i]).identity
                == outputs[i].identity,
    decreases entries.len(),
{
    if entries.len() > 0 {
        profile_outputs_shape(entries.drop_last(), outputs);
        let hits = entry_hits(entries.last(), outputs);
        if hits.len() == 1 {
            first_where_facts(plans_as_is(outputs), planned_at(hits[0].identity.connector@));
        }
    }
}

proof fn same_connectors_first(
    a: Seq<PlannedOutput>,
    b: Seq<PlannedOutput>,
    connector: Seq<char>,
)
    requires
        a.len() == b.len(),
        forall|i: int| 0 <= i < a.len() ==> (#[trigger] a[i]).identity == b[i].identity,
    ensures
        first_where(a, planned_at(connector)) == first_where(b, planned_at(connector)),
{
    first_where_facts(a, planned_at(connector));
    first_where_facts(b, planned_at(connector));
    match first_where(b, planned_at(connector)) {
        Some(i) => {
            assert(a[i].identity == b[i].identity);
            assert forall|j: int| 0 <= j < i implies !planned_at(connector)(a[j]) by {
                assert(a[j].identity == b[j].identity);
                assert(!planned_at(connector)(b[j]));
            }
            first_where_is(a, planned_at(connector), i);
        },
        None => {
            assert forall|j: int| 0 <= j < a.len() implies !planned_at(connector)(a[j]) by {
                assert(a[j].identity == b[j].identity);
                assert(!planned_at(connector)(b[j]));
            }
            first_where_none(a, planned_at(connector));
        },
    }
}

fn apply_entry(
    plan: &mut LayoutPlan,
    warnings: &mut Vec<ProfileWarning>,
    entry: &ProfileOutput,
    live: &Output,
    i: usize,
)
    requires
        i < old(plan).outputs@.len(),
    ensures
        final(plan).serial == old(plan).serial,
        final(plan).outputs@ == old(plan).outputs@.update(
            i as int,
            with_entry(old(plan).outputs@[i as int], *entry, live.modes@),
        ),
        warnings_of(final(warnings)@) == warnings_of(old(warnings)@) + (if live.identity.connector@
            != entry.connector@ {
            seq![
                Warning::ConnectorMigrated {
                    stored: entry.connector@,
                    live: live.identity.connector@,
                },
            ]
        } else {
            Seq::empty()
        }) + (if entry.mode is Some && pinned_mode(entry.mode, live.modes@) is None {
            seq![
                Warning::ModeUnavailable {
                    connector: live.identity.connector@,
                    mode: entry.mode->0@,
                },
            ]
        } else {
            Seq::empty()
        }),
{
    if !same_text(live.identity.connector.as_str(), entry.connector.as_str()) {
        warnings.push(
            ProfileWarning::ConnectorMigrated {
                stored: entry.connector.clone(),
                live: live.identity.connector.clone(),
            },
        );
        assert(warnings_of(warnings@) =~= warnings_of(old(warnings)@).push(
            Warning::ConnectorMigrated {
                stored: entry.connector@,
                live: live.identity.connector@,
            },
        ));
    }
    let ghost mid = warnings@;
    let mut planned = plan.outputs[i].clone();
    planned.enabled = entry.enabled;
    if let Some(text) = &entry.mode {
        let found: Option<Mode> = match ModeSpec::parse(text.as_str()) {
            Some(s) => s.best_match(live.modes.as_slice()),
            None => None,
        };
        match found {
            Some(mode) => {
                planned.mode = Some(mode);
            },
            None => {
                warnings.push(
                    ProfileWarning::ModeUnavailable {
                        connector: live.identity.connector.clone(),
                        mode: text.clone(),
                    },
                );
                assert(warnings_of(warnings@) =~= warnings_of(mid).push(
                    Warning::ModeUnavailable {
                        connector: live.identity.connector@,
                        mode: entry.mode->0@,
                    },
                ));
            },
        }
    }
    if let Some(pos) = entry.position {
        planned.position = pos;
    }
    if let Some(scale) = entry.scale {
        planned.scale = scale;
    }
    if let Some(t) = entry.transform {
        planned.transform = t;
    }
    if let Some(p) = entry.primary {
        planned.primary = p;
    }
    plan.outputs[i] = planned;
    assert(warnings_of(warnings@) =~= warnings_of(old(warnings)@) + (if live.identity.connector@
        != entry.connector@ {
        seq![
            Warning::ConnectorMigrated { stored: entry.connector@, live: live.identity.connector@ },
        ]
    } else {
        Seq::empty()
    }) + (if entry.mode is Some && pinned_mode(entry.mode, live.modes@) is None {
        seq![
            Warning::ModeUnavailable { connector: live.identity.connector@, mode: entry.mode->0@ },
        ]
    } else {
        Seq::empty()
    }));
}

proof fn hit_is_live(wanted: OutputIdentity, outputs: Seq<Output>)
    requires
        identity_hits(wanted, outputs).len() > 0,
    ensures
        exists|i: int| 0 <= i < outputs.len() && #[trigger] outputs[i] == identity_hits(
            wanted,
            outputs,
        )[0],
{
    filter_first(outputs, matches_at(wanted, MatchQuality::Edid));
    filter_first(outputs, matches_at(wanted, MatchQuality::Connector));
}

impl Profile {
    /// Capture the current topology as a full-layout profile.
    pub fn capture(name: &str, topology: &Topology) -> (r: Self)
        ensures
            r.name@ == name@,
            r.hotkey is None,
            r.audio is None,
            r.outputs@.len() == topology.outputs@.len(),
            forall|i: int|
                0 <= i < r.outputs@.len() ==> captures(
                    #[trigger] r.outputs@[i],
                    topology.outputs@[i],
                ),
    {
        let mut outputs: Vec<ProfileOutput> = Vec::new();
        for i in 0..topology.outputs.len()
            invariant
                outputs.len() == i,
                forall|j: int|
                    0 <= j < i ==> captures(#[trigger] outputs@[j], topology.outputs@[j]),
        {
            let o = &topology.outputs[i];
            outputs.push(
                ProfileOutput {
                    alias: copy_text(&o.alias),
                    edid: copy_edid(&o.identity.edid),
                    connector: o.identity.connector.clone(),
                    enabled: o.enabled,
                    mode: match o.mode {
                        Some(m) => Some(m.to_text()),
                        None => None,
                    },
                    position: Some(o.position),
                    scale: Some(o.scale),
                    transform: Some(o.transform),
                    primary: Some(o.primary),
                },
            );
        }
        Profile { name: name.to_owned(), hotkey: None, outputs, audio: None }
    }

    /// Take over the connectors that displays known by their EDID have moved
    /// to. Tells whether any has.
    pub fn migrate(&mut self, topology: &Topology) -> (r: bool)
        ensures
            final(self).name == old(self).name,
            final(self).hotkey == old(self).hotkey,
            final(self).audio == old(self).audio,
            final(self).outputs@ == migrated(old(self).outputs@, topology.outputs@),
            r == any_moved(old(self).outputs@, topology.outputs@),
    {
        let n = self.outputs.len();
        let ghost before = self.outputs@;
        let mut moved: bool = false;
        let mut i: usize = 0;
        while i < n
            invariant
                i <= n == before.len(),
                self.name == old(self).name,
                self.hotkey == old(self).hotkey,
                self.audio == old(self).audio,
                self.outputs@.len() == n,
                forall|j: int|
                    0 <= j < i ==> self.outputs@[j] == migrated_entry(
                        before[j],
                        topology.outputs@,
                    ),
                forall|j: int| i <= j < n ==> self.outputs@[j] == before[j],
                moved == any_moved(before.take(i as int), topology.outputs@),
            decreases n - i,
        {
            proof {
                moved_among_more(before.take(i as int), before[i as int], topology.outputs@);
                assert(before.take(i as int).push(before[i as int]) =~= before.take(i + 1));
            }
            if let Ok(Some(live)) = resolve_identity(
                &self.outputs[i].identity(),
                topology.outputs.as_slice(),
            ) {
                if !same_text(
                    live.identity.connector.as_str(),
                    self.outputs[i].connector.as_str(),
                ) {
                    self.outputs[i].connector = live.identity.connector.clone();
                    moved = true;
                }
            }
            i = i + 1;
        }
        assert(self.outputs@ =~= migrated(before, topology.outputs@));
        assert(before.take(n as int) =~= before);
        moved
    }

    fn resolve(&self, topology: &Topology) -> (r: Result<
        (LayoutPlan, Vec<ProfileWarning>),
        ResolveError,
    >)
        ensures
            match (r, first_where(self.outputs@, entry_ambiguous(topology.outputs@))) {
                (Ok((plan, warnings)), None) => {
                    &&& plan.serial == topology.serial
                    &&& plan.outputs@ == profile_outputs(self.outputs@, topology.outputs@)
                    &&& warnings_of(warnings@) == profile_warnings(self.outputs@, topology.outputs@)
                },
                (Err(e), Some(i)) => entry_error(e, self.outputs@[i], topology.outputs@),
                _ => false,
            },
    {
        let mut plan = LayoutPlan::from_topology(topology);
        let mut warnings: Vec<ProfileWarning> = Vec::new();
        let ghost entries = self.outputs@;
        let ghost live_outputs = topology.outputs@;
        assert(warnings_of(warnings@) =~= Seq::<Warning>::empty());
        assert(entries.take(0) =~= Seq::<ProfileOutput>::empty());
        for k in 0..self.outputs.len()
            invariant
                entries == self.outputs@,
                live_outputs == topology.outputs@,
                plan.serial == topology.serial,
                plan.outputs@ == profile_outputs(entries.take(k as int), live_outputs),
                warnings_of(warnings@) == profile_warnings(entries.take(k as int), live_outputs),
                forall|j: int| 0 <= j < k ==> !entry_ambiguous(live_outputs)(entries[j]),
        {
            let entry = &self.outputs[k];
            proof {
                assert(entries.take(k + 1).drop_last() =~= entries.take(k as int));
                assert(entries.take(k + 1).last() == entries[k as int]);
            }
            match resolve_identity(&entry.identity(), topology.outputs.as_slice()) {
                Err(e) => {
                    proof {
                        first_where_is(entries, entry_ambiguous(live_outputs), k as int);
                    }
                    return Err(e);
                },
                Ok(None) => {
                    let ghost before = warnings@;
                    warnings.push(
                        ProfileWarning::NotConnected { connector: entry.connector.clone() },
                    );
                    assert(warnings_of(warnings@) =~= warnings_of(before)
                        + entry_warnings(*entry, live_outputs));
                },
                Ok(Some(live)) => {
                    proof {
                        hit_is_live(entry_identity(*entry), live_outputs);
                        profile_outputs_shape(entries.take(k as int), live_outputs);
                        same_connectors_first(
                            plan.outputs@,
                            plans_as_is(live_outputs),
                            live.identity.connector@,
                        );
                        let w = choose|w: int|
                            0 <= w < live_outputs.len() && #[trigger] live_outputs[w] == *live;
                        first_where_facts(
                            plan.outputs@,
                            planned_at(live.identity.connector@),
                        );
                        assert(plan.outputs@[w].identity == live_outputs[w].identity);
                        assert(planned_at(live.identity.connector@)(plan.outputs@[w]));
                    }
                    if let Some(i) = plan.index_of_connector(live.identity.connector.as_str()) {
                        let ghost before = warnings_of(warnings@);
                        apply_entry(&mut plan, &mut warnings, entry, live, i);
                        assert(warnings_of(warnings@) =~= before + entry_warnings(
                            *entry,
                            live_outputs,
                        ));
                    }
                },
            }
        }
        assert(entries.take(entries.len() as int) =~= entries);
        proof {
            first_where_none(entries, entry_ambiguous(live_outputs));
        }
        Ok((plan, warnings))
    }

    /// Whether the layout of this profile lies close enough together to be
    /// moved to the origin (see [`Profile::to_plan`]); always so for a profile
    /// that does not resolve.
    pub fn layout_fits(&self, topology: &Topology) -> (r: bool)
        ensures
            r == (first_where(self.outputs@, entry_ambiguous(topology.outputs@)) is None
                ==> spread_fits(profile_outputs(self.outputs@, topology.outputs@))),
    {
        match self.resolve(topology) {
            Ok((plan, _)) => spread_within(&plan),
            Err(_) => true,
        }
    }

    /// Resolve this profile against a live topology into an applicable plan.
    ///
    /// Outputs the profile doesn't name keep their current state; entries for
    /// disconnected displays produce warnings, not errors. Ambiguity (two live
    /// outputs matching one entry) is a hard error.
    pub fn to_plan(&self, topology: &Topology) -> (r: Result<
        (LayoutPlan, Vec<ProfileWarning>),
        ResolveError,
    >)
        requires
            first_where(self.outputs@, entry_ambiguous(topology.outputs@)) is None ==> spread_fits(
                profile_outputs(self.outputs@, topology.outputs@),
            ),
        ensures
            match (r, first_where(self.outputs@, entry_ambiguous(topology.outputs@))) {
                (Ok((plan, warnings)), None) => {
                    &&& plan.serial == topology.serial
                    &&& plan.outputs@ == normalized(
                        profile_outputs(self.outputs@, topology.outputs@),
                    )
                    &&& warnings_of(warnings@) == profile_warnings(self.outputs@, topology.outputs@)
                },
                (Err(e), Some(i)) => entry_error(e, self.outputs@[i], topology.outputs@),
                _ => false,
            },
    {
        match self.resolve(topology) {
            Ok((plan, warnings)) => {
                let mut plan = plan;
                normalize(&mut plan);
                Ok((plan, warnings))
            },
            Err(e) => Err(e),
        }
    }

    /// Whether the live topology already satisfies this profile's demands
    /// (used for drift detection). Only enabled-state is compared; mode and
    /// position drift is tolerated: on/off is what NoSignal owns.
    pub fn is_satisfied_by(&self, topology: &Topology) -> (r: Result<bool, ResolveError>)
        ensures
            satisfaction(r, self.outputs@, topology.outputs@),
    {
        for k in 0..self.outputs.len()
            invariant
                forall|j: int|
                    0 <= j < k ==> !entry_settles(topology.outputs@)(self.outputs@[j]),
        {
            let entry = &self.outputs[k];
            match resolve_identity(&entry.identity(), topology.outputs.as_slice()) {
                Err(e) => {
                    proof {
                        first_where_is(
                            self.outputs@,
                            entry_settles(topology.outputs@),
                            k as int,
                        );
                    }
                    return Err(e);
                },
                Ok(Some(live)) => {
                    if live.enabled != entry.enabled {
                        proof {
                            first_where_is(
                                self.outputs@,
                                entry_settles(topology.outputs@),
                                k as int,
                            );
                        }
                        return Ok(false);
                    }
                },
                Ok(None) => {},
            }
        }
        proof {
            first_where_none(self.outputs@, entry_settles(topology.outputs@));
        }
        Ok(true)
    }
}

/// Why a profile store cannot be used.
#[derive(Debug, PartialEq, Eq)]
pub enum StoreError {
    Io(String),
    Parse(String),
    Serialize(String),
    SchemaTooNew { found: u32, supported: u32 },
}

/// What a store error says to the user.
pub open spec fn store_message(e: StoreError) -> Seq<char> {
    match e {
        StoreError::Io(m) => "failed to read profile store: "@ + m@,
        StoreError::Parse(m) => "profile store is not valid TOML: "@ + m@,
        StoreError::Serialize(m) => "failed to serialize profile store: "@ + m@,
        StoreError::SchemaTooNew { found, supported } => "profile store schema version "@ + decimal(
            found as nat,
        ) + " is newer than supported ("@ + decimal(supported as nat) + "); upgrade NoSignal"@,
    }
}

impl StoreError {
    /// The error's message.
    pub fn message(&self) -> (r: String)
        ensures
            r@ == store_message(*self),
    {
        match self {
            StoreError::Io(m) => join2("failed to read profile store: ", m.as_str()),
            StoreError::Parse(m) => join2("profile store is not valid TOML: ", m.as_str()),
            StoreError::Serialize(m) => join2("failed to serialize profile store: ", m.as_str()),
            StoreError::SchemaTooNew { found, supported } => {
                let mut s = "profile store schema version ".to_owned();
                push_decimal(&mut s, *found as u64);
                s.append(" is newer than supported (");
                push_decimal(&mut s, *supported as u64);
                s.append("); upgrade NoSignal");
                s
            },
        }
    }
}

/// The condition that a profile has the given name.
pub open spec fn named(name: Seq<char>) -> spec_fn(Profile) -> bool {
    |p: Profile| p.name@ == name
}

/// The condition that a profile has another name.
pub open spec fn not_named(name: Seq<char>) -> spec_fn(Profile) -> bool {
    |p: Profile| p.name@ != name
}

/// The profiles with one more: in place of the first with its name, or at the
/// end.
pub open spec fn with_profile(s: Seq<Profile>, p: Profile) -> Seq<Profile> {
    match first_where(s, named(p.name@)) {
        Some(i) => s.update(i, p),
        None => s.push(p),
    }
}

impl ProfileStore {
    /// A store that was read, unless its schema is newer than this library.
    pub fn accept(self) -> (r: Result<Self, StoreError>)
        ensures
            match r {
                Ok(store) => self.schema_version <= SCHEMA_VERSION && store == self,
                Err(e) => {
                    &&& self.schema_version > SCHEMA_VERSION
                    &&& e == (StoreError::SchemaTooNew {
                        found: self.schema_version,
                        supported: SCHEMA_VERSION,
                    })
                },
            },
    {
        if self.schema_version > SCHEMA_VERSION {
            return Err(
                StoreError::SchemaTooNew {
                    found: self.schema_version,
                    supported: SCHEMA_VERSION,
                },
            );
        }
        Ok(self)
    }

    /// Index of the first profile with the given name.
    pub fn index_of(&self, name: &str) -> (r: Option<usize>)
        ensures
            match (r, first_where(self.profiles@, named(name@))) {
                (Some(i), Some(want)) => i == want && i < self.profiles@.len(),
                (None, None) => true,
                _ => false,
            },
    {
        for i in 0..self.profiles.len()
            invariant
                forall|j: int| 0 <= j < i ==> !named(name@)(self.profiles@[j]),
        {
            if same_text(self.profiles[i].name.as_str(), name) {
                proof {
                    first_where_is(self.profiles@, named(name@), i as int);
                }
                return Some(i);
            }
        }
        proof {
            first_where_none(self.profiles@, named(name@));
        }
        None
    }

    /// The first profile with the given name.
    pub fn find(&self, name: &str) -> (r: Option<&Profile>)
        ensures
            match (r, find_where(self.profiles@, named(name@))) {
                (Some(p), Some(want)) => *p == want,
                (None, None) => true,
                _ => false,
            },
    {
        match self.index_of(name) {
            Some(i) => Some(&self.profiles[i]),
            None => None,
        }
    }

    /// Insert or replace a profile by name.
    pub fn upsert(&mut self, profile: Profile)
        ensures
            final(self).schema_version == old(self).schema_version,
            final(self).profiles@ == with_profile(old(self).profiles@, profile),
    {
        match self.index_of(profile.name.as_str()) {
            Some(i) => {
                self.profiles[i] = profile;
            },
            None => {
                self.profiles.push(profile);
            },
        }
    }

    /// Remove every profile with the given name; `false` when there is none.
    pub fn remove(&mut self, name: &str) -> (r: bool)
        ensures
            final(self).schema_version == old(self).schema_version,
            final(self).profiles@ == old(self).profiles@.filter(not_named(name@)),
            r == (first_where(old(self).profiles@, named(name@)) is Some),
    {
        let ghost all = self.profiles@;
        let n = self.profiles.len();
        let mut k: usize = 0;
        let mut i: usize = 0;
        proof {
            assert(all.take(0) =~= Seq::<Profile>::empty());
            reveal(Seq::filter);
            assert(self.profiles@ =~= all.take(0).filter(not_named(name@)) + all.skip(0));
        }
        while k < n
            invariant
                k <= n == all.len(),
                i <= k,
                self.schema_version == old(self).schema_version,
                i == all.take(k as int).filter(not_named(name@)).len(),
                self.profiles@ == all.take(k as int).filter(not_named(name@)) + all.skip(k as int),
                i == k ==> (forall|j: int| 0 <= j < k ==> !named(name@)(all[j])),
                i < k ==> (exists|j: int| 0 <= j < k && named(name@)(all[j])),
            decreases n - k,
        {
            let ghost kept = all.take(k as int).filter(not_named(name@));
            proof {
                filter_push(all.take(k as int), not_named(name@), all[k as int]);
                assert(all.take(k as int).push(all[k as int]) =~= all.take(k + 1));
                assert(all.skip(k as int)[0] == all[k as int]);
                assert(self.profiles@[i as int] == all[k as int]);
            }
            if same_text(self.profiles[i].name.as_str(), name) {
                self.profiles.remove(i);
                assert(self.profiles@ =~= kept + all.skip(k + 1));
                assert(named(name@)(all[k as int]));
            } else {
                assert(self.profiles@ =~= kept.push(all[k as int]) + all.skip(k + 1));
                i = i + 1;
            }
            k = k + 1;
        }
        proof {
            assert(all.take(n as int) =~= all);
            assert(self.profiles@ =~= all.filter(not_named(name@)));
            first_where_facts(all, named(name@));
        }
        i != n
    }
}

// --------------------------------------------------------------------- laws

/// A stored profile is found under its name, and storing it leaves what is
/// found under every other name alone.
pub proof fn stored_profile_is_found(s: Seq<Profile>, p: Profile, other: Seq<char>)
    ensures
        find_where(with_profile(s, p), named(p.name@)) == Some(p),
        other != p.name@ ==> find_where(with_profile(s, p), named(other)) == find_where(
            s,
            named(other),
        ),
{
    let t = with_profile(s, p);
    first_where_facts(s, named(p.name@));
    let k = match first_where(s, named(p.name@)) {
        Some(i) => i,
        None => s.len() as int,
    };
    assert(t[k] == p);
    assert forall|j: int| 0 <= j < k implies !named(p.name@)(t[j]) by {
        assert(t[j] == s[j]);
        assert(!named(p.name@)(s[j]));
    }
    first_where_is(t, named(p.name@), k);
    if other != p.name@ {
        first_where_facts(s, named(other));
        match first_where(s, named(other)) {
            Some(i) => {
                assert(t[i] == s[i]);
                assert forall|j: int| 0 <= j < i implies !named(other)(t[j]) by {
                    assert(!named(other)(s[j]));
                }
                first_where_is(t, named(other), i);
            },
            None => {
                assert forall|j: int| 0 <= j < t.len() implies !named(other)(t[j]) by {
                    if j < s.len() {
                        assert(!named(other)(s[j]));
                    }
                }
                first_where_none(t, named(other));
            },
        }
    }
}

/// A removed profile is no longer found.
pub proof fn removed_profile_is_gone(s: Seq<Profile>, name: Seq<char>)
    ensures
        find_where(s.filter(not_named(name)), named(name)) is None,
    decreases s.len(),
{
    let t = s.filter(not_named(name));
    assert forall|j: int| 0 <= j < t.len() implies !named(name)(t[j]) by {
        filter_meets(s, not_named(name), j);
    }
    first_where_none(t, named(name));
}

/// Outputs that no entry stands for keep their current state.
pub proof fn unnamed_outputs_keep_their_state(
    entries: Seq<ProfileOutput>,
    outputs: Seq<Output>,
    i: int,
)
    requires
        0 <= i < outputs.len(),
        forall|k: int|
            0 <= k < entries.len() && entry_hits(#[trigger] entries[k], outputs).len() == 1
                ==> entry_hits(entries[k], outputs)[0].identity.connector@
                != outputs[i].identity.connector@,
    ensures
        profile_outputs(entries, outputs)[i] == planned_as_is(outputs[i]),
    decreases entries.len(),
{
    if entries.len() > 0 {
        let t = entries.drop_last();
        assert forall|k: int|
            0 <= k < t.len() && entry_hits(#[trigger] t[k], outputs).len() == 1 implies entry_hits(
            t[k],
            outputs,
        )[0].identity.connector@ != outputs[i].identity.connector@ by {
            assert(t[k] == entries[k]);
        }
        unnamed_outputs_keep_their_state(t, outputs, i);
        profile_outputs_shape(t, outputs);
        let hits = entry_hits(entries[entries.len() - 1], outputs);
        if hits.len() == 1 {
            first_where_facts(plans_as_is(outputs), planned_at(hits[0].identity.connector@));
            assert(plans_as_is(outputs)[i].identity == outputs[i].identity);
        }
    }
}

/// How a captured output comes back: as it was, except that an output captured
/// without a mode takes the one it has now.
pub open spec fn replayed(was: Output, is: Output) -> PlannedOutput {
    PlannedOutput {
        mode: mode_or(was.mode, planned_as_is(is).mode),
        ..planned_as_is(was)
    }
}

proof fn distinct_hit(outputs: Seq<Output>, i: int)
    requires
        distinct_displays(outputs),
        0 <= i < outputs.len(),
    ensures
        identity_hits(outputs[i].identity, outputs) == seq![outputs[i]],
{
    let id = outputs[i].identity;
    let q = quality(id, id);
    assert forall|j: int| 0 <= j < outputs.len() && j != i implies !matches_at(
        id,
        MatchQuality::Edid,
    )(outputs[j]) && !matches_at(id, MatchQuality::Connector)(outputs[j]) by {}
    filter_single(outputs, matches_at(id, q), i);
    if q == MatchQuality::Connector {
        filter_none(outputs, matches_at(id, MatchQuality::Edid));
    }
}

/// A captured layout comes back: as long as the same distinct displays are
/// connected and still advertise their captured modes, the profile resolves
/// without a warning to the layout that was captured.
pub proof fn captured_layout_comes_back(
    was: Seq<Output>,
    entries: Seq<ProfileOutput>,
    is: Seq<Output>,
)
    requires
        same_displays(is, was),
        distinct_displays(was),
        entries.len() == was.len(),
        forall|i: int| 0 <= i < was.len() ==> captures(#[trigger] entries[i], was[i]),
        forall|i: int|
            0 <= i < was.len() && (#[trigger] was[i]).mode is Some ==> is[i].modes@.contains(
                was[i].mode->0,
            ),
        forall|i: int| 0 <= i < was.len() ==> scale_positive((#[trigger] was[i]).scale),
    ensures
        first_where(entries, entry_ambiguous(is)) is None,
        profile_warnings(entries, is) == Seq::<Warning>::empty(),
        profile_outputs(entries, is).len() == was.len(),
        forall|i: int|
            0 <= i < was.len() ==> #[trigger] profile_outputs(entries, is)[i] == replayed(
                was[i],
                is[i],
            ),
{
    assert(distinct_displays(is)) by {
        assert forall|i: int, j: int|
            0 <= i < is.len() && 0 <= j < is.len() && i != j implies !matching(
            (#[trigger] is[i]).identity,
            (#[trigger] is[j]).identity,
        ) by {
            assert(!matching(was[i].identity, was[j].identity));
        }
    }
    assert forall|i: int| 0 <= i < entries.len() implies entry_hits(#[trigger] entries[i], is)
        == seq![is[i]] by {
        assert(captures(entries[i], was[i]));
        assert(is[i].identity == was[i].identity);
        assert(entry_identity(entries[i]) == is[i].identity);
        distinct_hit(is, i);
    }
    assert forall|i: int| 0 <= i < entries.len() implies !entry_ambiguous(is)(entries[i]) by {
        assert(entry_hits(entries[i], is) == seq![is[i]]);
    }
    first_where_none(entries, entry_ambiguous(is));
    replay(was, entries, is, entries.len() as int);
    assert(entries.take(entries.len() as int) =~= entries);
}

proof fn replay(was: Seq<Output>, entries: Seq<ProfileOutput>, is: Seq<Output>, n: int)
    requires
        0 <= n <= entries.len(),
        same_displays(is, was),
        distinct_displays(is),
        entries.len() == was.len(),
        forall|i: int| 0 <= i < was.len() ==> captures(#[trigger] entries[i], was[i]),
        forall|i: int|
            0 <= i < was.len() && (#[trigger] was[i]).mode is Some ==> is[i].modes@.contains(
                was[i].mode->0,
            ),
        forall|i: int| 0 <= i < was.len() ==> scale_positive((#[trigger] was[i]).scale),
        forall|i: int|
            0 <= i < entries.len() ==> entry_hits(#[trigger] entries[i], is) == seq![is[i]],
    ensures
        profile_warnings(entries.take(n), is) == Seq::<Warning>::empty(),
        profile_outputs(entries.take(n), is).len() == was.len(),
        forall|i: int|
            0 <= i < n ==> #[trigger] profile_outputs(entries.take(n), is)[i] == replayed(
                was[i],
                is[i],
            ),
        forall|i: int|
            n <= i < was.len() ==> #[trigger] profile_outputs(entries.take(n), is)[i]
                == planned_as_is(is[i]),
    decreases n,
{
    if n > 0 {
        replay(was, entries, is, n - 1);
        let t = entries.take(n);
        let k = n - 1;
        assert(t.drop_last() =~= entries.take(k));
        assert(t.last() == entries[k]);
        let e = entries[k];
        assert(captures(e, was[k]));
        assert(entry_hits(e, is) == seq![is[k]]);
        assert(is[k].identity == was[k].identity);
        let base = plans_as_is(is);
        let c = is[k].identity.connector@;
        assert forall|j: int| 0 <= j < k implies !planned_at(c)(base[j]) by {
            assert(!matching(is[j].identity, is[k].identity));
        }
        first_where_is(base, planned_at(c), k);
        if was[k].mode is Some {
            let m = was[k].mode->0;
            let modes = is[k].modes@;
            assert(modes.contains(m));
            advertised_mode_is_found_again(m, modes);
            assert(pinned_mode(e.mode, modes) == Some(m));
        }
        assert(entry_warnings(e, is) =~= Seq::<Warning>::empty());
        assert(profile_warnings(t, is) =~= Seq::<Warning>::empty());
        let before = profile_outputs(entries.take(k), is);
        assert(before[k] == planned_as_is(is[k]));
        assert(scale_positive(was[k].scale));
        assert(with_entry(before[k], e, is[k].modes@) == replayed(was[k], is[k]));
        assert(profile_outputs(t, is) == before.update(k, replayed(was[k], is[k])));
        assert forall|i: int| 0 <= i < n implies #[trigger] profile_outputs(t, is)[i] == replayed(
            was[i],
            is[i],
        ) by {
            if i < k {
                assert(before[i] == replayed(was[i], is[i]));
            }
        }
        assert forall|i: int| n <= i < was.len() implies #[trigger] profile_outputs(t, is)[i]
            == planned_as_is(is[i]) by {
            assert(before[i] == planned_as_is(is[i]));
        }
    } else {
        assert(entries.take(0) =~= Seq::<ProfileOutput>::empty());
    }
}

/// Where an identity is found depends on the identities of the outputs alone.
proof fn hits_alike(id: OutputIdentity, a: Seq<Output>, b: Seq<Output>)
    requires
        same_displays(a, b),
    ensures
        identity_hits(id, a).len() == identity_hits(id, b).len(),
        identity_hits(id, a).len() == 1 ==> exists|j: int|
            0 <= j < a.len() && a[j] == identity_hits(id, a)[0] && #[trigger] b[j]
                == identity_hits(id, b)[0],
{
    let by_edid = matches_at(id, MatchQuality::Edid);
    let by_connector = matches_at(id, MatchQuality::Connector);
    filters_alike(a, b, by_edid);
    filters_alike(a, b, by_connector);
    if identity_hits(id, a).len() == 1 {
        let p = if a.filter(by_edid).len() > 0 {
            by_edid
        } else {
            by_connector
        };
        assert(identity_hits(id, a) == a.filter(p) && identity_hits(id, b) == b.filter(p));
        let j = choose|j: int|
            0 <= j < a.len() && a[j] == a.filter(p)[0] && #[trigger] b[j] == b.filter(p)[0];
        assert(a[j] == identity_hits(id, a)[0] && b[j] == identity_hits(id, b)[0]);
    }
}

/// Whether two entries that stand for the same output ask for the same state.
pub open spec fn no_conflict(entries: Seq<ProfileOutput>, outputs: Seq<Output>) -> bool {
    forall|a: int, b: int|
        0 <= a < entries.len() && 0 <= b < entries.len() && entry_hits(
            #[trigger] entries[a],
            outputs,
        ).len() == 1 && entry_hits(#[trigger] entries[b], outputs) == entry_hits(
            entries[a],
            outputs,
        ) ==> entries[a].enabled == entries[b].enabled
}

proof fn entry_is_planned(entries: Seq<ProfileOutput>, outputs: Seq<Output>, k: int, j: int)
    requires
        0 <= k < entries.len(),
        0 <= j < outputs.len(),
        entry_hits(entries[k], outputs) == seq![outputs[j]],
        distinct_connectors(outputs),
        no_conflict(entries, outputs),
    ensures
        profile_outputs(entries, outputs)[j].enabled == entries[k].enabled,
    decreases entries.len(),
{
    let t = entries.drop_last();
    let base = plans_as_is(outputs);
    let last = entries.len() - 1;
    let e = entries[last];
    let hits = entry_hits(e, outputs);
    profile_outputs_shape(t, outputs);
    assert forall|i: int| 0 <= i < outputs.len() implies first_where(
        base,
        planned_at(#[trigger] outputs[i].identity.connector@),
    ) == Some(i) by {
        let c = outputs[i].identity.connector@;
        assert forall|m: int| 0 <= m < i implies !planned_at(c)(base[m]) by {
            assert(outputs[m].identity.connector@ != outputs[i].identity.connector@);
        }
        first_where_is(base, planned_at(c), i);
    }
    if hits.len() == 1 && hits[0] == outputs[j] {
        assert(hits =~= seq![outputs[j]]);
        assert(entry_hits(entries[k], outputs) == entry_hits(entries[last], outputs));
        assert(first_where(base, planned_at(outputs[j].identity.connector@)) == Some(j));
        assert(entries[k].enabled == entries[last].enabled);
    } else {
        assert(k < last);
        assert forall|a: int, b: int|
            0 <= a < t.len() && 0 <= b < t.len() && entry_hits(#[trigger] t[a], outputs).len() == 1
                && entry_hits(#[trigger] t[b], outputs) == entry_hits(t[a], outputs) implies t[a].enabled
            == t[b].enabled by {
            assert(t[a] == entries[a] && t[b] == entries[b]);
        }
        assert(t[k] == entries[k]);
        entry_is_planned(t, outputs, k, j);
        if hits.len() == 1 {
            filters_hold(e, outputs);
            let i = choose|i: int| 0 <= i < outputs.len() && outputs[i] == hits[0];
            assert(first_where(base, planned_at(outputs[i].identity.connector@)) == Some(i));
            assert(i != j);
        }
    }
}

/// What an entry stands for are live outputs.
proof fn filters_hold(e: ProfileOutput, outputs: Seq<Output>)
    requires
        entry_hits(e, outputs).len() == 1,
    ensures
        outputs.contains(entry_hits(e, outputs)[0]),
{
    filters_alike(outputs, outputs, matches_at(entry_identity(e), MatchQuality::Edid));
    filters_alike(outputs, outputs, matches_at(entry_identity(e), MatchQuality::Connector));
}

/// Once the displays are in the state that a profile planned for them, no entry
/// asks for anything else.
pub proof fn applied_entries_are_settled(
    entries: Seq<ProfileOutput>,
    before: Seq<Output>,
    after: Seq<Output>,
)
    requires
        first_where(entries, entry_ambiguous(before)) is None,
        no_conflict(entries, before),
        distinct_connectors(before),
        same_displays(after, before),
        forall|i: int|
            0 <= i < after.len() ==> (#[trigger] after[i]).enabled == normalized(
                profile_outputs(entries, before),
            )[i].enabled,
    ensures
        first_where(entries, entry_settles(after)) is None,
{
    first_where_facts(entries, entry_ambiguous(before));
    profile_outputs_shape(entries, before);
    assert forall|k: int| 0 <= k < entries.len() implies !entry_settles(after)(entries[k]) by {
        let e = entries[k];
        let id = entry_identity(e);
        hits_alike(id, after, before);
        assert(!entry_ambiguous(before)(e));
        if entry_hits(e, after).len() == 1 {
            let j = choose|j: int|
                0 <= j < after.len() && after[j] == entry_hits(e, after)[0] && #[trigger] before[j]
                    == entry_hits(e, before)[0];
            assert(entry_hits(e, before) =~= seq![before[j]]);
            entry_is_planned(entries, before, k, j);
            let plan = profile_outputs(entries, before);
            assert(normalized(plan)[j].enabled == plan[j].enabled);
            assert(after[j].enabled == normalized(plan)[j].enabled);
        }
    }
    first_where_none(entries, entry_settles(after));
}

/// Once the displays are in the state that a profile planned for them, the
/// profile is satisfied and nothing more is to be asserted. Two entries that
/// ask different states of one display cannot both be satisfied.
pub proof fn applied_profile_is_satisfied(
    entries: Seq<ProfileOutput>,
    before: Seq<Output>,
    after: Seq<Output>,
    r: Result<bool, ResolveError>,
)
    requires
        first_where(entries, entry_ambiguous(before)) is None,
        no_conflict(entries, before),
        distinct_connectors(before),
        same_displays(after, before),
        forall|i: int|
            0 <= i < after.len() ==> (#[trigger] after[i]).enabled == normalized(
                profile_outputs(entries, before),
            )[i].enabled,
        satisfaction(r, entries, after),
    ensures
        r == Ok::<bool, ResolveError>(true),
{
    applied_entries_are_settled(entries, before, after);
}

/// Where a profile entry names one live output, that output is planned as the entry
/// says: what the entry gives is given, and what it leaves open stays as it is on
/// the live output. A mode that is asked for is the best advertised one of its
/// size, if there is any.
pub proof fn entry_changes_what_it_gives(
    entries: Seq<ProfileOutput>,
    outputs: Seq<Output>,
    k: int,
    i: int,
)
    requires
        distinct_connectors(outputs),
        0 <= k < entries.len(),
        names_only(entry_identity(entries[k]), outputs, i),
        forall|n: int|
            0 <= n < entries.len() && n != k && entry_hits(#[trigger] entries[n], outputs).len()
                == 1 ==> entry_hits(entries[n], outputs)[0].identity.connector@
                != outputs[i].identity.connector@,
    ensures
        ({
            let e = entries[k];
            let o = outputs[i];
            let p = profile_outputs(entries, outputs)[i];
            &&& p.identity == o.identity
            &&& p.enabled == e.enabled
            &&& e.position matches Some(given) ==> p.position == given
            &&& e.position is None ==> p.position == o.position
            &&& e.scale matches Some(given) ==> p.scale == given
            &&& e.scale is None && scale_positive(o.scale) ==> p.scale == o.scale
            &&& e.transform matches Some(given) ==> p.transform == given
            &&& e.transform is None ==> p.transform == o.transform
            &&& e.primary matches Some(given) ==> p.primary == given
            &&& e.primary is None ==> p.primary == o.primary
            &&& e.mode is None && o.mode is Some ==> p.mode == o.mode
            &&& e.mode is None && o.mode is None ==> p.mode == o.preferred_mode
            &&& e.mode matches Some(text) ==> {
                let asked = spec_in(text@);
                let best = best_mode(asked->0, o.modes@);
                &&& asked is Some && best is Some ==> p.mode == best
                &&& (asked is None || best is None) && o.mode is Some ==> p.mode == o.mode
                &&& (asked is None || best is None) && o.mode is None ==> p.mode
                    == o.preferred_mode
            }
        }),
{
    identity_stands_for_its_display(entry_identity(entries[k]), outputs, i);
    entry_alone(entries, outputs, k, i, entries.len() as int);
    assert(entries.take(entries.len() as int) =~= entries);
}

proof fn entry_alone(
    entries: Seq<ProfileOutput>,
    outputs: Seq<Output>,
    k: int,
    i: int,
    n: int,
)
    requires
        distinct_connectors(outputs),
        0 <= k < entries.len(),
        0 <= i < outputs.len(),
        0 <= n <= entries.len(),
        entry_hits(entries[k], outputs) == seq![outputs[i]],
        forall|n: int|
            0 <= n < entries.len() && n != k && entry_hits(#[trigger] entries[n], outputs).len()
                == 1 ==> entry_hits(entries[n], outputs)[0].identity.connector@
                != outputs[i].identity.connector@,
    ensures
        profile_outputs(entries.take(n), outputs).len() == outputs.len(),
        profile_outputs(entries.take(n), outputs)[i] == if k < n {
            with_entry(planned_as_is(outputs[i]), entries[k], outputs[i].modes@)
        } else {
            planned_as_is(outputs[i])
        },
    decreases n,
{
    let t = entries.take(n);
    profile_outputs_shape(t, outputs);
    if n > 0 {
        let rest = entries.take(n - 1);
        entry_alone(entries, outputs, k, i, n - 1);
        profile_outputs_shape(rest, outputs);
        assert(t.drop_last() =~= rest);
        assert(t.last() == entries[n - 1]);
        let hits = entry_hits(entries[n - 1], outputs);
        if hits.len() == 1 {
            let base = plans_as_is(outputs);
            let c = hits[0].identity.connector@;
            first_where_facts(base, planned_at(c));
            assert(base[i].identity == outputs[i].identity);
            if n - 1 == k {
                assert forall|j: int| 0 <= j < i implies !planned_at(c)(base[j]) by {
                    assert(outputs[j].identity.connector@ != outputs[i].identity.connector@);
                }
                first_where_is(base, planned_at(c), i);
            }
        }
    }
}

/// Whether two live outputs fit a stored identity equally well.
pub open spec fn fits_two(wanted: OutputIdentity, outputs: Seq<Output>, i: int, j: int) -> bool {
    &&& 0 <= i < j < outputs.len()
    &&& {
        ||| edids_agree(outputs[i].identity, wanted) && edids_agree(outputs[j].identity, wanted)
        ||| {
            &&& forall|k: int|
                0 <= k < outputs.len() ==> !edids_agree((#[trigger] outputs[k]).identity, wanted)
            &&& outputs[i].identity.connector@ == wanted.connector@
            &&& outputs[j].identity.connector@ == wanted.connector@
        }
    }
}

/// A profile with an entry that two live outputs fit equally well is not applied.
pub proof fn ambiguous_entry_stops_the_profile(
    entries: Seq<ProfileOutput>,
    outputs: Seq<Output>,
    k: int,
    i: int,
    j: int,
)
    requires
        0 <= k < entries.len(),
        fits_two(entry_identity(entries[k]), outputs, i, j),
    ensures
        first_where(entries, entry_ambiguous(outputs)) is Some,
{
    let wanted = entry_identity(entries[k]);
    let by_edid = matches_at(wanted, MatchQuality::Edid);
    let by_connector = matches_at(wanted, MatchQuality::Connector);
    if by_edid(outputs[i]) && by_edid(outputs[j]) {
        twins_are_both_candidates(wanted, outputs, i, j);
    } else {
        filter_none(outputs, by_edid);
        let p = by_connector;
        filter_has(outputs.take(j), p, i);
        filter_push(outputs.take(j), p, outputs[j]);
        assert(outputs.take(j).push(outputs[j]) =~= outputs.take(j + 1));
        filter_of_prefix(outputs, p, j + 1);
    }
    first_where_facts(entries, entry_ambiguous(outputs));
    assert(entry_ambiguous(outputs)(entries[k]));
}

/// An entry whose display is at another connector than stored is warned of with
/// both; one whose display is gone, with the stored one; one whose mode is not
/// advertised, with that mode; and no other warning is given.
pub proof fn entry_is_warned_of(e: ProfileOutput, outputs: Seq<Output>, i: int)
    ensures
        (forall|j: int|
            0 <= j < outputs.len() ==> unrelated(
                (#[trigger] outputs[j]).identity,
                entry_identity(e),
            )) ==> entry_warnings(e, outputs) == seq![
            Warning::NotConnected { connector: e.connector@ },
        ],
        names_only(entry_identity(e), outputs, i) ==> {
            let o = outputs[i];
            let list = entry_warnings(e, outputs);
            let unusable = e.mode is Some && (spec_in(e.mode->0@) is None || best_mode(
                spec_in(e.mode->0@)->0,
                o.modes@,
            ) is None);
            &&& list.contains(
                Warning::ConnectorMigrated { stored: e.connector@, live: o.identity.connector@ },
            ) <==> o.identity.connector@ != e.connector@
            &&& unusable ==> list.contains(
                Warning::ModeUnavailable { connector: o.identity.connector@, mode: e.mode->0@ },
            )
            &&& list.len() == (if o.identity.connector@ != e.connector@ {
                1int
            } else {
                0
            }) + (if unusable {
                1int
            } else {
                0
            })
        },
{
    if forall|j: int|
        0 <= j < outputs.len() ==> unrelated((#[trigger] outputs[j]).identity, entry_identity(e)) {
        absent_display_has_no_hits(entry_identity(e), outputs);
    }
    if names_only(entry_identity(e), outputs, i) {
        identity_stands_for_its_display(entry_identity(e), outputs, i);
        let o = outputs[i];
        let list = entry_warnings(e, outputs);
        let moved = Warning::ConnectorMigrated {
            stored: e.connector@,
            live: o.identity.connector@,
        };
        if o.identity.connector@ != e.connector@ {
            assert(list[0] == moved);
        }
        if e.mode is Some && pinned_mode(e.mode, o.modes@) is None {
            assert(list[list.len() - 1] == (Warning::ModeUnavailable {
                connector: o.identity.connector@,
                mode: e.mode->0@,
            }));
        }
    }
}

/// A profile is found unsatisfied exactly where a display that one of its entries
/// names is on though it should be off, or off though it should be on.
pub proof fn drift_is_a_wrong_state(
    r: Result<bool, ResolveError>,
    entries: Seq<ProfileOutput>,
    outputs: Seq<Output>,
    at: Seq<Option<int>>,
)
    requires
        satisfaction(r, entries, outputs),
        at.len() == entries.len(),
        forall|k: int|
            0 <= k < entries.len() ==> match #[trigger] at[k] {
                Some(i) => names_only(entry_identity(entries[k]), outputs, i),
                None => absent(entry_identity(entries[k]), outputs),
            },
    ensures
        r == Ok::<bool, ResolveError>(
            forall|k: int|
                0 <= k < entries.len() ==> (#[trigger] at[k] matches Some(i) ==> outputs[i].enabled
                    == entries[k].enabled),
        ),
{
    let p = entry_settles(outputs);
    assert forall|k: int| 0 <= k < entries.len() implies p(#[trigger] entries[k]) == (
    at[k] matches Some(i) && outputs[i].enabled != entries[k].enabled) && entry_hits(
        entries[k],
        outputs,
    ).len() <= 1 by {
        match at[k] {
            Some(i) => identity_stands_for_its_display(entry_identity(entries[k]), outputs, i),
            None => absent_display_has_no_hits(entry_identity(entries[k]), outputs),
        }
    }
    first_where_facts(entries, p);
    match first_where(entries, p) {
        Some(k) => {
            assert(p(entries[k]));
            assert(at[k] is Some);
        },
        None => {
            assert forall|k: int| 0 <= k < entries.len() implies (#[trigger] at[k] matches Some(i)
                ==> outputs[i].enabled == entries[k].enabled) by {
                assert(!p(entries[k]));
            }
        },
    }
}

/// Whether no live output shares the EDID or the connector of a stored identity.
pub open spec fn absent(wanted: OutputIdentity, outputs: Seq<Output>) -> bool {
    forall|j: int| 0 <= j < outputs.len() ==> unrelated((#[trigger] outputs[j]).identity, wanted)
}

/// A captured entry holds everything that makes up the state of its output, under
/// the names by which the output is known.
pub proof fn capturing_leaves_nothing_open(e: ProfileOutput, o: Output)
    requires
        captures(e, o),
    ensures
        e.alias == o.alias,
        entry_identity(e) == o.identity,
        e.enabled == o.enabled,
        e.mode is Some <==> o.mode is Some,
        o.mode matches Some(m) ==> spec_in(e.mode->0@) matches Some(s) && s.width == m.width
            && s.height == m.height,
        e.position == Some(o.position),
        e.scale == Some(o.scale),
        e.transform == Some(o.transform),
        e.primary == Some(o.primary),
{
    if o.mode is Some {
        mode_text_reads_back(o.mode->0);
    }
}

/// A profile entry moves to the connector where its display is, and changes in
/// nothing else; an entry whose display is gone or not to be told from another
/// stays as it is.
pub proof fn migrating_follows_the_display(e: ProfileOutput, outputs: Seq<Output>, i: int)
    requires
        names_only(entry_identity(e), outputs, i) || absent(entry_identity(e), outputs),
    ensures
        ({
            let after = migrated_entry(e, outputs);
            &&& names_only(entry_identity(e), outputs, i) ==> after.connector@
                == outputs[i].identity.connector@
            &&& absent(entry_identity(e), outputs) ==> after == e
            &&& after == (ProfileOutput { connector: after.connector, ..e })
            &&& entry_moved(e, outputs) <==> after.connector@ != e.connector@
        }),
{
    if names_only(entry_identity(e), outputs, i) {
        identity_stands_for_its_display(entry_identity(e), outputs, i);
    } else {
        absent_display_has_no_hits(entry_identity(e), outputs);
    }
}

/// The error about an ambiguous entry names every display that the entry may stand for.
pub proof fn ambiguity_names_the_displays(err: ResolveError, e: ProfileOutput, outputs: Seq<Output>)
    requires
        entry_error(err, e, outputs),
    ensures
        err is Ambiguous,
        err->candidates@.len() == entry_hits(e, outputs).len(),
        forall|i: int|
            0 <= i < err->candidates@.len() ==> (#[trigger] err->candidates@[i])@ == entry_hits(
                e,
                outputs,
            )[i].identity.connector@,
{
    let list = err->candidates@;
    let hits = entry_hits(e, outputs);
    assert(texts(list).len() == connectors(hits).len());
    assert forall|i: int| 0 <= i < list.len() implies (#[trigger] list[i])@
        == hits[i].identity.connector@ by {
        assert(texts(list)[i] == list[i]@);
        assert(connectors(hits)[i] == hits[i].identity.connector@);
    }
}

} // verus!
