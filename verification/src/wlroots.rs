//! wlroots backend logic: a mirror of the compositor's heads that follows the
//! events of `zwlr_output_manager_v1`, and the output configuration that a
//! layout plan asks for.

use crate::backend::{obstacle_error, reports, ApplyMode, Obstacle};
use crate::error::BackendError;
use crate::identity::{EdidId, OutputIdentity};
use crate::mode_spec::{apart, closest_at, closest_mode, nearest_mode_keeps_the_size};
use crate::seqs::{
    arranged, arranged_in_order, arranged_keeps_all, filter_all, filter_has, filter_held,
    filter_keeps_distinct, filter_meets, filter_push, find_where, first_where, first_where_facts,
    first_where_is, first_where_none, orders, placed_is,
};
use crate::text::{
    comes_before, decimal, decimal_text, same_text, text_before, text_order_is_total,
    text_order_is_transitive,
};
use crate::topology::{
    builtin_connector, connector_is_builtin, scale_positive, transform_code, transform_of,
    transform_round_trip, usable_scale, LayoutPlan, Mode, Output, PlannedOutput, Scale, Topology,
    Transform, ONE_BITS,
};
use vstd::prelude::*;

verus! {

/// What is known of one head. The ids of heads and modes are the numbers that
/// stand for the protocol objects.
#[derive(Debug)]
pub struct HeadMirror {
    pub id: u64,
    pub name: String,
    pub description: String,
    pub make: String,
    pub model: String,
    pub serial_number: String,
    pub enabled: bool,
    pub current_mode: Option<u64>,
    pub position: (i32, i32),
    pub transform: Transform,
    pub scale: Scale,
    pub modes: Vec<u64>,
}

/// What is known of one mode.
#[derive(Debug, Clone, Copy, PartialEq, Eq, Structural)]
pub struct ModeMirror {
    pub id: u64,
    pub width: u32,
    pub height: u32,
    pub refresh_mhz: u32,
    pub preferred: bool,
}

/// The mirror of the compositor's output state.
#[derive(Debug)]
pub struct Mirror {
    /// Serial of the last complete state.
    pub serial: u32,
    /// Whether a complete state has arrived.
    pub initial_done: bool,
    pub heads: Vec<HeadMirror>,
    pub modes: Vec<ModeMirror>,
}

/// An event on a head.
#[derive(Debug)]
pub enum HeadEvent {
    Name(String),
    Description(String),
    Mode(u64),
    Enabled(bool),
    CurrentMode(u64),
    Position(i32, i32),
    Transform(u8),
    Scale(Scale),
    Make(String),
    Model(String),
    SerialNumber(String),
    Finished,
}

/// An event on a mode.
#[derive(Debug, Clone, Copy, PartialEq, Eq, Structural)]
pub enum ModeEvent {
    Size(i32, i32),
    Refresh(i32),
    Preferred,
    Finished,
}

/// The condition that a head has an id.
pub open spec fn head_is(id: u64) -> spec_fn(HeadMirror) -> bool {
    |h: HeadMirror| h.id == id
}

/// The condition that a head has another id.
pub open spec fn head_is_not(id: u64) -> spec_fn(HeadMirror) -> bool {
    |h: HeadMirror| h.id != id
}

/// The condition that a mode has an id.
pub open spec fn mode_is(id: u64) -> spec_fn(ModeMirror) -> bool {
    |m: ModeMirror| m.id == id
}

/// The condition that a mode is none of those listed.
pub open spec fn mode_not_in(ids: Seq<u64>) -> spec_fn(ModeMirror) -> bool {
    |m: ModeMirror| !ids.contains(m.id)
}

/// A mirror in which no two heads and no two modes have the same id.
pub open spec fn distinct_ids(m: Mirror) -> bool {
    &&& forall|i: int, j: int|
        0 <= i < m.heads@.len() && 0 <= j < m.heads@.len() && i != j ==> (
        #[trigger] m.heads@[i]).id != (#[trigger] m.heads@[j]).id
    &&& forall|i: int, j: int|
        0 <= i < m.modes@.len() && 0 <= j < m.modes@.len() && i != j ==> (
        #[trigger] m.modes@[i]).id != (#[trigger] m.modes@[j]).id
}

/// A number that is not negative, or zero.
pub open spec fn at_least_zero(n: i32) -> u32 {
    if n < 0 {
        0
    } else {
        n as u32
    }
}

fn clamp_to_zero(n: i32) -> (r: u32)
    ensures
        r == at_least_zero(n),
{
    if n < 0 {
        0
    } else {
        n as u32
    }
}

/// A mode of which nothing is known yet.
pub open spec fn new_mode(id: u64) -> ModeMirror {
    ModeMirror { id, width: 0, height: 0, refresh_mhz: 0, preferred: false }
}

/// Whether a head is a new one, of which nothing is known yet.
pub open spec fn is_new_head(h: HeadMirror, id: u64) -> bool {
    &&& h.id == id
    &&& h.name@ == Seq::<char>::empty()
    &&& h.description@ == Seq::<char>::empty()
    &&& h.make@ == Seq::<char>::empty()
    &&& h.model@ == Seq::<char>::empty()
    &&& h.serial_number@ == Seq::<char>::empty()
    &&& !h.enabled
    &&& h.current_mode is None
    &&& h.position == (0i32, 0i32)
    &&& h.transform == Transform::Normal
    &&& h.scale.bits == ONE_BITS
    &&& h.modes@ == Seq::<u64>::empty()
}

/// A head after an event that changes a single attribute.
pub open spec fn head_after(h: HeadMirror, e: HeadEvent) -> HeadMirror {
    match e {
        HeadEvent::Name(s) => HeadMirror { name: s, ..h },
        HeadEvent::Description(s) => HeadMirror { description: s, ..h },
        HeadEvent::Enabled(on) => HeadMirror {
            enabled: on,
            current_mode: if on {
                h.current_mode
            } else {
                None
            },
            ..h
        },
        HeadEvent::CurrentMode(m) => HeadMirror { current_mode: Some(m), ..h },
        HeadEvent::Position(x, y) => HeadMirror { position: (x, y), ..h },
        HeadEvent::Transform(t) => HeadMirror {
            transform: match transform_of(t) {
                Some(t) => t,
                None => Transform::Normal,
            },
            ..h
        },
        HeadEvent::Scale(s) => HeadMirror { scale: s, ..h },
        HeadEvent::Make(s) => HeadMirror { make: s, ..h },
        HeadEvent::Model(s) => HeadMirror { model: s, ..h },
        HeadEvent::SerialNumber(s) => HeadMirror { serial_number: s, ..h },
        HeadEvent::Mode(_) | HeadEvent::Finished => h,
    }
}

/// Whether a mirror is what an event on a head makes of another. An event on a
/// head that is not there changes nothing.
pub open spec fn head_step(before: Mirror, id: u64, e: HeadEvent, after: Mirror) -> bool {
    match first_where(before.heads@, head_is(id)) {
        None => after == before,
        Some(k) => {
            let h = before.heads@[k];
            &&& after.serial == before.serial
            &&& after.initial_done == before.initial_done
            &&& match e {
                HeadEvent::Finished => {
                    &&& after.heads@ == before.heads@.filter(head_is_not(id))
                    &&& after.modes@ == before.modes@.filter(mode_not_in(h.modes@))
                },
                HeadEvent::Mode(m) => {
                    &&& after.heads@.len() == before.heads@.len()
                    &&& forall|i: int|
                        0 <= i < after.heads@.len() && i != k ==> after.heads@[i]
                            == before.heads@[i]
                    &&& after.heads@[k] == (HeadMirror { modes: after.heads@[k].modes, ..h })
                    &&& after.heads@[k].modes@ == h.modes@.push(m)
                    &&& after.modes@ == before.modes@.filter(mode_not_in(seq![m])).push(
                        new_mode(m),
                    )
                },
                _ => {
                    &&& after.heads@ == before.heads@.update(k, head_after(h, e))
                    &&& after.modes@ == before.modes@
                },
            }
        },
    }
}

/// A mode after an event that changes an attribute.
pub open spec fn mode_after(m: ModeMirror, e: ModeEvent) -> ModeMirror {
    match e {
        ModeEvent::Size(w, h) => ModeMirror {
            width: at_least_zero(w),
            height: at_least_zero(h),
            ..m
        },
        ModeEvent::Refresh(r) => ModeMirror { refresh_mhz: at_least_zero(r), ..m },
        ModeEvent::Preferred => ModeMirror { preferred: true, ..m },
        ModeEvent::Finished => m,
    }
}

/// The modes after an event on one of them. An event on a mode that is not there
/// changes nothing.
pub open spec fn modes_after(modes: Seq<ModeMirror>, id: u64, e: ModeEvent) -> Seq<ModeMirror> {
    if e == ModeEvent::Finished {
        modes.filter(mode_not_in(seq![id]))
    } else {
        match first_where(modes, mode_is(id)) {
            Some(k) => modes.update(k, mode_after(modes[k], e)),
            None => modes,
        }
    }
}

fn id_listed(ids: &Vec<u64>, id: u64) -> (r: bool)
    ensures
        r == ids@.contains(id),
{
    for i in 0..ids.len()
        invariant
            forall|j: int| 0 <= j < i ==> ids@[j] != id,
    {
        if ids[i] == id {
            return true;
        }
    }
    false
}

fn remove_modes(modes: &Vec<ModeMirror>, ids: &Vec<u64>) -> (r: Vec<ModeMirror>)
    ensures
        r@ == modes@.filter(mode_not_in(ids@)),
{
    let mut kept: Vec<ModeMirror> = Vec::new();
    proof {
        assert(modes@.take(0) =~= Seq::<ModeMirror>::empty());
        reveal(Seq::filter);
    }
    for i in 0..modes.len()
        invariant
            kept@ == modes@.take(i as int).filter(mode_not_in(ids@)),
    {
        proof {
            filter_push(modes@.take(i as int), mode_not_in(ids@), modes@[i as int]);
            assert(modes@.take(i as int).push(modes@[i as int]) =~= modes@.take(i + 1));
        }
        if !id_listed(ids, modes[i].id) {
            kept.push(modes[i]);
        }
    }
    assert(modes@.take(modes@.len() as int) =~= modes@);
    kept
}

fn remove_heads(heads: &mut Vec<HeadMirror>, id: u64)
    ensures
        final(heads)@ == old(heads)@.filter(head_is_not(id)),
{
    let ghost all = heads@;
    let ghost p = head_is_not(id);
    let n: usize = heads.len();
    let mut i: usize = 0;
    let mut k: usize = 0;
    proof {
        assert(all.take(0) =~= Seq::<HeadMirror>::empty());
        reveal(Seq::filter);
        assert(all.skip(0) =~= all);
        assert(all.take(0).filter(p) + all.skip(0) =~= all);
    }
    while k < n
        invariant
            k <= n == all.len(),
            p == head_is_not(id),
            i == all.take(k as int).filter(p).len(),
            heads@ == all.take(k as int).filter(p) + all.skip(k as int),
        decreases n - k,
    {
        let ghost kept = all.take(k as int).filter(p);
        proof {
            filter_push(all.take(k as int), p, all[k as int]);
            assert(all.take(k as int).push(all[k as int]) =~= all.take(k + 1));
            assert(all.skip(k as int)[0] == all[k as int]);
            assert(heads@[i as int] == all[k as int]);
        }
        if heads[i].id == id {
            heads.remove(i);
            assert(heads@ =~= kept + all.skip(k + 1));
        } else {
            assert(heads@ =~= kept.push(all[k as int]) + all.skip(k + 1));
            i = i + 1;
        }
        k = k + 1;
    }
    assert(all.take(n as int) =~= all);
    assert(all.skip(n as int) =~= Seq::<HeadMirror>::empty());
    assert(heads@ =~= all.filter(p));
}

fn find_head(heads: &Vec<HeadMirror>, id: u64) -> (r: Option<usize>)
    ensures
        match (r, first_where(heads@, head_is(id))) {
            (Some(i), Some(k)) => i == k && i < heads@.len(),
            (None, None) => true,
            _ => false,
        },
{
    for i in 0..heads.len()
        invariant
            forall|j: int| 0 <= j < i ==> !head_is(id)(heads@[j]),
    {
        if heads[i].id == id {
            proof {
                first_where_is(heads@, head_is(id), i as int);
            }
            return Some(i);
        }
    }
    proof {
        first_where_none(heads@, head_is(id));
    }
    None
}

fn find_mode(modes: &Vec<ModeMirror>, id: u64) -> (r: Option<usize>)
    ensures
        match (r, first_where(modes@, mode_is(id))) {
            (Some(i), Some(k)) => i == k && i < modes@.len(),
            (None, None) => true,
            _ => false,
        },
{
    for i in 0..modes.len()
        invariant
            forall|j: int| 0 <= j < i ==> !mode_is(id)(modes@[j]),
    {
        if modes[i].id == id {
            proof {
                first_where_is(modes@, mode_is(id), i as int);
            }
            return Some(i);
        }
    }
    proof {
        first_where_none(modes@, mode_is(id));
    }
    None
}

impl Mirror {
    /// A mirror before the first event.
    pub fn new() -> (r: Self)
        ensures
            r.serial == 0,
            !r.initial_done,
            r.heads@ == Seq::<HeadMirror>::empty(),
            r.modes@ == Seq::<ModeMirror>::empty(),
            distinct_ids(r),
    {
        Mirror { serial: 0, initial_done: false, heads: Vec::new(), modes: Vec::new() }
    }

    /// A head appeared.
    pub fn add_head(&mut self, id: u64)
        ensures
            *final(self) == (Mirror { heads: final(self).heads, ..*old(self) }),
            final(self).heads@.len() > 0,
            final(self).heads@.drop_last() == old(self).heads@.filter(head_is_not(id)),
            is_new_head(final(self).heads@.last(), id),
            distinct_ids(*old(self)) ==> distinct_ids(*final(self)),
    {
        proof {
            ids_stay_distinct(*self, id, Seq::empty());
        }
        remove_heads(&mut self.heads, id);
        self.heads.push(
            HeadMirror {
                id,
                name: String::new(),
                description: String::new(),
                make: String::new(),
                model: String::new(),
                serial_number: String::new(),
                enabled: false,
                current_mode: None,
                position: (0, 0),
                transform: Transform::Normal,
                scale: Scale::one(),
                modes: Vec::new(),
            },
        );
        assert(self.heads@.drop_last() =~= old(self).heads@.filter(head_is_not(id)));
    }

    /// The state is complete. Returns whether watchers are to be told: the first
    /// complete state is no change.
    pub fn done(&mut self, serial: u32) -> (notify: bool)
        ensures
            notify == old(self).initial_done,
            *final(self) == (Mirror { serial, initial_done: true, ..*old(self) }),
    {
        let notify = self.initial_done;
        self.serial = serial;
        self.initial_done = true;
        notify
    }

    /// Something happened to a head.
    pub fn head_event(&mut self, id: u64, event: HeadEvent)
        ensures
            head_step(*old(self), id, event, *final(self)),
            distinct_ids(*old(self)) ==> distinct_ids(*final(self)),
    {
        let k: usize = match find_head(&self.heads, id) {
            Some(k) => k,
            None => {
                return ;
            },
        };
        let ghost before = *self;
        let ghost h = before.heads@[k as int];
        let ghost e = event;
        match event {
            HeadEvent::Finished => {
                let kept = remove_modes(&self.modes, &self.heads[k].modes);
                proof {
                    ids_stay_distinct(before, id, before.heads@[k as int].modes@);
                }
                remove_heads(&mut self.heads, id);
                self.modes = kept;
            },
            HeadEvent::Mode(m) => {
                let gone: Vec<u64> = vec![m];
                assert(gone@ =~= seq![m]);
                let mut kept = remove_modes(&self.modes, &gone);
                proof {
                    ids_stay_distinct(before, id, seq![m]);
                    assert(seq![m].contains(m)) by {
                        assert(seq![m][0] == m);
                    }
                }
                kept.push(ModeMirror { id: m, width: 0, height: 0, refresh_mhz: 0, preferred: false });
                self.heads[k].modes.push(m);
                self.modes = kept;
            },
            HeadEvent::Name(s) => {
                self.heads[k].name = s;
            },
            HeadEvent::Description(s) => {
                self.heads[k].description = s;
            },
            HeadEvent::Enabled(on) => {
                self.heads[k].enabled = on;
                if !on {
                    self.heads[k].current_mode = None;
                }
            },
            HeadEvent::CurrentMode(m) => {
                self.heads[k].current_mode = Some(m);
            },
            HeadEvent::Position(x, y) => {
                self.heads[k].position = (x, y);
            },
            HeadEvent::Transform(t) => {
                let t: Transform = match Transform::from_u8(t) {
                    Some(t) => t,
                    None => Transform::Normal,
                };
                self.heads[k].transform = t;
            },
            HeadEvent::Scale(s) => {
                self.heads[k].scale = s;
            },
            HeadEvent::Make(s) => {
                self.heads[k].make = s;
            },
            HeadEvent::Model(s) => {
                self.heads[k].model = s;
            },
            HeadEvent::SerialNumber(s) => {
                self.heads[k].serial_number = s;
            },
        }
        proof {
            if !(e is Finished) && !(e is Mode) {
                assert(self.heads@ =~= before.heads@.update(k as int, head_after(h, e)));
            }
        }
    }

    /// Something happened to a mode.
    pub fn mode_event(&mut self, id: u64, event: ModeEvent)
        ensures
            *final(self) == (Mirror { modes: final(self).modes, ..*old(self) }),
            final(self).modes@ == modes_after(old(self).modes@, id, event),
            distinct_ids(*old(self)) ==> distinct_ids(*final(self)),
    {
        let ghost before = *self;
        if let ModeEvent::Finished = event {
            let gone: Vec<u64> = vec![id];
            assert(gone@ =~= seq![id]);
            let kept = remove_modes(&self.modes, &gone);
            proof {
                ids_stay_distinct(before, 0, seq![id]);
            }
            self.modes = kept;
            return ;
        }
        let k: usize = match find_mode(&self.modes, id) {
            Some(k) => k,
            None => {
                return ;
            },
        };
        let mut m: ModeMirror = self.modes[k];
        match event {
            ModeEvent::Size(w, h) => {
                m.width = clamp_to_zero(w);
                m.height = clamp_to_zero(h);
            },
            ModeEvent::Refresh(r) => {
                m.refresh_mhz = clamp_to_zero(r);
            },
            ModeEvent::Preferred => {
                m.preferred = true;
            },
            ModeEvent::Finished => {},
        }
        self.modes.set(k, m);
    }
}

/// Taking out heads or modes leaves the others with distinct ids, and what was
/// taken out is gone.
proof fn ids_stay_distinct(m: Mirror, id: u64, ids: Seq<u64>)
    ensures
        distinct_ids(m) ==> {
            let heads = m.heads@.filter(head_is_not(id));
            let modes = m.modes@.filter(mode_not_in(ids));
            &&& forall|i: int, j: int|
                0 <= i < heads.len() && 0 <= j < heads.len() && i != j ==> (#[trigger] heads[i]).id
                    != (#[trigger] heads[j]).id
            &&& forall|i: int, j: int|
                0 <= i < modes.len() && 0 <= j < modes.len() && i != j ==> (#[trigger] modes[i]).id
                    != (#[trigger] modes[j]).id
        },
        forall|i: int|
            0 <= i < m.heads@.filter(head_is_not(id)).len() ==> (#[trigger] m.heads@.filter(
                head_is_not(id),
            )[i]).id != id,
        forall|i: int|
            0 <= i < m.modes@.filter(mode_not_in(ids)).len() ==> !ids.contains(
                (#[trigger] m.modes@.filter(mode_not_in(ids))[i]).id,
            ),
{
    let heads = m.heads@.filter(head_is_not(id));
    let modes = m.modes@.filter(mode_not_in(ids));
    assert forall|i: int| 0 <= i < heads.len() implies (#[trigger] heads[i]).id != id by {
        filter_meets(m.heads@, head_is_not(id), i);
    }
    assert forall|i: int| 0 <= i < modes.len() implies !ids.contains(
        (#[trigger] modes[i]).id,
    ) by {
        filter_meets(m.modes@, mode_not_in(ids), i);
    }
    if distinct_ids(m) {
        let head_id = |h: HeadMirror| h.id;
        let mode_id = |m: ModeMirror| m.id;
        filter_keeps_distinct(m.heads@, head_is_not(id), head_id);
        filter_keeps_distinct(m.modes@, mode_not_in(ids), mode_id);
        assert forall|i: int, j: int|
            0 <= i < heads.len() && 0 <= j < heads.len() && i != j implies (#[trigger] heads[i]).id
            != (#[trigger] heads[j]).id by {
            assert(head_id(heads[i]) != head_id(heads[j]));
        }
        assert forall|i: int, j: int|
            0 <= i < modes.len() && 0 <= j < modes.len() && i != j implies (#[trigger] modes[i]).id
            != (#[trigger] modes[j]).id by {
            assert(mode_id(modes[i]) != mode_id(modes[j]));
        }
    }
}

// ----------------------------------------------------------------- snapshot

/// The display mode that a mode of the compositor is.
pub open spec fn mode_from(m: ModeMirror) -> Mode {
    Mode { width: m.width, height: m.height, refresh_mhz: m.refresh_mhz }
}

fn mode_of(m: &ModeMirror) -> (r: Mode)
    ensures
        r == mode_from(*m),
{
    Mode { width: m.width, height: m.height, refresh_mhz: m.refresh_mhz }
}

/// The condition that a mode id is known.
pub open spec fn known(modes: Seq<ModeMirror>) -> spec_fn(u64) -> bool {
    |id: u64| find_where(modes, mode_is(id)) is Some
}

/// What is known of the modes with the given ids.
pub open spec fn known_modes(ids: Seq<u64>, modes: Seq<ModeMirror>) -> Seq<ModeMirror> {
    ids.filter(known(modes)).map_values(|id: u64| find_where(modes, mode_is(id))->0)
}

/// The display modes with the given ids, as far as they are known.
pub open spec fn offered(ids: Seq<u64>, modes: Seq<ModeMirror>) -> Seq<Mode> {
    known_modes(ids, modes).map_values(|m: ModeMirror| mode_from(m))
}

/// The condition that a mode is a preferred one.
pub open spec fn preferred() -> spec_fn(ModeMirror) -> bool {
    |m: ModeMirror| m.preferred
}

/// The mode ids that are known, what is known of them, and their display modes.
struct KnownModes {
    mirrors: Vec<ModeMirror>,
    ids: Vec<u64>,
    modes: Vec<Mode>,
}

fn known_mode_list(ids: &Vec<u64>, modes: &Vec<ModeMirror>) -> (r: KnownModes)
    ensures
        r.ids@ == ids@.filter(known(modes@)),
        r.mirrors@ == known_modes(ids@, modes@),
        r.modes@ == offered(ids@, modes@),
{
    let mut mirrors: Vec<ModeMirror> = Vec::new();
    let mut kept: Vec<u64> = Vec::new();
    let mut list: Vec<Mode> = Vec::new();
    proof {
        assert(ids@.take(0) =~= Seq::<u64>::empty());
        reveal(Seq::filter);
        assert(mirrors@ =~= known_modes(ids@.take(0), modes@));
        assert(list@ =~= offered(ids@.take(0), modes@));
    }
    for i in 0..ids.len()
        invariant
            kept@ == ids@.take(i as int).filter(known(modes@)),
            mirrors@ == known_modes(ids@.take(i as int), modes@),
            list@ == offered(ids@.take(i as int), modes@),
    {
        proof {
            filter_push(ids@.take(i as int), known(modes@), ids@[i as int]);
            assert(ids@.take(i as int).push(ids@[i as int]) =~= ids@.take(i + 1));
        }
        if let Some(k) = find_mode(modes, ids[i]) {
            kept.push(ids[i]);
            mirrors.push(modes[k]);
            list.push(mode_of(&modes[k]));
            assert(mirrors@ =~= known_modes(ids@.take(i + 1), modes@));
            assert(list@ =~= offered(ids@.take(i + 1), modes@));
        }
    }
    assert(ids@.take(ids@.len() as int) =~= ids@);
    KnownModes { mirrors, ids: kept, modes: list }
}

/// The display mode of a preferred mode, if there is one.
pub open spec fn preferred_of(mirrors: Seq<ModeMirror>) -> Option<Mode> {
    match find_where(mirrors, preferred()) {
        Some(m) => Some(mode_from(m)),
        None => None,
    }
}

fn find_preferred(mirrors: &Vec<ModeMirror>) -> (r: Option<Mode>)
    ensures
        r == preferred_of(mirrors@),
{
    for i in 0..mirrors.len()
        invariant
            forall|j: int| 0 <= j < i ==> !preferred()(mirrors@[j]),
    {
        if mirrors[i].preferred {
            proof {
                first_where_is(mirrors@, preferred(), i as int);
            }
            return Some(mode_of(&mirrors[i]));
        }
    }
    proof {
        first_where_none(mirrors@, preferred());
    }
    None
}

/// The display mode that a head is in.
pub open spec fn current_of(h: HeadMirror, modes: Seq<ModeMirror>) -> Option<Mode> {
    match h.current_mode {
        Some(id) => match find_where(modes, mode_is(id)) {
            Some(m) => Some(mode_from(m)),
            None => None,
        },
        None => None,
    }
}

/// Whether the compositor named anything of a head's EDID.
pub open spec fn has_edid(h: HeadMirror) -> bool {
    h.make@.len() > 0 || h.model@.len() > 0 || h.serial_number@.len() > 0
}

/// Whether an output is the one that a head stands for.
pub open spec fn described(o: Output, h: HeadMirror, modes: Seq<ModeMirror>, primary: bool) -> bool {
    &&& o.identity.connector@ == h.name@
    &&& match o.identity.edid {
        Some(e) => {
            &&& has_edid(h)
            &&& e.vendor@ == h.make@
            &&& e.product@ == h.model@
            &&& e.serial@ == h.serial_number@
        },
        None => !has_edid(h),
    }
    &&& o.alias is None
    &&& o.display_name@ == if h.description@.len() == 0 {
        h.name@
    } else {
        h.description@
    }
    &&& o.builtin == builtin_connector(h.name@)
    &&& o.enabled == h.enabled
    &&& o.mode == current_of(h, modes)
    &&& o.preferred_mode == preferred_of(known_modes(h.modes@, modes))
    &&& o.modes@ == offered(h.modes@, modes)
    &&& o.position == h.position
    &&& o.scale == usable_scale(h.scale)
    &&& o.transform == h.transform
    &&& o.primary == primary
}

fn is_empty(s: &String) -> (r: bool)
    ensures
        r == (s@.len() == 0),
{
    let r = same_text(s.as_str(), "");
    proof {
        reveal_strlit("");
        if s@.len() == 0 {
            assert(s@ =~= ""@);
        }
    }
    r
}

fn read_head(h: &HeadMirror, modes: &Vec<ModeMirror>) -> (r: Output)
    ensures
        described(r, *h, modes@, false),
{
    let list = known_mode_list(&h.modes, modes);
    let mode: Option<Mode> = match h.current_mode {
        Some(id) => match find_mode(modes, id) {
            Some(k) => Some(mode_of(&modes[k])),
            None => None,
        },
        None => None,
    };
    let edid: Option<EdidId> = if !is_empty(&h.make) || !is_empty(&h.model) || !is_empty(
        &h.serial_number,
    ) {
        Some(
            EdidId {
                vendor: h.make.clone(),
                product: h.model.clone(),
                serial: h.serial_number.clone(),
            },
        )
    } else {
        None
    };
    let display_name: String = if is_empty(&h.description) {
        h.name.clone()
    } else {
        h.description.clone()
    };
    Output {
        identity: OutputIdentity { edid, connector: h.name.clone() },
        alias: None,
        display_name,
        builtin: connector_is_builtin(h.name.as_str()),
        enabled: h.enabled,
        mode,
        preferred_mode: find_preferred(&list.mirrors),
        modes: list.modes,
        position: h.position,
        scale: h.scale.usable(),
        transform: h.transform,
        primary: false,
    }
}

/// The order of heads: by name.
pub open spec fn name_before() -> spec_fn(HeadMirror, HeadMirror) -> bool {
    |a: HeadMirror, b: HeadMirror| text_before(a.name@, b.name@)
}

/// The condition that a head is enabled.
pub open spec fn head_enabled() -> spec_fn(HeadMirror) -> bool {
    |h: HeadMirror| h.enabled
}

/// Whether outputs are the heads, ordered by name. wlroots has no primary
/// output; the first enabled one stands for it.
pub open spec fn all_described(
    outputs: Seq<Output>,
    heads: Seq<HeadMirror>,
    modes: Seq<ModeMirror>,
) -> bool {
    let sorted = arranged(heads, name_before());
    &&& outputs.len() == sorted.len()
    &&& forall|i: int|
        0 <= i < outputs.len() ==> described(
            #[trigger] outputs[i],
            sorted[i],
            modes,
            first_where(sorted, head_enabled()) == Some(i),
        )
}

fn find_enabled(outputs: &Vec<Output>) -> (r: Option<usize>)
    ensures
        match r {
            Some(k) => k < outputs@.len() && outputs@[k as int].enabled && forall|j: int|
                0 <= j < k ==> !(#[trigger] outputs@[j]).enabled,
            None => forall|j: int| 0 <= j < outputs@.len() ==> !(#[trigger] outputs@[j]).enabled,
        },
{
    for i in 0..outputs.len()
        invariant
            forall|j: int| 0 <= j < i ==> !(#[trigger] outputs@[j]).enabled,
    {
        if outputs[i].enabled {
            return Some(i);
        }
    }
    None
}

fn insertion_index(outputs: &Vec<Output>, name: &str) -> (k: usize)
    ensures
        k <= outputs@.len(),
        forall|j: int|
            k <= j < outputs@.len() ==> text_before(
                name@,
                (#[trigger] outputs@[j]).identity.connector@,
            ),
        k > 0 ==> !text_before(name@, outputs@[k - 1].identity.connector@),
{
    let mut k: usize = outputs.len();
    while k > 0 && comes_before(name, outputs[k - 1].identity.connector.as_str())
        invariant
            k <= outputs@.len(),
            forall|j: int|
                k <= j < outputs@.len() ==> text_before(
                    name@,
                    (#[trigger] outputs@[j]).identity.connector@,
                ),
        decreases k,
    {
        k = k - 1;
    }
    k
}

/// The topology that the mirror holds.
pub fn build_topology(mirror: &Mirror) -> (r: Topology)
    ensures
        r.serial@ == decimal(mirror.serial as nat),
        all_described(r.outputs@, mirror.heads@, mirror.modes@),
{
    let mut outputs: Vec<Output> = Vec::new();
    let ghost heads = mirror.heads@;
    let ghost modes = mirror.modes@;
    let ghost p = name_before();
    for i in 0..mirror.heads.len()
        invariant
            heads == mirror.heads@,
            modes == mirror.modes@,
            p == name_before(),
            outputs@.len() == arranged(heads.take(i as int), p).len(),
            forall|j: int|
                0 <= j < outputs@.len() ==> described(
                    #[trigger] outputs@[j],
                    arranged(heads.take(i as int), p)[j],
                    modes,
                    false,
                ),
    {
        let h = &mirror.heads[i];
        let o = read_head(h, &mirror.modes);
        let k = insertion_index(&outputs, h.name.as_str());
        let ghost sorted = arranged(heads.take(i as int), p);
        proof {
            assert forall|j: int| k <= j < sorted.len() implies p(*h, #[trigger] sorted[j]) by {
                assert(described(outputs@[j], sorted[j], modes, false));
            }
            if k > 0 {
                assert(described(outputs@[k - 1], sorted[k - 1], modes, false));
            }
            placed_is(sorted, *h, p, k as int);
            assert(heads.take(i + 1).drop_last() =~= heads.take(i as int));
            assert(arranged(heads.take(i + 1), p) == sorted.insert(k as int, *h));
        }
        let ghost shorter = outputs@;
        outputs.insert(k, o);
        proof {
            assert forall|j: int| 0 <= j < outputs@.len() implies described(
                #[trigger] outputs@[j],
                sorted.insert(k as int, *h)[j],
                modes,
                false,
            ) by {
                if j < k {
                    assert(described(shorter[j], sorted[j], modes, false));
                } else if j > k {
                    assert(described(shorter[j - 1], sorted[j - 1], modes, false));
                }
            }
        }
    }
    assert(heads.take(heads.len() as int) =~= heads);
    let ghost sorted = arranged(heads, p);
    let ghost plain = outputs@;
    match find_enabled(&outputs) {
        Some(k) => {
            proof {
                assert(described(outputs@[k as int], sorted[k as int], modes, false));
                assert forall|j: int| 0 <= j < k implies !head_enabled()(sorted[j]) by {
                    assert(described(outputs@[j], sorted[j], modes, false));
                }
                first_where_is(sorted, head_enabled(), k as int);
            }
            outputs[k].primary = true;
            proof {
                assert forall|j: int| 0 <= j < outputs@.len() implies described(
                    #[trigger] outputs@[j],
                    sorted[j],
                    modes,
                    first_where(sorted, head_enabled()) == Some(j),
                ) by {
                    assert(described(plain[j], sorted[j], modes, false));
                }
            }
        },
        None => {
            proof {
                assert forall|j: int| 0 <= j < sorted.len() implies !head_enabled()(sorted[j]) by {
                    assert(described(outputs@[j], sorted[j], modes, false));
                }
                first_where_none(sorted, head_enabled());
            }
        },
    }
    Topology { serial: decimal_text(mirror.serial as u64), outputs }
}

// -------------------------------------------------------------------- apply

/// What an output configuration says about one head.
#[derive(Debug, Clone, Copy, PartialEq, Eq)]
pub enum HeadCommand {
    Disable { head: u64 },
    Enable { head: u64, mode: u64, position: (i32, i32), transform: Transform, scale: Scale },
}

/// The head with a name; the last of several.
pub open spec fn head_named(heads: Seq<HeadMirror>, name: Seq<char>) -> Option<HeadMirror>
    decreases heads.len(),
{
    if heads.len() == 0 {
        None
    } else if heads.last().name@ == name {
        Some(heads.last())
    } else {
        head_named(heads.drop_last(), name)
    }
}

fn find_named<'a>(heads: &'a Vec<HeadMirror>, name: &str) -> (r: Option<&'a HeadMirror>)
    ensures
        match (r, head_named(heads@, name@)) {
            (Some(h), Some(want)) => *h == want,
            (None, None) => true,
            _ => false,
        },
{
    let mut found: Option<&'a HeadMirror> = None;
    for i in 0..heads.len()
        invariant
            match (found, head_named(heads@.take(i as int), name@)) {
                (Some(h), Some(want)) => *h == want,
                (None, None) => true,
                _ => false,
            },
    {
        assert(heads@.take(i + 1).drop_last() =~= heads@.take(i as int));
        if same_text(heads[i].name.as_str(), name) {
            found = Some(&heads[i]);
        }
    }
    assert(heads@.take(heads@.len() as int) =~= heads@);
    found
}

/// What a configuration says about one planned output: off, or on in the
/// planned mode, or the one of the same resolution with the closest refresh.
pub open spec fn command_for(
    p: PlannedOutput,
    heads: Seq<HeadMirror>,
    modes: Seq<ModeMirror>,
) -> Result<HeadCommand, Obstacle> {
    match head_named(heads, p.identity.connector@) {
        None => Err(Obstacle::Unknown),
        Some(h) => if !p.enabled {
            Ok(HeadCommand::Disable { head: h.id })
        } else {
            match p.mode {
                None => Err(Obstacle::Modeless),
                Some(m) => match closest_at(offered(h.modes@, modes), m) {
                    None => Err(Obstacle::Unavailable(m)),
                    Some(k) => Ok(
                        HeadCommand::Enable {
                            head: h.id,
                            mode: h.modes@.filter(known(modes))[k],
                            position: p.position,
                            transform: p.transform,
                            scale: p.scale,
                        },
                    ),
                },
            }
        },
    }
}

fn command_of(p: &PlannedOutput, mirror: &Mirror) -> (r: Result<HeadCommand, Obstacle>)
    ensures
        r == command_for(*p, mirror.heads@, mirror.modes@),
{
    let h = match find_named(&mirror.heads, p.identity.connector.as_str()) {
        Some(h) => h,
        None => {
            return Err(Obstacle::Unknown);
        },
    };
    if !p.enabled {
        return Ok(HeadCommand::Disable { head: h.id });
    }
    let wanted: Mode = match p.mode {
        Some(m) => m,
        None => {
            return Err(Obstacle::Modeless);
        },
    };
    let list = known_mode_list(&h.modes, &mirror.modes);
    match closest_mode(&list.modes, wanted) {
        Some(k) => Ok(
            HeadCommand::Enable {
                head: h.id,
                mode: list.ids[k],
                position: p.position,
                transform: p.transform,
                scale: p.scale,
            },
        ),
        None => Err(Obstacle::Unavailable(wanted)),
    }
}

/// The condition that a planned output cannot be configured.
pub open spec fn stuck(heads: Seq<HeadMirror>, modes: Seq<ModeMirror>) -> spec_fn(
    PlannedOutput,
) -> bool {
    |p: PlannedOutput| command_for(p, heads, modes) is Err
}

/// Decide about applying a plan: what the configuration says about each head, in
/// the order of the plan.
pub fn plan_apply(plan: &LayoutPlan, mirror: &Mirror) -> (r: Result<
    Vec<HeadCommand>,
    BackendError,
>)
    ensures
        if plan.serial@ != decimal(mirror.serial as nat) {
            r matches Err(BackendError::StaleSerial)
        } else {
            match find_where(plan.outputs@, stuck(mirror.heads@, mirror.modes@)) {
                Some(p) => r is Err && reports(
                    r->Err_0,
                    p.identity.connector@,
                    command_for(p, mirror.heads@, mirror.modes@)->Err_0,
                ),
                None => {
                    &&& r is Ok
                    &&& r->Ok_0@.len() == plan.outputs@.len()
                    &&& forall|i: int|
                        0 <= i < plan.outputs@.len() ==> #[trigger] r->Ok_0@[i] == command_for(
                            plan.outputs@[i],
                            mirror.heads@,
                            mirror.modes@,
                        )->Ok_0
                },
            }
        },
{
    if !same_text(plan.serial.as_str(), decimal_text(mirror.serial as u64).as_str()) {
        return Err(BackendError::StaleSerial);
    }
    let mut commands: Vec<HeadCommand> = Vec::new();
    let ghost p = stuck(mirror.heads@, mirror.modes@);
    for i in 0..plan.outputs.len()
        invariant
            plan.serial@ == decimal(mirror.serial as nat),
            p == stuck(mirror.heads@, mirror.modes@),
            commands@.len() == i,
            forall|j: int| 0 <= j < i ==> !p(plan.outputs@[j]),
            forall|j: int|
                0 <= j < i ==> #[trigger] commands@[j] == command_for(
                    plan.outputs@[j],
                    mirror.heads@,
                    mirror.modes@,
                )->Ok_0,
    {
        match command_of(&plan.outputs[i], mirror) {
            Ok(c) => {
                commands.push(c);
            },
            Err(o) => {
                proof {
                    first_where_is(plan.outputs@, p, i as int);
                }
                return Err(obstacle_error(plan.outputs[i].identity.connector.as_str(), o));
            },
        }
    }
    proof {
        first_where_none(plan.outputs@, p);
    }
    Ok(commands)
}

/// The request that a configuration goes out with.
#[derive(Debug, Clone, Copy, PartialEq, Eq, Structural)]
pub enum ConfigRequest {
    /// Only tell whether it would be accepted.
    Test,
    Apply,
}

/// The request that a configuration goes out with: a plan that is only to be
/// verified is tested. Compositors keep no configuration, so nothing else
/// depends on how an apply should stick.
pub fn request_for(mode: ApplyMode) -> (r: ConfigRequest)
    ensures
        r == if mode == ApplyMode::Verify {
            ConfigRequest::Test
        } else {
            ConfigRequest::Apply
        },
{
    match mode {
        ApplyMode::Verify => ConfigRequest::Test,
        ApplyMode::Temporary | ApplyMode::Persistent => ConfigRequest::Apply,
    }
}

/// How the compositor answered an output configuration.
#[derive(Debug, Clone, Copy, PartialEq, Eq, Structural)]
pub enum ConfigResult {
    Succeeded,
    Failed,
    Cancelled,
}

/// What an answer, or none within the time limit, means for the apply.
pub fn conclude(answer: Option<ConfigResult>) -> (r: Result<(), BackendError>)
    ensures
        match answer {
            Some(ConfigResult::Succeeded) => r is Ok,
            Some(ConfigResult::Failed) => r matches Err(BackendError::InvalidLayout(m)) && m@
                == "compositor rejected the configuration"@,
            Some(ConfigResult::Cancelled) => r matches Err(BackendError::StaleSerial),
            None => r matches Err(BackendError::Server(m)) && m@
                == "no response to output configuration"@,
        },
{
    match answer {
        Some(ConfigResult::Succeeded) => Ok(()),
        Some(ConfigResult::Failed) => Err(
            BackendError::InvalidLayout("compositor rejected the configuration".to_owned()),
        ),
        Some(ConfigResult::Cancelled) => Err(BackendError::StaleSerial),
        None => Err(BackendError::Server("no response to output configuration".to_owned())),
    }
}

// --------------------------------------------------------------------- laws

/// The order by name is an order.
proof fn names_order()
    ensures
        orders(name_before()),
{
    let p = name_before();
    assert forall|a: HeadMirror, b: HeadMirror| #[trigger] p(a, b) implies !p(b, a) by {
        text_order_is_total(a.name@, b.name@);
    }
    assert forall|a: HeadMirror, b: HeadMirror, c: HeadMirror|
        !(#[trigger] p(b, a)) && !(#[trigger] p(c, b)) implies !p(c, a) by {
        text_order_is_total(a.name@, b.name@);
        text_order_is_total(b.name@, c.name@);
        text_order_is_total(a.name@, c.name@);
        if p(a, b) && p(b, c) {
            text_order_is_transitive(a.name@, b.name@, c.name@);
        }
    }
}

/// The outputs of a topology are ordered by connector, and there is one for each
/// head.
pub proof fn outputs_are_sorted(
    outputs: Seq<Output>,
    heads: Seq<HeadMirror>,
    modes: Seq<ModeMirror>,
    i: int,
    j: int,
)
    requires
        all_described(outputs, heads, modes),
        0 <= i < j < outputs.len(),
    ensures
        outputs.len() == heads.len(),
        arranged(heads, name_before()).to_multiset() == heads.to_multiset(),
        !text_before(outputs[j].identity.connector@, outputs[i].identity.connector@),
{
    names_order();
    arranged_keeps_all(heads, name_before());
    arranged_in_order(heads, name_before(), i, j);
    let sorted = arranged(heads, name_before());
    assert(described(
        outputs[i],
        sorted[i],
        modes,
        first_where(sorted, head_enabled()) == Some(i),
    ));
    assert(described(
        outputs[j],
        sorted[j],
        modes,
        first_where(sorted, head_enabled()) == Some(j),
    ));
}

/// A topology has a primary output exactly when an output is enabled, and then
/// it has one, which is enabled.
pub proof fn one_enabled_output_is_primary(
    outputs: Seq<Output>,
    heads: Seq<HeadMirror>,
    modes: Seq<ModeMirror>,
)
    requires
        all_described(outputs, heads, modes),
    ensures
        forall|i: int| 0 <= i < outputs.len() && (#[trigger] outputs[i]).primary ==> outputs[i].enabled,
        forall|i: int, j: int|
            0 <= i < outputs.len() && 0 <= j < outputs.len() && (#[trigger] outputs[i]).primary && (
            #[trigger] outputs[j]).primary ==> i == j,
        (exists|i: int| 0 <= i < outputs.len() && (#[trigger] outputs[i]).enabled) ==> (exists|i: int|

            0 <= i < outputs.len() && (#[trigger] outputs[i]).primary),
{
    let sorted = arranged(heads, name_before());
    first_where_facts(sorted, head_enabled());
    match first_where(sorted, head_enabled()) {
        Some(k) => {
            assert(described(outputs[k], sorted[k], modes, true));
            assert(outputs[k].primary);
        },
        None => {
            assert forall|i: int| 0 <= i < outputs.len() implies !(#[trigger] outputs[i]).enabled by {
                assert(described(outputs[i], sorted[i], modes, false));
                assert(!head_enabled()(sorted[i]));
            }
        },
    }
}

/// Once a head is finished, neither it nor any of its modes is left.
pub proof fn finished_head_is_gone(before: Mirror, id: u64, after: Mirror)
    requires
        head_step(before, id, HeadEvent::Finished, after),
    ensures
        forall|i: int| 0 <= i < after.heads@.len() ==> (#[trigger] after.heads@[i]).id != id,
        match find_where(before.heads@, head_is(id)) {
            Some(h) => forall|i: int|
                0 <= i < after.modes@.len() ==> !h.modes@.contains((#[trigger] after.modes@[i]).id),
            None => true,
        },
{
    first_where_facts(before.heads@, head_is(id));
    match find_where(before.heads@, head_is(id)) {
        Some(h) => {
            ids_stay_distinct(before, id, h.modes@);
        },
        None => {
            assert forall|i: int| 0 <= i < after.heads@.len() implies (
            #[trigger] after.heads@[i]).id != id by {
                assert(!head_is(id)(before.heads@[i]));
            }
        },
    }
}

/// Whether a head is the only one with a name.
pub open spec fn only_named(heads: Seq<HeadMirror>, name: Seq<char>, n: int) -> bool {
    &&& 0 <= n < heads.len()
    &&& heads[n].name@ == name
    &&& forall|j: int| 0 <= j < heads.len() && j != n ==> (#[trigger] heads[j]).name@ != name
}

proof fn only_head_is_found(heads: Seq<HeadMirror>, name: Seq<char>, n: int)
    requires
        only_named(heads, name, n),
    ensures
        head_named(heads, name) == Some(heads[n]),
    decreases heads.len(),
{
    let t = heads.drop_last();
    if n < t.len() {
        assert(forall|j: int| 0 <= j < t.len() ==> t[j] == heads[j]);
        assert(heads[heads.len() - 1].name@ != name);
        only_head_is_found(t, name, n);
    }
}

/// A configuration switches an output off if it is planned to be off. Otherwise it
/// asks its head for the planned position, transform and scale, and for a mode of
/// the head that has exactly the planned width and height and the refresh closest
/// to the planned one.
pub proof fn head_is_asked_for_the_plan(
    p: PlannedOutput,
    heads: Seq<HeadMirror>,
    modes: Seq<ModeMirror>,
    n: int,
)
    requires
        only_named(heads, p.identity.connector@, n),
    ensures
        !p.enabled ==> command_for(p, heads, modes) == Ok::<HeadCommand, Obstacle>(
            HeadCommand::Disable { head: heads[n].id },
        ),
        p.enabled && p.mode is None ==> command_for(p, heads, modes) == Err::<
            HeadCommand,
            Obstacle,
        >(Obstacle::Modeless),
        p.enabled && p.mode is Some ==> {
            let wanted = p.mode->0;
            match command_for(p, heads, modes) {
                Ok(HeadCommand::Disable { .. }) => false,
                Ok(HeadCommand::Enable { head, mode, position, transform, scale }) => {
                    &&& head == heads[n].id
                    &&& position == p.position
                    &&& transform == p.transform
                    &&& scale == p.scale
                    &&& heads[n].modes@.contains(mode)
                    &&& exists|t: int|
                        {
                            &&& first_with_id(modes, mode, t)
                            &&& modes[t].width == wanted.width
                            &&& modes[t].height == wanted.height
                            &&& forall|k: int, u: int|
                                #![trigger heads[n].modes@[k], modes[u]]
                                0 <= k < heads[n].modes@.len() && first_with_id(
                                    modes,
                                    heads[n].modes@[k],
                                    u,
                                ) && modes[u].width == wanted.width && modes[u].height
                                    == wanted.height ==> apart(
                                    modes[t].refresh_mhz as int,
                                    wanted.refresh_mhz as int,
                                ) <= apart(
                                    modes[u].refresh_mhz as int,
                                    wanted.refresh_mhz as int,
                                )
                        }
                },
                Err(o) => {
                    &&& o == Obstacle::Unavailable(wanted)
                    &&& forall|k: int, u: int|
                        #![trigger heads[n].modes@[k], modes[u]]
                        0 <= k < heads[n].modes@.len() && first_with_id(
                            modes,
                            heads[n].modes@[k],
                            u,
                        ) ==> modes[u].width != wanted.width || modes[u].height != wanted.height
                },
            }
        },
{
    only_head_is_found(heads, p.identity.connector@, n);
    if p.enabled && p.mode is Some {
        let h = heads[n];
        let wanted = p.mode->0;
        let list = offered(h.modes@, modes);
        let ids = h.modes@.filter(known(modes));
        nearest_mode_keeps_the_size(list, wanted);
        assert forall|k: int, u: int|
            #![trigger h.modes@[k], modes[u]]
            0 <= k < h.modes@.len() && first_with_id(modes, h.modes@[k], u) implies exists|j: int|
            0 <= j < list.len() && #[trigger] list[j] == mode_from(modes[u]) by {
            first_where_is(modes, mode_is(h.modes@[k]), u);
            assert(known(modes)(h.modes@[k]));
            filter_has(h.modes@, known(modes), k);
            let j = choose|j: int| 0 <= j < ids.len() && ids[j] == h.modes@[k];
            assert(list[j] == mode_from(modes[u]));
        }
        if closest_at(list, wanted) is Some {
            let k = closest_at(list, wanted)->0;
            let id = ids[k];
            filter_meets(h.modes@, known(modes), k);
            filter_held(h.modes@, known(modes), k);
            first_where_facts(modes, mode_is(id));
            let t = first_where(modes, mode_is(id))->0;
            assert(first_with_id(modes, id, t)) by {
                assert forall|j: int| 0 <= j < t implies (#[trigger] modes[j]).id != id by {
                    assert(!mode_is(id)(modes[j]));
                }
            }
            assert(list[k] == mode_from(modes[t]));
            assert forall|a: int, u: int|
                #![trigger h.modes@[a], modes[u]]
                0 <= a < h.modes@.len() && first_with_id(modes, h.modes@[a], u) && modes[u].width
                    == wanted.width && modes[u].height == wanted.height implies apart(
                modes[t].refresh_mhz as int,
                wanted.refresh_mhz as int,
            ) <= apart(modes[u].refresh_mhz as int, wanted.refresh_mhz as int) by {
                let j = choose|j: int|
                    0 <= j < list.len() && #[trigger] list[j] == mode_from(modes[u]);
                assert(list[j].width == wanted.width);
            }
        } else {
            assert forall|a: int, u: int|
                #![trigger h.modes@[a], modes[u]]
                0 <= a < h.modes@.len() && first_with_id(
                    modes,
                    h.modes@[a],
                    u,
                ) implies modes[u].width != wanted.width || modes[u].height != wanted.height by {
                let j = choose|j: int|
                    0 <= j < list.len() && #[trigger] list[j] == mode_from(modes[u]);
                assert(list[j].width != wanted.width || list[j].height != wanted.height);
            }
        }
    }
}

/// Whether a mode is the first with an id.
pub open spec fn first_with_id(modes: Seq<ModeMirror>, id: u64, t: int) -> bool {
    &&& 0 <= t < modes.len()
    &&& modes[t].id == id
    &&& forall|j: int| 0 <= j < t ==> (#[trigger] modes[j]).id != id
}

/// An output that no head is named after cannot be configured.
pub proof fn unknown_head_is_refused(
    p: PlannedOutput,
    heads: Seq<HeadMirror>,
    modes: Seq<ModeMirror>,
)
    requires
        forall|j: int|
            0 <= j < heads.len() ==> (#[trigger] heads[j]).name@ != p.identity.connector@,
    ensures
        command_for(p, heads, modes) == Err::<HeadCommand, Obstacle>(Obstacle::Unknown),
    decreases heads.len(),
{
    if heads.len() > 0 {
        let t = heads.drop_last();
        assert(forall|j: int| 0 <= j < t.len() ==> t[j] == heads[j]);
        assert(heads[heads.len() - 1].name@ != p.identity.connector@);
        unknown_head_is_refused(p, t, modes);
        assert(head_named(t, p.identity.connector@) is None);
    }
}

/// What an event tells of a head is what is read of its output from then on, and
/// nothing else of it changes.
pub proof fn last_event_is_what_is_read(
    before: Mirror,
    id: u64,
    e: HeadEvent,
    after: Mirror,
    k: int,
    was: Output,
    is: Output,
    primary: bool,
)
    requires
        head_step(before, id, e, after),
        0 <= k < before.heads@.len(),
        before.heads@[k].id == id,
        forall|j: int| 0 <= j < k ==> (#[trigger] before.heads@[j]).id != id,
        !(e is Finished),
        described(was, before.heads@[k], before.modes@, primary),
        described(is, after.heads@[k], after.modes@, primary),
    ensures
        e matches HeadEvent::Name(s) ==> is.identity.connector@ == s@,
        !(e is Name) ==> is.identity.connector@ == was.identity.connector@,
        e matches HeadEvent::Description(s) ==> (s@.len() > 0 ==> is.display_name@ == s@),
        e matches HeadEvent::Enabled(on) ==> is.enabled == on && (!on ==> is.mode is None) && (on
            ==> is.mode == was.mode),
        !(e is Enabled) ==> is.enabled == was.enabled,
        e matches HeadEvent::Position(x, y) ==> is.position == (x, y),
        !(e is Position) ==> is.position == was.position,
        e matches HeadEvent::Transform(t) ==> (t < 8 ==> transform_code(is.transform) == t),
        !(e is Transform) ==> is.transform == was.transform,
        e matches HeadEvent::Scale(s) ==> (scale_positive(s) ==> is.scale == s),
        !(e is Scale) ==> is.scale == was.scale,
        e matches HeadEvent::Make(s) ==> (s@.len() > 0 ==> is.identity.edid is Some
            && is.identity.edid->0.vendor@ == s@),
        e matches HeadEvent::Model(s) ==> (s@.len() > 0 ==> is.identity.edid is Some
            && is.identity.edid->0.product@ == s@),
        e matches HeadEvent::SerialNumber(s) ==> (s@.len() > 0 ==> is.identity.edid is Some
            && is.identity.edid->0.serial@ == s@),
        e matches HeadEvent::CurrentMode(m) ==> forall|t: int|
            first_with_id(after.modes@, m, t) ==> is.mode == Some(
                Mode {
                    width: #[trigger] after.modes@[t].width,
                    height: after.modes@[t].height,
                    refresh_mhz: after.modes@[t].refresh_mhz,
                },
            ),
        e matches HeadEvent::Mode(m) ==> after.heads@[k].modes@ == before.heads@[k].modes@.push(m),
        after.heads@.len() == before.heads@.len(),
        forall|j: int|
            0 <= j < before.heads@.len() && j != k ==> #[trigger] after.heads@[j]
                == before.heads@[j],
{
    first_where_is(before.heads@, head_is(id), k);
    if let HeadEvent::Transform(t) = e {
        transform_round_trip(Transform::Normal, t);
    }
    if let HeadEvent::CurrentMode(m) = e {
        assert forall|t: int| first_with_id(after.modes@, m, t) implies is.mode == Some(
            Mode {
                width: #[trigger] after.modes@[t].width,
                height: after.modes@[t].height,
                refresh_mhz: after.modes@[t].refresh_mhz,
            },
        ) by {
            first_where_is(after.modes@, mode_is(m), t);
        }
    }
}

/// What an event tells of a mode is what the mode is from then on; a negative
/// number counts as zero. The other modes stay as they are.
pub proof fn mode_is_what_was_told(modes: Seq<ModeMirror>, id: u64, e: ModeEvent, t: int)
    requires
        first_with_id(modes, id, t),
        e != ModeEvent::Finished,
    ensures
        ({
            let after = modes_after(modes, id, e);
            &&& after.len() == modes.len()
            &&& after[t].id == id
            &&& e matches ModeEvent::Size(w, h) ==> (w >= 0 ==> after[t].width == w) && (h >= 0
                ==> after[t].height == h) && (w < 0 ==> after[t].width == 0) && (h < 0
                ==> after[t].height == 0)
            &&& !(e is Size) ==> after[t].width == modes[t].width && after[t].height
                == modes[t].height
            &&& e matches ModeEvent::Refresh(r) ==> (r >= 0 ==> after[t].refresh_mhz == r) && (r < 0
                ==> after[t].refresh_mhz == 0)
            &&& !(e is Refresh) ==> after[t].refresh_mhz == modes[t].refresh_mhz
            &&& after[t].preferred == (e is Preferred || modes[t].preferred)
            &&& forall|j: int|
                0 <= j < modes.len() && j != t ==> #[trigger] after[j] == modes[j]
        }),
{
    first_where_is(modes, mode_is(id), t);
}

/// An output offers exactly the modes of its head of which something is known, in
/// their order, and prefers one that is marked so, whenever any is.
pub proof fn offered_modes_are_those_of_the_head(
    o: Output,
    h: HeadMirror,
    modes: Seq<ModeMirror>,
    primary: bool,
)
    requires
        described(o, h, modes, primary),
        forall|k: int|
            0 <= k < h.modes@.len() ==> exists|t: int|
                first_with_id(modes, #[trigger] h.modes@[k], t),
    ensures
        o.modes@.len() == h.modes@.len(),
        forall|k: int, t: int|
            #![trigger h.modes@[k], modes[t]]
            0 <= k < h.modes@.len() && first_with_id(modes, h.modes@[k], t) ==> {
                &&& o.modes@[k].width == modes[t].width
                &&& o.modes@[k].height == modes[t].height
                &&& o.modes@[k].refresh_mhz == modes[t].refresh_mhz
                &&& modes[t].preferred ==> o.preferred_mode is Some
            },
        o.preferred_mode matches Some(m) ==> exists|k: int, t: int|
            0 <= k < h.modes@.len() && #[trigger] first_with_id(modes, #[trigger] h.modes@[k], t)
                && modes[t].preferred && m == o.modes@[k],
{
    let ids = h.modes@.filter(known(modes));
    assert forall|k: int| 0 <= k < h.modes@.len() implies known(modes)(#[trigger] h.modes@[k]) by {
        let t = choose|t: int| first_with_id(modes, h.modes@[k], t);
        first_where_is(modes, mode_is(h.modes@[k]), t);
    }
    filter_all(h.modes@, known(modes));
    let mirrors = known_modes(h.modes@, modes);
    assert forall|k: int, t: int|
        #![trigger h.modes@[k], modes[t]]
        0 <= k < h.modes@.len() && first_with_id(modes, h.modes@[k], t) implies mirrors[k]
        == modes[t] && o.modes@[k] == mode_from(modes[t]) by {
        first_where_is(modes, mode_is(h.modes@[k]), t);
    }
    first_where_facts(mirrors, preferred());
    if first_where(mirrors, preferred()) is Some {
        let k = first_where(mirrors, preferred())->0;
        let t = choose|t: int| first_with_id(modes, h.modes@[k], t);
        assert(mirrors[k] == modes[t]);
        assert(preferred()(mirrors[k]));
        assert(first_with_id(modes, h.modes@[k], t) && modes[t].preferred);
    }
    assert forall|k: int, t: int|
        #![trigger h.modes@[k], modes[t]]
        0 <= k < h.modes@.len() && first_with_id(modes, h.modes@[k], t)
            && modes[t].preferred implies o.preferred_mode is Some by {
        assert(preferred()(mirrors[k]));
    }
}

/// A head that was just announced is off, and shows nothing until its events come.
pub proof fn announced_head_is_off(h: HeadMirror, id: u64)
    requires
        is_new_head(h, id),
    ensures
        h.id == id,
        !h.enabled,
        h.current_mode is None,
        h.modes@.len() == 0,
        h.name@.len() == 0 && h.make@.len() == 0 && h.model@.len() == 0
            && h.serial_number@.len() == 0 && h.description@.len() == 0,
        h.position == (0i32, 0i32),
        transform_code(h.transform) == 0,
        h.scale.bits == 0x3ff0_0000_0000_0000,
        new_mode(id).id == id,
        new_mode(id).width == 0 && new_mode(id).height == 0 && new_mode(id).refresh_mhz == 0,
        !new_mode(id).preferred,
{
}

} // verus!
