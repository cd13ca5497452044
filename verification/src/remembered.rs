//! Remembered per-output layouts.
//!
//! When NoSignal disables an output it stores the output's full logical
//! config (mode, position, scale, transform, primary) so re-enable restores
//! it exactly: the display server forgets disabled outputs' placement.
//! Entries are keyed by output identity with the usual EDID-first matching.
//!
//! Positions only mean something beside those of the other outputs, which move
//! when the layout is brought back to the origin. So with each config stands
//! where the other enabled outputs were.

use crate::identity::{
    edids_agree, quality, quality_goes_by_edid_then_connector, unrelated, MatchQuality,
    OutputIdentity,
};
use crate::seqs::{
    filter_has, filter_held, filter_meets, filter_push, first_where, first_where_facts,
    first_where_is, first_where_none,
};
use crate::text::{join2, same_text};
use crate::topology::{Output, PlannedOutput};
use vstd::prelude::*;

verus! {

/// Where another output was when a config was remembered.
#[derive(Debug, PartialEq)]
pub struct Neighbor {
    pub identity: OutputIdentity,
    pub position: (i32, i32),
}

impl Clone for Neighbor {
    fn clone(&self) -> (r: Self)
        ensures
            r == *self,
    {
        Neighbor { identity: self.identity.clone(), position: self.position }
    }
}

/// Where the other enabled outputs were when a config was remembered.
#[derive(Debug, PartialEq)]
pub struct Neighbors {
    pub outputs: Vec<Neighbor>,
}

/// The remembered configs, at most one per EDID. The neighbors at an index belong
/// to the config at that index.
#[derive(Debug, PartialEq)]
pub struct RememberedLayouts {
    pub outputs: Vec<PlannedOutput>,
    pub neighbors: Vec<Neighbors>,
}

/// The neighbors at an index, none where nothing is stored.
pub open spec fn around_at(neighbors: Seq<Neighbors>, k: int) -> Seq<Neighbor> {
    if 0 <= k < neighbors.len() {
        neighbors[k].outputs@
    } else {
        Seq::empty()
    }
}

fn copy_neighbors(list: &Vec<Neighbor>) -> (r: Vec<Neighbor>)
    ensures
        r@ == list@,
{
    let mut out: Vec<Neighbor> = Vec::new();
    for i in 0..list.len()
        invariant
            out@ == list@.take(i as int),
    {
        out.push(list[i].clone());
        assert(list@.take(i as int).push(list@[i as int]) =~= list@.take(i + 1));
    }
    assert(list@.take(list@.len() as int) =~= list@);
    out
}

impl Clone for RememberedLayouts {
    fn clone(&self) -> (r: Self)
        ensures
            r.outputs@ == self.outputs@,
            r.neighbors@.len() == self.neighbors@.len(),
            forall|k: int|
                #[trigger] around_at(r.neighbors@, k) == around_at(self.neighbors@, k),
    {
        let mut outputs: Vec<PlannedOutput> = Vec::new();
        for i in 0..self.outputs.len()
            invariant
                outputs@ == self.outputs@.take(i as int),
        {
            outputs.push(self.outputs[i].clone());
            assert(self.outputs@.take(i as int).push(self.outputs@[i as int])
                =~= self.outputs@.take(i + 1));
        }
        assert(self.outputs@.take(self.outputs@.len() as int) =~= self.outputs@);
        let mut neighbors: Vec<Neighbors> = Vec::new();
        for i in 0..self.neighbors.len()
            invariant
                neighbors.len() == i,
                forall|k: int|
                    0 <= k < i ==> (#[trigger] neighbors@[k]).outputs@
                        == self.neighbors@[k].outputs@,
        {
            neighbors.push(Neighbors { outputs: copy_neighbors(&self.neighbors[i].outputs) });
        }
        RememberedLayouts { outputs, neighbors }
    }
}

impl Default for RememberedLayouts {
    fn default() -> (r: Self)
        ensures
            r.outputs@.len() == 0,
            r.neighbors@.len() == 0,
    {
        RememberedLayouts { outputs: Vec::new(), neighbors: Vec::new() }
    }
}

/// Why remembered layouts cannot be used.
#[derive(Debug, PartialEq, Eq)]
pub enum RememberedError {
    Io(String),
    Parse(String),
    Serialize(String),
}

/// What such an error says to the user.
pub open spec fn remembered_message(e: RememberedError) -> Seq<char> {
    match e {
        RememberedError::Io(m) => "failed to read remembered layouts: "@ + m@,
        RememberedError::Parse(m) => "remembered layouts file is corrupt: "@ + m@,
        RememberedError::Serialize(m) => "failed to serialize remembered layouts: "@ + m@,
    }
}

impl RememberedError {
    /// The error's message.
    pub fn message(&self) -> (r: String)
        ensures
            r@ == remembered_message(*self),
    {
        match self {
            RememberedError::Io(m) => join2("failed to read remembered layouts: ", m.as_str()),
            RememberedError::Parse(m) => join2("remembered layouts file is corrupt: ", m.as_str()),
            RememberedError::Serialize(m) => join2(
                "failed to serialize remembered layouts: ",
                m.as_str(),
            ),
        }
    }
}

/// The condition that a remembered config matches an identity at one quality.
pub open spec fn remembered_with(id: OutputIdentity, q: MatchQuality) -> spec_fn(
    PlannedOutput,
) -> bool {
    |p: PlannedOutput| quality(p.identity, id) == q
}

/// Where the config of a display is remembered: at the first EDID match,
/// otherwise at the first connector match.
pub open spec fn recalled_at(s: Seq<PlannedOutput>, id: OutputIdentity) -> Option<int> {
    match first_where(s, remembered_with(id, MatchQuality::Edid)) {
        Some(i) => Some(i),
        None => first_where(s, remembered_with(id, MatchQuality::Connector)),
    }
}

/// The config remembered for a display.
pub open spec fn recalled(s: Seq<PlannedOutput>, id: OutputIdentity) -> Option<PlannedOutput> {
    match recalled_at(s, id) {
        Some(i) => Some(s[i]),
        None => None,
    }
}

/// Where a config for a display goes: in place of the one that is remembered for
/// it, or at the end.
pub open spec fn slot_for(s: Seq<PlannedOutput>, id: OutputIdentity) -> int {
    match recalled_at(s, id) {
        Some(i) => i,
        None => s.len() as int,
    }
}

/// The configs with one more, in its slot.
pub open spec fn with_remembered(s: Seq<PlannedOutput>, p: PlannedOutput) -> Seq<PlannedOutput> {
    match recalled_at(s, p.identity) {
        Some(i) => s.update(i, p),
        None => s.push(p),
    }
}

/// What is remembered after a config was remembered among its neighbors.
pub open spec fn remembers(
    before: RememberedLayouts,
    after: RememberedLayouts,
    p: PlannedOutput,
    around: Seq<Neighbor>,
) -> bool {
    &&& after.outputs@ == with_remembered(before.outputs@, p)
    &&& forall|k: int|
        #[trigger] around_at(after.neighbors@, k) == if k == slot_for(
            before.outputs@,
            p.identity,
        ) {
            around
        } else {
            around_at(before.neighbors@, k)
        }
}

/// The neighbors that were remembered with the config of a display.
pub open spec fn recalled_around(m: RememberedLayouts, id: OutputIdentity) -> Seq<Neighbor> {
    match recalled_at(m.outputs@, id) {
        Some(i) => around_at(m.neighbors@, i),
        None => Seq::empty(),
    }
}

/// The condition that an output is enabled and not the one at a connector.
pub open spec fn beside(connector: Seq<char>) -> spec_fn(Output) -> bool {
    |o: Output| o.enabled && o.identity.connector@ != connector
}

/// An output as a neighbor.
pub open spec fn as_neighbor(o: Output) -> Neighbor {
    Neighbor { identity: o.identity, position: o.position }
}

/// The neighbors of the output at a connector.
pub open spec fn neighbors_in(outputs: Seq<Output>, connector: Seq<char>) -> Seq<Neighbor> {
    outputs.filter(beside(connector)).map_values(|o: Output| as_neighbor(o))
}

/// The neighbors of the output at a connector.
pub fn neighbors_of(outputs: &Vec<Output>, connector: &str) -> (r: Vec<Neighbor>)
    ensures
        r@ == neighbors_in(outputs@, connector@),
{
    let mut out: Vec<Neighbor> = Vec::new();
    proof {
        assert(outputs@.take(0) =~= Seq::<Output>::empty());
        reveal(Seq::filter);
        assert(out@ =~= neighbors_in(outputs@.take(0), connector@));
    }
    for i in 0..outputs.len()
        invariant
            out@ == neighbors_in(outputs@.take(i as int), connector@),
    {
        proof {
            filter_push(outputs@.take(i as int), beside(connector@), outputs@[i as int]);
            assert(outputs@.take(i as int).push(outputs@[i as int]) =~= outputs@.take(i + 1));
        }
        let o = &outputs[i];
        if o.enabled && !same_text(o.identity.connector.as_str(), connector) {
            out.push(Neighbor { identity: o.identity.clone(), position: o.position });
            assert(out@ =~= neighbors_in(outputs@.take(i + 1), connector@));
        } else {
            assert(out@ =~= neighbors_in(outputs@.take(i + 1), connector@));
        }
    }
    assert(outputs@.take(outputs@.len() as int) =~= outputs@);
    out
}

impl RememberedLayouts {
    fn index_with(&self, identity: &OutputIdentity, q: MatchQuality) -> (r: Option<usize>)
        ensures
            match (r, first_where(self.outputs@, remembered_with(*identity, q))) {
                (Some(i), Some(want)) => i == want && i < self.outputs@.len(),
                (None, None) => true,
                _ => false,
            },
    {
        for i in 0..self.outputs.len()
            invariant
                forall|j: int| 0 <= j < i ==> !remembered_with(*identity, q)(self.outputs@[j]),
        {
            if self.outputs[i].identity.match_quality(identity) == q {
                proof {
                    first_where_is(self.outputs@, remembered_with(*identity, q), i as int);
                }
                return Some(i);
            }
        }
        proof {
            first_where_none(self.outputs@, remembered_with(*identity, q));
        }
        None
    }

    fn index_for(&self, identity: &OutputIdentity) -> (r: Option<usize>)
        ensures
            match (r, recalled_at(self.outputs@, *identity)) {
                (Some(i), Some(want)) => i == want && i < self.outputs@.len(),
                (None, None) => true,
                _ => false,
            },
    {
        match self.index_with(identity, MatchQuality::Edid) {
            Some(i) => Some(i),
            None => self.index_with(identity, MatchQuality::Connector),
        }
    }

    /// Best entry for an identity: EDID match first, connector fallback.
    pub fn find(&self, identity: &OutputIdentity) -> (r: Option<&PlannedOutput>)
        ensures
            match (r, recalled(self.outputs@, *identity)) {
                (Some(p), Some(want)) => *p == want,
                (None, None) => true,
                _ => false,
            },
    {
        match self.index_for(identity) {
            Some(i) => Some(&self.outputs[i]),
            None => None,
        }
    }

    /// The neighbors that were remembered with the best entry for an identity.
    pub fn neighbors_for(&self, identity: &OutputIdentity) -> (r: Vec<Neighbor>)
        ensures
            r@ == recalled_around(*self, *identity),
    {
        match self.index_for(identity) {
            Some(i) => if i < self.neighbors.len() {
                copy_neighbors(&self.neighbors[i].outputs)
            } else {
                Vec::new()
            },
            None => Vec::new(),
        }
    }

    /// Insert or replace the entry of this output's display, which is known
    /// without neighbors.
    pub fn upsert(&mut self, planned: PlannedOutput)
        ensures
            remembers(*old(self), *final(self), planned, Seq::empty()),
    {
        self.remember(planned, Vec::new());
    }

    /// Insert or replace the entry of this output's display, with where the other
    /// outputs are.
    pub fn remember(&mut self, planned: PlannedOutput, around: Vec<Neighbor>)
        ensures
            remembers(*old(self), *final(self), planned, around@),
    {
        let ghost was = self.neighbors@;
        let ghost id = planned.identity;
        let slot: usize = match self.index_for(&planned.identity) {
            Some(i) => {
                self.outputs[i] = planned;
                i
            },
            None => {
                let n: usize = self.outputs.len();
                self.outputs.push(planned);
                n
            },
        };
        assert(slot == slot_for(old(self).outputs@, id));
        while self.neighbors.len() <= slot
            invariant
                self.outputs@ == with_remembered(old(self).outputs@, planned),
                forall|k: int| #[trigger] around_at(self.neighbors@, k) == around_at(was, k),
            decreases slot + 1 - self.neighbors.len(),
        {
            let ghost before = self.neighbors@;
            self.neighbors.push(Neighbors { outputs: Vec::new() });
            assert forall|k: int| #[trigger] around_at(self.neighbors@, k) == around_at(was, k) by {
                assert(around_at(before, k) == around_at(was, k));
                if k == before.len() {
                    assert(around_at(self.neighbors@, k) =~= Seq::empty());
                }
            }
        }
        let ghost padded = self.neighbors@;
        self.neighbors[slot] = Neighbors { outputs: around };
        assert forall|k: int|
            #[trigger] around_at(self.neighbors@, k) == if k == slot as int {
                around@
            } else {
                around_at(was, k)
            } by {
            assert(around_at(padded, k) == around_at(was, k));
        }
    }
}

// --------------------------------------------------------------------- laws

/// What was remembered last for a display is what is recalled for it, also
/// when the display (known by its EDID) has moved to another connector.
pub proof fn remembered_config_is_recalled(
    s: Seq<PlannedOutput>,
    p: PlannedOutput,
    id: OutputIdentity,
)
    requires
        id == p.identity || quality(p.identity, id) == MatchQuality::Edid,
    ensures
        recalled(with_remembered(s, p), id) == Some(p),
        recalled_at(with_remembered(s, p), id) == Some(slot_for(s, p.identity)),
{
    let t = with_remembered(s, p);
    let edid = remembered_with(p.identity, MatchQuality::Edid);
    let there = remembered_with(p.identity, MatchQuality::Connector);
    first_where_facts(s, edid);
    first_where_facts(s, there);
    let k = slot_for(s, p.identity);
    assert(t[k] == p);
    let q = quality(p.identity, id);
    assert forall|j: int| 0 <= j < k implies !remembered_with(id, q)(t[j]) by {
        assert(t[j] == s[j]);
        assert(!edid(s[j]));
        if q == MatchQuality::Connector {
            assert(!there(s[j]));
        }
    }
    first_where_is(t, remembered_with(id, q), k);
    if q == MatchQuality::Connector {
        first_where_none(t, remembered_with(id, MatchQuality::Edid));
    }
}

/// Remembering one display leaves every other remembered config in place, also
/// that of a display whose connector it took over.
pub proof fn remembering_keeps_the_others(s: Seq<PlannedOutput>, p: PlannedOutput, i: int)
    requires
        0 <= i < s.len(),
        quality(s[i].identity, p.identity) != MatchQuality::Edid,
        quality(s[i].identity, p.identity) == MatchQuality::NoMatch || first_where(
            s,
            remembered_with(p.identity, MatchQuality::Edid),
        ) is Some,
    ensures
        with_remembered(s, p)[i] == s[i],
{
    first_where_facts(s, remembered_with(p.identity, MatchQuality::Edid));
    first_where_facts(s, remembered_with(p.identity, MatchQuality::Connector));
}

/// Whether no two configs are of displays with the same EDID.
pub open spec fn one_per_edid(s: Seq<PlannedOutput>) -> bool {
    forall|i: int, j: int|
        0 <= i < s.len() && 0 <= j < s.len() && i != j ==> quality(
            (#[trigger] s[i]).identity,
            (#[trigger] s[j]).identity,
        ) != MatchQuality::Edid
}

/// At most one config is remembered per EDID.
pub proof fn remembering_keeps_one_per_edid(s: Seq<PlannedOutput>, p: PlannedOutput)
    requires
        one_per_edid(s),
    ensures
        one_per_edid(with_remembered(s, p)),
{
    let t = with_remembered(s, p);
    let edid = remembered_with(p.identity, MatchQuality::Edid);
    first_where_facts(s, edid);
    first_where_facts(s, remembered_with(p.identity, MatchQuality::Connector));
    let k = slot_for(s, p.identity);
    assert forall|i: int, j: int|
        0 <= i < t.len() && 0 <= j < t.len() && i != j implies quality(
        (#[trigger] t[i]).identity,
        (#[trigger] t[j]).identity,
    ) != MatchQuality::Edid by {
        let other = if i == k {
            j
        } else {
            i
        };
        if i == k || j == k {
            assert(t[other] == s[other]);
            if first_where(s, edid) is Some {
                assert(edid(s[k]));
                assert(quality(s[other].identity, s[k].identity) != MatchQuality::Edid);
            } else {
                assert(!edid(s[other]));
            }
        } else {
            assert(t[i] == s[i] && t[j] == s[j]);
        }
    }
}

/// A display is recalled by its EDID; only where no remembered EDID agrees with it does its
/// connector count. Nothing is recalled for a display that shares neither.
pub proof fn recall_goes_by_edid_then_connector(s: Seq<PlannedOutput>, id: OutputIdentity, k: int)
    requires
        0 <= k < s.len(),
    ensures
        ({
            let found = recalled_at(s, id);
            &&& found is Some ==> {
                &&& 0 <= found->0 < s.len()
                &&& recalled(s, id) == Some(s[found->0])
                &&& edids_agree(s[found->0].identity, id) || s[found->0].identity.connector@
                    == id.connector@
            }
            &&& edids_agree(s[k].identity, id) ==> found is Some && found->0 <= k && edids_agree(
                s[found->0].identity,
                id,
            )
            &&& s[k].identity.connector@ == id.connector@ ==> found is Some && (found->0 <= k
                || edids_agree(s[found->0].identity, id))
            &&& unrelated(s[k].identity, id) ==> found != Some(k)
        }),
{
    let edid = remembered_with(id, MatchQuality::Edid);
    let there = remembered_with(id, MatchQuality::Connector);
    first_where_facts(s, edid);
    first_where_facts(s, there);
    quality_goes_by_edid_then_connector(s[k].identity, id);
    if edids_agree(s[k].identity, id) {
        assert(edid(s[k]));
    } else if s[k].identity.connector@ == id.connector@ {
        assert(there(s[k]));
    }
    if recalled_at(s, id) is Some {
        let f = recalled_at(s, id)->0;
        quality_goes_by_edid_then_connector(s[f].identity, id);
        assert(edid(s[f]) || there(s[f]));
    }
}

/// The neighbors of an output are the other outputs that are on, each where it is.
pub proof fn neighbors_are_the_others_that_are_on(
    outputs: Seq<Output>,
    connector: Seq<char>,
    i: int,
    k: int,
)
    requires
        0 <= i < outputs.len(),
    ensures
        outputs[i].enabled && outputs[i].identity.connector@ != connector ==> neighbors_in(
            outputs,
            connector,
        ).contains(Neighbor { identity: outputs[i].identity, position: outputs[i].position }),
        0 <= k < neighbors_in(outputs, connector).len() ==> {
            let n = neighbors_in(outputs, connector)[k];
            &&& n.identity.connector@ != connector
            &&& exists|j: int|
                0 <= j < outputs.len() && (#[trigger] outputs[j]).enabled && outputs[j].identity
                    == n.identity && outputs[j].position == n.position
        },
{
    let p = beside(connector);
    let kept = outputs.filter(p);
    if p(outputs[i]) {
        filter_has(outputs, p, i);
        let j = choose|j: int| 0 <= j < kept.len() && kept[j] == outputs[i];
        assert(neighbors_in(outputs, connector)[j] == as_neighbor(outputs[i]));
    }
    if 0 <= k < kept.len() {
        filter_meets(outputs, p, k);
        filter_held(outputs, p, k);
        let j = choose|j: int| 0 <= j < outputs.len() && outputs[j] == kept[k];
        assert(outputs[j].enabled);
        assert(neighbors_in(outputs, connector)[k] == as_neighbor(kept[k]));
    }
}

/// What was around a display when its config was remembered is recalled with it, also when
/// the display has moved to another connector.
pub proof fn neighbors_are_recalled_with_the_config(
    before: RememberedLayouts,
    after: RememberedLayouts,
    p: PlannedOutput,
    around: Seq<Neighbor>,
    id: OutputIdentity,
    k: int,
)
    requires
        remembers(before, after, p, around),
        id == p.identity || edids_agree(p.identity, id),
    ensures
        recalled(after.outputs@, id) == Some(p),
        recalled_around(after, id) == around,
        0 <= k < before.outputs@.len() && recalled_at(before.outputs@, p.identity) != Some(k)
            ==> after.outputs@[k] == before.outputs@[k] && around_at(after.neighbors@, k)
            == around_at(before.neighbors@, k),
{
    remembered_config_is_recalled(before.outputs@, p, id);
    let i = recalled_at(after.outputs@, id)->0;
    assert(around_at(after.neighbors@, i) == around);
    recall_is_within(before.outputs@, p.identity);
}

proof fn recall_is_within(s: Seq<PlannedOutput>, id: OutputIdentity)
    ensures
        recalled_at(s, id) matches Some(i) ==> 0 <= i < s.len(),
{
    first_where_facts(s, remembered_with(id, MatchQuality::Edid));
    first_where_facts(s, remembered_with(id, MatchQuality::Connector));
}

} // verus!
