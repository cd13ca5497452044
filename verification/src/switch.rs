//! Switching one output on or off: the layout to apply, and whether the
//! change needs a revert timer.

use crate::guards::{risk_name, RiskClass};
use crate::identity::{unrelated, MatchQuality, OutputIdentity};
use crate::ipc::SetOpts;
use crate::layout::{
    chosen_primary, edge_facts, enabled_primary, index_of_planned, left_edge, logical_width,
    moved_alike, normalized, normalized_alike, normalized_one, planned_of, planned_with,
    spread_fits, spread_within, top_edge, width_nonnegative, width_of,
};
use crate::remembered::{
    around_at, as_neighbor, beside, neighbors_in, recalled, recalled_around,
    remembered_config_is_recalled, remembered_with, remembers, slot_for, Neighbor,
    RememberedLayouts,
};
use crate::seqs::{
    filter_has, filter_held, first_where, first_where_facts, first_where_is, first_where_none,
};
use crate::text::join2;
use crate::topology::{
    distinct_connectors, has_mode, mode_or, planned_as_is, planned_at, planned_enabled,
    plans_as_is, LayoutPlan, Mode, Output, PlannedOutput, Topology,
};
use vstd::prelude::*;

verus! {

/// The right edge of the enabled outputs.
pub open spec fn right_edge(s: Seq<PlannedOutput>) -> Option<int>
    decreases s.len(),
{
    if s.len() == 0 {
        None
    } else {
        let rest = right_edge(s.drop_last());
        let edge = s.last().position.0 + width_of(s.last());
        if !s.last().enabled {
            rest
        } else if rest is None || edge > rest->0 {
            Some(edge)
        } else {
            rest
        }
    }
}

/// Whether the right edge of every enabled output is a coordinate.
pub open spec fn edges_fit(s: Seq<PlannedOutput>) -> bool {
    forall|i: int|
        0 <= i < s.len() && (#[trigger] s[i]).enabled ==> s[i].position.0 + width_of(s[i])
            <= i32::MAX
}

/// The first advertised mode.
pub open spec fn first_mode(modes: Seq<Mode>) -> Option<Mode> {
    if modes.len() > 0 {
        Some(modes[0])
    } else {
        None
    }
}

/// A remembered mode, if the display still advertises it.
pub open spec fn still_advertised(mode: Option<Mode>, modes: Seq<Mode>) -> Option<Mode> {
    match mode {
        Some(m) => if modes.contains(m) {
            Some(m)
        } else {
            None
        },
        None => None,
    }
}

/// How far a neighbor that is on has moved since it was remembered. A place in a
/// plan is left out of account.
pub open spec fn shift_of(n: Neighbor, s: Seq<PlannedOutput>, i: int) -> Option<(int, int)> {
    match planned_of(n.identity, s) {
        Some(j) => if j != i && s[j].enabled {
            Some((s[j].position.0 - n.position.0, s[j].position.1 - n.position.1))
        } else {
            None
        },
        None => None,
    }
}

/// The condition that a neighbor is on.
pub open spec fn still_on(s: Seq<PlannedOutput>, i: int) -> spec_fn(Neighbor) -> bool {
    |n: Neighbor| shift_of(n, s, i) is Some
}

/// Whether all neighbors that are on have moved by one distance.
pub open spec fn moved_by(
    around: Seq<Neighbor>,
    s: Seq<PlannedOutput>,
    i: int,
    by: (int, int),
) -> bool {
    forall|k: int|
        0 <= k < around.len() && shift_of(#[trigger] around[k], s, i) is Some ==> shift_of(
            around[k],
            s,
            i,
        ) == Some(by)
}

/// How far the outputs around a remembered one have moved since: as far as all of
/// its neighbors that are on have, if that is one distance, otherwise not at all.
pub open spec fn drift(around: Seq<Neighbor>, s: Seq<PlannedOutput>, i: int) -> (int, int) {
    match first_where(around, still_on(s, i)) {
        Some(k) => {
            let by = shift_of(around[k], s, i)->0;
            if moved_by(around, s, i, by) {
                by
            } else {
                (0, 0)
            }
        },
        None => (0, 0),
    }
}

/// A planned output switched on: with its remembered layout when known, beside
/// its neighbors as before, otherwise in its preferred mode at the right edge of
/// the desktop.
pub open spec fn switched_on(
    p: PlannedOutput,
    o: Output,
    remembered: Option<PlannedOutput>,
    moved: (int, int),
    edge: i32,
) -> PlannedOutput {
    match remembered {
        Some(r) => PlannedOutput {
            identity: p.identity,
            enabled: true,
            mode: mode_or(
                still_advertised(r.mode, o.modes@),
                mode_or(o.preferred_mode, first_mode(o.modes@)),
            ),
            position: ((r.position.0 + moved.0) as i32, (r.position.1 + moved.1) as i32),
            scale: r.scale,
            transform: r.transform,
            primary: r.primary,
        },
        None => PlannedOutput {
            enabled: true,
            mode: mode_or(o.preferred_mode, mode_or(o.mode, first_mode(o.modes@))),
            position: (edge, 0),
            ..p
        },
    }
}

/// Whether the place of a remembered output that is switched on is a coordinate.
pub open spec fn place_fits(s: Seq<PlannedOutput>, o: Output, m: RememberedLayouts) -> bool {
    match (first_where(s, planned_at(o.identity.connector@)), recalled(m.outputs@, o.identity)) {
        (Some(i), Some(r)) => {
            let moved = drift(recalled_around(m, o.identity), s, i);
            &&& i32::MIN <= r.position.0 + moved.0 <= i32::MAX
            &&& i32::MIN <= r.position.1 + moved.1 <= i32::MAX
        },
        _ => true,
    }
}

/// The right edge as a coordinate; zero for an empty desktop.
pub open spec fn edge_or_zero(s: Seq<PlannedOutput>) -> i32 {
    match right_edge(s) {
        Some(e) => e as i32,
        None => 0,
    }
}

/// A plan with one output switched on or off, the others as they are.
pub open spec fn switched(
    s: Seq<PlannedOutput>,
    o: Output,
    want: bool,
    m: RememberedLayouts,
) -> Seq<PlannedOutput> {
    match first_where(s, planned_at(o.identity.connector@)) {
        Some(i) => s.update(
            i,
            if want {
                switched_on(
                    s[i],
                    o,
                    recalled(m.outputs@, o.identity),
                    drift(recalled_around(m, o.identity), s, i),
                    edge_or_zero(s),
                )
            } else {
                PlannedOutput { enabled: false, ..s[i] }
            },
        ),
        None => s,
    }
}

/// A plan in which an output that is primary is the only one.
pub open spec fn sole_primary(s: Seq<PlannedOutput>, i: int) -> Seq<PlannedOutput> {
    Seq::new(
        s.len(),
        |j: int|
            PlannedOutput { primary: s[j].primary && (j == i || !s[i].primary), ..s[j] },
    )
}

/// A plan with one output switched on or off, before normalization: an output
/// that is remembered as primary takes the mark back.
pub open spec fn switch_plan(
    s: Seq<PlannedOutput>,
    o: Output,
    want: bool,
    m: RememberedLayouts,
) -> Seq<PlannedOutput> {
    match first_where(s, planned_at(o.identity.connector@)) {
        Some(i) => if want && recalled(m.outputs@, o.identity) is Some {
            sole_primary(switched(s, o, want, m), i)
        } else {
            switched(s, o, want, m)
        },
        None => s,
    }
}

fn neighbor_shift(n: &Neighbor, plan: &LayoutPlan, i: usize) -> (r: Option<(i64, i64)>)
    ensures
        match (r, shift_of(*n, plan.outputs@, i as int)) {
            (Some(by), Some(want)) => want == (by.0 as int, by.1 as int) && -0x1_0000_0000 < by.0
                < 0x1_0000_0000 && -0x1_0000_0000 < by.1 < 0x1_0000_0000,
            (None, None) => true,
            _ => false,
        },
{
    let j: usize = match index_of_planned(&plan.outputs, &n.identity) {
        Some(j) => j,
        None => {
            return None;
        },
    };
    let p = &plan.outputs[j];
    if j == i || !p.enabled {
        return None;
    }
    Some(
        (
            p.position.0 as i64 - n.position.0 as i64,
            p.position.1 as i64 - n.position.1 as i64,
        ),
    )
}

fn moved_since(around: &Vec<Neighbor>, plan: &LayoutPlan, i: usize) -> (r: (i64, i64))
    ensures
        drift(around@, plan.outputs@, i as int) == (r.0 as int, r.1 as int),
        -0x1_0000_0000 < r.0 < 0x1_0000_0000,
        -0x1_0000_0000 < r.1 < 0x1_0000_0000,
{
    let ghost s = plan.outputs@;
    let ghost on = still_on(s, i as int);
    let mut found: Option<(i64, i64)> = None;
    let ghost mut at: int = 0;
    for k in 0..around.len()
        invariant
            s == plan.outputs@,
            on == still_on(s, i as int),
            match found {
                Some(by) => {
                    &&& 0 <= at < k
                    &&& first_where(around@, on) == Some(at)
                    &&& shift_of(around@[at], s, i as int) == Some((by.0 as int, by.1 as int))
                    &&& -0x1_0000_0000 < by.0 < 0x1_0000_0000
                    &&& -0x1_0000_0000 < by.1 < 0x1_0000_0000
                    &&& forall|j: int|
                        0 <= j < k && shift_of(#[trigger] around@[j], s, i as int) is Some
                            ==> shift_of(around@[j], s, i as int) == Some(
                            (by.0 as int, by.1 as int),
                        )
                },
                None => forall|j: int| 0 <= j < k ==> !on(around@[j]),
            },
    {
        if let Some(by) = neighbor_shift(&around[k], plan, i) {
            match found {
                Some(first) => {
                    if by.0 != first.0 || by.1 != first.1 {
                        assert(shift_of(around@[k as int], s, i as int) is Some);
                        return (0, 0);
                    }
                },
                None => {
                    proof {
                        first_where_is(around@, on, k as int);
                        at = k as int;
                    }
                    found = Some(by);
                },
            }
        }
    }
    match found {
        Some(by) => by,
        None => {
            proof {
                first_where_none(around@, on);
            }
            (0, 0)
        },
    }
}

fn rightmost_edge(plan: &LayoutPlan) -> (r: i32)
    requires
        edges_fit(plan.outputs@),
    ensures
        r == edge_or_zero(plan.outputs@),
{
    let mut edge: Option<i32> = None;
    let ghost s = plan.outputs@;
    for i in 0..plan.outputs.len()
        invariant
            s == plan.outputs@,
            edges_fit(s),
            match (edge, right_edge(s.take(i as int))) {
                (Some(e), Some(want)) => e == want,
                (None, None) => true,
                _ => false,
            },
    {
        assert(s.take(i + 1).drop_last() =~= s.take(i as int));
        let p = &plan.outputs[i];
        if p.enabled {
            assert(s[i as int].enabled);
            let w = logical_width(p);
            let e: i32 = p.position.0 + w;
            edge = match edge {
                Some(x) => if e > x {
                    Some(e)
                } else {
                    Some(x)
                },
                None => Some(e),
            };
        }
    }
    assert(s.take(s.len() as int) =~= s);
    match edge {
        Some(e) => e,
        None => 0,
    }
}

fn or_mode(a: Option<Mode>, b: Option<Mode>) -> (r: Option<Mode>)
    ensures
        r == mode_or(a, b),
{
    match a {
        Some(m) => Some(m),
        None => b,
    }
}

/// Plan enabling `output`: restore remembered layout when known, otherwise
/// preferred mode at the right edge of the desktop.
pub fn plan_enable(plan: &mut LayoutPlan, output: &Output, remembered: &RememberedLayouts)
    requires
        edges_fit(old(plan).outputs@),
        first_where(old(plan).outputs@, planned_at(output.identity.connector@)) is Some,
        place_fits(old(plan).outputs@, *output, *remembered),
    ensures
        final(plan).serial == old(plan).serial,
        final(plan).outputs@ == switched(old(plan).outputs@, *output, true, *remembered),
{
    let edge = rightmost_edge(plan);
    let first: Option<Mode> = if output.modes.len() > 0 {
        Some(output.modes[0])
    } else {
        None
    };
    if let Some(i) = plan.index_of_connector(output.identity.connector.as_str()) {
        let mut planned = plan.outputs[i].clone();
        planned.enabled = true;
        match remembered.find(&output.identity) {
            Some(rem) => {
                let kept: Option<Mode> = match rem.mode {
                    Some(m) => if has_mode(&output.modes, m) {
                        Some(m)
                    } else {
                        None
                    },
                    None => None,
                };
                planned.mode = or_mode(kept, or_mode(output.preferred_mode, first));
                let around = remembered.neighbors_for(&output.identity);
                let moved = moved_since(&around, plan, i);
                planned.position = (
                    (rem.position.0 as i64 + moved.0) as i32,
                    (rem.position.1 as i64 + moved.1) as i32,
                );
                planned.scale = rem.scale;
                planned.transform = rem.transform;
                planned.primary = rem.primary;
            },
            None => {
                planned.mode = or_mode(output.preferred_mode, or_mode(output.mode, first));
                planned.position = (edge, 0);
            },
        }
        plan.outputs[i] = planned;
    }
}

fn claim_primary(plan: &mut LayoutPlan, i: usize)
    requires
        i < old(plan).outputs@.len(),
    ensures
        final(plan).serial == old(plan).serial,
        final(plan).outputs@ == sole_primary(old(plan).outputs@, i as int),
{
    let ghost s = plan.outputs@;
    if !plan.outputs[i].primary {
        assert(plan.outputs@ =~= sole_primary(s, i as int));
        return ;
    }
    let n: usize = plan.outputs.len();
    let mut j: usize = 0;
    while j < n
        invariant
            j <= n == s.len(),
            i < n,
            s[i as int].primary,
            plan.serial == old(plan).serial,
            plan.outputs@.len() == n,
            forall|k: int| 0 <= k < j ==> plan.outputs@[k] == sole_primary(s, i as int)[k],
            forall|k: int| j <= k < n ==> plan.outputs@[k] == s[k],
        decreases n - j,
    {
        if j != i {
            plan.outputs[j].primary = false;
        }
        j = j + 1;
    }
    assert(plan.outputs@ =~= sole_primary(s, i as int));
}

/// The plan that switches one output of a snapshot on or off, before
/// normalization.
pub fn plan_switch(
    topology: &Topology,
    output: &Output,
    want: bool,
    remembered: &RememberedLayouts,
) -> (r: LayoutPlan)
    requires
        want ==> edges_fit(plans_as_is(topology.outputs@)),
        want ==> first_where(
            plans_as_is(topology.outputs@),
            planned_at(output.identity.connector@),
        ) is Some,
        want ==> place_fits(plans_as_is(topology.outputs@), *output, *remembered),
    ensures
        r.serial == topology.serial,
        r.outputs@ == switch_plan(plans_as_is(topology.outputs@), *output, want, *remembered),
{
    let mut plan = LayoutPlan::from_topology(topology);
    proof {
        first_where_facts(plan.outputs@, planned_at(output.identity.connector@));
    }
    if want {
        let place = plan.index_of_connector(output.identity.connector.as_str());
        plan_enable(&mut plan, output, remembered);
        if let Some(i) = place {
            if remembered.find(&output.identity).is_some() {
                claim_primary(&mut plan, i);
            }
        }
    } else {
        plan.set_enabled(output.identity.connector.as_str(), false);
    }
    plan
}

/// Whether the place of a remembered output that is switched on is a coordinate.
fn place_within(plan: &LayoutPlan, output: &Output, remembered: &RememberedLayouts) -> (r: bool)
    ensures
        r == place_fits(plan.outputs@, *output, *remembered),
{
    match (
        plan.index_of_connector(output.identity.connector.as_str()),
        remembered.find(&output.identity),
    ) {
        (Some(i), Some(rem)) => {
            let around = remembered.neighbors_for(&output.identity);
            let moved = moved_since(&around, plan, i);
            let x: i64 = rem.position.0 as i64 + moved.0;
            let y: i64 = rem.position.1 as i64 + moved.1;
            i32::MIN as i64 <= x && x <= i32::MAX as i64 && i32::MIN as i64 <= y && y
                <= i32::MAX as i64
        },
        _ => true,
    }
}

/// Whether the right edge of every enabled output of a plan is a coordinate.
pub fn edges_within(plan: &LayoutPlan) -> (r: bool)
    ensures
        r == edges_fit(plan.outputs@),
{
    for i in 0..plan.outputs.len()
        invariant
            forall|j: int|
                0 <= j < i && (#[trigger] plan.outputs@[j]).enabled
                    ==> plan.outputs@[j].position.0 + width_of(plan.outputs@[j]) <= i32::MAX,
    {
        let p = &plan.outputs[i];
        if p.enabled {
            let edge: i64 = p.position.0 as i64 + logical_width(p) as i64;
            if edge > i32::MAX as i64 {
                assert(plan.outputs@[i as int].enabled);
                return false;
            }
        }
    }
    true
}

/// The state that a request asks for.
pub open spec fn wanted(o: Output, enabled: Option<bool>) -> bool {
    match enabled {
        Some(w) => w,
        None => !o.enabled,
    }
}

/// Whether all coordinates of a switched layout fit.
pub open spec fn switch_fits(
    outputs: Seq<Output>,
    o: Output,
    want: bool,
    m: RememberedLayouts,
) -> bool {
    &&& want ==> edges_fit(plans_as_is(outputs))
    &&& want ==> first_where(plans_as_is(outputs), planned_at(o.identity.connector@)) is Some
    &&& want ==> place_fits(plans_as_is(outputs), o, m)
    &&& spread_fits(switch_plan(plans_as_is(outputs), o, want, m))
}

/// The layout that switches one output.
pub open spec fn switch_layout(
    outputs: Seq<Output>,
    o: Output,
    want: bool,
    m: RememberedLayouts,
) -> Seq<PlannedOutput> {
    normalized(switch_plan(plans_as_is(outputs), o, want, m))
}

/// Whether all coordinates of a switched layout fit.
pub fn switch_is_within(
    topology: &Topology,
    output: &Output,
    want: bool,
    remembered: &RememberedLayouts,
) -> (r: bool)
    ensures
        r == switch_fits(topology.outputs@, *output, want, *remembered),
{
    if want {
        let current = LayoutPlan::from_topology(topology);
        if !edges_within(&current) {
            return false;
        }
        if current.index_of_connector(output.identity.connector.as_str()).is_none() {
            return false;
        }
        if !place_within(&current, output, remembered) {
            return false;
        }
    }
    spread_within(&plan_switch(topology, output, want, remembered))
}

// ---------------------------------------------------------- revert timers

/// Why a change is refused.
#[derive(Debug, Clone, Copy, PartialEq, Eq, Structural)]
pub enum Refusal {
    /// A mandatory timer was to be left out.
    TimerMandatory(RiskClass),
    /// A risky change was not acknowledged.
    NotAcknowledged(RiskClass),
    /// A fullscreen program seems to be running.
    Fullscreen,
}

/// What a refusal says to the user.
pub open spec fn refusal_message(r: Refusal) -> Seq<char> {
    match r {
        Refusal::TimerMandatory(risk) => risk_name(risk)
            + ": the auto-revert timer is mandatory and cannot be disabled"@,
        Refusal::NotAcknowledged(risk) => risk_name(risk)
            + ": risky change requires the caller to acknowledge with force"@,
        Refusal::Fullscreen =>
            "a fullscreen application appears to be running; acknowledge with force to disable anyway"@,
    }
}

impl Refusal {
    /// The refusal's message.
    pub fn message(&self) -> (r: String)
        ensures
            r@ == refusal_message(*self),
    {
        match self {
            Refusal::TimerMandatory(risk) => join2(
                risk.name(),
                ": the auto-revert timer is mandatory and cannot be disabled",
            ),
            Refusal::NotAcknowledged(risk) => join2(
                risk.name(),
                ": risky change requires the caller to acknowledge with force",
            ),
            Refusal::Fullscreen =>
                "a fullscreen application appears to be running; acknowledge with force to disable anyway".to_owned(),
        }
    }
}

/// The revert timer of a change, in seconds, or why the change is refused:
/// risky changes always have a timer and must be acknowledged; routine changes
/// have one when asked for.
pub open spec fn timer_rule(risk: RiskClass, opts: SetOpts, default_secs: u64) -> Result<
    Option<u64>,
    Refusal,
> {
    if risk != RiskClass::Routine {
        if opts.no_timer {
            Err(Refusal::TimerMandatory(risk))
        } else if !opts.force {
            Err(Refusal::NotAcknowledged(risk))
        } else {
            Ok(
                Some(
                    match opts.revert_secs {
                        Some(s) => s,
                        None => default_secs,
                    },
                ),
            )
        }
    } else if opts.no_timer {
        Ok(None)
    } else {
        Ok(opts.revert_secs)
    }
}

/// The revert timer of a change, or why it is refused.
pub fn timer_for(risk: RiskClass, opts: SetOpts, default_secs: u64) -> (r: Result<
    Option<u64>,
    Refusal,
>)
    ensures
        r == timer_rule(risk, opts, default_secs),
{
    if risk.timer_mandatory() {
        if opts.no_timer {
            return Err(Refusal::TimerMandatory(risk));
        }
        if !opts.force {
            return Err(Refusal::NotAcknowledged(risk));
        }
        Ok(
            Some(
                match opts.revert_secs {
                    Some(s) => s,
                    None => default_secs,
                },
            ),
        )
    } else if opts.no_timer {
        Ok(None)
    } else {
        Ok(opts.revert_secs)
    }
}

// --------------------------------------------------------------------- laws

/// No option makes a risky change go without a revert timer.
pub proof fn risky_change_has_a_timer(risk: RiskClass, opts: SetOpts, default_secs: u64)
    requires
        risk != RiskClass::Routine,
    ensures
        timer_rule(risk, opts, default_secs) != Ok::<Option<u64>, Refusal>(None),
{
}

/// Switching an output on again after it was switched off and remembered gives
/// back its scale, transform and primary mark, its position beside its neighbors,
/// and its mode as long as the display still advertises it.
pub proof fn switching_on_restores_what_was_remembered(
    then: PlannedOutput,
    m: RememberedLayouts,
    plan: Seq<PlannedOutput>,
    now: Output,
    i: int,
)
    requires
        then.identity == now.identity,
        recalled(m.outputs@, now.identity) == Some(then),
        first_where(plan, planned_at(now.identity.connector@)) == Some(i),
        place_fits(plan, now, m),
        0 <= i < plan.len(),
    ensures
        ({
            let p = switch_plan(plan, now, true, m)[i];
            let moved = drift(recalled_around(m, now.identity), plan, i);
            &&& p.enabled
            &&& p.position.0 == then.position.0 + moved.0
            &&& p.position.1 == then.position.1 + moved.1
            &&& p.scale == then.scale
            &&& p.transform == then.transform
            &&& p.primary == then.primary
            &&& then.mode is Some && now.modes@.contains(then.mode->0) ==> p.mode == then.mode
        }),
{
}

/// Switching one output leaves the plans of all others alone, but that one which
/// is remembered as primary takes the mark.
pub proof fn switching_keeps_the_others(
    plan: Seq<PlannedOutput>,
    o: Output,
    want: bool,
    m: RememberedLayouts,
    j: int,
)
    requires
        0 <= j < plan.len(),
        plan[j].identity.connector@ != o.identity.connector@,
    ensures
        switch_plan(plan, o, want, m).len() == plan.len(),
        switch_plan(plan, o, want, m)[j] == (PlannedOutput {
            primary: switch_plan(plan, o, want, m)[j].primary,
            ..plan[j]
        }),
        !want || !(recalled(m.outputs@, o.identity) matches Some(r) && r.primary) ==> switch_plan(
            plan,
            o,
            want,
            m,
        )[j] == plan[j],
{
    first_where_facts(plan, planned_at(o.identity.connector@));
}

/// An output of a snapshot is found again in a plan that has the same outputs.
proof fn found_again(was: Seq<Output>, then: Seq<PlannedOutput>, n: int)
    requires
        was.len() == then.len(),
        distinct_connectors(was),
        0 <= n < was.len(),
        forall|j: int| 0 <= j < was.len() ==> (#[trigger] then[j]).identity == was[j].identity,
    ensures
        planned_of(was[n].identity, then) == Some(n),
{
    let id = was[n].identity;
    assert(then[n].identity == id);
    if id.edid is Some {
        assert forall|j: int| 0 <= j < n implies !planned_with(id, MatchQuality::Edid, true)(
            then[j],
        ) by {
            assert(then[j].identity == was[j].identity);
        }
        first_where_is(then, planned_with(id, MatchQuality::Edid, true), n);
    } else {
        assert forall|j: int| 0 <= j < n implies !planned_with(
            id,
            MatchQuality::Connector,
            false,
        )(then[j]) by {
            assert(then[j].identity == was[j].identity);
        }
        first_where_none(then, planned_with(id, MatchQuality::Edid, true));
        first_where_none(then, planned_with(id, MatchQuality::Edid, false));
        first_where_is(then, planned_with(id, MatchQuality::Connector, false), n);
    }
}

/// If the neighbors of an output that are on have all moved by one distance, that
/// is the drift.
proof fn common_drift(
    was: Seq<Output>,
    connector: Seq<char>,
    then: Seq<PlannedOutput>,
    i: int,
    by: (int, int),
)
    requires
        0 <= i < was.len(),
        was.len() == then.len(),
        distinct_connectors(was),
        was[i].identity.connector@ == connector,
        forall|j: int| 0 <= j < was.len() ==> (#[trigger] then[j]).identity == was[j].identity,
        forall|j: int|
            0 <= j < was.len() && j != i && (#[trigger] then[j]).enabled ==> {
                &&& was[j].enabled
                &&& then[j].position.0 == was[j].position.0 + by.0
                &&& then[j].position.1 == was[j].position.1 + by.1
            },
    ensures
        drift(neighbors_in(was, connector), then, i) == if exists|j: int|
            0 <= j < was.len() && j != i && (#[trigger] then[j]).enabled {
            by
        } else {
            (0int, 0int)
        },
{
    let near = beside(connector);
    let around = neighbors_in(was, connector);
    let on = still_on(then, i);
    assert forall|k: int| 0 <= k < around.len() && shift_of(#[trigger] around[k], then, i) is Some
        implies shift_of(around[k], then, i) == Some(by) && exists|j: int|
        0 <= j < was.len() && j != i && (#[trigger] then[j]).enabled by {
        filter_held(was, near, k);
        let o = was.filter(near)[k];
        let j = choose|j: int| 0 <= j < was.len() && was[j] == o;
        assert(around[k] == as_neighbor(was[j]));
        found_again(was, then, j);
        assert(then[j].enabled && j != i);
    }
    first_where_facts(around, on);
    if exists|j: int| 0 <= j < was.len() && j != i && (#[trigger] then[j]).enabled {
        let j = choose|j: int| 0 <= j < was.len() && j != i && (#[trigger] then[j]).enabled;
        assert(was[j].identity.connector@ != was[i].identity.connector@);
        assert(near(was[j]));
        filter_has(was, near, j);
        let k = choose|k: int| 0 <= k < was.filter(near).len() && was.filter(near)[k] == was[j];
        found_again(was, then, j);
        assert(around[k] == as_neighbor(was[j]));
        assert(on(around[k]));
    }
}

/// Where the neighbors that are on moved apart from each other, a remembered
/// output comes back at the very place where it was.
pub proof fn output_returns_to_its_place_among_scattered_neighbors(
    then: PlannedOutput,
    m: RememberedLayouts,
    plan: Seq<PlannedOutput>,
    now: Output,
    i: int,
    a: int,
    b: int,
)
    requires
        recalled(m.outputs@, now.identity) == Some(then),
        first_where(plan, planned_at(now.identity.connector@)) == Some(i),
        0 <= i < plan.len(),
        ({
            let around = recalled_around(m, now.identity);
            &&& 0 <= a < around.len()
            &&& 0 <= b < around.len()
            &&& shift_of(around[a], plan, i) is Some
            &&& shift_of(around[b], plan, i) is Some
            &&& shift_of(around[a], plan, i) != shift_of(around[b], plan, i)
        }),
    ensures
        switch_plan(plan, now, true, m)[i].position == then.position,
{
    let around = recalled_around(m, now.identity);
    first_where_facts(around, still_on(plan, i));
}

/// An output that is switched on again stands beside every other output that is
/// on as it did when it was switched off, whatever was switched in between, as
/// long as those others still stand to each other as they did.
pub proof fn switched_on_output_rejoins_the_others(
    was: Seq<Output>,
    m: RememberedLayouts,
    i: int,
    now: Seq<Output>,
    by: (int, int),
    j: int,
)
    requires
        0 <= i < was.len(),
        was.len() == now.len(),
        distinct_connectors(was),
        forall|k: int| 0 <= k < was.len() ==> (#[trigger] now[k]).identity == was[k].identity,
        // The output was remembered among its neighbors.
        recalled(m.outputs@, was[i].identity) == Some(planned_as_is(was[i])),
        recalled_around(m, was[i].identity) == neighbors_in(was, was[i].identity.connector@),
        // The others that are on have moved by one distance.
        forall|k: int|
            0 <= k < was.len() && k != i && (#[trigger] now[k]).enabled ==> {
                &&& was[k].enabled
                &&& now[k].position.0 == was[k].position.0 + by.0
                &&& now[k].position.1 == was[k].position.1 + by.1
            },
        place_fits(plans_as_is(now), now[i], m),
        0 <= j < was.len(),
        j != i,
        now[j].enabled,
    ensures
        ({
            let on = switch_plan(plans_as_is(now), now[i], true, m);
            &&& on[i].enabled
            &&& on[j].enabled
            &&& on[i].position.0 - on[j].position.0 == was[i].position.0 - was[j].position.0
            &&& on[i].position.1 - on[j].position.1 == was[i].position.1 - was[j].position.1
        }),
{
    let then = plans_as_is(now);
    let c = was[i].identity.connector@;
    assert(now[i].identity == was[i].identity);
    assert forall|k: int| 0 <= k < i implies !planned_at(c)(then[k]) by {
        assert(now[k].identity == was[k].identity);
        assert(was[k].identity.connector@ != was[i].identity.connector@);
    }
    first_where_is(then, planned_at(c), i);
    assert forall|k: int| 0 <= k < was.len() implies (#[trigger] then[k]).identity
        == was[k].identity by {
        assert(now[k].identity == was[k].identity);
    }
    assert forall|k: int| 0 <= k < was.len() && k != i && (#[trigger] then[k]).enabled implies {
        &&& was[k].enabled
        &&& then[k].position.0 == was[k].position.0 + by.0
        &&& then[k].position.1 == was[k].position.1 + by.1
    } by {
        assert(now[k].enabled);
    }
    common_drift(was, c, then, i, by);
    assert(then[j].enabled);
    let one = switched(then, now[i], true, m);
    assert(one[j] == then[j]);
}

/// An output that is switched off and then on again is back exactly as it was,
/// and so is the whole layout, wherever switching it off moved the others and
/// whichever became primary, as long as the display still advertises its mode.
pub proof fn switching_off_and_on_restores_the_layout(
    was: Seq<Output>,
    before: RememberedLayouts,
    after: RememberedLayouts,
    i: int,
    now: Seq<Output>,
)
    requires
        0 <= i < was.len(),
        was[i].enabled,
        // The layout was normalized, and no two outputs share a connector.
        normalized(plans_as_is(was)) == plans_as_is(was),
        distinct_connectors(was),
        // Afterwards the outputs are as planned, and the output is remembered.
        plans_as_is(now) == switch_layout(was, was[i], false, before),
        remembers(
            before,
            after,
            planned_as_is(was[i]),
            neighbors_in(was, was[i].identity.connector@),
        ),
        // The mode is still there.
        planned_as_is(was[i]).mode matches Some(m) && now[i].modes@.contains(m),
    ensures
        switch_layout(now, now[i], true, after) == plans_as_is(was),
{
    let s = plans_as_is(was);
    let c = was[i].identity.connector@;
    assert forall|j: int| 0 <= j < i implies !planned_at(c)(s[j]) by {
        assert(was[j].identity.connector@ != was[i].identity.connector@);
    }
    first_where_is(s, planned_at(c), i);
    let off = s.update(i, PlannedOutput { enabled: false, ..s[i] });
    let then = plans_as_is(now);
    assert(then == normalized(off));
    assert(then.len() == s.len() && now.len() == was.len());
    // The distance by which the others moved.
    first_where_facts(off, planned_enabled());
    edge_facts(off);
    edge_facts(s);
    let some_on = first_where(off, planned_enabled()) is Some;
    let by: (int, int) = if some_on {
        (-left_edge(off)->0, -top_edge(off)->0)
    } else {
        (0, 0)
    };
    assert(s[i].enabled);
    first_where_facts(s, planned_enabled());
    assert(planned_enabled()(s[i]));
    assert forall|j: int| 0 <= j < s.len() && #[trigger] s[j].enabled implies s[j].position.0 >= 0
        && s[j].position.1 >= 0 by {
        assert(normalized(s)[j] == normalized_one(s, j));
    }
    if some_on {
        let a = choose|a: int|
            0 <= a < off.len() && (#[trigger] off[a]).enabled && off[a].position.0
                == left_edge(off)->0;
        let b = choose|b: int|
            0 <= b < off.len() && (#[trigger] off[b]).enabled && off[b].position.1
                == top_edge(off)->0;
        assert(s[a].enabled && s[b].enabled);
    }
    assert forall|j: int| 0 <= j < s.len() implies {
        let t = #[trigger] then[j];
        &&& t.identity == s[j].identity
        &&& t.mode == s[j].mode
        &&& t.scale == s[j].scale
        &&& t.transform == s[j].transform
        &&& t.enabled == (s[j].enabled && j != i)
        &&& t.enabled ==> t.position.0 == s[j].position.0 + by.0 && t.position.1
            == s[j].position.1 + by.1
        &&& !t.enabled ==> t.position == s[j].position
    } by {
        if off[j].enabled {
            assert(planned_enabled()(off[j]));
            assert(normalized(off)[j] == normalized_one(off, j));
            assert(s[j].enabled);
        }
    }
    assert(then[i] == planned_as_is(now[i]));
    assert(now[i].identity == was[i].identity);
    assert forall|j: int| 0 <= j < i implies !planned_at(c)(then[j]) by {
        assert(then[j].identity == s[j].identity);
        assert(!planned_at(c)(s[j]));
    }
    first_where_is(then, planned_at(c), i);
    remembered_config_is_recalled(before.outputs@, planned_as_is(was[i]), now[i].identity);
    let around = recalled_around(after, now[i].identity);
    assert(around == around_at(
        after.neighbors@,
        slot_for(before.outputs@, planned_as_is(was[i]).identity),
    ));
    assert(around == neighbors_in(was, c));
    assert forall|j: int| 0 <= j < was.len() implies (#[trigger] then[j]).identity
        == was[j].identity by {
        assert(s[j].identity == was[j].identity);
    }
    assert forall|j: int| 0 <= j < was.len() && j != i && (#[trigger] then[j]).enabled implies {
        &&& was[j].enabled
        &&& then[j].position.0 == was[j].position.0 + by.0
        &&& then[j].position.1 == was[j].position.1 + by.1
    } by {
        assert(s[j].enabled && s[j].position == was[j].position);
    }
    common_drift(was, c, then, i, by);
    if some_on {
        let k = first_where(off, planned_enabled())->0;
        assert(planned_enabled()(off[k]));
        assert(then[k].enabled && k != i);
    }
    assert(drift(around, then, i) == by);
    let one = switched(then, now[i], true, after);
    let on = switch_plan(then, now[i], true, after);
    assert(s[i].position.0 + by.0 >= i32::MIN && s[i].position.1 + by.1 >= i32::MIN);
    assert(one[i] == (PlannedOutput { position: one[i].position, ..s[i] }));
    assert forall|j: int| 0 <= j < on.len() implies moved_alike(#[trigger] on[j], s[j], by) by {
        if j != i {
            assert(one[j] == then[j]);
        }
    }
    // The same output ends up primary.
    let p = chosen_primary(s)->0;
    first_where_facts(s, enabled_primary());
    assert forall|j: int| 0 <= j < s.len() implies #[trigger] s[j].primary == (chosen_primary(s)
        == Some(j)) by {
        assert(normalized(s)[j] == normalized_one(s, j));
    }
    assert(0 <= p < s.len() && s[p].primary && s[p].enabled);
    assert(chosen_primary(on) == Some(p)) by {
        if p == i {
            assert forall|j: int| 0 <= j < i implies !enabled_primary()(on[j]) by {}
            first_where_is(on, enabled_primary(), i);
        } else {
            // Its own mark kept the other output primary.
            assert forall|j: int| 0 <= j < p implies !enabled_primary()(off[j]) by {
                assert(!s[j].primary);
            }
            first_where_is(off, enabled_primary(), p);
            assert(off[p].enabled);
            assert(planned_enabled()(off[p]));
            assert forall|j: int| 0 <= j < then.len() implies #[trigger] then[j].primary == (j
                == p) by {
                assert(normalized(off)[j] == normalized_one(off, j));
            }
            assert forall|j: int| 0 <= j < p implies !enabled_primary()(on[j]) by {
                if j != i {
                    assert(one[j] == then[j]);
                }
            }
            assert(one[p] == then[p]);
            assert(on[p].enabled);
            first_where_is(on, enabled_primary(), p);
        }
    }
    normalized_alike(on, s, by);
}

/// Whether nothing is remembered of a display: no remembered one has its EDID or
/// its connector.
pub open spec fn forgotten(m: RememberedLayouts, id: OutputIdentity) -> bool {
    forall|k: int| 0 <= k < m.outputs@.len() ==> unrelated((#[trigger] m.outputs@[k]).identity, id)
}

/// Whether an output of a plan is the first at a connector.
pub open spec fn first_at(plan: Seq<PlannedOutput>, connector: Seq<char>, i: int) -> bool {
    &&& 0 <= i < plan.len()
    &&& plan[i].identity.connector@ == connector
    &&& forall|j: int| 0 <= j < i ==> (#[trigger] plan[j]).identity.connector@ != connector
}

proof fn right_edge_is_the_outermost(s: Seq<PlannedOutput>)
    ensures
        match right_edge(s) {
            Some(e) => {
                &&& exists|k: int|
                    0 <= k < s.len() && (#[trigger] s[k]).enabled && e == s[k].position.0
                        + width_of(s[k])
                &&& forall|k: int|
                    0 <= k < s.len() && (#[trigger] s[k]).enabled ==> s[k].position.0 + width_of(
                        s[k],
                    ) <= e
            },
            None => forall|k: int| 0 <= k < s.len() ==> !(#[trigger] s[k]).enabled,
        },
    decreases s.len(),
{
    if s.len() > 0 {
        let t = s.drop_last();
        right_edge_is_the_outermost(t);
        assert(forall|k: int| 0 <= k < t.len() ==> t[k] == s[k]);
        let n = s.len() - 1;
        assert(s[n] == s.last());
        if right_edge(t) is Some {
            let k = choose|k: int|
                0 <= k < t.len() && (#[trigger] t[k]).enabled && right_edge(t)->0 == t[k].position.0
                    + width_of(t[k]);
            assert(s[k].enabled);
        }
        assert forall|k: int| 0 <= k < s.len() && (#[trigger] s[k]).enabled implies right_edge(
            s,
        ) is Some && s[k].position.0 + width_of(s[k]) <= right_edge(s)->0 by {
            if k < n {
                assert(t[k].enabled);
            }
        }
    }
}

/// An output that is switched on and of which nothing is remembered comes up in its
/// preferred mode, else in the one it has, else in the first that it advertises; it
/// stands right of everything that is on, touching what reaches furthest.
pub proof fn unknown_output_comes_up_beside_the_others(
    plan: Seq<PlannedOutput>,
    o: Output,
    m: RememberedLayouts,
    i: int,
)
    requires
        first_at(plan, o.identity.connector@, i),
        forgotten(m, o.identity),
        edges_fit(plan),
    ensures
        ({
            let p = switch_plan(plan, o, true, m)[i];
            &&& p.enabled
            &&& o.preferred_mode is Some ==> p.mode == o.preferred_mode
            &&& o.preferred_mode is None && o.mode is Some ==> p.mode == o.mode
            &&& o.preferred_mode is None && o.mode is None && o.modes@.len() > 0 ==> p.mode == Some(
                o.modes@[0],
            )
            &&& p.mode is None ==> o.modes@.len() == 0
            &&& p.position.1 == 0
            &&& forall|k: int|
                0 <= k < plan.len() && (#[trigger] plan[k]).enabled ==> plan[k].position.0
                    + width_of(plan[k]) <= p.position.0
            &&& (exists|k: int| 0 <= k < plan.len() && (#[trigger] plan[k]).enabled) ==> exists|
                k: int,
            |
                0 <= k < plan.len() && (#[trigger] plan[k]).enabled && plan[k].position.0
                    + width_of(plan[k]) == p.position.0
            &&& (forall|k: int| 0 <= k < plan.len() ==> !(#[trigger] plan[k]).enabled)
                ==> p.position.0 == 0
            &&& p.identity == plan[i].identity
            &&& p.scale == plan[i].scale
            &&& p.transform == plan[i].transform
            &&& p.primary == plan[i].primary
        }),
{
    first_where_is(plan, planned_at(o.identity.connector@), i);
    first_where_none(m.outputs@, remembered_with(o.identity, MatchQuality::Edid));
    first_where_none(m.outputs@, remembered_with(o.identity, MatchQuality::Connector));
    right_edge_is_the_outermost(plan);
    if right_edge(plan) is Some {
        let k = choose|k: int|
            0 <= k < plan.len() && (#[trigger] plan[k]).enabled && right_edge(plan)->0
                == plan[k].position.0 + width_of(plan[k]);
        width_nonnegative(plan[k]);
    }
}

/// An output that is switched on and remembered in a mode that it no longer
/// advertises, or in none, comes up in its preferred mode, else in the first that
/// it advertises.
pub proof fn lost_mode_is_replaced(
    then: PlannedOutput,
    plan: Seq<PlannedOutput>,
    o: Output,
    m: RememberedLayouts,
    i: int,
)
    requires
        first_at(plan, o.identity.connector@, i),
        recalled(m.outputs@, o.identity) == Some(then),
        then.mode matches Some(mode) ==> !o.modes@.contains(mode),
    ensures
        ({
            let p = switch_plan(plan, o, true, m)[i];
            &&& p.enabled
            &&& o.preferred_mode is Some ==> p.mode == o.preferred_mode
            &&& o.preferred_mode is None && o.modes@.len() > 0 ==> p.mode == Some(o.modes@[0])
            &&& o.preferred_mode is None && o.modes@.len() == 0 ==> p.mode is None
        }),
{
    first_where_is(plan, planned_at(o.identity.connector@), i);
}

/// An output that was remembered without neighbors comes back at the very place
/// that was remembered.
pub proof fn lone_output_returns_to_its_place(
    then: PlannedOutput,
    plan: Seq<PlannedOutput>,
    o: Output,
    m: RememberedLayouts,
    i: int,
)
    requires
        first_at(plan, o.identity.connector@, i),
        recalled(m.outputs@, o.identity) == Some(then),
        recalled_around(m, o.identity).len() == 0,
    ensures
        switch_plan(plan, o, true, m)[i].position == then.position,
{
    first_where_is(plan, planned_at(o.identity.connector@), i);
    first_where_none(recalled_around(m, o.identity), still_on(plan, i));
}

/// Switching an output off takes it out of the desktop and changes nothing else,
/// neither of it nor of the others.
pub proof fn switching_off_only_disables(
    plan: Seq<PlannedOutput>,
    o: Output,
    m: RememberedLayouts,
    i: int,
)
    requires
        first_at(plan, o.identity.connector@, i),
    ensures
        switch_plan(plan, o, false, m).len() == plan.len(),
        switch_plan(plan, o, false, m)[i] == (PlannedOutput { enabled: false, ..plan[i] }),
        forall|j: int|
            0 <= j < plan.len() && j != i ==> #[trigger] switch_plan(plan, o, false, m)[j]
                == plan[j],
{
    first_where_is(plan, planned_at(o.identity.connector@), i);
}

/// A request says what it wants; a toggle wants the other state, so that two of
/// them in a row want the first state again.
pub proof fn toggling_turns_over(o: Output, then: Output)
    requires
        then.enabled == wanted(o, None),
    ensures
        wanted(o, Some(true)),
        !wanted(o, Some(false)),
        wanted(o, None) != o.enabled,
        wanted(then, None) == o.enabled,
{
}

/// A timer runs for exactly as long as was asked for, and for the configured time
/// where nothing was asked for, which only happens to a risky change.
pub proof fn timer_runs_as_long_as_asked(risk: RiskClass, opts: SetOpts, default_secs: u64)
    ensures
        timer_rule(risk, opts, default_secs) matches Ok(Some(secs)) ==> {
            &&& opts.revert_secs matches Some(asked) ==> secs == asked
            &&& opts.revert_secs is None ==> secs == default_secs && risk != RiskClass::Routine
        },
{
}

/// A change is refused exactly where it is risky and either not acknowledged or
/// asked to go without a timer; it goes without one exactly where it is routine and
/// none is asked for, or asked not to be.
pub proof fn only_unguarded_risk_is_refused(risk: RiskClass, opts: SetOpts, default_secs: u64)
    ensures
        timer_rule(risk, opts, default_secs) is Err <==> risk != RiskClass::Routine && (
        opts.no_timer || !opts.force),
        risk != RiskClass::Routine && opts.no_timer ==> timer_rule(risk, opts, default_secs) == Err::<
            Option<u64>,
            Refusal,
        >(Refusal::TimerMandatory(risk)),
        risk != RiskClass::Routine && !opts.no_timer && !opts.force ==> timer_rule(
            risk,
            opts,
            default_secs,
        ) == Err::<Option<u64>, Refusal>(Refusal::NotAcknowledged(risk)),
        timer_rule(risk, opts, default_secs) == Ok::<Option<u64>, Refusal>(None) <==> risk
            == RiskClass::Routine && (opts.no_timer || opts.revert_secs is None),
{
}

} // verus!
