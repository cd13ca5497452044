//! In-memory mock display backend used for headless testing of NoSignal.
//!
//! Fulfills the full backend contract (serial checking, whole-layout applies,
//! change events) and adds test controls: simulate hotplugs, external changes,
//! and forced failures; count applies for loop-guard tests.

use crate::backend::{ApplyMode, Capabilities, TopologyEvent};
use crate::error::BackendError;
use crate::layout::enabled_primary;
use crate::seqs::{
    filter_has, filter_meets, filter_push, first_where, first_where_facts, first_where_is,
    first_where_none,
};
use crate::text::{decimal, decimal_reads_back, decimal_text, join2, join3, push_decimal, same_text};
use crate::topology::{
    distinct_connectors, output_at, planned_at, planned_enabled, same_topology, LayoutPlan, Mode,
    Output, PlannedOutput, Topology,
};
use vstd::prelude::*;

verus! {

/// The mock backend.
#[derive(Debug)]
pub struct MockBackend {
    pub topology: Topology,
    /// Number of the current configuration; the topology's serial is its
    /// decimal notation.
    pub serial: u64,
    /// Number of successful applies.
    pub applies: usize,
    /// The next apply fails.
    pub failing: bool,
    pub native_persistence: bool,
    /// Events for watchers, oldest first.
    pub events: Vec<TopologyEvent>,
}

/// What is wrong with a plan.
pub enum Fault {
    /// A live output is not planned.
    Missing(Seq<char>),
    /// A planned output is not there.
    Unknown(Seq<char>),
    /// An output to be enabled has no mode.
    Modeless(Seq<char>),
    /// The enabled outputs have this many primaries, not one.
    Primaries(nat),
}

/// The condition that a live output is missing from a plan.
pub open spec fn unplanned(plan: Seq<PlannedOutput>) -> spec_fn(Output) -> bool {
    |o: Output| first_where(plan, planned_at(o.identity.connector@)) is None
}

/// The condition that a planned output cannot be applied.
pub open spec fn unusable(outputs: Seq<Output>) -> spec_fn(PlannedOutput) -> bool {
    |p: PlannedOutput|
        first_where(outputs, output_at(p.identity.connector@)) is None || (p.enabled && p.mode
            is None)
}

/// The first thing wrong with a plan, if anything is.
pub open spec fn fault_of(plan: Seq<PlannedOutput>, outputs: Seq<Output>) -> Option<Fault> {
    match first_where(outputs, unplanned(plan)) {
        Some(i) => Some(Fault::Missing(outputs[i].identity.connector@)),
        None => match first_where(plan, unusable(outputs)) {
            Some(i) => Some(
                if first_where(outputs, output_at(plan[i].identity.connector@)) is None {
                    Fault::Unknown(plan[i].identity.connector@)
                } else {
                    Fault::Modeless(plan[i].identity.connector@)
                },
            ),
            None => {
                let n = plan.filter(enabled_primary()).len();
                if first_where(plan, planned_enabled()) is Some && n != 1 {
                    Some(Fault::Primaries(n))
                } else {
                    None
                }
            },
        },
    }
}

/// The error that reports a fault.
pub open spec fn reports(e: BackendError, fault: Fault) -> bool {
    match fault {
        Fault::Missing(c) => e matches BackendError::InvalidLayout(m) && m@
            == "plan is missing output "@ + c,
        Fault::Unknown(c) => e matches BackendError::UnknownOutput(m) && m@ == c,
        Fault::Modeless(c) => e matches BackendError::InvalidLayout(m) && m@ == "enabled output "@
            + c + " has no mode"@,
        Fault::Primaries(n) => e matches BackendError::InvalidLayout(m) && m@
            == "expected exactly one enabled primary, got "@ + decimal(n),
    }
}

/// An output in its planned state.
pub open spec fn as_planned(o: Output, p: PlannedOutput) -> Output {
    Output {
        enabled: p.enabled,
        mode: if p.enabled {
            p.mode
        } else {
            None
        },
        position: p.position,
        scale: p.scale,
        transform: p.transform,
        primary: p.enabled && p.primary,
        ..o
    }
}

/// The outputs after each of the first `n` planned outputs was applied to the
/// first output with its connector.
pub open spec fn applied(outputs: Seq<Output>, plan: Seq<PlannedOutput>, n: int) -> Seq<Output>
    decreases n,
{
    if n <= 0 {
        outputs
    } else {
        let before = applied(outputs, plan, n - 1);
        let p = plan[n - 1];
        match first_where(before, output_at(p.identity.connector@)) {
            Some(i) => before.update(i, as_planned(before[i], p)),
            None => before,
        }
    }
}

/// The condition that an output has another connector.
pub open spec fn output_elsewhere(connector: Seq<char>) -> spec_fn(Output) -> bool {
    |o: Output| o.identity.connector@ != connector
}

/// What applying a plan leads to, from the backend `before` to the backend `after`.
pub open spec fn apply_result(
    r: Result<(), BackendError>,
    before: MockBackend,
    after: MockBackend,
    plan: LayoutPlan,
    mode: ApplyMode,
) -> bool {
    let fault = fault_of(plan.outputs@, before.topology.outputs@);
    if before.failing {
        &&& r matches Err(BackendError::Server(m)) && m@ == "mock: forced failure"@
        &&& after == (MockBackend { failing: false, ..before })
    } else if plan.serial@ != before.topology.serial@ {
        &&& r matches Err(BackendError::StaleSerial)
        &&& after == before
    } else if fault is Some {
        &&& r matches Err(e) && reports(e, fault->0)
        &&& after == before
    } else if mode == ApplyMode::Verify {
        &&& r is Ok
        &&& after == before
    } else {
        &&& r is Ok
        &&& after.wf()
        &&& after.serial == before.serial + 1
        &&& after.applies == if before.applies == usize::MAX {
            0
        } else {
            (before.applies + 1) as usize
        }
        &&& after.topology.outputs@ == applied(
            before.topology.outputs@,
            plan.outputs@,
            plan.outputs@.len() as int,
        )
        &&& after.events@ == before.events@.push(TopologyEvent::Changed)
        &&& after == (MockBackend {
            topology: after.topology,
            serial: after.serial,
            applies: after.applies,
            events: after.events,
            ..before
        })
    }
}

impl MockBackend {
    /// The serial shown is that of the current configuration.
    pub open spec fn wf(self) -> bool {
        self.topology.serial@ == decimal(self.serial as nat)
    }

    pub fn new(topology: Topology) -> (r: Self)
        ensures
            r.wf(),
            r.serial == 1,
            r.topology.outputs == topology.outputs,
            r.applies == 0,
            !r.failing,
            r.native_persistence,
            r.events@.len() == 0,
    {
        let mut topology = topology;
        topology.serial = decimal_text(1);
        MockBackend {
            topology,
            serial: 1,
            applies: 0,
            failing: false,
            native_persistence: true,
            events: Vec::new(),
        }
    }

    /// A mock that reports no native persistence (like the X11 backend).
    pub fn without_native_persistence(self) -> (r: Self)
        ensures
            r == (MockBackend { native_persistence: false, ..self }),
    {
        let mut backend = self;
        backend.native_persistence = false;
        backend
    }

    /// Number of successful applies so far (for loop-guard tests).
    pub fn apply_count(&self) -> (r: usize)
        ensures
            r == self.applies,
    {
        self.applies
    }

    /// Make the next apply fail with a server error.
    pub fn fail_next_apply(&mut self)
        ensures
            *final(self) == (MockBackend { failing: true, ..*old(self) }),
    {
        self.failing = true;
    }

    /// Current topology.
    pub fn topology(&self) -> (r: Topology)
        ensures
            same_topology(r, self.topology),
    {
        self.topology.clone()
    }

    pub fn name(&self) -> (r: &'static str)
        ensures
            r@ == "mock"@,
    {
        "mock"
    }

    pub fn capabilities(&self) -> (r: Capabilities)
        ensures
            r.native_persistence == self.native_persistence,
            r.events,
    {
        Capabilities { native_persistence: self.native_persistence, events: true }
    }

    /// Events for watchers, oldest first; none are left afterwards.
    pub fn take_events(&mut self) -> (r: Vec<TopologyEvent>)
        ensures
            r@ == old(self).events@,
            final(self).events@.len() == 0,
            *final(self) == (MockBackend { events: final(self).events, ..*old(self) }),
    {
        let mut out: Vec<TopologyEvent> = Vec::new();
        std::mem::swap(&mut out, &mut self.events);
        out
    }

    fn bump_serial(&mut self)
        requires
            old(self).serial < u64::MAX,
        ensures
            final(self).wf(),
            final(self).serial == old(self).serial + 1,
            final(self).topology.outputs == old(self).topology.outputs,
            final(self).events@ == old(self).events@.push(TopologyEvent::Changed),
            *final(self) == (MockBackend {
                topology: final(self).topology,
                serial: final(self).serial,
                events: final(self).events,
                ..*old(self)
            }),
    {
        self.serial = self.serial + 1;
        self.topology.serial = decimal_text(self.serial);
        self.events.push(TopologyEvent::Changed);
    }

    /// Change the outputs out-of-band (hotplug, external tool, resume) and
    /// notify watchers; the serial bumps, invalidating outstanding plans.
    pub fn simulate_change(&mut self, outputs: Vec<Output>)
        requires
            old(self).serial < u64::MAX,
        ensures
            final(self).wf(),
            final(self).serial == old(self).serial + 1,
            final(self).topology.outputs == outputs,
            final(self).events@ == old(self).events@.push(TopologyEvent::Changed),
            *final(self) == (MockBackend {
                topology: final(self).topology,
                serial: final(self).serial,
                events: final(self).events,
                ..*old(self)
            }),
    {
        self.topology.outputs = outputs;
        self.bump_serial();
    }

    /// Convenience: plug in a new output.
    pub fn simulate_connect(&mut self, output: Output)
        requires
            old(self).serial < u64::MAX,
        ensures
            final(self).wf(),
            final(self).serial == old(self).serial + 1,
            final(self).topology.outputs@ == old(self).topology.outputs@.push(output),
            final(self).events@ == old(self).events@.push(TopologyEvent::Changed),
            *final(self) == (MockBackend {
                topology: final(self).topology,
                serial: final(self).serial,
                events: final(self).events,
                ..*old(self)
            }),
    {
        self.topology.outputs.push(output);
        self.bump_serial();
    }

    /// Convenience: unplug the output with this connector.
    pub fn simulate_disconnect(&mut self, connector: &str)
        requires
            old(self).serial < u64::MAX,
        ensures
            final(self).wf(),
            final(self).serial == old(self).serial + 1,
            final(self).topology.outputs@ == old(self).topology.outputs@.filter(
                output_elsewhere(connector@),
            ),
            final(self).events@ == old(self).events@.push(TopologyEvent::Changed),
            *final(self) == (MockBackend {
                topology: final(self).topology,
                serial: final(self).serial,
                events: final(self).events,
                ..*old(self)
            }),
    {
        let ghost all = self.topology.outputs@;
        let ghost p = output_elsewhere(connector@);
        let n = self.topology.outputs.len();
        let mut k: usize = 0;
        let mut i: usize = 0;
        proof {
            assert(all.take(0) =~= Seq::<Output>::empty());
            reveal(Seq::filter);
            assert(self.topology.outputs@ =~= all.take(0).filter(p) + all.skip(0));
        }
        while k < n
            invariant
                k <= n == all.len(),
                i <= k,
                p == output_elsewhere(connector@),
                *self == (MockBackend { topology: self.topology, ..*old(self) }),
                self.serial < u64::MAX,
                i == all.take(k as int).filter(p).len(),
                self.topology.outputs@ == all.take(k as int).filter(p) + all.skip(k as int),
            decreases n - k,
        {
            let ghost kept = all.take(k as int).filter(p);
            proof {
                filter_push(all.take(k as int), p, all[k as int]);
                assert(all.take(k as int).push(all[k as int]) =~= all.take(k + 1));
                assert(all.skip(k as int)[0] == all[k as int]);
                assert(self.topology.outputs@[i as int] == all[k as int]);
            }
            if same_text(self.topology.outputs[i].identity.connector.as_str(), connector) {
                self.topology.outputs.remove(i);
                assert(self.topology.outputs@ =~= kept + all.skip(k + 1));
            } else {
                assert(self.topology.outputs@ =~= kept.push(all[k as int]) + all.skip(k + 1));
                i = i + 1;
            }
            k = k + 1;
        }
        proof {
            assert(all.take(n as int) =~= all);
            assert(self.topology.outputs@ =~= all.filter(p));
        }
        self.bump_serial();
    }

    /// Current outputs and layout.
    pub fn snapshot(&self) -> (r: Result<Topology, BackendError>)
        ensures
            r is Ok,
            same_topology(r->Ok_0, self.topology),
    {
        Ok(self.topology.clone())
    }

    fn fault(&self, plan: &LayoutPlan) -> (r: Option<BackendError>)
        ensures
            match (r, fault_of(plan.outputs@, self.topology.outputs@)) {
                (Some(e), Some(fault)) => reports(e, fault),
                (None, None) => true,
                _ => false,
            },
    {
        let ghost outputs = self.topology.outputs@;
        let ghost planned = plan.outputs@;
        for i in 0..self.topology.outputs.len()
            invariant
                outputs == self.topology.outputs@,
                planned == plan.outputs@,
                forall|j: int| 0 <= j < i ==> !unplanned(planned)(outputs[j]),
        {
            let live = &self.topology.outputs[i];
            if plan.index_of_connector(live.identity.connector.as_str()).is_none() {
                proof {
                    first_where_is(outputs, unplanned(planned), i as int);
                }
                return Some(
                    BackendError::InvalidLayout(
                        join2("plan is missing output ", live.identity.connector.as_str()),
                    ),
                );
            }
        }
        proof {
            first_where_none(outputs, unplanned(planned));
        }
        for i in 0..plan.outputs.len()
            invariant
                outputs == self.topology.outputs@,
                planned == plan.outputs@,
                first_where(outputs, unplanned(planned)) is None,
                forall|j: int| 0 <= j < i ==> !unusable(outputs)(planned[j]),
        {
            let p = &plan.outputs[i];
            if self.topology.find_connector(p.identity.connector.as_str()).is_none() {
                proof {
                    first_where_is(planned, unusable(outputs), i as int);
                }
                return Some(BackendError::UnknownOutput(p.identity.connector.clone()));
            }
            if p.enabled && p.mode.is_none() {
                proof {
                    first_where_is(planned, unusable(outputs), i as int);
                }
                return Some(
                    BackendError::InvalidLayout(
                        join3("enabled output ", p.identity.connector.as_str(), " has no mode"),
                    ),
                );
            }
        }
        proof {
            first_where_none(planned, unusable(outputs));
            assert(planned.take(0) =~= Seq::<PlannedOutput>::empty());
            reveal(Seq::filter);
        }
        let mut any: bool = false;
        let mut primaries: usize = 0;
        for i in 0..plan.outputs.len()
            invariant
                planned == plan.outputs@,
                any == (exists|j: int| 0 <= j < i && planned_enabled()(planned[j])),
                primaries == planned.take(i as int).filter(enabled_primary()).len(),
                primaries <= i,
        {
            proof {
                filter_push(planned.take(i as int), enabled_primary(), planned[i as int]);
                assert(planned.take(i as int).push(planned[i as int]) =~= planned.take(i + 1));
            }
            let p = &plan.outputs[i];
            if p.enabled {
                assert(planned_enabled()(planned[i as int]));
                any = true;
                if p.primary {
                    primaries = primaries + 1;
                }
            }
        }
        proof {
            assert(planned.take(planned.len() as int) =~= planned);
            first_where_facts(planned, planned_enabled());
        }
        if any && primaries != 1 {
            let mut m = "expected exactly one enabled primary, got ".to_owned();
            push_decimal(&mut m, primaries as u64);
            return Some(BackendError::InvalidLayout(m));
        }
        None
    }

    /// Apply a full desired layout.
    pub fn apply(&mut self, plan: &LayoutPlan, mode: ApplyMode) -> (r: Result<(), BackendError>)
        requires
            mode != ApplyMode::Verify ==> old(self).serial < u64::MAX,
        ensures
            apply_result(r, *old(self), *final(self), *plan, mode),
    {
        if self.failing {
            self.failing = false;
            return Err(BackendError::Server("mock: forced failure".to_owned()));
        }
        if !same_text(plan.serial.as_str(), self.topology.serial.as_str()) {
            return Err(BackendError::StaleSerial);
        }
        if let Some(e) = self.fault(plan) {
            return Err(e);
        }
        if mode == ApplyMode::Verify {
            return Ok(());
        }
        let ghost outputs = self.topology.outputs@;
        let mut k: usize = 0;
        while k < plan.outputs.len()
            invariant
                k <= plan.outputs.len(),
                self.serial < u64::MAX,
                *self == (MockBackend { topology: self.topology, ..*old(self) }),
                self.topology.serial == old(self).topology.serial,
                self.topology.outputs@ == applied(outputs, plan.outputs@, k as int),
            decreases plan.outputs.len() - k,
        {
            let p = &plan.outputs[k];
            let n = self.topology.outputs.len();
            let ghost before = self.topology.outputs@;
            let mut i: usize = 0;
            let mut found: Option<usize> = None;
            while i < n && found.is_none()
                invariant
                    i <= n == self.topology.outputs.len(),
                    self.topology.outputs@ == before,
                    *p == plan.outputs@[k as int],
                    *self == (MockBackend { topology: self.topology, ..*old(self) }),
                    self.topology.serial == old(self).topology.serial,
                    match found {
                        Some(w) => w < n && first_where(
                            before,
                            output_at(p.identity.connector@),
                        ) == Some(w as int),
                        None => forall|j: int|
                            0 <= j < i ==> !output_at(p.identity.connector@)(before[j]),
                    },
                decreases n - i,
            {
                if same_text(
                    self.topology.outputs[i].identity.connector.as_str(),
                    p.identity.connector.as_str(),
                ) {
                    proof {
                        first_where_is(before, output_at(p.identity.connector@), i as int);
                    }
                    found = Some(i);
                }
                i = i + 1;
            }
            match found {
                Some(w) => {
                    let m: Option<Mode> = if p.enabled {
                        p.mode
                    } else {
                        None
                    };
                    self.topology.outputs[w].enabled = p.enabled;
                    self.topology.outputs[w].mode = m;
                    self.topology.outputs[w].position = p.position;
                    self.topology.outputs[w].scale = p.scale;
                    self.topology.outputs[w].transform = p.transform;
                    self.topology.outputs[w].primary = p.enabled && p.primary;
                    assert(self.topology.outputs@ =~= before.update(
                        w as int,
                        as_planned(before[w as int], *p),
                    ));
                },
                None => {
                    proof {
                        first_where_none(before, output_at(p.identity.connector@));
                    }
                },
            }
            k = k + 1;
        }
        self.bump_serial();
        self.applies = if self.applies == usize::MAX {
            0
        } else {
            self.applies + 1
        };
        Ok(())
    }
}

// --------------------------------------------------------------------- laws

/// A plan from before any later change is stale: its serial is no longer the
/// current one.
pub proof fn older_plan_is_stale(then: MockBackend, now: MockBackend)
    requires
        then.wf(),
        now.wf(),
        then.serial < now.serial,
    ensures
        then.topology.serial@ != now.topology.serial@,
{
    decimal_reads_back(then.serial as nat);
    decimal_reads_back(now.serial as nat);
}

/// A plan that covers the outputs one for one puts every output into its
/// planned state.
pub proof fn applied_plan_is_reached(outputs: Seq<Output>, plan: Seq<PlannedOutput>, n: int)
    requires
        distinct_connectors(outputs),
        plan.len() == outputs.len(),
        forall|i: int|
            0 <= i < plan.len() ==> (#[trigger] plan[i]).identity.connector@
                == outputs[i].identity.connector@,
        0 <= n <= plan.len(),
    ensures
        applied(outputs, plan, n).len() == outputs.len(),
        forall|i: int|
            0 <= i < n ==> #[trigger] applied(outputs, plan, n)[i] == as_planned(
                outputs[i],
                plan[i],
            ),
        forall|i: int|
            n <= i < outputs.len() ==> #[trigger] applied(outputs, plan, n)[i] == outputs[i],
    decreases n,
{
    if n > 0 {
        applied_plan_is_reached(outputs, plan, n - 1);
        let before = applied(outputs, plan, n - 1);
        let k = n - 1;
        let c = plan[k].identity.connector@;
        assert(before[k] == outputs[k]);
        assert forall|j: int| 0 <= j < k implies !output_at(c)(before[j]) by {
            assert(before[j] == as_planned(outputs[j], plan[j]));
            assert(outputs[j].identity.connector@ != outputs[k].identity.connector@);
        }
        first_where_is(before, output_at(c), k);
    }
}

/// A plan is flawed exactly if an output is not planned, a planned output is not there, one
/// that is to be on has no mode, or there is not exactly one primary among those that are to
/// be on.
pub proof fn only_impossible_plans_are_flawed(plan: Seq<PlannedOutput>, outputs: Seq<Output>)
    requires
        forall|i: int|
            0 <= i < outputs.len() ==> exists|j: int|
                0 <= j < plan.len() && (#[trigger] plan[j]).identity.connector@ == (
                #[trigger] outputs[i]).identity.connector@,
        forall|j: int|
            0 <= j < plan.len() ==> exists|i: int|
                0 <= i < outputs.len() && (#[trigger] outputs[i]).identity.connector@ == (
                #[trigger] plan[j]).identity.connector@,
    ensures
        fault_of(plan, outputs) is None <==> {
            &&& forall|j: int|
                0 <= j < plan.len() && (#[trigger] plan[j]).enabled ==> plan[j].mode is Some
            &&& (exists|j: int| 0 <= j < plan.len() && (#[trigger] plan[j]).enabled)
                ==> plan.filter(enabled_primary()).len() == 1
        },
{
    assert forall|i: int| 0 <= i < outputs.len() implies !unplanned(plan)(outputs[i]) by {
        let c = outputs[i].identity.connector@;
        let j = choose|j: int|
            0 <= j < plan.len() && (#[trigger] plan[j]).identity.connector@ == c;
        first_where_facts(plan, planned_at(c));
        assert(planned_at(c)(plan[j]));
    }
    first_where_none(outputs, unplanned(plan));
    let p = unusable(outputs);
    assert forall|j: int| 0 <= j < plan.len() implies p(#[trigger] plan[j]) == (plan[j].enabled
        && plan[j].mode is None) by {
        let c = plan[j].identity.connector@;
        let i = choose|i: int|
            0 <= i < outputs.len() && (#[trigger] outputs[i]).identity.connector@ == c;
        first_where_facts(outputs, output_at(c));
        assert(output_at(c)(outputs[i]));
    }
    first_where_facts(plan, p);
    first_where_facts(plan, planned_enabled());
    if first_where(plan, p) is Some {
        let k = first_where(plan, p)->0;
        assert(p(plan[k]));
    } else {
        assert forall|j: int|
            0 <= j < plan.len() && (#[trigger] plan[j]).enabled implies plan[j].mode is Some by {
            assert(!p(plan[j]));
        }
    }
    if first_where(plan, planned_enabled()) is Some {
        let k = first_where(plan, planned_enabled())->0;
        assert(planned_enabled()(plan[k]));
        assert(plan[k].enabled);
    } else {
        assert forall|j: int| 0 <= j < plan.len() implies !(#[trigger] plan[j]).enabled by {
            assert(!planned_enabled()(plan[j]));
        }
    }
}

/// Only a plan with the current serial is applied, and only verifying it changes nothing.
/// What was applied is what is shown from then on.
pub proof fn applied_plan_is_shown(
    r: Result<(), BackendError>,
    before: MockBackend,
    after: MockBackend,
    plan: LayoutPlan,
    mode: ApplyMode,
    i: int,
)
    requires
        apply_result(r, before, after, plan, mode),
        distinct_connectors(before.topology.outputs@),
        plan.outputs@.len() == before.topology.outputs@.len(),
        forall|k: int|
            0 <= k < plan.outputs@.len() ==> (#[trigger] plan.outputs@[k]).identity.connector@
                == before.topology.outputs@[k].identity.connector@,
        0 <= i < plan.outputs@.len(),
    ensures
        r is Ok ==> !before.failing && plan.serial@ == before.topology.serial@ && fault_of(
            plan.outputs@,
            before.topology.outputs@,
        ) is None,
        !before.failing && plan.serial@ != before.topology.serial@ ==> (
        r matches Err(BackendError::StaleSerial)),
        !before.failing && plan.serial@ == before.topology.serial@ && fault_of(
            plan.outputs@,
            before.topology.outputs@,
        ) is None ==> r is Ok,
        r is Err || mode == ApplyMode::Verify ==> after.topology == before.topology
            && after.applies == before.applies && after.serial == before.serial,
        !after.failing,
        r is Ok && mode != ApplyMode::Verify ==> {
            let o = after.topology.outputs@[i];
            let p = plan.outputs@[i];
            &&& o.identity == before.topology.outputs@[i].identity
            &&& o.enabled == p.enabled
            &&& p.enabled ==> o.mode == p.mode && o.primary == p.primary
            &&& !p.enabled ==> o.mode is None && !o.primary
            &&& o.position == p.position
            &&& o.scale == p.scale
            &&& o.transform == p.transform
            &&& o.modes == before.topology.outputs@[i].modes
            &&& after.serial == before.serial + 1
            &&& before.applies < usize::MAX ==> after.applies == before.applies + 1
        },
{
    applied_plan_is_reached(
        before.topology.outputs@,
        plan.outputs@,
        plan.outputs@.len() as int,
    );
}

/// A display that is unplugged is gone, and no other is.
pub proof fn unplugged_display_is_gone(outputs: Seq<Output>, connector: Seq<char>, i: int)
    requires
        0 <= i < outputs.len(),
    ensures
        ({
            let left = outputs.filter(output_elsewhere(connector));
            &&& outputs[i].identity.connector@ != connector ==> left.contains(outputs[i])
            &&& forall|k: int|
                0 <= k < left.len() ==> (#[trigger] left[k]).identity.connector@ != connector
        }),
{
    let p = output_elsewhere(connector);
    let left = outputs.filter(p);
    if outputs[i].identity.connector@ != connector {
        filter_has(outputs, p, i);
    }
    assert forall|k: int| 0 <= k < left.len() implies (#[trigger] left[k]).identity.connector@
        != connector by {
        filter_meets(outputs, p, k);
    }
}

/// What is wrong with a plan is told apart: an output that is not there from a layout that
/// cannot be, and that by what is wrong with it.
pub proof fn faults_are_told_apart(e: BackendError, fault: Fault)
    requires
        reports(e, fault),
    ensures
        fault is Unknown <==> e is UnknownOutput,
        fault matches Fault::Unknown(c) ==> e->UnknownOutput_0@ == c,
        !(fault is Unknown) ==> e is InvalidLayout,
        fault matches Fault::Missing(c) ==> e->InvalidLayout_0@ == "plan is missing output "@ + c,
        fault matches Fault::Primaries(n) ==> e->InvalidLayout_0@
            == "expected exactly one enabled primary, got "@ + decimal(n),
{
}

} // verus!
