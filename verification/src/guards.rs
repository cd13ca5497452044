//! Risk assessment for layout changes: the policy behind auto-revert timers.
//!
//! The daemon (and the CLI in direct mode) runs every apply through
//! [`assess`]. The rules:
//!
//! - Disabling the **last active display** is allowed but *always* arms a
//!   revert timer; `--force` cannot bypass it.
//! - Disabling a **built-in laptop panel** always arms a revert timer, even
//!   when other displays remain (a dead internal panel plus a flaky external
//!   display strands the user).
//! - Everything else is routine; clients choose whether to use a timer.

use crate::seqs::{
    filter_has, filter_none, find_where, first_where, first_where_facts, first_where_is,
};
use crate::topology::{
    distinct_connectors, output_at, output_enabled, planned_enabled, LayoutPlan, Output,
    PlannedOutput, Topology,
};
use vstd::prelude::*;

verus! {

/// Risk classification for a plan, ordered by severity.
#[derive(Debug, Clone, Copy, PartialEq, Eq, PartialOrd, Ord, Structural)]
pub enum RiskClass {
    /// No display-loss risk; revert timer optional.
    Routine,
    /// Disables an internal laptop panel; revert timer mandatory.
    BuiltinPanel,
    /// Leaves zero active displays; revert timer mandatory, cannot be forced off.
    LastActiveDisplay,
}

/// The name of a risk class.
pub open spec fn risk_name(risk: RiskClass) -> Seq<char> {
    match risk {
        RiskClass::Routine => "Routine"@,
        RiskClass::BuiltinPanel => "BuiltinPanel"@,
        RiskClass::LastActiveDisplay => "LastActiveDisplay"@,
    }
}

impl RiskClass {
    /// Whether the auto-revert timer is mandatory for this class.
    pub fn timer_mandatory(&self) -> (r: bool)
        ensures
            r == (*self != RiskClass::Routine),
    {
        match self {
            RiskClass::Routine => false,
            _ => true,
        }
    }

    /// The name of the class.
    pub fn name(&self) -> (r: &'static str)
        ensures
            r@ == risk_name(*self),
    {
        match self {
            RiskClass::Routine => "Routine",
            RiskClass::BuiltinPanel => "BuiltinPanel",
            RiskClass::LastActiveDisplay => "LastActiveDisplay",
        }
    }
}

/// Whether a planned output turns off an internal panel that is on.
pub open spec fn disables_builtin(p: PlannedOutput, outputs: Seq<Output>) -> bool {
    &&& !p.enabled
    &&& match find_where(outputs, output_at(p.identity.connector@)) {
        Some(o) => o.builtin && o.enabled,
        None => false,
    }
}

/// The risk of applying a plan on top of the current outputs: the most severe
/// class that applies.
pub open spec fn risk_of(outputs: Seq<Output>, plan: Seq<PlannedOutput>) -> RiskClass {
    if plan.filter(planned_enabled()).len() == 0 && outputs.filter(output_enabled()).len() > 0 {
        RiskClass::LastActiveDisplay
    } else if exists|i: int| 0 <= i < plan.len() && disables_builtin(#[trigger] plan[i], outputs) {
        RiskClass::BuiltinPanel
    } else {
        RiskClass::Routine
    }
}

/// Assess the risk of applying `plan` on top of the current `topology`.
/// Returns the most severe applicable class.
pub fn assess(topology: &Topology, plan: &LayoutPlan) -> (r: RiskClass)
    ensures
        r == risk_of(topology.outputs@, plan.outputs@),
{
    if plan.enabled_count() == 0 && topology.enabled_count() > 0 {
        return RiskClass::LastActiveDisplay;
    }
    for i in 0..plan.outputs.len()
        invariant
            !(plan.outputs@.filter(planned_enabled()).len() == 0 && topology.outputs@.filter(
                output_enabled(),
            ).len() > 0),
            forall|j: int|
                0 <= j < i ==> !disables_builtin(#[trigger] plan.outputs@[j], topology.outputs@),
    {
        let p = &plan.outputs[i];
        if !p.enabled {
            if let Some(o) = topology.find_connector(p.identity.connector.as_str()) {
                if o.builtin && o.enabled {
                    assert(disables_builtin(plan.outputs@[i as int], topology.outputs@));
                    return RiskClass::BuiltinPanel;
                }
            }
        }
    }
    RiskClass::Routine
}

// --------------------------------------------------------------------- laws

/// A plan that switches every display off is never routine, as long as one is
/// on: its revert timer cannot be left out.
pub proof fn blanking_everything_is_never_routine(
    outputs: Seq<Output>,
    plan: Seq<PlannedOutput>,
    lit: int,
)
    requires
        0 <= lit < outputs.len(),
        outputs[lit].enabled,
        forall|i: int| 0 <= i < plan.len() ==> !(#[trigger] plan[i]).enabled,
    ensures
        risk_of(outputs, plan) == RiskClass::LastActiveDisplay,
{
    filter_empty(plan);
    filter_member(outputs, lit);
}

proof fn filter_empty(s: Seq<PlannedOutput>)
    requires
        forall|i: int| 0 <= i < s.len() ==> !(#[trigger] s[i]).enabled,
    ensures
        s.filter(planned_enabled()).len() == 0,
    decreases s.len(),
{
    reveal(Seq::filter);
    if s.len() > 0 {
        assert(!s[s.len() - 1].enabled);
        assert forall|i: int| 0 <= i < s.len() - 1 implies !(#[trigger] s.drop_last()[i]).enabled by {
            assert(!s[i].enabled);
        }
        filter_empty(s.drop_last());
    }
}

proof fn filter_member(s: Seq<Output>, i: int)
    requires
        0 <= i < s.len(),
        s[i].enabled,
    ensures
        s.filter(output_enabled()).len() > 0,
    decreases s.len(),
{
    reveal(Seq::filter);
    if i < s.len() - 1 {
        filter_member(s.drop_last(), i);
    }
}

/// A plan that turns off an internal panel that is on is never routine.
pub proof fn disabling_a_panel_is_never_routine(
    outputs: Seq<Output>,
    plan: Seq<PlannedOutput>,
    i: int,
)
    requires
        0 <= i < plan.len(),
        disables_builtin(plan[i], outputs),
    ensures
        risk_of(outputs, plan) != RiskClass::Routine,
{
}

/// The risk is that of going dark exactly where something is on and the plan leaves
/// nothing on. Otherwise it is that of losing a panel exactly where the plan turns
/// off a built-in output that is on. Everything else is routine.
pub proof fn risk_is_told_exactly(outputs: Seq<Output>, plan: Seq<PlannedOutput>)
    requires
        distinct_connectors(outputs),
    ensures
        ({
            let lit = exists|i: int| 0 <= i < outputs.len() && (#[trigger] outputs[i]).enabled;
            let dark = forall|i: int| 0 <= i < plan.len() ==> !(#[trigger] plan[i]).enabled;
            let panel = exists|i: int, k: int|
                0 <= i < plan.len() && 0 <= k < outputs.len() && !(#[trigger] plan[i]).enabled && (
                #[trigger] outputs[k]).enabled && outputs[k].builtin
                    && outputs[k].identity.connector@ == plan[i].identity.connector@;
            &&& risk_of(outputs, plan) == RiskClass::LastActiveDisplay <==> lit && dark
            &&& risk_of(outputs, plan) == RiskClass::BuiltinPanel <==> !(lit && dark) && panel
            &&& risk_of(outputs, plan) == RiskClass::Routine <==> !(lit && dark) && !panel
        }),
{
    let lit = exists|i: int| 0 <= i < outputs.len() && (#[trigger] outputs[i]).enabled;
    let dark = forall|i: int| 0 <= i < plan.len() ==> !(#[trigger] plan[i]).enabled;
    if lit {
        let i = choose|i: int| 0 <= i < outputs.len() && (#[trigger] outputs[i]).enabled;
        filter_member(outputs, i);
    } else {
        filter_none(outputs, output_enabled());
    }
    if dark {
        filter_empty(plan);
    } else {
        let i = choose|i: int| 0 <= i < plan.len() && (#[trigger] plan[i]).enabled;
        filter_has(plan, planned_enabled(), i);
    }
    assert forall|i: int, k: int|
        0 <= i < plan.len() && 0 <= k < outputs.len() && !(#[trigger] plan[i]).enabled && (
        #[trigger] outputs[k]).enabled && outputs[k].builtin && outputs[k].identity.connector@
            == plan[i].identity.connector@ implies disables_builtin(plan[i], outputs) by {
        let c = plan[i].identity.connector@;
        assert forall|j: int| 0 <= j < k implies !output_at(c)(outputs[j]) by {
            assert(outputs[j].identity.connector@ != outputs[k].identity.connector@);
        }
        first_where_is(outputs, output_at(c), k);
    }
    assert forall|i: int| 0 <= i < plan.len() && disables_builtin(#[trigger] plan[i], outputs) implies
        exists|k: int|
        0 <= k < outputs.len() && (#[trigger] outputs[k]).enabled && outputs[k].builtin
            && outputs[k].identity.connector@ == plan[i].identity.connector@ by {
        first_where_facts(outputs, output_at(plan[i].identity.connector@));
        let k = first_where(outputs, output_at(plan[i].identity.connector@))->0;
        assert(output_at(plan[i].identity.connector@)(outputs[k]));
        assert(outputs[k].enabled);
    }
}

/// The classes are told apart by their names.
pub proof fn risk_names_differ(a: RiskClass, b: RiskClass)
    ensures
        risk_name(a) == risk_name(b) ==> a == b,
{
    reveal_strlit("Routine");
    reveal_strlit("BuiltinPanel");
    reveal_strlit("LastActiveDisplay");
    assert("Routine"@.len() == 7 && "BuiltinPanel"@.len() == 12 && "LastActiveDisplay"@.len() == 17);
}

/// Each class of risk goes by its own name.
pub proof fn risks_go_by_their_names(risk: RiskClass)
    ensures
        risk_name(risk) == "Routine"@ <==> risk == RiskClass::Routine,
        risk_name(risk) == "BuiltinPanel"@ <==> risk == RiskClass::BuiltinPanel,
        risk_name(risk) == "LastActiveDisplay"@ <==> risk == RiskClass::LastActiveDisplay,
{
    reveal_strlit("Routine");
    reveal_strlit("BuiltinPanel");
    reveal_strlit("LastActiveDisplay");
    assert("Routine"@.len() == 7);
    assert("BuiltinPanel"@.len() == 12);
    assert("LastActiveDisplay"@.len() == 17);
}

} // verus!
