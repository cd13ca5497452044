//! What every display backend shares: how an apply sticks, what a backend can
//! do natively, the event it reports, and how long a sleeping monitor is given to
//! wake up.

use crate::error::{backend_message, BackendError};
use crate::text::{begins_with, join2, join3, occurrences_are_parts, same_text};
use crate::topology::{mode_text, LayoutPlan, Mode, Output, PlannedOutput, Topology};
use vstd::prelude::*;

verus! {

/// How an apply should stick, mirroring Mutter's method flag; backends map
/// the other platforms' equivalents (e.g. CCD's `SDC_SAVE_TO_DATABASE`).
#[derive(Debug, Clone, Copy, PartialEq, Eq, Structural)]
pub enum ApplyMode {
    /// Validate only; change nothing.
    Verify,
    /// Apply for this session only (reverts on session restart). Used while a
    /// pending change awaits confirmation.
    Temporary,
    /// Apply and persist via the platform's native mechanism where one exists.
    Persistent,
}

/// What a backend can natively do; the daemon compensates for the rest.
#[derive(Debug, Clone, Copy, PartialEq, Eq, Structural)]
pub struct Capabilities {
    /// Layouts persist across sessions via the platform itself
    /// (Mutter `monitors.xml`, Windows CCD database).
    pub native_persistence: bool,
    /// The backend delivers real events; `false` means the daemon must poll.
    pub events: bool,
}

impl Default for Capabilities {
    fn default() -> (r: Self)
        ensures
            !r.native_persistence,
            !r.events,
    {
        Capabilities { native_persistence: false, events: false }
    }
}

/// Something changed in the display world. Deliberately payload-free: any
/// consumer must take a new snapshot anyway, because events race against state.
#[derive(Debug, Clone, Copy, PartialEq, Eq, Structural)]
pub enum TopologyEvent {
    /// Outputs connected/disconnected or configuration changed (hotplug,
    /// resume, another tool applying a layout, ...).
    Changed,
}

/// Why an output cannot be driven as planned.
#[derive(Debug, Clone, Copy, PartialEq, Eq, Structural)]
pub enum Obstacle {
    /// The display server has no such output.
    Unknown,
    /// The output is to be enabled, but no mode is given.
    Modeless,
    /// The output offers no mode of that resolution.
    Unavailable(Mode),
    /// Every CRTC that could drive the output is taken.
    NoCrtc,
}

/// Whether an error is the one about an output that cannot be driven.
pub open spec fn reports(e: BackendError, name: Seq<char>, o: Obstacle) -> bool {
    match o {
        Obstacle::Unknown => e matches BackendError::UnknownOutput(m) && m@ == name,
        Obstacle::Modeless => e matches BackendError::InvalidLayout(m) && m@ == "enabled output "@
            + name + " has no mode"@,
        Obstacle::Unavailable(mode) => e matches BackendError::InvalidLayout(m) && m@ == "mode "@
            + mode_text(mode) + " not available on "@ + name,
        Obstacle::NoCrtc => e matches BackendError::InvalidLayout(m) && m@ == "no free CRTC for "@
            + name,
    }
}

/// The error about an output that cannot be driven.
pub fn obstacle_error(name: &str, o: Obstacle) -> (r: BackendError)
    ensures
        reports(r, name@, o),
{
    match o {
        Obstacle::Unknown => BackendError::UnknownOutput(name.to_owned()),
        Obstacle::Modeless => BackendError::InvalidLayout(
            join3("enabled output ", name, " has no mode"),
        ),
        Obstacle::Unavailable(mode) => {
            let mut m = join3("mode ", mode.to_text().as_str(), " not available on ");
            m.append(name);
            BackendError::InvalidLayout(m)
        },
        Obstacle::NoCrtc => BackendError::InvalidLayout(join2("no free CRTC for ", name)),
    }
}

/// How often an apply that switches an output on is tried: a DisplayPort monitor
/// in deep sleep is off the bus for a while.
pub const WAKE_TRIES: u32 = 5;

/// How to go on after an apply that failed.
#[derive(Debug)]
pub enum WakeStep {
    /// Wait, then apply again.
    Wait { secs: u64 },
    GiveUp(BackendError),
}

/// Whether a planned output is to be switched on.
pub open spec fn wakes_output(p: PlannedOutput, prior: Seq<Output>) -> bool {
    p.enabled && exists|j: int|
        0 <= j < prior.len() && !(#[trigger] prior[j]).enabled && prior[j].identity.connector@
            == p.identity.connector@
}

/// Whether a plan switches any output on.
pub open spec fn wakes(plan: Seq<PlannedOutput>, prior: Seq<Output>) -> bool {
    exists|i: int| 0 <= i < plan.len() && wakes_output(#[trigger] plan[i], prior)
}

/// Whether a plan switches any output on.
pub fn switches_on(plan: &LayoutPlan, prior: &Topology) -> (r: bool)
    ensures
        r == wakes(plan.outputs@, prior.outputs@),
{
    for i in 0..plan.outputs.len()
        invariant
            forall|k: int|
                0 <= k < i ==> !wakes_output(#[trigger] plan.outputs@[k], prior.outputs@),
    {
        let p = &plan.outputs[i];
        for j in 0..prior.outputs.len()
            invariant
                i < plan.outputs@.len(),
                *p == plan.outputs@[i as int],
                forall|k: int|
                    0 <= k < j ==> !(p.enabled && !(#[trigger] prior.outputs@[k]).enabled
                        && prior.outputs@[k].identity.connector@ == p.identity.connector@),
        {
            let o = &prior.outputs[j];
            if p.enabled && !o.enabled && same_text(
                o.identity.connector.as_str(),
                p.identity.connector.as_str(),
            ) {
                assert(wakes_output(plan.outputs@[i as int], prior.outputs@));
                return true;
            }
        }
    }
    false
}

/// Whether a failed apply may be due to a monitor that is still asleep.
pub open spec fn may_be_asleep(e: BackendError, waking: bool) -> bool {
    waking && (e is Server || e is OutputUnresponsive)
}

/// How to go on after `failed` tries of an apply, the last of which gave `e`.
pub open spec fn wake_result(r: WakeStep, e: BackendError, waking: bool, failed: u32) -> bool {
    if may_be_asleep(e, waking) && failed < WAKE_TRIES {
        r matches WakeStep::Wait { secs } && secs == failed
    } else if waking && e is Server {
        r matches WakeStep::GiveUp(BackendError::OutputUnresponsive(m)) && m@ == backend_message(e)
    } else {
        r matches WakeStep::GiveUp(reason) && reason == e
    }
}

/// Decide after `failed` tries of an apply, the last of which gave `e`. One that
/// switches an output on (`waking`) is tried again, after a longer wait each time;
/// at last the user is asked to wake the monitor.
pub fn wake_step(e: BackendError, waking: bool, failed: u32) -> (r: WakeStep)
    ensures
        wake_result(r, e, waking, failed),
{
    let asleep: bool = match e {
        BackendError::Server(_) | BackendError::OutputUnresponsive(_) => waking,
        _ => false,
    };
    if asleep && failed < WAKE_TRIES {
        return WakeStep::Wait { secs: failed as u64 };
    }
    match e {
        BackendError::Server(_) if waking => WakeStep::GiveUp(
            BackendError::OutputUnresponsive(e.message()),
        ),
        _ => WakeStep::GiveUp(e),
    }
}

/// Seconds waited in all once so many tries have failed.
pub open spec fn waited(failed: nat) -> nat
    decreases failed,
{
    if failed == 0 {
        0
    } else if failed < WAKE_TRIES {
        waited((failed - 1) as nat) + failed
    } else {
        waited((failed - 1) as nat)
    }
}

/// However often an apply fails, a monitor is given ten seconds to wake up.
pub proof fn waking_is_bounded(failed: nat)
    ensures
        waited(failed) <= 10,
        failed >= WAKE_TRIES ==> waited(failed) == 10,
    decreases failed,
{
    reveal_with_fuel(waited, 6);
    if failed > WAKE_TRIES {
        waking_is_bounded((failed - 1) as nat);
    }
}

/// Only an apply that switches an output on is tried again, each time after one second more
/// than before, and four times at most; any other failure is final.
pub proof fn only_a_sleeping_monitor_is_waited_for(
    r: WakeStep,
    e: BackendError,
    waking: bool,
    failed: u32,
)
    requires
        wake_result(r, e, waking, failed),
    ensures
        r is Wait <==> waking && failed < 5 && (e is Server || e is OutputUnresponsive),
        r matches WakeStep::Wait { secs } ==> secs == failed,
        !waking ==> (r matches WakeStep::GiveUp(reason) && reason == e),
        waking && !(e is Server) && r is GiveUp ==> r->GiveUp_0 == e,
        waking && e is Server && failed >= 5 ==> (r matches WakeStep::GiveUp(
            BackendError::OutputUnresponsive(m),
        ) && m@ == backend_message(e)),
{
}

/// A plan switches an output on exactly if it has an output on that is off now.
pub proof fn switching_on_is_a_change_to_on(plan: Seq<PlannedOutput>, prior: Seq<Output>, j: int)
    requires
        0 <= j < prior.len(),
    ensures
        !prior[j].enabled && (exists|i: int|
            0 <= i < plan.len() && (#[trigger] plan[i]).enabled && plan[i].identity.connector@
                == prior[j].identity.connector@) ==> wakes(plan, prior),
        (forall|i: int|
            0 <= i < prior.len() ==> (#[trigger] prior[i]).enabled) ==> !wakes(plan, prior),
        (forall|i: int| 0 <= i < plan.len() ==> !(#[trigger] plan[i]).enabled) ==> !wakes(
            plan,
            prior,
        ),
{
    if !prior[j].enabled && (exists|i: int|
        0 <= i < plan.len() && (#[trigger] plan[i]).enabled && plan[i].identity.connector@
            == prior[j].identity.connector@) {
        let i = choose|i: int|
            0 <= i < plan.len() && (#[trigger] plan[i]).enabled && plan[i].identity.connector@
                == prior[j].identity.connector@;
        assert(wakes_output(plan[i], prior));
    }
}

/// What keeps an output from being driven is told apart: an output that is not there from
/// one that cannot be set up, and that by what it lacks.
pub proof fn obstacles_are_told_apart(e: BackendError, name: Seq<char>, a: Obstacle)
    requires
        reports(e, name, a),
    ensures
        a is Unknown <==> e is UnknownOutput,
        a is Unknown ==> e->UnknownOutput_0@ == name,
        !(a is Unknown) ==> e is InvalidLayout,
        a is Modeless ==> begins_with(e->InvalidLayout_0@, "enabled output "@ + name),
        a is NoCrtc ==> e->InvalidLayout_0@ == "no free CRTC for "@ + name,
        a matches Obstacle::Unavailable(mode) ==> begins_with(
            e->InvalidLayout_0@,
            "mode "@ + mode_text(mode),
        ) && e->InvalidLayout_0@.len() >= name.len() && e->InvalidLayout_0@.skip(
            e->InvalidLayout_0@.len() - name.len(),
        ) == name,
{
    match a {
        Obstacle::Modeless => {
            occurrences_are_parts(
                name,
                "enabled output "@ + name,
                name,
                " has no mode"@,
            );
        },
        Obstacle::Unavailable(mode) => {
            let start = "mode "@ + mode_text(mode);
            let m = e->InvalidLayout_0@;
            assert(m =~= start + (" not available on "@ + name));
            occurrences_are_parts(name, start, name, " not available on "@ + name);
            assert(m.skip(m.len() - name.len()) =~= name);
        },
        _ => {},
    }
}

} // verus!
