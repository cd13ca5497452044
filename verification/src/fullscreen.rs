//! Fullscreen detection ("warn-and-defer"): before disabling an output, the
//! daemon asks the oracle whether a fullscreen app might be running; if so,
//! clients must confirm (force) first.
//!
//! Platform reality: Windows can answer via `SHQueryUserNotificationState`;
//! on GNOME/KDE Wayland this is impossible from an external process, and the
//! auto-revert timer is the safety net there.

use vstd::prelude::*;

verus! {

pub trait FullscreenOracle {
    /// Best-effort: `true` when a fullscreen/presentation app seems active.
    fn fullscreen_active(&self) -> bool;
}

/// Platforms without detection: never blocks anything.
#[derive(Debug, Clone, Copy)]
pub struct NoopOracle;

impl FullscreenOracle for NoopOracle {
    fn fullscreen_active(&self) -> (r: bool)
        ensures
            !r,
    {
        false
    }
}

/// Windows notification state while a program runs full screen or settings
/// such as a presentation block notifications.
pub const QUNS_BUSY: i32 = 2;

/// Windows notification state while a full-screen Direct3D program runs.
pub const QUNS_RUNNING_D3D_FULL_SCREEN: i32 = 3;

/// Windows notification state in presentation mode.
pub const QUNS_PRESENTATION_MODE: i32 = 4;

/// Whether a Windows notification state means that a fullscreen or
/// presentation program runs.
pub open spec fn means_fullscreen(state: Option<i32>) -> bool {
    state == Some(QUNS_BUSY) || state == Some(QUNS_RUNNING_D3D_FULL_SCREEN) || state == Some(
        QUNS_PRESENTATION_MODE,
    )
}

/// Whether a Windows notification state means that a fullscreen or
/// presentation program runs; an unknown state does not.
pub fn state_is_fullscreen(state: Option<i32>) -> (r: bool)
    ensures
        r == means_fullscreen(state),
{
    match state {
        Some(s) => s == QUNS_BUSY || s == QUNS_RUNNING_D3D_FULL_SCREEN || s
            == QUNS_PRESENTATION_MODE,
        None => false,
    }
}

/// The states from 2 to 4 mean a fullscreen program, and neither another state nor an
/// unknown one does.
pub proof fn three_states_mean_fullscreen(state: Option<i32>)
    ensures
        means_fullscreen(state) <==> (state matches Some(s) && 2 <= s <= 4),
{
}

} // verus!
