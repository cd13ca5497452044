//! Persisted daemon state: active profile, loop-guard suspension,
//! audio-restore bookkeeping, and any pending job that must survive a daemon
//! crash.

use crate::identity::{copy_edid, EdidId, OutputIdentity};
use vstd::prelude::*;

verus! {

#[derive(Debug, Clone, PartialEq)]
pub struct DaemonState {
    pub active_profile: Option<String>,
    /// Set by the loop guard; cleared by an explicit profile apply.
    pub suspended: bool,
    pub audio_restore: Vec<AudioRestore>,
    /// Crash-safe pending job: if the daemon dies mid-countdown, startup
    /// reverts an expired job (or re-arms the remainder).
    pub pending: Option<PersistedPending>,
}

impl Default for DaemonState {
    fn default() -> (r: Self)
        ensures
            r.active_profile is None,
            !r.suspended,
            r.audio_restore@.len() == 0,
            r.pending is None,
    {
        DaemonState {
            active_profile: None,
            suspended: false,
            audio_restore: Vec::new(),
            pending: None,
        }
    }
}

/// Audio sink to restore when the named output comes back.
#[derive(Debug, Clone, PartialEq)]
pub struct AudioRestore {
    pub connector: String,
    pub edid: Option<EdidId>,
    /// Default sink recorded just before the output was disabled.
    pub sink: String,
    /// What the default became after PipeWire failed over; used to detect
    /// whether the user changed sinks manually in the meantime.
    pub fallback: Option<String>,
}

/// The identity that a sink belongs to.
pub open spec fn restore_identity(a: AudioRestore) -> OutputIdentity {
    OutputIdentity { edid: a.edid, connector: a.connector }
}

impl AudioRestore {
    /// The identity that the sink belongs to.
    pub fn identity(&self) -> (r: OutputIdentity)
        ensures
            r == restore_identity(*self),
    {
        OutputIdentity { edid: copy_edid(&self.edid), connector: self.connector.clone() }
    }
}

#[derive(Debug, PartialEq)]
pub struct PersistedPending {
    pub job_id: u64,
    /// Unix seconds after which the job auto-reverts.
    pub deadline_epoch: u64,
    /// Serialized topology to restore on revert.
    pub prior_json: String,
}

impl Clone for PersistedPending {
    fn clone(&self) -> (r: Self)
        ensures
            r == *self,
    {
        PersistedPending {
            job_id: self.job_id,
            deadline_epoch: self.deadline_epoch,
            prior_json: self.prior_json.clone(),
        }
    }
}

} // verus!
