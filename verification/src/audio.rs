//! Default-audio-sink control.
//!
//! When a disabled output was the default HDMI/DP audio sink, PipeWire (or
//! Windows) fails over on its own; the daemon's job is to *restore* the
//! remembered sink when the output comes back, unless the user picked a
//! different sink in the meantime.

use crate::text::{
    blank, chars_of, is_white, line_lists, lists_in_second_column, same_text, solid, texts,
    trim_text, trimmed, trimming_takes_the_white_ends,
};
use vstd::prelude::*;

verus! {

/// Platform audio control. Implementations must be cheap and non-blocking
/// enough to call from async context (single short-lived subprocess).
pub trait AudioController {
    /// Name of the current default sink.
    fn default_sink(&self) -> Option<String>;

    /// Make `sink` the default. Returns false on failure.
    fn set_default_sink(&mut self, sink: &str) -> bool;

    /// Whether a sink with this name currently exists.
    fn has_sink(&self, sink: &str) -> bool;
}

/// No-op controller for platforms/sessions without audio integration.
#[derive(Debug, Clone, Copy)]
pub struct NoopAudio;

impl AudioController for NoopAudio {
    fn default_sink(&self) -> (r: Option<String>)
        ensures
            r is None,
    {
        None
    }

    fn set_default_sink(&mut self, sink: &str) -> (r: bool)
        ensures
            !r,
    {
        false
    }

    fn has_sink(&self, sink: &str) -> (r: bool)
        ensures
            !r,
    {
        false
    }
}

/// Test double recording calls.
#[derive(Debug)]
pub struct FakeAudio {
    pub state: FakeAudioState,
}

#[derive(Debug)]
pub struct FakeAudioState {
    pub default: Option<String>,
    pub sinks: Vec<String>,
    pub set_calls: Vec<String>,
}

impl Default for FakeAudio {
    fn default() -> (r: Self)
        ensures
            r.state.default is None,
            r.state.sinks@.len() == 0,
            r.state.set_calls@.len() == 0,
    {
        FakeAudio {
            state: FakeAudioState { default: None, sinks: Vec::new(), set_calls: Vec::new() },
        }
    }
}

impl AudioController for FakeAudio {
    fn default_sink(&self) -> (r: Option<String>)
        ensures
            r == self.state.default,
    {
        match &self.state.default {
            Some(s) => Some(s.clone()),
            None => None,
        }
    }

    fn set_default_sink(&mut self, sink: &str) -> (r: bool)
        ensures
            r,
            final(self).state.sinks == old(self).state.sinks,
            texts(final(self).state.set_calls@) == texts(old(self).state.set_calls@).push(sink@),
            final(self).state.default is Some,
            final(self).state.default->0@ == sink@,
    {
        self.state.set_calls.push(sink.to_owned());
        self.state.default = Some(sink.to_owned());
        assert(texts(self.state.set_calls@) =~= texts(old(self).state.set_calls@).push(sink@));
        true
    }

    fn has_sink(&self, sink: &str) -> (r: bool)
        ensures
            r == texts(self.state.sinks@).contains(sink@),
    {
        for i in 0..self.state.sinks.len()
            invariant
                forall|j: int| 0 <= j < i ==> (#[trigger] self.state.sinks@[j])@ != sink@,
        {
            if same_text(self.state.sinks[i].as_str(), sink) {
                assert(texts(self.state.sinks@)[i as int] == sink@);
                return true;
            }
        }
        proof {
            if texts(self.state.sinks@).contains(sink@) {
                let k = choose|k: int|
                    0 <= k < texts(self.state.sinks@).len() && texts(self.state.sinks@)[k] == sink@;
                assert(self.state.sinks@[k]@ == sink@);
            }
        }
        false
    }
}

/// The sink in what was printed: all but the white space around it.
pub open spec fn sink_in(output: Seq<char>) -> Option<Seq<char>> {
    if trimmed(output).len() > 0 {
        Some(trimmed(output))
    } else {
        None
    }
}

/// The default sink that `pactl get-default-sink` printed, if it printed any.
pub fn printed_sink(output: &str) -> (r: Option<String>)
    ensures
        match r {
            Some(s) => sink_in(output@) == Some(s@),
            None => sink_in(output@) is None,
        },
{
    let s = trim_text(output);
    if chars_of(s.as_str()).len() == 0 {
        None
    } else {
        Some(s)
    }
}

/// Whether `pactl list short sinks` printed the sink: its name is the second
/// word of a line.
pub fn sink_listed(output: &str, sink: &str) -> (r: bool)
    ensures
        r == (sink@.len() > 0 && line_lists(trimmed(output@), sink@)),
{
    lists_in_second_column(trim_text(output).as_str(), sink)
}

/// What to do about a sink that is to become the default.
#[derive(Debug, Clone, Copy, PartialEq, Eq, Structural)]
pub enum SinkStep {
    /// It is there: make it the default.
    Use,
    /// It may take a moment to reappear with its output: look again later.
    Wait,
    /// It did not reappear.
    GiveUp,
}

/// How often a sink is looked for.
pub const SINK_ATTEMPTS: u32 = 10;

/// Milliseconds between two looks for a sink.
pub const SINK_RETRY_MS: u64 = 500;

/// Seconds until the audio server has failed over to another sink.
pub const FAILOVER_SECS: u64 = 2;

/// The next step after so many looks in vain.
pub open spec fn sink_decision(failed: u32, present: bool) -> SinkStep {
    if failed >= SINK_ATTEMPTS {
        SinkStep::GiveUp
    } else if present {
        SinkStep::Use
    } else {
        SinkStep::Wait
    }
}

/// The next step after `failed` looks found no sink and a further one found it
/// present or not.
pub fn sink_step(failed: u32, present: bool) -> (r: SinkStep)
    ensures
        r == sink_decision(failed, present),
{
    if failed >= SINK_ATTEMPTS {
        SinkStep::GiveUp
    } else if present {
        SinkStep::Use
    } else {
        SinkStep::Wait
    }
}

/// A sink is looked for ten times: as long as it lasts, it is used as soon as it is there.
pub proof fn sink_is_awaited_ten_times(failed: u32, present: bool)
    ensures
        sink_decision(failed, present) == SinkStep::GiveUp <==> failed >= 10,
        failed < 10 ==> (sink_decision(failed, present) == SinkStep::Use <==> present),
        failed < 10 ==> (sink_decision(failed, present) == SinkStep::Wait <==> !present),
{
}

/// What was printed around a sink's name does not count, and blank output names none.
pub proof fn sink_is_read_from_among_blanks(before: Seq<char>, name: Seq<char>, after: Seq<char>)
    requires
        blank(before),
        blank(after),
        solid(name),
    ensures
        name.len() > 0 ==> sink_in(before + name + after) == Some(name),
        name.len() == 0 ==> sink_in(before + name + after) is None,
{
    let s = before + name + after;
    let n = before.len() as int;
    let kept = trimming_takes_the_white_ends(s);
    assert forall|i: int| 0 <= i < s.len() implies is_white(#[trigger] s[i]) == !(n <= i < n
        + name.len()) by {
        if i < n {
            assert(s[i] == before[i]);
        } else if i < n + name.len() {
            assert(s[i] == name[i - n]);
        } else {
            assert(s[i] == after[i - n - name.len()]);
        }
    }
    if name.len() > 0 {
        assert(!is_white(s[n]) && !is_white(s[n + name.len() - 1]));
        assert(kept.0 == n && kept.1 == n + name.len());
        assert(s.subrange(n, n + name.len()) =~= name);
    }
}

} // verus!
