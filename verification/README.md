# NoSignal

Software unplug for displays: an output is switched off as if its cable were
pulled, and comes back where it was among the others. A daemon owns the rules: profiles
that are re-asserted after a hotplug, guards against going dark, timers that
revert what nobody confirmed, audio that follows the displays. A command line, a
tray icon and hotkeys are its clients.

## Layout

- `src/` is the library: every rule, with its contract, verified by Verus.
  - displays: `topology`, `identity`, `edid`, `mode_spec`, `refresh`,
    `binary64`, `nearest`
  - layouts: `layout`, `switch`, `guards`, `remembered`, `profile`
  - the daemon's state machine: `engine`, `config`, `state`, `audio`,
    `fullscreen`, `rpc`, `ipc`
  - display servers: `gnome`, `kde`, `wlroots`, `x11`, `windows`, `mock`,
    `select`, `ddc`
  - clients: `cli`, `tray`, `hotkeys`
  - ground: `text`, `bits`, `seqs`, `json`, `error`, `backend`, `fixtures`
- `app/` is what surrounds it: files, processes, DBus, Wayland, X11 and the
  clock. It performs what the library decides.
- `tests/` runs the library on examples.

The engine performs nothing itself. Each step takes what was read from the
outside, decides, and queues effects (save, emit, start a timer) that the daemon
then carries out.

## What the contracts state

Coordinates are machine integers: where a layout could leave their range, a
function either says so in its result or asks for it, and an executable test
(`spread_within`, `switch_within`, `corners_within`, ...) stands beside it.
Scales are kept as the bits of a double; comparisons and roundings of them are
defined exactly.

Public proof functions state what holds of the library as a whole. Among them:

- Switching an output off and on again restores the layout, with every position
  and the primary, as long as the display still advertises its mode
  (`switching_off_and_on_restores_the_layout`).
- No option makes a risky switch go without a timer, and a re-asserted profile
  that would leave the desktop dark is pending too (`risky_switch_is_temporary`,
  `risky_reassert_is_temporary`).
- A job that nobody confirms gives each display that is still connected its
  earlier state (`unconfirmed_job_is_reverted`), in whatever order the displays
  are listed by then (`restoring_undoes_what_happened`).
- A hotplug is answered with the active profile's layout, once
  (`hotplug_is_answered_once`).
- The sink that is restored with an output is the one that was the default before
  the output went (`sink_from_before_is_recorded`, `recorded_sink_is_restored`).
