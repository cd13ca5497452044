//! Software "unplug" for displays: disable outputs as if the cable were pulled,
//! and bring them back exactly as they were.
//!
//! The library holds every decision that the command line, the daemon, the tray
//! and the display backends make, as functions on plain data. Talking to display
//! servers, buses, files and clocks is left to the programs around it.

use vstd::prelude::*;

pub mod audio;
pub mod backend;
pub mod binary64;
pub mod bits;
pub mod cli;
pub mod config;
pub mod ddc;
pub mod edid;
pub mod engine;
pub mod error;
pub mod fixtures;
pub mod fullscreen;
pub mod gnome;
pub mod guards;
pub mod hotkeys;
pub mod identity;
pub mod ipc;
pub mod json;
pub mod kde;
pub mod layout;
pub mod mock;
pub mod mode_spec;
pub mod nearest;
pub mod profile;
pub mod refresh;
pub mod remembered;
pub mod rpc;
pub mod select;
pub mod seqs;
pub mod state;
pub mod switch;
pub mod text;
pub mod topology;
pub mod tray;
pub mod windows;
pub mod wlroots;
pub mod x11;

verus! {

/// Reverse-DNS application id.
pub const APP_ID: &'static str = "org.nosignal.NoSignal";

/// Well-known bus name of the daemon.
pub const DBUS_NAME: &'static str = "io.github.shadowxcc.NoSignal.Daemon1";

/// Object path of the daemon.
pub const DBUS_PATH: &'static str = "/io/github/shadowxcc/NoSignal/Daemon1";

/// Named pipe of the daemon on Windows.
pub const PIPE_NAME: &'static str = "\\\\.\\pipe\\nosignal-daemon";

} // verus!
