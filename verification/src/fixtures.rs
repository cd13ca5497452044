//! Fixture helpers for building test topologies.

use crate::identity::{EdidId, OutputIdentity};
use crate::text::join2;
use crate::topology::{
    builtin_connector, connector_is_builtin, Mode, Output, Scale, Topology, Transform, ONE_BITS,
};
use vstd::prelude::*;

verus! {

pub fn mode(w: u32, h: u32, mhz: u32) -> (r: Mode)
    ensures
        r.width == w,
        r.height == h,
        r.refresh_mhz == mhz,
{
    Mode { width: w, height: h, refresh_mhz: mhz }
}

pub fn edid(vendor: &str, product: &str, serial: &str) -> (r: EdidId)
    ensures
        r.vendor@ == vendor@,
        r.product@ == product@,
        r.serial@ == serial@,
{
    EdidId { vendor: vendor.to_owned(), product: product.to_owned(), serial: serial.to_owned() }
}

/// 4K at 60 Hz.
pub open spec fn four_k() -> Mode {
    Mode { width: 3840, height: 2160, refresh_mhz: 60_000 }
}

/// Full HD at 60 Hz.
pub open spec fn full_hd() -> Mode {
    Mode { width: 1920, height: 1080, refresh_mhz: 60_000 }
}

/// A 4K@60 output with sane defaults.
pub open spec fn is_fixture(
    o: Output,
    connector: Seq<char>,
    edid: Option<EdidId>,
    enabled: bool,
) -> bool {
    &&& o.identity.connector@ == connector
    &&& o.identity.edid == edid
    &&& o.display_name@ == "Mock "@ + connector
    &&& o.builtin == builtin_connector(connector)
    &&& o.enabled == enabled
    &&& o.mode == if enabled {
        Some(four_k())
    } else {
        None
    }
    &&& o.preferred_mode == Some(four_k())
    &&& o.modes@ == seq![four_k(), full_hd()]
    &&& o.scale.bits == ONE_BITS
    &&& o.transform == Transform::Normal
}

/// A 4K@60 output with sane defaults.
pub fn output(connector: &str, edid_id: Option<EdidId>, enabled: bool) -> (r: Output)
    ensures
        is_fixture(r, connector@, edid_id, enabled),
        r.alias is None,
        r.position == (0i32, 0i32),
        !r.primary,
{
    let mut modes: Vec<Mode> = Vec::new();
    modes.push(mode(3840, 2160, 60_000));
    modes.push(mode(1920, 1080, 60_000));
    assert(modes@ =~= seq![four_k(), full_hd()]);
    Output {
        identity: OutputIdentity::new(connector, edid_id),
        alias: None,
        display_name: join2("Mock ", connector),
        builtin: connector_is_builtin(connector),
        enabled,
        mode: if enabled {
            Some(mode(3840, 2160, 60_000))
        } else {
            None
        },
        preferred_mode: Some(mode(3840, 2160, 60_000)),
        modes,
        position: (0, 0),
        scale: Scale::one(),
        transform: Transform::Normal,
        primary: false,
    }
}

/// Desktop + TV rig: DP-1 primary enabled, HDMI TV enabled to its right.
pub fn desk_with_tv() -> (r: Topology)
    ensures
        r.serial@ == "1"@,
        r.outputs@.len() == 2,
        ({
            let dp = r.outputs@[0];
            let tv = r.outputs@[1];
            &&& is_fixture(dp, "DP-1"@, dp.identity.edid, true)
            &&& dp.identity.edid is Some
            &&& dp.identity.edid->0.vendor@ == "DEL"@
            &&& dp.identity.edid->0.product@ == "0xa0b1"@
            &&& dp.identity.edid->0.serial@ == "12345"@
            &&& dp.alias is None
            &&& dp.position == (0i32, 0i32)
            &&& dp.primary
            &&& is_fixture(tv, "HDMI-A-1"@, tv.identity.edid, true)
            &&& tv.identity.edid is Some
            &&& tv.identity.edid->0.vendor@ == "SAM"@
            &&& tv.identity.edid->0.product@ == "0x7201"@
            &&& tv.identity.edid->0.serial@ == "777"@
            &&& tv.alias is Some && tv.alias->0@ == "TV"@
            &&& tv.position == (3840i32, 0i32)
            &&& !tv.primary
        }),
{
    let mut dp = output("DP-1", Some(edid("DEL", "0xa0b1", "12345")), true);
    dp.primary = true;
    let mut tv = output("HDMI-A-1", Some(edid("SAM", "0x7201", "777")), true);
    tv.alias = Some("TV".to_owned());
    tv.position = (3840, 0);
    let mut outputs: Vec<Output> = Vec::new();
    outputs.push(dp);
    outputs.push(tv);
    Topology { serial: "1".to_owned(), outputs }
}

} // verus!
