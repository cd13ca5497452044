//! Opt-in DDC/CI monitor power control.
//!
//! Output deactivation makes a display sleep on *its own* no-signal timer. For
//! monitors that speak DDC/CI, writing VCP feature 0xD6 (Power Mode) puts the
//! panel into standby immediately instead. DDC/CI is a per-path lottery:
//! everything is capability-probed and per-output opt-in, and failures are
//! never fatal. The wake path is always "re-enable the output and let the
//! returning signal wake the panel".

use crate::edid::{self, has_header, holds_identity, product_of, serial_of, vendor_of};
use crate::identity::{identity_text, EdidId, OutputIdentity};
use crate::seqs::{first_where, first_where_facts, first_where_is, first_where_none};
use crate::text::{ascii_lower, join2, same_ignoring_ascii_case, same_text};
use vstd::prelude::*;

verus! {

/// MCCS VCP code: Power Mode.
pub const VCP_POWER_MODE: u8 = 0xD6;

/// D6 value 4 = soft off. Wakes when the video signal returns (unlike 5,
/// hard off, which needs the power button).
pub const POWER_SOFT_OFF: u16 = 0x04;

/// Why DDC/CI could not be used.
#[derive(Debug)]
pub enum DdcError {
    NotFound(String),
    Comm(String),
    Unsupported,
}

/// What a DDC/CI error says to the user.
pub open spec fn ddc_message(e: DdcError) -> Seq<char> {
    match e {
        DdcError::NotFound(m) => "no DDC/CI-capable display matches "@ + m@,
        DdcError::Comm(m) => "DDC/CI communication failed: "@ + m@,
        DdcError::Unsupported => "DDC/CI is not supported on this platform"@,
    }
}

impl DdcError {
    /// The error's message.
    pub fn message(&self) -> (r: String)
        ensures
            r@ == ddc_message(*self),
    {
        match self {
            DdcError::NotFound(m) => join2("no DDC/CI-capable display matches ", m.as_str()),
            DdcError::Comm(m) => join2("DDC/CI communication failed: ", m.as_str()),
            DdcError::Unsupported => "DDC/CI is not supported on this platform".to_owned(),
        }
    }
}

/// Result of probing an output for DDC/CI power control.
#[derive(Debug)]
pub struct ProbeResult {
    /// Monitor's current power mode value (1 = on).
    pub current_power: u16,
    /// Backend path description (i2c device / OS handle), for bug reports.
    pub via: String,
}

/// What is known of a display that answers DDC/CI.
#[derive(Debug)]
pub struct DisplayInfo {
    pub edid_data: Option<Vec<u8>>,
    pub manufacturer_id: Option<String>,
    pub serial_number: Option<String>,
}

/// Whether a display is the one behind an identity: by its own EDID if that can
/// be read, otherwise by manufacturer and serial number.
pub open spec fn is_behind(d: DisplayInfo, id: OutputIdentity) -> bool {
    match id.edid {
        None => false,
        Some(wanted) => match d.edid_data {
            Some(b) if b@.len() >= 128 && has_header(b@) => {
                &&& vendor_of(b@[8], b@[9]) == wanted.vendor@
                &&& product_of(b@) == wanted.product@
                &&& serial_of(b@) == wanted.serial@
            },
            _ => {
                &&& d.manufacturer_id matches Some(m) && ascii_lower(m@) == ascii_lower(
                    wanted.vendor@,
                )
                &&& d.serial_number matches Some(s) && s@ == wanted.serial@
            },
        },
    }
}

/// Whether a display is the one behind an identity.
pub fn matches_identity(d: &DisplayInfo, id: &OutputIdentity) -> (r: bool)
    ensures
        r == is_behind(*d, *id),
{
    let wanted = match &id.edid {
        Some(e) => e,
        None => {
            return false;
        },
    };
    if let Some(bytes) = &d.edid_data {
        if let Some(parsed) = edid::parse(bytes.as_slice()) {
            return parsed.same(wanted);
        }
    }
    let by_maker = match &d.manufacturer_id {
        Some(m) => same_ignoring_ascii_case(m.as_str(), wanted.vendor.as_str()),
        None => false,
    };
    let by_serial = match &d.serial_number {
        Some(s) => same_text(s.as_str(), wanted.serial.as_str()),
        None => false,
    };
    by_maker && by_serial
}

/// The condition that a display is the one behind an identity.
pub open spec fn behind(id: OutputIdentity) -> spec_fn(DisplayInfo) -> bool {
    |d: DisplayInfo| is_behind(d, id)
}

/// Whether a result is the first display behind an identity, or says that there is none.
pub open spec fn display_found(
    r: Result<usize, DdcError>,
    displays: Seq<DisplayInfo>,
    id: OutputIdentity,
) -> bool {
    match (r, first_where(displays, behind(id))) {
        (Ok(i), Some(k)) => i == k,
        (Err(DdcError::NotFound(m)), None) => m@ == identity_text(id),
        _ => false,
    }
}

/// The first display behind an identity.
pub fn find(displays: &Vec<DisplayInfo>, id: &OutputIdentity) -> (r: Result<usize, DdcError>)
    ensures
        display_found(r, displays@, *id),
{
    for i in 0..displays.len()
        invariant
            forall|j: int| 0 <= j < i ==> !behind(*id)(displays@[j]),
    {
        if matches_identity(&displays[i], id) {
            proof {
                first_where_is(displays@, behind(*id), i as int);
            }
            return Ok(i);
        }
    }
    proof {
        first_where_none(displays@, behind(*id));
    }
    Err(DdcError::NotFound(id.to_text()))
}

/// A display whose EDID can be read is the one behind an identity exactly if the EDIDs
/// agree; one whose EDID cannot be read goes by its maker, whatever the case, and its serial
/// number. No display is behind an identity without an EDID.
pub proof fn display_goes_by_its_edid(d: DisplayInfo, id: OutputIdentity, read: Option<EdidId>)
    requires
        d.edid_data is Some ==> holds_identity(read, d.edid_data->0@),
        d.edid_data is None ==> read is None,
    ensures
        id.edid is None ==> !is_behind(d, id),
        id.edid is Some && read is Some ==> (is_behind(d, id) <==> read->0.vendor@
            == id.edid->0.vendor@ && read->0.product@ == id.edid->0.product@ && read->0.serial@
            == id.edid->0.serial@),
        id.edid is Some && read is None ==> (is_behind(d, id) <==> d.manufacturer_id is Some
            && d.serial_number is Some && d.serial_number->0@ == id.edid->0.serial@ && ascii_lower(
            d.manufacturer_id->0@,
        ) == ascii_lower(id.edid->0.vendor@)),
{
}

/// The display that is found is behind the identity, and no earlier one is.
pub proof fn first_display_behind_is_found(
    r: Result<usize, DdcError>,
    displays: Seq<DisplayInfo>,
    id: OutputIdentity,
    k: int,
)
    requires
        display_found(r, displays, id),
        0 <= k < displays.len(),
    ensures
        r matches Ok(i) ==> i < displays.len() && is_behind(displays[i as int], id),
        is_behind(displays[k], id) ==> (r matches Ok(i) && i <= k),
        r matches Err(e) ==> e is NotFound && !is_behind(displays[k], id),
{
    let p = behind(id);
    first_where_facts(displays, p);
    if is_behind(displays[k], id) {
        assert(p(displays[k]));
    }
    if first_where(displays, p) is Some {
        assert(p(displays[first_where(displays, p)->0]));
    }
}

} // verus!
