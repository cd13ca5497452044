//! KDE backend logic: reading `kscreen-doctor -j` and writing its setter
//! arguments. KScreen has no configuration serial; a hash of the snapshot
//! stands for one.

use crate::backend::ApplyMode;
use crate::binary64::{in_thousandths, to_thousandths};
use crate::bits::{low_i32, low_u32, truncate_i32, truncate_u32};
use crate::error::BackendError;
use crate::identity::{EdidId, OutputIdentity};
use crate::json::{
    as_bool, as_double, as_list, as_signed, as_text, as_unsigned, bool_of, double_of, json_in,
    list_of, member, nested, parse_json, signed_of, text_of, tree, tree_of, unsigned_of, Json, Tree,
};
use crate::seqs::{
    filter_has, filter_held, filter_meets, filter_push, find_where, first_where, first_where_facts,
    first_where_is, first_where_none, first_where_push,
};
use crate::text::{
    ascii_lower, chars_of, decimal, hash_text, hexadecimal, join2, join3, push_decimal,
    push_hexadecimal, same_ignoring_ascii_case, same_text, signed_decimal, signed_decimal_text,
    text_hash, texts, trim_text, trimmed,
};
use crate::topology::{
    builtin_connector, connector_is_builtin, has_mode, mode_text, output_at, transform_code,
    transform_of, LayoutPlan, Mode, Output, PlannedOutput, Scale, Topology, Transform, ONE_BITS,
};
use vstd::prelude::*;

verus! {

/// The notation of a hash as a configuration serial.
pub fn serial_text(hash: u64) -> (r: String)
    ensures
        r@ == hexadecimal(hash as nat),
{
    let mut s = String::new();
    push_hexadecimal(&mut s, hash);
    assert(s@ =~= hexadecimal(hash as nat));
    s
}

/// Configuration serial: a hash of the JSON snapshot. KScreen has no serial
/// concept; a changed snapshot means outstanding plans are stale.
pub fn serial_of(json: &str) -> (r: String)
    ensures
        r@ == hexadecimal(text_hash(json@) as nat),
{
    serial_text(hash_text(json))
}

/// KScreen rotation flags: 1 = none, 2 = left (90°), 4 = inverted (180°),
/// 8 = right (270°).
pub open spec fn rotation_transform(rotation: u64) -> Transform {
    if rotation == 2 {
        Transform::Rot90
    } else if rotation == 4 {
        Transform::Rot180
    } else if rotation == 8 {
        Transform::Rot270
    } else {
        Transform::Normal
    }
}

/// The transform that a KScreen rotation flag stands for.
pub fn kscreen_rotation_to_transform(rotation: u64) -> (r: Transform)
    ensures
        r == rotation_transform(rotation),
{
    match rotation {
        2 => Transform::Rot90,
        4 => Transform::Rot180,
        8 => Transform::Rot270,
        _ => Transform::Normal,
    }
}

/// The KScreen rotation word of a transform; reflections are left out.
pub open spec fn rotation_word(t: Transform) -> Seq<char> {
    match t {
        Transform::Rot90 | Transform::FlippedRot90 => "left"@,
        Transform::Rot180 | Transform::FlippedRot180 => "inverted"@,
        Transform::Rot270 | Transform::FlippedRot270 => "right"@,
        Transform::Normal | Transform::Flipped => "none"@,
    }
}

/// The KScreen rotation word of a transform.
pub fn transform_to_kscreen_rotation(t: Transform) -> (r: &'static str)
    ensures
        r@ == rotation_word(t),
{
    match t {
        Transform::Rot90 | Transform::FlippedRot90 => "left",
        Transform::Rot180 | Transform::FlippedRot180 => "inverted",
        Transform::Rot270 | Transform::FlippedRot270 => "right",
        Transform::Normal | Transform::Flipped => "none",
    }
}

// ------------------------------------------------------------------ reading

/// Bits of 60.0.
pub const SIXTY_BITS: u64 = 0x404e_0000_0000_0000;

/// An optional value, or a default.
pub open spec fn or_else<T>(v: Option<T>, default: T) -> T {
    match v {
        Some(x) => x,
        None => default,
    }
}

/// The mode that an entry of the mode list describes, if its size is given.
pub open spec fn listed_mode(t: Tree) -> Option<Mode> {
    match (
        unsigned_of(nested(t, "size"@, "width"@)),
        unsigned_of(nested(t, "size"@, "height"@)),
    ) {
        (Some(w), Some(h)) => Some(
            Mode {
                width: low_u32(w as int),
                height: low_u32(h as int),
                refresh_mhz: in_thousandths(
                    or_else(double_of(member(t, "refreshRate"@)), SIXTY_BITS),
                ),
            },
        ),
        _ => None,
    }
}

/// The condition that an entry of the mode list describes a mode.
pub open spec fn describes_mode() -> spec_fn(Tree) -> bool {
    |t: Tree| listed_mode(t) is Some
}

/// The entries of an output's mode list that describe a mode.
pub open spec fn mode_entries(t: Tree) -> Seq<Tree> {
    or_else(list_of(member(t, "modes"@)), Seq::empty()).filter(describes_mode())
}

/// The modes of some entries.
pub open spec fn modes_of(entries: Seq<Tree>) -> Seq<Mode> {
    entries.map_values(|t: Tree| listed_mode(t)->0)
}

/// The last of the modes whose id is the wanted one.
pub open spec fn mode_with_id(entries: Seq<Tree>, id: Option<Seq<char>>) -> Option<Mode>
    decreases entries.len(),
{
    if entries.len() == 0 {
        None
    } else {
        let own = text_of(member(entries.last(), "id"@));
        if own is Some && own == id {
            listed_mode(entries.last())
        } else {
            mode_with_id(entries.drop_last(), id)
        }
    }
}

/// Whether a list holds a text.
pub open spec fn lists_text(list: Seq<Tree>, s: Seq<char>) -> bool {
    exists|i: int| 0 <= i < list.len() && text_of(Some(#[trigger] list[i])) == Some(s)
}

/// The condition that an entry's id is among the preferred ones.
pub open spec fn preferred_entry(ids: Seq<Tree>) -> spec_fn(Tree) -> bool {
    |t: Tree|
        {
            let own = text_of(member(t, "id"@));
            own is Some && lists_text(ids, own->0)
        }
}

/// The first of the modes whose id is among the preferred ones.
pub open spec fn preferred_mode_of(entries: Seq<Tree>, ids: Seq<Tree>) -> Option<Mode> {
    match find_where(entries, preferred_entry(ids)) {
        Some(t) => listed_mode(t),
        None => None,
    }
}

/// The text of a member; empty without one.
pub open spec fn member_text(t: Tree, name: Seq<char>) -> Seq<char> {
    or_else(text_of(member(t, name)), Seq::empty())
}

/// Whether an output is the one that a JSON object describes.
pub open spec fn described(o: Output, t: Tree) -> bool {
    let name = member_text(t, "name"@);
    let vendor = member_text(t, "vendor"@);
    let model = member_text(t, "model"@);
    let serial = member_text(t, "serialNumber"@);
    let entries = mode_entries(t);
    let kind = text_of(member(t, "type"@));
    &&& o.identity.connector@ == name
    &&& match o.identity.edid {
        Some(e) => {
            &&& vendor.len() > 0 || model.len() > 0 || serial.len() > 0
            &&& e.vendor@ == vendor
            &&& e.product@ == model
            &&& e.serial@ == serial
        },
        None => vendor.len() == 0 && model.len() == 0 && serial.len() == 0,
    }
    &&& o.alias is None
    &&& o.display_name@ == if model.len() == 0 {
        name
    } else {
        trimmed(vendor + " "@ + model)
    }
    &&& o.builtin == ((kind is Some && ascii_lower(kind->0) == ascii_lower("panel"@))
        || builtin_connector(name))
    &&& o.enabled == or_else(bool_of(member(t, "enabled"@)), false)
    &&& o.mode == mode_with_id(entries, text_of(member(t, "currentModeId"@)))
    &&& o.preferred_mode == preferred_mode_of(
        entries,
        or_else(list_of(member(t, "preferredModes"@)), Seq::empty()),
    )
    &&& o.modes@ == modes_of(entries)
    &&& o.position == (
        low_i32(or_else(signed_of(nested(t, "pos"@, "x"@)), 0) as int),
        low_i32(or_else(signed_of(nested(t, "pos"@, "y"@)), 0) as int),
    )
    &&& o.scale.bits == or_else(double_of(member(t, "scale"@)), ONE_BITS)
    &&& o.transform == rotation_transform(or_else(unsigned_of(member(t, "rotation"@)), 1))
    &&& o.primary == (unsigned_of(member(t, "priority"@)) == Some(1u64))
}

/// The condition that an output is connected, as far as its description says.
pub open spec fn connected() -> spec_fn(Tree) -> bool {
    |t: Tree| or_else(bool_of(member(t, "connected"@)), true)
}

/// Whether outputs are those that JSON objects describe.
pub open spec fn all_described(outputs: Seq<Output>, list: Seq<Tree>) -> bool {
    &&& outputs.len() == list.len()
    &&& forall|i: int| 0 <= i < outputs.len() ==> described(#[trigger] outputs[i], list[i])
}

fn owned_or_empty(s: Option<&str>) -> (r: String)
    ensures
        r@ == match s {
            Some(t) => t@,
            None => Seq::empty(),
        },
{
    match s {
        Some(t) => t.to_owned(),
        None => String::new(),
    }
}

fn is_blank(s: &String) -> (r: bool)
    ensures
        r == (s@.len() == 0),
{
    chars_of(s.as_str()).len() == 0
}

fn read_mode(j: &Json) -> (r: Option<Mode>)
    ensures
        r == listed_mode(tree(*j)),
{
    match (
        as_unsigned(j.get_nested("size", "width")),
        as_unsigned(j.get_nested("size", "height")),
    ) {
        (Some(w), Some(h)) => {
            let bits: u64 = match as_double(j.get("refreshRate")) {
                Some(b) => b,
                None => SIXTY_BITS,
            };
            Some(
                Mode {
                    width: truncate_u32(w),
                    height: truncate_u32(h),
                    refresh_mhz: to_thousandths(bits),
                },
            )
        },
        _ => None,
    }
}

fn holds_text(list: &Vec<Json>, s: &str) -> (r: bool)
    ensures
        r == lists_text(list@.map_values(|j: Json| tree(j)), s@),
{
    let ghost trees = list@.map_values(|j: Json| tree(j));
    for i in 0..list.len()
        invariant
            trees == list@.map_values(|j: Json| tree(j)),
            forall|j: int| 0 <= j < i ==> text_of(Some(#[trigger] trees[j])) != Some(s@),
    {
        let item = Some(&list[i]);
        assert(tree_of(item) == Some(trees[i as int]));
        if let Some(t) = as_text(item) {
            if same_text(t, s) {
                assert(text_of(Some(trees[i as int])) == Some(s@));
                return true;
            }
        }
        assert(text_of(Some(trees[i as int])) != Some(s@));
    }
    false
}

/// The modes of an output: all of them, the current one, the preferred one.
struct ModeList {
    modes: Vec<Mode>,
    current: Option<Mode>,
    preferred: Option<Mode>,
}

fn read_modes(j: &Json) -> (r: ModeList)
    ensures
        ({
            let t = tree(*j);
            &&& r.modes@ == modes_of(mode_entries(t))
            &&& r.current == mode_with_id(
                mode_entries(t),
                text_of(member(t, "currentModeId"@)),
            )
            &&& r.preferred == preferred_mode_of(
                mode_entries(t),
                or_else(list_of(member(t, "preferredModes"@)), Seq::empty()),
            )
        }),
{
    let ghost t = tree(*j);
    let ghost ids = or_else(list_of(member(t, "preferredModes"@)), Seq::empty());
    let current_id = as_text(j.get("currentModeId"));
    let ghost want = text_of(member(t, "currentModeId"@));
    let none: Vec<Json> = Vec::new();
    let preferred_ids: &Vec<Json> = match as_list(j.get("preferredModes")) {
        Some(v) => v,
        None => &none,
    };
    assert(preferred_ids@.map_values(|x: Json| tree(x)) =~= ids);
    let list: &Vec<Json> = match as_list(j.get("modes")) {
        Some(v) => v,
        None => &none,
    };
    let ghost all = or_else(list_of(member(t, "modes"@)), Seq::empty());
    assert(list@.map_values(|x: Json| tree(x)) =~= all);
    let mut modes: Vec<Mode> = Vec::new();
    let mut current: Option<Mode> = None;
    let mut preferred: Option<Mode> = None;
    proof {
        assert(all.take(0) =~= Seq::<Tree>::empty());
        reveal(Seq::filter);
        first_where_none(Seq::<Tree>::empty(), preferred_entry(ids));
        assert(modes@ =~= modes_of(all.take(0).filter(describes_mode())));
    }
    for i in 0..list.len()
        invariant
            list@.len() == all.len(),
            forall|x: int| 0 <= x < all.len() ==> tree(#[trigger] list@[x]) == all[x],
            preferred_ids@.map_values(|x: Json| tree(x)) == ids,
            match (current_id, want) {
                (Some(s), Some(w)) => s@ == w,
                (None, None) => true,
                _ => false,
            },
            modes@ == modes_of(all.take(i as int).filter(describes_mode())),
            current == mode_with_id(all.take(i as int).filter(describes_mode()), want),
            preferred == preferred_mode_of(all.take(i as int).filter(describes_mode()), ids),
            preferred is None <==> first_where(
                all.take(i as int).filter(describes_mode()),
                preferred_entry(ids),
            ) is None,
    {
        let ghost before = all.take(i as int).filter(describes_mode());
        let ghost entry = all[i as int];
        proof {
            filter_push(all.take(i as int), describes_mode(), entry);
            assert(all.take(i as int).push(entry) =~= all.take(i + 1));
            assert(tree(list@[i as int]) == entry);
        }
        let m = &list[i];
        if let Some(mode) = read_mode(m) {
            let ghost after = before.push(entry);
            modes.push(mode);
            proof {
                assert(modes@ =~= modes_of(after));
                assert(after.drop_last() =~= before);
                first_where_push(before, preferred_entry(ids), entry);
                first_where_facts(before, preferred_entry(ids));
            }
            let id = as_text(m.get("id"));
            if let Some(own) = id {
                if let Some(cur) = current_id {
                    if same_text(own, cur) {
                        current = Some(mode);
                    }
                }
                if preferred.is_none() && holds_text(preferred_ids, own) {
                    preferred = Some(mode);
                }
            }
        }
    }
    assert(all.take(all.len() as int) =~= all);
    ModeList { modes, current, preferred }
}

fn read_output(j: &Json) -> (r: Output)
    ensures
        described(r, tree(*j)),
{
    let name = owned_or_empty(as_text(j.get("name")));
    let vendor = owned_or_empty(as_text(j.get("vendor")));
    let model = owned_or_empty(as_text(j.get("model")));
    let serial = owned_or_empty(as_text(j.get("serialNumber")));
    let display_name: String = if is_blank(&model) {
        name.clone()
    } else {
        trim_text(join3(vendor.as_str(), " ", model.as_str()).as_str())
    };
    let edid: Option<EdidId> = if !is_blank(&vendor) || !is_blank(&model) || !is_blank(&serial) {
        Some(EdidId { vendor, product: model, serial })
    } else {
        None
    };
    let enabled: bool = match as_bool(j.get("enabled")) {
        Some(b) => b,
        None => false,
    };
    let list = read_modes(j);
    let panel: bool = match as_text(j.get("type")) {
        Some(t) => same_ignoring_ascii_case(t, "panel"),
        None => false,
    };
    let x: i64 = match as_signed(j.get_nested("pos", "x")) {
        Some(v) => v,
        None => 0,
    };
    let y: i64 = match as_signed(j.get_nested("pos", "y")) {
        Some(v) => v,
        None => 0,
    };
    let bits: u64 = match as_double(j.get("scale")) {
        Some(b) => b,
        None => ONE_BITS,
    };
    let rotation: u64 = match as_unsigned(j.get("rotation")) {
        Some(v) => v,
        None => 1,
    };
    let primary: bool = match as_unsigned(j.get("priority")) {
        Some(v) => v == 1,
        None => false,
    };
    let builtin = panel || connector_is_builtin(name.as_str());
    Output {
        identity: OutputIdentity { edid, connector: name },
        alias: None,
        display_name,
        builtin,
        enabled,
        mode: list.current,
        preferred_mode: list.preferred,
        modes: list.modes,
        position: (truncate_i32(x), truncate_i32(y)),
        scale: Scale { bits },
        transform: kscreen_rotation_to_transform(rotation),
        primary,
    }
}

/// Read the outputs of a `kscreen-doctor -j` document; disconnected ones are
/// skipped.
pub fn read_outputs(document: &Json) -> (r: Result<Vec<Output>, BackendError>)
    ensures
        match list_of(member(tree(*document), "outputs"@)) {
            Some(list) => r is Ok && all_described(r->Ok_0@, list.filter(connected())),
            None => r matches Err(BackendError::Server(m)) && m@
                == "kscreen-doctor JSON: no outputs"@,
        },
{
    let list = match as_list(document.get("outputs")) {
        Some(v) => v,
        None => {
            return Err(BackendError::Server("kscreen-doctor JSON: no outputs".to_owned()));
        },
    };
    let ghost all = list_of(member(tree(*document), "outputs"@))->0;
    let mut outputs: Vec<Output> = Vec::new();
    proof {
        assert(all.take(0) =~= Seq::<Tree>::empty());
        reveal(Seq::filter);
    }
    for i in 0..list.len()
        invariant
            list@.len() == all.len(),
            forall|x: int| 0 <= x < all.len() ==> tree(#[trigger] list@[x]) == all[x],
            all_described(outputs@, all.take(i as int).filter(connected())),
    {
        proof {
            filter_push(all.take(i as int), connected(), all[i as int]);
            assert(all.take(i as int).push(all[i as int]) =~= all.take(i + 1));
            assert(tree(list@[i as int]) == all[i as int]);
        }
        let o = &list[i];
        let present: bool = match as_bool(o.get("connected")) {
            Some(b) => b,
            None => true,
        };
        if present {
            outputs.push(read_output(o));
        }
    }
    assert(all.take(all.len() as int) =~= all);
    Ok(outputs)
}

/// Read a `kscreen-doctor -j` snapshot.
pub fn parse_topology(json: &str) -> (r: Result<Topology, BackendError>)
    ensures
        match json_in(json@) {
            Err(e) => r matches Err(BackendError::Server(m)) && m@ == "kscreen-doctor JSON: "@ + e,
            Ok(t) => match list_of(member(t, "outputs"@)) {
                None => r matches Err(BackendError::Server(m)) && m@
                    == "kscreen-doctor JSON: no outputs"@,
                Some(list) => {
                    &&& r is Ok
                    &&& r->Ok_0.serial@ == hexadecimal(text_hash(json@) as nat)
                    &&& all_described(r->Ok_0.outputs@, list.filter(connected()))
                },
            },
        },
{
    let document: Json = match parse_json(json) {
        Ok(j) => j,
        Err(e) => {
            return Err(BackendError::Server(join2("kscreen-doctor JSON: ", e.as_str())));
        },
    };
    match read_outputs(&document) {
        Ok(outputs) => Ok(Topology { serial: serial_of(json), outputs }),
        Err(e) => Err(e),
    }
}

// ------------------------------------------------------------------ writing

/// A refresh rate in whole hertz, halves up.
pub open spec fn whole_hertz(mhz: u32) -> nat {
    ((mhz + 500) / 1000) as nat
}

/// `output.<name>.<rest>`.
pub open spec fn setter(name: Seq<char>, rest: Seq<char>) -> Seq<char> {
    "output."@ + name + "."@ + rest
}

/// The priority of the next secondary output among the first `n` of a plan.
pub open spec fn next_priority(plan: Seq<PlannedOutput>, n: int) -> nat
    decreases n,
{
    if n <= 0 {
        2
    } else {
        next_priority(plan, n - 1) + if plan[n - 1].enabled && !plan[n - 1].primary {
            1nat
        } else {
            0nat
        }
    }
}

/// The setter arguments of one planned output.
pub open spec fn setters(p: PlannedOutput, scale: Seq<char>, priority: nat) -> Seq<Seq<char>> {
    let name = p.identity.connector@;
    if !p.enabled {
        seq![setter(name, "disable"@)]
    } else {
        let m = p.mode->0;
        seq![
            setter(name, "enable"@),
            setter(
                name,
                "mode."@ + decimal(m.width as nat) + "x"@ + decimal(m.height as nat) + "@"@
                    + decimal(whole_hertz(m.refresh_mhz)),
            ),
            setter(
                name,
                "position."@ + signed_decimal(p.position.0 as int) + ","@ + signed_decimal(
                    p.position.1 as int,
                ),
            ),
            setter(name, "scale."@ + scale),
            setter(name, "rotation."@ + rotation_word(p.transform)),
            setter(
                name,
                "priority."@ + decimal(
                    if p.primary {
                        1
                    } else {
                        priority
                    },
                ),
            ),
        ]
    }
}

/// The setter arguments of the first `n` planned outputs.
pub open spec fn all_setters(plan: Seq<PlannedOutput>, scales: Seq<Seq<char>>, n: int) -> Seq<
    Seq<char>,
>
    decreases n,
{
    if n <= 0 {
        Seq::empty()
    } else {
        all_setters(plan, scales, n - 1) + setters(
            plan[n - 1],
            scales[n - 1],
            next_priority(plan, n - 1),
        )
    }
}

/// What is wrong with a planned output.
pub enum Flaw {
    Unknown,
    Modeless,
    Unavailable(Mode),
}

/// What is wrong with a planned output, if anything is.
pub open spec fn flaw_of(p: PlannedOutput, outputs: Seq<Output>) -> Option<Flaw> {
    match find_where(outputs, output_at(p.identity.connector@)) {
        None => Some(Flaw::Unknown),
        Some(o) => if !p.enabled {
            None
        } else {
            match p.mode {
                None => Some(Flaw::Modeless),
                Some(m) => if o.modes@.contains(m) {
                    None
                } else {
                    Some(Flaw::Unavailable(m))
                },
            }
        },
    }
}

/// The condition that something is wrong with a planned output.
pub open spec fn flawed(outputs: Seq<Output>) -> spec_fn(PlannedOutput) -> bool {
    |p: PlannedOutput| flaw_of(p, outputs) is Some
}

/// The error about a flawed planned output.
pub open spec fn reports_flaw(e: BackendError, p: PlannedOutput, flaw: Flaw) -> bool {
    let name = p.identity.connector@;
    match flaw {
        Flaw::Unknown => e matches BackendError::UnknownOutput(m) && m@ == name,
        Flaw::Modeless => e matches BackendError::InvalidLayout(m) && m@ == "enabled output "@
            + name + " has no mode"@,
        Flaw::Unavailable(mode) => e matches BackendError::InvalidLayout(m) && m@ == "mode "@
            + mode_text(mode) + " not available on "@ + name,
    }
}

fn push_setter(args: &mut Vec<String>, name: &str, rest: &str)
    ensures
        texts(final(args)@) == texts(old(args)@).push(setter(name@, rest@)),
{
    let mut s = join3("output.", name, ".");
    s.append(rest);
    args.push(s);
    assert(texts(args@) =~= texts(old(args)@).push(setter(name@, rest@)));
}

fn find_flaw(p: &PlannedOutput, live: &Topology) -> (r: Option<BackendError>)
    ensures
        match (r, flaw_of(*p, live.outputs@)) {
            (Some(e), Some(flaw)) => reports_flaw(e, *p, flaw),
            (None, None) => true,
            _ => false,
        },
{
    let name = &p.identity.connector;
    let output = match live.find_connector(name.as_str()) {
        Some(o) => o,
        None => {
            return Some(BackendError::UnknownOutput(name.clone()));
        },
    };
    if !p.enabled {
        return None;
    }
    match p.mode {
        None => Some(
            BackendError::InvalidLayout(
                join3("enabled output ", name.as_str(), " has no mode"),
            ),
        ),
        Some(mode) => {
            if has_mode(&output.modes, mode) {
                return None;
            }
            let mut m = join3("mode ", mode.to_text().as_str(), " not available on ");
            m.append(name.as_str());
            Some(BackendError::InvalidLayout(m))
        },
    }
}

fn push_setters(args: &mut Vec<String>, p: &PlannedOutput, scale: &str, priority: u32)
    requires
        p.enabled ==> p.mode is Some,
    ensures
        texts(final(args)@) == texts(old(args)@) + setters(*p, scale@, priority as nat),
{
    let name = p.identity.connector.as_str();
    let ghost before = texts(args@);
    if !p.enabled {
        push_setter(args, name, "disable");
        assert(texts(args@) =~= before + setters(*p, scale@, priority as nat));
        return ;
    }
    if let Some(m) = p.mode {
        push_setter(args, name, "enable");
        let mut mode = "mode.".to_owned();
        push_decimal(&mut mode, m.width as u64);
        mode.append("x");
        push_decimal(&mut mode, m.height as u64);
        mode.append("@");
        push_decimal(&mut mode, (m.refresh_mhz as u64 + 500) / 1000);
        push_setter(args, name, mode.as_str());
        let mut position = "position.".to_owned();
        position.append(signed_decimal_text(p.position.0 as i64).as_str());
        position.append(",");
        position.append(signed_decimal_text(p.position.1 as i64).as_str());
        push_setter(args, name, position.as_str());
        push_setter(args, name, join2("scale.", scale).as_str());
        push_setter(
            args,
            name,
            join2("rotation.", transform_to_kscreen_rotation(p.transform)).as_str(),
        );
        let mut rank = "priority.".to_owned();
        push_decimal(
            &mut rank,
            if p.primary {
                1
            } else {
                priority as u64
            },
        );
        push_setter(args, name, rank.as_str());
        assert(texts(args@) =~= before + setters(*p, scale@, priority as nat));
    }
}

proof fn priority_bound(plan: Seq<PlannedOutput>, n: int)
    requires
        0 <= n,
    ensures
        2 <= next_priority(plan, n) <= n + 2,
    decreases n,
{
    if n > 0 {
        priority_bound(plan, n - 1);
    }
}

/// Build the kscreen-doctor setter arguments for a whole-layout plan. `scales`
/// holds the notation of each planned output's scale.
pub fn build_args(plan: &LayoutPlan, live: &Topology, scales: &Vec<String>) -> (r: Result<
    Vec<String>,
    BackendError,
>)
    requires
        scales.len() == plan.outputs.len(),
        plan.outputs.len() + 2 <= u32::MAX,
    ensures
        match first_where(plan.outputs@, flawed(live.outputs@)) {
            Some(i) => {
                &&& r is Err
                &&& reports_flaw(
                    r->Err_0,
                    plan.outputs@[i],
                    flaw_of(plan.outputs@[i], live.outputs@)->0,
                )
            },
            None => {
                &&& r is Ok
                &&& texts(r->Ok_0@) == all_setters(
                    plan.outputs@,
                    texts(scales@),
                    plan.outputs@.len() as int,
                )
            },
        },
{
    let mut args: Vec<String> = Vec::new();
    let mut priority: u32 = 2;
    let ghost planned = plan.outputs@;
    assert(texts(args@) =~= Seq::<Seq<char>>::empty());
    for i in 0..plan.outputs.len()
        invariant
            planned == plan.outputs@,
            scales.len() == planned.len(),
            planned.len() + 2 <= u32::MAX,
            priority == next_priority(planned, i as int),
            texts(args@) == all_setters(planned, texts(scales@), i as int),
            forall|j: int| 0 <= j < i ==> !flawed(live.outputs@)(planned[j]),
    {
        let p = &plan.outputs[i];
        if let Some(e) = find_flaw(p, live) {
            proof {
                first_where_is(planned, flawed(live.outputs@), i as int);
            }
            return Err(e);
        }
        proof {
            priority_bound(planned, i as int);
            assert(texts(scales@)[i as int] == scales@[i as int]@);
        }
        push_setters(&mut args, p, scales[i].as_str(), priority);
        if p.enabled && !p.primary {
            priority = priority + 1;
        }
    }
    proof {
        first_where_none(planned, flawed(live.outputs@));
    }
    Ok(args)
}

/// Decide about applying a plan on top of a fresh snapshot: the arguments to
/// run, or `None` when a valid plan was only to be verified.
pub fn plan_apply(
    plan: &LayoutPlan,
    live: &Topology,
    scales: &Vec<String>,
    mode: ApplyMode,
) -> (r: Result<Option<Vec<String>>, BackendError>)
    requires
        scales.len() == plan.outputs.len(),
        plan.outputs.len() + 2 <= u32::MAX,
    ensures
        if plan.serial@ != live.serial@ {
            r matches Err(BackendError::StaleSerial)
        } else {
            match first_where(plan.outputs@, flawed(live.outputs@)) {
                Some(i) => {
                    &&& r is Err
                    &&& reports_flaw(
                        r->Err_0,
                        plan.outputs@[i],
                        flaw_of(plan.outputs@[i], live.outputs@)->0,
                    )
                },
                None => {
                    &&& r is Ok
                    &&& r->Ok_0 is None <==> mode == ApplyMode::Verify
                    &&& r->Ok_0 matches Some(args) ==> texts(args@) == all_setters(
                        plan.outputs@,
                        texts(scales@),
                        plan.outputs@.len() as int,
                    )
                },
            }
        },
{
    if !same_text(plan.serial.as_str(), live.serial.as_str()) {
        return Err(BackendError::StaleSerial);
    }
    match build_args(plan, live, scales) {
        Err(e) => Err(e),
        Ok(args) => if mode == ApplyMode::Verify {
            Ok(None)
        } else {
            Ok(Some(args))
        },
    }
}

// --------------------------------------------------------------------- laws

/// The flags and the words of KScreen for a rotation go together, and a rotation
/// survives the way out and back.
pub proof fn rotation_words_match_the_flags(t: Transform)
    ensures
        rotation_word(rotation_transform(1)) == "none"@,
        rotation_word(rotation_transform(2)) == "left"@,
        rotation_word(rotation_transform(4)) == "inverted"@,
        rotation_word(rotation_transform(8)) == "right"@,
        transform_code(rotation_transform(1)) == 0,
        transform_code(rotation_transform(2)) == 1,
        transform_code(rotation_transform(4)) == 2,
        transform_code(rotation_transform(8)) == 3,
        transform_code(t) >= 4 ==> rotation_word(t) == rotation_word(
            transform_of((transform_code(t) - 4) as u8)->0,
        ),
{
}

/// An output that is planned to be on is told its mode, its position, its scale, its
/// rotation and its priority, each in one argument; one that is planned to be off
/// is switched off. Arguments of the other outputs are not touched.
pub proof fn output_is_told_the_plan(
    plan: Seq<PlannedOutput>,
    scales: Seq<Seq<char>>,
    i: int,
    n: int,
)
    requires
        0 <= i < n <= plan.len(),
        scales.len() == plan.len(),
        plan[i].enabled ==> plan[i].mode is Some,
    ensures
        ({
            let args = all_setters(plan, scales, n);
            let p = plan[i];
            let own = "output."@ + p.identity.connector@ + "."@;
            let m = p.mode->0;
            &&& !p.enabled ==> args.contains(own + "disable"@)
            &&& p.enabled ==> {
                &&& args.contains(own + "enable"@)
                &&& args.contains(
                    own + ("mode."@ + decimal(m.width as nat) + "x"@ + decimal(m.height as nat)
                        + "@"@ + decimal(((m.refresh_mhz + 500) / 1000) as nat)),
                )
                &&& args.contains(
                    own + ("position."@ + signed_decimal(p.position.0 as int) + ","@
                        + signed_decimal(p.position.1 as int)),
                )
                &&& args.contains(own + ("scale."@ + scales[i]))
                &&& args.contains(own + ("rotation."@ + rotation_word(p.transform)))
                &&& p.primary ==> args.contains(own + ("priority."@ + decimal(1)))
                &&& !p.primary ==> exists|k: nat|
                    2 <= k && #[trigger] args.contains(own + ("priority."@ + decimal(k)))
            }
        }),
    decreases n,
{
    let args = all_setters(plan, scales, n);
    let before = all_setters(plan, scales, n - 1);
    let p = plan[i];
    let own = "output."@ + p.identity.connector@ + "."@;
    if i < n - 1 {
        output_is_told_the_plan(plan, scales, i, n - 1);
        assert forall|a: Seq<char>| #[trigger] before.contains(a) implies args.contains(a) by {
            let k = choose|k: int| 0 <= k < before.len() && before[k] == a;
            assert(args[k] == a);
        }
        if p.enabled && !p.primary {
            let k = choose|k: nat|
                2 <= k && #[trigger] before.contains(own + ("priority."@ + decimal(k)));
            assert(args.contains(own + ("priority."@ + decimal(k))));
        }
    } else {
        let k = next_priority(plan, i);
        let last = setters(p, scales[i], k);
        priority_is_two_at_least(plan, i);
        assert(args == before + last);
        assert forall|j: int| 0 <= j < last.len() implies args.contains(#[trigger] last[j]) by {
            assert(args[before.len() + j] == last[j]);
        }
        if p.enabled {
            let m = p.mode->0;
            assert(args.contains(last[0]));
            assert(args.contains(last[1]));
            assert(args.contains(last[2]));
            assert(args.contains(last[3]));
            assert(args.contains(last[4]));
            assert(args.contains(last[5]));
            if !p.primary {
                assert(args.contains(own + ("priority."@ + decimal(k))));
            }
        } else {
            assert(args.contains(last[0]));
        }
    }
}

proof fn priority_is_two_at_least(plan: Seq<PlannedOutput>, n: int)
    ensures
        next_priority(plan, n) >= 2,
    decreases n,
{
    if n > 0 {
        priority_is_two_at_least(plan, n - 1);
    }
}

/// The outputs that are not primary have different priorities, in the order of the
/// plan.
pub proof fn priorities_are_different(plan: Seq<PlannedOutput>, i: int, j: int)
    requires
        0 <= i < j < plan.len(),
        plan[i].enabled && !plan[i].primary,
    ensures
        next_priority(plan, i) < next_priority(plan, j),
    decreases j,
{
    if i < j - 1 {
        priorities_are_different(plan, i, j - 1);
    }
}

/// A plan is refused for an output that is not there, for one that is to be on
/// without a mode, and for one that is to be on in a mode that it does not
/// advertise, and for nothing else.
pub proof fn only_impossible_outputs_are_flawed(p: PlannedOutput, outputs: Seq<Output>, i: int)
    requires
        0 <= i < outputs.len(),
        outputs[i].identity.connector@ == p.identity.connector@,
        forall|j: int|
            0 <= j < i ==> (#[trigger] outputs[j]).identity.connector@ != p.identity.connector@,
    ensures
        flaw_of(p, outputs) is None <==> !p.enabled || (p.mode is Some && outputs[i].modes@.contains(
            p.mode->0,
        )),
        p.enabled && p.mode is None ==> flaw_of(p, outputs) == Some(Flaw::Modeless),
        p.enabled && p.mode is Some && !outputs[i].modes@.contains(p.mode->0) ==> flaw_of(
            p,
            outputs,
        ) == Some(Flaw::Unavailable(p.mode->0)),
{
    first_where_is(outputs, output_at(p.identity.connector@), i);
}

/// A plan is refused for an output that is not there.
pub proof fn unknown_output_is_flawed(p: PlannedOutput, outputs: Seq<Output>)
    requires
        forall|j: int|
            0 <= j < outputs.len() ==> (#[trigger] outputs[j]).identity.connector@
                != p.identity.connector@,
    ensures
        flaw_of(p, outputs) == Some(Flaw::Unknown),
{
    first_where_none(outputs, output_at(p.identity.connector@));
}

/// What KScreen tells of an output is kept. It is on only if it is said to be, and
/// primary exactly if its priority is 1; its place, its scale and its rotation are
/// those that are given; and its current mode is the one with the current id.
pub proof fn kscreen_output_is_read_as_told(o: Output, t: Tree)
    requires
        described(o, t),
    ensures
        text_of(member(t, "name"@)) matches Some(name) ==> o.identity.connector@ == name,
        o.enabled <==> bool_of(member(t, "enabled"@)) == Some(true),
        o.primary <==> unsigned_of(member(t, "priority"@)) == Some(1u64),
        signed_of(nested(t, "pos"@, "x"@)) matches Some(x) ==> (i32::MIN <= x <= i32::MAX
            ==> o.position.0 == x),
        signed_of(nested(t, "pos"@, "y"@)) matches Some(y) ==> (i32::MIN <= y <= i32::MAX
            ==> o.position.1 == y),
        double_of(member(t, "scale"@)) matches Some(bits) ==> o.scale.bits == bits,
        double_of(member(t, "scale"@)) is None ==> o.scale.bits == 0x3ff0_0000_0000_0000,
        unsigned_of(member(t, "rotation"@)) == Some(2u64) ==> o.transform == Transform::Rot90,
        unsigned_of(member(t, "rotation"@)) == Some(4u64) ==> o.transform == Transform::Rot180,
        unsigned_of(member(t, "rotation"@)) == Some(8u64) ==> o.transform == Transform::Rot270,
        unsigned_of(member(t, "rotation"@)) == Some(1u64) ==> o.transform == Transform::Normal,
        o.mode matches Some(m) ==> exists|k: int|
            0 <= k < mode_entries(t).len() && text_of(
                member(#[trigger] mode_entries(t)[k], "id"@),
            ) == text_of(member(t, "currentModeId"@)) && m == o.modes@[k],
        text_of(member(t, "vendor"@)) matches Some(vendor) ==> (vendor.len() > 0
            ==> o.identity.edid is Some && o.identity.edid->0.vendor@ == vendor),
        text_of(member(t, "model"@)) matches Some(model) ==> (model.len() > 0
            ==> o.identity.edid is Some && o.identity.edid->0.product@ == model),
        text_of(member(t, "serialNumber"@)) matches Some(serial) ==> (serial.len() > 0
            ==> o.identity.edid is Some && o.identity.edid->0.serial@ == serial),
{
    let entries = mode_entries(t);
    mode_with_id_is_listed(entries, text_of(member(t, "currentModeId"@)));
    if o.mode is Some {
        let k = choose|k: int|
            0 <= k < entries.len() && text_of(member(#[trigger] entries[k], "id"@)) == text_of(
                member(t, "currentModeId"@),
            ) && o.mode == listed_mode(entries[k]);
        assert(o.modes@[k] == listed_mode(entries[k])->0);
    }
}

proof fn mode_with_id_is_listed(entries: Seq<Tree>, id: Option<Seq<char>>)
    ensures
        mode_with_id(entries, id) is Some ==> exists|k: int|
            0 <= k < entries.len() && text_of(member(#[trigger] entries[k], "id"@)) == id
                && mode_with_id(entries, id) == listed_mode(entries[k]),
    decreases entries.len(),
{
    if entries.len() > 0 {
        let t = entries.drop_last();
        mode_with_id_is_listed(t, id);
        let n = entries.len() - 1;
        let own = text_of(member(entries[n], "id"@));
        if own is Some && own == id {
            assert(mode_with_id(entries, id) == listed_mode(entries[n]));
        } else if mode_with_id(t, id) is Some {
            let k = choose|k: int|
                0 <= k < t.len() && text_of(member(#[trigger] t[k], "id"@)) == id && mode_with_id(
                    t,
                    id,
                ) == listed_mode(t[k]);
            assert(entries[k] == t[k]);
        }
    }
}

/// An output without a word on it is taken to be connected; only one that is said
/// not to be is left out.
pub proof fn only_disconnected_outputs_are_left_out(t: Tree)
    ensures
        !connected()(t) <==> bool_of(member(t, "connected"@)) == Some(false),
{
}

/// Every output that is not told to be disconnected is shown, and nothing else is.
pub proof fn every_kscreen_output_is_shown(outputs: Seq<Output>, list: Seq<Tree>, i: int, k: int)
    requires
        all_described(outputs, list.filter(connected())),
        0 <= i < list.len(),
    ensures
        bool_of(member(list[i], "connected"@)) != Some(false) ==> exists|j: int|
            0 <= j < outputs.len() && described(#[trigger] outputs[j], list[i]),
        0 <= k < outputs.len() ==> exists|j: int|
            0 <= j < list.len() && bool_of(member(#[trigger] list[j], "connected"@)) != Some(false)
                && described(outputs[k], list[j]),
{
    let p = connected();
    let kept = list.filter(p);
    if bool_of(member(list[i], "connected"@)) != Some(false) {
        assert(p(list[i]));
        filter_has(list, p, i);
        let j = choose|j: int| 0 <= j < kept.len() && kept[j] == list[i];
        assert(described(outputs[j], kept[j]));
    }
    if 0 <= k < outputs.len() {
        filter_meets(list, p, k);
        filter_held(list, p, k);
        assert(described(outputs[k], kept[k]));
        let j = choose|j: int| 0 <= j < list.len() && list[j] == kept[k];
        assert(bool_of(member(list[j], "connected"@)) != Some(false));
    }
}

/// The preferred mode of an output is the first one in its list whose id is among the
/// preferred ones.
pub proof fn first_preferred_mode_is_taken(o: Output, t: Tree, ids: Seq<Tree>, k: int, n: int)
    requires
        described(o, t),
        member(t, "preferredModes"@) == Some(Tree::List(ids)),
        0 <= k < mode_entries(t).len(),
        0 <= n < ids.len(),
        ids[n] is Text,
        member(mode_entries(t)[k], "id"@) == Some(ids[n]),
        forall|j: int, m: int|
            0 <= j < k && 0 <= m < ids.len() && text_of(
                member(#[trigger] mode_entries(t)[j], "id"@),
            ) is Some ==> text_of(member(mode_entries(t)[j], "id"@)) != text_of(
                Some(#[trigger] ids[m]),
            ),
    ensures
        o.preferred_mode == Some(o.modes@[k]),
{
    let entries = mode_entries(t);
    let all = or_else(list_of(member(t, "modes"@)), Seq::empty());
    let p = preferred_entry(ids);
    assert(text_of(Some(ids[n])) == text_of(member(entries[k], "id"@)));
    assert(p(entries[k]));
    assert forall|j: int| 0 <= j < k implies !p(entries[j]) by {
        let own = text_of(member(entries[j], "id"@));
        if own is Some && lists_text(ids, own->0) {
            let m = choose|m: int|
                0 <= m < ids.len() && text_of(Some(#[trigger] ids[m])) == Some(own->0);
            assert(text_of(member(entries[j], "id"@)) != text_of(Some(ids[m])));
        }
    }
    first_where_is(entries, p, k);
    filter_meets(all, describes_mode(), k);
}

/// A mode in the list of an output has the size and the refresh that are told, and 60 hertz
/// where none is.
pub proof fn listed_mode_is_as_told(t: Tree, w: u64, h: u64)
    requires
        unsigned_of(nested(t, "size"@, "width"@)) == Some(w),
        unsigned_of(nested(t, "size"@, "height"@)) == Some(h),
        w <= u32::MAX,
        h <= u32::MAX,
    ensures
        listed_mode(t) matches Some(m) && m.width == w && m.height == h && (double_of(
            member(t, "refreshRate"@),
        ) matches Some(bits) ==> m.refresh_mhz == in_thousandths(bits)) && (double_of(
            member(t, "refreshRate"@),
        ) is None ==> m.refresh_mhz == in_thousandths(0x404e_0000_0000_0000)),
{
}

/// An output is called by its vendor and model, or else by its connector, and is built in
/// if it is told to be a panel.
pub proof fn kscreen_output_is_called_by_its_model(o: Output, t: Tree)
    requires
        described(o, t),
    ensures
        text_of(member(t, "model"@)) is None ==> o.display_name@ == o.identity.connector@,
        text_of(member(t, "model"@)) matches Some(model) ==> (model.len() > 0 ==> (text_of(
            member(t, "vendor"@),
        ) matches Some(vendor) ==> o.display_name@ == trimmed(vendor + " "@ + model))),
        text_of(member(t, "type"@)) matches Some(kind) ==> (ascii_lower(kind) == ascii_lower(
            "panel"@,
        ) ==> o.builtin),
        builtin_connector(o.identity.connector@) ==> o.builtin,
        o.alias is None,
{
}

} // verus!
