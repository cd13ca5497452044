//! Output identity and the EDID-first matching rules.
//!
//! Displays are identified by two things captured together: the EDID triple
//! (vendor, product, serial; survives replugging into a different port) and
//! the connector name (fallback when EDID is absent or garbage). Resolution is
//! always EDID first, connector second, and a hard error on ambiguity, never
//! a guess.

use crate::error::ResolveError;
use crate::seqs::{filter_has, filter_none, filter_of_prefix, filter_push, filter_single};
use crate::text::{contains, occurs_at, occurs_in, texts, trim_text, trimmed};
use crate::topology::Output;
use vstd::prelude::*;

verus! {

/// EDID identity triple as reported by the display.
#[derive(Debug, PartialEq, Eq, Hash)]
pub struct EdidId {
    /// PNP vendor id, e.g. `SAM`, `DEL`, `GSM`.
    pub vendor: String,
    /// Product code, backend-formatted (typically hex, e.g. `0x7201`).
    pub product: String,
    /// Serial string. Frequently `0` or duplicated on identical monitors,
    /// which is exactly why ambiguity is a hard error.
    pub serial: String,
}

impl Clone for EdidId {
    fn clone(&self) -> (r: Self)
        ensures
            r == *self,
    {
        EdidId {
            vendor: self.vendor.clone(),
            product: self.product.clone(),
            serial: self.serial.clone(),
        }
    }
}

/// `vendor product serial`.
pub open spec fn edid_text(e: EdidId) -> Seq<char> {
    e.vendor@ + seq![' '] + e.product@ + seq![' '] + e.serial@
}

/// Whether two EDID triples are equal.
pub open spec fn same_edid(a: EdidId, b: EdidId) -> bool {
    a.vendor@ == b.vendor@ && a.product@ == b.product@ && a.serial@ == b.serial@
}

impl EdidId {
    /// `vendor product serial`.
    pub fn to_text(&self) -> (r: String)
        ensures
            r@ == edid_text(*self),
    {
        let mut s = self.vendor.clone();
        s.push(' ');
        s.append(self.product.as_str());
        s.push(' ');
        s.append(self.serial.as_str());
        assert(s@ =~= edid_text(*self));
        s
    }

    /// Whether both triples are equal.
    pub fn same(&self, other: &EdidId) -> (r: bool)
        ensures
            r == same_edid(*self, *other),
    {
        self.vendor == other.vendor && self.product == other.product && self.serial == other.serial
    }
}

/// A copy of an optional EDID triple.
pub fn copy_edid(e: &Option<EdidId>) -> (r: Option<EdidId>)
    ensures
        r == *e,
{
    match e {
        Some(id) => Some(id.clone()),
        None => None,
    }
}

/// Full identity of an output: EDID when available, connector always.
#[derive(Debug, PartialEq, Eq, Hash)]
pub struct OutputIdentity {
    pub edid: Option<EdidId>,
    /// Connector name, e.g. `HDMI-A-1`, `DP-3`, `eDP-1`, `\\.\DISPLAY1`.
    pub connector: String,
}

impl Clone for OutputIdentity {
    fn clone(&self) -> (r: Self)
        ensures
            r == *self,
    {
        OutputIdentity { edid: copy_edid(&self.edid), connector: self.connector.clone() }
    }
}

impl Default for OutputIdentity {
    fn default() -> (r: Self)
        ensures
            r.edid is None,
            r.connector@.len() == 0,
    {
        OutputIdentity { edid: None, connector: String::new() }
    }
}

/// How strongly two identities matched.
#[derive(Debug, Clone, Copy, PartialEq, Eq, PartialOrd, Ord, Structural)]
pub enum MatchQuality {
    NoMatch,
    /// Connector names are equal (EDID unavailable on one side or mismatched).
    Connector,
    /// EDID triples are equal: the authoritative match.
    Edid,
}

/// EDID-first comparison of two identities.
pub open spec fn quality(a: OutputIdentity, b: OutputIdentity) -> MatchQuality {
    if a.edid is Some && b.edid is Some && same_edid(a.edid->0, b.edid->0) {
        MatchQuality::Edid
    } else if a.connector@ == b.connector@ {
        MatchQuality::Connector
    } else {
        MatchQuality::NoMatch
    }
}

/// Whether two identities name the same display at the same connector.
pub open spec fn same_identity(a: OutputIdentity, b: OutputIdentity) -> bool {
    &&& a.connector@ == b.connector@
    &&& match (a.edid, b.edid) {
        (Some(x), Some(y)) => same_edid(x, y),
        (None, None) => true,
        _ => false,
    }
}

/// Whether two identities match at all.
pub open spec fn matching(a: OutputIdentity, b: OutputIdentity) -> bool {
    quality(a, b) != MatchQuality::NoMatch
}

/// `connector (vendor product serial)`, or the bare connector without EDID.
pub open spec fn identity_text(id: OutputIdentity) -> Seq<char> {
    match id.edid {
        Some(e) => id.connector@ + " ("@ + edid_text(e) + ")"@,
        None => id.connector@,
    }
}

impl OutputIdentity {
    pub fn new(connector: &str, edid: Option<EdidId>) -> (r: Self)
        ensures
            r.connector@ == connector@,
            r.edid == edid,
    {
        OutputIdentity { edid, connector: connector.to_owned() }
    }

    /// EDID-first comparison against another identity (e.g. a profile entry).
    pub fn match_quality(&self, other: &OutputIdentity) -> (r: MatchQuality)
        ensures
            r == quality(*self, *other),
    {
        if let (Some(a), Some(b)) = (&self.edid, &other.edid) {
            if a.same(b) {
                return MatchQuality::Edid;
            }
        }
        if self.connector == other.connector {
            return MatchQuality::Connector;
        }
        MatchQuality::NoMatch
    }

    /// `connector (vendor product serial)`, or the bare connector without EDID.
    pub fn to_text(&self) -> (r: String)
        ensures
            r@ == identity_text(*self),
    {
        match &self.edid {
            Some(e) => {
                let mut s = self.connector.clone();
                s.append(" (");
                s.append(e.to_text().as_str());
                s.append(")");
                s
            },
            None => self.connector.clone(),
        }
    }
}

/// The elements of `outputs` whose flag is set, in order.
pub open spec fn flagged(outputs: Seq<Output>, flags: Seq<bool>) -> Seq<Output>
    decreases outputs.len(),
{
    if outputs.len() == 0 {
        Seq::empty()
    } else {
        let rest = flagged(outputs.drop_last(), flags.drop_last());
        if flags.last() {
            rest.push(outputs.last())
        } else {
            rest
        }
    }
}

/// Flags computed by a condition select what the condition filters.
pub proof fn flagged_is_filter(outputs: Seq<Output>, p: spec_fn(Output) -> bool)
    ensures
        flagged(outputs, outputs.map_values(p)) == outputs.filter(p),
    decreases outputs.len(),
{
    reveal(Seq::filter);
    if outputs.len() > 0 {
        flagged_is_filter(outputs.drop_last(), p);
        assert(outputs.map_values(p).drop_last() =~= outputs.drop_last().map_values(p));
    }
}

/// The connectors of some outputs.
pub open spec fn connectors(outputs: Seq<Output>) -> Seq<Seq<char>> {
    outputs.map_values(|o: Output| o.identity.connector@)
}

/// What one tier of a search yields: nothing without hits, the hit when there
/// is exactly one, and otherwise an error that lists every hit's connector.
pub open spec fn tier_result(
    r: Result<Option<&Output>, ResolveError>,
    hits: Seq<Output>,
    target: Seq<char>,
) -> bool {
    match r {
        Ok(None) => hits.len() == 0,
        Ok(Some(o)) => hits.len() == 1 && *o == hits[0],
        Err(ResolveError::Ambiguous { target: t, candidates }) => {
            hits.len() > 1 && t@ == target && texts(candidates@) == connectors(hits)
        },
        Err(ResolveError::NotFound(_)) => false,
    }
}

fn single<'a>(flags: &Vec<bool>, outputs: &'a [Output], target: &str) -> (r: Result<
    Option<&'a Output>,
    ResolveError,
>)
    requires
        flags.len() == outputs.len(),
    ensures
        tier_result(r, flagged(outputs@, flags@), target@),
{
    let mut hits: Vec<&'a Output> = Vec::new();
    let ghost deref = |o: &Output| *o;
    assert(hits@.map_values(deref) =~= flagged(outputs@.take(0), flags@.take(0)));
    for i in 0..flags.len()
        invariant
            flags.len() == outputs.len(),
            deref == |o: &Output| *o,
            hits@.map_values(deref) == flagged(outputs@.take(i as int), flags@.take(i as int)),
    {
        let ghost before = hits@;
        proof {
            assert(outputs@.take(i + 1).drop_last() =~= outputs@.take(i as int));
            assert(flags@.take(i + 1).drop_last() =~= flags@.take(i as int));
        }
        if flags[i] {
            hits.push(&outputs[i]);
            assert(hits@.map_values(deref) =~= before.map_values(deref).push(outputs@[i as int]));
        }
    }
    proof {
        assert(outputs@.take(outputs@.len() as int) =~= outputs@);
        assert(flags@.take(flags@.len() as int) =~= flags@);
    }
    let ghost found = flagged(outputs@, flags@);
    assert(found.len() == hits@.len());
    assert forall|j: int| 0 <= j < hits@.len() implies found[j] == *hits@[j] by {
        assert(hits@.map_values(deref)[j] == *hits@[j]);
    }
    if hits.len() == 0 {
        Ok(None)
    } else if hits.len() == 1 {
        Ok(Some(hits[0]))
    } else {
        let mut candidates: Vec<String> = Vec::new();
        for i in 0..hits.len()
            invariant
                candidates.len() == i,
                found.len() == hits@.len(),
                forall|j: int| 0 <= j < hits@.len() ==> found[j] == *#[trigger] hits@[j],
                forall|j: int|
                    0 <= j < i ==> #[trigger] candidates@[j]@ == found[j].identity.connector@,
        {
            candidates.push(hits[i].identity.connector.clone());
        }
        assert(texts(candidates@) =~= connectors(found));
        Err(ResolveError::Ambiguous { target: target.to_owned(), candidates })
    }
}

/// The condition that an output matches a stored identity at a given quality.
pub open spec fn matches_at(wanted: OutputIdentity, q: MatchQuality) -> spec_fn(Output) -> bool {
    |o: Output| quality(o.identity, wanted) == q
}

/// The live outputs that a stored identity stands for: the EDID matches, or
/// the connector matches when there is no EDID match.
pub open spec fn identity_hits(wanted: OutputIdentity, outputs: Seq<Output>) -> Seq<Output> {
    let by_edid = outputs.filter(matches_at(wanted, MatchQuality::Edid));
    if by_edid.len() > 0 {
        by_edid
    } else {
        outputs.filter(matches_at(wanted, MatchQuality::Connector))
    }
}

/// The EDID comes first: a display whose EDID matches is found at whatever
/// connector it is, and whatever else is at the connector it was at.
pub proof fn edid_match_wins(wanted: OutputIdentity, outputs: Seq<Output>, k: int)
    requires
        0 <= k < outputs.len(),
        forall|i: int|
            0 <= i < outputs.len() ==> (quality((#[trigger] outputs[i]).identity, wanted)
                == MatchQuality::Edid <==> i == k),
    ensures
        identity_hits(wanted, outputs) == seq![outputs[k]],
{
    let p = matches_at(wanted, MatchQuality::Edid);
    assert forall|i: int| 0 <= i < outputs.len() && i != k implies !p(#[trigger] outputs[i]) by {}
    filter_single(outputs, p, k);
}

/// A display is never guessed: where two match equally well by their EDID, both
/// are candidates.
pub proof fn twins_are_both_candidates(
    wanted: OutputIdentity,
    outputs: Seq<Output>,
    i: int,
    j: int,
)
    requires
        0 <= i < j < outputs.len(),
        quality(outputs[i].identity, wanted) == MatchQuality::Edid,
        quality(outputs[j].identity, wanted) == MatchQuality::Edid,
    ensures
        identity_hits(wanted, outputs).len() > 1,
        identity_hits(wanted, outputs).contains(outputs[i]),
        identity_hits(wanted, outputs).contains(outputs[j]),
{
    let p = matches_at(wanted, MatchQuality::Edid);
    filter_has(outputs, p, i);
    filter_has(outputs, p, j);
    filter_has(outputs.take(j), p, i);
    filter_push(outputs.take(j), p, outputs[j]);
    assert(outputs.take(j).push(outputs[j]) =~= outputs.take(j + 1));
    filter_of_prefix(outputs, p, j + 1);
}

fn tier_flags(wanted: &OutputIdentity, outputs: &[Output], q: MatchQuality) -> (r: Vec<bool>)
    ensures
        r@ == outputs@.map_values(matches_at(*wanted, q)),
{
    let mut flags: Vec<bool> = Vec::new();
    for i in 0..outputs.len()
        invariant
            flags.len() == i,
            forall|j: int| 0 <= j < i ==> flags@[j] == matches_at(*wanted, q)(outputs@[j]),
    {
        flags.push(outputs[i].identity.match_quality(wanted) == q);
    }
    assert(flags@ =~= outputs@.map_values(matches_at(*wanted, q)));
    flags
}

/// Resolve a stored identity (profile entry) against the live outputs.
///
/// Returns `Ok(None)` when nothing matches; for profile resolution that
/// simply means the display is not connected right now, which is not an error.
/// Returns [`ResolveError::Ambiguous`] when more than one live output matches
/// at the same (best) quality, e.g. two identical monitors reporting serial 0.
pub fn resolve_identity<'a>(wanted: &OutputIdentity, outputs: &'a [Output]) -> (r: Result<
    Option<&'a Output>,
    ResolveError,
>)
    ensures
        tier_result(r, identity_hits(*wanted, outputs@), identity_text(*wanted)),
{
    let name = wanted.to_text();
    proof {
        flagged_is_filter(outputs@, matches_at(*wanted, MatchQuality::Edid));
        flagged_is_filter(outputs@, matches_at(*wanted, MatchQuality::Connector));
    }
    match single(&tier_flags(wanted, outputs, MatchQuality::Edid), outputs, name.as_str()) {
        Ok(None) => single(
            &tier_flags(wanted, outputs, MatchQuality::Connector),
            outputs,
            name.as_str(),
        ),
        found => found,
    }
}

/// Unicode lower case of a text, as `str::to_lowercase` computes it.
pub uninterp spec fn lowercase(s: Seq<char>) -> Seq<char>;

/// `str::to_lowercase`: the result is a function of the text alone, named
/// [`lowercase`]; nothing else is claimed of the Unicode mapping.
#[verifier::external_body]
fn to_lowercase(s: &str) -> (r: String)
    ensures
        r@ == lowercase(s@),
{
    s.to_lowercase()
}

/// The names of one output in lower case, as a target is compared with them.
#[derive(Debug)]
pub struct FoldedNames {
    pub alias: Option<String>,
    pub connector: String,
    /// `vendor product serial`.
    pub edid: Option<String>,
}

/// Whether the folded alias is the needle.
pub open spec fn folded_alias_is(needle: Seq<char>) -> spec_fn(FoldedNames) -> bool {
    |n: FoldedNames| n.alias is Some && n.alias->0@ == needle
}

/// Whether the folded connector is the needle.
pub open spec fn folded_connector_is(needle: Seq<char>) -> spec_fn(FoldedNames) -> bool {
    |n: FoldedNames| n.connector@ == needle
}

/// Whether the needle occurs in the folded EDID triple.
pub open spec fn folded_edid_holds(needle: Seq<char>) -> spec_fn(FoldedNames) -> bool {
    |n: FoldedNames| n.edid is Some && occurs_in(n.edid->0@, needle)
}

/// The hits of the first tier that has any.
pub open spec fn first_tier(
    aliases: Seq<Output>,
    connectors: Seq<Output>,
    edids: Seq<Output>,
) -> Seq<Output> {
    if aliases.len() > 0 {
        aliases
    } else if connectors.len() > 0 {
        connectors
    } else {
        edids
    }
}

/// What a target search yields: the only hit, an error that lists every hit's
/// connector when there are several, and [`ResolveError::NotFound`] when there
/// is none.
pub open spec fn target_result(
    r: Result<&Output, ResolveError>,
    hits: Seq<Output>,
    target: Seq<char>,
) -> bool {
    match r {
        Ok(o) => hits.len() == 1 && *o == hits[0],
        Err(ResolveError::Ambiguous { target: t, candidates }) => {
            hits.len() > 1 && t@ == target && texts(candidates@) == connectors(hits)
        },
        Err(ResolveError::NotFound(t)) => hits.len() == 0 && t@ == target,
    }
}

/// Search the live outputs for `needle`, given the folded names of each.
///
/// Priority: exact alias, then exact connector, then substring of
/// `vendor product serial`. Several hits at the winning tier are a hard
/// [`ResolveError::Ambiguous`] about `target`.
pub fn resolve_folded<'a>(
    target: &str,
    needle: &str,
    names: &Vec<FoldedNames>,
    outputs: &'a [Output],
) -> (r: Result<&'a Output, ResolveError>)
    requires
        names.len() == outputs.len(),
    ensures
        target_result(
            r,
            first_tier(
                flagged(outputs@, names@.map_values(folded_alias_is(needle@))),
                flagged(outputs@, names@.map_values(folded_connector_is(needle@))),
                flagged(outputs@, names@.map_values(folded_edid_holds(needle@))),
            ),
            target@,
        ),
{
    let wanted = needle.to_owned();
    let mut by_alias: Vec<bool> = Vec::new();
    let mut by_connector: Vec<bool> = Vec::new();
    let mut by_edid: Vec<bool> = Vec::new();
    for i in 0..names.len()
        invariant
            wanted@ == needle@,
            by_alias.len() == i,
            by_connector.len() == i,
            by_edid.len() == i,
            forall|j: int| 0 <= j < i ==> by_alias@[j] == folded_alias_is(needle@)(names@[j]),
            forall|j: int|
                0 <= j < i ==> by_connector@[j] == folded_connector_is(needle@)(names@[j]),
            forall|j: int| 0 <= j < i ==> by_edid@[j] == folded_edid_holds(needle@)(names@[j]),
    {
        let n = &names[i];
        by_alias.push(
            match &n.alias {
                Some(a) => *a == wanted,
                None => false,
            },
        );
        by_connector.push(n.connector == wanted);
        by_edid.push(
            match &n.edid {
                Some(e) => contains(e.as_str(), needle),
                None => false,
            },
        );
    }
    assert(by_alias@ =~= names@.map_values(folded_alias_is(needle@)));
    assert(by_connector@ =~= names@.map_values(folded_connector_is(needle@)));
    assert(by_edid@ =~= names@.map_values(folded_edid_holds(needle@)));
    match single(&by_alias, outputs, target) {
        Ok(Some(o)) => return Ok(o),
        Err(e) => return Err(e),
        Ok(None) => {},
    }
    match single(&by_connector, outputs, target) {
        Ok(Some(o)) => return Ok(o),
        Err(e) => return Err(e),
        Ok(None) => {},
    }
    match single(&by_edid, outputs, target) {
        Ok(Some(o)) => Ok(o),
        Err(e) => Err(e),
        Ok(None) => Err(ResolveError::NotFound(target.to_owned())),
    }
}

/// Whether an output's alias is the needle up to case.
pub open spec fn alias_is(needle: Seq<char>) -> spec_fn(Output) -> bool {
    |o: Output| o.alias is Some && lowercase(o.alias->0@) == needle
}

/// Whether an output's connector is the needle up to case.
pub open spec fn connector_is(needle: Seq<char>) -> spec_fn(Output) -> bool {
    |o: Output| lowercase(o.identity.connector@) == needle
}

/// Whether the needle occurs in an output's EDID triple up to case.
pub open spec fn edid_holds(needle: Seq<char>) -> spec_fn(Output) -> bool {
    |o: Output|
        o.identity.edid is Some && occurs_in(lowercase(edid_text(o.identity.edid->0)), needle)
}

/// The live outputs that a user-supplied target stands for.
pub open spec fn target_hits(target: Seq<char>, outputs: Seq<Output>) -> Seq<Output> {
    let needle = lowercase(trimmed(target));
    first_tier(
        outputs.filter(alias_is(needle)),
        outputs.filter(connector_is(needle)),
        outputs.filter(edid_holds(needle)),
    )
}

/// Resolve a user-supplied target string (alias, connector, or EDID
/// substring) against the live outputs.
///
/// Priority: exact alias (case-insensitive), then exact connector
/// (case-insensitive), then case-insensitive substring of `vendor product
/// serial`. Multiple hits at the winning tier is a hard
/// [`ResolveError::Ambiguous`].
pub fn resolve_target<'a>(target: &str, outputs: &'a [Output]) -> (r: Result<
    &'a Output,
    ResolveError,
>)
    ensures
        target_result(r, target_hits(target@, outputs@), target@),
{
    let needle = to_lowercase(trim_text(target).as_str());
    let mut names: Vec<FoldedNames> = Vec::new();
    for i in 0..outputs.len()
        invariant
            names.len() == i,
            needle@ == lowercase(trimmed(target@)),
            forall|j: int|
                0 <= j < i ==> {
                    &&& folded_alias_is(needle@)(#[trigger] names@[j]) == alias_is(needle@)(
                        outputs@[j],
                    )
                    &&& folded_connector_is(needle@)(names@[j]) == connector_is(needle@)(
                        outputs@[j],
                    )
                    &&& folded_edid_holds(needle@)(names@[j]) == edid_holds(needle@)(outputs@[j])
                },
    {
        let o = &outputs[i];
        let alias = match &o.alias {
            Some(a) => Some(to_lowercase(a.as_str())),
            None => None,
        };
        let connector = to_lowercase(o.identity.connector.as_str());
        let edid = match &o.identity.edid {
            Some(e) => Some(to_lowercase(e.to_text().as_str())),
            None => None,
        };
        names.push(FoldedNames { alias, connector, edid });
    }
    proof {
        flagged_is_filter(outputs@, alias_is(needle@));
        flagged_is_filter(outputs@, connector_is(needle@));
        flagged_is_filter(outputs@, edid_holds(needle@));
        assert(names@.map_values(folded_alias_is(needle@)) =~= outputs@.map_values(
            alias_is(needle@),
        ));
        assert(names@.map_values(folded_connector_is(needle@)) =~= outputs@.map_values(
            connector_is(needle@),
        ));
        assert(names@.map_values(folded_edid_holds(needle@)) =~= outputs@.map_values(
            edid_holds(needle@),
        ));
    }
    resolve_folded(target, needle.as_str(), &names, outputs)
}

// --------------------------------------------------------------------- laws

/// Whether two identities have neither their EDID nor their connector in common.
pub open spec fn unrelated(a: OutputIdentity, b: OutputIdentity) -> bool {
    &&& a.connector@ != b.connector@
    &&& a.edid is None || b.edid is None || a.edid->0.vendor@ != b.edid->0.vendor@
        || a.edid->0.product@ != b.edid->0.product@ || a.edid->0.serial@ != b.edid->0.serial@
}

/// Whether two identities have an EDID, and the same vendor, product and serial.
pub open spec fn edids_agree(a: OutputIdentity, b: OutputIdentity) -> bool {
    &&& a.edid is Some
    &&& b.edid is Some
    &&& a.edid->0.vendor@ == b.edid->0.vendor@
    &&& a.edid->0.product@ == b.edid->0.product@
    &&& a.edid->0.serial@ == b.edid->0.serial@
}

/// Identities match by their EDIDs if these agree in all three parts, otherwise
/// by their connectors if these are the same, and not at all if they share
/// neither; which of the two is asked makes no difference.
pub proof fn quality_goes_by_edid_then_connector(a: OutputIdentity, b: OutputIdentity)
    ensures
        quality(a, b) == MatchQuality::Edid <==> edids_agree(a, b),
        !edids_agree(a, b) && a.connector@ == b.connector@ ==> quality(a, b)
            == MatchQuality::Connector,
        quality(a, b) == MatchQuality::NoMatch <==> unrelated(a, b),
        quality(a, b) == quality(b, a),
{
}

/// Whether a stored identity names exactly the output at a place: the only one
/// with its EDID, or the only one at its connector where none has its EDID.
pub open spec fn names_only(wanted: OutputIdentity, outputs: Seq<Output>, i: int) -> bool {
    &&& 0 <= i < outputs.len()
    &&& {
        ||| {
            &&& edids_agree(outputs[i].identity, wanted)
            &&& forall|j: int|
                0 <= j < outputs.len() && j != i ==> !edids_agree(
                    (#[trigger] outputs[j]).identity,
                    wanted,
                )
        }
        ||| {
            &&& forall|j: int|
                0 <= j < outputs.len() ==> !edids_agree((#[trigger] outputs[j]).identity, wanted)
            &&& outputs[i].identity.connector@ == wanted.connector@
            &&& forall|j: int|
                0 <= j < outputs.len() && j != i ==> (#[trigger] outputs[j]).identity.connector@
                    != wanted.connector@
        }
    }
}

/// A stored identity stands for the display with its EDID wherever that is plugged
/// in, and for what is at its connector only where no display has its EDID.
pub proof fn identity_stands_for_its_display(wanted: OutputIdentity, outputs: Seq<Output>, i: int)
    requires
        names_only(wanted, outputs, i),
    ensures
        identity_hits(wanted, outputs) == seq![outputs[i]],
{
    let by_edid = matches_at(wanted, MatchQuality::Edid);
    let by_connector = matches_at(wanted, MatchQuality::Connector);
    if edids_agree(outputs[i].identity, wanted) {
        filter_single(outputs, by_edid, i);
    } else {
        filter_none(outputs, by_edid);
        filter_single(outputs, by_connector, i);
    }
}

/// A stored identity that shares neither EDID nor connector with any display stands
/// for none.
pub proof fn absent_display_has_no_hits(wanted: OutputIdentity, outputs: Seq<Output>)
    requires
        forall|j: int|
            0 <= j < outputs.len() ==> unrelated((#[trigger] outputs[j]).identity, wanted),
    ensures
        identity_hits(wanted, outputs).len() == 0,
{
    filter_none(outputs, matches_at(wanted, MatchQuality::Edid));
    filter_none(outputs, matches_at(wanted, MatchQuality::Connector));
}

/// Whether a text holds another one somewhere.
pub open spec fn holds(text: Seq<char>, part: Seq<char>) -> bool {
    exists|k: int|
        0 <= k && k + part.len() <= text.len() && #[trigger] text.subrange(k, k + part.len())
            == part
}

/// Whether a target, trimmed and in lower case, is the alias of an output.
pub open spec fn says_alias(target: Seq<char>, o: Output) -> bool {
    o.alias is Some && lowercase(o.alias->0@) == lowercase(trimmed(target))
}

/// Whether a target, trimmed and in lower case, is the connector of an output.
pub open spec fn says_connector(target: Seq<char>, o: Output) -> bool {
    lowercase(o.identity.connector@) == lowercase(trimmed(target))
}

/// Whether a target, trimmed and in lower case, occurs in the vendor, product and
/// serial of an output, written one after the other.
pub open spec fn says_edid(target: Seq<char>, o: Output) -> bool {
    o.identity.edid is Some && holds(
        lowercase(
            o.identity.edid->0.vendor@ + seq![' '] + o.identity.edid->0.product@ + seq![' ']
                + o.identity.edid->0.serial@,
        ),
        lowercase(trimmed(target)),
    )
}

proof fn holding_is_occurring(text: Seq<char>, part: Seq<char>)
    ensures
        holds(text, part) == occurs_in(text, part),
{
    if holds(text, part) {
        let k = choose|k: int|
            0 <= k && k + part.len() <= text.len() && #[trigger] text.subrange(k, k + part.len())
                == part;
        assert(occurs_at(text, part, k));
    }
    if occurs_in(text, part) {
        let k = choose|k: int| occurs_at(text, part, k);
        assert(text.subrange(k, k + part.len()) == part);
    }
}

proof fn tiers(target: Seq<char>, outputs: Seq<Output>, o: Output)
    ensures
        alias_is(lowercase(trimmed(target)))(o) == says_alias(target, o),
        connector_is(lowercase(trimmed(target)))(o) == says_connector(target, o),
        edid_holds(lowercase(trimmed(target)))(o) == says_edid(target, o),
{
    if o.identity.edid is Some {
        let e = o.identity.edid->0;
        holding_is_occurring(
            lowercase(e.vendor@ + seq![' '] + e.product@ + seq![' '] + e.serial@),
            lowercase(trimmed(target)),
        );
    }
}

/// A target that is the alias of one output names that output, whatever else it
/// could be.
pub proof fn alias_names_an_output(
    r: Result<&Output, ResolveError>,
    target: Seq<char>,
    outputs: Seq<Output>,
    i: int,
)
    requires
        target_result(r, target_hits(target, outputs), target),
        0 <= i < outputs.len(),
        says_alias(target, outputs[i]),
        forall|j: int|
            0 <= j < outputs.len() && j != i ==> !says_alias(target, #[trigger] outputs[j]),
    ensures
        r is Ok && *r->Ok_0 == outputs[i],
{
    let p = alias_is(lowercase(trimmed(target)));
    assert forall|j: int| 0 <= j < outputs.len() implies p(outputs[j]) == says_alias(
        target,
        #[trigger] outputs[j],
    ) by {
        tiers(target, outputs, outputs[j]);
    }
    filter_single(outputs, p, i);
}

/// A target that is no alias, but the connector of one output, names that output.
pub proof fn connector_names_an_output(
    r: Result<&Output, ResolveError>,
    target: Seq<char>,
    outputs: Seq<Output>,
    i: int,
)
    requires
        target_result(r, target_hits(target, outputs), target),
        0 <= i < outputs.len(),
        forall|j: int| 0 <= j < outputs.len() ==> !says_alias(target, #[trigger] outputs[j]),
        says_connector(target, outputs[i]),
        forall|j: int|
            0 <= j < outputs.len() && j != i ==> !says_connector(target, #[trigger] outputs[j]),
    ensures
        r is Ok && *r->Ok_0 == outputs[i],
{
    let a = alias_is(lowercase(trimmed(target)));
    let p = connector_is(lowercase(trimmed(target)));
    assert forall|j: int| 0 <= j < outputs.len() implies !a(#[trigger] outputs[j]) && p(
        outputs[j],
    ) == says_connector(target, outputs[j]) by {
        tiers(target, outputs, outputs[j]);
    }
    filter_none(outputs, a);
    filter_single(outputs, p, i);
}

/// A target that is neither an alias nor a connector names the output in whose
/// vendor, product and serial it occurs, if that is one.
pub proof fn edid_part_names_an_output(
    r: Result<&Output, ResolveError>,
    target: Seq<char>,
    outputs: Seq<Output>,
    i: int,
)
    requires
        target_result(r, target_hits(target, outputs), target),
        0 <= i < outputs.len(),
        forall|j: int|
            0 <= j < outputs.len() ==> !says_alias(target, #[trigger] outputs[j])
                && !says_connector(target, outputs[j]),
        says_edid(target, outputs[i]),
        forall|j: int|
            0 <= j < outputs.len() && j != i ==> !says_edid(target, #[trigger] outputs[j]),
    ensures
        r is Ok && *r->Ok_0 == outputs[i],
{
    let a = alias_is(lowercase(trimmed(target)));
    let c = connector_is(lowercase(trimmed(target)));
    let p = edid_holds(lowercase(trimmed(target)));
    assert forall|j: int| 0 <= j < outputs.len() implies !a(#[trigger] outputs[j]) && !c(
        outputs[j],
    ) && p(outputs[j]) == says_edid(target, outputs[j]) by {
        tiers(target, outputs, outputs[j]);
    }
    filter_none(outputs, a);
    filter_none(outputs, c);
    filter_single(outputs, p, i);
}

/// The vendor, the product and the serial of a display each occur in the text that
/// targets are looked for in; so does a part of any of them, wherever lower case
/// is taken part by part.
pub proof fn every_edid_part_is_searched(target: Seq<char>, o: Output)
    requires
        o.identity.edid is Some,
        ({
            let e = o.identity.edid->0;
            &&& lowercase(e.vendor@ + seq![' '] + e.product@ + seq![' '] + e.serial@) == lowercase(
                e.vendor@,
            ) + seq![' '] + lowercase(e.product@) + seq![' '] + lowercase(e.serial@)
            &&& holds(lowercase(e.vendor@), lowercase(trimmed(target))) || holds(
                lowercase(e.product@),
                lowercase(trimmed(target)),
            ) || holds(lowercase(e.serial@), lowercase(trimmed(target)))
        }),
    ensures
        says_edid(target, o),
        edid_holds(lowercase(trimmed(target)))(o),
{
    let e = o.identity.edid->0;
    let needle = lowercase(trimmed(target));
    let v = lowercase(e.vendor@);
    let p = lowercase(e.product@);
    let s = lowercase(e.serial@);
    let all = v + seq![' '] + p + seq![' '] + s;
    let part = if holds(v, needle) {
        (v, 0int)
    } else if holds(p, needle) {
        (p, v.len() as int + 1)
    } else {
        (s, v.len() as int + 1 + p.len() + 1)
    };
    let k = choose|k: int|
        0 <= k && k + needle.len() <= part.0.len() && #[trigger] part.0.subrange(
            k,
            k + needle.len(),
        ) == needle;
    let at = part.1 + k;
    assert forall|j: int| 0 <= j < needle.len() implies all.subrange(at, at + needle.len())[j]
        == needle[j] by {
        assert(part.0.subrange(k, k + needle.len())[j] == part.0[k + j]);
    }
    assert(all.subrange(at, at + needle.len()) =~= needle);
    tiers(target, seq![o], o);
}

/// A target that names nothing is reported as it was given.
pub proof fn unmatched_target_is_not_found(
    r: Result<&Output, ResolveError>,
    target: Seq<char>,
    outputs: Seq<Output>,
)
    requires
        target_result(r, target_hits(target, outputs), target),
        forall|j: int|
            0 <= j < outputs.len() ==> !says_alias(target, #[trigger] outputs[j])
                && !says_connector(target, outputs[j]) && !says_edid(target, outputs[j]),
    ensures
        r matches Err(ResolveError::NotFound(t)) && t@ == target,
{
    let a = alias_is(lowercase(trimmed(target)));
    let c = connector_is(lowercase(trimmed(target)));
    let p = edid_holds(lowercase(trimmed(target)));
    assert forall|j: int| 0 <= j < outputs.len() implies !a(#[trigger] outputs[j]) && !c(
        outputs[j],
    ) && !p(outputs[j]) by {
        tiers(target, outputs, outputs[j]);
    }
    filter_none(outputs, a);
    filter_none(outputs, c);
    filter_none(outputs, p);
}

proof fn two_hits(outputs: Seq<Output>, p: spec_fn(Output) -> bool, i: int, j: int)
    requires
        0 <= i < j < outputs.len(),
        p(outputs[i]),
        p(outputs[j]),
    ensures
        outputs.filter(p).len() > 1,
        outputs.filter(p).contains(outputs[i]),
        outputs.filter(p).contains(outputs[j]),
{
    filter_has(outputs, p, i);
    filter_has(outputs, p, j);
    filter_has(outputs.take(j), p, i);
    filter_push(outputs.take(j), p, outputs[j]);
    assert(outputs.take(j).push(outputs[j]) =~= outputs.take(j + 1));
    filter_of_prefix(outputs, p, j + 1);
}

/// A target that fits two outputs equally well is never guessed: it is refused, and
/// the connectors of both are listed as candidates.
pub proof fn ambiguous_target_is_refused(
    r: Result<&Output, ResolveError>,
    target: Seq<char>,
    outputs: Seq<Output>,
    i: int,
    j: int,
)
    requires
        target_result(r, target_hits(target, outputs), target),
        0 <= i < j < outputs.len(),
        ({
            ||| says_alias(target, outputs[i]) && says_alias(target, outputs[j])
            ||| {
                &&& forall|k: int|
                    0 <= k < outputs.len() ==> !says_alias(target, #[trigger] outputs[k])
                &&& says_connector(target, outputs[i]) && says_connector(target, outputs[j])
            }
            ||| {
                &&& forall|k: int|
                    0 <= k < outputs.len() ==> !says_alias(target, #[trigger] outputs[k])
                        && !says_connector(target, outputs[k])
                &&& says_edid(target, outputs[i]) && says_edid(target, outputs[j])
            }
        }),
    ensures
        r matches Err(ResolveError::Ambiguous { target: t, candidates }) && t@ == target && (
        exists|k: int|
            0 <= k < candidates@.len() && #[trigger] candidates@[k]@
                == outputs[i].identity.connector@) && (exists|k: int|
            0 <= k < candidates@.len() && #[trigger] candidates@[k]@
                == outputs[j].identity.connector@),
{
    let a = alias_is(lowercase(trimmed(target)));
    let c = connector_is(lowercase(trimmed(target)));
    let e = edid_holds(lowercase(trimmed(target)));
    assert forall|k: int| 0 <= k < outputs.len() implies a(#[trigger] outputs[k]) == says_alias(
        target,
        outputs[k],
    ) && c(outputs[k]) == says_connector(target, outputs[k]) && e(outputs[k]) == says_edid(
        target,
        outputs[k],
    ) by {
        tiers(target, outputs, outputs[k]);
    }
    let p = if says_alias(target, outputs[i]) && says_alias(target, outputs[j]) {
        a
    } else {
        filter_none(outputs, a);
        if says_connector(target, outputs[i]) && says_connector(target, outputs[j]) {
            c
        } else {
            filter_none(outputs, c);
            e
        }
    };
    two_hits(outputs, p, i, j);
    let hits = target_hits(target, outputs);
    assert(hits == outputs.filter(p));
    if let Err(ResolveError::Ambiguous { target: t, candidates }) = r {
        assert forall|o: Output| hits.contains(o) implies exists|k: int|
            0 <= k < candidates@.len() && #[trigger] candidates@[k]@ == o.identity.connector@ by {
            let k = choose|k: int| 0 <= k < hits.len() && hits[k] == o;
            assert(texts(candidates@).len() == connectors(hits).len());
            assert(texts(candidates@)[k] == candidates@[k]@);
            assert(connectors(hits)[k] == hits[k].identity.connector@);
            assert(candidates@[k]@ == o.identity.connector@);
        }
    }
}

/// Two identities are the same exactly if they have the same connector, and either the same
/// EDID or both none.
pub proof fn identities_agree_in_both_parts(a: OutputIdentity, b: OutputIdentity)
    ensures
        same_identity(a, b) <==> a.connector@ == b.connector@ && (edids_agree(a, b) || (a.edid
            is None && b.edid is None)),
        same_identity(a, b) == same_identity(b, a),
{
}

} // verus!
