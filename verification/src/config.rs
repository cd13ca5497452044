//! Daemon configuration: output aliases and tunables. Owned by the daemon;
//! the GUI edits it through the daemon.

use crate::identity::{
    copy_edid, edids_agree, quality, quality_goes_by_edid_then_connector, same_identity, unrelated,
    EdidId, MatchQuality, OutputIdentity,
};
use crate::seqs::{
    filter_has, filter_meets, filter_push, find_where, first_where, first_where_is,
    first_where_none,
};
use crate::text::same_text;
use crate::topology::{Output, Topology};
use vstd::prelude::*;

verus! {

#[derive(Debug, Clone, PartialEq)]
pub struct DaemonConfig {
    /// Auto-revert timer length used when a timer is mandatory and the client
    /// didn't specify one.
    pub revert_secs: u64,
    pub aliases: Vec<AliasEntry>,
}

impl Default for DaemonConfig {
    fn default() -> (r: Self)
        ensures
            r.revert_secs == 0,
            r.aliases@.len() == 0,
    {
        DaemonConfig { revert_secs: 0, aliases: Vec::new() }
    }
}

/// Revert timer length of a configuration that does not set one.
pub const DEFAULT_REVERT_SECS: u64 = 20;

/// Revert timer length of a configuration that does not set one.
pub fn default_revert_secs() -> (r: u64)
    ensures
        r == 20,
{
    DEFAULT_REVERT_SECS
}

#[derive(Debug, Clone, PartialEq)]
pub struct AliasEntry {
    pub name: String,
    pub edid: Option<EdidId>,
    pub connector: String,
}

/// The identity that an alias stands for.
pub open spec fn alias_identity(a: AliasEntry) -> OutputIdentity {
    OutputIdentity { edid: a.edid, connector: a.connector }
}

impl AliasEntry {
    /// The identity that the alias stands for.
    pub fn identity(&self) -> (r: OutputIdentity)
        ensures
            r == alias_identity(*self),
    {
        OutputIdentity { edid: copy_edid(&self.edid), connector: self.connector.clone() }
    }
}

/// The condition that an alias matches an identity at one quality.
pub open spec fn alias_with(id: OutputIdentity, q: MatchQuality) -> spec_fn(AliasEntry) -> bool {
    |a: AliasEntry| quality(id, alias_identity(a)) == q
}

/// The alias of a display: the first EDID match, otherwise the first connector
/// match.
pub open spec fn alias_for(id: OutputIdentity, aliases: Seq<AliasEntry>) -> Option<AliasEntry> {
    match find_where(aliases, alias_with(id, MatchQuality::Edid)) {
        Some(a) => Some(a),
        None => find_where(aliases, alias_with(id, MatchQuality::Connector)),
    }
}

/// An output with its configured alias, if there is one.
pub open spec fn aliased_one(o: Output, aliases: Seq<AliasEntry>) -> Output {
    match alias_for(o.identity, aliases) {
        Some(a) => Output { alias: Some(a.name), ..o },
        None => o,
    }
}

/// Outputs with their configured aliases.
pub open spec fn aliased(outputs: Seq<Output>, aliases: Seq<AliasEntry>) -> Seq<Output> {
    outputs.map_values(|o: Output| aliased_one(o, aliases))
}

/// The condition that an alias has another name and is that of another display: of
/// one with another EDID, or at another connector where neither has one.
pub open spec fn other_alias(name: Seq<char>, id: OutputIdentity) -> spec_fn(AliasEntry) -> bool {
    |a: AliasEntry|
        a.name@ != name && quality(id, alias_identity(a)) != MatchQuality::Edid && !same_identity(
            id,
            alias_identity(a),
        )
}

impl DaemonConfig {
    /// The configuration used when none can be read.
    pub fn fallback() -> (r: Self)
        ensures
            r.revert_secs == 20,
            r.aliases@.len() == 0,
    {
        DaemonConfig { revert_secs: default_revert_secs(), aliases: Vec::new() }
    }

    fn alias_at(&self, id: &OutputIdentity, q: MatchQuality) -> (r: Option<usize>)
        ensures
            match (r, first_where(self.aliases@, alias_with(*id, q))) {
                (Some(i), Some(want)) => i == want && i < self.aliases@.len(),
                (None, None) => true,
                _ => false,
            },
    {
        for i in 0..self.aliases.len()
            invariant
                forall|j: int| 0 <= j < i ==> !alias_with(*id, q)(self.aliases@[j]),
        {
            if id.match_quality(&self.aliases[i].identity()) == q {
                proof {
                    first_where_is(self.aliases@, alias_with(*id, q), i as int);
                }
                return Some(i);
            }
        }
        proof {
            first_where_none(self.aliases@, alias_with(*id, q));
        }
        None
    }

    /// Attach configured aliases to a topology snapshot (EDID-first match).
    pub fn attach_aliases(&self, topology: &mut Topology)
        ensures
            final(topology).serial == old(topology).serial,
            final(topology).outputs@ == aliased(old(topology).outputs@, self.aliases@),
    {
        let n = topology.outputs.len();
        let ghost before = topology.outputs@;
        let mut k: usize = 0;
        while k < n
            invariant
                k <= n == before.len(),
                topology.serial == old(topology).serial,
                topology.outputs@.len() == n,
                forall|j: int|
                    0 <= j < k ==> topology.outputs@[j] == aliased_one(before[j], self.aliases@),
                forall|j: int| k <= j < n ==> topology.outputs@[j] == before[j],
            decreases n - k,
        {
            let found: Option<usize> = match self.alias_at(
                &topology.outputs[k].identity,
                MatchQuality::Edid,
            ) {
                Some(i) => Some(i),
                None => self.alias_at(&topology.outputs[k].identity, MatchQuality::Connector),
            };
            if let Some(i) = found {
                topology.outputs[k].alias = Some(self.aliases[i].name.clone());
            }
            k = k + 1;
        }
        assert(topology.outputs@ =~= aliased(before, self.aliases@));
    }

    /// Set or replace the alias of the given identity; an alias names one display
    /// at a time. The aliases of other displays stay, also where they share its
    /// connector.
    pub fn set_alias(&mut self, name: &str, identity: &OutputIdentity)
        ensures
            final(self).revert_secs == old(self).revert_secs,
            final(self).aliases@.len() > 0,
            final(self).aliases@.drop_last() == old(self).aliases@.filter(
                other_alias(name@, *identity),
            ),
            final(self).aliases@.last().name@ == name@,
            alias_identity(final(self).aliases@.last()) == *identity,
    {
        let ghost all = self.aliases@;
        let n = self.aliases.len();
        let mut k: usize = 0;
        let mut i: usize = 0;
        proof {
            assert(all.take(0) =~= Seq::<AliasEntry>::empty());
            reveal(Seq::filter);
            assert(self.aliases@ =~= all.take(0).filter(other_alias(name@, *identity))
                + all.skip(0));
        }
        while k < n
            invariant
                k <= n == all.len(),
                i <= k,
                self.revert_secs == old(self).revert_secs,
                i == all.take(k as int).filter(other_alias(name@, *identity)).len(),
                self.aliases@ == all.take(k as int).filter(other_alias(name@, *identity))
                    + all.skip(k as int),
            decreases n - k,
        {
            let ghost kept = all.take(k as int).filter(other_alias(name@, *identity));
            proof {
                filter_push(all.take(k as int), other_alias(name@, *identity), all[k as int]);
                assert(all.take(k as int).push(all[k as int]) =~= all.take(k + 1));
                assert(all.skip(k as int)[0] == all[k as int]);
                assert(self.aliases@[i as int] == all[k as int]);
            }
            let a = &self.aliases[i];
            let same: bool = match identity.match_quality(&a.identity()) {
                MatchQuality::Edid => true,
                MatchQuality::Connector => identity.edid.is_none() && a.edid.is_none(),
                MatchQuality::NoMatch => false,
            };
            if same || same_text(a.name.as_str(), name) {
                self.aliases.remove(i);
                assert(self.aliases@ =~= kept + all.skip(k + 1));
            } else {
                assert(self.aliases@ =~= kept.push(all[k as int]) + all.skip(k + 1));
                i = i + 1;
            }
            k = k + 1;
        }
        proof {
            assert(all.take(n as int) =~= all);
            assert(self.aliases@ =~= all.filter(other_alias(name@, *identity)));
        }
        let ghost kept = self.aliases@;
        self.aliases.push(
            AliasEntry {
                name: name.to_owned(),
                edid: copy_edid(&identity.edid),
                connector: identity.connector.clone(),
            },
        );
        assert(self.aliases@.drop_last() =~= kept);
    }
}

// --------------------------------------------------------------------- laws

/// An alias names one display at a time, and a display has one alias: after one is
/// set, no older entry carries its name or belongs to its display.
pub proof fn alias_is_unique(before: Seq<AliasEntry>, name: Seq<char>, id: OutputIdentity, i: int)
    requires
        0 <= i < before.filter(other_alias(name, id)).len(),
    ensures
        ({
            let kept = before.filter(other_alias(name, id))[i];
            &&& kept.name@ != name
            &&& quality(id, alias_identity(kept)) != MatchQuality::Edid
            &&& !same_identity(id, alias_identity(kept))
        }),
{
    filter_meets(before, other_alias(name, id), i);
}

/// The condition that an alias has another name.
pub open spec fn named_otherwise(name: Seq<char>) -> spec_fn(AliasEntry) -> bool {
    |a: AliasEntry| a.name@ != name
}

/// Setting an alias for a display that has none but this one replaces the entries
/// of its name and leaves all others in their order.
pub proof fn setting_an_alias_keeps_the_others(
    before: Seq<AliasEntry>,
    name: Seq<char>,
    id: OutputIdentity,
)
    requires
        forall|i: int|
            0 <= i < before.len() && (#[trigger] before[i]).name@ != name ==> quality(
                id,
                alias_identity(before[i]),
            ) != MatchQuality::Edid && !same_identity(id, alias_identity(before[i])),
    ensures
        before.filter(other_alias(name, id)) == before.filter(named_otherwise(name)),
    decreases before.len(),
{
    reveal(Seq::filter);
    if before.len() > 0 {
        let rest = before.drop_last();
        assert forall|i: int|
            0 <= i < rest.len() && (#[trigger] rest[i]).name@ != name implies quality(
            id,
            alias_identity(rest[i]),
        ) != MatchQuality::Edid && !same_identity(id, alias_identity(rest[i])) by {
            assert(rest[i] == before[i]);
        }
        setting_an_alias_keeps_the_others(rest, name, id);
        assert(other_alias(name, id)(before.last()) == named_otherwise(name)(before.last()));
    }
}

/// A set alias is attached to its display, whatever aliases there were before. A
/// display without an EDID is known by its connector alone: there no alias of
/// another display may be kept at that connector.
pub proof fn set_alias_is_attached(
    before: Seq<AliasEntry>,
    aliases: Seq<AliasEntry>,
    name: Seq<char>,
    o: Output,
)
    requires
        aliases.len() > 0,
        aliases.drop_last() == before.filter(other_alias(name, o.identity)),
        aliases.last().name@ == name,
        alias_identity(aliases.last()) == o.identity,
        o.identity.edid is None ==> forall|i: int|
            0 <= i < aliases.len() - 1 ==> (#[trigger] aliases[i]).connector@
                != o.identity.connector@,
    ensures
        aliased_one(o, aliases) == (Output { alias: Some(aliases.last().name), ..o }),
{
    let n = aliases.len() - 1;
    assert forall|j: int| 0 <= j < n implies !alias_with(o.identity, MatchQuality::Edid)(
        aliases[j],
    ) by {
        assert(aliases[j] == aliases.drop_last()[j]);
        alias_is_unique(before, name, o.identity, j);
    }
    if o.identity.edid is Some {
        first_where_is(aliases, alias_with(o.identity, MatchQuality::Edid), n);
    } else {
        first_where_none(aliases, alias_with(o.identity, MatchQuality::Edid));
        first_where_is(aliases, alias_with(o.identity, MatchQuality::Connector), n);
    }
}

/// A display has the alias that is set for its EDID; only where no alias is set for its
/// EDID does it have one that is set at its connector. Nothing else of it changes.
pub proof fn alias_goes_by_edid_then_connector(o: Output, aliases: Seq<AliasEntry>, k: int)
    requires
        0 <= k < aliases.len(),
    ensures
        ({
            let named = aliased_one(o, aliases);
            let there = OutputIdentity { edid: aliases[k].edid, connector: aliases[k].connector };
            &&& named == Output { alias: named.alias, ..o }
            &&& edids_agree(o.identity, there) && (forall|j: int|
                0 <= j < k ==> !edids_agree(
                    o.identity,
                    alias_identity(#[trigger] aliases[j]),
                )) ==> named.alias == Some(aliases[k].name)
            &&& aliases[k].connector@ == o.identity.connector@ && (forall|j: int|
                0 <= j < aliases.len() ==> !edids_agree(
                    o.identity,
                    alias_identity(#[trigger] aliases[j]),
                )) && (forall|j: int|
                0 <= j < k ==> (#[trigger] aliases[j]).connector@ != o.identity.connector@)
                ==> named.alias == Some(aliases[k].name)
            &&& (forall|j: int|
                0 <= j < aliases.len() ==> unrelated(
                    o.identity,
                    alias_identity(#[trigger] aliases[j]),
                )) ==> named == o
        }),
{
    let edid = alias_with(o.identity, MatchQuality::Edid);
    let there = alias_with(o.identity, MatchQuality::Connector);
    assert forall|j: int| 0 <= j < aliases.len() implies edid(#[trigger] aliases[j]) == edids_agree(
        o.identity,
        alias_identity(aliases[j]),
    ) && (there(aliases[j]) ==> aliases[j].connector@ == o.identity.connector@) && (edid(aliases[j])
        || there(aliases[j]) || unrelated(o.identity, alias_identity(aliases[j]))) && (unrelated(
        o.identity,
        alias_identity(aliases[j]),
    ) ==> !edid(aliases[j]) && !there(aliases[j])) by {
        quality_goes_by_edid_then_connector(o.identity, alias_identity(aliases[j]));
    }
    quality_goes_by_edid_then_connector(o.identity, alias_identity(aliases[k]));
    if edids_agree(o.identity, alias_identity(aliases[k])) && (forall|j: int|
        0 <= j < k ==> !edids_agree(o.identity, alias_identity(#[trigger] aliases[j]))) {
        first_where_is(aliases, edid, k);
    }
    if aliases[k].connector@ == o.identity.connector@ && (forall|j: int|
        0 <= j < aliases.len() ==> !edids_agree(
            o.identity,
            alias_identity(#[trigger] aliases[j]),
        )) && (forall|j: int|
        0 <= j < k ==> (#[trigger] aliases[j]).connector@ != o.identity.connector@) {
        first_where_none(aliases, edid);
        first_where_is(aliases, there, k);
    }
    if forall|j: int|
        0 <= j < aliases.len() ==> unrelated(o.identity, alias_identity(#[trigger] aliases[j])) {
        first_where_none(aliases, edid);
        first_where_none(aliases, there);
    }
}

/// Setting an alias takes no other name from a display that shares neither EDID nor
/// connector with the named one.
pub proof fn aliases_of_other_displays_stay(
    before: Seq<AliasEntry>,
    name: Seq<char>,
    id: OutputIdentity,
    k: int,
)
    requires
        0 <= k < before.len(),
        before[k].name@ != name,
        unrelated(id, OutputIdentity { edid: before[k].edid, connector: before[k].connector }),
    ensures
        before.filter(other_alias(name, id)).contains(before[k]),
{
    let p = other_alias(name, id);
    quality_goes_by_edid_then_connector(id, alias_identity(before[k]));
    assert(p(before[k]));
    filter_has(before, p, k);
}

} // verus!
