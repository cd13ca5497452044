//! Profile hotkeys: each profile with a hotkey is bound as the shortcut
//! `profile-<name>`; activation applies the profile.

use crate::ipc::ProfileInfo;
use crate::seqs::{filter_has, filter_held, filter_meets, filter_push};
use crate::text::{begins_with, join2, join3, strip_prefix};
use vstd::prelude::*;

verus! {

/// A shortcut to bind.
#[derive(Debug)]
pub struct Shortcut {
    pub id: String,
    pub description: String,
    pub trigger: String,
}

/// The condition that a profile has a hotkey.
pub open spec fn has_hotkey() -> spec_fn(ProfileInfo) -> bool {
    |p: ProfileInfo| p.hotkey is Some
}

/// The shortcut id of a profile.
pub open spec fn shortcut_id(name: Seq<char>) -> Seq<char> {
    "profile-"@ + name
}

/// Whether a shortcut is the one of a profile.
pub open spec fn binds(s: Shortcut, p: ProfileInfo) -> bool {
    &&& s.id@ == shortcut_id(p.name@)
    &&& s.description@ == "Apply NoSignal profile '"@ + p.name@ + "'"@
    &&& p.hotkey matches Some(h) && s.trigger@ == h@
}

/// Whether shortcuts are those of the profiles that have a hotkey.
pub open spec fn bound(list: Seq<Shortcut>, profiles: Seq<ProfileInfo>) -> bool {
    &&& list.len() == profiles.filter(has_hotkey()).len()
    &&& forall|i: int|
        0 <= i < list.len() ==> binds(#[trigger] list[i], profiles.filter(has_hotkey())[i])
}

/// The shortcuts of the profiles that have a hotkey.
pub fn shortcuts(profiles: &Vec<ProfileInfo>) -> (r: Vec<Shortcut>)
    ensures
        bound(r@, profiles@),
{
    let mut list: Vec<Shortcut> = Vec::new();
    let ghost p = has_hotkey();
    proof {
        assert(profiles@.take(0) =~= Seq::<ProfileInfo>::empty());
        reveal(Seq::filter);
    }
    for i in 0..profiles.len()
        invariant
            p == has_hotkey(),
            list@.len() == profiles@.take(i as int).filter(p).len(),
            forall|j: int|
                0 <= j < list@.len() ==> binds(
                    #[trigger] list@[j],
                    profiles@.take(i as int).filter(p)[j],
                ),
    {
        proof {
            filter_push(profiles@.take(i as int), p, profiles@[i as int]);
            assert(profiles@.take(i as int).push(profiles@[i as int]) =~= profiles@.take(i + 1));
        }
        let info = &profiles[i];
        if let Some(h) = &info.hotkey {
            let name = info.name.as_str();
            list.push(
                Shortcut {
                    id: join2("profile-", name),
                    description: join3("Apply NoSignal profile '", name, "'"),
                    trigger: h.clone(),
                },
            );
        }
    }
    assert(profiles@.take(profiles@.len() as int) =~= profiles@);
    list
}

/// Whether a profile, or none, is the one that an activated shortcut applies.
pub open spec fn activates(r: Option<String>, id: Seq<char>) -> bool {
    match r {
        Some(name) => id == shortcut_id(name@),
        None => !begins_with(id, "profile-"@),
    }
}

/// The profile that an activated shortcut applies.
pub fn activated_profile(id: &str) -> (r: Option<String>)
    ensures
        activates(r, id@),
{
    let r = strip_prefix(id, "profile-");
    proof {
        if r is Some {
            assert(id@ =~= shortcut_id(r->0@));
        }
    }
    r
}

/// The shortcut of a profile names that profile and no other.
pub proof fn shortcut_names_its_profile(a: Seq<char>, b: Seq<char>)
    requires
        shortcut_id(a) == shortcut_id(b),
    ensures
        a == b,
{
    let n = "profile-"@.len() as int;
    assert(shortcut_id(a).skip(n) =~= a);
    assert(shortcut_id(b).skip(n) =~= b);
}

/// Every profile with a hotkey can be applied by it: there is a shortcut with that hotkey,
/// which applies that profile. There is no shortcut for anything else.
pub proof fn hotkey_applies_its_profile(
    list: Seq<Shortcut>,
    profiles: Seq<ProfileInfo>,
    i: int,
    k: int,
    applied: Option<String>,
)
    requires
        bound(list, profiles),
        0 <= i < profiles.len(),
    ensures
        profiles[i].hotkey is Some ==> exists|j: int|
            0 <= j < list.len() && (#[trigger] list[j]).trigger@ == profiles[i].hotkey->0@
                && list[j].id@ == "profile-"@ + profiles[i].name@,
        0 <= k < list.len() ==> exists|j: int|
            0 <= j < profiles.len() && (#[trigger] profiles[j]).hotkey is Some
                && profiles[j].hotkey->0@ == list[k].trigger@ && (activates(applied, list[k].id@)
                ==> applied is Some && applied->0@ == profiles[j].name@),
{
    let p = has_hotkey();
    let kept = profiles.filter(p);
    if profiles[i].hotkey is Some {
        filter_has(profiles, p, i);
        let j = choose|j: int| 0 <= j < kept.len() && kept[j] == profiles[i];
        assert(binds(list[j], kept[j]));
    }
    if 0 <= k < list.len() {
        assert(binds(list[k], kept[k]));
        filter_held(profiles, p, k);
        filter_meets(profiles, p, k);
        let j = choose|j: int| 0 <= j < profiles.len() && profiles[j] == kept[k];
        assert(profiles[j].hotkey is Some);
        let name = profiles[j].name@;
        let n = "profile-"@.len() as int;
        assert(("profile-"@ + name).take(n) =~= "profile-"@);
        assert(begins_with(list[k].id@, "profile-"@));
        if activates(applied, list[k].id@) {
            shortcut_names_its_profile(applied->0@, name);
        }
    }
}

} // verus!
