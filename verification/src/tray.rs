//! Tray menu: per-output toggles, profile quick-switch, open, quit.

use crate::ipc::{ProfileInfo, ProfilesInfo, SetOpts};
use crate::text::{begins_with, join2, join3, same_text, strip_prefix};
use crate::topology::{Output, Topology};
use vstd::prelude::*;

verus! {

/// An entry of the tray menu.
#[derive(Debug)]
pub enum MenuEntry {
    Check { id: String, label: String, checked: bool },
    Item { id: String, label: String },
    Separator,
}

/// What an entry shows, with its texts as character sequences.
pub enum EntryView {
    Check { id: Seq<char>, label: Seq<char>, checked: bool },
    Item { id: Seq<char>, label: Seq<char> },
    Separator,
}

impl View for MenuEntry {
    type V = EntryView;

    open spec fn view(&self) -> EntryView {
        match *self {
            MenuEntry::Check { id, label, checked } => EntryView::Check {
                id: id@,
                label: label@,
                checked,
            },
            MenuEntry::Item { id, label } => EntryView::Item { id: id@, label: label@ },
            MenuEntry::Separator => EntryView::Separator,
        }
    }
}

/// What the entries of a menu show.
pub open spec fn shown(entries: Seq<MenuEntry>) -> Seq<EntryView> {
    entries.map_values(|e: MenuEntry| e@)
}

/// The toggle of an output, labelled with its alias if it has one.
pub open spec fn output_entry(o: Output) -> EntryView {
    let connector = o.identity.connector@;
    EntryView::Check {
        id: "output:"@ + connector,
        label: match o.alias {
            Some(alias) => alias@ + " ("@ + connector + ")"@,
            None => connector,
        },
        checked: o.enabled,
    }
}

/// The entry of a profile; the active one is marked.
pub open spec fn profile_entry(p: ProfileInfo) -> EntryView {
    EntryView::Item {
        id: "profile:"@ + p.name@,
        label: if p.active {
            "● "@ + p.name@
        } else {
            "  "@ + p.name@
        },
    }
}

/// The entries of the outputs and, if there is a list of them, a separator.
pub open spec fn output_entries(t: Option<Topology>) -> Seq<EntryView> {
    match t {
        Some(t) => t.outputs@.map_values(|o: Output| output_entry(o)).push(EntryView::Separator),
        None => Seq::empty(),
    }
}

/// The entries of the profiles and, if there are any, a separator.
pub open spec fn profile_entries(p: Option<ProfilesInfo>) -> Seq<EntryView> {
    match p {
        Some(p) => {
            let list = p.profiles@.map_values(|p: ProfileInfo| profile_entry(p));
            if list.len() > 0 {
                list.push(EntryView::Separator)
            } else {
                list
            }
        },
        None => Seq::empty(),
    }
}

/// What the menu shows, as far as the daemon told its outputs and profiles.
pub open spec fn menu_of(t: Option<Topology>, p: Option<ProfilesInfo>) -> Seq<EntryView> {
    output_entries(t) + profile_entries(p) + seq![
        EntryView::Item { id: "open"@, label: "Open NoSignal"@ },
        EntryView::Item { id: "quit"@, label: "Quit"@ },
    ]
}

fn add(entries: &mut Vec<MenuEntry>, e: MenuEntry)
    ensures
        shown(final(entries)@) == shown(old(entries)@).push(e@),
{
    entries.push(e);
    assert(shown(entries@) =~= shown(old(entries)@).push(e@));
}

fn add_outputs(entries: &mut Vec<MenuEntry>, t: &Topology)
    ensures
        shown(final(entries)@) == shown(old(entries)@) + output_entries(Some(*t)),
{
    let ghost start = shown(entries@);
    let ghost list = t.outputs@.map_values(|o: Output| output_entry(o));
    assert(start =~= start + list.take(0));
    for i in 0..t.outputs.len()
        invariant
            list == t.outputs@.map_values(|o: Output| output_entry(o)),
            shown(entries@) == start + list.take(i as int),
    {
        let o = &t.outputs[i];
        let connector = o.identity.connector.as_str();
        let label: String = match &o.alias {
            Some(alias) => {
                let mut s = join3(alias.as_str(), " (", connector);
                s.append(")");
                s
            },
            None => o.identity.connector.clone(),
        };
        let e = MenuEntry::Check { id: join2("output:", connector), label, checked: o.enabled };
        assert(e@ == list[i as int]);
        self::add(entries, e);
        assert(shown(entries@) =~= start + list.take(i + 1));
    }
    self::add(entries, MenuEntry::Separator);
    assert(shown(entries@) =~= start + output_entries(Some(*t)));
}

fn add_profiles(entries: &mut Vec<MenuEntry>, p: &ProfilesInfo)
    ensures
        shown(final(entries)@) == shown(old(entries)@) + profile_entries(Some(*p)),
{
    let ghost start = shown(entries@);
    let ghost list = p.profiles@.map_values(|p: ProfileInfo| profile_entry(p));
    assert(start =~= start + list.take(0));
    for i in 0..p.profiles.len()
        invariant
            list == p.profiles@.map_values(|p: ProfileInfo| profile_entry(p)),
            shown(entries@) == start + list.take(i as int),
    {
        let info = &p.profiles[i];
        let label: String = if info.active {
            join2("● ", info.name.as_str())
        } else {
            join2("  ", info.name.as_str())
        };
        let e = MenuEntry::Item { id: join2("profile:", info.name.as_str()), label };
        assert(e@ == list[i as int]);
        self::add(entries, e);
        assert(shown(entries@) =~= start + list.take(i + 1));
    }
    if p.profiles.len() > 0 {
        self::add(entries, MenuEntry::Separator);
    }
    assert(shown(entries@) =~= start + profile_entries(Some(*p)));
}

/// An optional reference as an optional value.
pub open spec fn value_of<T>(r: Option<&T>) -> Option<T> {
    match r {
        Some(v) => Some(*v),
        None => None,
    }
}

/// The menu, as far as the daemon told its outputs and profiles.
pub fn build_menu(topology: Option<&Topology>, profiles: Option<&ProfilesInfo>) -> (r: Vec<
    MenuEntry,
>)
    ensures
        shown(r@) == menu_of(value_of(topology), value_of(profiles)),
{
    let mut entries: Vec<MenuEntry> = Vec::new();
    assert(shown(entries@) =~= Seq::<EntryView>::empty());
    if let Some(t) = topology {
        add_outputs(&mut entries, t);
    }
    assert(shown(entries@) =~= output_entries(value_of(topology)));
    if let Some(p) = profiles {
        add_profiles(&mut entries, p);
    }
    assert(shown(entries@) =~= output_entries(value_of(topology)) + profile_entries(
        value_of(profiles),
    ));
    self::add(
        &mut entries,
        MenuEntry::Item { id: "open".to_owned(), label: "Open NoSignal".to_owned() },
    );
    self::add(&mut entries, MenuEntry::Item { id: "quit".to_owned(), label: "Quit".to_owned() });
    assert(shown(entries@) =~= menu_of(value_of(topology), value_of(profiles)));
    entries
}

/// What a click on a menu entry does.
#[derive(Debug)]
pub enum MenuAction {
    Open,
    Quit,
    /// Toggle the output at a connector.
    Toggle(String),
    /// Apply the profile with a name.
    Apply(String),
    Ignore,
}

/// Whether an action is what a click on the entry with an id does.
pub open spec fn action_of(a: MenuAction, id: Seq<char>) -> bool {
    if id == "open"@ {
        a is Open
    } else if id == "quit"@ {
        a is Quit
    } else if begins_with(id, "output:"@) {
        a matches MenuAction::Toggle(c) && id == "output:"@ + c@
    } else if begins_with(id, "profile:"@) {
        a matches MenuAction::Apply(n) && id == "profile:"@ + n@
    } else {
        a is Ignore
    }
}

/// What a click on the entry with an id does.
pub fn menu_action(id: &str) -> (r: MenuAction)
    ensures
        action_of(r, id@),
{
    if same_text(id, "open") {
        return MenuAction::Open;
    }
    if same_text(id, "quit") {
        return MenuAction::Quit;
    }
    if let Some(connector) = strip_prefix(id, "output:") {
        assert(id@ =~= "output:"@ + connector@);
        return MenuAction::Toggle(connector);
    }
    if let Some(name) = strip_prefix(id, "profile:") {
        assert(id@ =~= "profile:"@ + name@);
        return MenuAction::Apply(name);
    }
    MenuAction::Ignore
}

/// Tray toggles acknowledge risk; mandatory revert timers still arm in the
/// daemon, which is the safety net here.
pub fn tray_opts() -> (r: SetOpts)
    ensures
        r == (SetOpts { force: true, no_timer: false, revert_secs: None }),
{
    SetOpts { force: true, no_timer: false, revert_secs: None }
}

/// The state that a window command asks for; any other word toggles.
pub open spec fn window_state(mode: Seq<char>) -> Option<bool> {
    if mode == "on"@ {
        Some(true)
    } else if mode == "off"@ {
        Some(false)
    } else {
        None
    }
}

/// The state that a window command asks for; any other word toggles.
pub fn window_request(mode: &str) -> (r: Option<bool>)
    ensures
        r == window_state(mode@),
{
    if same_text(mode, "on") {
        Some(true)
    } else if same_text(mode, "off") {
        Some(false)
    } else {
        None
    }
}

/// A click on the toggle of an output toggles that output.
pub proof fn output_entry_toggles_its_output(o: Output, a: MenuAction)
    requires
        action_of(a, output_entry(o)->Check_id),
    ensures
        a matches MenuAction::Toggle(c) && c@ == o.identity.connector@,
{
    reveal_strlit("open");
    reveal_strlit("quit");
    reveal_strlit("output:");
    let id = output_entry(o)->Check_id;
    assert(id.len() >= 7);
    assert(id != "open"@ && id != "quit"@);
    assert(id.take(7) =~= "output:"@);
    assert(begins_with(id, "output:"@));
    if let MenuAction::Toggle(c) = a {
        assert(("output:"@ + c@).skip(7) =~= c@);
        assert(id.skip(7) =~= o.identity.connector@);
    }
}

/// A click on the entry of a profile applies that profile.
pub proof fn profile_entry_applies_its_profile(p: ProfileInfo, a: MenuAction)
    requires
        action_of(a, profile_entry(p)->Item_id),
    ensures
        a matches MenuAction::Apply(n) && n@ == p.name@,
{
    reveal_strlit("open");
    reveal_strlit("quit");
    reveal_strlit("output:");
    reveal_strlit("profile:");
    let id = profile_entry(p)->Item_id;
    assert(id.len() >= 8);
    assert(id[0] == 'p');
    assert("output:"@[0] == 'o');
    assert(id.take(8) =~= "profile:"@);
    assert(begins_with(id, "profile:"@));
    assert(!begins_with(id, "output:"@)) by {
        if begins_with(id, "output:"@) {
            assert(id[0] == "output:"@[0]);
        }
    }
    if let MenuAction::Apply(n) = a {
        assert(("profile:"@ + n@).skip(8) =~= n@);
        assert(id.skip(8) =~= p.name@);
    }
}

/// A window command asks for on or off by that word, and toggles by any other.
pub proof fn window_words_ask_for_states(mode: Seq<char>)
    ensures
        window_state(mode) == Some(true) <==> mode == "on"@,
        window_state(mode) == Some(false) <==> mode == "off"@,
{
    reveal_strlit("on");
    assert("on"@.len() == 2);
    reveal_strlit("off");
    assert("off"@.len() == 3);
}

/// The menu has a toggle for every output, which is checked if the output is on, an entry
/// for every profile, and the means to open the window and to quit at its end.
pub proof fn menu_has_everything(t: Topology, p: ProfilesInfo, i: int, j: int)
    requires
        0 <= i < t.outputs@.len(),
        0 <= j < p.profiles@.len(),
    ensures
        ({
            let menu = menu_of(Some(t), Some(p));
            let n = t.outputs@.len();
            &&& menu.len() == n + p.profiles@.len() + 4
            &&& menu[i] matches EntryView::Check { id, label, checked } && checked
                == t.outputs@[i].enabled && (t.outputs@[i].alias is None ==> label
                == t.outputs@[i].identity.connector@)
            &&& menu[n as int] is Separator
            &&& menu[n + 1 + j] is Item
            &&& menu[menu.len() - 2] matches EntryView::Item { id, .. } && id == "open"@
            &&& menu[menu.len() - 1] matches EntryView::Item { id, .. } && id == "quit"@
        }),
        profile_entry(p.profiles@[j]) matches EntryView::Item { label, .. } ==> (label[0] == '●'
            <==> p.profiles@[j].active),
{
    reveal_strlit("● ");
    reveal_strlit("  ");
}

} // verus!
