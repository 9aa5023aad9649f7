//! The context menu of a sound in the sound list: which sounds it acts on,
//! its title, and the entries that depend on the sound, the selection and
//! the tab in view.

use vstd::prelude::*;
use crate::folders::general_id;

verus! {

/// Names longer than this many characters are cut in the menu title.
pub const MENU_TITLE_MAX_CHARS: usize = 30;

/// What the context menu of a sound shows.
pub struct SoundMenu {
    /// The sounds the menu's actions apply to.
    pub target_ids: Vec<String>,
    /// The title above the menu's first section.
    pub title: String,
    pub hotkey_label: String,
    pub refine_label: String,
    /// Whether an "Add to Tab" submenu is shown.
    pub offer_add_to_tab: bool,
    /// Whether "Remove from Tab" is shown.
    pub offer_remove_from_tab: bool,
    pub delete_label: String,
}

/// The sounds a menu opened on `clicked` acts on: the whole selection when
/// it holds several sounds and `clicked` among them, else `clicked` alone.
pub open spec fn menu_targets_spec(selected: Seq<Seq<char>>, clicked: Seq<char>) -> Seq<Seq<char>> {
    if selected.len() > 1 && selected.contains(clicked) {
        selected
    } else {
        seq![clicked]
    }
}

/// A sound's name as the menu title: cut to 29 characters and an ellipsis
/// when longer than [`MENU_TITLE_MAX_CHARS`].
pub open spec fn menu_title_spec(name: Seq<char>) -> Seq<char> {
    if name.len() > MENU_TITLE_MAX_CHARS {
        name.take(MENU_TITLE_MAX_CHARS - 1).push('…')
    } else {
        name
    }
}

/// A `String` holding the characters of `s`.
fn text_of(s: &str) -> (t: String)
    ensures
        t@ == s@,
{
    let v = crate::text::chars_of(s);
    let t = crate::text::string_from_chars(&v, 0, v.len());
    proof {
        assert(v@.subrange(0, v@.len() as int) =~= v@);
    }
    t
}

/// The sounds a menu opened on `clicked` acts on.
pub fn menu_targets(selected_ids: &Vec<String>, clicked: &str) -> (targets: Vec<String>)
    ensures
        targets.deep_view() == menu_targets_spec(selected_ids.deep_view(), clicked@),
{
    let mut found = false;
    let mut copy: Vec<String> = Vec::new();
    let mut k: usize = 0;
    while k < selected_ids.len()
        invariant
            k <= selected_ids.len(),
            copy.deep_view() == selected_ids.deep_view().take(k as int),
            found == selected_ids.deep_view().take(k as int).contains(clicked@),
        decreases selected_ids.len() - k,
    {
        let id = text_of(selected_ids[k].as_str());
        let same = crate::window::str_eq(selected_ids[k].as_str(), clicked);
        proof {
            let s = selected_ids.deep_view();
            assert(s.take(k + 1) =~= s.take(k as int).push(s[k as int]));
            if s.take(k as int).contains(clicked@) {
                let j = choose|j: int| 0 <= j < k && s.take(k as int)[j] == clicked@;
                assert(s.take(k + 1)[j] == clicked@);
            }
            let next = s.take(k + 1);
            if next.contains(clicked@) && !same {
                let j = choose|j: int| 0 <= j < next.len() && next[j] == clicked@;
                assert(j != k);
                assert(s.take(k as int)[j] == clicked@);
            }
            if same {
                assert(s.take(k + 1)[k as int] == clicked@);
            }
        }
        copy.push(id);
        proof {
            assert(copy.deep_view() =~= selected_ids.deep_view().take(k + 1));
        }
        found = found || same;
        k += 1;
    }
    proof {
        assert(selected_ids.deep_view().take(selected_ids.len() as int) =~= selected_ids.deep_view());
    }
    if selected_ids.len() > 1 && found {
        copy
    } else {
        let only = vec![text_of(clicked)];
        proof {
            assert(only.deep_view() =~= seq![clicked@]);
        }
        only
    }
}

/// A sound's name as the menu title.
pub fn menu_title(name: &str) -> (title: String)
    ensures
        title@ == menu_title_spec(name@),
{
    let v = crate::text::chars_of(name);
    if v.len() > MENU_TITLE_MAX_CHARS {
        let mut t = crate::text::string_from_chars(&v, 0, MENU_TITLE_MAX_CHARS - 1);
        crate::text::push_char(&mut t, '…');
        proof {
            assert(v@.subrange(0, (MENU_TITLE_MAX_CHARS - 1) as int) =~= name@.take(
                (MENU_TITLE_MAX_CHARS - 1) as int,
            ));
        }
        t
    } else {
        text_of(name)
    }
}

/// The context menu of the sound `sound_id` named `sound_name`, opened while
/// `selected_ids` are selected and the tab `active_tab_id` is in view;
/// `has_hotkey` tells whether the sound has a hotkey, `has_tabs` whether
/// any manual tab exists.
pub fn sound_menu(
    selected_ids: &Vec<String>,
    sound_id: &str,
    sound_name: &str,
    has_hotkey: bool,
    has_tabs: bool,
    active_tab_id: &str,
) -> (menu: SoundMenu)
    ensures
        menu.target_ids.deep_view() == menu_targets_spec(selected_ids.deep_view(), sound_id@),
        menu.title@ == menu_title_spec(sound_name@),
        menu.hotkey_label@ == (if has_hotkey {
            "Update Hotkey"@
        } else {
            "Set Hotkey"@
        }),
        menu.refine_label@ == (if menu.target_ids.len() > 1 {
            "Refine Loudness (Selected)"@
        } else {
            "Refine Loudness Now"@
        }),
        menu.offer_add_to_tab == has_tabs,
        menu.offer_remove_from_tab == (active_tab_id@ != general_id()),
        menu.delete_label@ == (if menu.target_ids.len() > 1 {
            "Delete Selected"@
        } else {
            "Delete"@
        }),
{
    let target_ids = menu_targets(selected_ids, sound_id);
    let several = target_ids.len() > 1;
    let general = crate::folders::general_tab_id();
    let in_general = crate::window::str_eq(active_tab_id, general.as_str());
    SoundMenu {
        title: menu_title(sound_name),
        hotkey_label: if has_hotkey {
            text_of("Update Hotkey")
        } else {
            text_of("Set Hotkey")
        },
        refine_label: if several {
            text_of("Refine Loudness (Selected)")
        } else {
            text_of("Refine Loudness Now")
        },
        offer_add_to_tab: has_tabs,
        offer_remove_from_tab: !in_general,
        delete_label: if several {
            text_of("Delete Selected")
        } else {
            text_of("Delete")
        },
        target_ids,
    }
}


/// A menu opened on a sound of a selection of several sounds acts on the
/// whole selection, wherever the sound stands in it; opened on any other
/// sound, or with at most one sound selected, it acts on that sound alone.
pub proof fn a_menu_on_a_selected_sound_acts_on_the_selection(
    selected: Seq<Seq<char>>,
    clicked: Seq<char>,
    j: int,
)
    ensures
        (selected.len() > 1 && 0 <= j < selected.len() && selected[j] == clicked)
            ==> menu_targets_spec(selected, clicked) == selected,
        (forall|m: int| 0 <= m < selected.len() ==> selected[m] != clicked) ==> menu_targets_spec(
            selected,
            clicked,
        ) == seq![clicked],
        selected.len() <= 1 ==> menu_targets_spec(selected, clicked) == seq![clicked],
{
    if 0 <= j < selected.len() && selected[j] == clicked {
        assert(selected.contains(clicked));
    }
}

/// A name of more than thirty characters becomes its first twenty-nine and
/// an ellipsis, thirty characters in all; a shorter name stays as it is.
pub proof fn long_names_are_cut_to_thirty_characters(name: Seq<char>)
    ensures
        name.len() > 30 ==> menu_title_spec(name).len() == 30 && menu_title_spec(name)[29] == '…'
            && forall|k: int| 0 <= k < 29 ==> menu_title_spec(name)[k] == name[k],
        name.len() <= 30 ==> menu_title_spec(name) == name,
{
}

} // verus!
