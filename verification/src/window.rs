//! Decisions of the main window: the sidebar's width, the keyboard
//! shortcuts it answers to, capturing a new hotkey, and which changes of the
//! playback snapshot reach the sound list.

use vstd::prelude::*;
use crate::transport::PlaybackPosition;

verus! {

/// The sidebar never grows wider than this.
pub const MAX_SIDEBAR_WIDTH: i32 = 600;

/// The keyval of Delete.
pub const KEY_DELETE: u32 = 0xffff;

/// The keyval of the keypad's Delete.
pub const KEY_KP_DELETE: u32 = 0xff9f;

/// The modifier bits of a key event.
pub const SHIFT_MASK: u32 = 1;
pub const CONTROL_MASK: u32 = 4;
pub const ALT_MASK: u32 = 8;
pub const SUPER_MASK: u32 = 0x400_0000;
pub const HYPER_MASK: u32 = 0x800_0000;
pub const META_MASK: u32 = 0x1000_0000;

/// The modifiers that turn a key press into a shortcut.
pub const SHORTCUT_MODIFIERS: u32 = SHIFT_MASK | CONTROL_MASK | ALT_MASK | SUPER_MASK | HYPER_MASK
    | META_MASK;

/// The sidebar's width as dragged, capped.
pub fn cap_sidebar_width(width: i32) -> (capped: i32)
    ensures
        capped == if width < MAX_SIDEBAR_WIDTH {
            width
        } else {
            MAX_SIDEBAR_WIDTH
        },
{
    if width < MAX_SIDEBAR_WIDTH {
        width
    } else {
        MAX_SIDEBAR_WIDTH
    }
}

/// Delete, on the main keyboard or the keypad, pressed without Ctrl, Alt,
/// Shift, Super, Hyper or Meta.
pub fn is_unmodified_delete_shortcut(keyval: u32, modifiers: u32) -> (is_delete: bool)
    ensures
        is_delete == ((keyval == KEY_DELETE || keyval == KEY_KP_DELETE) && modifiers
            & SHORTCUT_MODIFIERS == 0),
{
    (keyval == KEY_DELETE || keyval == KEY_KP_DELETE) && modifiers & SHORTCUT_MODIFIERS == 0
}

/// `a` and `b` hold the same characters.
pub fn str_eq(a: &str, b: &str) -> (same: bool)
    ensures
        same == (a@ == b@),
{
    let x = crate::text::chars_of(a);
    let y = crate::text::chars_of(b);
    if x.len() != y.len() {
        return false;
    }
    let mut i: usize = 0;
    while i < x.len()
        invariant
            x@ == a@,
            y@ == b@,
            i <= x.len() == y.len(),
            forall|k: int| 0 <= k < i ==> x@[k] == y@[k],
        decreases x.len() - i,
    {
        if x[i] != y[i] {
            return false;
        }
        i += 1;
    }
    assert(x@ =~= y@);
    true
}

/// What a key press means while a hotkey is being captured.
#[derive(Clone, Copy, Debug, PartialEq, Eq, Structural)]
pub enum CapturedKey {
    /// A modifier or lock key on its own: capture goes on.
    Modifier,
    /// Escape: capture is cancelled.
    Cancel,
    /// Any other key: it is resolved into the hotkey.
    Key,
}

/// The names of the keys that only modify or lock.
pub open spec fn is_modifier_key_name(name: Seq<char>) -> bool {
    ||| name == "Shift_L"@
    ||| name == "Shift_R"@
    ||| name == "Control_L"@
    ||| name == "Control_R"@
    ||| name == "Alt_L"@
    ||| name == "Alt_R"@
    ||| name == "Super_L"@
    ||| name == "Super_R"@
    ||| name == "Meta_L"@
    ||| name == "Meta_R"@
    ||| name == "ISO_Level3_Shift"@
    ||| name == "Num_Lock"@
    ||| name == "Caps_Lock"@
    ||| name == "Scroll_Lock"@
}

/// Classifies the key named `key_name` pressed during capture.
pub fn classify_captured_key(key_name: &str) -> (kind: CapturedKey)
    ensures
        kind == if is_modifier_key_name(key_name@) {
            CapturedKey::Modifier
        } else if key_name@ == "Escape"@ {
            CapturedKey::Cancel
        } else {
            CapturedKey::Key
        },
{
    if str_eq(key_name, "Shift_L") || str_eq(key_name, "Shift_R") || str_eq(key_name, "Control_L")
        || str_eq(key_name, "Control_R") || str_eq(key_name, "Alt_L") || str_eq(key_name, "Alt_R")
        || str_eq(key_name, "Super_L") || str_eq(key_name, "Super_R") || str_eq(key_name, "Meta_L")
        || str_eq(key_name, "Meta_R") || str_eq(key_name, "ISO_Level3_Shift") || str_eq(
        key_name,
        "Num_Lock",
    ) || str_eq(key_name, "Caps_Lock") || str_eq(key_name, "Scroll_Lock") {
        CapturedKey::Modifier
    } else if str_eq(key_name, "Escape") {
        CapturedKey::Cancel
    } else {
        CapturedKey::Key
    }
}

/// The modifier and lock keys keep capture going, Escape cancels it, and
/// any other key is resolved into the hotkey.
pub proof fn modifier_keys_keep_capture_going(other: Seq<char>)
    ensures
        is_modifier_key_name("Shift_L"@),
        is_modifier_key_name("Shift_R"@),
        is_modifier_key_name("Control_L"@),
        is_modifier_key_name("Control_R"@),
        is_modifier_key_name("Alt_L"@),
        is_modifier_key_name("Alt_R"@),
        is_modifier_key_name("Super_L"@),
        is_modifier_key_name("Super_R"@),
        is_modifier_key_name("Meta_L"@),
        is_modifier_key_name("Meta_R"@),
        is_modifier_key_name("ISO_Level3_Shift"@),
        is_modifier_key_name("Num_Lock"@),
        is_modifier_key_name("Caps_Lock"@),
        is_modifier_key_name("Scroll_Lock"@),
        !is_modifier_key_name("Escape"@),
        (other != "Shift_L"@ && other != "Shift_R"@ && other != "Control_L"@ && other
            != "Control_R"@ && other != "Alt_L"@ && other != "Alt_R"@ && other != "Super_L"@
            && other != "Super_R"@ && other != "Meta_L"@ && other != "Meta_R"@ && other
            != "ISO_Level3_Shift"@ && other != "Num_Lock"@ && other != "Caps_Lock"@ && other
            != "Scroll_Lock"@) ==> !is_modifier_key_name(other),
{
    reveal_strlit("Escape");
    reveal_strlit("Shift_L");
    reveal_strlit("Shift_R");
    reveal_strlit("Control_L");
    reveal_strlit("Control_R");
    reveal_strlit("Alt_L");
    reveal_strlit("Alt_R");
    reveal_strlit("Super_L");
    reveal_strlit("Super_R");
    reveal_strlit("Meta_L");
    reveal_strlit("Meta_R");
    reveal_strlit("ISO_Level3_Shift");
    reveal_strlit("Num_Lock");
    reveal_strlit("Caps_Lock");
    reveal_strlit("Scroll_Lock");
    assert("Escape"@[0] != "Shift_L"@[0]);
    assert("Escape"@[0] != "Shift_R"@[0]);
    assert("Escape"@[0] != "Control_L"@[0]);
    assert("Escape"@[0] != "Control_R"@[0]);
    assert("Escape"@[0] != "Alt_L"@[0]);
    assert("Escape"@[0] != "Alt_R"@[0]);
    assert("Escape"@[0] != "Super_L"@[0]);
    assert("Escape"@[0] != "Super_R"@[0]);
    assert("Escape"@[0] != "Meta_L"@[0]);
    assert("Escape"@[0] != "Meta_R"@[0]);
    assert("Escape"@[0] != "ISO_Level3_Shift"@[0]);
    assert("Escape"@[0] != "Num_Lock"@[0]);
    assert("Escape"@[0] != "Caps_Lock"@[0]);
    assert("Escape"@[0] != "Scroll_Lock"@[0]);
}

/// A modifier of a captured hotkey.
#[derive(Clone, Copy, Debug, PartialEq, Eq, Structural)]
pub enum CaptureModifier {
    Ctrl,
    Alt,
    Shift,
    Super,
}

/// The modifiers held in `state`, in the order Ctrl, Alt, Shift, Super.
pub open spec fn held_modifiers(state: u32) -> Seq<CaptureModifier> {
    (if state & CONTROL_MASK != 0 {
        seq![CaptureModifier::Ctrl]
    } else {
        Seq::empty()
    }) + (if state & ALT_MASK != 0 {
        seq![CaptureModifier::Alt]
    } else {
        Seq::empty()
    }) + (if state & SHIFT_MASK != 0 {
        seq![CaptureModifier::Shift]
    } else {
        Seq::empty()
    }) + (if state & SUPER_MASK != 0 {
        seq![CaptureModifier::Super]
    } else {
        Seq::empty()
    })
}

/// The modifiers of a captured hotkey, read off the event's `state`.
pub fn captured_modifiers(state: u32) -> (modifiers: Vec<CaptureModifier>)
    ensures
        modifiers@ == held_modifiers(state),
{
    let mut modifiers: Vec<CaptureModifier> = Vec::new();
    if state & CONTROL_MASK != 0 {
        modifiers.push(CaptureModifier::Ctrl);
    }
    if state & ALT_MASK != 0 {
        modifiers.push(CaptureModifier::Alt);
    }
    if state & SHIFT_MASK != 0 {
        modifiers.push(CaptureModifier::Shift);
    }
    if state & SUPER_MASK != 0 {
        modifiers.push(CaptureModifier::Super);
    }
    assert(modifiers@ =~= held_modifiers(state));
    modifiers
}

/// A keypad key name.
pub open spec fn is_keypad_name(name: Seq<char>) -> bool {
    name.len() >= 3 && name[0] == 'K' && name[1] == 'P' && name[2] == '_'
}

/// The keypad names among `names`, each once, in order of first appearance.
pub open spec fn keypad_candidates(names: Seq<Seq<char>>) -> Seq<Seq<char>>
    decreases names.len(),
{
    if names.len() == 0 {
        Seq::empty()
    } else {
        let earlier = keypad_candidates(names.drop_last());
        let name = names.last();
        if is_keypad_name(name) && !earlier.contains(name) {
            earlier.push(name)
        } else {
            earlier
        }
    }
}

fn is_keypad(name: &String) -> (keypad: bool)
    ensures
        keypad == is_keypad_name(name@),
{
    let chars = crate::text::chars_of(name.as_str());
    chars.len() >= 3 && chars[0] == 'K' && chars[1] == 'P' && chars[2] == '_'
}

fn contains_name(names: &Vec<String>, name: &String) -> (found: bool)
    ensures
        found == names.deep_view().contains(name@),
{
    let mut k: usize = 0;
    while k < names.len()
        invariant
            k <= names.len(),
            forall|m: int| 0 <= m < k ==> names.deep_view()[m] != name@,
        decreases names.len() - k,
    {
        if names[k] == *name {
            assert(names.deep_view()[k as int] == name@);
            return true;
        }
        k += 1;
    }
    false
}

/// The names to resolve a captured key by, in order: the keypad names the
/// key's hardware code maps to, each once, then the key's own name. A
/// keypad key that reports a plain symbol name is thus captured as the
/// keypad key.
pub fn capture_key_candidates(key_name: &String, mapped_names: &Vec<String>) -> (candidates: Vec<
    String,
>)
    ensures
        candidates.deep_view() == keypad_candidates(mapped_names.deep_view()).push(key_name@),
{
    let mut candidates: Vec<String> = Vec::new();
    let mut k: usize = 0;
    while k < mapped_names.len()
        invariant
            k <= mapped_names.len(),
            candidates.deep_view() == keypad_candidates(mapped_names.deep_view().take(k as int)),
        decreases mapped_names.len() - k,
    {
        let name = &mapped_names[k];
        proof {
            assert(mapped_names.deep_view().take(k + 1).drop_last() =~= mapped_names.deep_view().take(
                k as int,
            ));
            assert(mapped_names.deep_view().take(k + 1).last() == name@);
        }
        if is_keypad(name) && !contains_name(&candidates, name) {
            let ghost before = candidates.deep_view();
            candidates.push(name.clone());
            proof {
                assert(candidates.deep_view() =~= before.push(name@));
            }
        }
        k += 1;
    }
    proof {
        assert(mapped_names.deep_view().take(k as int) =~= mapped_names.deep_view());
    }
    let ghost before = candidates.deep_view();
    candidates.push(key_name.clone());
    proof {
        assert(candidates.deep_view() =~= before.push(key_name@));
    }
    candidates
}

/// The sound the snapshot shows as playing: the first position not
/// finished.
pub open spec fn active_sound_id(positions: Seq<PlaybackPosition>) -> Option<Seq<char>>
    decreases positions.len(),
{
    if positions.len() == 0 {
        None
    } else if !positions[0].finished {
        Some(positions[0].sound_id@)
    } else {
        active_sound_id(positions.drop_first())
    }
}

fn first_active(positions: &Vec<PlaybackPosition>) -> (id: Option<String>)
    ensures
        match id {
            Some(s) => active_sound_id(positions@) == Some(s@),
            None => active_sound_id(positions@) is None,
        },
{
    let mut k: usize = 0;
    proof {
        assert(positions@.skip(0) =~= positions@);
    }
    while k < positions.len()
        invariant
            k <= positions.len(),
            active_sound_id(positions@) == active_sound_id(positions@.skip(k as int)),
        decreases positions.len() - k,
    {
        proof {
            assert(positions@.skip(k as int).drop_first() =~= positions@.skip(k + 1));
        }
        if !positions[k].finished {
            return Some(positions[k].sound_id.clone());
        }
        k += 1;
    }
    None
}

fn same_ids(a: &Vec<String>, b: &Vec<String>) -> (same: bool)
    ensures
        same == (a.deep_view() == b.deep_view()),
{
    if a.len() != b.len() {
        proof {
            assert(a.deep_view().len() != b.deep_view().len());
        }
        return false;
    }
    let mut k: usize = 0;
    while k < a.len()
        invariant
            k <= a.len() == b.len(),
            forall|m: int| 0 <= m < k ==> a.deep_view()[m] == b.deep_view()[m],
        decreases a.len() - k,
    {
        if a[k] != b[k] {
            proof {
                assert(a.deep_view()[k as int] != b.deep_view()[k as int]);
            }
            return false;
        }
        k += 1;
    }
    proof {
        assert(a.deep_view() =~= b.deep_view());
    }
    true
}

fn clone_ids(ids: &Vec<String>) -> (copy: Vec<String>)
    ensures
        copy.deep_view() == ids.deep_view(),
{
    let mut copy: Vec<String> = Vec::new();
    let mut k: usize = 0;
    while k < ids.len()
        invariant
            k <= ids.len(),
            copy.deep_view() == ids.deep_view().take(k as int),
        decreases ids.len() - k,
    {
        let ghost before = copy.deep_view();
        copy.push(ids[k].clone());
        proof {
            assert(copy.deep_view() =~= before.push(ids.deep_view()[k as int]));
            assert(ids.deep_view().take(k + 1) =~= ids.deep_view().take(k as int).push(
                ids.deep_view()[k as int],
            ));
        }
        k += 1;
    }
    proof {
        assert(ids.deep_view().take(k as int) =~= ids.deep_view());
    }
    copy
}

/// The playing sounds and the active sound last passed on to the sound
/// list.
pub struct SnapshotTracker {
    last_playing: Vec<String>,
    last_active: Option<String>,
}

/// What of a snapshot the sound list is to hear: the new playing sounds,
/// and the new active sound, each only when it changed.
pub struct SnapshotChanges {
    pub playing_ids: Option<Vec<String>>,
    pub active_sound_id: Option<Option<String>>,
}

pub open spec fn opt_string_view(o: Option<String>) -> Option<Seq<char>> {
    match o {
        Some(s) => Some(s@),
        None => None,
    }
}

impl SnapshotTracker {
    /// The playing sounds last passed on.
    pub closed spec fn playing(&self) -> Seq<Seq<char>> {
        self.last_playing.deep_view()
    }

    /// The active sound last passed on.
    pub closed spec fn active(&self) -> Option<Seq<char>> {
        opt_string_view(self.last_active)
    }

    /// Nothing passed on yet: no sound plays.
    pub fn new() -> (tracker: Self)
        ensures
            tracker.playing() == Seq::<Seq<char>>::empty(),
            tracker.active() is None,
    {
        let tracker = SnapshotTracker { last_playing: Vec::new(), last_active: None };
        assert(tracker.last_playing.deep_view() =~= Seq::<Seq<char>>::empty());
        tracker
    }

    /// A snapshot arrived: the playing sounds and the active sound are passed
    /// on when they differ from what was passed on last.
    pub fn observe(&mut self, playing_ids: &Vec<String>, positions: &Vec<PlaybackPosition>) -> (changes: SnapshotChanges)
        ensures
            final(self).playing() == playing_ids.deep_view(),
            final(self).active() == active_sound_id(positions@),
            match changes.playing_ids {
                Some(ids) => old(self).playing() != playing_ids.deep_view() && ids.deep_view()
                    == playing_ids.deep_view(),
                None => old(self).playing() == playing_ids.deep_view(),
            },
            match changes.active_sound_id {
                Some(id) => old(self).active() != active_sound_id(positions@) && opt_string_view(id)
                    == active_sound_id(positions@),
                None => old(self).active() == active_sound_id(positions@),
            },
    {
        let active_now = first_active(positions);
        let playing_update = if same_ids(&self.last_playing, playing_ids) {
            None
        } else {
            self.last_playing = clone_ids(playing_ids);
            Some(clone_ids(playing_ids))
        };
        let active_same = match (&self.last_active, &active_now) {
            (Some(a), Some(b)) => *a == *b,
            (None, None) => true,
            _ => false,
        };
        let active_update = if active_same {
            None
        } else {
            self.last_active = match &active_now {
                Some(s) => Some(s.clone()),
                None => None,
            };
            Some(active_now)
        };
        SnapshotChanges { playing_ids: playing_update, active_sound_id: active_update }
    }
}

} // verus!
