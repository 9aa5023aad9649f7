//! Rules of the tab list and the folder tree: scope keys, drop intents,
//! folder paths, merges, reordering and the sound moves a folder drop makes.

use vstd::prelude::*;

use crate::tab_dnd::{
    context_view, FolderDragContext, FolderDragPayload, FolderDropZone, SoundTabDragPayload,
};
use crate::text::chars_of;

verus! {

/// Identity of the built-in tab that shows every sound.
pub const GENERAL_TAB_ID: &'static str = "general";

/// What a list of sounds is drawn from.
#[derive(Debug, Clone, PartialEq, Eq)]
pub enum LibraryScope {
    General,
    ManualTab(String),
    Folder { root_path: String, relative_path: String },
}

/// What dropping sounds from one tab onto another does.
#[derive(Debug, Clone, Copy, PartialEq, Eq, Structural)]
pub enum SidebarDropIntent {
    Noop,
    AddToTarget,
    RemoveFromSource,
    MoveBetweenCustomTabs,
}

/// Whether a folder override adds a sound to a folder or takes it out.
#[derive(Debug, Clone, Copy, PartialEq, Eq, Structural)]
pub enum FolderOverrideAction {
    Include,
    Exclude,
}

/// One sound placed into, or taken out of, one folder.
#[derive(Debug, Clone, PartialEq, Eq)]
pub struct FolderOverrideRecord {
    pub root_path: String,
    pub folder_relative_path: String,
    pub sound_public_id: String,
    pub action: FolderOverrideAction,
}

/// A request to move every sound in one folder into another.
#[derive(Debug, Clone, PartialEq, Eq)]
pub struct FolderMergeRequest {
    pub root_path: String,
    pub source_relative_path: String,
    pub destination_relative_path: String,
}

pub open spec fn general_id() -> Seq<char> {
    seq!['g', 'e', 'n', 'e', 'r', 'a', 'l']
}

pub open spec fn tab_prefix() -> Seq<char> {
    seq!['t', 'a', 'b', ':']
}

/// The key under which a tab's hotkey and state are stored: `general` for the
/// general tab, `tab:<id>` for a manual tab.
pub open spec fn tab_scope_key_spec(tab_id: Seq<char>) -> Seq<char> {
    if tab_id == general_id() {
        general_id()
    } else {
        tab_prefix() + tab_id
    }
}

/// The tab identity a scope key selects, if it names a tab at all.
pub open spec fn tab_identity_spec(scope_key: Seq<char>) -> Option<Seq<char>> {
    if scope_key == general_id() {
        Some(general_id())
    } else if scope_key.len() >= 4 && scope_key.take(4) == tab_prefix() {
        Some(scope_key.skip(4))
    } else {
        None
    }
}

/// `true` when the characters of `v` are exactly `lit`.
fn chars_equal(v: &Vec<char>, lit: &Vec<char>) -> (b: bool)
    ensures
        b == (v@ == lit@),
{
    if v.len() != lit.len() {
        return false;
    }
    let mut i: usize = 0;
    while i < v.len()
        invariant
            i <= v.len() == lit.len(),
            forall|k: int| 0 <= k < i ==> v@[k] == lit@[k],
        decreases v.len() - i,
    {
        if v[i] != lit[i] {
            return false;
        }
        i += 1;
    }
    assert(v@ =~= lit@);
    true
}

/// `true` when `v` starts with `prefix`.
fn chars_start_with(v: &Vec<char>, prefix: &Vec<char>) -> (b: bool)
    ensures
        b == (v@.len() >= prefix@.len() && v@.take(prefix@.len() as int) == prefix@),
{
    if v.len() < prefix.len() {
        return false;
    }
    let mut i: usize = 0;
    while i < prefix.len()
        invariant
            i <= prefix.len() <= v.len(),
            forall|k: int| 0 <= k < i ==> v@[k] == prefix@[k],
        decreases prefix.len() - i,
    {
        if v[i] != prefix[i] {
            assert(v@.take(prefix@.len() as int)[i as int] != prefix@[i as int]);
            return false;
        }
        i += 1;
    }
    assert(v@.take(prefix@.len() as int) =~= prefix@);
    true
}

fn general_chars() -> (v: Vec<char>)
    ensures
        v@ == general_id(),
{
    let v = vec!['g', 'e', 'n', 'e', 'r', 'a', 'l'];
    assert(v@ =~= general_id());
    v
}

fn tab_prefix_chars() -> (v: Vec<char>)
    ensures
        v@ == tab_prefix(),
{
    let v = vec!['t', 'a', 'b', ':'];
    assert(v@ =~= tab_prefix());
    v
}

/// The general tab's identity as a `String`.
pub fn general_tab_id() -> (s: String)
    ensures
        s@ == general_id(),
{
    let v = general_chars();
    crate::text::string_from_chars(&v, 0, v.len())
}

/// Scope key of a tab: `general` for the general tab, `tab:<id>` otherwise.
pub fn tab_scope_key(tab_id: &str) -> (key: String)
    ensures
        key@ == tab_scope_key_spec(tab_id@),
{
    let id = chars_of(tab_id);
    if chars_equal(&id, &general_chars()) {
        general_tab_id()
    } else {
        let mut key = tab_prefix_chars();
        let mut i: usize = 0;
        while i < id.len()
            invariant
                i <= id.len(),
                id@ == tab_id@,
                key@ == tab_prefix() + id@.take(i as int),
            decreases id.len() - i,
        {
            key.push(id[i]);
            assert(id@.take(i + 1) == id@.take(i as int).push(id@[i as int]));
            i += 1;
        }
        assert(id@.take(id.len() as int) == id@);
        crate::text::string_from_chars(&key, 0, key.len())
    }
}

/// The tab a scope key selects: `general` selects the general tab,
/// `tab:<id>` the manual tab `<id>`; any other key selects none.
pub fn tab_identity_for_scope_key(scope_key: &str) -> (identity: Option<String>)
    ensures
        identity matches Some(s) ==> tab_identity_spec(scope_key@) == Some(s@),
        identity is None ==> tab_identity_spec(scope_key@) is None,
{
    let key = chars_of(scope_key);
    if chars_equal(&key, &general_chars()) {
        Some(general_tab_id())
    } else if chars_start_with(&key, &tab_prefix_chars()) {
        Some(crate::text::string_from_chars(&key, 4, key.len()))
    } else {
        None
    }
}

pub open spec fn drop_intent_spec(source: Seq<char>, target: Seq<char>) -> SidebarDropIntent {
    if source == target {
        SidebarDropIntent::Noop
    } else if source == general_id() && target == general_id() {
        SidebarDropIntent::Noop
    } else if source == general_id() {
        SidebarDropIntent::AddToTarget
    } else if target == general_id() {
        SidebarDropIntent::RemoveFromSource
    } else {
        SidebarDropIntent::MoveBetweenCustomTabs
    }
}

/// Dropping onto the tab it came from does nothing; from the general tab it
/// adds, onto the general tab it removes, between manual tabs it moves.
pub fn resolve_sidebar_drop_intent(source_tab_id: &str, target_tab_id: &str) -> (intent:
    SidebarDropIntent)
    ensures
        intent == drop_intent_spec(source_tab_id@, target_tab_id@),
{
    let source = chars_of(source_tab_id);
    let target = chars_of(target_tab_id);
    if chars_equal(&source, &target) {
        return SidebarDropIntent::Noop;
    }
    let general = general_chars();
    let source_is_general = chars_equal(&source, &general);
    let target_is_general = chars_equal(&target, &general);
    if source_is_general && target_is_general {
        SidebarDropIntent::Noop
    } else if source_is_general {
        SidebarDropIntent::AddToTarget
    } else if target_is_general {
        SidebarDropIntent::RemoveFromSource
    } else {
        SidebarDropIntent::MoveBetweenCustomTabs
    }
}


/// What `std::path::Path::parent` gives for a path, as text.
pub uninterp spec fn std_path_parent(path: Seq<char>) -> Option<Seq<char>>;

/// `Path::new(path).parent()`, as an owned string.
#[verifier::external_body]
fn path_parent(path: &str) -> (parent: Option<String>)
    ensures
        parent matches Some(p) ==> std_path_parent(path@) == Some(p@),
        parent is None ==> std_path_parent(path@) is None,
{
    std::path::Path::new(path).parent().map(|p| p.to_string_lossy().into_owned())
}

/// `Path::new(path).components().next().is_some()`: on this platform a path
/// yields a component (a root, `.`, `..` or a name) exactly when its text is
/// not empty.
#[verifier::external_body]
fn path_has_components(path: &str) -> (b: bool)
    ensures
        b == (path@.len() > 0),
{
    std::path::Path::new(path).components().next().is_some()
}

/// The parent folder of a relative folder path, `None` at top level.
pub open spec fn folder_parent_spec(relative_path: Seq<char>) -> Option<Seq<char>> {
    match std_path_parent(relative_path) {
        Some(p) => if p.len() > 0 {
            Some(p)
        } else {
            None
        },
        None => None,
    }
}

/// Keeps the parent that `Path::parent` gave only if it names a folder: the
/// empty parent of a top-level path is no folder.
pub fn named_parent(parent: Option<String>) -> (kept: Option<String>)
    ensures
        kept == (match parent {
            Some(p) => if p@.len() > 0 {
                Some(p)
            } else {
                None
            },
            None => None,
        }),
{
    match parent {
        Some(p) => {
            if path_has_components(p.as_str()) {
                Some(p)
            } else {
                None
            }
        },
        None => None,
    }
}

/// Parent of a folder given by its path relative to its root; `None` for a
/// top-level folder.
pub fn folder_parent_relative_path(relative_path: &str) -> (parent: Option<String>)
    ensures
        parent matches Some(p) ==> folder_parent_spec(relative_path@) == Some(p@),
        parent is None ==> folder_parent_spec(relative_path@) is None,
{
    named_parent(path_parent(relative_path))
}

pub open spec fn reorder_target_spec(dragged_index: int, target_index: int, after: bool) -> int {
    let raw = if after {
        target_index + 1
    } else {
        target_index
    };
    if dragged_index < raw {
        raw - 1
    } else {
        raw
    }
}

/// The index a dragged folder ends at when dropped before or after the row
/// at `target_index`, counted after the dragged folder has left its place.
pub fn folder_reorder_target_index(dragged_index: usize, target_index: usize, after: bool) -> (
    index: usize)
    requires
        after ==> target_index < usize::MAX,
    ensures
        index == reorder_target_spec(dragged_index as int, target_index as int, after),
{
    let raw = if after {
        target_index + 1
    } else {
        target_index
    };
    if dragged_index < raw {
        raw - 1
    } else {
        raw
    }
}

/// `true` when `path` lies strictly inside the folder `folder`.
pub open spec fn is_inside_folder(path: Seq<char>, folder: Seq<char>) -> bool {
    &&& path.len() > folder.len()
    &&& path.take(folder.len() as int) == folder
    &&& path[folder.len() as int] == '/'
}

/// A folder may be merged into another folder of the same root, but not into
/// itself or into a folder inside it.
pub open spec fn merge_allowed(
    source_root: Seq<char>,
    source_relative: Seq<char>,
    target_root: Seq<char>,
    target_relative: Seq<char>,
) -> bool {
    &&& source_root == target_root
    &&& source_relative != target_relative
    &&& !is_inside_folder(target_relative, source_relative)
}

/// The merge asked for by dropping a dragged folder into a folder row.
pub fn folder_merge_request(
    payload: &FolderDragPayload,
    target_root_path: &str,
    target_relative_path: &str,
) -> (request: Option<FolderMergeRequest>)
    ensures
        request is Some <==> merge_allowed(
            payload.root_path@,
            payload.relative_path@,
            target_root_path@,
            target_relative_path@,
        ),
        request matches Some(r) ==> {
            &&& r.root_path@ == payload.root_path@
            &&& r.source_relative_path@ == payload.relative_path@
            &&& r.destination_relative_path@ == target_relative_path@
        },
{
    let root = chars_of(payload.root_path.as_str());
    let source = chars_of(payload.relative_path.as_str());
    let target_root = chars_of(target_root_path);
    let target = chars_of(target_relative_path);
    if !chars_equal(&root, &target_root) || chars_equal(&source, &target) {
        return None;
    }
    let inside_source = chars_start_with(&target, &source) && target.len() > source.len()
        && target[source.len()] == '/';
    if inside_source {
        return None;
    }
    Some(
        FolderMergeRequest {
            root_path: payload.root_path.clone(),
            source_relative_path: payload.relative_path.clone(),
            destination_relative_path: crate::text::string_from_chars(&target, 0, target.len()),
        },
    )
}

/// Index of the last `/` in `s`, or `-1` when there is none.
pub open spec fn last_slash_index(s: Seq<char>) -> int
    decreases s.len(),
{
    if s.len() == 0 {
        -1
    } else if s.last() == '/' {
        s.len() - 1
    } else {
        last_slash_index(s.drop_last())
    }
}

/// The last path component of a folder path, or the whole path when that
/// component is empty.
pub open spec fn display_label_spec(relative_path: Seq<char>) -> Seq<char> {
    let cut = last_slash_index(relative_path);
    let tail = relative_path.skip(cut + 1);
    if tail.len() == 0 {
        relative_path
    } else {
        tail
    }
}

/// Last path component: what the sidebar shows for a folder.
pub fn folder_display_label(relative_path: &str) -> (label: String)
    ensures
        label@ == display_label_spec(relative_path@),
{
    let v = chars_of(relative_path);
    let mut j: usize = v.len();
    assert(v@.take(j as int) == v@);
    while j > 0 && v[j - 1] != '/'
        invariant
            j <= v.len(),
            last_slash_index(v@) == last_slash_index(v@.take(j as int)),
        decreases j,
    {
        assert(v@.take(j as int).drop_last() == v@.take(j - 1));
        j -= 1;
    }
    proof {
        if j > 0 {
            assert(v@.take(j as int).last() == '/');
            assert(last_slash_index(v@) == j - 1);
        } else {
            assert(last_slash_index(v@.take(0)) == -1);
        }
    }
    if j == v.len() {
        crate::text::string_from_chars(&v, 0, v.len())
    } else {
        crate::text::string_from_chars(&v, j, v.len())
    }
}

pub open spec fn record_matches(
    r: FolderOverrideRecord,
    root: Seq<char>,
    relative: Seq<char>,
    sound: Seq<char>,
    action: FolderOverrideAction,
) -> bool {
    &&& r.root_path@ == root
    &&& r.folder_relative_path@ == relative
    &&& r.sound_public_id@ == sound
    &&& r.action == action
}

/// The folder overrides a sound drop onto a folder makes: each sound is
/// included in the target folder and, when it was dragged out of a folder,
/// excluded from that folder right after. Dropping onto the folder the
/// sounds came from changes nothing.
pub open spec fn drop_overrides_valid(
    payload: SoundTabDragPayload,
    target: FolderDragContext,
    records: Seq<FolderOverrideRecord>,
) -> bool {
    let ids = payload.sound_ids.deep_view();
    if context_view(payload.source_folder) == context_view(Some(target)) {
        records.len() == 0
    } else {
        match payload.source_folder {
            Some(source) => {
                &&& records.len() == 2 * ids.len()
                &&& forall|k: int|
                    0 <= k < ids.len() ==> {
                        &&& record_matches(
                            #[trigger] records[2 * k],
                            target.root_path@,
                            target.relative_path@,
                            ids[k],
                            FolderOverrideAction::Include,
                        )
                        &&& record_matches(
                            records[2 * k + 1],
                            source.root_path@,
                            source.relative_path@,
                            ids[k],
                            FolderOverrideAction::Exclude,
                        )
                    }
            },
            None => {
                &&& records.len() == ids.len()
                &&& forall|k: int|
                    0 <= k < ids.len() ==> record_matches(
                        #[trigger] records[k],
                        target.root_path@,
                        target.relative_path@,
                        ids[k],
                        FolderOverrideAction::Include,
                    )
            },
        }
    }
}

/// The overrides that move dragged sounds into the folder `target`.
pub fn folder_drop_overrides(payload: &SoundTabDragPayload, target: &FolderDragContext) -> (records:
    Vec<FolderOverrideRecord>)
    ensures
        drop_overrides_valid(*payload, *target, records@),
{
    let same = match &payload.source_folder {
        Some(source) => source.same_folder(target),
        None => false,
    };
    let mut records: Vec<FolderOverrideRecord> = Vec::new();
    if same {
        return records;
    }
    let ghost ids = payload.sound_ids.deep_view();
    let mut k: usize = 0;
    while k < payload.sound_ids.len()
        invariant
            k <= payload.sound_ids.len(),
            ids == payload.sound_ids.deep_view(),
            context_view(payload.source_folder) != context_view(Some(*target)),
            payload.source_folder is Some ==> records@.len() == 2 * k,
            payload.source_folder is None ==> records@.len() == k,
            payload.source_folder matches Some(source) ==> forall|m: int|
                0 <= m < k ==> {
                    &&& record_matches(
                        #[trigger] records@[2 * m],
                        target.root_path@,
                        target.relative_path@,
                        ids[m],
                        FolderOverrideAction::Include,
                    )
                    &&& record_matches(
                        records@[2 * m + 1],
                        source.root_path@,
                        source.relative_path@,
                        ids[m],
                        FolderOverrideAction::Exclude,
                    )
                },
            payload.source_folder is None ==> forall|m: int|
                0 <= m < k ==> record_matches(
                    #[trigger] records@[m],
                    target.root_path@,
                    target.relative_path@,
                    ids[m],
                    FolderOverrideAction::Include,
                ),
        decreases payload.sound_ids.len() - k,
    {
        let sound_id = &payload.sound_ids[k];
        records.push(
            FolderOverrideRecord {
                root_path: target.root_path.clone(),
                folder_relative_path: target.relative_path.clone(),
                sound_public_id: sound_id.clone(),
                action: FolderOverrideAction::Include,
            },
        );
        match &payload.source_folder {
            Some(source) => {
                records.push(
                    FolderOverrideRecord {
                        root_path: source.root_path.clone(),
                        folder_relative_path: source.relative_path.clone(),
                        sound_public_id: sound_id.clone(),
                        action: FolderOverrideAction::Exclude,
                    },
                );
            },
            None => {},
        }
        k += 1;
    }
    records
}

/// Why a folder drop was refused.
#[derive(Debug, Clone, Copy, PartialEq, Eq, Structural)]
pub enum FolderDropRefusal {
    /// The dropped bytes are not a folder drag.
    NotAFolderDrag,
    /// A folder cannot be combined into itself or its own subtree.
    IntoOwnSubtree,
    /// Reordering needs the same root and a different folder.
    DifferentRootOrSelf,
    /// Reordering is only offered among siblings.
    NotASibling,
}

/// What dropping a folder onto a folder row does.
#[derive(Debug, Clone, PartialEq, Eq)]
pub enum FolderDropDecision {
    Refuse(FolderDropRefusal),
    /// Ask the user to merge the dragged folder into the row's folder.
    Merge(FolderMergeRequest),
    /// Move the dragged folder next to the row, below it when `after`.
    Reorder { after: bool },
}

pub open spec fn opt_view(o: Option<String>) -> Option<Seq<char>> {
    match o {
        Some(s) => Some(s@),
        None => None,
    }
}

/// The decision for a folder drop: the middle of a row merges, its edges
/// reorder among siblings.
pub open spec fn folder_drop_spec(
    payload: Option<FolderDragPayload>,
    row_root: Seq<char>,
    row_relative: Seq<char>,
    zone: FolderDropZone,
    decision: FolderDropDecision,
) -> bool {
    match payload {
        None => decision == FolderDropDecision::Refuse(FolderDropRefusal::NotAFolderDrag),
        Some(p) => match zone {
            FolderDropZone::Into => if merge_allowed(
                p.root_path@,
                p.relative_path@,
                row_root,
                row_relative,
            ) {
                decision matches FolderDropDecision::Merge(r) && r.root_path@ == p.root_path@
                    && r.source_relative_path@ == p.relative_path@
                    && r.destination_relative_path@ == row_relative
            } else {
                decision == FolderDropDecision::Refuse(FolderDropRefusal::IntoOwnSubtree)
            },
            _ => if p.root_path@ != row_root || p.relative_path@ == row_relative {
                decision == FolderDropDecision::Refuse(FolderDropRefusal::DifferentRootOrSelf)
            } else if opt_view(p.parent_relative_path) != folder_parent_spec(row_relative) {
                decision == FolderDropDecision::Refuse(FolderDropRefusal::NotASibling)
            } else {
                decision == FolderDropDecision::Reorder { after: zone == FolderDropZone::After }
            },
        },
    }
}

fn opt_string_equal(a: &Option<String>, b: &Option<String>) -> (eq: bool)
    ensures
        eq == (opt_view(*a) == opt_view(*b)),
{
    match (a, b) {
        (Some(x), Some(y)) => *x == *y,
        (None, None) => true,
        _ => false,
    }
}

/// Decides a folder drop onto the row of folder `row_relative_path` under
/// `row_root_path`; `payload` is `None` when the dropped data is no folder drag.
pub fn folder_drop_decision(
    payload: Option<FolderDragPayload>,
    row_root_path: &str,
    row_relative_path: &str,
    zone: FolderDropZone,
) -> (decision: FolderDropDecision)
    ensures
        folder_drop_spec(payload, row_root_path@, row_relative_path@, zone, decision),
{
    let payload = match payload {
        Some(p) => p,
        None => return FolderDropDecision::Refuse(FolderDropRefusal::NotAFolderDrag),
    };
    match zone {
        FolderDropZone::Into => {
            return match folder_merge_request(&payload, row_root_path, row_relative_path) {
                Some(request) => FolderDropDecision::Merge(request),
                None => FolderDropDecision::Refuse(FolderDropRefusal::IntoOwnSubtree),
            };
        },
        _ => {},
    }
    let root = chars_of(payload.root_path.as_str());
    let relative = chars_of(payload.relative_path.as_str());
    if !chars_equal(&root, &chars_of(row_root_path)) || chars_equal(
        &relative,
        &chars_of(row_relative_path),
    ) {
        return FolderDropDecision::Refuse(FolderDropRefusal::DifferentRootOrSelf);
    }
    let row_parent = folder_parent_relative_path(row_relative_path);
    if !opt_string_equal(&payload.parent_relative_path, &row_parent) {
        return FolderDropDecision::Refuse(FolderDropRefusal::NotASibling);
    }
    FolderDropDecision::Reorder { after: zone == FolderDropZone::After }
}

/// Position of the folder `relative_path` among its siblings, in listing
/// order (the first match).
pub fn dragged_sibling_index(siblings: &Vec<String>, relative_path: &str) -> (index: Option<usize>)
    ensures
        index matches Some(i) ==> i < siblings.len() && siblings.deep_view()[i as int]
            == relative_path@ && forall|k: int|
            0 <= k < i ==> siblings.deep_view()[k] != relative_path@,
        index is None ==> !siblings.deep_view().contains(relative_path@),
{
    let target = chars_of(relative_path);
    let mut k: usize = 0;
    while k < siblings.len()
        invariant
            k <= siblings.len(),
            target@ == relative_path@,
            forall|m: int| 0 <= m < k ==> siblings.deep_view()[m] != relative_path@,
        decreases siblings.len() - k,
    {
        if chars_equal(&chars_of(siblings[k].as_str()), &target) {
            return Some(k);
        }
        k += 1;
    }
    None
}



/// "1 sound" or "`count` sounds".
pub open spec fn sounds_phrase(count: u64) -> Seq<char> {
    if count == 1 {
        "1 sound"@
    } else {
        crate::format::decimal(count as nat) + " sounds"@
    }
}

fn push_sounds_phrase(out: &mut Vec<char>, count: u64)
    ensures
        final(out)@ == old(out)@ + sounds_phrase(count),
{
    if count == 1 {
        crate::preferences::push_str(out, "1 sound");
    } else {
        let ghost before = out@;
        crate::format::push_decimal(out, count);
        crate::preferences::push_str(out, " sounds");
        proof {
            assert(out@ =~= before + sounds_phrase(count));
        }
    }
}

/// The toast after sounds were dropped on a tab: what happened to how many
/// sounds, naming the tab they went to or left; nothing for no sound or a
/// drop that does nothing.
pub fn drop_toast_message(intent: SidebarDropIntent, source_name: &String, target_name: &String, count: u64) -> (message: Option<String>)
    ensures
        (count == 0 || intent == SidebarDropIntent::Noop) ==> message is None,
        count > 0 && intent == SidebarDropIntent::AddToTarget ==> (message matches Some(m) && m@
            == sounds_phrase(count) + " added to "@ + target_name@),
        count > 0 && intent == SidebarDropIntent::RemoveFromSource ==> (message matches Some(m)
            && m@ == sounds_phrase(count) + " removed from "@ + source_name@),
        count > 0 && intent == SidebarDropIntent::MoveBetweenCustomTabs ==> (message matches Some(
            m,
        ) && m@ == sounds_phrase(count) + " moved to "@ + target_name@),
{
    if count == 0 {
        return None;
    }
    let mut out: Vec<char> = Vec::new();
    match intent {
        SidebarDropIntent::Noop => {
            return None;
        },
        SidebarDropIntent::AddToTarget => {
            push_sounds_phrase(&mut out, count);
            crate::preferences::push_str(&mut out, " added to ");
            crate::preferences::push_str(&mut out, target_name.as_str());
        },
        SidebarDropIntent::RemoveFromSource => {
            push_sounds_phrase(&mut out, count);
            crate::preferences::push_str(&mut out, " removed from ");
            crate::preferences::push_str(&mut out, source_name.as_str());
        },
        SidebarDropIntent::MoveBetweenCustomTabs => {
            push_sounds_phrase(&mut out, count);
            crate::preferences::push_str(&mut out, " moved to ");
            crate::preferences::push_str(&mut out, target_name.as_str());
        },
    }
    let n = out.len();
    let message = crate::text::string_from_chars(&out, 0, n);
    proof {
        assert(out@.subrange(0, n as int) =~= out@);
    }
    Some(message)
}

/// A manual tab as the sidebar lists it: its public id and its name.
#[derive(Clone, Debug, PartialEq, Eq)]
pub struct TabName {
    pub public_id: String,
    pub name: String,
}

/// The name of the first tab in `tabs` with id `tab_id`, if any.
pub open spec fn tab_name_of(tabs: Seq<TabName>, tab_id: Seq<char>) -> Option<Seq<char>>
    decreases tabs.len(),
{
    if tabs.len() == 0 {
        None
    } else if tabs[0].public_id@ == tab_id {
        Some(tabs[0].name@)
    } else {
        tab_name_of(tabs.drop_first(), tab_id)
    }
}

/// What a tab is called in toasts: "General" for the general tab, the
/// tab's name for a known manual tab, its id otherwise.
pub fn tab_display_name(tab_id: &String, tabs: &Vec<TabName>) -> (name: String)
    ensures
        tab_id@ == general_id() ==> name@ == "General"@,
        tab_id@ != general_id() ==> name@ == match tab_name_of(tabs@, tab_id@) {
            Some(n) => n,
            None => tab_id@,
        },
{
    if *tab_id == general_tab_id() {
        let v = crate::text::chars_of("General");
        let name = crate::text::string_from_chars(&v, 0, v.len());
        proof {
            assert(v@.subrange(0, v@.len() as int) =~= v@);
        }
        return name;
    }
    let mut k: usize = 0;
    proof {
        assert(tabs@.skip(0) =~= tabs@);
    }
    while k < tabs.len()
        invariant
            k <= tabs@.len(),
            tab_id@ != general_id(),
            tab_name_of(tabs@, tab_id@) == tab_name_of(tabs@.skip(k as int), tab_id@),
        decreases tabs@.len() - k,
    {
        proof {
            assert(tabs@.skip(k as int).drop_first() =~= tabs@.skip(k + 1));
        }
        if tabs[k].public_id == *tab_id {
            return tabs[k].name.clone();
        }
        k += 1;
    }
    tab_id.clone()
}

/// Whether a drag over the tab list offers to copy: only over a row that
/// names a tab. (Every drop intent copies, a no-op one too.)
pub fn drag_offers_copy(hovered_tab_id: Option<&str>) -> (copy: bool)
    ensures
        copy == match hovered_tab_id {
            Some(id) => !crate::text::is_blank(id@),
            None => false,
        },
{
    match hovered_tab_id {
        Some(id) => !crate::text::is_blank_str(id),
        None => false,
    }
}

/// Collects the ids of a folder's sounds page by page, until a page comes
/// back short.
pub struct FolderSoundCollector {
    ids: Vec<String>,
    page: usize,
    done: bool,
}

impl FolderSoundCollector {
    pub closed spec fn collected(&self) -> Seq<Seq<char>> {
        self.ids.deep_view()
    }

    /// The page to ask for next, unless collecting is done.
    pub closed spec fn next_page(&self) -> Option<usize> {
        if self.done {
            None
        } else {
            Some(self.page)
        }
    }

    pub fn new() -> (collector: Self)
        ensures
            collector.collected() == Seq::<Seq<char>>::empty(),
            collector.next_page() == Some(0usize),
    {
        let collector = FolderSoundCollector { ids: Vec::new(), page: 0, done: false };
        assert(collector.ids.deep_view() =~= Seq::<Seq<char>>::empty());
        collector
    }

    /// The page to ask for next, unless collecting is done.
    pub fn page_to_fetch(&self) -> (page: Option<usize>)
        ensures
            page == self.next_page(),
    {
        if self.done {
            None
        } else {
            Some(self.page)
        }
    }

    /// The ids of the page asked for arrived: they are added, and collecting
    /// is done when the page came back short.
    pub fn add_page(&mut self, page_ids: Vec<String>)
        requires
            old(self).next_page() is Some,
            old(self).next_page().unwrap() < usize::MAX,
        ensures
            final(self).collected() == old(self).collected() + page_ids.deep_view(),
            final(self).next_page() == if page_ids@.len() < crate::sibling_pager::PAGE_SIZE {
                None
            } else {
                Some((old(self).next_page().unwrap() + 1) as usize)
            },
    {
        let is_last = page_ids.len() < crate::sibling_pager::PAGE_SIZE;
        let ghost before = self.ids.deep_view();
        let mut k: usize = 0;
        while k < page_ids.len()
            invariant
                k <= page_ids@.len(),
                self.ids.deep_view() == before + page_ids.deep_view().take(k as int),
                self.page == old(self).page,
                self.done == old(self).done,
            decreases page_ids@.len() - k,
        {
            let ghost mid = self.ids.deep_view();
            self.ids.push(page_ids[k].clone());
            proof {
                assert(self.ids.deep_view() =~= mid.push(page_ids.deep_view()[k as int]));
                assert(page_ids.deep_view().take(k + 1) =~= page_ids.deep_view().take(k as int).push(page_ids.deep_view()[k as int]));
                assert(before + page_ids.deep_view().take(k + 1) =~= (before + page_ids.deep_view().take(k as int)).push(page_ids.deep_view()[k as int]));
            }
            k += 1;
        }
        proof {
            assert(page_ids.deep_view().take(k as int) =~= page_ids.deep_view());
        }
        if is_last {
            self.done = true;
        } else {
            self.page = self.page + 1;
        }
    }

    /// The ids collected, in order.
    pub fn into_ids(self) -> (ids: Vec<String>)
        ensures
            ids.deep_view() == self.collected(),
    {
        self.ids
    }
}


/// A tab's scope key selects the tab back: for every tab id, general or
/// manual, the identity of its scope key is the id itself.
pub proof fn scope_key_round_trips(tab_id: Seq<char>)
    ensures
        tab_identity_spec(tab_scope_key_spec(tab_id)) == Some(tab_id),
{
    if tab_id != general_id() {
        let key = tab_prefix() + tab_id;
        assert(key[0] == 't');
        assert(key != general_id()) by {
            assert(general_id()[0] == 'g');
        }
        assert(key.take(4) =~= tab_prefix());
        assert(key.skip(4) =~= tab_id);
    }
}

/// The general tab and the manual tabs use separate scope keys: no manual
/// tab's key is the general tab's.
pub proof fn manual_scope_keys_never_name_general(tab_id: Seq<char>)
    requires
        tab_id != general_id(),
    ensures
        tab_scope_key_spec(tab_id) != general_id(),
{
    let key = tab_prefix() + tab_id;
    assert(key[0] == 't');
    assert(general_id()[0] == 'g');
}

/// Dropping from one tab onto another and back mirror each other: adding
/// to a tab from the general tab is the reverse of removing from it onto
/// the general tab, and a move between manual tabs is a move either way.
pub proof fn drop_intents_mirror(source: Seq<char>, target: Seq<char>)
    ensures
        (drop_intent_spec(source, target) == SidebarDropIntent::AddToTarget) <==> (drop_intent_spec(
            target,
            source,
        ) == SidebarDropIntent::RemoveFromSource),
        (drop_intent_spec(source, target) == SidebarDropIntent::MoveBetweenCustomTabs) <==> (
        drop_intent_spec(target, source) == SidebarDropIntent::MoveBetweenCustomTabs),
        (drop_intent_spec(source, target) == SidebarDropIntent::Noop) <==> (drop_intent_spec(
            target,
            source,
        ) == SidebarDropIntent::Noop),
{
}

/// A folder dropped before or after one of `count` sibling rows lands on
/// one of the `count` places.
pub proof fn reorder_target_stays_in_range(dragged_index: int, target_index: int, after: bool, count: int)
    requires
        0 <= dragged_index < count,
        0 <= target_index < count,
    ensures
        0 <= reorder_target_spec(dragged_index, target_index, after) < count,
{
}

} // verus!
