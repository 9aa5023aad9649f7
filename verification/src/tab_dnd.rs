//! Drag payloads exchanged between the sound list, the tab list and the
//! folder tree, and the rules that make a payload acceptable.

use vstd::prelude::*;

use crate::text::{is_blank, is_blank_str, trim_seq, trimmed};

verus! {

/// MIME type of a drag that carries sounds.
pub const SOUND_TAB_DND_MIME: &'static str = "application/x-lsb-sound-tab-dnd";

/// MIME type of a drag that carries a whole folder. Folder drags get their
/// own type so that a folder drop can never be mistaken for a sound drop.
pub const FOLDER_DND_MIME: &'static str = "application/x-lsb-folder-dnd";

/// The folder a sound drag started from.
#[derive(Debug, Clone, PartialEq, Eq)]
pub struct FolderDragContext {
    pub root_path: String,
    pub relative_path: String,
}

/// Sounds dragged out of a tab or a folder.
#[derive(Debug, Clone)]
pub struct SoundTabDragPayload {
    pub source_tab_id: String,
    pub source_folder: Option<FolderDragContext>,
    pub sound_ids: Vec<String>,
}

/// A folder dragged inside the folder tree.
#[derive(Debug, Clone, PartialEq, Eq)]
pub struct FolderDragPayload {
    pub root_path: String,
    pub relative_path: String,
    /// Parent of the dragged folder, `None` at top level.
    pub parent_relative_path: Option<String>,
}

/// Where a pointer sits within a folder row during a drag.
#[derive(Debug, Clone, Copy, PartialEq, Eq, Structural)]
pub enum FolderDropZone {
    /// Insert above this row.
    Before,
    /// Merge into this row's folder.
    Into,
    /// Insert below this row.
    After,
}

/// The ids kept by normalisation: each id trimmed, blank ones dropped, and
/// only the first occurrence of each trimmed id kept, in the original order.
pub open spec fn normalized_ids(ids: Seq<Seq<char>>) -> Seq<Seq<char>>
    decreases ids.len(),
{
    if ids.len() == 0 {
        Seq::empty()
    } else {
        let kept = normalized_ids(ids.drop_last());
        let t = trim_seq(ids.last());
        if t.len() == 0 || kept.contains(t) {
            kept
        } else {
            kept.push(t)
        }
    }
}

pub open spec fn context_view(c: Option<FolderDragContext>) -> Option<(Seq<char>, Seq<char>)> {
    match c {
        Some(c) => Some((c.root_path@, c.relative_path@)),
        None => None,
    }
}

/// `true` when `v` holds a string equal to `s`.
pub fn contains_string(v: &Vec<String>, s: &String) -> (b: bool)
    ensures
        b == v.deep_view().contains(s@),
{
    let mut k: usize = 0;
    while k < v.len()
        invariant
            k <= v.len(),
            forall|m: int| 0 <= m < k ==> v.deep_view()[m] != s@,
        decreases v.len() - k,
    {
        if v[k] == *s {
            assert(v.deep_view()[k as int] == s@);
            return true;
        }
        k += 1;
    }
    false
}

impl FolderDragContext {
    pub fn same_folder(&self, other: &FolderDragContext) -> (b: bool)
        ensures
            b == (self.root_path@ == other.root_path@ && self.relative_path@
                == other.relative_path@),
    {
        self.root_path == other.root_path && self.relative_path == other.relative_path
    }
}

impl SoundTabDragPayload {
    /// Trims every sound id, drops blank ids and repeats, and refuses a
    /// payload that has no sound left.
    pub fn normalized(self) -> (r: Option<Self>)
        ensures
            r is None <==> normalized_ids(self.sound_ids.deep_view()).len() == 0,
            r matches Some(p) ==> {
                &&& p.source_tab_id@ == self.source_tab_id@
                &&& context_view(p.source_folder) == context_view(self.source_folder)
                &&& p.sound_ids.deep_view() == normalized_ids(self.sound_ids.deep_view())
            },
    {
        let ids = self.sound_ids;
        let ghost all = ids.deep_view();
        let mut deduped: Vec<String> = Vec::new();
        let mut i: usize = 0;
        assert(all.take(0) == Seq::<Seq<char>>::empty());
        while i < ids.len()
            invariant
                i <= ids.len(),
                all == ids.deep_view(),
                deduped.deep_view() == normalized_ids(all.take(i as int)),
            decreases ids.len() - i,
        {
            let t = trimmed(ids[i].as_str());
            proof {
                assert(all.take(i + 1).drop_last() == all.take(i as int));
                assert(all.take(i + 1).last() == ids[i as int]@);
            }
            if t.as_str().is_empty() {
            } else if !contains_string(&deduped, &t) {
                deduped.push(t);
                assert(deduped.deep_view() == normalized_ids(all.take(i as int)).push(
                    trim_seq(ids[i as int]@),
                ));
            }
            i += 1;
        }
        assert(all.take(ids.len() as int) == all);
        if deduped.len() == 0 {
            return None;
        }
        Some(SoundTabDragPayload {
            source_tab_id: self.source_tab_id,
            source_folder: self.source_folder,
            sound_ids: deduped,
        })
    }
}

impl FolderDragPayload {
    /// A folder drag names a root and a folder under it; one whose root or
    /// relative path is blank identifies nothing and is refused.
    pub fn validated(self) -> (r: Option<Self>)
        ensures
            r is Some <==> !is_blank(self.root_path@) && !is_blank(self.relative_path@),
            r matches Some(p) ==> p == self,
    {
        if is_blank_str(self.root_path.as_str()) || is_blank_str(self.relative_path.as_str()) {
            None
        } else {
            Some(self)
        }
    }
}


proof fn lemma_normalized_shape(ids: Seq<Seq<char>>)
    ensures
        normalized_ids(ids).no_duplicates(),
        forall|k: int|
            0 <= k < normalized_ids(ids).len() ==> (#[trigger] normalized_ids(ids)[k]).len() > 0
                && trim_seq(normalized_ids(ids)[k]) == normalized_ids(ids)[k],
    decreases ids.len(),
{
    if ids.len() > 0 {
        lemma_normalized_shape(ids.drop_last());
        let kept = normalized_ids(ids.drop_last());
        let t = trim_seq(ids.last());
        crate::text::lemma_trim_idempotent(ids.last());
        if !(t.len() == 0 || kept.contains(t)) {
            let r = kept.push(t);
            assert forall|a: int, b: int|
                0 <= a < r.len() && 0 <= b < r.len() && a != b implies r[a] != r[b] by {
                if a == r.len() - 1 {
                    assert(kept.contains(r[b]));
                } else if b == r.len() - 1 {
                    assert(kept.contains(r[a]));
                } else {
                    assert(r[a] == kept[a]);
                    assert(r[b] == kept[b]);
                }
            }
        }
    }
}

proof fn lemma_normalized_fixed(r: Seq<Seq<char>>)
    requires
        r.no_duplicates(),
        forall|k: int| 0 <= k < r.len() ==> (#[trigger] r[k]).len() > 0 && trim_seq(r[k]) == r[k],
    ensures
        normalized_ids(r) == r,
    decreases r.len(),
{
    if r.len() > 0 {
        let p = r.drop_last();
        assert forall|k: int| 0 <= k < p.len() implies (#[trigger] p[k]).len() > 0 && trim_seq(p[k])
            == p[k] by {
            assert(p[k] == r[k]);
        }
        lemma_normalized_fixed(p);
        assert(!p.contains(r.last())) by {
            if p.contains(r.last()) {
                let j = choose|j: int| 0 <= j < p.len() && p[j] == r.last();
                assert(r[j] == r[r.len() - 1]);
            }
        }
        assert(p.push(r.last()) =~= r);
    }
}

/// Normalizing a payload's sound ids twice keeps what normalizing once
/// kept.
pub proof fn normalizing_twice_changes_nothing(ids: Seq<Seq<char>>)
    ensures
        normalized_ids(normalized_ids(ids)) == normalized_ids(ids),
{
    lemma_normalized_shape(ids);
    lemma_normalized_fixed(normalized_ids(ids));
}

} // verus!
