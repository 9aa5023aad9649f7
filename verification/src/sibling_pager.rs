//! Paging of a folder's children in the folder tree.
//!
//! Children are fetched a page at a time. At most one page is in flight; a
//! page asked for meanwhile is remembered and fetched next, nearest to the
//! viewport first. Only a few pages stay materialized: the ones farthest
//! from the page in view are swapped back to placeholders.

use std::collections::BTreeSet;
use vstd::prelude::*;
use vstd::std_specs::btree::spec_btree_keys_iter;
use vstd::std_specs::iter::IteratorSpec;

verus! {

/// Rows per page of a library listing.
pub const PAGE_SIZE: usize = 256;

/// Prefetch distance from the loaded end.
pub const SIBLING_PREFETCH_MARGIN: usize = 32;

/// Pages of one folder's children kept materialized at once.
pub const MAX_LOADED_SIBLING_PAGES: usize = 6;

/// Above this many loaded rows in the whole tree, collapsing a folder frees
/// its children.
pub const MAX_RETAINED_CHILD_ROWS: usize = 4096;

pub open spec fn dist(a: int, b: int) -> int {
    if a >= b {
        a - b
    } else {
        b - a
    }
}

pub fn abs_diff(a: usize, b: usize) -> (d: usize)
    ensures
        d == dist(a as int, b as int),
{
    if a >= b {
        a - b
    } else {
        b - a
    }
}

/// A set of pages holds finitely many pages.
pub proof fn lemma_page_set_finite(pages: &BTreeSet<usize>)
    ensures
        pages@.finite(),
{
    let walked = spec_btree_keys_iter(pages).remaining().unref();
    assert(walked.to_set() == pages@);
    vstd::seq_lib::seq_to_set_is_finite(walked);
}

/// `p` is at least as good a candidate for eviction as `q`: farther from
/// `keep_near`, or as far and not higher.
pub open spec fn evicts_before(p: usize, q: usize, keep_near: usize) -> bool {
    dist(p as int, keep_near as int) > dist(q as int, keep_near as int) || (dist(
        p as int,
        keep_near as int,
    ) == dist(q as int, keep_near as int) && p <= q)
}

/// `p` is the page to drop from `pages` when keeping pages near `keep_near`:
/// no page is farther away, and among equally far pages it is the lowest.
pub open spec fn is_page_to_evict(pages: Set<usize>, keep_near: usize, p: usize) -> bool {
    &&& pages.contains(p)
    &&& forall|q: usize| #![trigger pages.contains(q)] pages.contains(q) ==> evicts_before(p, q, keep_near)
}

/// The page to evict once more than `max_pages` pages are loaded: the one
/// farthest from `keep_near`, the lower one on a tie.
pub fn page_to_evict(loaded_pages: &BTreeSet<usize>, keep_near: usize, max_pages: usize) -> (victim:
    Option<usize>)
    ensures
        victim is None <==> loaded_pages@.len() <= max_pages,
        victim matches Some(p) ==> is_page_to_evict(loaded_pages@, keep_near, p),
{
    if loaded_pages.len() <= max_pages {
        return None;
    }
    let mut best: Option<usize> = None;
    for x in it: loaded_pages.iter()
        invariant
            it.seq() == spec_btree_keys_iter(loaded_pages).remaining(),
            it.seq().unref().to_set() == loaded_pages@,
            it.seq().len() == loaded_pages@.len(),
            best is None ==> it.index() == 0,
            best matches Some(b) ==> {
                &&& loaded_pages@.contains(b)
                &&& forall|j: int| 0 <= j < it.index() ==> evicts_before(b, *it.seq()[j], keep_near)
            },
    {
        let candidate = *x;
        match best {
            None => {
                best = Some(candidate);
            },
            Some(b) => {
                let dc = abs_diff(candidate, keep_near);
                let db = abs_diff(b, keep_near);
                if dc > db || (dc == db && candidate < b) {
                    best = Some(candidate);
                }
            },
        }
    }
    match best {
        Some(b) => {
            proof {
                let walked = spec_btree_keys_iter(loaded_pages).remaining();
                assert forall|q: usize| #![trigger loaded_pages@.contains(q)]
                    loaded_pages@.contains(q) implies evicts_before(b, q, keep_near) by {
                    assert(walked.unref().to_set().contains(q));
                    let j = choose|j: int| 0 <= j < walked.unref().len() && walked.unref()[j] == q;
                    assert(*walked[j] == q);
                }
            }
            Some(b)
        },
        None => None,
    }
}

/// `p` is the pending page to fetch next: pending, not loaded yet, and
/// nearest to `focus`, the lower one on a tie.
pub open spec fn is_next_pending(pending: Set<usize>, loaded: Set<usize>, focus: usize, p: usize)
    -> bool {
    &&& pending.contains(p)
    &&& !loaded.contains(p)
    &&& forall|q: usize|
        #![trigger pending.contains(q)]
        pending.contains(q) && !loaded.contains(q) ==> dist(p as int, focus as int) < dist(
            q as int,
            focus as int,
        ) || (dist(p as int, focus as int) == dist(q as int, focus as int) && p <= q)
}

/// The remembered page to fetch next, if any is still unloaded.
pub fn next_pending_page(pending: &BTreeSet<usize>, loaded: &BTreeSet<usize>, focus: usize) -> (next:
    Option<usize>)
    ensures
        next is None <==> forall|q: usize|
            #![trigger pending@.contains(q)]
            pending@.contains(q) ==> loaded@.contains(q),
        next matches Some(p) ==> is_next_pending(pending@, loaded@, focus, p),
{
    let mut best: Option<usize> = None;
    for x in it: pending.iter()
        invariant
            it.seq() == spec_btree_keys_iter(pending).remaining(),
            it.seq().unref().to_set() == pending@,
            best is None ==> forall|j: int| 0 <= j < it.index() ==> loaded@.contains(*it.seq()[j]),
            best matches Some(b) ==> {
                &&& pending@.contains(b)
                &&& !loaded@.contains(b)
                &&& forall|j: int|
                    0 <= j < it.index() && !loaded@.contains(*it.seq()[j]) ==> dist(
                        b as int,
                        focus as int,
                    ) < dist(*it.seq()[j] as int, focus as int) || (dist(b as int, focus as int)
                        == dist(*it.seq()[j] as int, focus as int) && b <= *it.seq()[j])
            },
    {
        let candidate = *x;
        proof {
            assert(it.seq().unref()[it.index() as int] == candidate);
        }
        if !loaded.contains(&candidate) {
            match best {
                None => {
                    best = Some(candidate);
                },
                Some(b) => {
                    let dc = abs_diff(candidate, focus);
                    let db = abs_diff(b, focus);
                    if dc < db || (dc == db && candidate < b) {
                        best = Some(candidate);
                    }
                },
            }
        }
    }
    proof {
        let walked = spec_btree_keys_iter(pending).remaining();
        assert forall|q: usize| #![trigger pending@.contains(q)] pending@.contains(q) implies exists|
            j: int,
        | 0 <= j < walked.len() && *walked[j] == q by {
            assert(walked.unref().to_set().contains(q));
            let j = choose|j: int| 0 <= j < walked.unref().len() && walked.unref()[j] == q;
            assert(*walked[j] == q);
        }
    }
    best
}

/// Ask for the next page once the row at `child_index` is within the
/// prefetch margin of the loaded end, unless nothing more exists or a page
/// is already on its way.
pub fn should_request_next_sibling_page(
    child_index: usize,
    loaded: usize,
    more: bool,
    in_flight: bool,
) -> (request: bool)
    ensures
        request == (more && !in_flight && child_index + SIBLING_PREFETCH_MARGIN >= loaded),
{
    more && !in_flight && (loaded <= SIBLING_PREFETCH_MARGIN || child_index >= loaded
        - SIBLING_PREFETCH_MARGIN)
}

/// A folder's persisted expansion is applied on its first bind only, and
/// never forces a collapse.
pub fn should_restore_expansion(node_expanded: bool, already_restored: bool) -> (restore: bool)
    ensures
        restore == (node_expanded && !already_restored),
{
    node_expanded && !already_restored
}

/// Collapsing frees a folder's children only while the tree holds more rows
/// than the cap.
pub fn should_release_collapsed_children(total_retained_rows: usize, cap: usize) -> (release:
    bool)
    ensures
        release == (total_retained_rows > cap),
{
    total_retained_rows > cap
}

/// A collapsing parent notifies every row; only a real change is handled.
pub fn should_handle_expansion_change(previous: bool, next: bool) -> (handle: bool)
    ensures
        handle == (previous != next),
{
    previous != next
}

/// An expansion change caused by rebuilding the tree is not the user's and
/// is not saved.
pub fn should_persist_expansion_change(changed: bool, rebuilding: bool) -> (persist: bool)
    ensures
        persist == (changed && !rebuilding),
{
    changed && !rebuilding
}

/// A page to fetch, or why none is fetched.
#[derive(Debug, Clone, Copy, PartialEq, Eq, Structural)]
pub enum SiblingPageRequest {
    /// The page is already materialized.
    AlreadyLoaded,
    /// Another page is in flight; this one is remembered for later.
    Queued,
    /// Fetch this page now.
    Fetch(usize),
}

/// Where the rows of a loaded page went among the folder's children.
#[derive(Debug, Clone, Copy, PartialEq, Eq, Structural)]
pub enum ChildPlacement {
    /// Appended at the end, which was at index `at`.
    Appended { at: usize, count: usize },
    /// Placeholders `start..start + count` replaced in place.
    Replaced { start: usize, count: usize },
}

/// Rows of an evicted page, to be swapped for placeholders.
#[derive(Debug, Clone, Copy, PartialEq, Eq, Structural)]
pub struct EvictedRows {
    pub page: usize,
    pub start: usize,
    pub count: usize,
}

/// What a finished page load did and what comes next.
#[derive(Debug, Clone, PartialEq, Eq)]
pub struct PageLoadOutcome {
    pub placement: ChildPlacement,
    pub evicted: Vec<EvictedRows>,
    pub next: Option<SiblingPageRequest>,
}

pub open spec fn min_usize(a: int, b: int) -> int {
    if a <= b {
        a
    } else {
        b
    }
}

/// The rows reported for an evicted page of a folder with `children_len`
/// child rows.
pub open spec fn evicted_rows_of(e: EvictedRows, children_len: usize) -> bool {
    &&& e.start == e.page * PAGE_SIZE
    &&& e.start < children_len
    &&& e.count == min_usize(PAGE_SIZE as int, children_len - e.start)
}

/// Eviction of the pages `before` around `keep_near`, for a folder with
/// `children_len` child rows, leaves the pages `after` and reports `evicted`:
/// the pages farthest from `keep_near` leave until at most
/// `MAX_LOADED_SIBLING_PAGES` stay, and every page that leaves and has rows
/// is reported once, with its rows.
pub open spec fn eviction(
    before: Set<usize>,
    keep_near: usize,
    children_len: usize,
    after: Set<usize>,
    evicted: Seq<EvictedRows>,
) -> bool {
    &&& after.subset_of(before)
    &&& before.len() <= MAX_LOADED_SIBLING_PAGES ==> after == before
    &&& before.len() > MAX_LOADED_SIBLING_PAGES ==> after.len() == MAX_LOADED_SIBLING_PAGES
    &&& forall|p: usize, q: usize|
        #![trigger before.contains(p), after.contains(q)]
        before.contains(p) && !after.contains(p) && after.contains(q) ==> evicts_before(
            p,
            q,
            keep_near,
        )
    &&& forall|k: int|
        0 <= k < evicted.len() ==> {
            let e = #[trigger] evicted[k];
            &&& before.contains(e.page)
            &&& !after.contains(e.page)
            &&& evicted_rows_of(e, children_len)
        }
    &&& forall|p: usize|
        #![trigger before.contains(p), after.contains(p)]
        before.contains(p) && !after.contains(p) && p * PAGE_SIZE < children_len ==> exists|
            k: int,
        |
            0 <= k < evicted.len() && (#[trigger] evicted[k]).page == p
    &&& forall|i: int, j: int|
        0 <= i < evicted.len() && 0 <= j < evicted.len() && i != j ==> (#[trigger] evicted[i]).page
            != (#[trigger] evicted[j]).page
}

/// Paging state of one folder's children.
pub struct SiblingPager {
    /// Children loaded by appending, from the start.
    pub loaded: usize,
    /// The page that extends the loaded end.
    pub next_page: usize,
    /// Whether a page beyond the loaded end may exist.
    pub has_more: bool,
    /// Whether a page request is out.
    pub in_flight: bool,
    /// Materialized pages; the rest are placeholders.
    pub loaded_pages: BTreeSet<usize>,
    /// Page most recently brought into view; eviction keeps its neighbours.
    pub focus_page: usize,
    /// Pages asked for while another was in flight.
    pub pending_pages: BTreeSet<usize>,
    /// Cleared after a failed load, so that the folder can ask again.
    pub children_requested: bool,
    /// Number of child rows, placeholders included.
    pub children_len: usize,
}

impl SiblingPager {
    /// Every loaded page starts at a row index that fits in a `usize`.
    pub open spec fn wf(&self) -> bool {
        forall|p: usize|
            #![trigger self.loaded_pages@.contains(p)]
            self.loaded_pages@.contains(p) ==> p * PAGE_SIZE <= usize::MAX
    }

    pub open spec fn same_except_loaded_pages(&self, other: &Self) -> bool {
        &&& self.loaded == other.loaded
        &&& self.next_page == other.next_page
        &&& self.has_more == other.has_more
        &&& self.in_flight == other.in_flight
        &&& self.focus_page == other.focus_page
        &&& self.pending_pages@ == other.pending_pages@
        &&& self.children_requested == other.children_requested
        &&& self.children_len == other.children_len
    }

    /// The spec of asking for `page`: nothing when it is loaded, remembered
    /// when another page is in flight, fetched otherwise.
    pub open spec fn request_spec(
        old_pager: &Self,
        new_pager: &Self,
        page: usize,
        r: SiblingPageRequest,
    ) -> bool {
        &&& new_pager.loaded == old_pager.loaded
        &&& new_pager.next_page == old_pager.next_page
        &&& new_pager.has_more == old_pager.has_more
        &&& new_pager.loaded_pages@ == old_pager.loaded_pages@
        &&& new_pager.focus_page == old_pager.focus_page
        &&& new_pager.children_requested == old_pager.children_requested
        &&& new_pager.children_len == old_pager.children_len
        &&& if old_pager.loaded_pages@.contains(page) {
            &&& r == SiblingPageRequest::AlreadyLoaded
            &&& new_pager.in_flight == old_pager.in_flight
            &&& new_pager.pending_pages@ == old_pager.pending_pages@
        } else if old_pager.in_flight {
            &&& r == SiblingPageRequest::Queued
            &&& new_pager.in_flight
            &&& new_pager.pending_pages@ == old_pager.pending_pages@.insert(page)
        } else {
            &&& r == SiblingPageRequest::Fetch(page)
            &&& new_pager.in_flight
            &&& new_pager.pending_pages@ == old_pager.pending_pages@
        }
    }

    /// A pager for a folder whose children list holds `children_len` rows.
    pub fn new(children_len: usize) -> (pager: Self)
        ensures
            pager.wf(),
            pager.loaded == 0,
            pager.next_page == 0,
            pager.has_more,
            !pager.in_flight,
            pager.loaded_pages@ == Set::<usize>::empty(),
            pager.focus_page == 0,
            pager.pending_pages@ == Set::<usize>::empty(),
            pager.children_requested,
            pager.children_len == children_len,
    {
        SiblingPager {
            loaded: 0,
            next_page: 0,
            has_more: true,
            in_flight: false,
            loaded_pages: BTreeSet::new(),
            focus_page: 0,
            pending_pages: BTreeSet::new(),
            children_requested: true,
            children_len,
        }
    }

    /// Lets the folder ask for its children again.
    pub fn mark_reloadable(&mut self)
        ensures
            !final(self).children_requested,
            final(self).loaded == old(self).loaded,
            final(self).next_page == old(self).next_page,
            final(self).has_more == old(self).has_more,
            final(self).in_flight == old(self).in_flight,
            final(self).loaded_pages@ == old(self).loaded_pages@,
            final(self).focus_page == old(self).focus_page,
            final(self).pending_pages@ == old(self).pending_pages@,
            final(self).children_len == old(self).children_len,
    {
        self.children_requested = false;
    }

    /// The page just brought into view.
    pub fn set_focus(&mut self, page: usize)
        ensures
            final(self).focus_page == page,
            final(self).loaded == old(self).loaded,
            final(self).next_page == old(self).next_page,
            final(self).has_more == old(self).has_more,
            final(self).in_flight == old(self).in_flight,
            final(self).loaded_pages@ == old(self).loaded_pages@,
            final(self).pending_pages@ == old(self).pending_pages@,
            final(self).children_requested == old(self).children_requested,
            final(self).children_len == old(self).children_len,
    {
        self.focus_page = page;
    }

    /// Asks for `page`; at most one page is ever in flight.
    pub fn request_page(&mut self, page: usize) -> (r: SiblingPageRequest)
        requires
            old(self).wf(),
        ensures
            final(self).wf(),
            Self::request_spec(old(self), final(self), page, r),
    {
        if self.loaded_pages.contains(&page) {
            return SiblingPageRequest::AlreadyLoaded;
        }
        if self.in_flight {
            self.pending_pages.insert(page);
            return SiblingPageRequest::Queued;
        }
        self.in_flight = true;
        SiblingPageRequest::Fetch(page)
    }

    /// Asks for the page that extends the loaded end.
    pub fn request_next_page(&mut self) -> (r: SiblingPageRequest)
        requires
            old(self).wf(),
        ensures
            final(self).wf(),
            Self::request_spec(old(self), final(self), old(self).next_page, r),
    {
        let page = self.next_page;
        self.request_page(page)
    }

    /// The request could not be sent: nothing is in flight, and the folder
    /// may ask again.
    pub fn dispatch_failed(&mut self)
        ensures
            !final(self).in_flight,
            !final(self).children_requested,
            final(self).loaded == old(self).loaded,
            final(self).next_page == old(self).next_page,
            final(self).has_more == old(self).has_more,
            final(self).loaded_pages@ == old(self).loaded_pages@,
            final(self).focus_page == old(self).focus_page,
            final(self).pending_pages@ == old(self).pending_pages@,
            final(self).children_len == old(self).children_len,
    {
        self.in_flight = false;
        self.mark_reloadable();
    }


    /// Swaps the pages farthest from the focus page back to placeholders
    /// until at most `MAX_LOADED_SIBLING_PAGES` pages stay loaded, and
    /// returns the rows of each evicted page that has rows.
    pub fn evict_distant_pages(&mut self) -> (evicted: Vec<EvictedRows>)
        requires
            old(self).wf(),
        ensures
            final(self).wf(),
            final(self).same_except_loaded_pages(old(self)),
            eviction(
                old(self).loaded_pages@,
                old(self).focus_page,
                old(self).children_len,
                final(self).loaded_pages@,
                evicted@,
            ),
    {
        let ghost before = self.loaded_pages@;
        proof {
            lemma_page_set_finite(&self.loaded_pages);
        }
        let mut evicted: Vec<EvictedRows> = Vec::new();
        loop
            invariant
                self.wf(),
                self.same_except_loaded_pages(old(self)),
                before == old(self).loaded_pages@,
                before.finite(),
                self.loaded_pages@.finite(),
                self.loaded_pages@.subset_of(before),
                before.len() <= MAX_LOADED_SIBLING_PAGES ==> self.loaded_pages@ == before,
                before.len() > MAX_LOADED_SIBLING_PAGES ==> self.loaded_pages@.len()
                    >= MAX_LOADED_SIBLING_PAGES,
                forall|p: usize, q: usize|
                    #![trigger before.contains(p), self.loaded_pages@.contains(q)]
                    before.contains(p) && !self.loaded_pages@.contains(p)
                        && self.loaded_pages@.contains(q) ==> evicts_before(
                        p,
                        q,
                        old(self).focus_page,
                    ),
                forall|k: int|
                    0 <= k < evicted@.len() ==> {
                        let e = #[trigger] evicted@[k];
                        &&& before.contains(e.page)
                        &&& !self.loaded_pages@.contains(e.page)
                        &&& evicted_rows_of(e, old(self).children_len)
                    },
                forall|p: usize|
                    #![trigger before.contains(p), self.loaded_pages@.contains(p)]
                    before.contains(p) && !self.loaded_pages@.contains(p) && p * PAGE_SIZE
                        < old(self).children_len ==> exists|k: int|
                        0 <= k < evicted@.len() && (#[trigger] evicted@[k]).page == p,
                forall|i: int, j: int|
                    0 <= i < evicted@.len() && 0 <= j < evicted@.len() && i != j ==> (
                    #[trigger] evicted@[i]).page != (#[trigger] evicted@[j]).page,
            ensures
                self.wf(),
                self.same_except_loaded_pages(old(self)),
                eviction(
                    before,
                    old(self).focus_page,
                    old(self).children_len,
                    self.loaded_pages@,
                    evicted@,
                ),
            decreases self.loaded_pages@.len(),
        {
            let victim = page_to_evict(&self.loaded_pages, self.focus_page, MAX_LOADED_SIBLING_PAGES);
            let page = match victim {
                Some(p) => p,
                None => break,
            };
            let ghost current = self.loaded_pages@;
            let ghost evicted_before = evicted@;
            assert(current.contains(page));
            assert(page * PAGE_SIZE <= usize::MAX);
            let start = page * PAGE_SIZE;
            let total = self.children_len;
            self.loaded_pages.remove(&page);
            proof {
                assert(self.loaded_pages@ == current.remove(page));
                assert forall|k: int| 0 <= k < evicted@.len() implies (#[trigger] evicted@[k]).page
                    != page by {
                    assert(!current.contains(evicted@[k].page));
                }
            }
            if start < total {
                let count = if PAGE_SIZE < total - start {
                    PAGE_SIZE
                } else {
                    total - start
                };
                evicted.push(EvictedRows { page, start, count });
            }
            proof {
                assert forall|k: int| 0 <= k < evicted_before.len() implies evicted@[k]
                    == evicted_before[k] by {}
                assert forall|p: usize|
                    before.contains(p) && !self.loaded_pages@.contains(p) && p * PAGE_SIZE
                        < old(self).children_len implies exists|k: int|
                    0 <= k < evicted@.len() && (#[trigger] evicted@[k]).page == p by {
                    if p == page {
                        assert(evicted@[evicted@.len() - 1].page == p);
                    } else {
                        assert(!current.contains(p));
                        let k = choose|k: int|
                            0 <= k < evicted_before.len() && (#[trigger] evicted_before[k]).page == p;
                        assert(evicted@[k] == evicted_before[k]);
                    }
                }
            }
        }
        evicted
    }

    /// Starts the remembered page nearest to the focus page, if any; drops
    /// the remembered pages once none is left to load.
    pub fn drain_pending(&mut self) -> (r: Option<SiblingPageRequest>)
        requires
            old(self).wf(),
        ensures
            final(self).wf(),
            r is None <==> forall|q: usize|
                #![trigger old(self).pending_pages@.contains(q)]
                old(self).pending_pages@.contains(q) ==> old(self).loaded_pages@.contains(q),
            r is None ==> {
                &&& final(self).pending_pages@ == Set::<usize>::empty()
                &&& final(self).in_flight == old(self).in_flight
            },
            r is Some ==> exists|p: usize|
                {
                    &&& is_next_pending(
                        old(self).pending_pages@,
                        old(self).loaded_pages@,
                        old(self).focus_page,
                        p,
                    )
                    &&& (if old(self).in_flight {
                        &&& r == Some(SiblingPageRequest::Queued)
                        &&& final(self).pending_pages@ == old(self).pending_pages@
                    } else {
                        &&& r == Some(SiblingPageRequest::Fetch(p))
                        &&& final(self).pending_pages@ == old(self).pending_pages@.remove(p)
                    })
                    &&& final(self).in_flight
                },
            final(self).loaded == old(self).loaded,
            final(self).next_page == old(self).next_page,
            final(self).has_more == old(self).has_more,
            final(self).loaded_pages@ == old(self).loaded_pages@,
            final(self).focus_page == old(self).focus_page,
            final(self).children_requested == old(self).children_requested,
            final(self).children_len == old(self).children_len,
    {
        let next = next_pending_page(&self.pending_pages, &self.loaded_pages, self.focus_page);
        match next {
            None => {
                self.pending_pages.clear();
                None
            },
            Some(page) => {
                self.pending_pages.remove(&page);
                let r = self.request_page(page);
                proof {
                    if old(self).in_flight {
                        assert(old(self).pending_pages@.remove(page).insert(page)
                            =~= old(self).pending_pages@);
                    }
                }
                Some(r)
            },
        }
    }

    /// A page of `count` children arrived: place it, mark the page loaded,
    /// evict distant pages and start the next remembered page.
    pub fn page_loaded(&mut self, page: usize, count: usize) -> (outcome: PageLoadOutcome)
        requires
            old(self).wf(),
            page * PAGE_SIZE + count <= usize::MAX,
            old(self).children_len + count <= usize::MAX,
        ensures
            final(self).wf(),
            !final(self).in_flight || outcome.next matches Some(SiblingPageRequest::Fetch(_)),
            final(self).loaded_pages@.len() <= MAX_LOADED_SIBLING_PAGES,
            page * PAGE_SIZE >= old(self).children_len ==> {
                &&& outcome.placement == ChildPlacement::Appended {
                    at: old(self).children_len,
                    count,
                }
                &&& final(self).children_len == old(self).children_len + count
                &&& final(self).loaded == page * PAGE_SIZE + count
                &&& final(self).next_page == (if page == usize::MAX {
                    page
                } else {
                    (page + 1) as usize
                })
                &&& final(self).has_more == (count == PAGE_SIZE)
            },
            page * PAGE_SIZE < old(self).children_len ==> {
                &&& outcome.placement == ChildPlacement::Replaced {
                    start: (page * PAGE_SIZE) as usize,
                    count: min_usize(count as int, old(self).children_len - page * PAGE_SIZE)
                        as usize,
                }
                &&& final(self).children_len == old(self).children_len
                &&& final(self).loaded == old(self).loaded
                &&& final(self).next_page == old(self).next_page
                &&& final(self).has_more == old(self).has_more
            },
            final(self).children_requested == old(self).children_requested,
            final(self).focus_page == old(self).focus_page,
            eviction(
                old(self).loaded_pages@.insert(page),
                old(self).focus_page,
                final(self).children_len,
                final(self).loaded_pages@,
                outcome.evicted@,
            ),
            final(self).loaded_pages@.contains(page) || page * PAGE_SIZE >= final(self).children_len
                || exists|k: int|
                0 <= k < outcome.evicted@.len() && (#[trigger] outcome.evicted@[k]).page == page,
            outcome.next is None <==> forall|q: usize|
                #![trigger old(self).pending_pages@.contains(q)]
                old(self).pending_pages@.contains(q) ==> final(self).loaded_pages@.contains(q),
            outcome.next is None ==> final(self).pending_pages@ == Set::<usize>::empty(),
            outcome.next matches Some(r) ==> exists|p: usize|
                is_next_pending(
                    old(self).pending_pages@,
                    final(self).loaded_pages@,
                    old(self).focus_page,
                    p,
                ) && r == SiblingPageRequest::Fetch(p) && final(self).pending_pages@ == old(
                    self,
                ).pending_pages@.remove(p),
    {
        let start_index = page * PAGE_SIZE;
        let existing = self.children_len;
        let placement = if start_index >= existing {
            self.children_len = existing + count;
            self.loaded = start_index + count;
            self.next_page = if page == usize::MAX {
                page
            } else {
                page + 1
            };
            self.has_more = count == PAGE_SIZE;
            ChildPlacement::Appended { at: existing, count }
        } else {
            let replaced = if count < existing - start_index {
                count
            } else {
                existing - start_index
            };
            ChildPlacement::Replaced { start: start_index, count: replaced }
        };
        self.loaded_pages.insert(page);
        self.in_flight = false;
        let evicted = self.evict_distant_pages();
        proof {
            let with_page = old(self).loaded_pages@.insert(page);
            assert(with_page.contains(page));
            if !self.loaded_pages@.contains(page) && page * PAGE_SIZE < self.children_len {
                assert(with_page.contains(page) && !self.loaded_pages@.contains(page));
                assert(exists|k: int|
                    0 <= k < evicted@.len() && (#[trigger] evicted@[k]).page == page);
            }
        }
        let next = self.drain_pending();
        let outcome = PageLoadOutcome { placement, evicted, next };
        assert(outcome.evicted@ == evicted@);
        outcome
    }

    /// The page request failed: stop paging further, let the folder ask
    /// again, and start the next remembered page.
    pub fn page_failed(&mut self) -> (next: Option<SiblingPageRequest>)
        requires
            old(self).wf(),
        ensures
            final(self).wf(),
            !final(self).has_more,
            !final(self).children_requested,
            !final(self).in_flight || next matches Some(SiblingPageRequest::Fetch(_)),
            final(self).loaded_pages@ == old(self).loaded_pages@,
            final(self).loaded == old(self).loaded,
            final(self).next_page == old(self).next_page,
            final(self).focus_page == old(self).focus_page,
            final(self).children_len == old(self).children_len,
            next is None <==> forall|q: usize|
                #![trigger old(self).pending_pages@.contains(q)]
                old(self).pending_pages@.contains(q) ==> old(self).loaded_pages@.contains(q),
            next is None ==> final(self).pending_pages@ == Set::<usize>::empty()
                && !final(self).in_flight,
            next matches Some(r) ==> exists|p: usize|
                is_next_pending(
                    old(self).pending_pages@,
                    old(self).loaded_pages@,
                    old(self).focus_page,
                    p,
                ) && r == SiblingPageRequest::Fetch(p) && final(self).pending_pages@ == old(
                    self,
                ).pending_pages@.remove(p) && final(self).in_flight,
    {
        self.has_more = false;
        self.in_flight = false;
        self.mark_reloadable();
        self.drain_pending()
    }

    /// Whether binding the child at `child_index` should fetch the next page.
    pub fn should_request_more(&self, child_index: usize) -> (request: bool)
        ensures
            request == (self.has_more && !self.in_flight && child_index + SIBLING_PREFETCH_MARGIN
                >= self.loaded),
    {
        should_request_next_sibling_page(child_index, self.loaded, self.has_more, self.in_flight)
    }
}

} // verus!
