//! The page cache behind the virtualised sound list.
//!
//! The list shows every sound of the current scope, but only a few pages of
//! rows are ever held. A page is fetched when it scrolls into view; at most
//! two fetches run at once and at most two more wait their turn, the latest
//! ones winning. Pages leave the cache least recently used first, once more
//! than four are held or their rows weigh more than two mebibytes. Every
//! reload starts a new generation, and a reply that belongs to an older one
//! changes nothing.
//!
//! The cache decides; the list widget that owns it performs what each call
//! hands back: page requests to send, row-count changes to announce, and row
//! replacements to announce a chunk at a time.

use vstd::prelude::*;
use crate::sibling_pager::PAGE_SIZE;

verus! {

/// Pages held at once.
pub const MAX_CACHED_PAGES: usize = 4;

/// Row payload held at once, in bytes.
pub const MAX_CACHED_PAYLOAD_BYTES: usize = 2 * 1024 * 1024;

/// Page fetches in flight at once, and visible pages waiting for a slot.
pub const MAX_PENDING_PAGE_LOADS: usize = 2;

/// Rows announced per replacement notification.
pub const ROW_CHANGE_CHUNK: u32 = 64;

/// What a row shows before its page arrives.
pub const LOADING_ROW_NAME: &'static str = "Loading…";

/// What a row shows once its page failed to load.
pub const FAILED_ROW_NAME: &'static str = "Load failed — activate to retry";

/// A fetched row: the sound's id, what the list shows of it, and its
/// payload in bytes as its builder measured it.
pub struct LoadedRow<T> {
    pub id: String,
    pub data: T,
    pub bytes: usize,
}

/// A row of a cached page.
pub enum RowSlot<T> {
    /// Not fetched yet.
    Loading,
    /// Its page failed to load; activating it retries.
    Failed,
    /// A fetched row.
    Loaded(LoadedRow<T>),
}

/// How urgently a page is wanted.
#[derive(Clone, Copy, Debug, PartialEq, Eq, Structural)]
pub enum PageLoadPriority {
    /// It is on screen.
    Visible,
    /// It borders a page on screen.
    Prefetch,
}

/// A page fetch for the list widget to send.
#[derive(Clone, Copy, Debug, PartialEq, Eq, Structural)]
pub struct PageRequest {
    pub page: u32,
    pub generation: u64,
    pub priority: PageLoadPriority,
}

/// A change of the row count to announce at once: at `position`, `removed`
/// rows left and `added` rows came.
#[derive(Clone, Copy, Debug, PartialEq, Eq, Structural)]
pub struct ItemsChanged {
    pub position: u32,
    pub removed: u32,
    pub added: u32,
}

/// Rows whose content changed, `len` of them from `start`, to announce in
/// chunks while `generation` is still current.
#[derive(Clone, Copy, Debug, PartialEq, Eq, Structural)]
pub struct Replacement {
    pub generation: u64,
    pub start: u32,
    pub len: u32,
    pub record_first_rows: bool,
}

impl<T> RowSlot<T> {
    /// What a placeholder row shows; `None` for a fetched row.
    pub fn placeholder_name(&self) -> (name: Option<&'static str>)
        ensures
            (self is Loaded) == (name is None),
            self is Loading ==> name == Some(LOADING_ROW_NAME),
            self is Failed ==> name == Some(FAILED_ROW_NAME),
    {
        match self {
            RowSlot::Loading => Some(LOADING_ROW_NAME),
            RowSlot::Failed => Some(FAILED_ROW_NAME),
            RowSlot::Loaded(_) => None,
        }
    }
}


/// What a reload starts: the new generation, the row count change to
/// announce, and the first page's fetch unless a prepared first page is
/// published instead.
#[derive(Clone, Copy, Debug, PartialEq, Eq, Structural)]
pub struct ReloadPlan {
    pub generation: u64,
    pub removed: Option<ItemsChanged>,
    pub first_page: Option<PageRequest>,
}

/// The reply to a page fetch.
pub enum PageResult<T> {
    Loaded(Vec<LoadedRow<T>>),
    /// The store's queue was full; the page may be asked for again.
    QueueFull,
    Failed,
}

/// What the list widget has to do after a reply: announce row count
/// changes at once, announce replaced rows a chunk at a time, send page
/// fetches, and (re)arm the delayed drain of the waiting pages.
pub struct CacheEffects {
    pub items_changed: Vec<ItemsChanged>,
    pub replacements: Vec<Replacement>,
    pub requests: Vec<PageRequest>,
    pub schedule_drain: bool,
}

#[verifier::ext_equal]
pub struct EffectsView {
    pub items_changed: Seq<ItemsChanged>,
    pub replacements: Seq<Replacement>,
    pub requests: Seq<PageRequest>,
    pub schedule_drain: bool,
}

impl View for CacheEffects {
    type V = EffectsView;

    open spec fn view(&self) -> EffectsView {
        EffectsView {
            items_changed: self.items_changed@,
            replacements: self.replacements@,
            requests: self.requests@,
            schedule_drain: self.schedule_drain,
        }
    }
}

pub open spec fn no_effects() -> EffectsView {
    EffectsView {
        items_changed: Seq::empty(),
        replacements: Seq::empty(),
        requests: Seq::empty(),
        schedule_drain: false,
    }
}

/// What the list shows at a position.
pub enum ItemRef<'a, T> {
    /// Past the last row.
    Missing,
    /// A row whose page is not cached: it shows as loading.
    Placeholder,
    /// A row of a cached page.
    Row(&'a RowSlot<T>),
}

/// The chunk `k` of the replaced rows `start..start + len`.
pub open spec fn chunk(start: u32, len: u32, k: int) -> (u32, u32) {
    let offset = k * ROW_CHANGE_CHUNK;
    (
        if start + offset > u32::MAX {
            u32::MAX
        } else {
            (start + offset) as u32
        },
        if len - offset < ROW_CHANGE_CHUNK {
            (len - offset) as u32
        } else {
            ROW_CHANGE_CHUNK
        },
    )
}

/// Splits the replaced rows `start..start + len` into notifications of at
/// most [`ROW_CHANGE_CHUNK`] rows each, in order.
pub fn replacement_chunks(start: u32, len: u32) -> (chunks: Vec<(u32, u32)>)
    ensures
        chunks@.len() == (len + ROW_CHANGE_CHUNK - 1) / ROW_CHANGE_CHUNK as int,
        forall|k: int| 0 <= k < chunks@.len() ==> #[trigger] chunks@[k] == chunk(start, len, k),
{
    let mut chunks: Vec<(u32, u32)> = Vec::new();
    let mut offset: u64 = 0;
    while offset < len as u64
        invariant
            offset == chunks@.len() * ROW_CHANGE_CHUNK,
            offset <= len as u64 + ROW_CHANGE_CHUNK as u64,
            chunks@.len() <= (len + ROW_CHANGE_CHUNK - 1) / ROW_CHANGE_CHUNK as int,
            offset < len as u64 ==> chunks@.len() < (len + ROW_CHANGE_CHUNK - 1) / ROW_CHANGE_CHUNK as int,
            offset >= len as u64 ==> chunks@.len() == (len + ROW_CHANGE_CHUNK - 1) / ROW_CHANGE_CHUNK as int,
            forall|k: int| 0 <= k < chunks@.len() ==> #[trigger] chunks@[k] == chunk(start, len, k),
        decreases len as u64 + ROW_CHANGE_CHUNK as u64 - offset,
    {
        let o = offset as u32;
        let rest = len - o;
        let n = if rest < ROW_CHANGE_CHUNK {
            rest
        } else {
            ROW_CHANGE_CHUNK
        };
        chunks.push((start.saturating_add(o), n));
        offset = offset + ROW_CHANGE_CHUNK as u64;
        proof {
            assert(chunks@.len() * ROW_CHANGE_CHUNK == offset);
        }
    }
    chunks
}

/// The id a row answers to; placeholders answer to the empty id.
pub open spec fn row_id<T>(slot: RowSlot<T>) -> Seq<char> {
    match slot {
        RowSlot::Loaded(row) => row.id@,
        _ => Seq::empty(),
    }
}

/// The payload a row weighs; placeholders weigh nothing.
pub open spec fn row_bytes<T>(slot: RowSlot<T>) -> usize {
    match slot {
        RowSlot::Loaded(row) => row.bytes,
        _ => 0,
    }
}

/// The payload of a page: its rows' weights added up, saturating.
pub open spec fn rows_payload<T>(rows: Seq<RowSlot<T>>) -> usize
    decreases rows.len(),
{
    if rows.len() == 0 {
        0
    } else {
        rows_payload(rows.drop_last()).saturating_add(row_bytes(rows.last()))
    }
}

/// An entry of the recency list, least recently used first. An entry whose
/// page was dropped from the cache stays in the list until it falls off the
/// front, holding no rows.
#[verifier::ext_equal]
pub struct PageEntry<T> {
    pub page: u32,
    pub cached: bool,
    pub rows: Seq<RowSlot<T>>,
    pub payload: usize,
}

struct CachedPage<T> {
    page: u32,
    cached: bool,
    rows: Vec<RowSlot<T>>,
    payload: usize,
}

impl<T> View for CachedPage<T> {
    type V = PageEntry<T>;

    closed spec fn view(&self) -> PageEntry<T> {
        PageEntry { page: self.page, cached: self.cached, rows: self.rows@, payload: self.payload }
    }
}

/// What the cache holds.
#[verifier::ext_equal]
pub struct CacheView<T> {
    /// Rows the list has announced.
    pub total: u32,
    pub generation: u64,
    /// The recency list.
    pub entries: Seq<PageEntry<T>>,
    /// Pages being fetched.
    pub pending: Set<u32>,
    /// Pages whose fetch failed.
    pub failed: Set<u32>,
    /// Visible pages waiting for a fetch slot, oldest first.
    pub deferred: Seq<u32>,
    /// Payload of the cached pages, as added up (saturating) along the way.
    pub cached_payload: usize,
    /// A delayed drain of the waiting pages is armed.
    pub drain_scheduled: bool,
    /// The generation whose first rows were announced.
    pub first_page_generation: Option<u64>,
}

/// Index of `page`'s entry in `entries`, or -1.
pub open spec fn entry_index<T>(entries: Seq<PageEntry<T>>, page: u32) -> int {
    if exists|i: int| 0 <= i < entries.len() && entries[i].page == page {
        choose|i: int| 0 <= i < entries.len() && entries[i].page == page
    } else {
        -1
    }
}

/// `page` is held in the cache.
pub open spec fn is_cached<T>(entries: Seq<PageEntry<T>>, page: u32) -> bool {
    exists|i: int| 0 <= i < entries.len() && entries[i].page == page && entries[i].cached
}

/// The sum of the entries' payloads.
pub open spec fn payload_sum<T>(entries: Seq<PageEntry<T>>) -> int
    decreases entries.len(),
{
    if entries.len() == 0 {
        0
    } else {
        payload_sum(entries.drop_last()) + entries.last().payload
    }
}

/// Number of cached pages.
pub open spec fn cached_count<T>(entries: Seq<PageEntry<T>>) -> nat
    decreases entries.len(),
{
    if entries.len() == 0 {
        0
    } else {
        cached_count(entries.drop_last()) + if entries.last().cached {
            1nat
        } else {
            0nat
        }
    }
}

/// First row of `page`, saturating.
pub open spec fn page_start(page: u32) -> u32 {
    if page * PAGE_SIZE > u32::MAX {
        u32::MAX
    } else {
        (page * PAGE_SIZE) as u32
    }
}

/// Rows of `page` among `total`: none past the end, at most a page.
pub open spec fn page_len(total: u32, page: u32) -> u32 {
    let remaining = total.saturating_sub(page_start(page));
    if remaining < PAGE_SIZE as u32 {
        remaining
    } else {
        PAGE_SIZE as u32
    }
}

impl<T> CacheView<T> {
    /// The shape every cache keeps, between and within operations.
    pub open spec fn shaped(self) -> bool {
        &&& forall|i: int, j: int|
            0 <= i < j < self.entries.len() ==> #[trigger] self.entries[i].page
                != #[trigger] self.entries[j].page
        &&& forall|i: int|
            0 <= i < self.entries.len() ==> {
                let e = #[trigger] self.entries[i];
                &&& !e.cached ==> e.rows.len() == 0 && e.payload == 0
                &&& e.rows.len() > 0 ==> e.page * PAGE_SIZE + e.rows.len() <= u32::MAX
            }
        &&& self.cached_payload <= payload_sum(self.entries)
        &&& self.pending.finite()
        &&& self.pending.len() <= MAX_PENDING_PAGE_LOADS
        &&& self.failed.finite()
        &&& self.deferred.no_duplicates()
        &&& self.deferred.len() <= MAX_PENDING_PAGE_LOADS
    }

    /// The shape, within the cache's limits.
    pub open spec fn wf(self) -> bool {
        &&& self.shaped()
        &&& self.entries.len() <= MAX_CACHED_PAGES
        &&& self.cached_payload <= MAX_CACHED_PAYLOAD_BYTES
    }

    /// The recency list after the least recently used entries fell off, one
    /// at a time, while more than four entries or more than two mebibytes of
    /// payload were held. A page that falls off leaves the fetching and the
    /// failed pages too.
    pub open spec fn settled(self) -> CacheView<T>
        decreases self.entries.len(),
    {
        if self.entries.len() > 0 && (self.entries.len() > MAX_CACHED_PAGES
            || self.cached_payload > MAX_CACHED_PAYLOAD_BYTES) {
            let e = self.entries[0];
            CacheView {
                entries: self.entries.drop_first(),
                cached_payload: self.cached_payload.saturating_sub(e.payload),
                pending: self.pending.remove(e.page),
                failed: self.failed.remove(e.page),
                ..self
            }.settled()
        } else {
            self
        }
    }

    /// `page` holds `rows` weighing `payload` and is the most recently used,
    /// before the list settles.
    pub open spec fn pushed(self, page: u32, rows: Seq<RowSlot<T>>, payload: usize) -> CacheView<
        T,
    > {
        let i = entry_index(self.entries, page);
        let prev: usize = if i >= 0 {
            self.entries[i].payload
        } else {
            0
        };
        let base = if i >= 0 {
            self.entries.remove(i)
        } else {
            self.entries
        };
        CacheView {
            entries: base.push(PageEntry { page, cached: true, rows, payload }),
            cached_payload: self.cached_payload.saturating_sub(prev).saturating_add(payload),
            ..self
        }
    }

    /// `page` holds `rows` weighing `payload` and is the most recently used;
    /// then the list settles.
    pub open spec fn stored(self, page: u32, rows: Seq<RowSlot<T>>, payload: usize) -> CacheView<
        T,
    > {
        self.pushed(page, rows, payload).settled()
    }

    /// `page` leaves the cache, the fetching and the failed pages; its entry
    /// keeps its place in the recency list.
    pub open spec fn evicted(self, page: u32) -> CacheView<T> {
        let i = entry_index(self.entries, page);
        CacheView {
            entries: if i >= 0 {
                self.entries.update(
                    i,
                    PageEntry { page, cached: false, rows: Seq::empty(), payload: 0 },
                )
            } else {
                self.entries
            },
            cached_payload: if i >= 0 {
                self.cached_payload.saturating_sub(self.entries[i].payload)
            } else {
                self.cached_payload
            },
            pending: self.pending.remove(page),
            failed: self.failed.remove(page),
            ..self
        }
    }
}

impl<T> CacheView<T> {
    /// `page`'s entry becomes the most recently used; then the list settles.
    pub open spec fn touched(self, page: u32) -> CacheView<T> {
        let i = entry_index(self.entries, page);
        CacheView { entries: self.entries.remove(i).push(self.entries[i]), ..self }.settled()
    }
}

/// The waiting visible pages once `page` joins them: it moves to the back,
/// and only the latest two stay.
pub open spec fn deferred_after(deferred: Seq<u32>, page: u32) -> Seq<u32> {
    let queued = deferred.remove_value(page).push(page);
    if queued.len() > MAX_PENDING_PAGE_LOADS {
        queued.skip(queued.len() - MAX_PENDING_PAGE_LOADS)
    } else {
        queued
    }
}

/// A row of placeholders of the given kind.
pub open spec fn placeholders<T>(len: nat, failed: bool) -> Seq<RowSlot<T>> {
    Seq::new(
        len,
        |k: int|
            if failed {
                RowSlot::Failed
            } else {
                RowSlot::Loading
            },
    )
}

pub open spec fn opt_seq<A>(o: Option<A>) -> Seq<A> {
    match o {
        Some(a) => seq![a],
        None => Seq::empty(),
    }
}

/// Pages needed for `total` rows.
pub open spec fn page_count(total: u32) -> int {
    (total + PAGE_SIZE - 1) / PAGE_SIZE as int
}

impl<T> CacheView<T> {
    /// `page` is wanted: touched if cached; with both fetch slots taken, a
    /// visible page waits its turn; otherwise, unless it lies past the end,
    /// it is cached as loading rows and fetched unless a fetch runs already.
    pub open spec fn ensured(self, page: u32, priority: PageLoadPriority) -> (CacheView<T>, Option<
        PageRequest,
    >) {
        let i = entry_index(self.entries, page);
        if i >= 0 && self.entries[i].cached {
            (self.touched(page), None)
        } else if self.pending.len() >= MAX_PENDING_PAGE_LOADS {
            if priority == PageLoadPriority::Visible {
                (CacheView { deferred: deferred_after(self.deferred, page), ..self }, None)
            } else {
                (self, None)
            }
        } else {
            let len = page_len(self.total, page);
            if len == 0 {
                (self, None)
            } else {
                let v = self.stored(page, placeholders(len as nat, false), 0);
                if v.pending.contains(page) {
                    (v, None)
                } else {
                    (
                        CacheView { pending: v.pending.insert(page), ..v },
                        Some(PageRequest { page, generation: self.generation, priority }),
                    )
                }
            }
        }
    }

    /// The waiting visible pages are asked for, oldest first, while a fetch
    /// slot is free.
    pub open spec fn drained(self) -> (CacheView<T>, Seq<PageRequest>)
        decreases self.deferred.len(),
    {
        if self.pending.len() < MAX_PENDING_PAGE_LOADS && self.deferred.len() > 0 {
            let page = self.deferred[0];
            let w = CacheView { deferred: self.deferred.drop_first(), ..self };
            let (v1, r) = w.ensured(page, PageLoadPriority::Visible);
            proof {
                lemma_ensured_frame(w, page, PageLoadPriority::Visible);
            }
            let (v2, rs) = v1.drained();
            (v2, opt_seq(r) + rs)
        } else {
            (self, Seq::empty())
        }
    }

    /// Drains the waiting pages unless a delayed drain is armed.
    pub open spec fn drain(self) -> (CacheView<T>, Seq<PageRequest>) {
        if self.drain_scheduled {
            (self, Seq::empty())
        } else {
            self.drained()
        }
    }

    /// The pages on either side of `page` are prefetched: the next one
    /// first, if it holds rows, then the previous one.
    pub open spec fn prefetched(self, page: u32) -> (CacheView<T>, Seq<PageRequest>) {
        let (v1, r1) = if page + 1 < page_count(self.total) {
            self.ensured((page + 1) as u32, PageLoadPriority::Prefetch)
        } else {
            (self, None)
        };
        let (v2, r2) = if page > 0 {
            v1.ensured((page - 1) as u32, PageLoadPriority::Prefetch)
        } else {
            (v1, None)
        };
        (v2, opt_seq(r1) + opt_seq(r2))
    }
}

/// Asking for a page changes neither the row count, the generation, the
/// armed drain nor the first-rows mark, and leaves the waiting pages alone
/// unless a visible page has to wait.
pub proof fn lemma_ensured_frame<T>(v: CacheView<T>, page: u32, priority: PageLoadPriority)
    ensures
        ({
            let (w, r) = v.ensured(page, priority);
            &&& w.total == v.total
            &&& w.generation == v.generation
            &&& w.drain_scheduled == v.drain_scheduled
            &&& w.first_page_generation == v.first_page_generation
            &&& (v.pending.len() < MAX_PENDING_PAGE_LOADS || priority
                == PageLoadPriority::Prefetch) ==> w.deferred == v.deferred
        }),
{
    let i = entry_index(v.entries, page);
    if i >= 0 && v.entries[i].cached {
        lemma_settled_frame(
            CacheView { entries: v.entries.remove(i).push(v.entries[i]), ..v },
        );
    } else if v.pending.len() >= MAX_PENDING_PAGE_LOADS {
    } else {
        let len = page_len(v.total, page);
        if len != 0 {
            let j = entry_index(v.entries, page);
            let prev: usize = if j >= 0 {
                v.entries[j].payload
            } else {
                0
            };
            let base = if j >= 0 {
                v.entries.remove(j)
            } else {
                v.entries
            };
            lemma_settled_frame(
                CacheView {
                    entries: base.push(
                        PageEntry {
                            page,
                            cached: true,
                            rows: placeholders(len as nat, false),
                            payload: 0,
                        },
                    ),
                    cached_payload: v.cached_payload.saturating_sub(prev).saturating_add(0),
                    ..v
                },
            );
        }
    }
}


/// Fetched rows as page rows.
pub open spec fn loaded_slots<T>(rows: Seq<LoadedRow<T>>) -> Seq<RowSlot<T>> {
    Seq::new(rows.len(), |k: int| RowSlot::Loaded(rows[k]))
}

/// `old` with its first rows replaced by `rows`, as far as both reach.
pub open spec fn rows_installed<T>(old: Seq<RowSlot<T>>, rows: Seq<LoadedRow<T>>) -> Seq<RowSlot<T>> {
    Seq::new(
        old.len(),
        |k: int|
            if k < rows.len() {
                RowSlot::Loaded(rows[k])
            } else {
                old[k]
            },
    )
}

pub open spec fn min_nat(a: nat, b: nat) -> nat {
    if a < b {
        a
    } else {
        b
    }
}

impl<T> CacheView<T> {
    /// Rows `start..start + len` to announce as replaced, cut at the last
    /// row the list was told of; nothing if no row is left.
    pub open spec fn replacement(self, generation: u64, start: u32, len: u32, record_first_rows: bool) -> Option<Replacement> {
        let room = self.total.saturating_sub(start);
        let n = if len < room {
            len
        } else {
            room
        };
        if n == 0 {
            None
        } else {
            Some(Replacement { generation, start, len: n, record_first_rows })
        }
    }

    /// The first page of a reload, arrived before the row count: with the
    /// generation current and no row announced yet, `total` rows are
    /// announced and `rows` become page 0.
    pub open spec fn published(self, generation: u64, total: u32, rows: Seq<LoadedRow<T>>) -> (CacheView<T>, bool, Option<ItemsChanged>) {
        if self.generation != generation || self.total != 0 {
            (self, false, None)
        } else {
            let v1 = CacheView { total, ..self };
            let slots = loaded_slots(rows);
            let v2 = if rows.len() > 0 {
                v1.stored(0, slots, rows_payload(slots))
            } else {
                v1
            };
            if total > 0 {
                (
                    CacheView { first_page_generation: Some(generation), ..v2 },
                    true,
                    Some(ItemsChanged { position: 0, removed: 0, added: total }),
                )
            } else {
                (v2, true, None)
            }
        }
    }

    /// The exact row count of the current generation: the list grows or
    /// shrinks by the difference, at its end.
    pub open spec fn with_exact_total(self, generation: u64, exact: u32) -> (CacheView<T>, bool, Option<ItemsChanged>) {
        if self.generation != generation {
            (self, false, None)
        } else {
            (
                CacheView { total: exact, ..self },
                true,
                if exact > self.total {
                    Some(ItemsChanged { position: self.total, removed: 0, added: (exact - self.total) as u32 })
                } else if exact < self.total {
                    Some(ItemsChanged { position: exact, removed: (self.total - exact) as u32, added: 0 })
                } else {
                    None
                },
            )
        }
    }

    /// A fetched page of the current generation: it is no longer fetching
    /// nor failed; if still cached, its first rows are replaced by the
    /// fetched ones, it becomes the most recently used, and the replaced rows
    /// are announced.
    pub open spec fn installed(self, page: u32, generation: u64, rows: Seq<LoadedRow<T>>) -> (CacheView<T>, bool, Option<Replacement>) {
        if self.generation != generation {
            (self, false, None)
        } else {
            let v1 = CacheView { pending: self.pending.remove(page), failed: self.failed.remove(page), ..self };
            let i = entry_index(v1.entries, page);
            if i < 0 || !v1.entries[i].cached {
                (v1, false, None)
            } else {
                let old_rows = v1.entries[i].rows;
                let changed = min_nat(old_rows.len(), rows.len());
                let new_rows = rows_installed(old_rows, rows);
                let v2 = v1.stored(page, new_rows, rows_payload(new_rows));
                (
                    v2,
                    true,
                    if changed > 0 {
                        v2.replacement(generation, page_start(page), changed as u32, v2.first_page_generation != Some(generation))
                    } else {
                        None
                    },
                )
            }
        }
    }

    /// A visible page of the current generation failed: it is no longer
    /// fetching; if still cached, all its rows become failed rows, it is
    /// marked failed, becomes the most recently used, and its rows are
    /// announced.
    pub open spec fn page_failed(self, page: u32, generation: u64) -> (CacheView<T>, bool, Option<Replacement>) {
        if self.generation != generation {
            (self, false, None)
        } else {
            let v1 = CacheView { pending: self.pending.remove(page), ..self };
            let i = entry_index(v1.entries, page);
            if i < 0 || !v1.entries[i].cached {
                (v1, false, None)
            } else {
                let n = v1.entries[i].rows.len();
                let v2 = CacheView { failed: v1.failed.insert(page), ..v1 }.stored(page, placeholders(n, true), 0);
                (
                    v2,
                    true,
                    if n > 0 {
                        v2.replacement(generation, page_start(page), n as u32, false)
                    } else {
                        None
                    },
                )
            }
        }
    }

    /// A fetch of the current generation failed: a visible page shows failed
    /// rows; a prefetched page is dropped and its rows announced, so that the
    /// list asks again.
    pub open spec fn failure_handled(self, page: u32, generation: u64, priority: PageLoadPriority) -> (CacheView<T>, Option<Replacement>) {
        if self.generation != generation {
            (self, None)
        } else if priority == PageLoadPriority::Visible {
            let (v, _accepted, r) = self.page_failed(page, generation);
            (v, r)
        } else {
            let len = page_len(self.total, page);
            let v = self.evicted(page);
            (
                v,
                if len > 0 {
                    v.replacement(generation, page_start(page), len, false)
                } else {
                    None
                },
            )
        }
    }

    /// Activating a row of a failed page: the page is dropped and asked for
    /// again as a visible page, and its rows are announced.
    pub open spec fn retried(self, position: u32) -> (CacheView<T>, bool, Option<PageRequest>, Option<Replacement>) {
        let page = (position / PAGE_SIZE as u32) as u32;
        if !self.failed.contains(page) {
            (self, false, None, None)
        } else {
            let v1 = CacheView { failed: self.failed.remove(page), ..self };
            let len = page_len(self.total, page);
            let (v2, request) = v1.evicted(page).ensured(page, PageLoadPriority::Visible);
            (
                v2,
                true,
                request,
                if len > 0 {
                    v2.replacement(self.generation, page_start(page), len, false)
                } else {
                    None
                },
            )
        }
    }

    /// The row at `position`, if its page is cached and holds it, is
    /// replaced by `row`; its page becomes the most recently used and the row
    /// is announced.
    pub open spec fn replaced(self, position: u32, row: LoadedRow<T>) -> (CacheView<T>, Option<ItemsChanged>) {
        let page = (position / PAGE_SIZE as u32) as u32;
        let offset = (position % (PAGE_SIZE as u32)) as int;
        let i = entry_index(self.entries, page);
        if i < 0 || !self.entries[i].cached || offset >= self.entries[i].rows.len() {
            (self, None)
        } else {
            let new_rows = self.entries[i].rows.update(offset, RowSlot::Loaded(row));
            (
                self.stored(page, new_rows, rows_payload(new_rows)),
                Some(ItemsChanged { position, removed: 1, added: 1 }),
            )
        }
    }

    /// A cached row at `position` answers to `id`.
    pub open spec fn holds_row(self, id: Seq<char>, position: u32) -> bool {
        exists|i: int, k: int|
            0 <= i < self.entries.len() && self.entries[i].cached && 0 <= k
                < self.entries[i].rows.len() && row_id(#[trigger] self.entries[i].rows[k]) == id
                && position == self.entries[i].page * PAGE_SIZE + k
    }

    /// Everything of the current generation is dropped and no row is
    /// announced any more.
    pub open spec fn cleared(self) -> CacheView<T> {
        CacheView {
            total: 0,
            entries: Seq::empty(),
            pending: Set::empty(),
            failed: Set::empty(),
            deferred: Seq::empty(),
            cached_payload: 0,
            drain_scheduled: false,
            ..self
        }
    }

    /// A new generation with `total` rows and nothing cached.
    pub open spec fn restarted(self, total: u32) -> CacheView<T> {
        CacheView {
            total,
            generation: self.generation.wrapping_add(1),
            entries: Seq::empty(),
            pending: Set::empty(),
            failed: Set::empty(),
            deferred: Seq::empty(),
            cached_payload: 0,
            drain_scheduled: false,
            ..self
        }
    }
}


proof fn lemma_stored_after_take<T>(v: CacheView<T>, i: int, page: u32, rows: Seq<RowSlot<T>>, payload: usize)
    requires
        v.shaped(),
        0 <= i < v.entries.len(),
        v.entries[i].page == page,
    ensures
        (CacheView {
            entries: v.entries.update(i, PageEntry { rows: Seq::empty(), ..v.entries[i] }),
            ..v
        }).stored(page, rows, payload) == v.stored(page, rows, payload),
{
    let vm = CacheView {
        entries: v.entries.update(i, PageEntry { rows: Seq::empty(), ..v.entries[i] }),
        ..v
    };
    lemma_entry_index(v.entries, page, i);
    assert forall|a: int, b: int|
        0 <= a < b < vm.entries.len() implies #[trigger] vm.entries[a].page
        != #[trigger] vm.entries[b].page by {
        assert(v.entries[a].page != v.entries[b].page);
    }
    lemma_entry_index(vm.entries, page, i);
    assert(vm.entries.remove(i) =~= v.entries.remove(i));
    let ne = PageEntry { page, cached: true, rows, payload };
    assert(CacheView {
        entries: vm.entries.remove(i).push(ne),
        cached_payload: vm.cached_payload.saturating_sub(vm.entries[i].payload).saturating_add(payload),
        ..vm
    } =~= CacheView {
        entries: v.entries.remove(i).push(ne),
        cached_payload: v.cached_payload.saturating_sub(v.entries[i].payload).saturating_add(payload),
        ..v
    });
}


/// Rows held by the cached pages.
pub open spec fn cached_rows<T>(entries: Seq<PageEntry<T>>) -> int
    decreases entries.len(),
{
    if entries.len() == 0 {
        0
    } else {
        cached_rows(entries.drop_last()) + if entries.last().cached {
            entries.last().rows.len() as int
        } else {
            0
        }
    }
}

impl<T> CacheView<T> {
    /// A reload: a new generation, no row announced, nothing cached. Unless
    /// a prepared first page is to be published, page 0 is reserved as
    /// loading rows and fetched, so that the first page's fetch and the row
    /// count may race.
    pub open spec fn reloaded(self, prepared_first_page: bool) -> (CacheView<T>, ReloadPlan) {
        let generation = self.generation.wrapping_add(1);
        let fresh = CacheView {
            total: 0,
            generation,
            entries: Seq::empty(),
            pending: Set::empty(),
            failed: Set::empty(),
            deferred: Seq::empty(),
            cached_payload: 0,
            drain_scheduled: false,
            first_page_generation: None,
        };
        let removed = if self.total > 0 {
            Some(ItemsChanged { position: 0, removed: self.total, added: 0 })
        } else {
            None
        };
        if prepared_first_page {
            (fresh, ReloadPlan { generation, removed, first_page: None })
        } else {
            let v = fresh.stored(0, placeholders(PAGE_SIZE as nat, false), 0);
            (
                CacheView { pending: v.pending.insert(0), ..v },
                ReloadPlan {
                    generation,
                    removed,
                    first_page: Some(
                        PageRequest { page: 0, generation, priority: PageLoadPriority::Visible },
                    ),
                },
            )
        }
    }

    /// `page` of the current generation is cached as loading rows, without
    /// a fetch.
    pub open spec fn placeholder_inserted(self, page: u32, generation: u64) -> (CacheView<T>, bool) {
        if self.generation != generation {
            (self, false)
        } else {
            (self.stored(page, placeholders(page_len(self.total, page) as nat, false), 0), true)
        }
    }

    /// The list shows `position`: unless its page is cached, fetching or
    /// waiting, the page waits its turn and a delayed drain is armed.
    pub open spec fn positioned(self, position: u32) -> (CacheView<T>, bool) {
        let page = (position / PAGE_SIZE as u32) as u32;
        if is_cached(self.entries, page) || self.pending.contains(page) || self.deferred.contains(
            page,
        ) {
            (self, false)
        } else {
            (
                CacheView {
                    deferred: deferred_after(self.deferred, page),
                    drain_scheduled: true,
                    ..self
                },
                true,
            )
        }
    }

    /// The first rows of `generation` were announced, when asked to record it.
    pub open spec fn rows_announced(self, generation: u64, record_first_rows: bool) -> CacheView<T> {
        if record_first_rows {
            CacheView { first_page_generation: Some(generation), ..self }
        } else {
            self
        }
    }

    /// The reply to a page fetch of `generation`. A stale reply changes
    /// nothing. Fetched rows are installed, the waiting pages are drained,
    /// and a visible page with nothing left waiting gets its neighbours
    /// prefetched. A full queue drops the page; a visible one waits its turn
    /// behind a delayed drain. A failure is handled, then the waiting pages
    /// are drained.
    pub open spec fn answered(self, page: u32, generation: u64, priority: PageLoadPriority, result: PageResult<T>) -> (CacheView<T>, EffectsView) {
        if generation != self.generation {
            (self, no_effects())
        } else {
            match result {
                PageResult::Loaded(rows) => {
                    let (v1, loaded, replacement) = self.installed(page, generation, rows@);
                    let (v2, drained) = v1.drain();
                    let (v3, prefetched) = if loaded && priority == PageLoadPriority::Visible
                        && v2.deferred.len() == 0 {
                        v2.prefetched(page)
                    } else {
                        (v2, Seq::empty())
                    };
                    (
                        v3,
                        EffectsView {
                            replacements: opt_seq(replacement),
                            requests: drained + prefetched,
                            ..no_effects()
                        },
                    )
                },
                PageResult::QueueFull => {
                    let v1 = self.evicted(page);
                    if priority == PageLoadPriority::Visible {
                        (
                            CacheView {
                                deferred: deferred_after(v1.deferred, page),
                                drain_scheduled: true,
                                ..v1
                            },
                            EffectsView { schedule_drain: true, ..no_effects() },
                        )
                    } else {
                        (v1, no_effects())
                    }
                },
                PageResult::Failed => {
                    let (v1, replacement) = self.failure_handled(page, generation, priority);
                    let (v2, drained) = v1.drain();
                    (
                        v2,
                        EffectsView {
                            replacements: opt_seq(replacement),
                            requests: drained,
                            ..no_effects()
                        },
                    )
                },
            }
        }
    }

    /// The reply to the first page's fetch of `generation`. A stale reply
    /// changes nothing. Before the row count arrives, the rows are published
    /// as a provisional first page, and its neighbour is prefetched when
    /// more than a page of rows came. After it, they are installed like any
    /// page. Without rows, page 0 is dropped.
    pub open spec fn first_page_answered(self, generation: u64, result: PageResult<T>) -> (CacheView<T>, EffectsView) {
        if generation != self.generation {
            (self, no_effects())
        } else {
            match result {
                PageResult::Loaded(rows) => {
                    if self.total == 0 {
                        let v1 = CacheView { pending: self.pending.remove(0), ..self };
                        let provisional = rows@.len() as u32;
                        let (v2, accepted, change) = v1.published(generation, provisional, rows@);
                        let (v3, prefetched) = if accepted && provisional > PAGE_SIZE {
                            v2.prefetched(0)
                        } else {
                            (v2, Seq::empty())
                        };
                        (
                            v3,
                            EffectsView {
                                items_changed: opt_seq(change),
                                requests: prefetched,
                                ..no_effects()
                            },
                        )
                    } else {
                        let (v1, loaded, replacement) = self.installed(0, generation, rows@);
                        let (v2, drained) = v1.drain();
                        let (v3, prefetched) = if loaded && v2.deferred.len() == 0 {
                            v2.prefetched(0)
                        } else {
                            (v2, Seq::empty())
                        };
                        (
                            v3,
                            EffectsView {
                                replacements: opt_seq(replacement),
                                requests: drained + prefetched,
                                ..no_effects()
                            },
                        )
                    }
                },
                _ => (self.evicted(0), no_effects()),
            }
        }
    }

    /// A prepared first page, published after a reload; its neighbour is
    /// prefetched when more than a page of rows is announced.
    pub open spec fn prepared_published(self, generation: u64, total: u32, rows: Seq<LoadedRow<T>>) -> (CacheView<T>, EffectsView) {
        let (v1, accepted, change) = self.published(generation, total, rows);
        let (v2, prefetched) = if accepted && total > PAGE_SIZE {
            v1.prefetched(0)
        } else {
            (v1, Seq::empty())
        };
        (v2, EffectsView { items_changed: opt_seq(change), requests: prefetched, ..no_effects() })
    }
}


impl<T> CacheView<T> {
    /// The row at `position` is cached.
    pub open spec fn row_cached(self, position: u32) -> bool {
        let page = (position / PAGE_SIZE as u32) as u32;
        let i = entry_index(self.entries, page);
        i >= 0 && self.entries[i].cached && (position % (PAGE_SIZE as u32)) < self.entries[i].rows.len()
    }

    /// The cached row at `position`.
    pub open spec fn cached_row(self, position: u32) -> RowSlot<T> {
        let page = (position / PAGE_SIZE as u32) as u32;
        self.entries[entry_index(self.entries, page)].rows[(position % (PAGE_SIZE as u32)) as int]
    }
}

proof fn lemma_payload_sum_push<T>(s: Seq<PageEntry<T>>, e: PageEntry<T>)
    ensures
        payload_sum(s.push(e)) == payload_sum(s) + e.payload,
{
    assert(s.push(e).drop_last() =~= s);
}

proof fn lemma_payload_sum_nonneg<T>(s: Seq<PageEntry<T>>)
    ensures
        payload_sum(s) >= 0,
    decreases s.len(),
{
    if s.len() > 0 {
        lemma_payload_sum_nonneg(s.drop_last());
    }
}

proof fn lemma_payload_sum_remove<T>(s: Seq<PageEntry<T>>, i: int)
    requires
        0 <= i < s.len(),
    ensures
        payload_sum(s) == payload_sum(s.remove(i)) + s[i].payload,
    decreases s.len(),
{
    if i == s.len() - 1 {
        assert(s.remove(i) =~= s.drop_last());
    } else {
        lemma_payload_sum_remove(s.drop_last(), i);
        assert(s.remove(i).drop_last() =~= s.drop_last().remove(i));
        assert(s.remove(i).last() == s.last());
    }
}

proof fn lemma_payload_sum_update<T>(s: Seq<PageEntry<T>>, i: int, e: PageEntry<T>)
    requires
        0 <= i < s.len(),
    ensures
        payload_sum(s.update(i, e)) == payload_sum(s) - s[i].payload + e.payload,
{
    lemma_payload_sum_remove(s, i);
    lemma_payload_sum_remove(s.update(i, e), i);
    assert(s.update(i, e).remove(i) =~= s.remove(i));
}

proof fn lemma_entry_index<T>(entries: Seq<PageEntry<T>>, page: u32, k: int)
    requires
        forall|i: int, j: int|
            0 <= i < j < entries.len() ==> #[trigger] entries[i].page != #[trigger] entries[j].page,
        0 <= k < entries.len(),
        entries[k].page == page,
    ensures
        entry_index(entries, page) == k,
{
    let c = choose|i: int| 0 <= i < entries.len() && entries[i].page == page;
    if c < k {
        assert(entries[c].page != entries[k].page);
    } else if c > k {
        assert(entries[k].page != entries[c].page);
    }
}

proof fn lemma_settled_frame<T>(v: CacheView<T>)
    ensures
        v.settled().total == v.total,
        v.settled().generation == v.generation,
        v.settled().deferred == v.deferred,
        v.settled().drain_scheduled == v.drain_scheduled,
        v.settled().first_page_generation == v.first_page_generation,
    decreases v.entries.len(),
{
    if v.entries.len() > 0 && (v.entries.len() > MAX_CACHED_PAGES || v.cached_payload
        > MAX_CACHED_PAYLOAD_BYTES) {
        let e = v.entries[0];
        lemma_settled_frame(
            CacheView {
                entries: v.entries.drop_first(),
                cached_payload: v.cached_payload.saturating_sub(e.payload),
                pending: v.pending.remove(e.page),
                failed: v.failed.remove(e.page),
                ..v
            },
        );
    }
}


proof fn lemma_settled_subsets<T>(v: CacheView<T>)
    ensures
        v.settled().pending.subset_of(v.pending),
        v.settled().failed.subset_of(v.failed),
    decreases v.entries.len(),
{
    if v.entries.len() > 0 && (v.entries.len() > MAX_CACHED_PAGES || v.cached_payload
        > MAX_CACHED_PAYLOAD_BYTES) {
        let e = v.entries[0];
        lemma_settled_subsets(
            CacheView {
                entries: v.entries.drop_first(),
                cached_payload: v.cached_payload.saturating_sub(e.payload),
                pending: v.pending.remove(e.page),
                failed: v.failed.remove(e.page),
                ..v
            },
        );
    }
}

/// One step of settling keeps the shape.
proof fn lemma_settle_step<T>(v: CacheView<T>)
    requires
        v.shaped(),
        v.entries.len() > 0,
    ensures
        ({
            let e = v.entries[0];
            CacheView {
                entries: v.entries.drop_first(),
                cached_payload: v.cached_payload.saturating_sub(e.payload),
                pending: v.pending.remove(e.page),
                failed: v.failed.remove(e.page),
                ..v
            }.shaped()
        }),
{
    let e = v.entries[0];
    let w = CacheView {
        entries: v.entries.drop_first(),
        cached_payload: v.cached_payload.saturating_sub(e.payload),
        pending: v.pending.remove(e.page),
        failed: v.failed.remove(e.page),
        ..v
    };
    lemma_payload_sum_remove(v.entries, 0);
    assert(v.entries.remove(0) =~= v.entries.drop_first());
    lemma_payload_sum_nonneg(w.entries);
    assert(w.pending.subset_of(v.pending));
    vstd::set_lib::lemma_len_subset(w.pending, v.pending);
    assert forall|i: int, j: int|
        0 <= i < j < w.entries.len() implies #[trigger] w.entries[i].page
        != #[trigger] w.entries[j].page by {
        assert(w.entries[i] == v.entries[i + 1]);
        assert(w.entries[j] == v.entries[j + 1]);
    }
    assert forall|i: int| 0 <= i < w.entries.len() implies {
        let e = #[trigger] w.entries[i];
        &&& !e.cached ==> e.rows.len() == 0 && e.payload == 0
        &&& e.rows.len() > 0 ==> e.page * PAGE_SIZE + e.rows.len() <= u32::MAX
    } by {
        assert(w.entries[i] == v.entries[i + 1]);
    }
}

proof fn lemma_settled_wf<T>(v: CacheView<T>)
    requires
        v.shaped(),
    ensures
        v.settled().wf(),
    decreases v.entries.len(),
{
    lemma_payload_sum_nonneg(v.entries);
    if v.entries.len() > 0 && (v.entries.len() > MAX_CACHED_PAGES || v.cached_payload
        > MAX_CACHED_PAYLOAD_BYTES) {
        let e = v.entries[0];
        lemma_settle_step(v);
        lemma_settled_wf(
            CacheView {
                entries: v.entries.drop_first(),
                cached_payload: v.cached_payload.saturating_sub(e.payload),
                pending: v.pending.remove(e.page),
                failed: v.failed.remove(e.page),
                ..v
            },
        );
    } else {
        if v.entries.len() == 0 {
            assert(payload_sum(v.entries) == 0);
        }
    }
}

/// Settling never drops the most recently used entry when it weighs at most
/// the payload limit, nor takes its page out of the fetching or the failed
/// pages.
proof fn lemma_settled_keeps_last<T>(v: CacheView<T>)
    requires
        v.shaped(),
        v.entries.len() > 0,
        v.entries.last().payload <= MAX_CACHED_PAYLOAD_BYTES,
    ensures
        v.settled().entries.len() > 0,
        v.settled().entries.last() == v.entries.last(),
        v.pending.contains(v.entries.last().page) ==> v.settled().pending.contains(
            v.entries.last().page,
        ),
        v.failed.contains(v.entries.last().page) ==> v.settled().failed.contains(
            v.entries.last().page,
        ),
    decreases v.entries.len(),
{
    if v.entries.len() > 0 && (v.entries.len() > MAX_CACHED_PAGES || v.cached_payload
        > MAX_CACHED_PAYLOAD_BYTES) {
        if v.entries.len() == 1 {
            assert(v.entries.drop_last().len() == 0);
            assert(payload_sum(v.entries.drop_last()) == 0);
            assert(payload_sum(v.entries) == v.entries.last().payload);
            assert(false);
        }
        let e = v.entries[0];
        let w = CacheView {
            entries: v.entries.drop_first(),
            cached_payload: v.cached_payload.saturating_sub(e.payload),
            pending: v.pending.remove(e.page),
            failed: v.failed.remove(e.page),
            ..v
        };
        lemma_settle_step(v);
        assert(w.entries.last() == v.entries.last());
        assert(e.page != v.entries.last().page) by {
            assert(v.entries[0].page != v.entries[v.entries.len() - 1].page);
        }
        lemma_settled_keeps_last(w);
    }
}

/// Caching a page keeps the shape, before the list settles.
proof fn lemma_pushed_shaped<T>(v: CacheView<T>, page: u32, rows: Seq<RowSlot<T>>, payload: usize)
    requires
        v.shaped(),
        rows.len() > 0 ==> page * PAGE_SIZE + rows.len() <= u32::MAX,
    ensures
        v.pushed(page, rows, payload).shaped(),
        v.pushed(page, rows, payload).entries.len() > 0,
        v.pushed(page, rows, payload).entries.last() == (PageEntry { page, cached: true, rows, payload }),
        v.pushed(page, rows, payload).pending == v.pending,
        v.pushed(page, rows, payload).failed == v.failed,
{
    let i = entry_index(v.entries, page);
    let prev: usize = if i >= 0 {
        v.entries[i].payload
    } else {
        0
    };
    let base = if i >= 0 {
        v.entries.remove(i)
    } else {
        v.entries
    };
    let new_entry = PageEntry { page, cached: true, rows, payload };
    let w = v.pushed(page, rows, payload);
    if i >= 0 {
        lemma_payload_sum_remove(v.entries, i);
    }
    lemma_payload_sum_push(base, new_entry);
    lemma_payload_sum_nonneg(base);
    assert(payload_sum(base) == payload_sum(v.entries) - prev);
    assert forall|a: int, b: int|
        0 <= a < b < w.entries.len() implies #[trigger] w.entries[a].page
        != #[trigger] w.entries[b].page by {
        if i >= 0 {
            let a2 = if a < i { a } else { a + 1 };
            assert(w.entries[a] == v.entries[a2]);
            if b == w.entries.len() - 1 {
                if v.entries[a2].page == page {
                    lemma_entry_index(v.entries, page, a2);
                }
            } else {
                let b2 = if b < i { b } else { b + 1 };
                assert(w.entries[b] == v.entries[b2]);
            }
        } else {
            assert(w.entries[a] == v.entries[a]);
        }
    }
    assert forall|a: int| 0 <= a < w.entries.len() implies {
        let e = #[trigger] w.entries[a];
        &&& !e.cached ==> e.rows.len() == 0 && e.payload == 0
        &&& e.rows.len() > 0 ==> e.page * PAGE_SIZE + e.rows.len() <= u32::MAX
    } by {
        if a < w.entries.len() - 1 {
            if i >= 0 {
                let a2 = if a < i { a } else { a + 1 };
                assert(w.entries[a] == v.entries[a2]);
            } else {
                assert(w.entries[a] == v.entries[a]);
            }
        }
    }
}

fn contains_page(pages: &Vec<u32>, page: u32) -> (b: bool)
    ensures
        b == pages@.contains(page),
{
    let mut k: usize = 0;
    while k < pages.len()
        invariant
            k <= pages.len(),
            forall|m: int| 0 <= m < k ==> pages@[m] != page,
        decreases pages.len() - k,
    {
        if pages[k] == page {
            return true;
        }
        k += 1;
    }
    false
}

fn insert_page(pages: &mut Vec<u32>, page: u32)
    requires
        old(pages)@.no_duplicates(),
    ensures
        final(pages)@.no_duplicates(),
        final(pages)@.to_set() == old(pages)@.to_set().insert(page),
{
    if !contains_page(pages, page) {
        pages.push(page);
        proof {
            let s = final(pages)@;
            assert forall|a: int, b: int|
                0 <= a < s.len() && 0 <= b < s.len() && a != b implies s[a] != s[b] by {
                if a < s.len() - 1 && b < s.len() - 1 {
                } else if a == s.len() - 1 {
                    assert(old(pages)@.contains(s[b]));
                } else {
                    assert(old(pages)@.contains(s[a]));
                }
            }
            assert(s.to_set() =~= old(pages)@.to_set().insert(page)) by {
                assert forall|x: u32| s.contains(x) <==> old(pages)@.contains(x) || x == page by {
                    if s.contains(x) && x != page {
                        let k = choose|k: int| 0 <= k < s.len() && s[k] == x;
                        assert(old(pages)@[k] == x);
                    }
                    if old(pages)@.contains(x) {
                        let k = choose|k: int| 0 <= k < old(pages)@.len() && old(pages)@[k] == x;
                        assert(s[k] == x);
                    }
                    if x == page {
                        assert(s[s.len() - 1] == x);
                    }
                }
            }
        }
    } else {
        assert(old(pages)@.to_set() =~= old(pages)@.to_set().insert(page));
    }
}

fn remove_page(pages: &mut Vec<u32>, page: u32)
    requires
        old(pages)@.no_duplicates(),
    ensures
        final(pages)@.no_duplicates(),
        final(pages)@.to_set() == old(pages)@.to_set().remove(page),
{
    let mut k: usize = 0;
    while k < pages.len()
        invariant
            k <= pages.len(),
            pages@ == old(pages)@,
            old(pages)@.no_duplicates(),
            forall|m: int| 0 <= m < k ==> pages@[m] != page,
        decreases pages.len() - k,
    {
        if pages[k] == page {
            let ghost before = pages@;
            pages.remove(k);
            proof {
                let s = final(pages)@;
                assert(s == before.remove(k as int));
                assert forall|a: int, b: int|
                    0 <= a < s.len() && 0 <= b < s.len() && a != b implies s[a] != s[b] by {
                    let a2 = if a < k { a } else { a + 1 };
                    let b2 = if b < k { b } else { b + 1 };
                    assert(s[a] == before[a2]);
                    assert(s[b] == before[b2]);
                }
                assert(s.to_set() =~= before.to_set().remove(page)) by {
                    assert forall|x: u32| s.contains(x) <==> before.contains(x) && x != page by {
                        if s.contains(x) {
                            let j = choose|j: int| 0 <= j < s.len() && s[j] == x;
                            let j2 = if j < k { j } else { j + 1 };
                            assert(before[j2] == x);
                            assert(j2 != k);
                        }
                        if before.contains(x) && x != page {
                            let j = choose|j: int| 0 <= j < before.len() && before[j] == x;
                            assert(j != k);
                            let j2 = if j < k { j } else { j - 1 };
                            assert(s[j2] == x);
                        }
                    }
                }
            }
            return ;
        }
        k += 1;
    }
    proof {
        assert(!pages@.contains(page));
        assert(pages@.to_set() =~= pages@.to_set().remove(page));
    }
}

fn page_start_of(page: u32) -> (start: u32)
    ensures
        start == page_start(page),
{
    if page > u32::MAX / (PAGE_SIZE as u32) {
        u32::MAX
    } else {
        page * (PAGE_SIZE as u32)
    }
}

fn page_len_of(total: u32, page: u32) -> (len: u32)
    ensures
        len == page_len(total, page),
        len <= PAGE_SIZE,
        len > 0 ==> page * PAGE_SIZE + len <= total,
{
    let remaining = total.saturating_sub(page_start_of(page));
    if remaining < PAGE_SIZE as u32 {
        remaining
    } else {
        PAGE_SIZE as u32
    }
}

fn placeholder_rows<T>(len: usize, failed: bool) -> (rows: Vec<RowSlot<T>>)
    ensures
        rows@ == placeholders::<T>(len as nat, failed),
{
    let mut rows: Vec<RowSlot<T>> = Vec::new();
    let mut k: usize = 0;
    while k < len
        invariant
            k <= len,
            rows@ == placeholders::<T>(k as nat, failed),
        decreases len - k,
    {
        if failed {
            rows.push(RowSlot::Failed);
        } else {
            rows.push(RowSlot::Loading);
        }
        k += 1;
        proof {
            assert(rows@ =~= placeholders::<T>(k as nat, failed));
        }
    }
    rows
}


/// The payload of `rows`: their weights added up, saturating.
fn page_payload<T>(rows: &Vec<RowSlot<T>>) -> (payload: usize)
    ensures
        payload == rows_payload(rows@),
{
    let mut acc: usize = 0;
    let mut k: usize = 0;
    while k < rows.len()
        invariant
            k <= rows@.len(),
            acc == rows_payload(rows@.take(k as int)),
        decreases rows@.len() - k,
    {
        let bytes = match &rows[k] {
            RowSlot::Loaded(row) => row.bytes,
            _ => 0,
        };
        proof {
            assert(rows@.take(k + 1).drop_last() =~= rows@.take(k as int));
            assert(rows@.take(k + 1).last() == rows@[k as int]);
        }
        acc = acc.saturating_add(bytes);
        k += 1;
    }
    proof {
        assert(rows@.take(k as int) =~= rows@);
    }
    acc
}

/// Fetched rows as page rows, in order.
fn into_slots<T>(rows: Vec<LoadedRow<T>>) -> (slots: Vec<RowSlot<T>>)
    ensures
        slots@ == loaded_slots(rows@),
{
    let ghost all = rows@;
    let mut rows = rows;
    let mut slots: Vec<RowSlot<T>> = Vec::new();
    while rows.len() > 0
        invariant
            slots@.len() + rows@.len() == all.len(),
            rows@ == all.skip(slots@.len() as int),
            slots@ == loaded_slots(all.take(slots@.len() as int)),
        decreases rows@.len(),
    {
        let row = rows.remove(0);
        let ghost n = slots@.len();
        slots.push(RowSlot::Loaded(row));
        proof {
            assert(rows@ =~= all.skip(slots@.len() as int));
            assert(slots@ =~= loaded_slots(all.take(slots@.len() as int)));
        }
    }
    proof {
        assert(all.take(slots@.len() as int) =~= all);
    }
    slots
}


fn opt_vec<A>(o: Option<A>) -> (v: Vec<A>)
    ensures
        v@ == opt_seq(o),
{
    let mut v: Vec<A> = Vec::new();
    match o {
        Some(a) => {
            v.push(a);
        },
        None => {},
    }
    proof {
        assert(v@ =~= opt_seq(o));
    }
    v
}

impl CacheEffects {
    /// Nothing to do.
    pub fn none() -> (effects: CacheEffects)
        ensures
            effects@ == no_effects(),
    {
        let effects = CacheEffects {
            items_changed: Vec::new(),
            replacements: Vec::new(),
            requests: Vec::new(),
            schedule_drain: false,
        };
        proof {
            assert(effects@ =~= no_effects());
        }
        effects
    }
}

spec fn entries_view<T>(s: Seq<CachedPage<T>>) -> Seq<PageEntry<T>> {
    s.map_values(|e: CachedPage<T>| e@)
}

/// The cache of row pages for the sound list, over rows carrying `T`.
pub struct PagedSoundModel<T> {
    total: u32,
    generation: u64,
    entries: Vec<CachedPage<T>>,
    pending: Vec<u32>,
    failed: Vec<u32>,
    deferred: Vec<u32>,
    cached_payload: usize,
    drain_scheduled: bool,
    first_page_generation: Option<u64>,
}

impl<T> View for PagedSoundModel<T> {
    type V = CacheView<T>;

    closed spec fn view(&self) -> CacheView<T> {
        CacheView {
            total: self.total,
            generation: self.generation,
            entries: entries_view(self.entries@),
            pending: self.pending@.to_set(),
            failed: self.failed@.to_set(),
            deferred: self.deferred@,
            cached_payload: self.cached_payload,
            drain_scheduled: self.drain_scheduled,
            first_page_generation: self.first_page_generation,
        }
    }
}

impl<T> PagedSoundModel<T> {
    spec fn shaped(&self) -> bool {
        &&& self@.shaped()
        &&& self.pending@.no_duplicates()
        &&& self.failed@.no_duplicates()
    }

    /// The cache is well formed: its shape, within its limits.
    pub closed spec fn wf(&self) -> bool {
        &&& self.shaped()
        &&& self@.wf()
    }

    proof fn lemma_counts(&self)
        requires
            self.shaped(),
        ensures
            self@.pending.len() == self.pending@.len(),
            self@.failed.len() == self.failed@.len(),
    {
        self.pending@.unique_seq_to_set();
        self.failed@.unique_seq_to_set();
    }

    fn find_entry(&self, page: u32) -> (found: Option<usize>)
        requires
            self.shaped(),
        ensures
            match found {
                Some(i) => i < self.entries@.len() && entry_index(self@.entries, page) == i,
                None => entry_index(self@.entries, page) == -1,
            },
    {
        let mut k: usize = 0;
        while k < self.entries.len()
            invariant
                k <= self.entries@.len(),
                self.shaped(),
                forall|m: int| 0 <= m < k ==> self@.entries[m].page != page,
            decreases self.entries@.len() - k,
        {
            if self.entries[k].page == page {
                proof {
                    lemma_entry_index(self@.entries, page, k as int);
                }
                return Some(k);
            }
            k += 1;
        }
        proof {
            assert(!(exists|i: int| 0 <= i < self@.entries.len() && self@.entries[i].page == page));
        }
        None
    }

    /// An empty cache announcing `total` rows, in the first generation.
    pub fn with_total(total: u32) -> (model: Self)
        ensures
            model.wf(),
            model@ == (CacheView::<T> {
                total,
                generation: 0,
                entries: Seq::empty(),
                pending: Set::empty(),
                failed: Set::empty(),
                deferred: Seq::empty(),
                cached_payload: 0,
                drain_scheduled: false,
                first_page_generation: None,
            }),
    {
        let model = PagedSoundModel {
            total,
            generation: 0,
            entries: Vec::new(),
            pending: Vec::new(),
            failed: Vec::new(),
            deferred: Vec::new(),
            cached_payload: 0,
            drain_scheduled: false,
            first_page_generation: None,
        };
        proof {
            assert(model@.entries =~= Seq::<PageEntry<T>>::empty());
            assert(model@.pending =~= Set::<u32>::empty());
            assert(model@.failed =~= Set::<u32>::empty());
        }
        model
    }

    /// Rows announced to the list.
    pub fn n_items(&self) -> (n: u32)
        ensures
            n == self@.total,
    {
        self.total
    }

    /// The current generation.
    pub fn generation(&self) -> (g: u64)
        ensures
            g == self@.generation,
    {
        self.generation
    }

    /// A notification of `generation` still applies.
    pub fn is_current(&self, generation: u64) -> (current: bool)
        ensures
            current == (generation == self@.generation),
    {
        self.generation == generation
    }

    /// The waiting visible pages, oldest first.
    pub fn deferred_visible_pages(&self) -> (pages: Vec<u32>)
        ensures
            pages@ == self@.deferred,
    {
        let mut pages: Vec<u32> = Vec::new();
        let mut k: usize = 0;
        while k < self.deferred.len()
            invariant
                k <= self.deferred@.len(),
                pages@ == self.deferred@.take(k as int),
            decreases self.deferred@.len() - k,
        {
            pages.push(self.deferred[k]);
            k += 1;
            proof {
                assert(pages@ =~= self.deferred@.take(k as int));
            }
        }
        proof {
            assert(self.deferred@.take(k as int) =~= self.deferred@);
        }
        pages
    }

    /// A visible page waits for a fetch slot: it moves to the back of the
    /// waiting pages, and only the latest two stay.
    pub fn defer_visible_page(&mut self, page: u32)
        requires
            old(self).wf(),
        ensures
            final(self).wf(),
            final(self)@ == (CacheView { deferred: deferred_after(old(self)@.deferred, page), ..old(self)@ }),
    {
        let ghost d = self.deferred@;
        proof {
            d.index_of_first_ensures(page);
        }
        let mut k: usize = 0;
        while k < self.deferred.len() && self.deferred[k] != page
            invariant
                k <= self.deferred@.len(),
                self.deferred@ == d,
                forall|m: int| 0 <= m < k ==> d[m] != page,
            decreases self.deferred@.len() - k,
        {
            k += 1;
        }
        if k < self.deferred.len() {
            self.deferred.remove(k);
            proof {
                assert(d.index_of_first(page) == Some(k as int)) by {
                    match d.index_of_first(page) {
                        Some(j) => {
                            if j < k {
                            } else if j > k {
                                assert(d[k as int] == page);
                            }
                        },
                        None => {
                            assert(d[k as int] == page);
                        },
                    }
                }
            }
        } else {
            proof {
                assert(!d.contains(page));
            }
        }
        let ghost removed = self.deferred@;
        proof {
            assert(removed == d.remove_value(page));
            assert(!removed.contains(page)) by {
                if removed.contains(page) {
                    let j = choose|j: int| 0 <= j < removed.len() && removed[j] == page;
                    if k < d.len() {
                        let j2 = if j < k { j } else { j + 1 };
                        assert(d[j2] == page);
                        assert(j2 != k);
                    }
                }
            }
            assert(removed.no_duplicates()) by {
                if k < d.len() {
                    assert forall|a: int, b: int|
                        0 <= a < removed.len() && 0 <= b < removed.len() && a != b implies removed[a]
                        != removed[b] by {
                        let a2 = if a < k { a } else { a + 1 };
                        let b2 = if b < k { b } else { b + 1 };
                        assert(removed[a] == d[a2]);
                        assert(removed[b] == d[b2]);
                    }
                }
            }
        }
        self.deferred.push(page);
        let ghost queued = self.deferred@;
        proof {
            assert(queued == removed.push(page));
            assert(queued.no_duplicates()) by {
                assert forall|a: int, b: int|
                    0 <= a < queued.len() && 0 <= b < queued.len() && a != b implies queued[a]
                    != queued[b] by {
                    if a == queued.len() - 1 {
                        assert(removed.contains(queued[b]));
                    } else if b == queued.len() - 1 {
                        assert(removed.contains(queued[a]));
                    } else {
                        assert(queued[a] == removed[a]);
                        assert(queued[b] == removed[b]);
                    }
                }
            }
        }
        let ghost pre = *self;
        while self.deferred.len() > MAX_PENDING_PAGE_LOADS
            invariant
                self.total == pre.total,
                self.generation == pre.generation,
                self.entries == pre.entries,
                self.pending == pre.pending,
                self.failed == pre.failed,
                self.cached_payload == pre.cached_payload,
                self.drain_scheduled == pre.drain_scheduled,
                self.first_page_generation == pre.first_page_generation,
                queued.len() <= MAX_PENDING_PAGE_LOADS + 1,
                queued.len() <= MAX_PENDING_PAGE_LOADS ==> self.deferred@ == queued,
                queued.len() > MAX_PENDING_PAGE_LOADS ==> self.deferred@.len() >= MAX_PENDING_PAGE_LOADS,
                self.deferred@.len() <= queued.len(),
                self.deferred@ == queued.skip(queued.len() - self.deferred@.len()),
            decreases self.deferred@.len(),
        {
            self.deferred.remove(0);
            proof {
                assert(self.deferred@ =~= queued.skip(queued.len() - self.deferred@.len()));
            }
        }
        proof {
            let fin = self.deferred@;
            if queued.len() <= MAX_PENDING_PAGE_LOADS {
                assert(fin =~= queued);
            }
            assert(fin == deferred_after(d, page));
            assert(fin.no_duplicates()) by {
                let off = queued.len() - fin.len();
                assert forall|a: int, b: int|
                    0 <= a < fin.len() && 0 <= b < fin.len() && a != b implies fin[a] != fin[b] by {
                    assert(fin[a] == queued[a + off]);
                    assert(fin[b] == queued[b + off]);
                }
            }
            assert(self@ =~= CacheView { deferred: deferred_after(old(self)@.deferred, page), ..old(self)@ });
        }
    }

    /// Makes sure `page` is cached or on its way. A cached page becomes the
    /// most recently used. With both fetch slots taken a visible page waits
    /// its turn and a prefetch is dropped. Otherwise the page, unless it lies
    /// past the last row, is cached as loading rows, and a fetch is handed
    /// back unless one runs already.
    pub fn ensure_page(&mut self, page: u32, priority: PageLoadPriority) -> (request: Option<
        PageRequest,
    >)
        requires
            old(self).wf(),
        ensures
            final(self).wf(),
            (final(self)@, request) == old(self)@.ensured(page, priority),
    {
        let ghost v = self@;
        let found = self.find_entry(page);
        match found {
            Some(i) => {
                if self.entries[i].cached {
                    self.touch(i);
                    return None;
                }
            },
            None => {},
        }
        proof {
            self.lemma_counts();
        }
        if self.pending.len() >= MAX_PENDING_PAGE_LOADS {
            if priority == PageLoadPriority::Visible {
                self.defer_visible_page(page);
            }
            return None;
        }
        let len = page_len_of(self.total, page);
        if len == 0 {
            return None;
        }
        let rows = placeholder_rows(len as usize, false);
        self.store(page, rows, 0);
        proof {
            let j = entry_index(v.entries, page);
            let prev: usize = if j >= 0 {
                v.entries[j].payload
            } else {
                0
            };
            let base = if j >= 0 {
                v.entries.remove(j)
            } else {
                v.entries
            };
            lemma_settled_frame(
                CacheView {
                    entries: base.push(
                        PageEntry {
                            page,
                            cached: true,
                            rows: placeholders(len as nat, false),
                            payload: 0,
                        },
                    ),
                    cached_payload: v.cached_payload.saturating_sub(prev).saturating_add(0),
                    ..v
                },
            );
        }
        if contains_page(&self.pending, page) {
            return None;
        }
        proof {
            let j = entry_index(v.entries, page);
            let prev: usize = if j >= 0 {
                v.entries[j].payload
            } else {
                0
            };
            let base = if j >= 0 {
                v.entries.remove(j)
            } else {
                v.entries
            };
            lemma_settled_subsets(
                CacheView {
                    entries: base.push(
                        PageEntry {
                            page,
                            cached: true,
                            rows: placeholders(len as nat, false),
                            payload: 0,
                        },
                    ),
                    cached_payload: v.cached_payload.saturating_sub(prev).saturating_add(0),
                    ..v
                },
            );
            vstd::set_lib::lemma_len_subset(self@.pending, v.pending);
        }
        insert_page(&mut self.pending, page);
        Some(PageRequest { page, generation: self.generation, priority })
    }

    /// Asks for the waiting visible pages, oldest first, while a fetch slot
    /// is free, unless a delayed drain is armed. Hands back the fetches to
    /// send, in order.
    pub fn drain_deferred_pages(&mut self) -> (requests: Vec<PageRequest>)
        requires
            old(self).wf(),
        ensures
            final(self).wf(),
            (final(self)@, requests@) == old(self)@.drain(),
    {
        let mut requests: Vec<PageRequest> = Vec::new();
        if self.drain_scheduled {
            return requests;
        }
        proof {
            self.lemma_counts();
        }
        while self.pending.len() < MAX_PENDING_PAGE_LOADS && self.deferred.len() > 0
            invariant
                self.wf(),
                ({
                    let (w, rs) = self@.drained();
                    old(self)@.drained() == (w, requests@ + rs)
                }),
            decreases self.deferred@.len(),
        {
            proof {
                self.lemma_counts();
            }
            let ghost v = self@;
            let ghost before = requests@;
            let page = self.deferred.remove(0);
            proof {
                assert(self@ =~= CacheView { deferred: v.deferred.drop_first(), ..v });
                assert(self@.deferred.no_duplicates()) by {
                    let d = self@.deferred;
                    assert forall|a: int, b: int|
                        0 <= a < d.len() && 0 <= b < d.len() && a != b implies d[a] != d[b] by {
                        assert(d[a] == v.deferred[a + 1]);
                        assert(d[b] == v.deferred[b + 1]);
                    }
                }
                lemma_ensured_frame(self@, page, PageLoadPriority::Visible);
            }
            let request = self.ensure_page(page, PageLoadPriority::Visible);
            match request {
                Some(r) => {
                    requests.push(r);
                },
                None => {},
            }
            proof {
                let (w2, rs2) = self@.drained();
                assert(requests@ =~= before + opt_seq(request));
                assert(before + opt_seq(request) + rs2 =~= before + (opt_seq(request) + rs2));
            }
        }
        proof {
            self.lemma_counts();
            assert(requests@ + Seq::<PageRequest>::empty() =~= requests@);
        }
        requests
    }

    /// Prefetches the pages on either side of `page`, the next one first.
    /// Hands back the fetches to send, in order.
    pub fn prefetch_adjacent(&mut self, page: u32) -> (requests: Vec<PageRequest>)
        requires
            old(self).wf(),
        ensures
            final(self).wf(),
            (final(self)@, requests@) == old(self)@.prefetched(page),
    {
        let ghost v = self@;
        let count: u64 = ((self.total as u64) + (PAGE_SIZE as u64) - 1) / (PAGE_SIZE as u64);
        let mut requests: Vec<PageRequest> = Vec::new();
        let mut first: Option<PageRequest> = None;
        if (page as u64) + 1 < count {
            first = self.ensure_page(page + 1, PageLoadPriority::Prefetch);
            match first {
                Some(r) => {
                    requests.push(r);
                },
                None => {},
            }
        }
        let ghost v1 = self@;
        let mut second: Option<PageRequest> = None;
        if page > 0 {
            second = self.ensure_page(page - 1, PageLoadPriority::Prefetch);
            match second {
                Some(r) => {
                    requests.push(r);
                },
                None => {},
            }
        }
        proof {
            assert(requests@ =~= opt_seq(first) + opt_seq(second));
        }
        requests
    }


    /// Rows `start..start + len` to announce as replaced, cut at the last
    /// row the list was told of.
    fn replacement_for(&self, generation: u64, start: u32, len: u32, record_first_rows: bool) -> (r: Option<Replacement>)
        ensures
            r == self@.replacement(generation, start, len, record_first_rows),
    {
        let room = self.total.saturating_sub(start);
        let n = if len < room {
            len
        } else {
            room
        };
        if n == 0 {
            None
        } else {
            Some(Replacement { generation, start, len: n, record_first_rows })
        }
    }

    /// Takes the rows out of the `i`th entry, which stays in place.
    fn take_rows(&mut self, i: usize) -> (rows: Vec<RowSlot<T>>)
        requires
            old(self).shaped(),
            i < old(self)@.entries.len(),
        ensures
            final(self).shaped(),
            rows@ == old(self)@.entries[i as int].rows,
            final(self)@ == (CacheView {
                entries: old(self)@.entries.update(
                    i as int,
                    PageEntry { rows: Seq::empty(), ..old(self)@.entries[i as int] },
                ),
                ..old(self)@
            }),
    {
        let ghost v = self@;
        let e = self.entries.remove(i);
        let CachedPage { page, cached, rows, payload } = e;
        self.entries.insert(i, CachedPage { page, cached, rows: Vec::new(), payload });
        proof {
            let ne = PageEntry { rows: Seq::<RowSlot<T>>::empty(), ..v.entries[i as int] };
            assert(entries_view(self.entries@) =~= v.entries.update(i as int, ne));
            lemma_payload_sum_update(v.entries, i as int, ne);
            assert(self@ =~= CacheView { entries: v.entries.update(i as int, ne), ..v });
            assert forall|a: int, b: int|
                0 <= a < b < self@.entries.len() implies #[trigger] self@.entries[a].page
                != #[trigger] self@.entries[b].page by {
                assert(v.entries[a].page != v.entries[b].page);
            }
            assert forall|a: int| 0 <= a < self@.entries.len() implies {
                let e = #[trigger] self@.entries[a];
                &&& !e.cached ==> e.rows.len() == 0 && e.payload == 0
                &&& e.rows.len() > 0 ==> e.page * PAGE_SIZE + e.rows.len() <= u32::MAX
            } by {
                assert(v.entries[a].page == self@.entries[a].page);
            }
        }
        rows
    }

    /// Takes `rows` over and publishes them as the first page of generation
    /// `generation`, announcing `total` rows, when the generation is current
    /// and nothing was announced yet. Hands back whether it did, and the row
    /// count change to announce.
    pub fn publish_initial_page(&mut self, generation: u64, total: u32, rows: Vec<LoadedRow<T>>) -> (result: (bool, Option<ItemsChanged>))
        requires
            old(self).wf(),
            rows@.len() <= u32::MAX,
        ensures
            final(self).wf(),
            (final(self)@, result.0, result.1) == old(self)@.published(generation, total, rows@),
    {
        if self.generation != generation || self.total != 0 {
            return (false, None);
        }
        let ghost v = self@;
        self.total = total;
        proof {
            assert(self@ =~= CacheView { total, ..v });
        }
        let ghost v1 = self@;
        let n = rows.len();
        if n > 0 {
            let slots = into_slots(rows);
            let payload = page_payload(&slots);
            self.store(0, slots, payload);
        }
        let mut change: Option<ItemsChanged> = None;
        if total > 0 {
            let ghost v2 = self@;
            self.first_page_generation = Some(generation);
            proof {
                assert(self@ =~= CacheView { first_page_generation: Some(generation), ..v2 });
            }
            change = Some(ItemsChanged { position: 0, removed: 0, added: total });
        }
        (true, change)
    }

    /// The exact row count of generation `generation`: when current, the
    /// list grows or shrinks by the difference, at its end. Hands back
    /// whether it applied, and the row count change to announce, if any.
    pub fn apply_exact_total(&mut self, generation: u64, exact: u32) -> (result: (bool, Option<ItemsChanged>))
        requires
            old(self).wf(),
        ensures
            final(self).wf(),
            (final(self)@, result.0, result.1) == old(self)@.with_exact_total(generation, exact),
    {
        if self.generation != generation {
            return (false, None);
        }
        let ghost v = self@;
        let previous = self.total;
        self.total = exact;
        proof {
            assert(self@ =~= CacheView { total: exact, ..v });
        }
        if exact > previous {
            (true, Some(ItemsChanged { position: previous, removed: 0, added: exact - previous }))
        } else if exact < previous {
            (true, Some(ItemsChanged { position: exact, removed: previous - exact, added: 0 }))
        } else {
            (true, None)
        }
    }

    /// Installs the fetched `rows` of `page` for generation `generation`. See
    /// [`CacheView::installed`]. Hands back whether the page was installed,
    /// and the replaced rows to announce.
    pub fn install_page(&mut self, page: u32, generation: u64, rows: Vec<LoadedRow<T>>) -> (result: (bool, Option<Replacement>))
        requires
            old(self).wf(),
        ensures
            final(self).wf(),
            (final(self)@, result.0, result.1) == old(self)@.installed(page, generation, rows@),
    {
        if self.generation != generation {
            return (false, None);
        }
        let ghost v = self@;
        remove_page(&mut self.pending, page);
        remove_page(&mut self.failed, page);
        let ghost v1 = self@;
        proof {
            assert(v1 =~= CacheView { pending: v.pending.remove(page), failed: v.failed.remove(page), ..v });
        }
        let i = match self.find_entry(page) {
            Some(i) => i,
            None => {
                return (false, None);
            },
        };
        if !self.entries[i].cached {
            return (false, None);
        }
        let ghost sounds = rows@;
        let old_rows = self.take_rows(i);
        let ghost orig = old_rows@;
        let ghost vm = self@;
        let n = old_rows.len();
        let changed = if n < rows.len() {
            n
        } else {
            rows.len()
        };
        let ghost expected = rows_installed(orig, sounds);
        let mut old_rows = old_rows;
        let mut rows = rows;
        let mut new_rows: Vec<RowSlot<T>> = Vec::new();
        let mut k: usize = 0;
        while k < n
            invariant
                k <= n == orig.len(),
                expected == rows_installed(orig, sounds),
                changed == min_nat(orig.len(), sounds.len()),
                old_rows@ == orig.skip(k as int),
                rows@ == sounds.skip(if k < changed { k as int } else { changed as int }),
                new_rows@ == expected.take(k as int),
            decreases n - k,
        {
            let ghost prefix = new_rows@;
            let slot = old_rows.remove(0);
            proof {
                assert(slot == orig[k as int]);
            }
            if k < changed {
                let row = rows.remove(0);
                proof {
                    assert(row == sounds[k as int]);
                }
                new_rows.push(RowSlot::Loaded(row));
            } else {
                new_rows.push(slot);
            }
            proof {
                assert(new_rows@ == prefix.push(expected[k as int]));
            }
            k += 1;
            proof {
                assert(old_rows@ =~= orig.skip(k as int));
                assert(rows@ =~= sounds.skip(if k < changed { k as int } else { changed as int }));
                assert(new_rows@ =~= expected.take(k as int));
            }
        }
        proof {
            assert(new_rows@ =~= expected);
        }
        let payload = page_payload(&new_rows);
        proof {
            lemma_entry_index(vm.entries, page, i as int);
            let ne = PageEntry { page, cached: true, rows: expected, payload };
            assert(vm.entries.remove(i as int) =~= v1.entries.remove(i as int));
            assert(CacheView {
                entries: vm.entries.remove(i as int).push(ne),
                cached_payload: vm.cached_payload.saturating_sub(vm.entries[i as int].payload).saturating_add(payload),
                ..vm
            } =~= CacheView {
                entries: v1.entries.remove(i as int).push(ne),
                cached_payload: v1.cached_payload.saturating_sub(v1.entries[i as int].payload).saturating_add(payload),
                ..v1
            });
        }
        self.store(page, new_rows, payload);
        proof {
            lemma_settled_frame(CacheView {
                entries: v1.entries.remove(i as int).push(PageEntry { page, cached: true, rows: expected, payload }),
                cached_payload: v1.cached_payload.saturating_sub(v1.entries[i as int].payload).saturating_add(payload),
                ..v1
            });
        }
        let record = match self.first_page_generation {
            Some(g) => g != generation,
            None => true,
        };
        let replacement = if changed > 0 {
            self.replacement_for(generation, page_start_of(page), changed as u32, record)
        } else {
            None
        };
        (true, replacement)
    }


    /// A visible page of generation `generation` failed to load. See
    /// [`CacheView::page_failed`]. Hands back whether its rows became failed
    /// rows, and the rows to announce.
    pub fn fail_page(&mut self, page: u32, generation: u64) -> (result: (bool, Option<Replacement>))
        requires
            old(self).wf(),
        ensures
            final(self).wf(),
            (final(self)@, result.0, result.1) == old(self)@.page_failed(page, generation),
    {
        if self.generation != generation {
            return (false, None);
        }
        let ghost v = self@;
        remove_page(&mut self.pending, page);
        let ghost v1 = self@;
        proof {
            assert(v1 =~= CacheView { pending: v.pending.remove(page), ..v });
        }
        let i = match self.find_entry(page) {
            Some(i) => i,
            None => {
                return (false, None);
            },
        };
        if !self.entries[i].cached {
            return (false, None);
        }
        let n = self.entries[i].rows.len();
        insert_page(&mut self.failed, page);
        proof {
            assert(self@ =~= CacheView { failed: v1.failed.insert(page), ..v1 });
        }
        let ghost v2 = self@;
        let rows = placeholder_rows(n, true);
        self.store(page, rows, 0);
        proof {
            let j = entry_index(v2.entries, page);
            lemma_settled_frame(CacheView {
                entries: v2.entries.remove(j).push(PageEntry { page, cached: true, rows: placeholders(n as nat, true), payload: 0 }),
                cached_payload: v2.cached_payload.saturating_sub(v2.entries[j].payload).saturating_add(0),
                ..v2
            });
        }
        let replacement = if n > 0 {
            self.replacement_for(generation, page_start_of(page), n as u32, false)
        } else {
            None
        };
        (true, replacement)
    }

    /// A fetch of `page` for generation `generation` failed. See
    /// [`CacheView::failure_handled`]. Hands back the rows to announce.
    pub fn handle_page_failure(&mut self, page: u32, generation: u64, priority: PageLoadPriority) -> (replacement: Option<Replacement>)
        requires
            old(self).wf(),
        ensures
            final(self).wf(),
            (final(self)@, replacement) == old(self)@.failure_handled(page, generation, priority),
    {
        if self.generation != generation {
            return None;
        }
        if priority == PageLoadPriority::Visible {
            let (_accepted, replacement) = self.fail_page(page, generation);
            replacement
        } else {
            let len = page_len_of(self.total, page);
            self.evict_page(page);
            if len > 0 {
                self.replacement_for(generation, page_start_of(page), len, false)
            } else {
                None
            }
        }
    }

    /// Activating the row at `position`: if its page failed, the page is
    /// asked for again. See [`CacheView::retried`]. Hands back whether it
    /// was retried, the fetch to send and the rows to announce.
    pub fn retry_position(&mut self, position: u32) -> (result: (bool, Option<PageRequest>, Option<Replacement>))
        requires
            old(self).wf(),
        ensures
            final(self).wf(),
            (final(self)@, result.0, result.1, result.2) == old(self)@.retried(position),
    {
        let page = position / (PAGE_SIZE as u32);
        if !contains_page(&self.failed, page) {
            return (false, None, None);
        }
        let ghost v = self@;
        remove_page(&mut self.failed, page);
        proof {
            assert(self@ =~= CacheView { failed: v.failed.remove(page), ..v });
        }
        let generation = self.generation;
        let len = page_len_of(self.total, page);
        self.evict_page(page);
        let ghost v2 = self@;
        let request = self.ensure_page(page, PageLoadPriority::Visible);
        proof {
            lemma_ensured_frame(v2, page, PageLoadPriority::Visible);
        }
        let replacement = if len > 0 {
            self.replacement_for(generation, page_start_of(page), len, false)
        } else {
            None
        };
        (true, request, replacement)
    }

    /// Replaces the cached row at `position` by `row`. See
    /// [`CacheView::replaced`]. Hands back the row change to announce.
    pub fn replace_at(&mut self, position: u32, row: LoadedRow<T>) -> (change: Option<ItemsChanged>)
        requires
            old(self).wf(),
        ensures
            final(self).wf(),
            (final(self)@, change) == old(self)@.replaced(position, row),
    {
        let page = position / (PAGE_SIZE as u32);
        let offset = (position % (PAGE_SIZE as u32)) as usize;
        let i = match self.find_entry(page) {
            Some(i) => i,
            None => {
                return None;
            },
        };
        if !self.entries[i].cached || offset >= self.entries[i].rows.len() {
            return None;
        }
        let ghost v = self@;
        let ghost slot = RowSlot::Loaded(row);
        let mut rows = self.take_rows(i);
        rows.set(offset, RowSlot::Loaded(row));
        let payload = page_payload(&rows);
        proof {
            lemma_stored_after_take(v, i as int, page, rows@, payload);
        }
        self.store(page, rows, payload);
        Some(ItemsChanged { position, removed: 1, added: 1 })
    }

    /// The position of a cached row answering to `id`, if any.
    pub fn position_for_id(&self, id: &String) -> (position: Option<u32>)
        requires
            self.wf(),
        ensures
            match position {
                Some(p) => self@.holds_row(id@, p),
                None => forall|p: u32| !self@.holds_row(id@, p),
            },
    {
        let wants_placeholder = id.as_str().is_empty();
        let mut i: usize = 0;
        while i < self.entries.len()
            invariant
                self.wf(),
                i <= self.entries@.len(),
                wants_placeholder == (id@.len() == 0),
                forall|a: int, k: int|
                    0 <= a < i && self@.entries[a].cached && 0 <= k < self@.entries[a].rows.len()
                        ==> row_id(#[trigger] self@.entries[a].rows[k]) != id@,
            decreases self.entries@.len() - i,
        {
            if self.entries[i].cached {
                let rows = &self.entries[i].rows;
                let mut k: usize = 0;
                while k < rows.len()
                    invariant
                        self.wf(),
                        i < self.entries@.len(),
                        rows@ == self@.entries[i as int].rows,
                        self@.entries[i as int].cached,
                        k <= rows@.len(),
                        wants_placeholder == (id@.len() == 0),
                        forall|m: int| 0 <= m < k ==> row_id(#[trigger] rows@[m]) != id@,
                    decreases rows@.len() - k,
                {
                    let matches_id = match &rows[k] {
                        RowSlot::Loaded(row) => row.id == *id,
                        _ => wants_placeholder,
                    };
                    if matches_id {
                        proof {
                            let e = self@.entries[i as int];
                            assert(e.rows.len() > 0);
                            assert(row_id(e.rows[k as int]) == id@);
                        }
                        let position = self.entries[i].page * (PAGE_SIZE as u32) + (k as u32);
                        proof {
                            assert(self@.holds_row(id@, position));
                        }
                        return Some(position);
                    }
                    k += 1;
                }
            }
            i += 1;
        }
        None
    }

    /// Replaces the cached row answering to `row`'s id by `row`. Hands back
    /// whether one was found, and the row change to announce.
    pub fn update_loaded_sound(&mut self, row: LoadedRow<T>) -> (result: (bool, Option<ItemsChanged>))
        requires
            old(self).wf(),
        ensures
            final(self).wf(),
            result.0 == exists|p: u32| old(self)@.holds_row(row.id@, p),
            result.0 ==> exists|p: u32| old(self)@.holds_row(row.id@, p)
                && (final(self)@, result.1) == old(self)@.replaced(p, row),
            !result.0 ==> final(self)@ == old(self)@ && result.1 is None,
    {
        let ghost r = row;
        match self.position_for_id(&row.id) {
            Some(position) => {
                let change = self.replace_at(position, row);
                (true, change)
            },
            None => (false, None),
        }
    }

    /// Forgets every row: nothing is cached and no row is announced any
    /// more. Hands back the row count change to announce.
    pub fn clear(&mut self) -> (change: Option<ItemsChanged>)
        requires
            old(self).wf(),
        ensures
            final(self).wf(),
            final(self)@ == old(self)@.cleared(),
            change == (if old(self)@.total > 0 {
                Some(ItemsChanged { position: 0, removed: old(self)@.total, added: 0 })
            } else {
                None
            }),
    {
        let old_total = self.total;
        self.total = 0;
        self.entries = Vec::new();
        self.pending = Vec::new();
        self.deferred = Vec::new();
        self.drain_scheduled = false;
        self.failed = Vec::new();
        self.cached_payload = 0;
        proof {
            assert(self@ =~= old(self)@.cleared());
        }
        if old_total > 0 {
            Some(ItemsChanged { position: 0, removed: old_total, added: 0 })
        } else {
            None
        }
    }

    /// Starts a new generation with `total` rows and nothing cached.
    pub fn restart(&mut self, total: u32)
        requires
            old(self).wf(),
        ensures
            final(self).wf(),
            final(self)@ == old(self)@.restarted(total),
    {
        self.generation = self.generation.wrapping_add(1);
        self.total = total;
        self.entries = Vec::new();
        self.pending = Vec::new();
        self.deferred = Vec::new();
        self.drain_scheduled = false;
        self.failed = Vec::new();
        self.cached_payload = 0;
        proof {
            assert(self@ =~= old(self)@.restarted(total));
        }
    }


    /// Starts a new generation. See [`CacheView::reloaded`].
    pub fn reload(&mut self, prepared_first_page: bool) -> (plan: ReloadPlan)
        requires
            old(self).wf(),
        ensures
            final(self).wf(),
            (final(self)@, plan) == old(self)@.reloaded(prepared_first_page),
    {
        let generation = self.generation.wrapping_add(1);
        let old_total = self.total;
        self.generation = generation;
        self.first_page_generation = None;
        self.total = 0;
        self.entries = Vec::new();
        self.pending = Vec::new();
        self.deferred = Vec::new();
        self.drain_scheduled = false;
        self.failed = Vec::new();
        self.cached_payload = 0;
        proof {
            assert(self@ =~= CacheView {
                total: 0,
                generation,
                entries: Seq::empty(),
                pending: Set::empty(),
                failed: Set::empty(),
                deferred: Seq::empty(),
                cached_payload: 0,
                drain_scheduled: false,
                first_page_generation: None,
            });
        }
        let removed = if old_total > 0 {
            Some(ItemsChanged { position: 0, removed: old_total, added: 0 })
        } else {
            None
        };
        if prepared_first_page {
            return ReloadPlan { generation, removed, first_page: None };
        }
        let rows = placeholder_rows(PAGE_SIZE, false);
        self.store(0, rows, 0);
        insert_page(&mut self.pending, 0);
        ReloadPlan {
            generation,
            removed,
            first_page: Some(
                PageRequest { page: 0, generation, priority: PageLoadPriority::Visible },
            ),
        }
    }

    /// Caches `page` as loading rows without fetching it, when `generation`
    /// is current. Hands back whether it did.
    pub fn insert_placeholder_page(&mut self, page: u32, generation: u64) -> (inserted: bool)
        requires
            old(self).wf(),
        ensures
            final(self).wf(),
            (final(self)@, inserted) == old(self)@.placeholder_inserted(page, generation),
    {
        if self.generation != generation {
            return false;
        }
        let len = page_len_of(self.total, page);
        let rows = placeholder_rows(len as usize, false);
        self.store(page, rows, 0);
        true
    }

    /// The list shows `position`. See [`CacheView::positioned`]. Hands back
    /// whether the delayed drain is to be (re)armed.
    pub fn load_position(&mut self, position: u32) -> (schedule: bool)
        requires
            old(self).wf(),
        ensures
            final(self).wf(),
            (final(self)@, schedule) == old(self)@.positioned(position),
    {
        let page = position / (PAGE_SIZE as u32);
        let cached = match self.find_entry(page) {
            Some(i) => self.entries[i].cached,
            None => false,
        };
        proof {
            if is_cached(self@.entries, page) {
                let j = choose|j: int|
                    0 <= j < self@.entries.len() && self@.entries[j].page == page
                        && self@.entries[j].cached;
                lemma_entry_index(self@.entries, page, j);
            }
        }
        if cached || contains_page(&self.pending, page) || contains_page(&self.deferred, page) {
            return false;
        }
        self.defer_visible_page(page);
        let ghost v = self@;
        self.drain_scheduled = true;
        proof {
            assert(self@ =~= CacheView { drain_scheduled: true, ..v });
        }
        true
    }

    /// Arms the delayed drain of the waiting pages.
    pub fn schedule_deferred_pages(&mut self)
        requires
            old(self).wf(),
        ensures
            final(self).wf(),
            final(self)@ == (CacheView { drain_scheduled: true, ..old(self)@ }),
    {
        self.drain_scheduled = true;
        proof {
            assert(self@ =~= CacheView { drain_scheduled: true, ..old(self)@ });
        }
    }

    /// The delayed drain is due: it is disarmed and the waiting pages are
    /// drained. Hands back the fetches to send, in order.
    pub fn deferred_timer_fired(&mut self) -> (requests: Vec<PageRequest>)
        requires
            old(self).wf(),
        ensures
            final(self).wf(),
            (final(self)@, requests@) == (CacheView { drain_scheduled: false, ..old(self)@ }).drained(),
    {
        self.drain_scheduled = false;
        proof {
            assert(self@ =~= CacheView { drain_scheduled: false, ..old(self)@ });
        }
        self.drain_deferred_pages()
    }

    /// The first rows of `generation` were announced; records it when
    /// `record_first_rows`.
    pub fn note_first_rows(&mut self, generation: u64, record_first_rows: bool)
        requires
            old(self).wf(),
        ensures
            final(self).wf(),
            final(self)@ == old(self)@.rows_announced(generation, record_first_rows),
    {
        if record_first_rows {
            self.first_page_generation = Some(generation);
        }
        proof {
            assert(self@ =~= old(self)@.rows_announced(generation, record_first_rows));
        }
    }

    /// What the list shows at `position`; looking never fetches.
    pub fn item(&self, position: u32) -> (item: ItemRef<'_, T>)
        requires
            self.wf(),
        ensures
            match item {
                ItemRef::Missing => position >= self@.total,
                ItemRef::Placeholder => position < self@.total && !self@.row_cached(position),
                ItemRef::Row(slot) => position < self@.total && self@.row_cached(position)
                    && *slot == self@.cached_row(position),
            },
    {
        if position >= self.total {
            return ItemRef::Missing;
        }
        let page = position / (PAGE_SIZE as u32);
        let offset = (position % (PAGE_SIZE as u32)) as usize;
        match self.find_entry(page) {
            Some(i) => {
                if self.entries[i].cached && offset < self.entries[i].rows.len() {
                    ItemRef::Row(&self.entries[i].rows[offset])
                } else {
                    ItemRef::Placeholder
                }
            },
            None => ItemRef::Placeholder,
        }
    }

    /// Pages held.
    pub fn cached_page_count(&self) -> (count: usize)
        requires
            self.wf(),
        ensures
            count == cached_count(self@.entries),
    {
        let mut count: usize = 0;
        let mut k: usize = 0;
        while k < self.entries.len()
            invariant
                self.wf(),
                k <= self.entries@.len(),
                count == cached_count(self@.entries.take(k as int)),
                count <= k,
            decreases self.entries@.len() - k,
        {
            proof {
                assert(self@.entries.take(k + 1).drop_last() =~= self@.entries.take(k as int));
            }
            if self.entries[k].cached {
                count += 1;
            }
            k += 1;
        }
        proof {
            assert(self@.entries.take(k as int) =~= self@.entries);
        }
        count
    }

    /// Rows held by the cached pages.
    pub fn cached_row_count(&self) -> (count: u64)
        requires
            self.wf(),
        ensures
            count == cached_rows(self@.entries),
    {
        let mut count: u64 = 0;
        let mut k: usize = 0;
        while k < self.entries.len()
            invariant
                self.wf(),
                k <= self.entries@.len(),
                count == cached_rows(self@.entries.take(k as int)),
                count <= k * (u32::MAX as int),
            decreases self.entries@.len() - k,
        {
            proof {
                assert(self@.entries.take(k + 1).drop_last() =~= self@.entries.take(k as int));
                let e = self@.entries[k as int];
                if e.rows.len() > 0 {
                    assert(e.rows.len() <= u32::MAX);
                }
            }
            if self.entries[k].cached {
                count += self.entries[k].rows.len() as u64;
            }
            k += 1;
        }
        proof {
            assert(self@.entries.take(k as int) =~= self@.entries);
        }
        count
    }


    /// Handles the reply to a page fetch. See [`CacheView::answered`].
    pub fn page_response(&mut self, page: u32, generation: u64, priority: PageLoadPriority, result: PageResult<T>) -> (effects: CacheEffects)
        requires
            old(self).wf(),
        ensures
            final(self).wf(),
            (final(self)@, effects@) == old(self)@.answered(page, generation, priority, result),
    {
        if generation != self.generation {
            return CacheEffects::none();
        }
        match result {
            PageResult::Loaded(rows) => {
                let (loaded, replacement) = self.install_page(page, generation, rows);
                let mut requests = self.drain_deferred_pages();
                let ghost drained = requests@;
                let mut prefetched: Vec<PageRequest> = Vec::new();
                if loaded && priority == PageLoadPriority::Visible && self.deferred.len() == 0 {
                    prefetched = self.prefetch_adjacent(page);
                }
                let ghost more = prefetched@;
                requests.append(&mut prefetched);
                let effects = CacheEffects {
                    items_changed: Vec::new(),
                    replacements: opt_vec(replacement),
                    requests,
                    schedule_drain: false,
                };
                proof {
                    assert(effects@ =~= EffectsView {
                        replacements: opt_seq(replacement),
                        requests: drained + more,
                        ..no_effects()
                    });
                }
                effects
            },
            PageResult::QueueFull => {
                self.evict_page(page);
                if priority == PageLoadPriority::Visible {
                    self.defer_visible_page(page);
                    self.schedule_deferred_pages();
                    let effects = CacheEffects {
                        items_changed: Vec::new(),
                        replacements: Vec::new(),
                        requests: Vec::new(),
                        schedule_drain: true,
                    };
                    proof {
                        assert(effects@ =~= EffectsView { schedule_drain: true, ..no_effects() });
                    }
                    effects
                } else {
                    CacheEffects::none()
                }
            },
            PageResult::Failed => {
                let replacement = self.handle_page_failure(page, generation, priority);
                let requests = self.drain_deferred_pages();
                let effects = CacheEffects {
                    items_changed: Vec::new(),
                    replacements: opt_vec(replacement),
                    requests,
                    schedule_drain: false,
                };
                proof {
                    assert(effects@ =~= EffectsView {
                        replacements: opt_seq(replacement),
                        requests: effects.requests@,
                        ..no_effects()
                    });
                }
                effects
            },
        }
    }

    /// Handles the reply to the first page's fetch. See
    /// [`CacheView::first_page_answered`].
    pub fn first_page_response(&mut self, generation: u64, result: PageResult<T>) -> (effects: CacheEffects)
        requires
            old(self).wf(),
            match result {
                PageResult::Loaded(rows) => rows@.len() <= u32::MAX,
                _ => true,
            },
        ensures
            final(self).wf(),
            (final(self)@, effects@) == old(self)@.first_page_answered(generation, result),
    {
        if generation != self.generation {
            return CacheEffects::none();
        }
        match result {
            PageResult::Loaded(rows) => {
                if self.total == 0 {
                    let ghost v = self@;
                    remove_page(&mut self.pending, 0);
                    proof {
                        assert(self@ =~= CacheView { pending: v.pending.remove(0), ..v });
                    }
                    let provisional = rows.len() as u32;
                    let (accepted, change) = self.publish_initial_page(generation, provisional, rows);
                    let mut requests: Vec<PageRequest> = Vec::new();
                    if accepted && provisional > PAGE_SIZE as u32 {
                        requests = self.prefetch_adjacent(0);
                    }
                    let effects = CacheEffects {
                        items_changed: opt_vec(change),
                        replacements: Vec::new(),
                        requests,
                        schedule_drain: false,
                    };
                    proof {
                        assert(effects@ =~= EffectsView {
                            items_changed: opt_seq(change),
                            requests: effects.requests@,
                            ..no_effects()
                        });
                    }
                    effects
                } else {
                    let (loaded, replacement) = self.install_page(0, generation, rows);
                    let mut requests = self.drain_deferred_pages();
                    let ghost drained = requests@;
                    let mut prefetched: Vec<PageRequest> = Vec::new();
                    if loaded && self.deferred.len() == 0 {
                        prefetched = self.prefetch_adjacent(0);
                    }
                    let ghost more = prefetched@;
                    requests.append(&mut prefetched);
                    let effects = CacheEffects {
                        items_changed: Vec::new(),
                        replacements: opt_vec(replacement),
                        requests,
                        schedule_drain: false,
                    };
                    proof {
                        assert(effects@ =~= EffectsView {
                            replacements: opt_seq(replacement),
                            requests: drained + more,
                            ..no_effects()
                        });
                    }
                    effects
                }
            },
            _ => {
                self.evict_page(0);
                CacheEffects::none()
            },
        }
    }

    /// Publishes a prepared first page after a reload. See
    /// [`CacheView::prepared_published`].
    pub fn prepared_page_ready(&mut self, generation: u64, total: u32, rows: Vec<LoadedRow<T>>) -> (effects: CacheEffects)
        requires
            old(self).wf(),
            rows@.len() <= u32::MAX,
        ensures
            final(self).wf(),
            (final(self)@, effects@) == old(self)@.prepared_published(generation, total, rows@),
    {
        let (accepted, change) = self.publish_initial_page(generation, total, rows);
        let mut requests: Vec<PageRequest> = Vec::new();
        if accepted && total > PAGE_SIZE as u32 {
            requests = self.prefetch_adjacent(0);
        }
        let effects = CacheEffects {
            items_changed: opt_vec(change),
            replacements: Vec::new(),
            requests,
            schedule_drain: false,
        };
        proof {
            assert(effects@ =~= EffectsView {
                items_changed: opt_seq(change),
                requests: effects.requests@,
                ..no_effects()
            });
        }
        effects
    }

    /// The row count of generation `generation` arrived: applied as the
    /// exact total, saturated to the rows a list can hold. Hands back whether
    /// it applied, and the row count change to announce.
    pub fn count_response(&mut self, generation: u64, count: usize) -> (result: (bool, Option<ItemsChanged>))
        requires
            old(self).wf(),
        ensures
            final(self).wf(),
            (final(self)@, result.0, result.1) == old(self)@.with_exact_total(
                generation,
                if count > u32::MAX {
                    u32::MAX
                } else {
                    count as u32
                },
            ),
    {
        let exact: u32 = if count > u32::MAX as usize {
            u32::MAX
        } else {
            count as u32
        };
        self.apply_exact_total(generation, exact)
    }

    /// Caches `page` with `rows` weighing `payload` as the most recently
    /// used page, then evicts as the limits demand.
    fn store(&mut self, page: u32, rows: Vec<RowSlot<T>>, payload: usize)
        requires
            old(self).shaped(),
            rows@.len() > 0 ==> page * PAGE_SIZE + rows@.len() <= u32::MAX,
        ensures
            final(self).wf(),
            final(self)@ == old(self)@.stored(page, rows@, payload),
    {
        let ghost v = self@;
        let ghost new_entry = PageEntry { page, cached: true, rows: rows@, payload };
        proof {
            lemma_pushed_shaped(v, page, rows@, payload);
        }
        let found = self.find_entry(page);
        let mut prev: usize = 0;
        match found {
            Some(i) => {
                let e = self.entries.remove(i);
                prev = e.payload;
                proof {
                    assert(entries_view(self.entries@) =~= v.entries.remove(i as int));
                }
            },
            None => {},
        }
        let ghost base = entries_view(self.entries@);
        self.cached_payload = self.cached_payload.saturating_sub(prev).saturating_add(payload);
        self.entries.push(CachedPage { page, cached: true, rows, payload });
        proof {
            assert(entries_view(self.entries@) =~= base.push(new_entry));
            assert(self@ =~= v.pushed(page, new_entry.rows, payload));
        }
        self.settle();
    }

    /// Makes `page`'s entry, the `i`th, the most recently used, then evicts
    /// as the limits demand.
    fn touch(&mut self, i: usize)
        requires
            old(self).shaped(),
            i < old(self)@.entries.len(),
        ensures
            final(self).wf(),
            final(self)@ == old(self)@.touched(old(self)@.entries[i as int].page),
    {
        let ghost v = self@;
        proof {
            lemma_entry_index(v.entries, v.entries[i as int].page, i as int);
        }
        let e = self.entries.remove(i);
        self.entries.push(e);
        proof {
            let w = CacheView {
                entries: v.entries.remove(i as int).push(v.entries[i as int]),
                ..v
            };
            assert(entries_view(self.entries@) =~= w.entries);
            assert(self@ =~= w);
            lemma_payload_sum_remove(v.entries, i as int);
            lemma_payload_sum_push(v.entries.remove(i as int), v.entries[i as int]);
            assert forall|a: int, b: int|
                0 <= a < b < w.entries.len() implies #[trigger] w.entries[a].page
                != #[trigger] w.entries[b].page by {
                let a2 = if a < i { a } else { a + 1 };
                let b2 = if b == w.entries.len() - 1 {
                    i as int
                } else if b < i {
                    b
                } else {
                    b + 1
                };
                assert(w.entries[a] == v.entries[a2]);
                assert(w.entries[b] == v.entries[b2]);
            }
            assert forall|a: int| 0 <= a < w.entries.len() implies {
                let e = #[trigger] w.entries[a];
                &&& !e.cached ==> e.rows.len() == 0 && e.payload == 0
                &&& e.rows.len() > 0 ==> e.page * PAGE_SIZE + e.rows.len() <= u32::MAX
            } by {
                let a2 = if a == w.entries.len() - 1 {
                    i as int
                } else if a < i {
                    a
                } else {
                    a + 1
                };
                assert(w.entries[a] == v.entries[a2]);
            }
            assert(w.shaped());
        }
        self.settle();
    }

    /// Drops `page` from the cache, from the fetching and from the failed
    /// pages; its entry keeps its place in the recency list.
    pub fn evict_page(&mut self, page: u32)
        requires
            old(self).wf(),
        ensures
            final(self).wf(),
            final(self)@ == old(self)@.evicted(page),
    {
        let ghost v = self@;
        let found = self.find_entry(page);
        match found {
            Some(i) => {
                let payload = self.entries[i].payload;
                self.cached_payload = self.cached_payload.saturating_sub(payload);
                self.entries.set(i, CachedPage { page, cached: false, rows: Vec::new(), payload: 0 });
                proof {
                    let e = PageEntry { page, cached: false, rows: Seq::<RowSlot<T>>::empty(), payload: 0 };
                    assert(entries_view(self.entries@) =~= v.entries.update(i as int, e));
                    lemma_payload_sum_update(v.entries, i as int, e);
                    lemma_payload_sum_nonneg(v.entries.update(i as int, e));
                }
            },
            None => {},
        }
        remove_page(&mut self.pending, page);
        remove_page(&mut self.failed, page);
        proof {
            let w = v.evicted(page);
            assert(self@ =~= w);
            assert forall|a: int, b: int|
                0 <= a < b < w.entries.len() implies #[trigger] w.entries[a].page
                != #[trigger] w.entries[b].page by {
                assert(v.entries[a].page != v.entries[b].page);
            }
            assert forall|a: int| 0 <= a < w.entries.len() implies {
                let e = #[trigger] w.entries[a];
                &&& !e.cached ==> e.rows.len() == 0 && e.payload == 0
                &&& e.rows.len() > 0 ==> e.page * PAGE_SIZE + e.rows.len() <= u32::MAX
            } by {
                assert(v.entries[a].page == w.entries[a].page);
            }
        }
    }

    /// The eviction loop: while more than four entries or more than two
    /// mebibytes are held, the least recently used entry falls off.
    fn settle(&mut self)
        requires
            old(self).shaped(),
        ensures
            final(self).wf(),
            final(self)@ == old(self)@.settled(),
    {
        proof {
            lemma_settled_wf(self@);
        }
        while self.entries.len() > MAX_CACHED_PAGES || self.cached_payload
            > MAX_CACHED_PAYLOAD_BYTES
            invariant
                self.shaped(),
                self@.settled() == old(self)@.settled(),
            decreases self.entries@.len(),
        {
            proof {
                if self.entries@.len() == 0 {
                    assert(payload_sum(self@.entries) == 0);
                }
            }
            let ghost v = self@;
            let evicted = self.entries.remove(0);
            self.cached_payload = self.cached_payload.saturating_sub(evicted.payload);
            remove_page(&mut self.pending, evicted.page);
            remove_page(&mut self.failed, evicted.page);
            proof {
                let e = v.entries[0];
                assert(entries_view(self.entries@) =~= v.entries.drop_first());
                let w = CacheView {
                    entries: v.entries.drop_first(),
                    cached_payload: v.cached_payload.saturating_sub(e.payload),
                    pending: v.pending.remove(e.page),
                    failed: v.failed.remove(e.page),
                    ..v
                };
                assert(self@ =~= w);
                lemma_payload_sum_remove(v.entries, 0);
                assert(v.entries.remove(0) =~= v.entries.drop_first());
                lemma_payload_sum_nonneg(w.entries);
                assert forall|i: int, j: int|
                    0 <= i < j < w.entries.len() implies #[trigger] w.entries[i].page
                    != #[trigger] w.entries[j].page by {
                    assert(w.entries[i] == v.entries[i + 1]);
                    assert(w.entries[j] == v.entries[j + 1]);
                }
                assert forall|i: int| 0 <= i < w.entries.len() implies {
                    let e = #[trigger] w.entries[i];
                    &&& !e.cached ==> e.rows.len() == 0 && e.payload == 0
                    &&& e.rows.len() > 0 ==> e.page * PAGE_SIZE + e.rows.len() <= u32::MAX
                } by {
                    assert(w.entries[i] == v.entries[i + 1]);
                }
            }
        }
    }
}


proof fn lemma_cached_count_bound<T>(entries: Seq<PageEntry<T>>)
    ensures
        cached_count(entries) <= entries.len(),
    decreases entries.len(),
{
    if entries.len() > 0 {
        lemma_cached_count_bound(entries.drop_last());
    }
}

/// The cache never holds more than four pages nor accounts for more than
/// two mebibytes of row payload, and never has more than two fetches in
/// flight nor more than two visible pages waiting.
pub proof fn cache_stays_within_its_limits<T>(model: &PagedSoundModel<T>)
    requires
        model.wf(),
    ensures
        cached_count(model@.entries) <= MAX_CACHED_PAGES,
        model@.cached_payload <= MAX_CACHED_PAYLOAD_BYTES,
        model@.pending.len() <= MAX_PENDING_PAGE_LOADS,
        model@.deferred.len() <= MAX_PENDING_PAGE_LOADS,
{
    lemma_cached_count_bound(model@.entries);
}

/// A reply, a row count or a page reservation for another generation than
/// the current one is refused and changes nothing.
pub proof fn stale_replies_change_nothing<T>(
    v: CacheView<T>,
    generation: u64,
    page: u32,
    priority: PageLoadPriority,
    rows: Seq<LoadedRow<T>>,
    total: u32,
    result: PageResult<T>,
)
    requires
        generation != v.generation,
    ensures
        v.installed(page, generation, rows) == (v, false, None::<Replacement>),
        v.page_failed(page, generation) == (v, false, None::<Replacement>),
        v.failure_handled(page, generation, priority) == (v, None::<Replacement>),
        v.published(generation, total, rows) == (v, false, None::<ItemsChanged>),
        v.with_exact_total(generation, total) == (v, false, None::<ItemsChanged>),
        v.placeholder_inserted(page, generation) == (v, false),
        v.answered(page, generation, priority, result) == (v, no_effects()),
        v.first_page_answered(generation, result) == (v, no_effects()),
{
}

/// Announcing the reconciled row count keeps the list in step with the
/// cache: the announced change turns the old count into the exact one, at
/// the end of the list, and nothing is announced when they agree.
pub proof fn exact_total_announcement_balances<T>(v: CacheView<T>, generation: u64, exact: u32)
    requires
        generation == v.generation,
    ensures
        ({
            let (w, applied, change) = v.with_exact_total(generation, exact);
            &&& applied
            &&& w.total == exact
            &&& w.entries == v.entries
            &&& match change {
                Some(c) => c.position as int == if exact < v.total {
                    exact as int
                } else {
                    v.total as int
                } && v.total - c.removed + c.added == exact && (c.removed == 0 || c.added
                    == 0),
                None => exact == v.total,
            }
        }),
{
}

/// A replacement never reaches past the rows the list was told of, and is
/// only announced for at least one row.
pub proof fn replacements_stay_within_the_list<T>(
    v: CacheView<T>,
    generation: u64,
    start: u32,
    len: u32,
    record_first_rows: bool,
)
    ensures
        match v.replacement(generation, start, len, record_first_rows) {
            Some(r) => r.start == start && 0 < r.len <= len && r.start + r.len <= v.total
                && r.generation == generation,
            None => len == 0 || start >= v.total,
        },
{
}

/// The chunks of a replacement cover its rows exactly: consecutive, each of
/// [`ROW_CHANGE_CHUNK`] rows but the last, which holds the rest.
pub proof fn chunks_cover_the_replaced_rows(start: u32, len: u32)
    requires
        start + len <= u32::MAX,
    ensures
        ({
            let count = (len + ROW_CHANGE_CHUNK - 1) / ROW_CHANGE_CHUNK as int;
            &&& forall|k: int|
                0 <= k < count ==> (#[trigger] chunk(start, len, k)).0 == start + k
                    * ROW_CHANGE_CHUNK && chunk(start, len, k).1 > 0
            &&& forall|k: int|
                0 <= k < count - 1 ==> (#[trigger] chunk(start, len, k)).1 == ROW_CHANGE_CHUNK
            &&& count > 0 ==> (count - 1) * ROW_CHANGE_CHUNK + chunk(start, len, count - 1).1
                == len
        }),
{
    let count = (len + ROW_CHANGE_CHUNK - 1) / ROW_CHANGE_CHUNK as int;
    vstd::arithmetic::div_mod::lemma_fundamental_div_mod(
        len + ROW_CHANGE_CHUNK - 1,
        ROW_CHANGE_CHUNK as int,
    );
    vstd::arithmetic::div_mod::lemma_mod_bound(len + ROW_CHANGE_CHUNK - 1, ROW_CHANGE_CHUNK as int);
    assert forall|k: int| 0 <= k < count implies (#[trigger] chunk(start, len, k)).0 == start + k
        * ROW_CHANGE_CHUNK && chunk(start, len, k).1 > 0 by {
        assert(k * ROW_CHANGE_CHUNK <= (count - 1) * ROW_CHANGE_CHUNK) by (nonlinear_arith)
            requires
                k <= count - 1,
        ;
    }
    assert forall|k: int| 0 <= k < count - 1 implies (#[trigger] chunk(start, len, k)).1
        == ROW_CHANGE_CHUNK by {
        assert(k * ROW_CHANGE_CHUNK <= (count - 2) * ROW_CHANGE_CHUNK) by (nonlinear_arith)
            requires
                k <= count - 2,
        ;
    }
}

/// A visible page that has to wait goes to the back of the waiting pages,
/// once; only the latest two stay.
pub proof fn latest_waiting_pages_win(deferred: Seq<u32>, page: u32)
    requires
        deferred.no_duplicates(),
        deferred.len() <= MAX_PENDING_PAGE_LOADS,
    ensures
        deferred_after(deferred, page).len() <= MAX_PENDING_PAGE_LOADS,
        deferred_after(deferred, page).len() > 0,
        deferred_after(deferred, page).last() == page,
        deferred_after(deferred, page).no_duplicates(),
        deferred.len() == MAX_PENDING_PAGE_LOADS && !deferred.contains(page) ==> deferred_after(
            deferred,
            page,
        ) == seq![deferred[1], page],
{
    deferred.index_of_first_ensures(page);
    let removed = deferred.remove_value(page);
    let queued = removed.push(page);
    match deferred.index_of_first(page) {
        Some(k) => {
            assert(removed == deferred.remove(k));
            assert forall|a: int, b: int|
                0 <= a < removed.len() && 0 <= b < removed.len() && a != b implies removed[a]
                != removed[b] by {
                let a2 = if a < k { a } else { a + 1 };
                let b2 = if b < k { b } else { b + 1 };
                assert(removed[a] == deferred[a2]);
                assert(removed[b] == deferred[b2]);
            }
            assert(!removed.contains(page)) by {
                if removed.contains(page) {
                    let j = choose|j: int| 0 <= j < removed.len() && removed[j] == page;
                    let j2 = if j < k { j } else { j + 1 };
                    assert(deferred[j2] == page);
                }
            }
        },
        None => {
            assert(removed == deferred);
        },
    }
    assert forall|a: int, b: int|
        0 <= a < queued.len() && 0 <= b < queued.len() && a != b implies queued[a]
        != queued[b] by {
        if a == queued.len() - 1 {
            assert(removed.contains(queued[b]));
        } else if b == queued.len() - 1 {
            assert(removed.contains(queued[a]));
        } else {
            assert(queued[a] == removed[a]);
            assert(queued[b] == removed[b]);
        }
    }
    let r = deferred_after(deferred, page);
    if queued.len() > MAX_PENDING_PAGE_LOADS {
        let off = queued.len() - MAX_PENDING_PAGE_LOADS;
        assert forall|a: int, b: int|
            0 <= a < r.len() && 0 <= b < r.len() && a != b implies r[a] != r[b] by {
            assert(r[a] == queued[a + off]);
            assert(r[b] == queued[b + off]);
        }
        if deferred.len() == MAX_PENDING_PAGE_LOADS && !deferred.contains(page) {
            assert(r =~= seq![deferred[1], page]);
        }
    }
}

/// Rows fetched for a cached page of the current generation are what the
/// list shows at their positions right after, unless the page alone weighs
/// more than the payload limit.
pub proof fn installed_rows_are_shown<T>(
    v: CacheView<T>,
    page: u32,
    generation: u64,
    rows: Seq<LoadedRow<T>>,
    k: int,
)
    requires
        v.wf(),
        generation == v.generation,
        is_cached(v.entries, page),
        0 <= k < rows.len(),
        k < PAGE_SIZE,
        k < v.entries[entry_index(v.entries, page)].rows.len(),
        rows_payload(rows_installed(v.entries[entry_index(v.entries, page)].rows, rows))
            <= MAX_CACHED_PAYLOAD_BYTES,
    ensures
        ({
            let (w, installed, _replacement) = v.installed(page, generation, rows);
            let position = (page * PAGE_SIZE + k) as u32;
            &&& installed
            &&& w.row_cached(position)
            &&& w.cached_row(position) == RowSlot::Loaded(rows[k])
        }),
{
    let j = choose|j: int| 0 <= j < v.entries.len() && v.entries[j].page == page && v.entries[j].cached;
    lemma_entry_index(v.entries, page, j);
    let v1 = CacheView { pending: v.pending.remove(page), failed: v.failed.remove(page), ..v };
    assert(v1.pending.subset_of(v.pending));
    vstd::set_lib::lemma_len_subset(v1.pending, v.pending);
    assert(v1.shaped());
    let old_rows = v1.entries[j].rows;
    let new_rows = rows_installed(old_rows, rows);
    let payload = rows_payload(new_rows);
    assert(new_rows.len() > 0 ==> page * PAGE_SIZE + new_rows.len() <= u32::MAX);
    lemma_pushed_shaped(v1, page, new_rows, payload);
    let p = v1.pushed(page, new_rows, payload);
    lemma_settled_keeps_last(p);
    lemma_settled_wf(p);
    let w = p.settled();
    lemma_entry_index(w.entries, page, w.entries.len() - 1);
    let position = (page * PAGE_SIZE + k) as u32;
    assert(position / (PAGE_SIZE as u32) == page);
    assert(position % (PAGE_SIZE as u32) == k);
}

/// A page that failed to load shows failed rows and can be retried from any
/// of its rows right after.
pub proof fn failed_page_can_be_retried<T>(v: CacheView<T>, page: u32, generation: u64, position: u32)
    requires
        v.wf(),
        generation == v.generation,
        is_cached(v.entries, page),
        position / (PAGE_SIZE as u32) == page,
    ensures
        ({
            let (w, failed, _replacement) = v.page_failed(page, generation);
            &&& failed
            &&& w.failed.contains(page)
            &&& w.retried(position).1
        }),
{
    let j = choose|j: int| 0 <= j < v.entries.len() && v.entries[j].page == page && v.entries[j].cached;
    lemma_entry_index(v.entries, page, j);
    let v1 = CacheView { pending: v.pending.remove(page), ..v };
    assert(v1.pending.subset_of(v.pending));
    vstd::set_lib::lemma_len_subset(v1.pending, v.pending);
    let n = v1.entries[j].rows.len();
    let v2 = CacheView { failed: v1.failed.insert(page), ..v1 };
    assert(v2.shaped());
    lemma_pushed_shaped(v2, page, placeholders(n, true), 0);
    let p = v2.pushed(page, placeholders(n, true), 0);
    lemma_settled_keeps_last(p);
}

/// A reload starts a new generation: nothing is announced, and nothing is
/// cached or fetched but the reserved first page, which holds loading rows
/// only.
pub proof fn reload_starts_afresh<T>(v: CacheView<T>, prepared_first_page: bool)
    requires
        v.wf(),
    ensures
        ({
            let (w, plan) = v.reloaded(prepared_first_page);
            &&& w.generation != v.generation
            &&& plan.generation == w.generation
            &&& w.total == 0
            &&& w.deferred.len() == 0
            &&& w.failed.len() == 0
            &&& forall|i: int|
                0 <= i < w.entries.len() ==> (#[trigger] w.entries[i]).page == 0 && forall|r: int|
                    0 <= r < w.entries[i].rows.len() ==> #[trigger] w.entries[i].rows[r]
                        is Loading
            &&& prepared_first_page ==> w.entries.len() == 0 && plan.first_page is None
        }),
{
    let (w, plan) = v.reloaded(prepared_first_page);
    assert(v.generation.wrapping_add(1) != v.generation);
    if !prepared_first_page {
        let fresh = CacheView::<T> {
            total: 0,
            generation: v.generation.wrapping_add(1),
            entries: Seq::empty(),
            pending: Set::empty(),
            failed: Set::empty(),
            deferred: Seq::empty(),
            cached_payload: 0,
            drain_scheduled: false,
            first_page_generation: None,
        };
        let p = fresh.pushed(0, placeholders(PAGE_SIZE as nat, false), 0);
        assert(p.entries =~= seq![PageEntry { page: 0, cached: true, rows: placeholders(PAGE_SIZE as nat, false), payload: 0 }]);
        assert(p.settled() == p);
        lemma_settled_frame(p);
        assert(w.failed =~= Set::<u32>::empty());
    }
}


/// Settling drops only the least recently used entries: what stays is the
/// most recently used end of the recency list, in its order.
pub proof fn settling_drops_the_least_recent_first<T>(v: CacheView<T>)
    ensures
        exists|k: int| 0 <= k <= v.entries.len() && v.settled().entries == v.entries.skip(k),
    decreases v.entries.len(),
{
    if v.entries.len() > 0 && (v.entries.len() > MAX_CACHED_PAGES || v.cached_payload
        > MAX_CACHED_PAYLOAD_BYTES) {
        let e = v.entries[0];
        let w = CacheView {
            entries: v.entries.drop_first(),
            cached_payload: v.cached_payload.saturating_sub(e.payload),
            pending: v.pending.remove(e.page),
            failed: v.failed.remove(e.page),
            ..v
        };
        settling_drops_the_least_recent_first(w);
        let k = choose|k: int| 0 <= k <= w.entries.len() && w.settled().entries == w.entries.skip(k);
        assert(w.entries.skip(k) =~= v.entries.skip(k + 1));
    } else {
        assert(v.entries.skip(0) =~= v.entries);
    }
}

/// Within the cache's limits, settling leaves the cache as it is.
proof fn lemma_settled_within_limits<T>(v: CacheView<T>)
    requires
        v.entries.len() <= MAX_CACHED_PAGES,
        v.cached_payload <= MAX_CACHED_PAYLOAD_BYTES,
    ensures
        v.settled() == v,
{
}

/// Asking for a cached page makes it the most recently used: its entry
/// moves to the end of the recency list, the other entries keep their
/// order, nothing is evicted and no fetch is asked for.
pub proof fn asking_for_a_cached_page_makes_it_most_recent<T>(
    v: CacheView<T>,
    i: int,
    priority: PageLoadPriority,
)
    requires
        v.wf(),
        0 <= i < v.entries.len(),
        v.entries[i].cached,
    ensures
        ({
            let (w, r) = v.ensured(v.entries[i].page, priority);
            &&& r is None
            &&& w.entries.len() == v.entries.len()
            &&& w.entries.last() == v.entries[i]
            &&& forall|j: int| 0 <= j < i ==> w.entries[j] == v.entries[j]
            &&& forall|j: int| i <= j < v.entries.len() - 1 ==> w.entries[j] == v.entries[j + 1]
            &&& w.pending == v.pending
            &&& w.failed == v.failed
            &&& w.cached_payload == v.cached_payload
        }),
{
    let page = v.entries[i].page;
    lemma_entry_index(v.entries, page, i);
    let t = CacheView { entries: v.entries.remove(i).push(v.entries[i]), ..v };
    lemma_settled_within_limits(t);
}

/// After a cached page was asked for, asking for a page that is not in the
/// recency list keeps the first page cached: making room drops the least
/// recently used entry, never the page just asked for while older entries
/// remain.
pub proof fn a_page_just_asked_for_outlives_older_pages<T>(
    v: CacheView<T>,
    i: int,
    next_page: u32,
    first_priority: PageLoadPriority,
    next_priority: PageLoadPriority,
)
    requires
        v.wf(),
        0 <= i < v.entries.len(),
        v.entries[i].cached,
        forall|j: int| 0 <= j < v.entries.len() ==> v.entries[j].page != next_page,
        v.pending.len() < MAX_PENDING_PAGE_LOADS,
    ensures
        ({
            let (w, _) = v.ensured(v.entries[i].page, first_priority);
            let (x, _) = w.ensured(next_page, next_priority);
            &&& x.entries.contains(v.entries[i])
            &&& (v.entries.len() == MAX_CACHED_PAGES && page_len(v.total, next_page) > 0) ==> x.entries
                == w.entries.drop_first().push(
                PageEntry {
                    page: next_page,
                    cached: true,
                    rows: placeholders(page_len(v.total, next_page) as nat, false),
                    payload: 0,
                },
            )
        }),
{
    let page = v.entries[i].page;
    asking_for_a_cached_page_makes_it_most_recent(v, i, first_priority);
    let (w, _) = v.ensured(page, first_priority);
    assert(w.entries.contains(v.entries[i])) by {
        assert(w.entries[w.entries.len() - 1] == v.entries[i]);
    }
    assert forall|j: int| 0 <= j < w.entries.len() implies w.entries[j].page != next_page by {
        if j < i {
            assert(w.entries[j] == v.entries[j]);
        } else if j < w.entries.len() - 1 {
            assert(w.entries[j] == v.entries[j + 1]);
        } else {
            assert(w.entries[j] == v.entries[i]);
        }
    }
    assert(entry_index(w.entries, next_page) == -1);
    let len = page_len(w.total, next_page);
    if len > 0 {
        let new_entry = PageEntry {
            page: next_page,
            cached: true,
            rows: placeholders::<T>(len as nat, false),
            payload: 0,
        };
        let pushed = w.pushed(next_page, placeholders(len as nat, false), 0);
        assert(pushed.entries == w.entries.push(new_entry));
        assert(pushed.cached_payload == w.cached_payload);
        if w.entries.len() < MAX_CACHED_PAGES {
            lemma_settled_within_limits(pushed);
            assert(pushed.entries[w.entries.len() - 1] == v.entries[i]);
        } else {
            let e = pushed.entries[0];
            let y = CacheView {
                entries: pushed.entries.drop_first(),
                cached_payload: pushed.cached_payload.saturating_sub(e.payload),
                pending: pushed.pending.remove(e.page),
                failed: pushed.failed.remove(e.page),
                ..pushed
            };
            lemma_settled_within_limits(y);
            assert(pushed.settled() == y);
            assert(y.entries =~= w.entries.drop_first().push(new_entry));
            assert(y.entries[w.entries.len() - 2] == v.entries[i]);
        }
    }
}

} // verus!
