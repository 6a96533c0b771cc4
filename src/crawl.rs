use crate::model::Summary;
use vstd::prelude::*;

verus! {

/// Number of summaries in a full enumeration page; a shorter page ends the walk.
pub const DEFAULT_PAGE_SIZE: usize = 100;

/// Largest number of ids that one hydration call may receive.
pub const MAX_BATCH: usize = 100;

/// The opaque ids of the non-fork summaries of a page, in page order.
pub open spec fn nonfork_ids(page: Seq<Summary>) -> Seq<String>
    decreases page.len(),
{
    if page.len() == 0 {
        Seq::empty()
    } else if page.last().fork {
        nonfork_ids(page.drop_last())
    } else {
        nonfork_ids(page.drop_last()).push(page.last().opaque_id)
    }
}

/// The id that the summary at `i` must exceed: its predecessor's, or the cursor for the first.
pub open spec fn id_before(cursor: u64, page: Seq<Summary>, i: int) -> u64 {
    if i == 0 {
        cursor
    } else {
        page[i - 1].id
    }
}

/// A page lists ids strictly increasing and strictly after `cursor`.
pub open spec fn page_follows(cursor: u64, page: Seq<Summary>) -> bool {
    forall|i: int| 0 <= i < page.len() ==> #[trigger] id_before(cursor, page, i) < page[i].id
}

/// The cursor after walking a page: the id of its last summary, fork or not.
pub open spec fn cursor_after(cursor: u64, page: Seq<Summary>) -> u64 {
    if page.len() == 0 {
        cursor
    } else {
        page.last().id
    }
}

/// The abstract state of a crawl.
pub struct CrawlView {
    /// Highest numeric id enumerated so far; the resume point.
    pub cursor: u64,
    /// Candidates waiting for hydration, oldest first.
    pub buffer: Seq<String>,
    pub page_size: nat,
    pub batch_limit: nat,
    /// Set once a short page has been walked.
    pub done: bool,
}

impl CrawlView {
    pub open spec fn wf(self) -> bool {
        &&& self.page_size >= 1
        &&& 1 <= self.batch_limit <= MAX_BATCH
    }

    /// Buffer contents after a page is walked, before any flush.
    pub open spec fn pending(self, page: Seq<Summary>) -> Seq<String> {
        self.buffer + nonfork_ids(page)
    }

    pub open spec fn is_short(self, page: Seq<Summary>) -> bool {
        page.len() < self.page_size
    }

    /// A flush follows a page when the walk is exhausted or the buffer reached the limit.
    pub open spec fn flush_due(self, page: Seq<Summary>) -> bool {
        self.is_short(page) || self.pending(page).len() >= self.batch_limit
    }

    /// Where the buffer is split on a flush: everything on exhaustion,
    /// else the newest `batch_limit` ids.
    pub open spec fn cutoff(self, page: Seq<Summary>) -> int {
        if self.is_short(page) {
            0
        } else {
            self.pending(page).len() - self.batch_limit
        }
    }

    /// The state after walking `page` and performing any flush it triggers.
    pub open spec fn after_page(self, page: Seq<Summary>) -> CrawlView {
        CrawlView {
            cursor: cursor_after(self.cursor, page),
            buffer: if self.flush_due(page) {
                self.pending(page).subrange(0, self.cutoff(page))
            } else {
                self.pending(page)
            },
            page_size: self.page_size,
            batch_limit: self.batch_limit,
            done: self.is_short(page),
        }
    }

    /// The ids handed to hydration after walking `page`, if a flush is due.
    pub open spec fn batch(self, page: Seq<Summary>) -> Option<Seq<String>> {
        if self.flush_due(page) {
            Some(self.pending(page).subrange(self.cutoff(page), self.pending(page).len() as int))
        } else {
            None
        }
    }
}

/// The state of a crawl: the cursor, the buffer of candidates and the limits.
pub struct Crawl {
    cursor: u64,
    buffer: Vec<String>,
    page_size: usize,
    batch_limit: usize,
    done: bool,
}

impl View for Crawl {
    type V = CrawlView;

    closed spec fn view(&self) -> CrawlView {
        CrawlView {
            cursor: self.cursor,
            buffer: self.buffer@,
            page_size: self.page_size as nat,
            batch_limit: self.batch_limit as nat,
            done: self.done,
        }
    }
}

} // verus!

verus! {

impl Crawl {
    /// Starts or resumes a crawl from the persisted cursor (zero when none),
    /// with full pages of `DEFAULT_PAGE_SIZE` and batches of `MAX_BATCH`.
    pub fn new(persisted: Option<u64>) -> (r: Crawl)
        ensures
            r@ == (CrawlView {
                cursor: match persisted {
                    Some(c) => c,
                    None => 0,
                },
                buffer: Seq::empty(),
                page_size: DEFAULT_PAGE_SIZE as nat,
                batch_limit: MAX_BATCH as nat,
                done: false,
            }),
            r@.wf(),
    {
        let cursor: u64 = match persisted {
            Some(c) => c,
            None => 0,
        };
        Crawl {
            cursor,
            buffer: Vec::new(),
            page_size: DEFAULT_PAGE_SIZE,
            batch_limit: MAX_BATCH,
            done: false,
        }
    }

    /// Like `new`, with a page size and a batch limit of the caller's choice.
    /// Refused when the page size is zero or the limit is not in `1..=MAX_BATCH`.
    pub fn with_limits(persisted: Option<u64>, page_size: usize, batch_limit: usize) -> (r: Option<
        Crawl,
    >)
        ensures
            r is Some <==> (page_size >= 1 && 1 <= batch_limit <= MAX_BATCH),
            r matches Some(c) ==> c@ == (CrawlView {
                cursor: match persisted {
                    Some(c) => c,
                    None => 0,
                },
                buffer: Seq::empty(),
                page_size: page_size as nat,
                batch_limit: batch_limit as nat,
                done: false,
            }) && c@.wf(),
    {
        if page_size == 0 || batch_limit == 0 || batch_limit > MAX_BATCH {
            return None;
        }
        let cursor: u64 = match persisted {
            Some(c) => c,
            None => 0,
        };
        Some(Crawl { cursor, buffer: Vec::new(), page_size, batch_limit, done: false })
    }

    /// The id after which the next page is to be fetched, and the value to persist.
    pub fn cursor(&self) -> (r: u64)
        ensures
            r == self@.cursor,
    {
        self.cursor
    }

    /// Candidates waiting for hydration, oldest first.
    pub fn buffer(&self) -> (r: &Vec<String>)
        ensures
            r@ == self@.buffer,
    {
        &self.buffer
    }

    /// Whether a short page has been walked, which ends the crawl.
    pub fn is_done(&self) -> (r: bool)
        ensures
            r == self@.done,
    {
        self.done
    }

    /// Whether `page` is one that enumeration may return next: no longer than
    /// a full page, ids strictly increasing and after the cursor.
    pub fn accepts_page(&self, page: &Vec<Summary>) -> (r: bool)
        ensures
            r == (page@.len() <= self@.page_size && page_follows(self@.cursor, page@)),
    {
        if page.len() > self.page_size {
            return false;
        }
        let mut prev: u64 = self.cursor;
        let mut i: usize = 0;
        while i < page.len()
            invariant
                i <= page@.len(),
                prev == id_before(self.cursor, page@, i as int),
                forall|j: int| 0 <= j < i ==> #[trigger] id_before(self.cursor, page@, j) < page@[j].id,
            decreases page@.len() - i,
        {
            if page[i].id <= prev {
                assert(!(id_before(self.cursor, page@, i as int) < page@[i as int].id));
                return false;
            }
            prev = page[i].id;
            i += 1;
        }
        true
    }
}

} // verus!

verus! {

impl Crawl {
    /// Walks one fetched page: queues the opaque id of every non-fork summary,
    /// moves the cursor to the last summary's id, and performs the flush the
    /// page triggers. On exhaustion (a short page) the whole buffer is handed
    /// back; otherwise, once the buffer holds `batch_limit` ids or more, its
    /// newest `batch_limit` ids are handed back and the older head is kept.
    /// The cursor to persist afterwards is `cursor()`, whether or not a batch
    /// came back.
    pub fn absorb_page(&mut self, page: &Vec<Summary>) -> (batch: Option<Vec<String>>)
        requires
            old(self)@.wf(),
            !old(self)@.done,
            page@.len() <= old(self)@.page_size,
            page_follows(old(self)@.cursor, page@),
        ensures
            final(self)@ == old(self)@.after_page(page@),
            final(self)@.wf(),
            match batch {
                Some(b) => old(self)@.batch(page@) == Some(b@),
                None => old(self)@.batch(page@) is None,
            },
    {
        let ghost start = self@;
        let n = page.len();
        let mut i: usize = 0;
        while i < n
            invariant
                n == page@.len(),
                i <= n,
                self@.buffer == start.buffer + nonfork_ids(page@.subrange(0, i as int)),
                self@.cursor == cursor_after(start.cursor, page@.subrange(0, i as int)),
                self.page_size == start.page_size,
                self.batch_limit == start.batch_limit,
                self.done == start.done,
            decreases n - i,
        {
            let s = &page[i];
            proof {
                let prefix = page@.subrange(0, i as int);
                assert(page@.subrange(0, i + 1).drop_last() == prefix);
                assert(page@.subrange(0, i + 1).last() == page@[i as int]);
            }
            if !s.fork {
                self.buffer.push(s.opaque_id.clone());
            }
            self.cursor = s.id;
            i += 1;
        }
        assert(page@.subrange(0, n as int) == page@);
        let finished = n < self.page_size;
        self.done = finished;
        if finished || self.buffer.len() >= self.batch_limit {
            let cutoff: usize = if finished {
                0
            } else {
                self.buffer.len() - self.batch_limit
            };
            Some(self.buffer.split_off(cutoff))
        } else {
            None
        }
    }
}

} // verus!

verus! {

/// Pages fetched one after another from `start`, each after the cursor the
/// previous ones left.
pub open spec fn pages_follow(start: u64, pages: Seq<Seq<Summary>>) -> bool
    decreases pages.len(),
{
    pages.len() == 0 || (pages_follow(start, pages.drop_last()) && page_follows(
        cursor_through(start, pages.drop_last()),
        pages.last(),
    ))
}

/// The cursor after walking `pages` in turn from `start`.
pub open spec fn cursor_through(start: u64, pages: Seq<Seq<Summary>>) -> u64
    decreases pages.len(),
{
    if pages.len() == 0 {
        start
    } else {
        cursor_after(cursor_through(start, pages.drop_last()), pages.last())
    }
}

/// Every id of a page that follows `cursor` lies after it.
pub proof fn lemma_page_after_cursor(cursor: u64, page: Seq<Summary>)
    requires
        page_follows(cursor, page),
    ensures
        forall|i: int| 0 <= i < page.len() ==> cursor < #[trigger] page[i].id,
        cursor <= cursor_after(cursor, page),
{
    assert forall|i: int| 0 <= i < page.len() implies cursor < #[trigger] page[i].id by {
        lemma_page_prefix_after_cursor(cursor, page, i);
    }
}

proof fn lemma_page_prefix_after_cursor(cursor: u64, page: Seq<Summary>, i: int)
    requires
        page_follows(cursor, page),
        0 <= i < page.len(),
    ensures
        cursor < page[i].id,
    decreases i,
{
    assert(id_before(cursor, page, i) < page[i].id);
    if i > 0 {
        lemma_page_prefix_after_cursor(cursor, page, i - 1);
    }
}

/// The persisted cursor never decreases over a run of fetched pages, and it
/// is always the numeric id of the last summary seen so far (fork or not),
/// or the starting cursor while none has been seen.
pub proof fn lemma_cursor_monotonic(start: u64, pages: Seq<Seq<Summary>>, i: int, j: int)
    requires
        pages_follow(start, pages),
        0 <= i <= j <= pages.len(),
    ensures
        start <= cursor_through(start, pages.take(i)),
        cursor_through(start, pages.take(i)) <= cursor_through(start, pages.take(j)),
        pages.take(j).flatten_alt().len() == 0 ==> cursor_through(start, pages.take(j)) == start,
        pages.take(j).flatten_alt().len() > 0 ==> cursor_through(start, pages.take(j))
            == pages.take(j).flatten_alt().last().id,
    decreases j,
{
    if j > 0 {
        let prev = pages.take(j - 1);
        assert(pages.take(j).drop_last() == prev);
        assert(pages.take(j).last() == pages[j - 1]);
        lemma_prefix_follows(start, pages, j);
        lemma_prefix_follows(start, pages, j - 1);
        lemma_cursor_monotonic(start, pages, if i == j { j - 1 } else { i }, j - 1);
        lemma_page_after_cursor(cursor_through(start, prev), pages[j - 1]);
        if pages[j - 1].len() == 0 {
            assert(pages.take(j).flatten_alt() == prev.flatten_alt() + pages[j - 1]);
            assert(prev.flatten_alt() + pages[j - 1] == prev.flatten_alt());
        }
    }
}

/// A prefix of pages that follow one another follows too.
proof fn lemma_prefix_follows(start: u64, pages: Seq<Seq<Summary>>, k: int)
    requires
        pages_follow(start, pages),
        0 <= k <= pages.len(),
    ensures
        pages_follow(start, pages.take(k)),
    decreases pages.len() - k,
{
    if k < pages.len() {
        lemma_prefix_follows(start, pages, k + 1);
        assert(pages.take(k + 1).drop_last() == pages.take(k));
    } else {
        assert(pages.take(k) == pages);
    }
}

} // verus!

verus! {

/// `id` is the opaque id of a non-fork summary of `seen`.
pub open spec fn from_nonfork(id: String, seen: Seq<Summary>) -> bool {
    exists|j: int| 0 <= j < seen.len() && !seen[j].fork && #[trigger] seen[j].opaque_id == id
}

/// Each id of `ids` is the opaque id of a non-fork summary of `seen`.
pub open spec fn from_nonforks(ids: Seq<String>, seen: Seq<Summary>) -> bool {
    forall|k: int| 0 <= k < ids.len() ==> from_nonfork(#[trigger] ids[k], seen)
}

proof fn lemma_nonfork_ids_sources(page: Seq<Summary>)
    ensures
        from_nonforks(nonfork_ids(page), page),
    decreases page.len(),
{
    if page.len() > 0 {
        let rest = page.drop_last();
        lemma_nonfork_ids_sources(rest);
        let ids = nonfork_ids(page);
        assert forall|k: int| 0 <= k < ids.len() implies from_nonfork(#[trigger] ids[k], page) by {
            if k < nonfork_ids(rest).len() {
                assert(from_nonfork(nonfork_ids(rest)[k], rest));
                let j = choose|j: int|
                    0 <= j < rest.len() && !rest[j].fork && #[trigger] rest[j].opaque_id
                        == nonfork_ids(rest)[k];
                assert(page[j] == rest[j]);
            } else {
                assert(page[page.len() - 1].opaque_id == ids[k]);
                assert(!page[page.len() - 1].fork);
            }
        }
    }
}

/// No fork reaches hydration: when every buffered id came from a non-fork
/// summary seen so far, then after walking `page` the same holds of the
/// buffer and of the batch handed to hydration, over the summaries seen
/// including `page`.
pub proof fn lemma_fork_exclusion(v: CrawlView, seen: Seq<Summary>, page: Seq<Summary>)
    requires
        v.wf(),
        from_nonforks(v.buffer, seen),
    ensures
        from_nonforks(v.after_page(page).buffer, seen + page),
        v.batch(page) matches Some(b) ==> from_nonforks(b, seen + page),
{
    let all = seen + page;
    let pending = v.pending(page);
    lemma_nonfork_ids_sources(page);
    assert(from_nonforks(pending, all)) by {
        assert forall|k: int| 0 <= k < pending.len() implies from_nonfork(#[trigger] pending[k], all) by {
            if k < v.buffer.len() {
                assert(from_nonfork(v.buffer[k], seen));
                let j = choose|j: int|
                    0 <= j < seen.len() && !seen[j].fork && #[trigger] seen[j].opaque_id
                        == v.buffer[k];
                assert(all[j] == seen[j]);
            } else {
                let ids = nonfork_ids(page);
                let m = k - v.buffer.len();
                assert(pending[k] == ids[m]);
                assert(from_nonfork(ids[m], page));
                let j = choose|j: int|
                    0 <= j < page.len() && !page[j].fork && #[trigger] page[j].opaque_id
                        == ids[m];
                assert(all[seen.len() + j] == page[j]);
            }
        }
    }
    lemma_slice_from_nonforks(pending, all, 0, v.cutoff(page));
    lemma_slice_from_nonforks(pending, all, v.cutoff(page), pending.len() as int);
}

proof fn lemma_slice_from_nonforks(ids: Seq<String>, seen: Seq<Summary>, lo: int, hi: int)
    requires
        from_nonforks(ids, seen),
    ensures
        0 <= lo <= hi <= ids.len() ==> from_nonforks(ids.subrange(lo, hi), seen),
{
    if 0 <= lo <= hi <= ids.len() {
        let s = ids.subrange(lo, hi);
        assert forall|k: int| 0 <= k < s.len() implies from_nonfork(#[trigger] s[k], seen) by {
            assert(s[k] == ids[lo + k]);
        }
    }
}

/// Every hydration batch holds at most `batch_limit` ids, and so at most
/// `MAX_BATCH`, unless a short page ends the walk with more ids pending
/// than the limit: the final flush hands over the whole buffer in one call.
pub proof fn lemma_batch_bound(v: CrawlView, page: Seq<Summary>)
    requires
        v.wf(),
        !v.is_short(page) || v.pending(page).len() <= v.batch_limit,
    ensures
        v.batch(page) matches Some(b) ==> b.len() <= v.batch_limit && b.len() <= MAX_BATCH,
{
}

/// A short page flushes everything pending, leaves the buffer empty and ends
/// the walk.
pub proof fn lemma_final_flush(v: CrawlView, page: Seq<Summary>)
    requires
        v.is_short(page),
    ensures
        v.batch(page) == Some(v.buffer + nonfork_ids(page)),
        v.after_page(page).buffer.len() == 0,
        v.after_page(page).done,
{
    assert(v.pending(page).subrange(0, v.pending(page).len() as int) == v.pending(page));
}

} // verus!
