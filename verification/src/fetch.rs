//! The historical candle fetcher: a backward-paginating loop that carves
//! the query window down from its end, one page at a time, under a fixed
//! minimum interval between requests.
//!
//! The loop's decisions live here as a verified state machine; the caller
//! performs the actual requests and waiting, and feeds each received page
//! back through [`FetchState::accept_page`].
//!
//! Every page is checked against the remote's own contract before it is
//! taken, and every accepted page lies strictly below everything already
//! collected, so the accumulator is kept globally sorted by construction:
//! the result needs no defensive final sort to meet its ordering
//! invariant.

use vstd::prelude::*;
use crate::candle::{all_in_range, strictly_ascending, Candle};
use crate::resolve::TimeWindow;

verus! {

/// Minimum enforced delay between consecutive outbound requests, in
/// milliseconds.
pub const REQUEST_INTERVAL_MS: i64 = 20;

/// The most pages one invocation will accept; far beyond any real
/// download, and small enough that the pacing schedule cannot overflow.
pub const MAX_PAGES: u64 = 0x1000_0000;

/// The latest start instant the pacing schedule accepts.
pub const MAX_START_INSTANT: i64 = 0x4000_0000_0000_0000;

/// A page broke the remote's contract: a candle outside the requested
/// window, or bucket starts not strictly ascending.
#[derive(Clone, Copy, Debug, PartialEq, Eq, Structural)]
pub struct PageError;

/// One page as the remote promises it for a query window `[lo, hi]`:
/// candles strictly ascending in time, every bucket start inside the window.
pub open spec fn page_ok(p: Seq<Candle>, lo: int, hi: int) -> bool {
    strictly_ascending(p) && all_in_range(p, lo, hi)
}

/// The fetcher's whole state between two requests.
pub struct FetchState {
    /// The full range asked for; never changes.
    pub window: TimeWindow,
    /// End of the next query window: strictly below every candle collected.
    pub cursor_end: i64,
    /// Everything collected so far, already in ascending time order.
    pub candles: Vec<Candle>,
    /// Pages accepted so far.
    pub pages: u64,
    /// Instant the fetch began (milliseconds on the caller's clock).
    pub started_at: i64,
    /// Earliest instant the next request may be issued.
    pub next_request_at: i64,
    /// An empty page arrived: the range is exhausted.
    pub done: bool,
}

impl FetchState {
    pub open spec fn wf(self) -> bool {
        &&& self.window.start > i64::MIN
        &&& self.cursor_end <= self.window.end
        &&& strictly_ascending(self.candles@)
        &&& all_in_range(self.candles@, self.window.start as int, self.window.end as int)
        &&& (forall|i: int|
            0 <= i < self.candles@.len() ==> #[trigger] self.candles@[i].start_time
                > self.cursor_end)
        &&& 0 <= self.started_at <= MAX_START_INSTANT
        &&& self.pages <= MAX_PAGES
        &&& self.next_request_at == self.started_at + self.pages * REQUEST_INTERVAL_MS
    }

    /// A fresh fetch over `window`: the first query window is the whole
    /// range, and the first request may go out at once.
    pub fn new(window: TimeWindow, started_at: i64) -> (st: FetchState)
        requires
            window.start > i64::MIN,
            0 <= started_at <= MAX_START_INSTANT,
        ensures
            st.wf(),
            st.window == window,
            st.cursor_end == window.end,
            st.candles@ == Seq::<Candle>::empty(),
            st.pages == 0,
            st.started_at == started_at,
            st.next_request_at == started_at,
            !st.done,
    {
        FetchState {
            window,
            cursor_end: window.end,
            candles: Vec::new(),
            pages: 0,
            started_at,
            next_request_at: started_at,
            done: false,
        }
    }

    /// Consumes one received page.
    ///
    /// An empty page ends the fetch successfully (`Ok(false)`). A
    /// well-formed page is prepended to the collection — its candles all
    /// predate everything collected — and the cursor moves to one second
    /// before its earliest candle, so the next page cannot repeat a
    /// candle; the next request is scheduled one interval later
    /// (`Ok(true)`). A page that breaks the remote's contract is rejected
    /// unconsumed (`Err`).
    pub fn accept_page(&mut self, page: Vec<Candle>) -> (r: Result<bool, PageError>)
        requires
            old(self).wf(),
            !old(self).done,
            old(self).pages < MAX_PAGES,
        ensures
            final(self).wf(),
            final(self).window == old(self).window,
            final(self).started_at == old(self).started_at,
            page@.len() == 0 ==> {
                &&& r == Ok::<bool, PageError>(false)
                &&& final(self).done
                &&& final(self).candles@ == old(self).candles@
                &&& final(self).cursor_end == old(self).cursor_end
                &&& final(self).pages == old(self).pages
                &&& final(self).next_request_at == old(self).next_request_at
            },
            page@.len() > 0 && page_ok(
                page@,
                old(self).window.start as int,
                old(self).cursor_end as int,
            ) ==> {
                &&& r == Ok::<bool, PageError>(true)
                &&& !final(self).done
                &&& final(self).candles@ == page@ + old(self).candles@
                &&& final(self).cursor_end == page@[0].start_time - 1
                &&& final(self).pages == old(self).pages + 1
                &&& final(self).next_request_at == old(self).next_request_at + REQUEST_INTERVAL_MS
            },
            page@.len() > 0 && !page_ok(
                page@,
                old(self).window.start as int,
                old(self).cursor_end as int,
            ) ==> {
                &&& r == Err::<bool, PageError>(PageError)
                &&& *final(self) == *old(self)
            },
    {
        if page.len() == 0 {
            self.done = true;
            return Ok(false);
        }
        if !page_within(&page, self.window.start, self.cursor_end) {
            return Err(PageError);
        }
        let ghost old_candles = self.candles@;
        let ghost old_cursor = self.cursor_end as int;
        self.cursor_end = page[0].start_time - 1;
        let mut merged = page;
        merged.append(&mut self.candles);
        self.candles = merged;
        self.pages = self.pages + 1;
        self.next_request_at = self.next_request_at + REQUEST_INTERVAL_MS;
        proof {
            let all = self.candles@;
            let p = all.subrange(0, all.len() - old_candles.len());
            assert forall|i: int, j: int| 0 <= i < j < all.len() implies all[i].start_time
                < all[j].start_time by {
                let plen = all.len() - old_candles.len();
                if i < plen && j >= plen {
                    assert(all[i].start_time <= old_cursor);
                    assert(old_candles[j - plen].start_time > old_cursor);
                }
            }
            assert forall|i: int| 0 <= i < all.len() implies #[trigger] all[i].start_time
                > self.cursor_end by {
                let plen = all.len() - old_candles.len();
                if i >= plen {
                    assert(old_candles[i - plen].start_time > old_cursor);
                }
            }
        }
        Ok(true)
    }
}

/// Runtime check of the remote's page contract for the window `[lo, hi]`.
fn page_within(p: &Vec<Candle>, lo: i64, hi: i64) -> (b: bool)
    ensures
        b == page_ok(p@, lo as int, hi as int),
{
    let ghost s = p@;
    let mut i: usize = 0;
    while i < p.len()
        invariant
            0 <= i <= s.len(),
            s == p@,
            forall|k: int| 0 <= k < i ==> lo <= #[trigger] s[k].start_time <= hi,
            forall|k: int| 0 < k < i ==> #[trigger] s[k - 1].start_time < s[k].start_time,
        decreases p.len() - i,
    {
        let c = &p[i];
        if c.start_time < lo || c.start_time > hi {
            return false;
        }
        if i > 0 && p[i - 1].start_time >= c.start_time {
            return false;
        }
        i = i + 1;
    }
    proof {
        lemma_ascending_from_adjacent(s);
    }
    true
}

proof fn lemma_chain_lt(s: Seq<Candle>, i: int, j: int)
    requires
        forall|k: int| 0 < k < s.len() ==> #[trigger] s[k - 1].start_time < s[k].start_time,
        0 <= i < j < s.len(),
    ensures
        s[i].start_time < s[j].start_time,
    decreases j - i,
{
    if i + 1 < j {
        lemma_chain_lt(s, i, j - 1);
    }
    assert(s[j - 1].start_time < s[j].start_time);
}

proof fn lemma_ascending_from_adjacent(s: Seq<Candle>)
    requires
        forall|k: int| 0 < k < s.len() ==> #[trigger] s[k - 1].start_time < s[k].start_time,
    ensures
        strictly_ascending(s),
{
    assert forall|i: int, j: int| 0 <= i < j < s.len() implies s[i].start_time
        < s[j].start_time by {
        lemma_chain_lt(s, i, j);
    }
}

/// The views of a list of pages.
pub open spec fn page_views(pages: Seq<Vec<Candle>>) -> Seq<Seq<Candle>> {
    pages.map_values(|p: Vec<Candle>| p@)
}

/// How many leading pages the fetcher accepts: each must be non-empty and
/// well-formed for the query window of its turn, which ends one second
/// before the previous page's earliest candle.
pub open spec fn valid_prefix(ps: Seq<Seq<Candle>>, lo: int, hi: int) -> int
    decreases ps.len(),
{
    if ps.len() == 0 {
        0
    } else if ps[0].len() > 0 && page_ok(ps[0], lo, hi) {
        1 + valid_prefix(ps.drop_first(), lo, ps[0][0].start_time - 1)
    } else {
        0
    }
}

/// The fetcher never accepts more pages than it is offered.
pub proof fn lemma_valid_prefix_bounds(ps: Seq<Seq<Candle>>, lo: int, hi: int)
    ensures
        0 <= valid_prefix(ps, lo, hi) <= ps.len(),
    decreases ps.len(),
{
    if ps.len() > 0 && ps[0].len() > 0 && page_ok(ps[0], lo, hi) {
        lemma_valid_prefix_bounds(ps.drop_first(), lo, ps[0][0].start_time - 1);
    }
}

/// The first `k` pages laid out in one sequence, later pages first: the
/// fetch walks backward in time, so page `k - 1` holds the earliest candles.
pub open spec fn glue(ps: Seq<Seq<Candle>>, k: int) -> Seq<Candle>
    decreases k,
{
    if k <= 0 {
        Seq::empty()
    } else {
        ps[k - 1] + glue(ps, k - 1)
    }
}

/// Everything the fetch loop produced.
pub struct FetchOutcome {
    /// All candles, ascending by bucket start, no duplicates.
    pub candles: Vec<Candle>,
    /// Pages accepted.
    pub pages: u64,
    /// Earliest instant a further request could have been issued.
    pub next_request_at: i64,
    /// An empty page confirmed the range exhausted; `false` means the
    /// supply of pages ran out first.
    pub completed: bool,
}

/// Runs the whole fetch loop over a fixed supply of pages, as a mocked
/// remote would serve them, consuming pages in order until one is empty
/// or the supply ends.
///
/// With `k` the number of pages the fetcher accepts (`valid_prefix`), the
/// result is exactly the first `k` pages glued in reverse page order —
/// every candle of every accepted page once, strictly ascending — and the
/// `k + 1`-st request could not have been issued before `started_at +
/// k * REQUEST_INTERVAL_MS`. An ill-formed page aborts the fetch instead.
pub fn fetch_from_pages(window: TimeWindow, pages: Vec<Vec<Candle>>, started_at: i64) -> (r:
    Result<FetchOutcome, PageError>)
    requires
        window.start > i64::MIN,
        0 <= started_at <= MAX_START_INSTANT,
        pages@.len() <= MAX_PAGES,
    ensures
        ({
            let ps = page_views(pages@);
            let k = valid_prefix(ps, window.start as int, window.end as int);
            &&& (r is Ok <==> (k == ps.len() || ps[k].len() == 0))
            &&& (r matches Ok(out) ==> {
                &&& out.candles@ == glue(ps, k)
                &&& strictly_ascending(out.candles@)
                &&& all_in_range(out.candles@, window.start as int, window.end as int)
                &&& out.pages == k
                &&& out.completed == (k < ps.len())
                &&& out.next_request_at == started_at + k * REQUEST_INTERVAL_MS
            })
            &&& (r is Err ==> k < ps.len() && ps[k].len() > 0)
        }),
{
    let ghost ps = page_views(pages@);
    let ghost lo = window.start as int;
    let ghost k = valid_prefix(ps, window.start as int, window.end as int);
    let mut remaining = pages;
    let mut st = FetchState::new(window, started_at);
    let mut consumed: usize = 0;
    proof {
        assert(ps.skip(0) =~= ps);
    }
    while !st.done && remaining.len() > 0
        invariant
            ps.len() <= MAX_PAGES,
            st.wf(),
            st.window == window,
            st.started_at == started_at,
            ps == page_views(pages@),
            lo == window.start as int,
            k == valid_prefix(ps, lo, window.end as int),
            consumed as int + remaining@.len() == ps.len(),
            remaining@.map_values(|p: Vec<Candle>| p@) == ps.skip(consumed as int),
            st.candles@ == glue(ps, st.pages as int),
            !st.done ==> {
                &&& consumed == st.pages
                &&& k == st.pages + valid_prefix(ps.skip(consumed as int), lo, st.cursor_end as int)
            },
            st.done ==> {
                &&& consumed == st.pages + 1
                &&& k == st.pages
                &&& ps[consumed - 1].len() == 0
            },
            st.pages <= consumed,
        decreases remaining@.len(),
    {
        let page = remaining.remove(0);
        let ghost tail = ps.skip(consumed as int);
        proof {
            assert(tail[0] == page@);
            assert(tail.drop_first() =~= ps.skip(consumed as int + 1));
            assert(remaining@.map_values(|p: Vec<Candle>| p@) =~= ps.skip(consumed as int + 1));
        }
        let ghost cursor = st.cursor_end as int;
        let ghost pages_before = st.pages;
        match st.accept_page(page) {
            Ok(true) => {
                proof {
                    assert(valid_prefix(tail, lo, cursor) == 1 + valid_prefix(
                        tail.drop_first(),
                        lo,
                        tail[0][0].start_time - 1,
                    ));
                    assert(st.candles@ =~= glue(ps, st.pages as int));
                }
            },
            Ok(false) => {
                proof {
                    assert(valid_prefix(tail, lo, cursor) == 0);
                }
            },
            Err(e) => {
                proof {
                    assert(valid_prefix(tail, lo, cursor) == 0);
                    assert(k == pages_before);
                    assert(ps[consumed as int].len() > 0);
                }
                return Err(e);
            },
        }
        consumed = consumed + 1;
    }
    proof {
        if !st.done {
            assert(ps.skip(consumed as int) =~= Seq::<Seq<Candle>>::empty());
            assert(k == st.pages);
        }
        if k < ps.len() {
            assert(st.done);
        }
    }
    Ok(
        FetchOutcome {
            candles: st.candles,
            pages: st.pages,
            next_request_at: st.next_request_at,
            completed: st.done,
        },
    )
}

/// The pacing law: after `n` accepted pages, the `n + 1`-st request may
/// not go out before `n` full intervals past the start instant, so any
/// run of `n + 1` requests spans at least `n * REQUEST_INTERVAL_MS`.
pub proof fn lemma_pacing(st: FetchState)
    requires
        st.wf(),
    ensures
        st.next_request_at == st.started_at + st.pages * REQUEST_INTERVAL_MS,
{
}

/// Pages that exactly abut — each page's latest candle lies exactly one
/// resolution below the previous page's earliest — are all accepted: the
/// loop consumes every page, so (by `fetch_from_pages`) the result is all
/// pages glued together, every candle once, none skipped, none repeated.
pub proof fn lemma_abutting_pages_all_accepted(ps: Seq<Seq<Candle>>, lo: int, hi: int, res: int)
    requires
        res >= 1,
        forall|i: int| 0 <= i < ps.len() ==> (#[trigger] ps[i]).len() > 0,
        forall|i: int| 0 <= i < ps.len() ==> strictly_ascending(#[trigger] ps[i]),
        forall|i: int, j: int|
            0 <= i < ps.len() && 0 <= j < ps[i].len() ==> lo <= (#[trigger] ps[i][j]).start_time,
        ps.len() > 0 ==> ps[0].last().start_time <= hi,
        forall|i: int|
            0 <= i < ps.len() - 1 ==> (#[trigger] ps[i + 1]).last().start_time + res
                == ps[i][0].start_time,
    ensures
        valid_prefix(ps, lo, hi) == ps.len(),
    decreases ps.len(),
{
    if ps.len() > 0 {
        let p0 = ps[0];
        assert forall|j: int| 0 <= j < p0.len() implies lo <= (#[trigger] p0[j]).start_time
            <= hi by {
            assert(ps[0][j] == p0[j]);
            if j < p0.len() - 1 {
                assert(p0[j].start_time < p0[p0.len() - 1].start_time);
            }
        }
        assert(page_ok(p0, lo, hi));
        let tail = ps.drop_first();
        let hi2 = p0[0].start_time - 1;
        assert forall|i: int| 0 <= i < tail.len() implies (#[trigger] tail[i]).len() > 0
            && strictly_ascending(tail[i]) by {
            assert(tail[i] == ps[i + 1]);
        }
        assert forall|i: int, j: int|
            0 <= i < tail.len() && 0 <= j < tail[i].len() implies lo
            <= (#[trigger] tail[i][j]).start_time by {
            assert(tail[i] == ps[i + 1]);
            assert(ps[i + 1][j].start_time >= lo);
        }
        if tail.len() > 0 {
            assert(tail[0] == ps[1]);
            assert(ps[0int + 1].last().start_time + res == ps[0][0].start_time);
            assert(tail[0].last().start_time <= hi2);
        }
        assert forall|i: int|
            0 <= i < tail.len() - 1 implies (#[trigger] tail[i + 1]).last().start_time + res
            == tail[i][0].start_time by {
            assert(tail[i + 1] == ps[i + 2]);
            assert(tail[i] == ps[i + 1]);
            assert(ps[i + 1 + 1].last().start_time + res == ps[i + 1][0].start_time);
        }
        lemma_abutting_pages_all_accepted(tail, lo, hi2, res);
        assert(valid_prefix(ps, lo, hi) == 1 + valid_prefix(tail, lo, hi2));
    }
}

/// An immediately empty first page is accepted as a successful, empty
/// fetch: no page is valid before it, and nothing is collected.
pub proof fn lemma_empty_first_page(ps: Seq<Seq<Candle>>, lo: int, hi: int)
    requires
        ps.len() > 0,
        ps[0].len() == 0,
    ensures
        valid_prefix(ps, lo, hi) == 0,
        glue(ps, valid_prefix(ps, lo, hi)) == Seq::<Candle>::empty(),
{
}

} // verus!
