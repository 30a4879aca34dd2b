//! Listings of Qasa's public GraphQL API, and the decisions that page
//! through its results.
//!
//! Every listing field is optional, to tolerate schema drift. Fractional
//! quantities (room counts, areas in m²) are held in tenths, so that `1.5`
//! rooms is `15`. Timestamps are RFC 3339 text; their instants are compared
//! as Unix time in nanoseconds.

use vstd::prelude::*;

use crate::order::{before, lemma_sorted_keys, stable_sort_by_keys, stable_sorted};
use crate::text::{parse_u64, parse_u64_str};

verus! {

/// Where a listing is.
#[derive(Clone, Debug)]
pub struct Location {
    pub locality: Option<String>,
    pub route: Option<String>,
    pub street_number: Option<String>,
}

/// A single listing. Every field but the id is optional.
#[derive(Clone, Debug)]
pub struct Home {
    pub id: String,
    pub title: Option<String>,
    pub rent: Option<i64>,
    pub currency: Option<String>,
    pub monthly_cost: Option<i64>,
    /// Number of rooms, in tenths.
    pub room_count_tenths: Option<i64>,
    /// Living area in m², in tenths.
    pub square_meters_tenths: Option<i64>,
    pub home_type: Option<String>,
    pub first_hand: Option<bool>,
    pub platform: Option<String>,
    pub published_at: Option<String>,
    pub published_or_bumped_at: Option<String>,
    pub location: Option<Location>,
}

/// The instant that `time::OffsetDateTime::parse(s, &Rfc3339)` reads from
/// `s`, as Unix time in nanoseconds, or `None` where it refuses `s`.
pub uninterp spec fn rfc3339_unix_nanos(s: Seq<char>) -> Option<i128>;

/// Parses an RFC 3339 timestamp with `time::OffsetDateTime::parse` and
/// gives its instant as `OffsetDateTime::unix_timestamp_nanos`. The contract
/// names the result; two datetimes compare as their Unix times do.
#[verifier::external_body]
fn parse_rfc3339(s: &str) -> (r: Option<i128>)
    ensures
        r == rfc3339_unix_nanos(s@),
{
    match time::OffsetDateTime::parse(s, &time::format_description::well_known::Rfc3339) {
        Ok(dt) => Some(dt.unix_timestamp_nanos()),
        Err(_) => None,
    }
}

/// The instant of an optional timestamp, as `parse_dt` reads it.
pub open spec fn dt_spec(s: Option<String>) -> Option<i128> {
    match s {
        Some(t) => rfc3339_unix_nanos(t@),
        None => None,
    }
}

/// Reads an optional RFC 3339 timestamp; absent or unreadable gives `None`.
pub fn parse_dt(s: &Option<String>) -> (r: Option<i128>)
    ensures
        r == dt_spec(*s),
{
    match s {
        Some(t) => parse_rfc3339(t.as_str()),
        None => None,
    }
}

/// The numeric id of a listing, where its id is a `u64` in decimal.
pub open spec fn home_id_num(h: Home) -> Option<u64> {
    parse_u64(h.id@)
}

impl Home {
    /// Qasa home ids are monotonic integers; they serve as the watermark.
    pub fn id_num(&self) -> (r: Option<u64>)
        ensures
            r == home_id_num(*self),
    {
        parse_u64_str(self.id.as_str())
    }

    /// When the listing was first published, as Unix time in nanoseconds.
    pub fn published_at_dt(&self) -> (r: Option<i128>)
        ensures
            r == dt_spec(self.published_at),
    {
        parse_dt(&self.published_at)
    }

    /// Most recent publish-or-bump time, as Unix time in nanoseconds.
    pub fn published_or_bumped_dt(&self) -> (r: Option<i128>)
        ensures
            r == dt_spec(self.published_or_bumped_at),
    {
        parse_dt(&self.published_or_bumped_at)
    }
}


/// Why a page of the API's answer cannot be read.
#[derive(Clone, Copy, Debug, PartialEq, Eq, Structural)]
pub enum PageError {
    /// The answer lists errors.
    Errors,
    /// The answer has no data.
    NoData,
}

/// The text that explains a page error.
pub open spec fn page_error_text(e: PageError) -> Seq<char> {
    match e {
        PageError::Errors => "Qasa GraphQL returned errors"@,
        PageError::NoData => "GraphQL response had no data"@,
    }
}

impl PageError {
    /// The text that explains the error.
    pub fn message(self) -> (r: &'static str)
        ensures
            r@ == page_error_text(self),
    {
        match self {
            PageError::Errors => "Qasa GraphQL returned errors",
            PageError::NoData => "GraphQL response had no data",
        }
    }
}

/// The listings of an answer that lists `error_count` errors and carries
/// `nodes` as its data: any error makes the page unreadable, and so does
/// missing data.
pub fn page_nodes(error_count: usize, nodes: Option<Vec<Home>>) -> (r: Result<Vec<Home>, PageError>)
    ensures
        error_count > 0 ==> r == Err::<Vec<Home>, PageError>(PageError::Errors),
        error_count == 0 ==> match nodes {
            Some(v) => r matches Ok(w) && w@ == v@,
            None => r == Err::<Vec<Home>, PageError>(PageError::NoData),
        },
{
    if error_count > 0 {
        return Err(PageError::Errors);
    }
    match nodes {
        Some(v) => Ok(v),
        None => Err(PageError::NoData),
    }
}

// ---------------------------------------------------------------------------
// Paging for new listings (the periodic notifier)
// ---------------------------------------------------------------------------

/// Listings per page.
pub const PAGE_LIMIT: i64 = 50;

/// Safety cap on pages fetched per cycle. Listings are ordered by
/// `published_or_bumped_at` descending, so anything genuinely new clusters at
/// the top.
pub const MAX_PAGES: i64 = 6;

/// Safety cap on pages scanned for a search (wider than the periodic cycle,
/// since the window can be large).
pub const COMMAND_MAX_PAGES: i64 = 20;

/// Result of a fetch: the listings newer than the watermark, and the highest
/// id observed (the new watermark).
pub struct Fetched {
    pub new: Vec<Home>,
    pub max_id: u64,
}

/// The listings of a page that are newer than the watermark, in page order.
/// Without a watermark (first run) nothing is new.
pub open spec fn fresh_of(nodes: Seq<Home>, watermark: Option<u64>) -> Seq<Home>
    decreases nodes.len(),
{
    if nodes.len() == 0 {
        Seq::empty()
    } else {
        let prev = fresh_of(nodes.drop_last(), watermark);
        let h = nodes.last();
        match (home_id_num(h), watermark) {
            (Some(id), Some(w)) => if id > w {
                prev.push(h)
            } else {
                prev
            },
            _ => prev,
        }
    }
}

/// The highest numeric id among `nodes` and `m`.
pub open spec fn max_id_of(nodes: Seq<Home>, m: u64) -> u64
    decreases nodes.len(),
{
    if nodes.len() == 0 {
        m
    } else {
        let prev = max_id_of(nodes.drop_last(), m);
        match home_id_num(nodes.last()) {
            Some(id) => if id > prev {
                id
            } else {
                prev
            },
            None => prev,
        }
    }
}

/// The state of a scan for new listings, page by page. The caller fetches
/// the page at `next_offset` and feeds its listings back, until there is no
/// next offset.
pub struct NewScan {
    pub watermark: Option<u64>,
    pub new: Vec<Home>,
    pub max_id: u64,
    /// Pages fed so far.
    pub pages: i64,
    /// Set once a page ends the scan.
    pub done: bool,
}

/// The invariant of a scan: every listing kept is newer than the watermark
/// and no newer than `max_id`; a first run keeps none; `max_id` is at least
/// the watermark.
pub open spec fn new_scan_wf(s: &NewScan) -> bool {
    &&& s.watermark is None ==> s.new@.len() == 0
    &&& (s.watermark matches Some(w) ==> s.max_id >= w)
    &&& forall|i: int| 0 <= i < s.new@.len() ==> (match (home_id_num(#[trigger] s.new@[i]), s.watermark) {
        (Some(id), Some(w)) => w < id <= s.max_id,
        _ => false,
    })
    &&& 0 <= s.pages
}

/// How many pages a scan may fetch: one page on a first run (to establish
/// the watermark), else the cap.
pub open spec fn new_scan_page_cap(watermark: Option<u64>) -> i64 {
    if watermark is None {
        1
    } else {
        MAX_PAGES
    }
}

/// Facts about the page-by-page specs.
proof fn lemma_fresh_of(nodes: Seq<Home>, watermark: Option<u64>, m: u64)
    ensures
        max_id_of(nodes, m) >= m,
        watermark is None ==> fresh_of(nodes, watermark).len() == 0,
        forall|i: int| 0 <= i < fresh_of(nodes, watermark).len() ==> (match (home_id_num(#[trigger] fresh_of(nodes, watermark)[i]), watermark) {
            (Some(id), Some(w)) => w < id <= max_id_of(nodes, m),
            _ => false,
        }),
    decreases nodes.len(),
{
    if nodes.len() > 0 {
        lemma_fresh_of(nodes.drop_last(), watermark, m);
    }
}

/// Is a listing newer than the watermark `w`: does it have a numeric id
/// above `w`?
pub open spec fn newer_than(w: u64) -> spec_fn(Home) -> bool {
    |h: Home| match home_id_num(h) {
        Some(id) => id > w,
        None => false,
    }
}

/// What a page brings a scan: after a first run, exactly the listings of
/// the page with a numeric id above the watermark, all of them, in page
/// order, wherever they stand on the page; on a first run, nothing.
pub proof fn lemma_fresh_of_is_the_newer_listings(nodes: Seq<Home>, watermark: Option<u64>)
    ensures
        watermark matches Some(w) ==> fresh_of(nodes, watermark) == nodes.filter(newer_than(w)),
        watermark is None ==> fresh_of(nodes, watermark) == Seq::<Home>::empty(),
    decreases nodes.len(),
{
    reveal(Seq::filter);
    if nodes.len() > 0 {
        lemma_fresh_of_is_the_newer_listings(nodes.drop_last(), watermark);
    }
}

/// What a scan for new listings holds, as plain values.
pub struct NewScanModel {
    pub watermark: Option<u64>,
    pub new: Seq<Home>,
    pub max_id: u64,
    pub pages: i64,
    pub done: bool,
}

/// A scan as plain values.
pub open spec fn new_scan_model(s: &NewScan) -> NewScanModel {
    NewScanModel { watermark: s.watermark, new: s.new@, max_id: s.max_id, pages: s.pages, done: s.done }
}

/// A scan that has fetched nothing yet.
pub open spec fn new_scan_begin(watermark: Option<u64>) -> NewScanModel {
    NewScanModel {
        watermark,
        new: Seq::empty(),
        max_id: match watermark {
            Some(w) => w,
            None => 0,
        },
        pages: 0,
        done: false,
    }
}

/// The offset of the page a scan fetches next, if any.
pub open spec fn new_scan_next(m: NewScanModel) -> Option<i64> {
    if m.done || m.pages >= new_scan_page_cap(m.watermark) {
        None
    } else {
        Some((m.pages * PAGE_LIMIT) as i64)
    }
}

/// A scan after it takes in the listings of one page.
pub open spec fn new_scan_step(m: NewScanModel, nodes: Seq<Home>) -> NewScanModel {
    if nodes.len() == 0 {
        NewScanModel { done: true, ..m }
    } else {
        NewScanModel {
            new: m.new + fresh_of(nodes, m.watermark),
            max_id: max_id_of(nodes, m.max_id),
            pages: (m.pages + 1) as i64,
            done: m.watermark is Some && fresh_of(nodes, m.watermark).len() == 0,
            ..m
        }
    }
}

/// A whole scan over the pages the API answers at offsets 0, 50, 100, ...:
/// the scan at its end, and how many pages it fetched.
pub open spec fn new_scan_run(m: NewScanModel, pages: Seq<Seq<Home>>) -> (NewScanModel, nat)
    decreases pages.len(),
{
    if pages.len() == 0 || new_scan_next(m) is None {
        (m, 0)
    } else {
        let r = new_scan_run(new_scan_step(m, pages[0]), pages.drop_first());
        (r.0, r.1 + 1)
    }
}

/// The new listings of the pages, page by page, in page order.
pub open spec fn fresh_pages(pages: Seq<Seq<Home>>, watermark: Option<u64>) -> Seq<Home>
    decreases pages.len(),
{
    if pages.len() == 0 {
        Seq::empty()
    } else {
        fresh_of(pages[0], watermark) + fresh_pages(pages.drop_first(), watermark)
    }
}

/// The highest numeric id among the pages and `m`.
pub open spec fn max_id_pages(pages: Seq<Seq<Home>>, m: u64) -> u64
    decreases pages.len(),
{
    if pages.len() == 0 {
        m
    } else {
        max_id_pages(pages.drop_first(), max_id_of(pages[0], m))
    }
}

impl NewScan {
    /// A scan that has fetched nothing yet.
    pub fn start(watermark: Option<u64>) -> (s: NewScan)
        ensures
            s.watermark == watermark,
            s.new@.len() == 0,
            s.max_id == (match watermark {
                Some(w) => w,
                None => 0,
            }),
            s.pages == 0,
            !s.done,
            new_scan_wf(&s),
            new_scan_model(&s) == new_scan_begin(watermark),
    {
        let max_id = match watermark {
            Some(w) => w,
            None => 0,
        };
        NewScan { watermark, new: Vec::new(), max_id, pages: 0, done: false }
    }

    /// The offset of the next page to fetch, or `None` when the scan is over.
    pub fn next_offset(&self) -> (r: Option<i64>)
        requires
            0 <= self.pages <= MAX_PAGES,
        ensures
            r == (if self.done || self.pages >= new_scan_page_cap(self.watermark) {
                None
            } else {
                Some((self.pages * PAGE_LIMIT) as i64)
            }),
            r == new_scan_next(new_scan_model(self)),
    {
        let cap = if self.watermark.is_none() {
            1
        } else {
            MAX_PAGES
        };
        if self.done || self.pages >= cap {
            None
        } else {
            Some(self.pages * PAGE_LIMIT)
        }
    }

    /// Takes in the listings of the next page. An empty page ends the scan;
    /// so does, after the first run, a page that brings nothing new, since
    /// listings are sorted by recency.
    pub fn feed(&mut self, nodes: Vec<Home>)
        requires
            new_scan_wf(&*old(self)),
            !old(self).done,
            old(self).pages < new_scan_page_cap(old(self).watermark),
        ensures
            new_scan_wf(&*final(self)),
            final(self).watermark == old(self).watermark,
            nodes@.len() == 0 ==> final(self).done && final(self).new@ == old(self).new@
                && final(self).max_id == old(self).max_id && final(self).pages == old(self).pages,
            nodes@.len() > 0 ==> {
                &&& final(self).new@ == old(self).new@ + fresh_of(nodes@, old(self).watermark)
                &&& final(self).max_id == max_id_of(nodes@, old(self).max_id)
                &&& final(self).pages == old(self).pages + 1
                &&& final(self).done == (old(self).watermark is Some && fresh_of(
                    nodes@,
                    old(self).watermark,
                ).len() == 0)
            },
            new_scan_model(&*final(self)) == new_scan_step(new_scan_model(&*old(self)), nodes@),
            final(self).new@ == old(self).new@ + match old(self).watermark {
                Some(w) => nodes@.filter(newer_than(w)),
                None => Seq::<Home>::empty(),
            },
    {
        proof {
            lemma_fresh_of_is_the_newer_listings(nodes@, old(self).watermark);
        }
        if nodes.len() == 0 {
            self.done = true;
            return;
        }
        let ghost all = nodes@;
        let ghost new0 = self.new@;
        let ghost max0 = self.max_id;
        let mut rest = nodes;
        let mut taken: usize = 0;
        let mut any_new = false;
        let mut i: usize = 0;
        while rest.len() > 0
            invariant
                all.len() == i + rest@.len(),
                all.len() <= usize::MAX,
                rest@ == all.skip(i as int),
                self.watermark == old(self).watermark,
                self.pages == old(self).pages,
                self.done == old(self).done,
                self.new@ == new0 + fresh_of(all.take(i as int), self.watermark),
                self.max_id == max_id_of(all.take(i as int), max0),
                any_new == (fresh_of(all.take(i as int), self.watermark).len() > 0),
            decreases rest.len(),
        {
            let h = rest.remove(0);
            proof {
                assert(all.take(i + 1).drop_last() == all.take(i as int));
                assert(all.take(i + 1).last() == h);
                assert(rest@ == all.skip(i + 1));
            }
            match h.id_num() {
                None => {},
                Some(id) => {
                    if id > self.max_id {
                        self.max_id = id;
                    }
                    match self.watermark {
                        Some(w) => {
                            if id > w {
                                self.new.push(h);
                                any_new = true;
                            }
                        },
                        None => {},
                    }
                },
            }
            i = i + 1;
        }
        proof {
            assert(all.take(i as int) == all);
            lemma_fresh_of(all, old(self).watermark, max0);
            let f = fresh_of(all, old(self).watermark);
            assert forall|k: int| 0 <= k < self.new@.len() implies (match (home_id_num(#[trigger] self.new@[k]), self.watermark) {
                (Some(id), Some(w)) => w < id <= self.max_id,
                _ => false,
            }) by {
                if k < new0.len() {
                    assert(self.new@[k] == new0[k]);
                    assert(old(self).new@[k] == new0[k]);
                } else {
                    assert(self.new@[k] == f[k - new0.len()]);
                }
            }
        }
        if self.watermark.is_some() && !any_new {
            self.done = true;
        }
        self.pages = self.pages + 1;
        proof {
            assert(all == nodes@);
            assert(self.new@ == old(self).new@ + fresh_of(nodes@, old(self).watermark));
            assert(self.max_id == max_id_of(nodes@, old(self).max_id));
        }
    }

    /// The result of the scan.
    pub fn finish(self) -> (r: Fetched)
        requires
            new_scan_wf(&self),
        ensures
            r.new@ == self.new@,
            r.max_id == self.max_id,
            self.watermark is None ==> r.new@.len() == 0,
            self.watermark matches Some(w) ==> r.max_id >= w,
            forall|i: int| 0 <= i < r.new@.len() ==> (match (home_id_num(#[trigger] r.new@[i]), self.watermark) {
                (Some(id), Some(w)) => w < id <= r.max_id,
                _ => false,
            }),
    {
        Fetched { new: self.new, max_id: self.max_id }
    }
}

/// A whole scan for new listings: it fetches at most `MAX_PAGES` pages (one
/// on a first run); it keeps the listings with a numeric id above the
/// watermark from the pages it fetched, in page order, and the highest id
/// it saw; it goes past a page only when that page was not empty and, after
/// a first run, brought something new; and it stops for one of these
/// reasons, or at the page cap.
pub proof fn lemma_new_scan_run(watermark: Option<u64>, pages: Seq<Seq<Home>>)
    ensures
        ({
            let (m, n) = new_scan_run(new_scan_begin(watermark), pages);
            &&& n <= new_scan_page_cap(watermark) <= MAX_PAGES
            &&& n <= pages.len()
            &&& m.watermark == watermark
            &&& m.new == fresh_pages(pages.take(n as int), watermark)
            &&& m.max_id == max_id_pages(pages.take(n as int), new_scan_begin(watermark).max_id)
            &&& watermark is None ==> m.new.len() == 0
            &&& forall|k: int| 0 <= k < n - 1 ==> (#[trigger] pages[k]).len() > 0 && (watermark is Some
                ==> fresh_of(pages[k], watermark).len() > 0)
            &&& n < pages.len() ==> new_scan_next(m) is None
            &&& new_scan_next(m) is None ==> (n == new_scan_page_cap(watermark) || (n > 0 && (pages[n - 1].len() == 0
                || (watermark is Some && fresh_of(pages[n - 1], watermark).len() == 0))))
        }),
{
    lemma_new_scan_run_from(new_scan_begin(watermark), pages);
}

/// `lemma_new_scan_run`, from any point of a scan.
proof fn lemma_new_scan_run_from(m0: NewScanModel, pages: Seq<Seq<Home>>)
    requires
        0 <= m0.pages <= new_scan_page_cap(m0.watermark),
        m0.watermark is None ==> m0.new.len() == 0,
    ensures
        ({
            let (m, n) = new_scan_run(m0, pages);
            &&& m0.done ==> n == 0
            &&& n <= new_scan_page_cap(m0.watermark) - m0.pages
            &&& n <= pages.len()
            &&& 0 <= m.pages <= new_scan_page_cap(m0.watermark)
            &&& m.watermark == m0.watermark
            &&& m.new == m0.new + fresh_pages(pages.take(n as int), m0.watermark)
            &&& m.max_id == max_id_pages(pages.take(n as int), m0.max_id)
            &&& m0.watermark is None ==> m.new.len() == 0
            &&& forall|k: int| 0 <= k < n - 1 ==> (#[trigger] pages[k]).len() > 0 && (m0.watermark is Some
                ==> fresh_of(pages[k], m0.watermark).len() > 0)
            &&& n < pages.len() ==> new_scan_next(m) is None
            &&& new_scan_next(m) is None ==> ((n == 0 && new_scan_next(m0) is None) || m.pages == new_scan_page_cap(
                m0.watermark) || (n > 0 && (pages[n - 1].len() == 0 || (m0.watermark is Some && fresh_of(
                pages[n - 1],
                m0.watermark,
            ).len() == 0))))
            &&& (n > 0 && m.pages == new_scan_page_cap(m0.watermark)) ==> n == new_scan_page_cap(m0.watermark) - m0.pages
        }),
    decreases pages.len(),
{
    let r = new_scan_run(m0, pages);
    if pages.len() == 0 || new_scan_next(m0) is None {
        assert(pages.take(0) == Seq::<Seq<Home>>::empty());
    } else {
        let m1 = new_scan_step(m0, pages[0]);
        let rest = pages.drop_first();
        lemma_fresh_of(pages[0], m0.watermark, m0.max_id);
        lemma_new_scan_run_from(m1, rest);
        let (m, n1) = new_scan_run(m1, rest);
        let n = n1 + 1;
        assert(pages.take(n as int).drop_first() == rest.take(n1 as int));
        assert(pages.take(n as int)[0] == pages[0]);
        assert(fresh_pages(pages.take(n as int), m0.watermark) == fresh_of(pages[0], m0.watermark)
            + fresh_pages(rest.take(n1 as int), m0.watermark));
        assert(m.new == m0.new + fresh_pages(pages.take(n as int), m0.watermark));
        assert(max_id_pages(pages.take(n as int), m0.max_id) == max_id_pages(rest.take(n1 as int), max_id_of(
            pages[0],
            m0.max_id,
        )));
        if pages[0].len() == 0 {
            assert(n1 == 0);
        }
        assert forall|k: int| 0 <= k < n - 1 implies (#[trigger] pages[k]).len() > 0 && (m0.watermark is Some
            ==> fresh_of(pages[k], m0.watermark).len() > 0) by {
            if k == 0 {
                assert(n1 > 0);
                assert(!m1.done);
            } else {
                assert(pages[k] == rest[k - 1]);
            }
        }
        if n1 > 0 {
            assert(pages[n - 1] == rest[n1 - 1]);
        }
    }
}

// ---------------------------------------------------------------------------
// Paging for recent listings (searches)
// ---------------------------------------------------------------------------

/// Does a bump time keep a scan going: at or after the cutoff, or unknown?
pub open spec fn fresh_time(bumped: Option<i128>, cutoff: i128) -> bool {
    match bumped {
        Some(b) => b >= cutoff,
        None => true,
    }
}

/// Is a publish time at or after the cutoff (and known)?
pub open spec fn reported_time(published: Option<i128>, cutoff: i128) -> bool {
    match published {
        Some(p) => p >= cutoff,
        None => false,
    }
}

/// How a listing bears on a search, from its bump time and its publish time
/// (Unix time in nanoseconds, `None` where absent or unreadable): whether it
/// keeps the scan going, and whether it is reported.
pub fn standing(bumped: Option<i128>, published: Option<i128>, cutoff: i128) -> (r: (bool, bool))
    ensures
        r == (fresh_time(bumped, cutoff), reported_time(published, cutoff)),
{
    let fresh = match bumped {
        Some(b) => b >= cutoff,
        None => true,
    };
    let reported = match published {
        Some(p) => p >= cutoff,
        None => false,
    };
    (fresh, reported)
}

/// Is the listing fresh for paging purposes: bumped at or after the cutoff,
/// or with an unreadable bump time (which keeps the scan going)?
pub open spec fn bumped_fresh(h: Home, cutoff: i128) -> bool {
    fresh_time(dt_spec(h.published_or_bumped_at), cutoff)
}

/// Was the listing first published at or after the cutoff?
pub open spec fn published_since(h: Home, cutoff: i128) -> bool {
    reported_time(dt_spec(h.published_at), cutoff)
}

/// The publish time of a listing, or 0 where it is unknown.
pub open spec fn published_key(h: Home) -> i128 {
    match dt_spec(h.published_at) {
        Some(p) => p,
        None => 0,
    }
}

/// The listings of a page published at or after the cutoff, in page order.
pub open spec fn recent_of(nodes: Seq<Home>, cutoff: i128) -> Seq<Home>
    decreases nodes.len(),
{
    if nodes.len() == 0 {
        Seq::empty()
    } else {
        let prev = recent_of(nodes.drop_last(), cutoff);
        if published_since(nodes.last(), cutoff) {
            prev.push(nodes.last())
        } else {
            prev
        }
    }
}

/// The state of a scan for listings published since a cutoff. The caller
/// fetches the page at `next_offset` and feeds its listings back, until
/// there is no next offset.
pub struct RecentScan {
    /// The cutoff, as Unix time in nanoseconds.
    pub cutoff: i128,
    /// At most this many listings are returned (the newest ones).
    pub max: usize,
    pub out: Vec<Home>,
    /// The publish time of each listing in `out`.
    pub keys: Vec<i128>,
    pub pages: i64,
    pub done: bool,
}

/// The invariant of a recent scan: every listing kept was published at or
/// after the cutoff, and `keys` holds its publish time.
pub open spec fn recent_scan_wf(s: &RecentScan) -> bool {
    &&& s.out@.len() == s.keys@.len()
    &&& forall|i: int| 0 <= i < s.out@.len() ==> published_since(#[trigger] s.out@[i], s.cutoff)
    &&& forall|i: int| 0 <= i < s.out@.len() ==> s.keys@[i] == published_key(#[trigger] s.out@[i])
    &&& 0 <= s.pages
}

proof fn lemma_recent_of(nodes: Seq<Home>, cutoff: i128)
    ensures
        forall|i: int| 0 <= i < recent_of(nodes, cutoff).len() ==> published_since(#[trigger] recent_of(nodes, cutoff)[i], cutoff),
    decreases nodes.len(),
{
    if nodes.len() > 0 {
        lemma_recent_of(nodes.drop_last(), cutoff);
        let prev = recent_of(nodes.drop_last(), cutoff);
        let cur = recent_of(nodes, cutoff);
        assert forall|i: int| 0 <= i < cur.len() implies published_since(#[trigger] cur[i], cutoff) by {
            if i < prev.len() {
                assert(cur[i] == prev[i]);
            }
        }
    }
}

/// Was a listing first published at or after the cutoff: is its publish
/// time known and not before it? Its bump time plays no part.
pub open spec fn published_at_or_after(cutoff: i128) -> spec_fn(Home) -> bool {
    |h: Home| match dt_spec(h.published_at) {
        Some(p) => p >= cutoff,
        None => false,
    }
}

/// What a page brings a search: exactly the listings of the page whose
/// publish time is known and at or after the cutoff, all of them, in page
/// order, whatever their bump time.
pub proof fn lemma_recent_of_is_the_published_listings(nodes: Seq<Home>, cutoff: i128)
    ensures
        recent_of(nodes, cutoff) == nodes.filter(published_at_or_after(cutoff)),
    decreases nodes.len(),
{
    reveal(Seq::filter);
    if nodes.len() > 0 {
        lemma_recent_of_is_the_published_listings(nodes.drop_last(), cutoff);
    }
}

/// Does a page hold a listing that keeps a search going?
pub open spec fn page_has_fresh(nodes: Seq<Home>, cutoff: i128) -> bool {
    exists|i: int| 0 <= i < nodes.len() && bumped_fresh(#[trigger] nodes[i], cutoff)
}

/// A page keeps a search going exactly when one of its listings has an
/// unreadable or absent bump time, or was bumped at or after the cutoff.
pub proof fn lemma_page_has_fresh(nodes: Seq<Home>, cutoff: i128)
    ensures
        page_has_fresh(nodes, cutoff) <==> exists|i: int|
            0 <= i < nodes.len() && match dt_spec((#[trigger] nodes[i]).published_or_bumped_at) {
                Some(b) => b >= cutoff,
                None => true,
            },
{
}

/// What a recent scan holds, as plain values.
pub struct RecentScanModel {
    pub cutoff: i128,
    pub max: usize,
    pub out: Seq<Home>,
    pub pages: i64,
    pub done: bool,
}

/// A recent scan as plain values.
pub open spec fn recent_scan_model(s: &RecentScan) -> RecentScanModel {
    RecentScanModel { cutoff: s.cutoff, max: s.max, out: s.out@, pages: s.pages, done: s.done }
}

/// A recent scan that has fetched nothing yet.
pub open spec fn recent_scan_begin(cutoff: i128, max: usize) -> RecentScanModel {
    RecentScanModel { cutoff, max, out: Seq::empty(), pages: 0, done: false }
}

/// The offset of the page a recent scan fetches next, if any.
pub open spec fn recent_scan_next(m: RecentScanModel) -> Option<i64> {
    if m.done || m.pages >= COMMAND_MAX_PAGES {
        None
    } else {
        Some((m.pages * PAGE_LIMIT) as i64)
    }
}

/// A recent scan after it takes in the listings of one page.
pub open spec fn recent_scan_step(m: RecentScanModel, nodes: Seq<Home>) -> RecentScanModel {
    if nodes.len() == 0 {
        RecentScanModel { done: true, ..m }
    } else {
        let out = m.out + recent_of(nodes, m.cutoff);
        RecentScanModel {
            out,
            pages: (m.pages + 1) as i64,
            done: !page_has_fresh(nodes, m.cutoff) || out.len() >= m.max,
            ..m
        }
    }
}

/// A whole recent scan over the pages the API answers at offsets 0, 50,
/// 100, ...: the scan at its end, and how many pages it fetched.
pub open spec fn recent_scan_run(m: RecentScanModel, pages: Seq<Seq<Home>>) -> (RecentScanModel, nat)
    decreases pages.len(),
{
    if pages.len() == 0 || recent_scan_next(m) is None {
        (m, 0)
    } else {
        let r = recent_scan_run(recent_scan_step(m, pages[0]), pages.drop_first());
        (r.0, r.1 + 1)
    }
}

/// The listings of the pages published at or after the cutoff, in page order.
pub open spec fn recent_pages(pages: Seq<Seq<Home>>, cutoff: i128) -> Seq<Home>
    decreases pages.len(),
{
    if pages.len() == 0 {
        Seq::empty()
    } else {
        recent_of(pages[0], cutoff) + recent_pages(pages.drop_first(), cutoff)
    }
}

impl RecentScan {
    /// A scan that has fetched nothing yet.
    pub fn start(cutoff: i128, max: usize) -> (s: RecentScan)
        ensures
            s.cutoff == cutoff,
            s.max == max,
            s.out@.len() == 0,
            s.pages == 0,
            !s.done,
            recent_scan_wf(&s),
            recent_scan_model(&s) == recent_scan_begin(cutoff, max),
    {
        RecentScan { cutoff, max, out: Vec::new(), keys: Vec::new(), pages: 0, done: false }
    }

    /// The offset of the next page to fetch, or `None` when the scan is over.
    pub fn next_offset(&self) -> (r: Option<i64>)
        requires
            0 <= self.pages <= COMMAND_MAX_PAGES,
        ensures
            r == (if self.done || self.pages >= COMMAND_MAX_PAGES {
                None
            } else {
                Some((self.pages * PAGE_LIMIT) as i64)
            }),
            r == recent_scan_next(recent_scan_model(self)),
    {
        if self.done || self.pages >= COMMAND_MAX_PAGES {
            None
        } else {
            Some(self.pages * PAGE_LIMIT)
        }
    }

    /// Takes in the listings of the next page. A page is exhausted only when
    /// every listing's bump time is older than the cutoff; unreadable bump
    /// times keep the scan going. The scan also ends once it holds `max`
    /// listings, or on an empty page.
    pub fn feed(&mut self, nodes: Vec<Home>)
        requires
            recent_scan_wf(&*old(self)),
            !old(self).done,
            old(self).pages < COMMAND_MAX_PAGES,
        ensures
            recent_scan_wf(&*final(self)),
            final(self).cutoff == old(self).cutoff,
            final(self).max == old(self).max,
            nodes@.len() == 0 ==> final(self).done && final(self).out@ == old(self).out@ && final(self).pages
                == old(self).pages,
            nodes@.len() > 0 ==> {
                &&& final(self).out@ == old(self).out@ + recent_of(nodes@, old(self).cutoff)
                &&& final(self).pages == old(self).pages + 1
                &&& final(self).done == (!(exists|i: int| 0 <= i < nodes@.len() && bumped_fresh(
                    #[trigger] nodes@[i],
                    old(self).cutoff,
                )) || final(self).out@.len() >= old(self).max)
            },
            recent_scan_model(&*final(self)) == recent_scan_step(recent_scan_model(&*old(self)), nodes@),
            final(self).out@ == old(self).out@ + nodes@.filter(published_at_or_after(old(self).cutoff)),
    {
        proof {
            lemma_recent_of_is_the_published_listings(nodes@, old(self).cutoff);
        }
        if nodes.len() == 0 {
            self.done = true;
            return;
        }
        let ghost all = nodes@;
        let ghost out0 = self.out@;
        let mut rest = nodes;
        let mut page_has_fresh = false;
        let mut i: usize = 0;
        while rest.len() > 0
            invariant
                all.len() == i + rest@.len(),
                all.len() <= usize::MAX,
                rest@ == all.skip(i as int),
                self.cutoff == old(self).cutoff,
                self.max == old(self).max,
                self.pages == old(self).pages,
                self.done == old(self).done,
                self.out@ == out0 + recent_of(all.take(i as int), self.cutoff),
                self.out@.len() == self.keys@.len(),
                forall|k: int| 0 <= k < self.out@.len() ==> self.keys@[k] == published_key(#[trigger] self.out@[k]),
                page_has_fresh == (exists|k: int| 0 <= k < i && bumped_fresh(#[trigger] all[k], self.cutoff)),
            decreases rest.len(),
        {
            let h = rest.remove(0);
            proof {
                assert(all.take(i + 1).drop_last() == all.take(i as int));
                assert(all.take(i + 1).last() == h);
                assert(rest@ == all.skip(i + 1));
                assert(all[i as int] == h);
            }
            let published = h.published_at_dt();
            let (fresh, reported) = standing(h.published_or_bumped_dt(), published, self.cutoff);
            if fresh {
                page_has_fresh = true;
            }
            if reported {
                let p = match published {
                    Some(p) => p,
                    None => 0,
                };
                let ghost before = self.out@;
                self.out.push(h);
                self.keys.push(p);
                proof {
                    assert forall|k: int| 0 <= k < self.out@.len() implies self.keys@[k] == published_key(#[trigger] self.out@[k]) by {
                        if k < before.len() {
                            assert(self.out@[k] == before[k]);
                        }
                    }
                }
            }
            i = i + 1;
        }
        proof {
            assert(all.take(i as int) == all);
            lemma_recent_of(all, old(self).cutoff);
            let f = recent_of(all, old(self).cutoff);
            assert forall|k: int| 0 <= k < self.out@.len() implies published_since(#[trigger] self.out@[k], self.cutoff) by {
                if k < out0.len() {
                    assert(self.out@[k] == out0[k]);
                    assert(old(self).out@[k] == out0[k]);
                } else {
                    assert(self.out@[k] == f[k - out0.len()]);
                }
            }
        }
        if !page_has_fresh || self.out.len() >= self.max {
            self.done = true;
        }
        self.pages = self.pages + 1;
    }

    /// The newest `max` listings kept, presented oldest-first for
    /// chronological posting. Listings with the same publish time keep the
    /// order in which the scan met them, reversed.
    pub fn finish(self) -> (r: Vec<Home>)
        requires
            recent_scan_wf(&self),
        ensures
            r@ == recent_result(self.out@, self.keys@, self.max as int),
    {
        let sorted = stable_sort_by_keys(self.out, self.keys, true);
        let mut newest = sorted;
        if newest.len() > self.max {
            newest.truncate(self.max);
        }
        let ghost kept = newest@;
        let mut r: Vec<Home> = Vec::new();
        while newest.len() > 0
            invariant
                kept.len() == newest@.len() + r@.len(),
                newest@ == kept.take(newest@.len() as int),
                r@ == kept.skip(newest@.len() as int).reverse(),
            decreases newest.len(),
        {
            let ghost n = newest@.len();
            let h = newest.pop().unwrap();
            r.push(h);
            proof {
                assert(kept.skip(n - 1) =~= seq![h] + kept.skip(n as int));
                assert(r@ =~= kept.skip(n - 1).reverse());
            }
        }
        proof {
            assert(kept.skip(0) == kept);
        }
        r
    }
}

/// A whole search scan: it fetches at most `COMMAND_MAX_PAGES` pages; it
/// collects the listings published at or after the cutoff from the pages it
/// fetched, in page order; it goes past a page only when that page was not
/// empty, held a listing bumped at or after the cutoff (or with an
/// unreadable bump time), and left fewer than `max` collected; and it stops
/// for one of these reasons, or at the page cap.
pub proof fn lemma_recent_scan_run(cutoff: i128, max: usize, pages: Seq<Seq<Home>>)
    ensures
        ({
            let (m, n) = recent_scan_run(recent_scan_begin(cutoff, max), pages);
            &&& n <= COMMAND_MAX_PAGES
            &&& n <= pages.len()
            &&& m.cutoff == cutoff && m.max == max
            &&& m.out == recent_pages(pages.take(n as int), cutoff)
            &&& forall|k: int| 0 <= k < n - 1 ==> (#[trigger] pages[k]).len() > 0 && page_has_fresh(pages[k], cutoff)
                && recent_pages(pages.take(k + 1), cutoff).len() < max
            &&& n < pages.len() ==> recent_scan_next(m) is None
            &&& recent_scan_next(m) is None ==> (n == COMMAND_MAX_PAGES || (n > 0 && (pages[n - 1].len() == 0
                || !page_has_fresh(pages[n - 1], cutoff) || m.out.len() >= max)))
        }),
{
    let m0 = recent_scan_begin(cutoff, max);
    lemma_recent_scan_run_from(m0, pages);
    let (m, n) = recent_scan_run(m0, pages);
    assert(m.out == m0.out + recent_pages(pages.take(n as int), cutoff));
    assert forall|k: int| 0 <= k < n - 1 implies (#[trigger] pages[k]).len() > 0 && page_has_fresh(pages[k], cutoff)
        && recent_pages(pages.take(k + 1), cutoff).len() < max by {
        assert(m0.out + recent_pages(pages.take(k + 1), cutoff) == recent_pages(pages.take(k + 1), cutoff));
    }
}

/// `lemma_recent_scan_run`, from any point of a scan.
proof fn lemma_recent_scan_run_from(m0: RecentScanModel, pages: Seq<Seq<Home>>)
    requires
        0 <= m0.pages <= COMMAND_MAX_PAGES,
    ensures
        ({
            let (m, n) = recent_scan_run(m0, pages);
            &&& m0.done ==> n == 0
            &&& n <= COMMAND_MAX_PAGES - m0.pages
            &&& n <= pages.len()
            &&& 0 <= m.pages <= COMMAND_MAX_PAGES
            &&& m.cutoff == m0.cutoff && m.max == m0.max
            &&& m.out == m0.out + recent_pages(pages.take(n as int), m0.cutoff)
            &&& forall|k: int| 0 <= k < n - 1 ==> (#[trigger] pages[k]).len() > 0 && page_has_fresh(pages[k], m0.cutoff)
                && (m0.out + recent_pages(pages.take(k + 1), m0.cutoff)).len() < m0.max
            &&& n < pages.len() ==> recent_scan_next(m) is None
            &&& recent_scan_next(m) is None ==> ((n == 0 && recent_scan_next(m0) is None) || m.pages == COMMAND_MAX_PAGES
                || (n > 0 && (pages[n - 1].len() == 0 || !page_has_fresh(pages[n - 1], m0.cutoff) || m.out.len() >= m0.max)))
            &&& (n > 0 && m.pages == COMMAND_MAX_PAGES) ==> n == COMMAND_MAX_PAGES - m0.pages
        }),
    decreases pages.len(),
{
    if pages.len() == 0 || recent_scan_next(m0) is None {
        assert(pages.take(0) == Seq::<Seq<Home>>::empty());
    } else {
        let m1 = recent_scan_step(m0, pages[0]);
        let rest = pages.drop_first();
        lemma_recent_scan_run_from(m1, rest);
        let (m, n1) = recent_scan_run(m1, rest);
        let n = n1 + 1;
        assert(pages.take(n as int).drop_first() == rest.take(n1 as int));
        assert(pages.take(n as int)[0] == pages[0]);
        assert(recent_pages(pages.take(n as int), m0.cutoff) == recent_of(pages[0], m0.cutoff) + recent_pages(
            rest.take(n1 as int),
            m0.cutoff,
        ));
        if pages[0].len() == 0 {
            assert(n1 == 0);
            assert(rest.take(0) == Seq::<Seq<Home>>::empty());
        }
        assert(m.out == m0.out + recent_pages(pages.take(n as int), m0.cutoff));
        assert forall|k: int| 0 <= k < n - 1 implies (#[trigger] pages[k]).len() > 0 && page_has_fresh(pages[k], m0.cutoff)
            && (m0.out + recent_pages(pages.take(k + 1), m0.cutoff)).len() < m0.max by {
            assert(pages.take(k + 1).drop_first() == rest.take(k));
            assert(pages.take(k + 1)[0] == pages[0]);
            assert(recent_pages(pages.take(k + 1), m0.cutoff) == recent_of(pages[0], m0.cutoff) + recent_pages(
                rest.take(k),
                m0.cutoff,
            ));
            assert(m0.out + recent_pages(pages.take(k + 1), m0.cutoff) == m1.out + recent_pages(rest.take(k), m0.cutoff));
            if k == 0 {
                assert(n1 > 0);
                assert(!m1.done);
                assert(rest.take(0) == Seq::<Seq<Home>>::empty());
                assert(m1.out + recent_pages(rest.take(0), m0.cutoff) == m1.out);
            } else {
                assert(pages[k] == rest[k - 1]);
            }
        }
        if n1 > 0 {
            assert(pages[n - 1] == rest[n1 - 1]);
        }
    }
}

/// What a recent scan returns: the kept listings ordered newest first
/// (stably), cut to `max`, then reversed to oldest-first.
pub open spec fn recent_result(out: Seq<Home>, keys: Seq<i128>, max: int) -> Seq<Home> {
    let sorted = stable_sorted(out, keys, true);
    let newest = if sorted.len() > max {
        sorted.take(max)
    } else {
        sorted
    };
    newest.reverse()
}

/// A search returns at most `max` listings, each published at or after the
/// cutoff, oldest first.
pub proof fn lemma_recent_result(s: RecentScan)
    requires
        recent_scan_wf(&s),
    ensures
        recent_result(s.out@, s.keys@, s.max as int).len() <= s.max,
        forall|i: int| 0 <= i < recent_result(s.out@, s.keys@, s.max as int).len() ==> published_since(
            #[trigger] recent_result(s.out@, s.keys@, s.max as int)[i],
            s.cutoff,
        ),
        forall|i: int, j: int| 0 <= i < j < recent_result(s.out@, s.keys@, s.max as int).len() ==> published_key(
            recent_result(s.out@, s.keys@, s.max as int)[i],
        ) <= published_key(recent_result(s.out@, s.keys@, s.max as int)[j]),
{
    broadcast use vstd::seq_lib::group_to_multiset_ensures;
    let out = s.out@;
    let keys = s.keys@;
    lemma_sorted_keys(out, keys, true, |h: Home| published_key(h));
    let sorted = stable_sorted(out, keys, true);
    let r = recent_result(out, keys, s.max as int);
    let n = r.len();
    assert forall|i: int| 0 <= i < n implies published_since(#[trigger] r[i], s.cutoff) by {
        let h = sorted[n - 1 - i];
        assert(r[i] == h);
        assert(sorted.to_multiset().count(h) > 0);
        assert(out.to_multiset().count(h) > 0);
        assert(out.contains(h));
        let m = choose|m: int| 0 <= m < out.len() && out[m] == h;
        assert(published_since(out[m], s.cutoff));
    }
    assert forall|i: int, j: int| 0 <= i < j < n implies published_key(r[i]) <= published_key(r[j]) by {
        assert(r[i] == sorted[n - 1 - i]);
        assert(r[j] == sorted[n - 1 - j]);
        assert(!before(published_key(sorted[n - 1 - i]), published_key(sorted[n - 1 - j]), true));
    }
}

/// A search keeps the newest: every listing the scan kept that the result
/// leaves out was published no later than any listing it returns.
pub proof fn lemma_recent_result_newest(s: RecentScan)
    requires
        recent_scan_wf(&s),
    ensures
        forall|x: Home, i: int|
            #![trigger s.out@.contains(x), recent_result(s.out@, s.keys@, s.max as int)[i]]
            s.out@.contains(x) && !recent_result(s.out@, s.keys@, s.max as int).contains(x) && 0 <= i
                < recent_result(s.out@, s.keys@, s.max as int).len() ==> published_key(x) <= published_key(
                recent_result(s.out@, s.keys@, s.max as int)[i],
            ),
{
    broadcast use vstd::seq_lib::group_to_multiset_ensures;
    let out = s.out@;
    let keys = s.keys@;
    lemma_sorted_keys(out, keys, true, |h: Home| published_key(h));
    let sorted = stable_sorted(out, keys, true);
    let r = recent_result(out, keys, s.max as int);
    let n = r.len();
    assert forall|x: Home, i: int| out.contains(x) && !r.contains(x) && 0 <= i < n implies published_key(x)
        <= published_key(r[i]) by {
        assert(out.to_multiset().count(x) > 0);
        assert(sorted.to_multiset().count(x) > 0);
        assert(sorted.contains(x));
        let j = choose|j: int| 0 <= j < sorted.len() && sorted[j] == x;
        if j < n {
            assert(r[n - 1 - j] == sorted[j]);
            assert(r.contains(x));
        }
        assert(r[i] == sorted[n - 1 - i]);
        assert(!before(published_key(sorted[j]), published_key(sorted[n - 1 - i]), true));
    }
}

} // verus!
