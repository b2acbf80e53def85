//! The pagination engine: after the first page has told how many pages there
//! are, it hands out the remaining pages to fetch while at most `concurrency`
//! of them are in flight, gathers their records in whatever order they come
//! back, and fails at the first final error.
//!
//! The caller performs each fetch (with its retries) and reports the outcome;
//! this state is the only owner of the gathered records.
//!
//! A page stays in flight, and keeps its slot, from the moment it is handed
//! out until its final outcome is reported, so the backoff waits between its
//! retries occupy the slot too. Releasing the slot during those waits would
//! raise throughput under sustained rate limiting; it is not done here.
use vstd::prelude::*;
use vstd::multiset::Multiset;
use vstd::seq_lib::lemma_multiset_commutative;
use crate::record::{ForkRecord, org_forks_of, lemma_org_forks_permutation};
use crate::retry::FetchError;

verus! {

/// The records of the pages `1..=n` that `pages` holds, counted with
/// multiplicity.
pub open spec fn pages_union(pages: Map<int, Seq<ForkRecord>>, n: int) -> Multiset<ForkRecord>
    decreases n,
{
    if n < 1 {
        Multiset::empty()
    } else {
        let here = if pages.contains_key(n) {
            pages[n].to_multiset()
        } else {
            Multiset::empty()
        };
        pages_union(pages, n - 1).add(here)
    }
}

proof fn lemma_pages_union_insert(pages: Map<int, Seq<ForkRecord>>, p: int, s: Seq<ForkRecord>, n: int)
    requires
        1 <= p,
        !pages.contains_key(p),
    ensures
        pages_union(pages.insert(p, s), n) == if n >= p {
            pages_union(pages, n).add(s.to_multiset())
        } else {
            pages_union(pages, n)
        },
    decreases n,
{
    if n >= 1 {
        lemma_pages_union_insert(pages, p, s, n - 1);
        if n == p {
            assert(pages_union(pages.insert(p, s), n) =~= pages_union(pages, n).add(s.to_multiset()));
        } else if n > p {
            assert(pages_union(pages.insert(p, s), n) =~= pages_union(pages, n).add(s.to_multiset()));
        }
    }
}

/// Progress of fetching all pages of forks.
pub struct Pagination {
    total_pages: u32,
    concurrency: usize,
    next_page: u64,
    in_flight: Vec<u32>,
    records: Vec<ForkRecord>,
    failed: bool,
    pages: Ghost<Map<int, Seq<ForkRecord>>>,
}

impl Pagination {
    /// Number of pages to fetch, page 1 included.
    pub closed spec fn total_pages_spec(&self) -> nat {
        self.total_pages as nat
    }

    /// The most pages that may be in flight at once.
    pub closed spec fn concurrency_spec(&self) -> nat {
        self.concurrency as nat
    }

    /// The next page to hand out.
    pub closed spec fn next_page_spec(&self) -> nat {
        self.next_page as nat
    }

    /// The pages handed out and not yet reported, in the order handed out.
    pub closed spec fn in_flight_spec(&self) -> Seq<u32> {
        self.in_flight@
    }

    /// The records gathered so far.
    pub closed spec fn records_spec(&self) -> Seq<ForkRecord> {
        self.records@
    }

    /// The pages reported so far, page 1 included, each with its records.
    pub closed spec fn pages_spec(&self) -> Map<int, Seq<ForkRecord>> {
        self.pages@
    }

    /// Whether a page failed for good.
    pub closed spec fn failed_spec(&self) -> bool {
        self.failed
    }

    pub closed spec fn wf(&self) -> bool {
        &&& self.total_pages >= 1
        &&& self.concurrency >= 1
        &&& 2 <= self.next_page <= self.total_pages as u64 + 1
        &&& self.in_flight@.len() <= self.concurrency
        &&& self.in_flight@.no_duplicates()
        &&& forall|k: int|
            0 <= k < self.in_flight@.len() ==> 2 <= #[trigger] self.in_flight@[k] < self.next_page
        &&& forall|p: int|
            #[trigger] self.pages@.contains_key(p) <==> (p == 1 || (2 <= p < self.next_page
                && !self.in_flight@.contains(p as u32)))
        &&& self.records@.to_multiset() == pages_union(self.pages@, self.total_pages as int)
    }

    /// A page may be handed out now.
    pub open spec fn can_launch(&self) -> bool {
        &&& !self.failed_spec()
        &&& self.next_page_spec() <= self.total_pages_spec()
        &&& self.in_flight_spec().len() < self.concurrency_spec()
    }

    /// Every page has been handed out and reported, with no failure.
    pub open spec fn complete(&self) -> bool {
        &&& !self.failed_spec()
        &&& self.next_page_spec() == self.total_pages_spec() + 1
        &&& self.in_flight_spec().len() == 0
    }

    /// Starts from the records of page 1 and the page count that came with it
    /// (absent, or at most 1, where everything fit on one page).
    pub fn start(first_page: Vec<ForkRecord>, number_of_pages: Option<u32>, concurrency: usize) -> (r: Pagination)
        requires
            concurrency >= 1,
        ensures
            r.wf(),
            r.total_pages_spec() == match number_of_pages {
                Some(n) => if n >= 1 { n as nat } else { 1nat },
                None => 1nat,
            },
            r.concurrency_spec() == concurrency,
            r.next_page_spec() == 2,
            r.in_flight_spec().len() == 0,
            !r.failed_spec(),
            r.records_spec() == first_page@,
            r.pages_spec() == map![1int => first_page@],
    {
        let total: u32 = match number_of_pages {
            Some(n) => if n >= 1 { n } else { 1 },
            None => 1,
        };
        let ghost pages = map![1int => first_page@];
        let r = Pagination {
            total_pages: total,
            concurrency,
            next_page: 2,
            in_flight: Vec::new(),
            records: first_page,
            failed: false,
            pages: Ghost(pages),
        };
        proof {
            lemma_pages_union_insert(Map::empty(), 1, first_page@, total as int);
            assert(Map::<int, Seq<ForkRecord>>::empty().insert(1, first_page@) =~= pages);
            assert(pages_union(Map::empty(), total as int) =~= Multiset::empty()) by {
                lemma_pages_union_empty(total as int);
            }
            assert(Multiset::<ForkRecord>::empty().add(first_page@.to_multiset()) =~= first_page@.to_multiset());
        }
        r
    }

    /// Number of pages to fetch, page 1 included.
    pub fn total_pages(&self) -> (r: u32)
        ensures
            r == self.total_pages_spec(),
    {
        self.total_pages
    }

    /// Number of pages handed out and not yet reported.
    pub fn in_flight_count(&self) -> (r: usize)
        ensures
            r == self.in_flight_spec().len(),
    {
        self.in_flight.len()
    }

    /// Whether a page failed for good.
    pub fn is_failed(&self) -> (r: bool)
        ensures
            r == self.failed_spec(),
    {
        self.failed
    }

    /// Whether `page` has been handed out and not yet reported.
    pub fn is_in_flight(&self, page: u32) -> (r: bool)
        ensures
            r == self.in_flight_spec().contains(page),
    {
        let mut i: usize = 0;
        while i < self.in_flight.len()
            invariant
                i <= self.in_flight@.len(),
                forall|k: int| 0 <= k < i ==> self.in_flight@[k] != page,
            decreases self.in_flight@.len() - i,
        {
            if self.in_flight[i] == page {
                return true;
            }
            i = i + 1;
        }
        false
    }

    /// Whether every page has been handed out and reported, with no failure.
    pub fn is_complete(&self) -> (r: bool)
        requires
            self.wf(),
        ensures
            r == self.complete(),
    {
        !self.failed && self.next_page == self.total_pages as u64 + 1 && self.in_flight.len() == 0
    }

    /// The records gathered so far.
    pub fn records(&self) -> (r: &Vec<ForkRecord>)
        ensures
            r@ == self.records_spec(),
    {
        &self.records
    }

    /// Hands out the next page when no page failed, pages remain and fewer
    /// than `concurrency` are in flight; otherwise hands out nothing.
    pub fn next_launch(&mut self) -> (r: Option<u32>)
        requires
            old(self).wf(),
        ensures
            final(self).wf(),
            r.is_some() == old(self).can_launch(),
            final(self).total_pages_spec() == old(self).total_pages_spec(),
            final(self).concurrency_spec() == old(self).concurrency_spec(),
            final(self).failed_spec() == old(self).failed_spec(),
            final(self).records_spec() == old(self).records_spec(),
            final(self).pages_spec() == old(self).pages_spec(),
            match r {
                Some(page) => {
                    &&& page == old(self).next_page_spec()
                    &&& final(self).next_page_spec() == old(self).next_page_spec() + 1
                    &&& final(self).in_flight_spec() == old(self).in_flight_spec().push(page)
                    &&& final(self).in_flight_spec().contains(page)
                },
                None => {
                    &&& final(self).next_page_spec() == old(self).next_page_spec()
                    &&& final(self).in_flight_spec() == old(self).in_flight_spec()
                },
            },
    {
        if self.failed || self.next_page > self.total_pages as u64 || self.in_flight.len() >= self.concurrency {
            return None;
        }
        let page = self.next_page as u32;
        let ghost old_in_flight = self.in_flight@;
        self.in_flight.push(page);
        self.next_page = self.next_page + 1;
        proof {
            assert forall|k: int| 0 <= k < self.in_flight@.len() - 1 implies self.in_flight@[k] != page by {
                assert(old_in_flight[k] == self.in_flight@[k]);
            }
            assert forall|p: int| #[trigger] self.pages@.contains_key(p) <==> (p == 1 || (2 <= p
                < self.next_page && !self.in_flight@.contains(p as u32))) by {
                if 2 <= p < self.next_page && p != page {
                    if self.in_flight@.contains(p as u32) {
                        let k = choose|k: int| 0 <= k < self.in_flight@.len() && self.in_flight@[k] == p as u32;
                        assert(old_in_flight[k] == p as u32);
                    }
                    if old_in_flight.contains(p as u32) {
                        let k = choose|k: int| 0 <= k < old_in_flight.len() && old_in_flight[k] == p as u32;
                        assert(self.in_flight@[k] == p as u32);
                    }
                }
                if p == page {
                    assert(self.in_flight@[self.in_flight@.len() - 1] == page);
                }
            }
            assert(self.in_flight@[self.in_flight@.len() - 1] == page);
        }
        Some(page)
    }

    /// Takes the outcome of a page that is in flight. Its records join the
    /// gathered ones; a failure is final for the whole run and comes back as
    /// it is.
    pub fn record_page(&mut self, page: u32, result: Result<Vec<ForkRecord>, FetchError>) -> (r: Result<(), FetchError>)
        requires
            old(self).wf(),
            !old(self).failed_spec(),
            old(self).in_flight_spec().contains(page),
        ensures
            final(self).wf(),
            final(self).total_pages_spec() == old(self).total_pages_spec(),
            final(self).concurrency_spec() == old(self).concurrency_spec(),
            final(self).next_page_spec() == old(self).next_page_spec(),
            match result {
                Ok(batch) => {
                    &&& r is Ok
                    &&& !final(self).failed_spec()
                    &&& final(self).records_spec() == old(self).records_spec() + batch@
                    &&& final(self).pages_spec() == old(self).pages_spec().insert(page as int, batch@)
                    &&& final(self).in_flight_spec().len() + 1 == old(self).in_flight_spec().len()
                    &&& !final(self).in_flight_spec().contains(page)
                    &&& forall|q: u32| q != page ==> (#[trigger] final(self).in_flight_spec().contains(q)
                        == old(self).in_flight_spec().contains(q))
                },
                Err(e) => {
                    &&& r == Err::<(), FetchError>(e)
                    &&& final(self).failed_spec()
                    &&& final(self).records_spec() == old(self).records_spec()
                    &&& final(self).pages_spec() == old(self).pages_spec()
                    &&& final(self).in_flight_spec() == old(self).in_flight_spec()
                },
            },
    {
        match result {
            Err(e) => {
                self.failed = true;
                Err(e)
            },
            Ok(batch) => {
                let mut i: usize = 0;
                while i < self.in_flight.len()
                    invariant
                        i <= self.in_flight@.len(),
                        self.in_flight@.contains(page),
                        forall|k: int| 0 <= k < i ==> self.in_flight@[k] != page,
                    ensures
                        i < self.in_flight@.len(),
                        self.in_flight@[i as int] == page,
                    decreases self.in_flight@.len() - i,
                {
                    if self.in_flight[i] == page {
                        break;
                    }
                    i = i + 1;
                }
                let ghost old_in_flight = self.in_flight@;
                let ghost old_pages = self.pages@;
                let ghost old_records = self.records@;
                assert(i < old_in_flight.len() && old_in_flight[i as int] == page);
                self.in_flight.remove(i);
                let mut more = batch;
                let ghost added = more@;
                self.records.append(&mut more);
                self.pages = Ghost(old_pages.insert(page as int, added));
                proof {
                    let n = old_in_flight.len();
                    let now = self.in_flight@;
                    assert forall|q: u32| #[trigger] now.contains(q) == (old_in_flight.contains(q) && q != page) by {
                        if now.contains(q) {
                            let k = choose|k: int| 0 <= k < now.len() && now[k] == q;
                            if k < i {
                                assert(old_in_flight[k] == q);
                            } else {
                                assert(old_in_flight[k + 1] == q);
                            }
                        }
                        if old_in_flight.contains(q) && q != page {
                            let k = choose|k: int| 0 <= k < n && old_in_flight[k] == q;
                            if k < i {
                                assert(now[k] == q);
                            } else {
                                assert(k != i);
                                assert(now[k - 1] == q);
                            }
                        }
                    }
                    assert forall|a: int, b: int| 0 <= a < b < now.len() implies now[a] != now[b] by {
                        let a2 = if a < i { a } else { a + 1 };
                        let b2 = if b < i { b } else { b + 1 };
                        assert(now[a] == old_in_flight[a2]);
                        assert(now[b] == old_in_flight[b2]);
                    }
                    assert forall|k: int| 0 <= k < now.len() implies 2 <= #[trigger] now[k] < self.next_page by {
                        let k2 = if k < i { k } else { k + 1 };
                        assert(now[k] == old_in_flight[k2]);
                    }
                    assert forall|p: int| #[trigger] self.pages@.contains_key(p) <==> (p == 1 || (2 <= p
                        < self.next_page && !now.contains(p as u32))) by {
                        if 2 <= p < self.next_page {
                            assert(now.contains(p as u32) == (old_in_flight.contains(p as u32) && p != page));
                        }
                    }
                    assert(!old_pages.contains_key(page as int));
                    lemma_pages_union_insert(old_pages, page as int, added, self.total_pages as int);
                    lemma_multiset_commutative(old_records, added);
                }
                Ok(())
            },
        }
    }

    /// The gathered records, once every page is in.
    pub fn into_records(self) -> (r: Vec<ForkRecord>)
        requires
            self.wf(),
            self.complete(),
        ensures
            r@ == self.records_spec(),
    {
        self.records
    }
}

/// Once every page is in, each page `1..=total` has been reported exactly
/// once, and the gathered records are, with multiplicity, the union of the
/// pages' records: so the result does not depend on the order in which the
/// pages came back.
pub proof fn lemma_complete_is_union(a: Pagination)
    requires
        a.wf(),
        a.complete(),
    ensures
        forall|p: int| #[trigger] a.pages_spec().contains_key(p) <==> 1 <= p <= a.total_pages_spec(),
        a.records_spec().to_multiset() == pages_union(a.pages_spec(), a.total_pages_spec() as int),
{
}

/// Two complete runs that received the same records for each page gathered
/// the same records, whatever the order of completion.
pub proof fn lemma_completion_order_irrelevant(a: Pagination, b: Pagination)
    requires
        a.wf(),
        b.wf(),
        a.complete(),
        b.complete(),
        a.total_pages_spec() == b.total_pages_spec(),
        a.pages_spec() == b.pages_spec(),
    ensures
        a.records_spec().to_multiset() == b.records_spec().to_multiset(),
{
}

/// The records of the pages `1..=n` that `pages` holds, in page order.
pub open spec fn pages_concat(pages: Map<int, Seq<ForkRecord>>, n: int) -> Seq<ForkRecord>
    decreases n,
{
    if n < 1 {
        Seq::empty()
    } else {
        let here = if pages.contains_key(n) {
            pages[n]
        } else {
            Seq::empty()
        };
        pages_concat(pages, n - 1) + here
    }
}

proof fn lemma_pages_union_is_concat(pages: Map<int, Seq<ForkRecord>>, n: int)
    ensures
        pages_union(pages, n) == pages_concat(pages, n).to_multiset(),
    decreases n,
{
    broadcast use vstd::seq_lib::group_to_multiset_ensures;
    if n < 1 {
        let e = Seq::<ForkRecord>::empty();
        assert(e.to_multiset().len() == 0);
        assert(e.to_multiset() =~= Multiset::empty()) by {
            vstd::multiset::lemma_multiset_empty_len(e.to_multiset());
        }
    } else {
        lemma_pages_union_is_concat(pages, n - 1);
        let here = if pages.contains_key(n) {
            pages[n]
        } else {
            Seq::empty()
        };
        lemma_multiset_commutative(pages_concat(pages, n - 1), here);
        if !pages.contains_key(n) {
            assert(here.to_multiset().len() == 0);
            vstd::multiset::lemma_multiset_empty_len(here.to_multiset());
            assert(here.to_multiset() =~= Multiset::empty());
        }
    }
}

/// Once every page is in, the report lines of the gathered records are,
/// up to order, the report lines of pages `1..=total` put one after another:
/// one line per organization-owned fork of every page, none left out and
/// none repeated.
pub proof fn lemma_complete_rows_are_all_pages(a: Pagination)
    requires
        a.wf(),
        a.complete(),
    ensures
        org_forks_of(a.records_spec()).to_multiset() == org_forks_of(
            pages_concat(a.pages_spec(), a.total_pages_spec() as int),
        ).to_multiset(),
{
    lemma_complete_is_union(a);
    lemma_pages_union_is_concat(a.pages_spec(), a.total_pages_spec() as int);
    lemma_org_forks_permutation(a.records_spec(), pages_concat(a.pages_spec(), a.total_pages_spec() as int));
}

/// Two complete runs that received the same records for each page give the
/// same report lines up to order, whatever the order of completion.
pub proof fn lemma_rows_independent_of_completion_order(a: Pagination, b: Pagination)
    requires
        a.wf(),
        b.wf(),
        a.complete(),
        b.complete(),
        a.total_pages_spec() == b.total_pages_spec(),
        a.pages_spec() == b.pages_spec(),
    ensures
        org_forks_of(a.records_spec()).to_multiset() == org_forks_of(b.records_spec()).to_multiset(),
{
    lemma_completion_order_irrelevant(a, b);
    lemma_org_forks_permutation(a.records_spec(), b.records_spec());
}

/// Never more than `concurrency` pages are in flight.
pub proof fn lemma_in_flight_bounded(a: Pagination)
    requires
        a.wf(),
    ensures
        a.in_flight_spec().len() <= a.concurrency_spec(),
{
}

/// A run of one page hands out no page: it is complete from the start unless
/// it failed.
pub proof fn lemma_single_page_launches_nothing(a: Pagination)
    requires
        a.wf(),
        a.total_pages_spec() == 1,
    ensures
        !a.can_launch(),
        a.in_flight_spec().len() == 0,
        a.complete() == !a.failed_spec(),
        a.records_spec().to_multiset() == a.pages_spec()[1].to_multiset(),
{
    assert(a.in_flight_spec().len() == 0) by {
        if a.in_flight_spec().len() > 0 {
            assert(2 <= a.in_flight_spec()[0] < a.next_page_spec());
        }
    }
    assert(a.pages_spec().contains_key(1));
    assert(pages_union(a.pages_spec(), 0) =~= Multiset::empty());
    assert(Multiset::<ForkRecord>::empty().add(a.pages_spec()[1].to_multiset()) =~= a.pages_spec()[1].to_multiset());
}

proof fn lemma_pages_union_empty(n: int)
    ensures
        pages_union(Map::empty(), n) =~= Multiset::empty(),
    decreases n,
{
    if n >= 1 {
        lemma_pages_union_empty(n - 1);
    }
}

} // verus!
