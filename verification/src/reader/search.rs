//! Progress of a full-text search that scans a document a few pages at a
//! time, and the hits found so far. A hit's marks are kept as the caller
//! gives them (`R`); only whether there are any matters here.

use vstd::prelude::*;

verus! {

/// How many pages one idle step scans at first.
pub const CHUNK_PAGES: usize = 32;

/// The matches on one page.
pub struct Hit<R> {
    pub page: usize,
    pub rects: Vec<R>,
}

pub struct Search<R> {
    pub query: String,
    next_page: usize,
    total_pages: usize,
    /// In the order they were found.
    pub hits: Vec<Hit<R>>,
}

/// The hits on `page`, in the order they were found.
pub open spec fn hits_on<R>(hs: Seq<Hit<R>>, page: usize) -> Seq<Hit<R>>
    decreases hs.len(),
{
    if hs.len() == 0 {
        Seq::empty()
    } else if hs.last().page == page {
        hits_on(hs.drop_last(), page).push(hs.last())
    } else {
        hits_on(hs.drop_last(), page)
    }
}

/// Where the next chunk of a scan at page `next` of `total` starts.
pub open spec fn chunk_start(next: nat, total: nat) -> nat {
    if next < total {
        next
    } else {
        total
    }
}

/// Where the next chunk of `size` pages of a scan at page `next` of `total`
/// ends.
pub open spec fn chunk_end(next: nat, total: nat, size: nat) -> nat {
    if chunk_start(next, total) + size < total {
        chunk_start(next, total) + size
    } else {
        total
    }
}

/// Chunks taken one after the other meet: the next one starts where the
/// last one ended, none reaches past the last page, and each takes `size`
/// pages or all that are left.
pub proof fn lemma_chunks_meet(next: nat, total: nat, size: nat, size2: nat)
    ensures
        chunk_start(next, total) <= chunk_end(next, total, size) <= total,
        chunk_start(chunk_end(next, total, size), total) == chunk_end(next, total, size),
        chunk_end(next, total, size) - chunk_start(next, total) == (if chunk_start(next, total)
            + size <= total {
            size as int
        } else {
            total - chunk_start(next, total)
        }),
        chunk_start(chunk_end(next, total, size), total) <= chunk_end(
            chunk_end(next, total, size),
            total,
            size2,
        ),
{
}

impl<R> Search<R> {
    pub closed spec fn next(&self) -> nat {
        self.next_page as nat
    }

    pub closed spec fn total(&self) -> nat {
        self.total_pages as nat
    }

    pub closed spec fn hit_seq(&self) -> Seq<Hit<R>> {
        self.hits@
    }

    pub closed spec fn query_text(&self) -> Seq<char> {
        self.query@
    }

    /// A search of `total_pages` pages that has scanned none yet.
    pub fn new(query: String, total_pages: usize) -> (s: Search<R>)
        ensures
            s.query_text() == query@,
            s.next() == 0,
            s.total() == total_pages,
            s.hit_seq().len() == 0,
    {
        Search { query, next_page: 0, total_pages, hits: Vec::new() }
    }

    /// Whether every page has been scanned.
    pub fn is_done(&self) -> (b: bool)
        ensures
            b == (self.next() >= self.total()),
    {
        self.next_page >= self.total_pages
    }

    /// The next `size` pages to scan (fewer at the end, none once done);
    /// the scan position moves past them.
    pub fn take_chunk(&mut self, size: usize) -> (r: std::ops::Range<usize>)
        ensures
            r.start == chunk_start(old(self).next(), old(self).total()),
            r.end == chunk_end(old(self).next(), old(self).total(), size as nat),
            final(self).next() == r.end,
            final(self).total() == old(self).total(),
            final(self).hit_seq() == old(self).hit_seq(),
            final(self).query_text() == old(self).query_text(),
    {
        let start = if self.next_page < self.total_pages {
            self.next_page
        } else {
            self.total_pages
        };
        let end = if size < self.total_pages - start {
            start + size
        } else {
            self.total_pages
        };
        self.next_page = end;
        start..end
    }

    /// Records the marks found on `page`; an empty list records nothing.
    pub fn push_hits(&mut self, page: usize, rects: Vec<R>)
        ensures
            final(self).next() == old(self).next(),
            final(self).total() == old(self).total(),
            final(self).query_text() == old(self).query_text(),
            rects@.len() == 0 ==> final(self).hit_seq() == old(self).hit_seq(),
            rects@.len() > 0 ==> final(self).hit_seq() == old(self).hit_seq().push(
                Hit { page, rects },
            ),
    {
        if rects.len() == 0 {
            return;
        }
        self.hits.push(Hit { page, rects });
    }

    /// The hits on `page`.
    pub fn hits_for(&self, page: usize) -> (r: Vec<&Hit<R>>)
        ensures
            r@.len() == hits_on(self.hit_seq(), page).len(),
            forall|k: int| 0 <= k < r@.len() ==> *r@[k] == hits_on(self.hit_seq(), page)[k],
    {
        let mut r: Vec<&Hit<R>> = Vec::new();
        let mut i: usize = 0;
        while i < self.hits.len()
            invariant
                0 <= i <= self.hits@.len(),
                r@.len() == hits_on(self.hits@.take(i as int), page).len(),
                forall|k: int|
                    0 <= k < r@.len() ==> *r@[k] == hits_on(self.hits@.take(i as int), page)[k],
            decreases self.hits@.len() - i,
        {
            assert(self.hits@.take(i + 1).drop_last() =~= self.hits@.take(i as int));
            assert(self.hits@.take(i + 1).last() == self.hits@[i as int]);
            let h = &self.hits[i];
            if h.page == page {
                r.push(h);
            }
            i = i + 1;
        }
        assert(self.hits@.take(self.hits@.len() as int) =~= self.hits@);
        r
    }
}

} // verus!
