//! Stable ordering by page: items on earlier pages first, items on the same
//! page in the order they were given.

use vstd::prelude::*;

verus! {

/// `order` with `x` inserted after the last entry whose page is not after
/// `x`'s page.
pub open spec fn insert_by_page(order: Seq<int>, x: int, pages: Seq<usize>) -> Seq<int>
    decreases order.len(),
{
    if order.len() == 0 {
        seq![x]
    } else if pages[order.last()] <= pages[x] {
        order.push(x)
    } else {
        insert_by_page(order.drop_last(), x, pages).push(order.last())
    }
}

/// The positions `0..n` ordered stably by page (insertion order).
pub open spec fn page_order(pages: Seq<usize>, n: nat) -> Seq<int>
    decreases n,
{
    if n == 0 {
        Seq::empty()
    } else {
        insert_by_page(page_order(pages, (n - 1) as nat), n - 1, pages)
    }
}

proof fn lemma_insert_at(order: Seq<int>, x: int, pages: Seq<usize>, j: int)
    requires
        0 <= j <= order.len(),
        forall|i: int| 0 <= i < order.len() ==> 0 <= #[trigger] order[i] < pages.len(),
        0 <= x < pages.len(),
        forall|i: int| j <= i < order.len() ==> pages[#[trigger] order[i]] > pages[x],
        j == 0 || pages[order[j - 1]] <= pages[x],
    ensures
        insert_by_page(order, x, pages) == order.take(j) + seq![x] + order.skip(j),
    decreases order.len(),
{
    if order.len() == 0 {
        assert(order.take(j) + seq![x] + order.skip(j) =~= seq![x]);
    } else if pages[order.last()] <= pages[x] {
        assert(j == order.len());
        assert(order.take(j) + seq![x] + order.skip(j) =~= order.push(x));
    } else {
        let d = order.drop_last();
        assert(j < order.len());
        if j > 0 {
            assert(d[j - 1] == order[j - 1]);
        }
        assert forall|i: int| j <= i < d.len() implies pages[#[trigger] d[i]] > pages[x] by {
            assert(d[i] == order[i]);
        }
        lemma_insert_at(d, x, pages, j);
        assert(d.take(j) + seq![x] + d.skip(j) + seq![order.last()] =~= order.take(j) + seq![x]
            + order.skip(j));
    }
}

pub proof fn lemma_page_order_bounds(pages: Seq<usize>, n: nat)
    requires
        n <= pages.len(),
    ensures
        page_order(pages, n).len() == n,
        forall|i: int| 0 <= i < n ==> 0 <= #[trigger] page_order(pages, n)[i] < n,
    decreases n,
{
    if n > 0 {
        lemma_page_order_bounds(pages, (n - 1) as nat);
        lemma_insert_bounds(page_order(pages, (n - 1) as nat), n - 1, pages, n as int);
    }
}

proof fn lemma_insert_bounds(order: Seq<int>, x: int, pages: Seq<usize>, bound: int)
    requires
        forall|i: int| 0 <= i < order.len() ==> 0 <= #[trigger] order[i] < bound,
        0 <= x < bound,
    ensures
        insert_by_page(order, x, pages).len() == order.len() + 1,
        forall|i: int|
            0 <= i < order.len() + 1 ==> 0 <= #[trigger] insert_by_page(order, x, pages)[i]
                < bound,
    decreases order.len(),
{
    if order.len() > 0 && !(pages[order.last()] <= pages[x]) {
        lemma_insert_bounds(order.drop_last(), x, pages, bound);
        let r = insert_by_page(order.drop_last(), x, pages);
        assert forall|i: int| 0 <= i < order.len() + 1 implies 0 <= #[trigger] insert_by_page(
            order,
            x,
            pages,
        )[i] < bound by {
            if i < r.len() {
                assert(insert_by_page(order, x, pages)[i] == r[i]);
            }
        }
    }
}

/// Position `a` comes before position `b` in a stable order by page.
pub open spec fn before(pages: Seq<usize>, a: int, b: int) -> bool {
    pages[a] < pages[b] || (pages[a] == pages[b] && a < b)
}

pub open spec fn stably_sorted(o: Seq<int>, pages: Seq<usize>) -> bool {
    forall|i: int, j: int| 0 <= i < j < o.len() ==> before(pages, #[trigger] o[i], #[trigger] o[j])
}

proof fn lemma_insert_members(order: Seq<int>, x: int, pages: Seq<usize>)
    ensures
        insert_by_page(order, x, pages).len() == order.len() + 1,
        forall|i: int|
            0 <= i < order.len() + 1 ==> #[trigger] insert_by_page(order, x, pages)[i] == x
                || exists|k: int| 0 <= k < order.len() && order[k] == insert_by_page(order, x, pages)[i],
    decreases order.len(),
{
    let r = insert_by_page(order, x, pages);
    if order.len() == 0 {
    } else if pages[order.last()] <= pages[x] {
        assert forall|i: int| 0 <= i < order.len() + 1 implies #[trigger] r[i] == x || exists|k: int|
            0 <= k < order.len() && order[k] == r[i] by {
            if i < order.len() {
                assert(order[i] == r[i]);
            }
        }
    } else {
        let p = order.drop_last();
        lemma_insert_members(p, x, pages);
        let q = insert_by_page(p, x, pages);
        assert forall|i: int| 0 <= i < order.len() + 1 implies #[trigger] r[i] == x || exists|k: int|
            0 <= k < order.len() && order[k] == r[i] by {
            if i < q.len() {
                assert(r[i] == q[i]);
                if q[i] != x {
                    let k = choose|k: int| 0 <= k < p.len() && p[k] == q[i];
                    assert(order[k] == r[i]);
                }
            } else {
                assert(order[order.len() - 1] == r[i]);
            }
        }
    }
}

proof fn lemma_insert_sorted(order: Seq<int>, x: int, pages: Seq<usize>)
    requires
        stably_sorted(order, pages),
        forall|i: int| 0 <= i < order.len() ==> 0 <= #[trigger] order[i] < x,
        0 <= x < pages.len(),
    ensures
        stably_sorted(insert_by_page(order, x, pages), pages),
    decreases order.len(),
{
    let r = insert_by_page(order, x, pages);
    if order.len() == 0 {
    } else if pages[order.last()] <= pages[x] {
        let n = order.len() as int;
        assert forall|i: int, j: int| 0 <= i < j < r.len() implies before(pages, #[trigger] r[i], #[trigger] r[j]) by {
            if j < n {
                assert(r[i] == order[i] && r[j] == order[j]);
            } else {
                assert(r[i] == order[i]);
                assert(r[j] == x);
                if i < n - 1 {
                    assert(before(pages, order[i], order[n - 1]));
                }
                assert(order[i] < x);
            }
        }
    } else {
        let p = order.drop_last();
        let n = order.len() as int;
        assert(stably_sorted(p, pages)) by {
            assert forall|i: int, j: int| 0 <= i < j < p.len() implies before(pages, #[trigger] p[i], #[trigger] p[j]) by {
                assert(p[i] == order[i] && p[j] == order[j]);
            }
        }
        lemma_insert_sorted(p, x, pages);
        lemma_insert_members(p, x, pages);
        let q = insert_by_page(p, x, pages);
        assert forall|i: int, j: int| 0 <= i < j < r.len() implies before(pages, #[trigger] r[i], #[trigger] r[j]) by {
            if j < q.len() {
                assert(r[i] == q[i] && r[j] == q[j]);
            } else {
                assert(r[i] == q[i]);
                assert(r[j] == order[n - 1]);
                if q[i] == x {
                    assert(pages[x] < pages[order[n - 1]]);
                } else {
                    let k = choose|k: int| 0 <= k < p.len() && p[k] == q[i];
                    assert(order[k] == q[i]);
                    assert(before(pages, order[k], order[n - 1]));
                }
            }
        }
    }
}

proof fn lemma_page_order_sorted(pages: Seq<usize>, n: nat)
    requires
        n <= pages.len(),
    ensures
        stably_sorted(page_order(pages, n), pages),
    decreases n,
{
    if n > 0 {
        lemma_page_order_sorted(pages, (n - 1) as nat);
        lemma_page_order_bounds(pages, (n - 1) as nat);
        lemma_insert_sorted(page_order(pages, (n - 1) as nat), n - 1, pages);
    }
}

/// The order `order_by_page` gives is a stable sort by page: it holds each
/// position of `pages` exactly once, pages never decrease along it, and
/// positions on the same page keep the order they were given in.
pub proof fn lemma_page_order_is_stable_sort(pages: Seq<usize>)
    ensures
        page_order(pages, pages.len()).len() == pages.len(),
        forall|i: int|
            0 <= i < pages.len() ==> 0 <= #[trigger] page_order(pages, pages.len())[i] < pages.len(),
        forall|i: int, j: int|
            0 <= i < j < pages.len() ==> #[trigger] page_order(pages, pages.len())[i] != #[trigger] page_order(
                pages,
                pages.len(),
            )[j],
        forall|i: int, j: int|
            0 <= i < j < pages.len() ==> pages[#[trigger] page_order(pages, pages.len())[i]]
                <= pages[#[trigger] page_order(pages, pages.len())[j]],
        forall|i: int, j: int|
            0 <= i < j < pages.len() && pages[page_order(pages, pages.len())[i]] == pages[page_order(
                pages,
                pages.len(),
            )[j]] ==> #[trigger] page_order(pages, pages.len())[i] < #[trigger] page_order(
                pages,
                pages.len(),
            )[j],
{
    lemma_page_order_bounds(pages, pages.len());
    lemma_page_order_sorted(pages, pages.len());
    let o = page_order(pages, pages.len());
    assert forall|i: int, j: int| 0 <= i < j < pages.len() implies #[trigger] o[i] != #[trigger] o[j] by {
        assert(before(pages, o[i], o[j]));
    }
}

/// The positions of `pages` ordered stably by page.
pub fn order_by_page(pages: &Vec<usize>) -> (r: Vec<usize>)
    ensures
        r@.len() == pages@.len(),
        forall|i: int| 0 <= i < r@.len() ==> (#[trigger] r@[i]) < pages@.len(),
        Seq::new(r@.len(), |i: int| r@[i] as int) == page_order(pages@, pages@.len()),
{
    let mut order: Vec<usize> = Vec::new();
    let mut n: usize = 0;
    while n < pages.len()
        invariant
            0 <= n <= pages.len(),
            order@.len() == n,
            forall|i: int| 0 <= i < order@.len() ==> (#[trigger] order@[i]) < n,
            Seq::new(order@.len(), |i: int| order@[i] as int) == page_order(pages@, n as nat),
        decreases pages.len() - n,
    {
        let ghost o = Seq::new(order@.len(), |i: int| order@[i] as int);
        let p = pages[n];
        let mut j = order.len();
        while j > 0 && pages[order[j - 1]] > p
            invariant
                0 <= j <= order@.len(),
                order@.len() == n,
                n < pages@.len(),
                p == pages@[n as int],
                forall|i: int| 0 <= i < order@.len() ==> (#[trigger] order@[i]) < n,
                forall|i: int| j <= i < order@.len() ==> pages@[#[trigger] order@[i] as int] > p,
            decreases j,
        {
            j = j - 1;
        }
        proof {
            lemma_page_order_bounds(pages@, n as nat);
            assert forall|i: int| 0 <= i < o.len() implies 0 <= #[trigger] o[i] < pages@.len() by {}
            lemma_insert_at(o, n as int, pages@, j as int);
        }
        let ghost before = order@;
        order.insert(j, n);
        assert(Seq::new(order@.len(), |i: int| order@[i] as int) =~= o.take(j as int) + seq![n as int]
            + o.skip(j as int));
        n = n + 1;
    }
    order
}

} // verus!
