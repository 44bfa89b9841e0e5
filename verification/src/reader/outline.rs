//! The table of contents of a PDF, as the reader reads it.

use vstd::prelude::*;
use crate::text;

verus! {

/// How deep the table of contents is followed.
pub const MAX_DEPTH: usize = 16;

/// One entry of the table of contents.
pub struct OutlineItem {
    pub title: String,
    /// The zero-based page it leads to, when that can be resolved. Not checked
    /// against the number of pages: callers clamp it.
    pub page: Option<usize>,
    pub children: Vec<OutlineItem>,
}

/// A PDF's one-based page number made zero-based; `None` below 1.
pub fn zero_based(page_num: i32) -> (r: Option<usize>)
    ensures
        page_num >= 1 ==> r == Some((page_num - 1) as usize),
        page_num < 1 ==> r is None,
{
    if page_num >= 1 {
        Some((page_num - 1) as usize)
    } else {
        None
    }
}

/// A row of the table-of-contents pane.
pub struct OutlineRow {
    /// The entry's title, or `(無題)` where it is blank.
    pub title: String,
    pub page: Option<usize>,
    /// How many levels down the entry sits (0 at the top).
    pub depth: usize,
}

/// The title shown for an entry.
pub open spec fn row_title(t: Seq<char>) -> Seq<char> {
    if text::trimmed(t).len() == 0 {
        "(無題)"@
    } else {
        t
    }
}

/// The rows of `items` at `depth`, in pre-order (an entry, then its
/// children one level deeper, then the entries after it).
pub open spec fn rows_from(items: Seq<OutlineItem>, depth: int) -> Seq<(Seq<char>, Option<usize>, int)>
    decreases items,
{
    if items.len() == 0 {
        Seq::empty()
    } else {
        let first = items[0];
        seq![(row_title(first.title@), first.page, depth)] + rows_from(first.children@, depth + 1)
            + rows_from(items.drop_first(), depth)
    }
}

/// How many entries `items` holds, nested ones included.
pub open spec fn entry_count(items: Seq<OutlineItem>) -> nat
    decreases items,
{
    if items.len() == 0 {
        0
    } else {
        1 + entry_count(items[0].children@) + entry_count(items.drop_first())
    }
}

/// There is one row per entry, nested ones included.
pub proof fn lemma_one_row_per_entry(items: Seq<OutlineItem>, depth: int)
    ensures
        rows_from(items, depth).len() == entry_count(items),
    decreases items,
{
    if items.len() > 0 {
        lemma_one_row_per_entry(items[0].children@, depth + 1);
        lemma_one_row_per_entry(items.drop_first(), depth);
    }
}

proof fn lemma_count_take(s: Seq<OutlineItem>, k: int)
    requires
        1 <= k <= s.len(),
    ensures
        entry_count(s.take(k)) == 1 + entry_count(s[0].children@) + entry_count(
            s.drop_first().take(k - 1),
        ),
{
    let t = s.take(k);
    assert(t[0] == s[0]);
    assert(t.drop_first() =~= s.drop_first().take(k - 1));
}

/// Where the entries of `items` stand among its rows: entry `k` has its
/// row after the rows of the entries before it (with theirs nested), at
/// the depth of the list, and the rows right after it are those of its
/// children, one level deeper.
pub proof fn lemma_entry_rows(items: Seq<OutlineItem>, depth: int, k: int)
    requires
        0 <= k < items.len(),
    ensures
        ({
            let rows = rows_from(items, depth);
            let o = entry_count(items.take(k)) as int;
            let n = entry_count(items[k].children@) as int;
            &&& o + 1 + n <= rows.len()
            &&& rows[o] == (row_title(items[k].title@), items[k].page, depth)
            &&& rows.subrange(o + 1, o + 1 + n) == rows_from(items[k].children@, depth + 1)
        }),
    decreases items.len(),
{
    let rows = rows_from(items, depth);
    let first = items[0];
    let a = rows_from(first.children@, depth + 1);
    let b = rows_from(items.drop_first(), depth);
    lemma_one_row_per_entry(first.children@, depth + 1);
    lemma_one_row_per_entry(items.drop_first(), depth);
    assert(rows == seq![(row_title(first.title@), first.page, depth)] + a + b);
    if k == 0 {
        assert(items.take(0) =~= Seq::<OutlineItem>::empty());
        assert(rows.subrange(1, 1 + a.len() as int) =~= a);
    } else {
        lemma_count_take(items, k);
        let rest = items.drop_first();
        lemma_entry_rows(rest, depth, k - 1);
        assert(rest[k - 1] == items[k]);
        let o2 = entry_count(rest.take(k - 1)) as int;
        let n = entry_count(items[k].children@) as int;
        let o = 1 + a.len() + o2;
        assert(rows[o] == b[o2]);
        assert(rows.subrange(o + 1, o + 1 + n) =~= b.subrange(o2 + 1, o2 + 1 + n));
    }
}

/// Every child entry's row is one level deeper than its parent's and
/// follows it, after the rows of the child's earlier siblings.
pub proof fn lemma_child_one_level_deeper(items: Seq<OutlineItem>, depth: int, k: int, c: int)
    requires
        0 <= k < items.len(),
        0 <= c < items[k].children@.len(),
    ensures
        ({
            let rows = rows_from(items, depth);
            let o = entry_count(items.take(k)) as int;
            let ch = items[k].children@;
            let at = o + 1 + entry_count(ch.take(c)) as int;
            &&& rows[o].2 == depth
            &&& at < rows.len()
            &&& rows[at] == (row_title(ch[c].title@), ch[c].page, depth + 1)
            &&& rows[at].2 == rows[o].2 + 1
        }),
{
    let rows = rows_from(items, depth);
    let o = entry_count(items.take(k)) as int;
    let ch = items[k].children@;
    let n = entry_count(ch) as int;
    lemma_entry_rows(items, depth, k);
    lemma_entry_rows(ch, depth + 1, c);
    lemma_one_row_per_entry(ch, depth + 1);
    let inner = entry_count(ch.take(c)) as int;
    assert(rows.subrange(o + 1, o + 1 + n)[inner] == rows[o + 1 + inner]);
}

/// The number of levels of `items`.
pub open spec fn height(items: Seq<OutlineItem>) -> nat
    decreases items,
{
    if items.len() == 0 {
        0
    } else {
        let a = 1 + height(items[0].children@);
        let b = height(items.drop_first());
        if a > b {
            a
        } else {
            b
        }
    }
}

pub open spec fn row_views(rows: Seq<OutlineRow>) -> Seq<(Seq<char>, Option<usize>, int)> {
    Seq::new(rows.len(), |i: int| (rows[i].title@, rows[i].page, rows[i].depth as int))
}

fn shown_title(t: &String) -> (r: String)
    ensures
        r@ == row_title(t@),
{
    let v = text::chars_of(t.as_str());
    let tr = text::trim(&v);
    if tr.len() == 0 {
        String::from_str("(無題)")
    } else {
        t.clone()
    }
}

fn walk_rows(items: &Vec<OutlineItem>, depth: usize, out: &mut Vec<OutlineRow>)
    requires
        depth + height(items@) <= usize::MAX,
    ensures
        row_views(final(out)@) == row_views(old(out)@) + rows_from(items@, depth as int),
    decreases items@,
{
    let ghost start = row_views(out@);
    let mut i: usize = 0;
    assert(items@.skip(0) =~= items@);
    while i < items.len()
        invariant
            0 <= i <= items@.len(),
            depth + height(items@.skip(i as int)) <= usize::MAX,
            row_views(out@) + rows_from(items@.skip(i as int), depth as int) == start + rows_from(
                items@,
                depth as int,
            ),
        decreases items@.len() - i,
    {
        let item = &items[i];
        let ghost rest = items@.skip(i as int);
        assert(rest[0] == items@[i as int]);
        assert(rest.drop_first() =~= items@.skip(i + 1));
        let ghost o0 = row_views(out@);
        let row = OutlineRow { title: shown_title(&item.title), page: item.page, depth };
        out.push(row);
        assert(row_views(out@) =~= o0 + seq![(row_title(item.title@), item.page, depth as int)]);
        assert(decreases_to!(items@ => items@[i as int]));
        walk_rows(&item.children, depth + 1, out);
        assert(row_views(out@) + rows_from(items@.skip(i + 1), depth as int) =~= o0 + rows_from(
            rest,
            depth as int,
        ));
        i = i + 1;
    }
    assert(items@.skip(items@.len() as int) =~= Seq::<OutlineItem>::empty());
}

/// The rows of the table-of-contents pane: every entry in pre-order with
/// its depth, blank titles shown as `(無題)`.
pub fn outline_rows(items: &Vec<OutlineItem>) -> (rows: Vec<OutlineRow>)
    requires
        height(items@) <= usize::MAX,
    ensures
        row_views(rows@) == rows_from(items@, 0),
{
    let mut out: Vec<OutlineRow> = Vec::new();
    walk_rows(items, 0, &mut out);
    assert(row_views(out@) =~= Seq::<(Seq<char>, Option<usize>, int)>::empty() + rows_from(items@, 0));
    out
}

} // verus!
