//! Tags on highlights: reading the comma-separated tag field, gathering the
//! tags used in a book, and the tag filter of the annotation list.

use vstd::prelude::*;
use crate::text;
use crate::reader::store::Highlight;

verus! {

/// The pieces of `s` between `sep`s, following the partial piece `cur`
/// (`str::split`: an empty piece stays, and there is always a last one).
pub open spec fn split_from(s: Seq<char>, sep: char, cur: Seq<char>) -> Seq<Seq<char>>
    decreases s.len(),
{
    if s.len() == 0 {
        seq![cur]
    } else if s[0] == sep {
        seq![cur] + split_from(s.drop_first(), sep, Seq::empty())
    } else {
        split_from(s.drop_first(), sep, cur.push(s[0]))
    }
}

pub open spec fn split_on(s: Seq<char>, sep: char) -> Seq<Seq<char>> {
    split_from(s, sep, Seq::empty())
}

/// The pieces trimmed, the empty ones left out.
pub open spec fn nonblank_pieces(parts: Seq<Seq<char>>) -> Seq<Seq<char>>
    decreases parts.len(),
{
    if parts.len() == 0 {
        Seq::empty()
    } else {
        let prev = nonblank_pieces(parts.drop_last());
        let t = text::trimmed(parts.last());
        if t.len() == 0 {
            prev
        } else {
            prev.push(t)
        }
    }
}

/// The items in the order they first occur, each once.
pub open spec fn distinct_in_order(items: Seq<Seq<char>>) -> Seq<Seq<char>>
    decreases items.len(),
{
    if items.len() == 0 {
        Seq::empty()
    } else {
        let prev = distinct_in_order(items.drop_last());
        if prev.contains(items.last()) {
            prev
        } else {
            prev.push(items.last())
        }
    }
}

/// The tags a comma-separated tag field holds.
pub open spec fn tags_of(input: Seq<char>) -> Seq<Seq<char>> {
    distinct_in_order(nonblank_pieces(split_on(input, ',')))
}

/// `distinct_in_order` never holds one item twice, and holds exactly the
/// items of its argument.
pub proof fn lemma_distinct_in_order(items: Seq<Seq<char>>)
    ensures
        forall|i: int, j: int|
            0 <= i < j < distinct_in_order(items).len() ==> distinct_in_order(items)[i]
                != distinct_in_order(items)[j],
        forall|x: Seq<char>| distinct_in_order(items).contains(x) <==> items.contains(x),
    decreases items.len(),
{
    if items.len() > 0 {
        let p = items.drop_last();
        lemma_distinct_in_order(p);
        assert forall|x: Seq<char>| distinct_in_order(items).contains(x) <==> items.contains(
            x,
        ) by {
            if items.contains(x) && x != items.last() {
                let k = choose|k: int| 0 <= k < items.len() && items[k] == x;
                assert(p[k] == x);
            }
            if p.contains(x) {
                let k = choose|k: int| 0 <= k < p.len() && p[k] == x;
                assert(items[k] == x);
            }
            assert(items[items.len() - 1] == items.last());
            if distinct_in_order(items).contains(x) && !distinct_in_order(p).contains(x) {
                let d = distinct_in_order(p);
                let k = choose|k: int|
                    0 <= k < distinct_in_order(items).len() && distinct_in_order(items)[k] == x;
                if k < d.len() {
                    assert(d[k] == x);
                }
            }
            if distinct_in_order(p).contains(x) {
                let d = distinct_in_order(p);
                let k = choose|k: int| 0 <= k < d.len() && d[k] == x;
                assert(distinct_in_order(items)[k] == x);
            }
            if x == items.last() && !distinct_in_order(p).contains(x) {
                let d = distinct_in_order(p);
                assert(distinct_in_order(items)[d.len() as int] == x);
            }
        }
    }
}

proof fn lemma_nonblank_pieces(parts: Seq<Seq<char>>)
    ensures
        forall|i: int|
            0 <= i < nonblank_pieces(parts).len() ==> (#[trigger] nonblank_pieces(parts)[i]).len()
                > 0,
    decreases parts.len(),
{
    if parts.len() > 0 {
        let prev = nonblank_pieces(parts.drop_last());
        lemma_nonblank_pieces(parts.drop_last());
        let r = nonblank_pieces(parts);
        assert forall|i: int| 0 <= i < r.len() implies (#[trigger] r[i]).len() > 0 by {
            if i < prev.len() {
                assert(r[i] == prev[i]);
            }
        }
    }
}

/// The tags read from a tag field are never empty and never repeat.
pub proof fn lemma_tags_distinct_nonblank(input: Seq<char>)
    ensures
        forall|i: int, j: int|
            0 <= i < j < tags_of(input).len() ==> tags_of(input)[i] != tags_of(input)[j],
        forall|i: int| 0 <= i < tags_of(input).len() ==> (#[trigger] tags_of(input)[i]).len() > 0,
{
    let items = nonblank_pieces(split_on(input, ','));
    lemma_distinct_in_order(items);
    lemma_nonblank_pieces(split_on(input, ','));
    assert forall|i: int| 0 <= i < tags_of(input).len() implies (#[trigger] tags_of(input)[i]).len()
        > 0 by {
        let t = tags_of(input)[i];
        assert(distinct_in_order(items)[i] == t);
        assert(distinct_in_order(items).contains(t));
        assert(items.contains(t));
        let k = choose|k: int| 0 <= k < items.len() && items[k] == t;
        assert(items[k].len() > 0);
    }
}

fn position_in(out: &Vec<Vec<char>>, t: &Vec<char>) -> (b: bool)
    ensures
        b == text::views(out@).contains(t@),
{
    let mut i: usize = 0;
    while i < out.len()
        invariant
            0 <= i <= out.len(),
            forall|j: int| 0 <= j < i ==> out@[j]@ != t@,
        decreases out.len() - i,
    {
        if text::same_chars(&out[i], t) {
            assert(text::views(out@)[i as int] == t@);
            return true;
        }
        i = i + 1;
    }
    assert(!text::views(out@).contains(t@)) by {
        if text::views(out@).contains(t@) {
            let k = choose|k: int| 0 <= k < text::views(out@).len() && text::views(out@)[k] == t@;
            assert(out@[k]@ == t@);
        }
    }
    false
}

/// Adds `t` to `out` unless it is there already.
fn add_distinct(out: &mut Vec<Vec<char>>, t: Vec<char>, Ghost(items): Ghost<Seq<Seq<char>>>)
    requires
        text::views(old(out)@) == distinct_in_order(items),
    ensures
        text::views(final(out)@) == distinct_in_order(items.push(t@)),
{
    assert(items.push(t@).drop_last() =~= items);
    if !position_in(out, &t) {
        let ghost ov = out@;
        out.push(t);
        proof {
            text::lemma_views_push(ov, t);
        }
    }
}

/// The pieces of `v` between `sep`s.
fn split_at_char(v: &Vec<char>, sep: char) -> (out: Vec<Vec<char>>)
    ensures
        text::views(out@) == split_on(v@, sep),
{
    let mut out: Vec<Vec<char>> = Vec::new();
    let mut cur: Vec<char> = Vec::new();
    let mut i: usize = 0;
    assert(v@.skip(0) =~= v@);
    while i < v.len()
        invariant
            0 <= i <= v.len(),
            text::views(out@) + split_from(v@.skip(i as int), sep, cur@) == split_on(v@, sep),
        decreases v.len() - i,
    {
        let c = v[i];
        let ghost rest = v@.skip(i as int);
        assert(rest.drop_first() =~= v@.skip(i + 1));
        if c == sep {
            let ghost before = text::views(out@);
            let ghost w = cur@;
            let ghost ov = out@;
            proof {
                text::lemma_views_push(ov, cur);
            }
            out.push(cur);
            assert(text::views(out@) + split_from(v@.skip(i + 1), sep, Seq::empty()) =~= before
                + (seq![w] + split_from(rest.drop_first(), sep, Seq::empty())));
            cur = Vec::new();
        } else {
            cur.push(c);
        }
        i = i + 1;
    }
    assert(v@.skip(v.len() as int) =~= Seq::<char>::empty());
    let ghost before = text::views(out@);
    let ghost ov = out@;
    let ghost w = cur@;
    proof {
        text::lemma_views_push(ov, cur);
    }
    out.push(cur);
    assert(text::views(out@) =~= before + split_from(Seq::empty(), sep, w));
    out
}

/// The tags of a comma-separated tag field: each trimmed, empty ones left
/// out, and each kept once, where it first occurs (letter case counts).
pub fn parse_tags(input: &str) -> (r: Vec<String>)
    ensures
        text::string_views(r@) == tags_of(input@),
{
    let v = text::chars_of(input);
    let parts = split_at_char(&v, ',');
    let ghost ps = text::views(parts@);
    let mut out: Vec<Vec<char>> = Vec::new();
    let mut i: usize = 0;
    assert(ps.take(0) =~= Seq::<Seq<char>>::empty());
    while i < parts.len()
        invariant
            0 <= i <= parts.len(),
            ps == text::views(parts@),
            ps == split_on(v@, ','),
            text::views(out@) == distinct_in_order(nonblank_pieces(ps.take(i as int))),
        decreases parts.len() - i,
    {
        let t = text::trim(&parts[i]);
        assert(ps.take(i + 1).drop_last() =~= ps.take(i as int));
        assert(ps.take(i + 1).last() == parts@[i as int]@);
        if t.len() > 0 {
            add_distinct(&mut out, t, Ghost(nonblank_pieces(ps.take(i as int))));
        }
        i = i + 1;
    }
    assert(ps.take(parts.len() as int) =~= ps);
    text::strings_of(&out)
}

/// No filter lets every row through; a filter lets through the rows whose
/// tags include it exactly.
pub fn matches_filter(tags: &[String], filter: Option<&str>) -> (b: bool)
    ensures
        b == (match filter {
            None => true,
            Some(w) => text::string_views(tags@).contains(w@),
        }),
{
    match filter {
        None => true,
        Some(want) => {
            let w = text::chars_of(want);
            let mut i: usize = 0;
            while i < tags.len()
                invariant
                    0 <= i <= tags.len(),
                    w@ == want@,
                    filter == Some(want),
                    forall|j: int| 0 <= j < i ==> tags@[j]@ != want@,
                decreases tags.len() - i,
            {
                let t = text::chars_of(tags[i].as_str());
                if text::same_chars(&t, &w) {
                    assert(text::string_views(tags@)[i as int] == want@);
                    return true;
                }
                i = i + 1;
            }
            assert(!text::string_views(tags@).contains(want@)) by {
                if text::string_views(tags@).contains(want@) {
                    let k = choose|k: int|
                        0 <= k < text::string_views(tags@).len() && text::string_views(tags@)[k]
                            == want@;
                    assert(tags@[k]@ == want@);
                }
            }
            false
        },
    }
}

/// The tags of the highlights, highlight by highlight, in order.
pub open spec fn all_tags<R, T>(hs: Seq<Highlight<R, T>>) -> Seq<Seq<char>>
    decreases hs.len(),
{
    if hs.len() == 0 {
        Seq::empty()
    } else {
        all_tags(hs.drop_last()) + text::string_views(hs.last().tags@)
    }
}

/// The tags used on the highlights, each once, in the order they first
/// occur (for the filter's choices and the completion of the tag field).
pub fn collect_tags<R, T>(highlights: &[Highlight<R, T>]) -> (r: Vec<String>)
    ensures
        text::string_views(r@) == distinct_in_order(all_tags(highlights@)),
{
    let mut out: Vec<Vec<char>> = Vec::new();
    let mut i: usize = 0;
    assert(highlights@.take(0) =~= Seq::<Highlight<R, T>>::empty());
    while i < highlights.len()
        invariant
            0 <= i <= highlights.len(),
            text::views(out@) == distinct_in_order(all_tags(highlights@.take(i as int))),
        decreases highlights.len() - i,
    {
        let h = &highlights[i];
        let ghost before = all_tags(highlights@.take(i as int));
        let ghost tv = text::string_views(h.tags@);
        let mut j: usize = 0;
        assert(tv.take(0) =~= Seq::<Seq<char>>::empty());
        assert(before + tv.take(0) =~= before);
        while j < h.tags.len()
            invariant
                0 <= j <= h.tags.len(),
                tv == text::string_views(h.tags@),
                text::views(out@) == distinct_in_order(before + tv.take(j as int)),
            decreases h.tags.len() - j,
        {
            let t = text::chars_of(h.tags[j].as_str());
            assert(before + tv.take(j + 1) =~= (before + tv.take(j as int)).push(t@));
            add_distinct(&mut out, t, Ghost(before + tv.take(j as int)));
            j = j + 1;
        }
        assert(tv.take(h.tags.len() as int) =~= tv);
        assert(highlights@.take(i + 1).drop_last() =~= highlights@.take(i as int));
        assert(all_tags(highlights@.take(i + 1)) == before + tv);
        i = i + 1;
    }
    assert(highlights@.take(highlights.len() as int) =~= highlights@);
    text::strings_of(&out)
}

} // verus!
