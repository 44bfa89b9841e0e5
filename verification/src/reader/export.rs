//! The Inkdrop note a book's annotations become: the flattened table of
//! contents, the highlights as Markdown, the note body and the request bodies.

use vstd::prelude::*;
use crate::text;
use crate::json;
use crate::clock::{self, LocalTime};
use crate::reader::outline::OutlineItem;
use crate::reader::order;
use crate::reader::store::Highlight;

verus! {

/// A flattened table-of-contents entry.
#[derive(Debug, Clone, PartialEq, Eq)]
pub struct Section {
    pub title: String,
    /// Zero-based.
    pub page: usize,
}

/// The entries with a page, in pre-order (an entry before its children).
pub open spec fn flatten(items: Seq<OutlineItem>) -> Seq<(Seq<char>, usize)>
    decreases items,
{
    if items.len() == 0 {
        Seq::empty()
    } else {
        let first = items[0];
        (match first.page {
            Some(p) => seq![(first.title@, p)],
            None => Seq::empty(),
        }) + flatten(first.children@) + flatten(items.drop_first())
    }
}

pub open spec fn section_views(s: Seq<Section>) -> Seq<(Seq<char>, usize)> {
    Seq::new(s.len(), |i: int| (s[i].title@, s[i].page))
}

pub proof fn lemma_section_views_push(s: Seq<Section>, x: Section)
    ensures
        section_views(s.push(x)) == section_views(s).push((x.title@, x.page)),
{
    assert(section_views(s.push(x)) =~= section_views(s).push((x.title@, x.page)));
}

fn walk(items: &Vec<OutlineItem>, out: &mut Vec<Section>)
    ensures
        section_views(final(out)@) == section_views(old(out)@) + flatten(items@),
    decreases items@,
{
    let ghost start = section_views(out@);
    let mut i: usize = 0;
    assert(items@.skip(0) =~= items@);
    while i < items.len()
        invariant
            0 <= i <= items@.len(),
            section_views(out@) + flatten(items@.skip(i as int)) == start + flatten(items@),
        decreases items@.len() - i,
    {
        let item = &items[i];
        let ghost rest = items@.skip(i as int);
        assert(rest[0] == items@[i as int]);
        assert(rest.drop_first() =~= items@.skip(i + 1));
        let ghost o0 = section_views(out@);
        match item.page {
            Some(p) => {
                let s = Section { title: item.title.clone(), page: p };
                out.push(s);
                assert(section_views(out@) =~= o0 + seq![(item.title@, p)]);
            },
            None => {
                assert(section_views(out@) =~= o0 + Seq::<(Seq<char>, usize)>::empty());
            },
        }
        let ghost o1 = section_views(out@);
        assert(decreases_to!(items@ => items@[i as int]));
        walk(&item.children, out);
        assert(section_views(out@) + flatten(items@.skip(i + 1)) =~= o0 + flatten(rest) + Seq::<(Seq<char>, usize)>::empty()
            + Seq::<(Seq<char>, usize)>::empty()) by {
            assert(flatten(rest) =~= (match rest[0].page {
                Some(p) => seq![(rest[0].title@, p)],
                None => Seq::<(Seq<char>, usize)>::empty(),
            }) + flatten(rest[0].children@) + flatten(rest.drop_first()));
        }
        i = i + 1;
    }
    assert(items@.skip(items@.len() as int) =~= Seq::<OutlineItem>::empty());
}

} // verus!

verus! {

pub open spec fn pages_of(f: Seq<(Seq<char>, usize)>) -> Seq<usize> {
    Seq::new(f.len(), |i: int| f[i].1)
}

/// `f` reordered stably by page.
pub open spec fn sorted_by_page(f: Seq<(Seq<char>, usize)>) -> Seq<(Seq<char>, usize)> {
    let o = order::page_order(pages_of(f), f.len());
    Seq::new(f.len(), |k: int| f[o[k]])
}

/// The table of contents as a flat list in page order: entries without a
/// page are dropped, entries on the same page keep their outline order.
pub fn sections(outline: &Vec<OutlineItem>) -> (r: Vec<Section>)
    ensures
        section_views(r@) == sorted_by_page(flatten(outline@)),
{
    let mut flat: Vec<Section> = Vec::new();
    walk(outline, &mut flat);
    assert(section_views(flat@) =~= flatten(outline@));
    let mut pages: Vec<usize> = Vec::new();
    let mut i: usize = 0;
    while i < flat.len()
        invariant
            0 <= i <= flat@.len(),
            pages@ == pages_of(section_views(flat@)).take(i as int),
        decreases flat@.len() - i,
    {
        pages.push(flat[i].page);
        assert(pages@ =~= pages_of(section_views(flat@)).take(i + 1));
        i = i + 1;
    }
    assert(pages@ =~= pages_of(section_views(flat@)));
    let o = order::order_by_page(&pages);
    let ghost f = section_views(flat@);
    let mut out: Vec<Section> = Vec::new();
    let mut k: usize = 0;
    while k < o.len()
        invariant
            0 <= k <= o@.len(),
            o@.len() == flat@.len(),
            f == section_views(flat@),
            forall|j: int| 0 <= j < o@.len() ==> (#[trigger] o@[j]) < flat@.len(),
            Seq::new(o@.len(), |j: int| o@[j] as int) == order::page_order(pages_of(f), f.len()),
            section_views(out@) == sorted_by_page(f).take(k as int),
        decreases o@.len() - k,
    {
        let s = &flat[o[k]];
        let copy = Section { title: s.title.clone(), page: s.page };
        let ghost oo = out@;
        proof {
            lemma_section_views_push(oo, copy);
        }
        out.push(copy);
        assert(f[o@[k as int] as int] == (s.title@, s.page));
        assert(order::page_order(pages_of(f), f.len())[k as int] == o@[k as int] as int);
        assert(section_views(out@) =~= sorted_by_page(f).take(k + 1));
        k = k + 1;
    }
    assert(sorted_by_page(f).take(o@.len() as int) =~= sorted_by_page(f));
    out
}

/// The title of the last section that starts at or before `page`.
pub open spec fn heading_of(s: Seq<(Seq<char>, usize)>, page: usize) -> Option<Seq<char>>
    decreases s.len(),
{
    if s.len() == 0 {
        None
    } else if s.last().1 <= page {
        Some(s.last().0)
    } else {
        heading_of(s.drop_last(), page)
    }
}

/// The heading a page falls under is the last section starting at or before
/// it: where some section does, the heading is the title of one that does,
/// and every section after that one starts after the page; where none does,
/// there is no heading.
pub proof fn lemma_heading_is_last_at_or_before(s: Seq<(Seq<char>, usize)>, page: usize)
    ensures
        heading_of(s, page) is None <==> forall|i: int| 0 <= i < s.len() ==> #[trigger] s[i].1
            > page,
        heading_of(s, page) matches Some(t) ==> exists|i: int|
            0 <= i < s.len() && #[trigger] s[i].1 <= page && s[i].0 == t && forall|j: int|
                i < j < s.len() ==> #[trigger] s[j].1 > page,
    decreases s.len(),
{
    if s.len() > 0 {
        let d = s.drop_last();
        lemma_heading_is_last_at_or_before(d, page);
        let n = s.len() - 1;
        if s.last().1 <= page {
            assert(s[n].1 <= page);
        } else {
            assert forall|i: int| 0 <= i < d.len() implies d[i] == s[i] by {}
            if heading_of(d, page) is None {
                assert forall|i: int| 0 <= i < s.len() implies #[trigger] s[i].1 > page by {
                    if i < n {
                        assert(d[i] == s[i]);
                    }
                }
            } else {
                let t = heading_of(d, page)->0;
                let i = choose|i: int|
                    0 <= i < d.len() && #[trigger] d[i].1 <= page && d[i].0 == t && forall|j: int|
                        i < j < d.len() ==> #[trigger] d[j].1 > page;
                assert(s[i] == d[i]);
                assert forall|j: int| i < j < s.len() implies #[trigger] s[j].1 > page by {
                    if j < n {
                        assert(d[j] == s[j]);
                    }
                }
                assert(d[i].1 <= page);
            }
        }
    }
}

/// The heading `page` falls under: the nearest section starting at or before
/// it (the last such one in the list); `None` without sections or before
/// the first.
pub fn heading_for(sections: &[Section], page: usize) -> (r: Option<&str>)
    ensures
        match r {
            Some(t) => heading_of(section_views(sections@), page) == Some(t@),
            None => heading_of(section_views(sections@), page) is None,
        },
        match r {
            Some(t) => exists|i: int|
                0 <= i < sections@.len() && #[trigger] sections@[i].page <= page
                    && sections@[i].title@ == t@ && forall|j: int|
                    i < j < sections@.len() ==> #[trigger] sections@[j].page > page,
            None => forall|i: int| 0 <= i < sections@.len() ==> #[trigger] sections@[i].page > page,
        },
{
    let ghost all = section_views(sections@);
    let mut i = sections.len();
    assert(all.take(i as int) =~= all);
    while i > 0
        invariant
            0 <= i <= sections@.len(),
            all == section_views(sections@),
            heading_of(all, page) == heading_of(all.take(i as int), page),
            forall|j: int| i <= j < sections@.len() ==> #[trigger] sections@[j].page > page,
        decreases i,
    {
        assert(all.take(i as int).last() == (sections@[i - 1].title@, sections@[i - 1].page));
        assert(all.take(i as int).drop_last() =~= all.take(i - 1));
        if sections[i - 1].page <= page {
            assert(sections@[i - 1].page <= page);
            return Some(sections[i - 1].title.as_str());
        }
        i = i - 1;
    }
    None
}

/// The note title: the PDF's own title, else its file name.
pub fn title_for(doc_title: Option<&str>, file_name: &str) -> (s: String)
    ensures
        s@ == match doc_title {
            Some(t) => t@,
            None => file_name@,
        },
{
    match doc_title {
        Some(t) => String::from_str(t),
        None => String::from_str(file_name),
    }
}

/// A quoted line: `> ` then the line, a leading `>` escaped as `\>`.
pub open spec fn quote_line(l: Seq<char>) -> Seq<char> {
    "> "@ + (if l.len() > 0 && l[0] == '>' {
        seq!['\\'] + l
    } else {
        l
    }) + "\n"@
}

pub open spec fn quote_block(ls: Seq<Seq<char>>) -> Seq<char>
    decreases ls.len(),
{
    if ls.len() == 0 {
        Seq::empty()
    } else {
        quote_block(ls.drop_last()) + quote_line(ls.last())
    }
}

pub open spec fn tag_code(t: Seq<char>) -> Seq<char> {
    "`#"@ + t + "`"@
}

/// One highlight's entry: `p.<page+1>`, the quote, the memo when it is not
/// blank, the tags as inline code when there are any, and a blank line.
pub open spec fn highlight_entry<R, T>(h: Highlight<R, T>) -> Seq<char> {
    "p."@ + text::decimal((h.page + 1) as nat) + "\n"@ + quote_block(text::lines_of(h.quote@))
        + (if text::trimmed(h.memo@).len() > 0 {
        h.memo@ + "\n"@
    } else {
        Seq::empty()
    }) + (if h.tags@.len() > 0 {
        text::joined(
            Seq::new(h.tags@.len(), |i: int| tag_code(h.tags@[i]@)),
            " "@,
        ) + "\n"@
    } else {
        Seq::empty()
    }) + "\n"@
}

/// The entries in order, each preceded by `### <heading>` when its heading
/// differs from the previous entry's.
pub open spec fn markdown_from<R, T>(
    hs: Seq<Highlight<R, T>>,
    secs: Seq<(Seq<char>, usize)>,
    current: Option<Seq<char>>,
) -> Seq<char>
    decreases hs.len(),
{
    if hs.len() == 0 {
        Seq::empty()
    } else {
        let h = hs[0];
        let hd = heading_of(secs, h.page);
        (if hd != current {
            match hd {
                Some(x) => "### "@ + x + "\n"@,
                None => Seq::empty(),
            }
        } else {
            Seq::empty()
        }) + highlight_entry(h) + markdown_from(hs.drop_first(), secs, hd)
    }
}

/// `s` without its trailing newlines.
pub open spec fn strip_newlines_end(s: Seq<char>) -> Seq<char>
    decreases s.len(),
{
    if s.len() > 0 && s.last() == '\n' {
        strip_newlines_end(s.drop_last())
    } else {
        s
    }
}

pub open spec fn highlight_pages<R, T>(hs: Seq<Highlight<R, T>>) -> Seq<usize> {
    Seq::new(hs.len(), |i: int| hs[i].page)
}

/// The highlights reordered stably by page.
pub open spec fn highlights_by_page<R, T>(hs: Seq<Highlight<R, T>>) -> Seq<Highlight<R, T>> {
    let o = order::page_order(highlight_pages(hs), hs.len());
    Seq::new(hs.len(), |k: int| hs[o[k]])
}

/// The "highlights" section of the note.
pub open spec fn markdown_text<R, T>(
    hs: Seq<Highlight<R, T>>,
    secs: Seq<(Seq<char>, usize)>,
) -> Seq<char> {
    strip_newlines_end(markdown_from(highlights_by_page(hs), secs, None))
}

fn push_quote(out: &mut Vec<char>, quote: &str)
    ensures
        final(out)@ == old(out)@ + quote_block(text::lines_of(quote@)),
{
    let v = text::chars_of(quote);
    let ls = text::split_lines(&v);
    let ghost all = text::views(ls@);
    let ghost start = out@;
    let mut i: usize = 0;
    while i < ls.len()
        invariant
            0 <= i <= ls@.len(),
            all == text::views(ls@),
            all == text::lines_of(quote@),
            out@ == start + quote_block(all.take(i as int)),
        decreases ls@.len() - i,
    {
        let l = &ls[i];
        let ghost o0 = out@;
        text::push_str(out, "> ");
        if l.len() > 0 && l[0] == '>' {
            out.push('\\');
        }
        let ghost o1 = out@;
        text::push_all(out, l);
        out.push('\n');
        assert(out@ =~= o0 + quote_line(l@)) by {
            reveal_strlit("> ");
            reveal_strlit("\n");
        }
        assert(all.take(i + 1).drop_last() =~= all.take(i as int));
        assert(all.take(i + 1).last() == l@);
        assert(out@ =~= start + quote_block(all.take(i + 1)));
        i = i + 1;
    }
    assert(all.take(ls@.len() as int) =~= all);
}

fn push_entry<R, T>(out: &mut Vec<char>, h: &Highlight<R, T>)
    requires
        h.page < usize::MAX,
    ensures
        final(out)@ == old(out)@ + highlight_entry(*h),
{
    text::push_str(out, "p.");
    text::push_decimal(out, (h.page as u64) + 1);
    text::push_str(out, "\n");
    let ghost a = out@;
    assert(a =~= old(out)@ + "p."@ + text::decimal((h.page + 1) as nat) + "\n"@);
    push_quote(out, h.quote.as_str());
    let ghost b = out@;
    let memo = text::chars_of(h.memo.as_str());
    let t = text::trim(&memo);
    if t.len() > 0 {
        text::push_all(out, &memo);
        out.push('\n');
        assert(out@ =~= b + (h.memo@ + "\n"@)) by {
            reveal_strlit("\n");
        }
    } else {
        assert(out@ =~= b + Seq::<char>::empty());
    }
    let ghost c = out@;
    if h.tags.len() > 0 {
        let mut codes: Vec<Vec<char>> = Vec::new();
        let mut i: usize = 0;
        while i < h.tags.len()
            invariant
                0 <= i <= h.tags@.len(),
                text::views(codes@) == Seq::new(i as nat, |k: int| tag_code(h.tags@[k]@)),
            decreases h.tags@.len() - i,
        {
            let mut code: Vec<char> = Vec::new();
            text::push_str(&mut code, "`#");
            text::push_str(&mut code, h.tags[i].as_str());
            text::push_str(&mut code, "`");
            let ghost oc = codes@;
            proof {
                text::lemma_views_push(oc, code);
            }
            codes.push(code);
            assert(text::views(codes@) =~= Seq::new((i + 1) as nat, |k: int| tag_code(h.tags@[k]@)));
            i = i + 1;
        }
        let sep = text::chars_of(" ");
        let line = text::join(&codes, &sep);
        text::push_all(out, &line);
        out.push('\n');
        assert(out@ =~= c + (text::joined(
            Seq::new(h.tags@.len(), |i: int| tag_code(h.tags@[i]@)),
            " "@,
        ) + "\n"@)) by {
            reveal_strlit("\n");
        }
    } else {
        assert(out@ =~= c + Seq::<char>::empty());
    }
    let ghost d = out@;
    out.push('\n');
    assert(out@ =~= d + "\n"@) by {
        reveal_strlit("\n");
    }
    assert(out@ =~= old(out)@ + highlight_entry(*h));
}

/// The "highlights" section of the note: the highlights in page order (same
/// page: creation order), grouped under `### <heading>` lines when the book
/// has a table of contents, without trailing newlines.
pub fn highlights_markdown<R, T>(highlights: &[Highlight<R, T>], sections: &[Section]) -> (s: String)
    requires
        forall|i: int| 0 <= i < highlights@.len() ==> (#[trigger] highlights@[i]).page < usize::MAX,
    ensures
        s@ == markdown_text(highlights@, section_views(sections@)),
{
    let n = highlights.len();
    let mut pages: Vec<usize> = Vec::new();
    let mut i: usize = 0;
    while i < n
        invariant
            n == highlights@.len(),
            0 <= i <= n,
            pages@ == highlight_pages(highlights@).take(i as int),
        decreases n - i,
    {
        pages.push(highlights[i].page);
        assert(pages@ =~= highlight_pages(highlights@).take(i + 1));
        i = i + 1;
    }
    assert(pages@ =~= highlight_pages(highlights@));
    let o = order::order_by_page(&pages);
    let ghost sorted = highlights_by_page(highlights@);
    let ghost secs = section_views(sections@);
    let ghost whole = markdown_from(sorted, secs, None);
    let mut out: Vec<char> = Vec::new();
    let mut current: Option<&str> = None;
    let mut k: usize = 0;
    assert(sorted.skip(0) =~= sorted);
    while k < n
        invariant
            n == highlights@.len(),
            o@.len() == n,
            0 <= k <= n,
            forall|j: int| 0 <= j < n ==> (#[trigger] o@[j]) < n,
            forall|j: int| 0 <= j < n ==> (#[trigger] highlights@[j]).page < usize::MAX,
            Seq::new(o@.len(), |j: int| o@[j] as int) == order::page_order(
                highlight_pages(highlights@),
                n as nat,
            ),
            sorted == highlights_by_page(highlights@),
            secs == section_views(sections@),
            whole == markdown_from(sorted, secs, None),
            out@ + markdown_from(sorted.skip(k as int), secs, match current {
                Some(c) => Some(c@),
                None => None,
            }) == whole,
        decreases n - k,
    {
        let h = &highlights[o[k]];
        assert(order::page_order(highlight_pages(highlights@), n as nat)[k as int] == o@[k as int] as int);
        assert(sorted[k as int] == *h);
        let ghost rest = sorted.skip(k as int);
        assert(rest[0] == *h);
        assert(rest.drop_first() =~= sorted.skip(k + 1));
        let ghost cur_view = match current {
            Some(c) => Some(c@),
            None => None::<Seq<char>>,
        };
        let hd = heading_for(sections, h.page);
        let ghost hd_view = match hd {
            Some(c) => Some(c@),
            None => None::<Seq<char>>,
        };
        let ghost o0 = out@;
        let differs = match (hd, current) {
            (None, None) => false,
            (Some(a), Some(b)) => {
                let av = text::chars_of(a);
                let bv = text::chars_of(b);
                !text::same_chars(&av, &bv)
            },
            _ => true,
        };
        assert(differs == (hd_view != cur_view));
        if differs {
            match hd {
                Some(x) => {
                    text::push_str(&mut out, "### ");
                    text::push_str(&mut out, x);
                    text::push_str(&mut out, "\n");
                },
                None => {},
            }
            current = hd;
        }
        push_entry(&mut out, h);
        assert(out@ + markdown_from(sorted.skip(k + 1), secs, hd_view) =~= o0 + markdown_from(
            rest,
            secs,
            cur_view,
        ));
        k = k + 1;
    }
    assert(sorted.skip(n as int) =~= Seq::<Highlight<R, T>>::empty());
    let mut end = out.len();
    assert(out@.take(end as int) =~= out@);
    while end > 0 && out[end - 1] == '\n'
        invariant
            0 <= end <= out@.len(),
            strip_newlines_end(out@) == strip_newlines_end(out@.take(end as int)),
        decreases end,
    {
        assert(out@.take(end as int).drop_last() =~= out@.take(end - 1));
        end = end - 1;
    }
    let r = text::slice_of(&out, 0, end);
    assert(r@ =~= out@.take(end as int));
    assert(out@.take(out@.len() as int) =~= out@);
    text::string_of(&r)
}

} // verus!

verus! {

/// The note body: the digest, the highlights and a source footer with the
/// time of writing.
pub open spec fn body_text(digest: Seq<char>, md: Seq<char>, at: LocalTime) -> Seq<char> {
    "## 抄訳\n\n"@ + digest + "\n\n## ハイライト\n\n"@ + md + "\n\nSource: miryam-reader\nUpdated: "@
        + clock::ymd_hm_text(at)
}

/// The note body written at `at`.
pub fn compose_body_at(digest_body: &str, highlights_md: &str, at: &LocalTime) -> (s: String)
    ensures
        s@ == body_text(digest_body@, highlights_md@, *at),
{
    let mut out: Vec<char> = Vec::new();
    text::push_str(&mut out, "## 抄訳\n\n");
    text::push_str(&mut out, digest_body);
    text::push_str(&mut out, "\n\n## ハイライト\n\n");
    text::push_str(&mut out, highlights_md);
    text::push_str(&mut out, "\n\nSource: miryam-reader\nUpdated: ");
    clock::push_ymd_hm(&mut out, at);
    assert(out@ =~= body_text(digest_body@, highlights_md@, *at));
    text::string_of(&out)
}

/// The note body written now.
pub fn compose_body(digest_body: &str, highlights_md: &str) -> (s: String)
    ensures
        exists|t: LocalTime| t.valid() && s@ == body_text(digest_body@, highlights_md@, t),
{
    let now = clock::local_now();
    compose_body_at(digest_body, highlights_md, &now)
}

/// The members of a Markdown note, in the order of their names: the body,
/// the notebook, the kind, the sharing, the status and the title.
pub open spec fn note_members(book_id: Seq<char>, title: Seq<char>, body: Seq<char>) -> Seq<
    (Seq<char>, Seq<char>),
> {
    seq![
        ("body"@, body),
        ("bookId"@, book_id),
        ("doctype"@, "markdown"@),
        ("share"@, "private"@),
        ("status"@, "none"@),
        ("title"@, title),
    ]
}

/// The body of `POST /notes`: the JSON object of the note's members.
pub open spec fn create_json(book_id: Seq<char>, title: Seq<char>, body: Seq<char>) -> Seq<char> {
    json::object_text(note_members(book_id, title, body))
}

/// The body of `PUT /notes/<id>`: the note's `_id` and `_rev`, then its members.
pub open spec fn update_json(
    book_id: Seq<char>,
    id: Seq<char>,
    rev: Seq<char>,
    title: Seq<char>,
    body: Seq<char>,
) -> Seq<char> {
    json::object_text(seq![("_id"@, id), ("_rev"@, rev)] + note_members(book_id, title, body))
}

/// The member names of a note come in ascending order, after `_id` and `_rev`.
proof fn lemma_note_keys_ascending()
    ensures
        text::ascending(seq!["body"@, "bookId"@, "doctype"@, "share"@, "status"@, "title"@]),
        text::ascending(
            seq!["_id"@, "_rev"@, "body"@, "bookId"@, "doctype"@, "share"@, "status"@, "title"@],
        ),
{
    reveal_strlit("_id");
    reveal_strlit("_rev");
    reveal_strlit("body");
    reveal_strlit("bookId");
    reveal_strlit("doctype");
    reveal_strlit("share");
    reveal_strlit("status");
    reveal_strlit("title");
    assert("_id"@.take(1) =~= "_rev"@.take(1));
    text::lemma_text_lt_at("_id"@, "_rev"@, 1);
    assert("_rev"@.take(0) =~= "body"@.take(0));
    text::lemma_text_lt_at("_rev"@, "body"@, 0);
    assert("body"@.take(2) =~= "bookId"@.take(2));
    text::lemma_text_lt_at("body"@, "bookId"@, 2);
    assert("bookId"@.take(0) =~= "doctype"@.take(0));
    text::lemma_text_lt_at("bookId"@, "doctype"@, 0);
    assert("doctype"@.take(0) =~= "share"@.take(0));
    text::lemma_text_lt_at("doctype"@, "share"@, 0);
    assert("share"@.take(1) =~= "status"@.take(1));
    text::lemma_text_lt_at("share"@, "status"@, 1);
    assert("status"@.take(0) =~= "title"@.take(0));
    text::lemma_text_lt_at("status"@, "title"@, 0);
    let e = Seq::<Seq<char>>::empty();
    assert(text::ascending(e.push("body"@)));
    text::lemma_ascending_push(e.push("body"@), "bookId"@);
    text::lemma_ascending_push(e.push("body"@).push("bookId"@), "doctype"@);
    text::lemma_ascending_push(e.push("body"@).push("bookId"@).push("doctype"@), "share"@);
    text::lemma_ascending_push(
        e.push("body"@).push("bookId"@).push("doctype"@).push("share"@),
        "status"@,
    );
    text::lemma_ascending_push(
        e.push("body"@).push("bookId"@).push("doctype"@).push("share"@).push("status"@),
        "title"@,
    );
    assert(e.push("body"@).push("bookId"@).push("doctype"@).push("share"@).push("status"@).push(
        "title"@,
    ) =~= seq!["body"@, "bookId"@, "doctype"@, "share"@, "status"@, "title"@]);
    assert(text::ascending(e.push("_id"@)));
    text::lemma_ascending_push(e.push("_id"@), "_rev"@);
    let u2 = e.push("_id"@).push("_rev"@);
    text::lemma_ascending_push(u2, "body"@);
    text::lemma_ascending_push(u2.push("body"@), "bookId"@);
    text::lemma_ascending_push(u2.push("body"@).push("bookId"@), "doctype"@);
    text::lemma_ascending_push(u2.push("body"@).push("bookId"@).push("doctype"@), "share"@);
    text::lemma_ascending_push(
        u2.push("body"@).push("bookId"@).push("doctype"@).push("share"@),
        "status"@,
    );
    text::lemma_ascending_push(
        u2.push("body"@).push("bookId"@).push("doctype"@).push("share"@).push("status"@),
        "title"@,
    );
    assert(u2.push("body"@).push("bookId"@).push("doctype"@).push("share"@).push("status"@).push(
        "title"@,
    ) =~= seq!["_id"@, "_rev"@, "body"@, "bookId"@, "doctype"@, "share"@, "status"@, "title"@]);
}

fn push_note_members(out: &mut Vec<(String, String)>, book_id: &str, title: &str, body: &str)
    ensures
        json::member_views(final(out)@) == json::member_views(old(out)@) + note_members(
            book_id@,
            title@,
            body@,
        ),
{
    out.push((String::from_str("body"), String::from_str(body)));
    out.push((String::from_str("bookId"), String::from_str(book_id)));
    out.push((String::from_str("doctype"), String::from_str("markdown")));
    out.push((String::from_str("share"), String::from_str("private")));
    out.push((String::from_str("status"), String::from_str("none")));
    out.push((String::from_str("title"), String::from_str(title)));
    assert(json::member_views(out@) =~= json::member_views(old(out)@) + note_members(
        book_id@,
        title@,
        body@,
    ));
}

pub fn create_payload(book_id: &str, title: &str, body: &str) -> (s: String)
    ensures
        s@ == create_json(book_id@, title@, body@),
{
    let mut members: Vec<(String, String)> = Vec::new();
    push_note_members(&mut members, book_id, title, body);
    proof {
        lemma_note_keys_ascending();
        assert(json::member_views(members@) =~= note_members(book_id@, title@, body@));
        assert(json::keys_of(json::member_views(members@)) =~= seq![
            "body"@,
            "bookId"@,
            "doctype"@,
            "share"@,
            "status"@,
            "title"@,
        ]);
    }
    json::json_object(&members)
}

pub fn update_payload(book_id: &str, id: &str, rev: &str, title: &str, body: &str) -> (s: String)
    ensures
        s@ == update_json(book_id@, id@, rev@, title@, body@),
{
    let mut members: Vec<(String, String)> = Vec::new();
    members.push((String::from_str("_id"), String::from_str(id)));
    members.push((String::from_str("_rev"), String::from_str(rev)));
    push_note_members(&mut members, book_id, title, body);
    proof {
        lemma_note_keys_ascending();
        assert(json::member_views(members@) =~= seq![("_id"@, id@), ("_rev"@, rev@)] + note_members(
            book_id@,
            title@,
            body@,
        ));
        assert(json::keys_of(json::member_views(members@)) =~= seq![
            "_id"@,
            "_rev"@,
            "body"@,
            "bookId"@,
            "doctype"@,
            "share"@,
            "status"@,
            "title"@,
        ]);
    }
    json::json_object(&members)
}

/// The `_rev` of a `GET /notes/<id>` reply.
pub fn rev_from(note_json: &str) -> (r: Option<String>)
    ensures
        json::opt_text(r) == json::json_member_text(note_json@, "_rev"@),
{
    json::json_str_member(note_json, "_rev")
}

/// The `_id` of a `POST /notes` reply.
pub fn id_from(note_json: &str) -> (r: Option<String>)
    ensures
        json::opt_text(r) == json::json_member_text(note_json@, "_id"@),
{
    json::json_str_member(note_json, "_id")
}

} // verus!
