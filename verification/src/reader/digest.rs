//! The reading digest the language model writes: a summary, a `---` line,
//! then remarks one per line.

use vstd::prelude::*;
use crate::text;
use crate::reader::export::{self, Section};
use crate::reader::order;
use crate::reader::store::Highlight;

verus! {

/// The most remarks kept.
pub const REMARKS_MAX: usize = 5;

/// The index of the first line that is `---` once trimmed.
pub open spec fn separator_index(ls: Seq<Seq<char>>) -> Option<int>
    decreases ls.len(),
{
    if ls.len() == 0 {
        None
    } else if text::trimmed(ls[0]) == "---"@ {
        Some(0)
    } else {
        match separator_index(ls.drop_first()) {
            Some(i) => Some(i + 1),
            None => None,
        }
    }
}

/// The trimmed lines that are not blank, in order.
pub open spec fn nonblank_trimmed(ls: Seq<Seq<char>>) -> Seq<Seq<char>>
    decreases ls.len(),
{
    if ls.len() == 0 {
        Seq::empty()
    } else if text::trimmed(ls.last()).len() > 0 {
        nonblank_trimmed(ls.drop_last()).push(text::trimmed(ls.last()))
    } else {
        nonblank_trimmed(ls.drop_last())
    }
}

/// The digest in the model's output: the lines before the first `---` line,
/// joined and trimmed, must not be blank; the non-blank lines after it,
/// trimmed, are the remarks (at most `REMARKS_MAX`).
pub open spec fn digest_split(s: Seq<char>) -> Option<(Seq<char>, Seq<Seq<char>>)> {
    let ls = text::lines_of(s);
    match separator_index(ls) {
        None => None,
        Some(k) => {
            let body = text::trimmed(text::joined(ls.take(k), "\n"@));
            if body.len() == 0 {
                None
            } else {
                Some((body, text::first_n(nonblank_trimmed(ls.skip(k + 1)), REMARKS_MAX as nat)))
            }
        },
    }
}

proof fn lemma_nonblank_trimmed(ls: Seq<Seq<char>>)
    ensures
        forall|i: int|
            0 <= i < nonblank_trimmed(ls).len() ==> (#[trigger] nonblank_trimmed(ls)[i]).len() > 0,
    decreases ls.len(),
{
    if ls.len() > 0 {
        let prev = nonblank_trimmed(ls.drop_last());
        lemma_nonblank_trimmed(ls.drop_last());
        let r = nonblank_trimmed(ls);
        assert forall|i: int| 0 <= i < r.len() implies (#[trigger] r[i]).len() > 0 by {
            if i < prev.len() {
                assert(r[i] == prev[i]);
            }
        }
    }
}

/// A digest that is read has a body that is not blank and at most
/// `REMARKS_MAX` remarks, none of them empty.
pub proof fn lemma_digest_bounds(s: Seq<char>)
    ensures
        digest_split(s) matches Some((body, remarks)) ==> body.len() > 0 && remarks.len()
            <= REMARKS_MAX && forall|i: int|
            0 <= i < remarks.len() ==> (#[trigger] remarks[i]).len() > 0,
{
    let ls = text::lines_of(s);
    if let Some(k) = separator_index(ls) {
        let rs = nonblank_trimmed(ls.skip(k + 1));
        lemma_nonblank_trimmed(ls.skip(k + 1));
        let f = text::first_n(rs, REMARKS_MAX as nat);
        assert forall|i: int| 0 <= i < f.len() implies (#[trigger] f[i]).len() > 0 by {
            assert(f[i] == rs[i]);
        }
    }
}

proof fn lemma_separator_index(ls: Seq<Seq<char>>, k: int)
    requires
        0 <= k <= ls.len(),
        forall|j: int| 0 <= j < k ==> text::trimmed(#[trigger] ls[j]) != "---"@,
    ensures
        k < ls.len() && text::trimmed(ls[k]) == "---"@ ==> separator_index(ls) == Some(k),
        k == ls.len() ==> separator_index(ls) is None,
    decreases k,
{
    if k > 0 {
        let t = ls.drop_first();
        assert forall|j: int| 0 <= j < k - 1 implies text::trimmed(#[trigger] t[j]) != "---"@ by {
            assert(t[j] == ls[j + 1]);
        }
        assert(text::trimmed(ls[0]) != "---"@);
        lemma_separator_index(t, k - 1);
        if k < ls.len() {
            assert(t[k - 1] == ls[k]);
        }
    }
}

fn find_separator(ls: &Vec<Vec<char>>) -> (r: Option<usize>)
    ensures
        match r {
            Some(k) => separator_index(text::views(ls@)) == Some(k as int) && k < ls@.len(),
            None => separator_index(text::views(ls@)) is None,
        },
{
    let ghost all = text::views(ls@);
    let dashes = text::chars_of("---");
    let mut k: usize = 0;
    while k < ls.len()
        invariant
            0 <= k <= ls.len(),
            all == text::views(ls@),
            dashes@ == "---"@,
            forall|j: int| 0 <= j < k ==> text::trimmed(#[trigger] all[j]) != "---"@,
        decreases ls.len() - k,
    {
        let t = text::trim(&ls[k]);
        if text::same_chars(&t, &dashes) {
            proof {
                lemma_separator_index(all, k as int);
            }
            return Some(k);
        }
        k = k + 1;
    }
    proof {
        lemma_separator_index(all, k as int);
    }
    None
}

/// Splits the model's output into the summary and the remarks; `None` when
/// there is no `---` line or the summary is blank.
pub fn split(stdout: &str) -> (r: Option<(String, Vec<String>)>)
    ensures
        match r {
            Some((body, remarks)) => digest_split(stdout@) == Some(
                (body@, text::string_views(remarks@)),
            ),
            None => digest_split(stdout@) is None,
        },
{
    let v = text::chars_of(stdout);
    let ls = text::split_lines(&v);
    let ghost all = text::views(ls@);
    let k = match find_separator(&ls) {
        None => {
            return None;
        },
        Some(k) => k,
    };
    let mut head: Vec<Vec<char>> = Vec::new();
    let mut i: usize = 0;
    while i < k
        invariant
            0 <= i <= k < ls.len(),
            all == text::views(ls@),
            text::views(head@) == all.take(i as int),
        decreases k - i,
    {
        let copy = text::slice_of(&ls[i], 0, ls[i].len());
        assert(copy@ =~= ls@[i as int]@);
        let ghost oh = head@;
        proof {
            text::lemma_views_push(oh, copy);
        }
        head.push(copy);
        assert(text::views(head@) =~= all.take(i + 1));
        i = i + 1;
    }
    let sep = text::chars_of("\n");
    let joined = text::join(&head, &sep);
    let body = text::trim(&joined);
    if body.len() == 0 {
        return None;
    }
    let ghost tail = all.skip(k + 1);
    let mut remarks: Vec<Vec<char>> = Vec::new();
    let mut j: usize = k + 1;
    assert(all.subrange(k + 1, k + 1) =~= Seq::<Seq<char>>::empty());
    while j < ls.len()
        invariant
            k + 1 <= j <= ls.len(),
            all == text::views(ls@),
            tail == all.skip(k + 1),
            text::views(remarks@) == text::first_n(
                nonblank_trimmed(all.subrange(k + 1, j as int)),
                REMARKS_MAX as nat,
            ),
        decreases ls.len() - j,
    {
        assert(all.subrange(k + 1, j + 1).drop_last() =~= all.subrange(k + 1, j as int));
        assert(all.subrange(k + 1, j + 1).last() == ls@[j as int]@);
        let t = text::trim(&ls[j]);
        if t.len() > 0 && remarks.len() < REMARKS_MAX {
            let ghost orr = remarks@;
            proof {
                text::lemma_views_push(orr, t);
            }
            remarks.push(t);
        }
        assert(text::views(remarks@) =~= text::first_n(
            nonblank_trimmed(all.subrange(k + 1, j + 1)),
            REMARKS_MAX as nat,
        ));
        j = j + 1;
    }
    assert(all.subrange(k + 1, ls.len() as int) =~= tail);
    Some((text::string_of(&body), text::strings_of(&remarks)))
}

} // verus!

verus! {

pub open spec fn section_line(s: (Seq<char>, usize)) -> Seq<char> {
    "- "@ + s.0 + " (p."@ + text::decimal((s.1 + 1) as nat) + ")\n"@
}

pub open spec fn section_lines(ss: Seq<(Seq<char>, usize)>) -> Seq<char>
    decreases ss.len(),
{
    if ss.len() == 0 {
        Seq::empty()
    } else {
        section_lines(ss.drop_last()) + section_line(ss.last())
    }
}

pub open spec fn marker_entry<R, T>(h: Highlight<R, T>) -> Seq<char> {
    "p."@ + text::decimal((h.page + 1) as nat) + " 引用: "@ + h.quote@ + "\n"@ + (if text::trimmed(
        h.memo@,
    ).len() > 0 {
        "メモ: "@ + h.memo@ + "\n"@
    } else {
        Seq::empty()
    }) + (if h.tags@.len() > 0 {
        "タグ: "@ + text::joined(text::string_views(h.tags@), ", "@) + "\n"@
    } else {
        Seq::empty()
    })
}

pub open spec fn marker_entries<R, T>(hs: Seq<Highlight<R, T>>) -> Seq<char>
    decreases hs.len(),
{
    if hs.len() == 0 {
        Seq::empty()
    } else {
        marker_entries(hs.drop_last()) + marker_entry(hs.last())
    }
}

pub open spec fn prompt_intro() -> Seq<char> {
    "あなたは読書中の人の相棒です。以下は読んだ本の目次と、その本に引いたマーカー一覧です。\n\n## 目次\n"@
}

pub open spec fn prompt_outro() -> Seq<char> {
    "\nこの本を「目次の構造に沿って、引いた箇所を軸にした要約」にしてください。要約は Markdown の段落で。その後、--- を 1 行置いて、あなた自身の感想の台詞を 1 行 1 本で 3〜5 本書いてください。感想台詞は 40 文字以内の日本語で、語尾は「〜」にしないでください。\n"@
}

/// The digest prompt: the table of contents (or a note that there is none),
/// the highlights in page order with their memos and tags, and the request
/// for a summary, a `---` line and three to five remarks.
pub open spec fn digest_prompt_text<R, T>(
    secs: Seq<(Seq<char>, usize)>,
    hs: Seq<Highlight<R, T>>,
) -> Seq<char> {
    prompt_intro() + (if secs.len() == 0 {
        "(この本は目次を持ちません)\n"@
    } else {
        section_lines(secs)
    }) + "\n## マーカー\n"@ + marker_entries(export::highlights_by_page(hs)) + prompt_outro()
}

fn push_marker<R, T>(out: &mut Vec<char>, h: &Highlight<R, T>)
    requires
        h.page < usize::MAX,
    ensures
        final(out)@ == old(out)@ + marker_entry(*h),
{
    text::push_str(out, "p.");
    text::push_decimal(out, (h.page as u64) + 1);
    text::push_str(out, " 引用: ");
    text::push_str(out, h.quote.as_str());
    text::push_str(out, "\n");
    let ghost a = out@;
    let memo = text::chars_of(h.memo.as_str());
    let t = text::trim(&memo);
    if t.len() > 0 {
        text::push_str(out, "メモ: ");
        text::push_all(out, &memo);
        text::push_str(out, "\n");
        assert(out@ =~= a + ("メモ: "@ + h.memo@ + "\n"@));
    } else {
        assert(out@ =~= a + Seq::<char>::empty());
    }
    let ghost b = out@;
    if h.tags.len() > 0 {
        text::push_str(out, "タグ: ");
        let mut i: usize = 0;
        let ghost c = out@;
        let sep = text::chars_of(", ");
        while i < h.tags.len()
            invariant
                0 <= i <= h.tags@.len(),
                sep@ == ", "@,
                out@ == c + text::joined(text::string_views(h.tags@).take(i as int), ", "@),
            decreases h.tags@.len() - i,
        {
            let ghost pv = text::string_views(h.tags@);
            assert(pv.take(i + 1).drop_last() =~= pv.take(i as int));
            if i > 0 {
                text::push_all(out, &sep);
            } else {
                assert(text::joined(pv.take(0), ", "@) =~= Seq::<char>::empty());
            }
            text::push_str(out, h.tags[i].as_str());
            assert(pv[i as int] == h.tags@[i as int]@);
            if i == 0 {
                assert(text::joined(pv.take(1), ", "@) == pv.take(1)[0]);
            }
            assert(out@ =~= c + text::joined(pv.take(i + 1), ", "@));
            i = i + 1;
        }
        assert(text::string_views(h.tags@).take(h.tags@.len() as int) =~= text::string_views(
            h.tags@,
        ));
        text::push_str(out, "\n");
        assert(out@ =~= b + ("タグ: "@ + text::joined(text::string_views(h.tags@), ", "@)
            + "\n"@));
    } else {
        assert(out@ =~= b + Seq::<char>::empty());
    }
    assert(out@ =~= old(out)@ + marker_entry(*h));
}

/// The prompt for the digest of a book.
pub fn build_prompt<R, T>(sections: &[Section], highlights: &[Highlight<R, T>]) -> (s: String)
    requires
        forall|i: int| 0 <= i < sections@.len() ==> (#[trigger] sections@[i]).page < usize::MAX,
        forall|i: int| 0 <= i < highlights@.len() ==> (#[trigger] highlights@[i]).page < usize::MAX,
    ensures
        s@ == digest_prompt_text(export::section_views(sections@), highlights@),
{
    let ghost secs = export::section_views(sections@);
    let mut out: Vec<char> = Vec::new();
    text::push_str(
        &mut out,
        "あなたは読書中の人の相棒です。以下は読んだ本の目次と、その本に引いたマーカー一覧です。\n\n## 目次\n",
    );
    let ghost head = out@;
    if sections.len() == 0 {
        text::push_str(&mut out, "(この本は目次を持ちません)\n");
    } else {
        let mut i: usize = 0;
        while i < sections.len()
            invariant
                0 <= i <= sections@.len(),
                secs == export::section_views(sections@),
                forall|j: int| 0 <= j < sections@.len() ==> (#[trigger] sections@[j]).page < usize::MAX,
                out@ == head + section_lines(secs.take(i as int)),
            decreases sections@.len() - i,
        {
            let s = &sections[i];
            text::push_str(&mut out, "- ");
            text::push_str(&mut out, s.title.as_str());
            text::push_str(&mut out, " (p.");
            text::push_decimal(&mut out, (s.page as u64) + 1);
            text::push_str(&mut out, ")\n");
            assert(secs.take(i + 1).drop_last() =~= secs.take(i as int));
            assert(secs.take(i + 1).last() == (s.title@, s.page));
            assert(out@ =~= head + section_lines(secs.take(i + 1)));
            i = i + 1;
        }
        assert(secs.take(sections@.len() as int) =~= secs);
    }
    text::push_str(&mut out, "\n## マーカー\n");
    let n = highlights.len();
    let mut pages: Vec<usize> = Vec::new();
    let mut i: usize = 0;
    while i < n
        invariant
            n == highlights@.len(),
            0 <= i <= n,
            pages@ == export::highlight_pages(highlights@).take(i as int),
        decreases n - i,
    {
        pages.push(highlights[i].page);
        assert(pages@ =~= export::highlight_pages(highlights@).take(i + 1));
        i = i + 1;
    }
    assert(pages@ =~= export::highlight_pages(highlights@));
    let o = order::order_by_page(&pages);
    let ghost sorted = export::highlights_by_page(highlights@);
    let ghost mid = out@;
    let mut k: usize = 0;
    while k < n
        invariant
            n == highlights@.len(),
            o@.len() == n,
            0 <= k <= n,
            forall|j: int| 0 <= j < n ==> (#[trigger] o@[j]) < n,
            forall|j: int| 0 <= j < n ==> (#[trigger] highlights@[j]).page < usize::MAX,
            Seq::new(o@.len(), |j: int| o@[j] as int) == order::page_order(
                export::highlight_pages(highlights@),
                n as nat,
            ),
            sorted == export::highlights_by_page(highlights@),
            out@ == mid + marker_entries(sorted.take(k as int)),
        decreases n - k,
    {
        let h = &highlights[o[k]];
        assert(order::page_order(export::highlight_pages(highlights@), n as nat)[k as int]
            == o@[k as int] as int);
        assert(sorted[k as int] == *h);
        push_marker(&mut out, h);
        assert(sorted.take(k + 1).drop_last() =~= sorted.take(k as int));
        assert(out@ =~= mid + marker_entries(sorted.take(k + 1)));
        k = k + 1;
    }
    assert(sorted.take(n as int) =~= sorted);
    text::push_str(
        &mut out,
        "\nこの本を「目次の構造に沿って、引いた箇所を軸にした要約」にしてください。要約は Markdown の段落で。その後、--- を 1 行置いて、あなた自身の感想の台詞を 1 行 1 本で 3〜5 本書いてください。感想台詞は 40 文字以内の日本語で、語尾は「〜」にしないでください。\n",
    );
    assert(out@ =~= digest_prompt_text(secs, highlights@));
    text::string_of(&out)
}

} // verus!
