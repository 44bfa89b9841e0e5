//! What the reader keeps beside a PDF: highlights with their notes, the
//! bookmark and the last digest. A highlight's rectangles (`R`) and the
//! timestamps (`T`) are carried as the caller gives them.

use vstd::prelude::*;
use crate::text;
use crate::paths;

verus! {

/// The only sidecar schema version that is read.
pub const SCHEMA_VERSION: u32 = 1;

pub struct PdfMeta {
    pub name: String,
    /// Only used to notice "same content, different name".
    pub size: u64,
}

/// One question to the language model about a highlight, and its answer.
pub struct LlmQa<T> {
    /// Which action produced it (`ask::Action::kind`); empty in old sidecars.
    pub kind: String,
    pub q: String,
    pub a: String,
    pub at: T,
}

pub struct Highlight<R, T> {
    pub id: String,
    /// Zero-based page number.
    pub page: usize,
    pub color: String,
    pub rects: Vec<R>,
    pub quote: String,
    pub memo: String,
    pub tags: Vec<String>,
    pub llm: Vec<LlmQa<T>>,
    pub created_at: T,
}

pub struct DigestData<T> {
    pub body: String,
    pub remarks: Vec<String>,
    pub made_at: T,
    pub note_id: Option<String>,
}

pub struct Sidecar<R, T> {
    pub schema: u32,
    pub pdf: PdfMeta,
    pub bookmark_page: usize,
    pub opened_at: T,
    pub highlights: Vec<Highlight<R, T>>,
    pub digest: Option<DigestData<T>>,
}

/// `<millis>-<seq>`: the epoch milliseconds (negative ones as 0) zero-padded
/// to 13 digits, then the sequence number modulo 10000 zero-padded to 4.
pub open spec fn id_text(millis: int, seq: nat) -> Seq<char> {
    text::padded(
        if millis < 0 {
            0
        } else {
            millis as nat
        },
        13,
    ) + "-"@ + text::padded(seq % 10000, 4)
}

/// An identifier that sorts in creation order.
pub fn new_id(now_millis: i64, seq: u32) -> (s: String)
    ensures
        s@ == id_text(now_millis as int, seq as nat),
{
    let m: u64 = if now_millis < 0 {
        0
    } else {
        now_millis as u64
    };
    let mut out: Vec<char> = Vec::new();
    text::push_padded(&mut out, m, 13);
    text::push_str(&mut out, "-");
    text::push_padded(&mut out, (seq % 10000) as u64, 4);
    assert(out@ =~= id_text(now_millis as int, seq as nat));
    text::string_of(&out)
}

/// Identifiers sort in the order they were made: one made at an earlier
/// millisecond comes first under `<` on strings, whatever the sequence
/// numbers (for instants from the epoch up to 13 digits of milliseconds).
pub proof fn lemma_ids_sort_by_time(m1: int, s1: nat, m2: int, s2: nat)
    requires
        0 <= m1 < m2 < 10_000_000_000_000,
    ensures
        text::text_lt(id_text(m1, s1), id_text(m2, s2)),
{
    assert(text::pow10(13) == 10_000_000_000_000) by {
        reveal_with_fuel(text::pow10, 14);
    }
    text::lemma_padded_fixed(m1 as nat, 13);
    text::lemma_padded_fixed(m2 as nat, 13);
    text::lemma_fixed_digits_len(m1 as nat, 13);
    text::lemma_fixed_digits_len(m2 as nat, 13);
    text::lemma_fixed_digits_ordered(m1 as nat, m2 as nat, 13);
    let x = text::padded(m1 as nat, 13);
    let y = text::padded(m2 as nat, 13);
    let rx = "-"@ + text::padded(s1 % 10000, 4);
    let ry = "-"@ + text::padded(s2 % 10000, 4);
    text::lemma_text_lt_extend(x, y, rx, ry);
    assert(id_text(m1, s1) =~= x + rx);
    assert(id_text(m2, s2) =~= y + ry);
}

/// Identifiers made at the same millisecond differ when their sequence
/// numbers differ modulo 10000.
pub proof fn lemma_ids_differ_by_seq(m: int, s1: nat, s2: nat)
    requires
        s1 % 10000 != s2 % 10000,
    ensures
        id_text(m, s1) != id_text(m, s2),
{
    let a = s1 % 10000;
    let b = s2 % 10000;
    assert(text::pow10(4) == 10000) by {
        reveal_with_fuel(text::pow10, 5);
    }
    text::lemma_padded_fixed(a, 4);
    text::lemma_padded_fixed(b, 4);
    let p = text::padded(
        if m < 0 {
            0
        } else {
            m as nat
        },
        13,
    ) + "-"@;
    let qa = text::padded(a, 4);
    let qb = text::padded(b, 4);
    assert(id_text(m, s1) =~= p + qa);
    assert(id_text(m, s2) =~= p + qb);
    if a < b {
        text::lemma_fixed_digits_ordered(a, b, 4);
    } else {
        text::lemma_fixed_digits_ordered(b, a, 4);
    }
    if id_text(m, s1) == id_text(m, s2) {
        assert((p + qa).skip(p.len() as int) =~= qa);
        assert((p + qb).skip(p.len() as int) =~= qb);
        assert(qa == qb);
        let i = choose|i: int|
            0 <= i <= qa.len() && i <= qb.len() && #[trigger] qa.take(i) == qb.take(i) && ((i
                == qa.len() && i < qb.len()) || (i < qa.len() && i < qb.len() && (qa[i] as u32) < (
            qb[i] as u32)));
        assert(false);
    }
}

/// The position of the first highlight with identifier `id`.
pub open spec fn first_with_id<R, T>(hs: Seq<Highlight<R, T>>, id: Seq<char>) -> Option<int>
    decreases hs.len(),
{
    if hs.len() == 0 {
        None
    } else if hs[0].id@ == id {
        Some(0)
    } else {
        match first_with_id(hs.drop_first(), id) {
            Some(i) => Some(i + 1),
            None => None,
        }
    }
}

proof fn lemma_first_with_id<R, T>(hs: Seq<Highlight<R, T>>, id: Seq<char>, k: int)
    requires
        0 <= k <= hs.len(),
        forall|j: int| 0 <= j < k ==> (#[trigger] hs[j]).id@ != id,
        k == hs.len() || hs[k].id@ == id,
    ensures
        first_with_id(hs, id) == (if k < hs.len() {
            Some(k)
        } else {
            None::<int>
        }),
    decreases k,
{
    if k > 0 {
        let t = hs.drop_first();
        assert forall|j: int| 0 <= j < k - 1 implies (#[trigger] t[j]).id@ != id by {
            assert(t[j] == hs[j + 1]);
        }
        if k < hs.len() {
            assert(t[k - 1] == hs[k]);
        }
        lemma_first_with_id(t, id, k - 1);
        assert(hs[0].id@ != id);
    }
}

fn find_highlight<R, T>(hs: &Vec<Highlight<R, T>>, id: &str) -> (r: Option<usize>)
    ensures
        match r {
            Some(i) => first_with_id(hs@, id@) == Some(i as int) && i < hs@.len(),
            None => first_with_id(hs@, id@) is None,
        },
{
    let want = text::chars_of(id);
    let mut i: usize = 0;
    while i < hs.len()
        invariant
            0 <= i <= hs@.len(),
            want@ == id@,
            forall|j: int| 0 <= j < i ==> (#[trigger] hs@[j]).id@ != id@,
        decreases hs@.len() - i,
    {
        let have = text::chars_of(hs[i].id.as_str());
        if text::same_chars(&have, &want) {
            proof {
                lemma_first_with_id(hs@, id@, i as int);
            }
            return Some(i);
        }
        i = i + 1;
    }
    proof {
        lemma_first_with_id(hs@, id@, i as int);
    }
    None
}

/// Puts `memo` on the first highlight with identifier `id`. Answers whether
/// anything changed (and the sidecar is to be saved): not when there is no
/// such highlight, nor when its memo is `memo` already.
pub fn set_memo<R, T>(hs: &mut Vec<Highlight<R, T>>, id: &str, memo: String) -> (changed: bool)
    ensures
        match first_with_id(old(hs)@, id@) {
            None => !changed && final(hs)@ == old(hs)@,
            Some(i) => if old(hs)@[i].memo@ == memo@ {
                !changed && final(hs)@ == old(hs)@
            } else {
                changed && final(hs)@ == old(hs)@.update(i, Highlight { memo: memo, ..old(hs)@[i] })
            },
        },
{
    let i = match find_highlight(hs, id) {
        Some(i) => i,
        None => {
            return false;
        },
    };
    let a = text::chars_of(hs[i].memo.as_str());
    let b = text::chars_of(memo.as_str());
    if text::same_chars(&a, &b) {
        return false;
    }
    let ghost before = hs@;
    let mut h = hs.remove(i);
    h.memo = memo;
    hs.insert(i, h);
    assert(hs@ =~= before.update(i as int, Highlight { memo: memo, ..before[i as int] }));
    true
}

fn same_strings(a: &Vec<String>, b: &Vec<String>) -> (r: bool)
    ensures
        r == (text::string_views(a@) == text::string_views(b@)),
{
    if a.len() != b.len() {
        assert(text::string_views(a@).len() != text::string_views(b@).len());
        return false;
    }
    let mut i: usize = 0;
    while i < a.len()
        invariant
            0 <= i <= a@.len(),
            a@.len() == b@.len(),
            forall|j: int| 0 <= j < i ==> (#[trigger] a@[j])@ == b@[j]@,
        decreases a@.len() - i,
    {
        let x = text::chars_of(a[i].as_str());
        let y = text::chars_of(b[i].as_str());
        if !text::same_chars(&x, &y) {
            assert(text::string_views(a@)[i as int] != text::string_views(b@)[i as int]);
            return false;
        }
        i = i + 1;
    }
    assert(text::string_views(a@) =~= text::string_views(b@));
    true
}

/// Puts `tags` on the first highlight with identifier `id`. Answers whether
/// anything changed (and the sidecar is to be saved): not when there is no
/// such highlight, nor when its tags are `tags` already.
pub fn set_tags<R, T>(hs: &mut Vec<Highlight<R, T>>, id: &str, tags: Vec<String>) -> (changed: bool)
    ensures
        match first_with_id(old(hs)@, id@) {
            None => !changed && final(hs)@ == old(hs)@,
            Some(i) => if text::string_views(old(hs)@[i].tags@) == text::string_views(tags@) {
                !changed && final(hs)@ == old(hs)@
            } else {
                changed && final(hs)@ == old(hs)@.update(i, Highlight { tags: tags, ..old(hs)@[i] })
            },
        },
{
    let i = match find_highlight(hs, id) {
        Some(i) => i,
        None => {
            return false;
        },
    };
    if same_strings(&hs[i].tags, &tags) {
        return false;
    }
    let ghost before = hs@;
    let mut h = hs.remove(i);
    h.tags = tags;
    hs.insert(i, h);
    assert(hs@ =~= before.update(i as int, Highlight { tags: tags, ..before[i as int] }));
    true
}

/// The highlights without those whose identifier is `id`, in order.
pub open spec fn without_id<R, T>(hs: Seq<Highlight<R, T>>, id: Seq<char>) -> Seq<Highlight<R, T>>
    decreases hs.len(),
{
    if hs.len() == 0 {
        Seq::empty()
    } else if hs.last().id@ == id {
        without_id(hs.drop_last(), id)
    } else {
        without_id(hs.drop_last(), id).push(hs.last())
    }
}

/// Drops every highlight with identifier `id`, keeping the others in order.
pub fn remove_highlight<R, T>(hs: &mut Vec<Highlight<R, T>>, id: &str)
    ensures
        final(hs)@ == without_id(old(hs)@, id@),
{
    let want = text::chars_of(id);
    let mut rest: Vec<Highlight<R, T>> = Vec::new();
    std::mem::swap(&mut rest, hs);
    let ghost all = rest@;
    let mut kept: Vec<Highlight<R, T>> = Vec::new();
    let mut reversed: Vec<Highlight<R, T>> = Vec::new();
    while rest.len() > 0
        invariant
            rest@.len() + reversed@.len() == all.len(),
            forall|j: int| 0 <= j < rest@.len() ==> #[trigger] rest@[j] == all[j],
            forall|j: int| 0 <= j < reversed@.len() ==> #[trigger] reversed@[j] == all[all.len() - 1 - j],
        decreases rest@.len(),
    {
        let h = rest.pop().unwrap();
        reversed.push(h);
    }
    let n: usize = reversed.len();
    assert(all.take(0) =~= Seq::<Highlight<R, T>>::empty());
    while reversed.len() > 0
        invariant
            reversed@.len() <= n,
            n == all.len(),
            want@ == id@,
            forall|j: int| 0 <= j < reversed@.len() ==> #[trigger] reversed@[j] == all[all.len() - 1 - j],
            kept@ == without_id(all.take(n - reversed@.len()), id@),
        decreases reversed@.len(),
    {
        let k = n - reversed.len();
        let h = reversed.pop().unwrap();
        assert(h == all[k as int]);
        assert(all.take(k + 1).drop_last() =~= all.take(k as int));
        let have = text::chars_of(h.id.as_str());
        if !text::same_chars(&have, &want) {
            kept.push(h);
        }
    }
    assert(all.take(n as int) =~= all);
    *hs = kept;
}

/// What becomes of the warning bar after a save: the error shown, the bar
/// hidden, or left as it is (a read-only sidecar keeps its own warning).
#[derive(Clone, Debug, PartialEq, Eq)]
pub enum WarnBar {
    Show(String),
    Hide,
    Keep,
}

/// The warning bar for the outcome of the last save (`save_error`, the
/// error's text where it failed).
pub fn warn_bar_for(save_error: Option<&str>, read_only: bool) -> (w: WarnBar)
    ensures
        match save_error {
            Some(e) => w matches WarnBar::Show(t) && t@ == "注釈を保存できません: "@ + e@,
            None => if read_only {
                w is Keep
            } else {
                w is Hide
            },
        },
{
    match save_error {
        Some(e) => {
            let mut out = text::chars_of("注釈を保存できません: ");
            text::push_str(&mut out, e);
            WarnBar::Show(text::string_of(&out))
        },
        None => if read_only {
            WarnBar::Keep
        } else {
            WarnBar::Hide
        },
    }
}

/// Whether a sidecar of schema version `schema` is read (others are refused).
pub fn schema_supported(schema: u32) -> (b: bool)
    ensures
        b == (schema == SCHEMA_VERSION),
{
    schema == SCHEMA_VERSION
}

/// Where saving the sidecar stands: whether it is read-only (a sidecar that
/// could not be read is never written over) and the error of the last save,
/// where that failed.
pub struct SaveState {
    pub read_only: bool,
    pub error: Option<String>,
}

impl SaveState {
    /// Nothing saved yet.
    pub fn new(read_only: bool) -> (s: SaveState)
        ensures
            s.read_only == read_only,
            s.error is None,
    {
        SaveState { read_only, error: None }
    }

    /// Whether a save is written at all: not when read-only.
    pub fn should_write(&self) -> (b: bool)
        ensures
            b == !self.read_only,
    {
        !self.read_only
    }

    /// Records how a write went: the error's text where it failed, nothing
    /// where it succeeded (which clears an earlier error).
    pub fn record(&mut self, error: Option<String>)
        ensures
            final(self).read_only == old(self).read_only,
            final(self).error == error,
    {
        self.error = error;
    }

    /// Whether the last save failed.
    pub fn failed(&self) -> (b: bool)
        ensures
            b == self.error is Some,
    {
        self.error.is_some()
    }

    /// The warning bar for where saving stands (see `warn_bar_for`).
    pub fn warn_bar(&self) -> (w: WarnBar)
        ensures
            match self.error {
                Some(e) => w matches WarnBar::Show(t) && t@ == "注釈を保存できません: "@ + e@,
                None => if self.read_only {
                    w is Keep
                } else {
                    w is Hide
                },
            },
    {
        match &self.error {
            Some(e) => warn_bar_for(Some(e.as_str()), self.read_only),
            None => warn_bar_for(None, self.read_only),
        }
    }
}

/// Where the sidecar of the PDF at a path lies, from that path's parent
/// folder and file name: `<folder>/.miryam/<file name>.json`, with `.` for
/// a path without a parent and an empty name for one without a file name.
pub open spec fn sidecar_text(parent: Option<Seq<char>>, name: Option<Seq<char>>) -> Seq<char> {
    let dir = match parent {
        Some(p) => p,
        None => "."@,
    };
    let file = match name {
        Some(n) => n,
        None => Seq::<char>::empty(),
    } + ".json"@;
    paths::join_path(paths::join_path(dir, ".miryam"@), file)
}

/// The sidecar path, given the PDF path's parent folder and file name.
pub fn sidecar_path_from(parent: Option<&str>, name: Option<&str>) -> (r: String)
    ensures
        r@ == sidecar_text(
            match parent {
                Some(p) => Some(p@),
                None => None,
            },
            match name {
                Some(n) => Some(n@),
                None => None,
            },
        ),
{
    let dir = match parent {
        Some(p) => text::chars_of(p),
        None => text::chars_of("."),
    };
    let mut file = match name {
        Some(n) => text::chars_of(n),
        None => Vec::new(),
    };
    text::push_str(&mut file, ".json");
    let hidden = text::chars_of(".miryam");
    let folder = paths::join_path_text(&dir, &hidden);
    let r = paths::join_path_text(&folder, &file);
    text::string_of(&r)
}

/// `<folder of the PDF>/.miryam/<PDF file name>.json`.
pub fn sidecar_path(pdf: &str) -> (r: String)
    ensures
        r@ == sidecar_text(paths::path_parent(pdf@), paths::path_file_name(pdf@)),
{
    let parent = paths::parent_of(pdf);
    let name = paths::file_name_of(pdf);
    let p = match &parent {
        Some(x) => Some(x.as_str()),
        None => None,
    };
    let n = match &name {
        Some(x) => Some(x.as_str()),
        None => None,
    };
    sidecar_path_from(p, n)
}

} // verus!
