//! The bookshelf: which files of the library folder are PDFs, one line per
//! book, and the order of the lines (the most recently opened first, the
//! unread ones last by name).

use vstd::prelude::*;
use crate::text;
use crate::clock::{self, LocalTime};
use crate::paths;
use crate::reader::store::{Highlight, Sidecar};

verus! {

/// When a book was last opened: the instant (seconds and nanoseconds since
/// the Unix epoch) that orders the shelf, and the local time shown.
#[derive(Clone, Copy, Debug, PartialEq, Eq)]
pub struct OpenedAt {
    pub secs: i64,
    pub nanos: u32,
    pub local: LocalTime,
}

/// One book of the shelf.
pub struct LibraryEntry {
    pub path: String,
    pub name: String,
    pub highlight_count: usize,
    /// Highlights whose memo is not blank.
    pub memo_count: usize,
    pub last_opened: Option<OpenedAt>,
    /// Zero-based.
    pub bookmark_page: usize,
    pub remarks: Vec<String>,
    /// The sidecar could not be read.
    pub broken: bool,
}

/// What reading a book's sidecar came to.
pub enum SidecarRead<R, T> {
    /// The sidecar, and when it says the book was last opened.
    Found(Sidecar<R, T>, OpenedAt),
    /// The book has no sidecar yet.
    Absent,
    /// The sidecar could not be read.
    Broken,
}

/// The name a book is shelved under: the file name of its path, empty where
/// the path has none.
pub open spec fn entry_name(path: Seq<char>) -> Seq<char> {
    match paths::path_file_name(path) {
        Some(n) => n,
        None => Seq::empty(),
    }
}

/// The shelf entry of the book at `path`, named by its file name: from its
/// sidecar the number of highlights and of memos, when it was last opened,
/// its bookmark and its digest's remarks; zeros for a book without a
/// sidecar; zeros and the broken mark where the sidecar could not be read.
pub fn entry_for<R, T>(path: String, read: SidecarRead<R, T>) -> (e: LibraryEntry)
    ensures
        e.path == path,
        e.name@ == entry_name(path@),
        match read {
            SidecarRead::Found(sc, opened) => {
                &&& e.highlight_count == sc.highlights@.len()
                &&& e.memo_count == memo_count_of(sc.highlights@)
                &&& e.last_opened == Some(opened)
                &&& e.bookmark_page == sc.bookmark_page
                &&& e.remarks@ == (match sc.digest {
                    Some(d) => d.remarks@,
                    None => Seq::<String>::empty(),
                })
                &&& !e.broken
            },
            SidecarRead::Absent => {
                &&& e.highlight_count == 0
                &&& e.memo_count == 0
                &&& e.last_opened is None
                &&& e.bookmark_page == 0
                &&& e.remarks@.len() == 0
                &&& !e.broken
            },
            SidecarRead::Broken => {
                &&& e.highlight_count == 0
                &&& e.memo_count == 0
                &&& e.last_opened is None
                &&& e.bookmark_page == 0
                &&& e.remarks@.len() == 0
                &&& e.broken
            },
        },
{
    let name = match paths::file_name_of(path.as_str()) {
        Some(n) => n,
        None => String::new(),
    };
    match read {
        SidecarRead::Found(sc, opened) => {
            let memos = count_memos(sc.highlights.as_slice());
            let remarks = match sc.digest {
                Some(d) => d.remarks,
                None => Vec::new(),
            };
            LibraryEntry {
                path,
                name,
                highlight_count: sc.highlights.len(),
                memo_count: memos,
                last_opened: Some(opened),
                bookmark_page: sc.bookmark_page,
                remarks,
                broken: false,
            }
        },
        SidecarRead::Absent => LibraryEntry {
            path,
            name,
            highlight_count: 0,
            memo_count: 0,
            last_opened: None,
            bookmark_page: 0,
            remarks: Vec::new(),
            broken: false,
        },
        SidecarRead::Broken => LibraryEntry {
            path,
            name,
            highlight_count: 0,
            memo_count: 0,
            last_opened: None,
            bookmark_page: 0,
            remarks: Vec::new(),
            broken: true,
        },
    }
}

// ---------------------------------------------------------------- which files

/// The position of the last `c` in `s`.
pub open spec fn last_index(s: Seq<char>, c: char) -> Option<int>
    decreases s.len(),
{
    if s.len() == 0 {
        None
    } else if s.last() == c {
        Some(s.len() - 1)
    } else {
        last_index(s.drop_last(), c)
    }
}

/// `Path::extension` of a file name, as its documentation gives it: none
/// without a `.`, none for a name that begins with its only `.`, else what
/// follows the last `.`.
pub open spec fn extension(name: Seq<char>) -> Option<Seq<char>> {
    match last_index(name, '.') {
        None => None,
        Some(k) => if k == 0 {
            None
        } else {
            Some(name.skip(k + 1))
        },
    }
}

/// The code of `c` with an ASCII capital put in lower case.
pub open spec fn ascii_lower(c: char) -> int {
    if 'A' <= c && c <= 'Z' {
        (c as u32) + 32
    } else {
        (c as u32) as int
    }
}

/// Equal once ASCII letters are put in lower case.
pub open spec fn eq_ignore_ascii_case(a: Seq<char>, b: Seq<char>) -> bool {
    a.len() == b.len() && forall|i: int| 0 <= i < a.len() ==> ascii_lower(#[trigger] a[i]) == ascii_lower(b[i])
}

pub open spec fn is_pdf(name: Seq<char>) -> bool {
    extension(name) matches Some(e) && eq_ignore_ascii_case(e, "pdf"@)
}

proof fn lemma_last_index(s: Seq<char>, c: char, k: int)
    requires
        -1 <= k < s.len(),
        forall|j: int| k < j < s.len() ==> s[j] != c,
        k == -1 || s[k] == c,
    ensures
        last_index(s, c) == (if k == -1 {
            None::<int>
        } else {
            Some(k)
        }),
    decreases s.len(),
{
    if s.len() > 0 && k < s.len() - 1 {
        let t = s.drop_last();
        assert(s[s.len() - 1] != c);
        assert forall|j: int| k < j < t.len() implies t[j] != c by {
            assert(t[j] == s[j]);
        }
        if k >= 0 {
            assert(t[k] == s[k]);
        }
        lemma_last_index(t, c, k);
    }
}

fn lower(c: char) -> (r: u32)
    ensures
        r == ascii_lower(c),
{
    if 'A' <= c && c <= 'Z' {
        c as u32 + 32
    } else {
        c as u32
    }
}

/// Whether a file with this name is listed: its extension is `pdf` in any
/// mix of upper and lower case.
pub fn is_pdf_name(name: &str) -> (b: bool)
    ensures
        b == is_pdf(name@),
{
    let v = text::chars_of(name);
    let mut i: usize = v.len();
    while i > 0 && v[i - 1] != '.'
        invariant
            0 <= i <= v.len(),
            forall|j: int| i <= j < v.len() ==> v@[j] != '.',
        decreases i,
    {
        i = i - 1;
    }
    proof {
        lemma_last_index(v@, '.', i - 1);
    }
    if i <= 1 {
        return false;
    }
    let ext = text::slice_of(&v, i, v.len());
    assert(ext@ =~= v@.skip(i as int));
    assert(extension(name@) == Some(ext@));
    let pdf = text::chars_of("pdf");
    proof {
        reveal_strlit("pdf");
    }
    if ext.len() != 3 {
        return false;
    }
    let mut k: usize = 0;
    while k < 3
        invariant
            0 <= k <= 3,
            ext@.len() == 3,
            pdf@ == "pdf"@,
            pdf@.len() == 3,
            extension(name@) == Some(ext@),
            forall|j: int| 0 <= j < k ==> ascii_lower(#[trigger] ext@[j]) == ascii_lower(pdf@[j]),
        decreases 3 - k,
    {
        if lower(ext[k]) != lower(pdf[k]) {
            return false;
        }
        k = k + 1;
    }
    true
}

/// Whether a folder met while walking the library is walked into: not the
/// sidecar folder `.miryam` itself.
pub fn is_walked_folder(name: &str) -> (b: bool)
    ensures
        b == (name@ != ".miryam"@),
{
    let v = text::chars_of(name);
    let hidden = text::chars_of(".miryam");
    !text::same_chars(&v, &hidden)
}

// ---------------------------------------------------------------- counts

/// How many highlights carry a memo that is not blank.
pub open spec fn memo_count_of<R, T>(hs: Seq<Highlight<R, T>>) -> nat
    decreases hs.len(),
{
    if hs.len() == 0 {
        0
    } else {
        memo_count_of(hs.drop_last()) + (if text::trimmed(hs.last().memo@).len() > 0 {
            1nat
        } else {
            0nat
        })
    }
}

pub fn count_memos<R, T>(highlights: &[Highlight<R, T>]) -> (n: usize)
    ensures
        n == memo_count_of(highlights@),
{
    let mut n: usize = 0;
    let mut i: usize = 0;
    assert(highlights@.take(0) =~= Seq::<Highlight<R, T>>::empty());
    while i < highlights.len()
        invariant
            0 <= i <= highlights.len(),
            n == memo_count_of(highlights@.take(i as int)),
            n <= i,
        decreases highlights.len() - i,
    {
        assert(highlights@.take(i + 1).drop_last() =~= highlights@.take(i as int));
        let v = text::chars_of(highlights[i].memo.as_str());
        let t = text::trim(&v);
        if t.len() > 0 {
            n = n + 1;
        }
        i = i + 1;
    }
    assert(highlights@.take(highlights.len() as int) =~= highlights@);
    n
}

// ---------------------------------------------------------------- one line

/// The shelf line of a book: its name, then a warning for a broken
/// sidecar, `未読` for an unread book, or the highlight and memo counts,
/// the one-based bookmark page and the month and day it was last opened.
pub open spec fn entry_line(
    name: Seq<char>,
    broken: bool,
    last_opened: Option<OpenedAt>,
    highlights: nat,
    memos: nat,
    bookmark: nat,
) -> Seq<char> {
    if broken {
        name + "  ⚠ 注釈が壊れています"@
    } else {
        match last_opened {
            None => name + "  未読"@,
            Some(o) => name + "  マーカー "@ + text::decimal(highlights) + " / メモ "@ + text::decimal(
                memos,
            ) + "  p."@ + text::decimal(bookmark + 1) + "  "@ + clock::md_text(o.local),
        }
    }
}

pub fn format_entry(e: &LibraryEntry) -> (s: String)
    requires
        e.bookmark_page < usize::MAX,
    ensures
        s@ == entry_line(
            e.name@,
            e.broken,
            e.last_opened,
            e.highlight_count as nat,
            e.memo_count as nat,
            e.bookmark_page as nat,
        ),
{
    let mut out = text::chars_of(e.name.as_str());
    if e.broken {
        text::push_str(&mut out, "  ⚠ 注釈が壊れています");
        return text::string_of(&out);
    }
    match &e.last_opened {
        None => {
            text::push_str(&mut out, "  未読");
        },
        Some(o) => {
            text::push_str(&mut out, "  マーカー ");
            text::push_decimal(&mut out, e.highlight_count as u64);
            text::push_str(&mut out, " / メモ ");
            text::push_decimal(&mut out, e.memo_count as u64);
            text::push_str(&mut out, "  p.");
            text::push_decimal(&mut out, (e.bookmark_page + 1) as u64);
            text::push_str(&mut out, "  ");
            clock::push_md(&mut out, &o.local);
        },
    }
    text::string_of(&out)
}

// ---------------------------------------------------------------- the order

/// What orders the shelf: when a book was last opened, and its name.
pub type ShelfKey = (Option<(i64, u32)>, Seq<char>);

pub open spec fn shelf_key(e: LibraryEntry) -> ShelfKey {
    (
        match e.last_opened {
            Some(o) => Some((o.secs, o.nanos)),
            None => None,
        },
        e.name@,
    )
}

pub open spec fn instant_lt(a: (i64, u32), b: (i64, u32)) -> bool {
    a.0 < b.0 || (a.0 == b.0 && a.1 < b.1)
}

/// `a` sorts before `b` character by character (by code point, as
/// `String`'s order does), a proper prefix first.
pub open spec fn name_lt(a: Seq<char>, b: Seq<char>) -> bool
    decreases a.len(),
{
    if a.len() == 0 {
        b.len() > 0
    } else if b.len() == 0 {
        false
    } else if a[0] != b[0] {
        a[0] < b[0]
    } else {
        name_lt(a.drop_first(), b.drop_first())
    }
}

/// `a` is shelved before `b`: a later opening first, opened books before
/// unread ones, and by name where that leaves them even.
pub open spec fn shelved_before(a: ShelfKey, b: ShelfKey) -> bool {
    match (a.0, b.0) {
        (Some(x), Some(y)) => instant_lt(y, x) || (x == y && name_lt(a.1, b.1)),
        (Some(_), None) => true,
        (None, Some(_)) => false,
        (None, None) => name_lt(a.1, b.1),
    }
}

proof fn lemma_name_lt_asym(a: Seq<char>, b: Seq<char>)
    ensures
        name_lt(a, b) ==> !name_lt(b, a),
    decreases a.len(),
{
    if a.len() > 0 && b.len() > 0 && a[0] == b[0] {
        lemma_name_lt_asym(a.drop_first(), b.drop_first());
    }
}

proof fn lemma_name_total(a: Seq<char>, b: Seq<char>)
    ensures
        name_lt(a, b) || name_lt(b, a) || a == b,
    decreases a.len(),
{
    if a.len() > 0 && b.len() > 0 && a[0] == b[0] {
        lemma_name_total(a.drop_first(), b.drop_first());
        if a.drop_first() == b.drop_first() {
            assert(a =~= seq![a[0]] + a.drop_first());
            assert(b =~= seq![b[0]] + b.drop_first());
        }
    } else if a.len() == 0 && b.len() == 0 {
        assert(a =~= b);
    } else if a.len() > 0 && b.len() > 0 {
        assert(a[0] < b[0] || b[0] < a[0]);
    }
}

proof fn lemma_name_lt_trans(a: Seq<char>, b: Seq<char>, c: Seq<char>)
    ensures
        name_lt(a, b) && name_lt(b, c) ==> name_lt(a, c),
    decreases a.len(),
{
    if a.len() > 0 && b.len() > 0 && c.len() > 0 && a[0] == b[0] && b[0] == c[0] {
        lemma_name_lt_trans(a.drop_first(), b.drop_first(), c.drop_first());
    }
}

/// The shelf order is a strict weak order: never both ways, and what is
/// not before something stays not before what that one is not before.
proof fn lemma_shelved_order(x: ShelfKey, y: ShelfKey, z: ShelfKey)
    ensures
        shelved_before(x, y) ==> !shelved_before(y, x),
        !shelved_before(x, y) && !shelved_before(y, z) ==> !shelved_before(x, z),
{
    lemma_name_lt_asym(x.1, y.1);
    lemma_name_total(x.1, y.1);
    lemma_name_total(y.1, z.1);
    lemma_name_total(x.1, z.1);
    lemma_name_lt_trans(x.1, y.1, z.1);
    lemma_name_lt_trans(z.1, y.1, x.1);
    lemma_name_lt_trans(y.1, x.1, z.1);
    lemma_name_lt_trans(x.1, z.1, y.1);
    lemma_name_lt_trans(z.1, x.1, y.1);
    lemma_name_lt_trans(y.1, z.1, x.1);
    lemma_name_lt_asym(x.1, z.1);
    lemma_name_lt_asym(y.1, z.1);
}

fn name_before(a: &Vec<char>, b: &Vec<char>) -> (r: bool)
    ensures
        r == name_lt(a@, b@),
{
    let mut i: usize = 0;
    assert(a@.skip(0) =~= a@);
    assert(b@.skip(0) =~= b@);
    while i < a.len() && i < b.len() && a[i] == b[i]
        invariant
            0 <= i <= a.len(),
            i <= b.len(),
            forall|j: int| 0 <= j < i ==> a@[j] == b@[j],
            name_lt(a@, b@) == name_lt(a@.skip(i as int), b@.skip(i as int)),
        decreases a.len() - i,
    {
        assert(a@.skip(i as int).drop_first() =~= a@.skip(i + 1));
        assert(b@.skip(i as int).drop_first() =~= b@.skip(i + 1));
        i = i + 1;
    }
    if i == a.len() {
        return i < b.len();
    }
    if i == b.len() {
        return false;
    }
    assert(a@.skip(i as int)[0] == a@[i as int]);
    assert(b@.skip(i as int)[0] == b@[i as int]);
    a[i] < b[i]
}

fn before(a: &LibraryEntry, b: &LibraryEntry) -> (r: bool)
    ensures
        r == shelved_before(shelf_key(*a), shelf_key(*b)),
{
    let an = text::chars_of(a.name.as_str());
    let bn = text::chars_of(b.name.as_str());
    match (&a.last_opened, &b.last_opened) {
        (Some(x), Some(y)) => {
            if y.secs < x.secs || (y.secs == x.secs && y.nanos < x.nanos) {
                true
            } else if x.secs == y.secs && x.nanos == y.nanos {
                name_before(&an, &bn)
            } else {
                false
            }
        },
        (Some(_), None) => true,
        (None, Some(_)) => false,
        (None, None) => name_before(&an, &bn),
    }
}

/// The positions of the entries with keys `keys`, in shelf order: no
/// position sorts before one ahead of it, and where two are even, the
/// earlier position comes first.
pub open spec fn shelf_sorted(o: Seq<int>, keys: Seq<ShelfKey>) -> bool {
    forall|i: int, j: int|
        0 <= i < j < o.len() ==> !shelved_before(keys[#[trigger] o[j]], keys[#[trigger] o[i]])
            && (!shelved_before(keys[o[i]], keys[o[j]]) ==> o[i] < o[j])
}

pub open spec fn keys_of_entries(es: Seq<LibraryEntry>) -> Seq<ShelfKey> {
    Seq::new(es.len(), |i: int| shelf_key(es[i]))
}

/// The order of the shelf, as positions of `entries`.
fn shelf_order(entries: &Vec<LibraryEntry>) -> (o: Vec<usize>)
    ensures
        o@.len() == entries@.len(),
        forall|i: int| 0 <= i < o@.len() ==> (#[trigger] o@[i]) < entries@.len(),
        forall|i: int, j: int| 0 <= i < j < o@.len() ==> o@[i] != o@[j],
        shelf_sorted(Seq::new(o@.len(), |i: int| o@[i] as int), keys_of_entries(entries@)),
{
    let ghost keys = keys_of_entries(entries@);
    let mut o: Vec<usize> = Vec::new();
    let mut n: usize = 0;
    while n < entries.len()
        invariant
            0 <= n <= entries@.len(),
            keys == keys_of_entries(entries@),
            o@.len() == n,
            forall|i: int| 0 <= i < o@.len() ==> (#[trigger] o@[i]) < n,
            forall|i: int, j: int| 0 <= i < j < o@.len() ==> o@[i] != o@[j],
            shelf_sorted(Seq::new(o@.len(), |i: int| o@[i] as int), keys),
        decreases entries@.len() - n,
    {
        let mut j: usize = o.len();
        while j > 0 && before(&entries[n], &entries[o[j - 1]])
            invariant
                0 <= j <= o@.len(),
                n < entries@.len(),
                keys == keys_of_entries(entries@),
                forall|i: int| 0 <= i < o@.len() ==> (#[trigger] o@[i]) < n,
                forall|k: int| j <= k < o@.len() ==> shelved_before(keys[n as int], keys[#[trigger] o@[k] as int]),
            decreases j,
        {
            j = j - 1;
        }
        let ghost old_o = o@;
        proof {
            let so = Seq::new(old_o.len(), |i: int| old_o[i] as int);
            if j > 0 {
                assert(!shelved_before(keys[n as int], keys[old_o[j - 1] as int]));
                assert forall|i: int| 0 <= i < j implies !shelved_before(keys[n as int], keys[#[trigger] old_o[i] as int]) by {
                    if i < j - 1 {
                        assert(so[i] == old_o[i] as int && so[j - 1] == old_o[j - 1] as int);
                        assert(!shelved_before(keys[so[j - 1]], keys[so[i]]));
                        lemma_shelved_order(keys[n as int], keys[old_o[j - 1] as int], keys[old_o[i] as int]);
                    }
                }
            }
            assert forall|k: int| j <= k < old_o.len() implies !shelved_before(keys[#[trigger] old_o[k] as int], keys[n as int]) by {
                lemma_shelved_order(keys[n as int], keys[old_o[k] as int], keys[n as int]);
            }
        }
        o.insert(j, n);
        proof {
            let so = Seq::new(old_o.len(), |i: int| old_o[i] as int);
            let sn = Seq::new(o@.len(), |i: int| o@[i] as int);
            assert forall|a: int, b: int| 0 <= a < b < sn.len() implies !shelved_before(keys[#[trigger] sn[b]], keys[#[trigger] sn[a]])
                && (!shelved_before(keys[sn[a]], keys[sn[b]]) ==> sn[a] < sn[b]) by {
                let oa = if a < j { a } else { a - 1 };
                let ob = if b < j { b } else { b - 1 };
                if a != j as int && b != j as int {
                    assert(sn[a] == so[oa] && sn[b] == so[ob]);
                } else if a == j as int {
                    assert(sn[a] == n as int);
                    assert(sn[b] == old_o[ob] as int);
                    lemma_shelved_order(keys[n as int], keys[old_o[ob] as int], keys[n as int]);
                } else {
                    assert(sn[b] == n as int);
                    assert(sn[a] == old_o[oa] as int);
                }
            }
            assert forall|i: int, k: int| 0 <= i < k < o@.len() implies o@[i] != o@[k] by {
                let oi = if i < j { i } else { i - 1 };
                let ok = if k < j { k } else { k - 1 };
                if i != j as int && k != j as int {
                    assert(o@[i] == old_o[oi] && o@[k] == old_o[ok]);
                }
            }
        }
        n = n + 1;
    }
    o
}

/// The shelf: the entries (given in the order of their paths) arranged
/// with the most recently opened first and the unread ones last, by name
/// where that leaves them even, and in their given order where both are
/// even. Every entry appears exactly once.
pub fn order_entries(entries: Vec<LibraryEntry>) -> (r: Vec<LibraryEntry>)
    ensures
        r@.len() == entries@.len(),
        exists|o: Seq<int>|
            #![trigger o.len()]
            o.len() == entries@.len() && (forall|i: int| 0 <= i < o.len() ==> 0 <= #[trigger] o[i]
                < entries@.len()) && (forall|i: int, j: int| 0 <= i < j < o.len() ==> o[i] != o[j])
                && shelf_sorted(o, keys_of_entries(entries@)) && (forall|i: int|
                0 <= i < o.len() ==> #[trigger] r@[i] == entries@[o[i]]),
{
    let o = shelf_order(&entries);
    let ghost so = Seq::new(o@.len(), |i: int| o@[i] as int);
    let ghost orig = entries@;
    let mut slots: Vec<Option<LibraryEntry>> = Vec::new();
    let mut k: usize = 0;
    let mut entries = entries;
    while entries.len() > 0
        invariant
            entries@.len() + slots@.len() == orig.len(),
            forall|i: int| 0 <= i < entries@.len() ==> #[trigger] entries@[i] == orig[i],
            forall|i: int| 0 <= i < slots@.len() ==> #[trigger] slots@[i] == Some(orig[orig.len() - 1 - i]),
        decreases entries@.len(),
    {
        let e = entries.pop().unwrap();
        slots.push(Some(e));
    }
    let n: usize = slots.len();
    let mut r: Vec<LibraryEntry> = Vec::new();
    while k < o.len()
        invariant
            0 <= k <= o@.len(),
            o@.len() == orig.len(),
            n == orig.len(),
            slots@.len() == orig.len(),
            so == Seq::new(o@.len(), |i: int| o@[i] as int),
            forall|i: int| 0 <= i < o@.len() ==> (#[trigger] o@[i]) < orig.len(),
            forall|i: int, j: int| 0 <= i < j < o@.len() ==> o@[i] != o@[j],
            r@.len() == k,
            forall|i: int| 0 <= i < k ==> #[trigger] r@[i] == orig[o@[i] as int],
            forall|i: int|
                0 <= i < orig.len() ==> (#[trigger] slots@[i]) == (if exists|m: int|
                    0 <= m < k && o@[m] == orig.len() - 1 - i {
                    None
                } else {
                    Some(orig[orig.len() - 1 - i])
                }),
        decreases o@.len() - k,
    {
        let p = o[k];
        let slot = n - 1 - p;
        proof {
            assert forall|m: int| 0 <= m < k implies o@[m] != p by {}
        }
        let mut taken: Option<LibraryEntry> = None;
        slots.set_and_swap(slot, &mut taken);
        proof {
            assert(taken == Some(orig[p as int]));
        }
        r.push(taken.unwrap());
        proof {
            assert forall|i: int| 0 <= i < orig.len() implies (#[trigger] slots@[i]) == (if exists|m: int|
                0 <= m < k + 1 && o@[m] == orig.len() - 1 - i {
                None
            } else {
                Some(orig[orig.len() - 1 - i])
            }) by {
                if i == slot as int {
                    assert(o@[k as int] == orig.len() - 1 - i);
                } else {
                    if exists|m: int| 0 <= m < k + 1 && o@[m] == orig.len() - 1 - i {
                        let m = choose|m: int| 0 <= m < k + 1 && o@[m] == orig.len() - 1 - i;
                        assert(m != k as int);
                    }
                }
            }
        }
        k = k + 1;
    }
    assert forall|i: int| 0 <= i < so.len() implies #[trigger] r@[i] == orig[so[i]] by {}
    r
}

} // verus!
