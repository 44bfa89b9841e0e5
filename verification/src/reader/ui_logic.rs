//! The small decisions of the reader's panes, kept apart from any widget:
//! which search hit comes next, what the search status says, whether Enter
//! starts a new search, which filter entry is selected.

use vstd::prelude::*;
use vstd::arithmetic::div_mod::{lemma_add_mod_noop, lemma_sub_mod_noop, lemma_mod_add_multiples_vanish, lemma_small_mod};
use crate::text;

verus! {

/// The status shown before any search.
pub const STATUS_IDLE: &'static str = "語を入れて Enter で検索します (Ctrl+F)";

/// The hit after moving `delta` from `current` among `len` hits, wrapping at
/// both ends; from no selection, forward starts at the first and backward at
/// the last.
pub open spec fn advance_spec(current: Option<usize>, len: nat, delta: int) -> Option<nat> {
    if len == 0 {
        None
    } else {
        match current {
            None => if delta > 0 {
                Some(0)
            } else {
                Some((len - 1) as nat)
            },
            Some(i) => Some(((i + delta) % (len as int)) as nat),
        }
    }
}

/// Stepping forward and then back comes to the item one started from, at
/// the ends of the list too (stepping wraps round).
pub proof fn lemma_advance_round_trip(i: usize, len: usize)
    requires
        i < len,
    ensures
        advance_spec(Some(i), len as nat, 1) matches Some(j) && j < len && advance_spec(
            Some(j as usize),
            len as nat,
            -1,
        ) == Some(i as nat),
{
    if i + 1 < len {
        assert(((i + 1) as int) % (len as int) == i + 1) by (nonlinear_arith)
            requires
                i + 1 < len,
        ;
        assert(((i + 1) as int - 1) % (len as int) == i) by (nonlinear_arith)
            requires
                i < len,
        ;
    } else {
        assert(((i + 1) as int) % (len as int) == 0) by (nonlinear_arith)
            requires
                i + 1 == len,
        ;
        assert((0int - 1) % (len as int) == len - 1) by (nonlinear_arith)
            requires
                len >= 1,
        ;
    }
}

/// Stepping back and then forward comes to the item one started from, at
/// the ends of the list too.
pub proof fn lemma_advance_back_round_trip(i: usize, len: usize)
    requires
        i < len,
    ensures
        advance_spec(Some(i), len as nat, -1) matches Some(j) && j < len && advance_spec(
            Some(j as usize),
            len as nat,
            1,
        ) == Some(i as nat),
{
    if i > 0 {
        assert(((i as int) - 1) % (len as int) == i - 1) by (nonlinear_arith)
            requires
                0 < i < len,
        ;
        assert(((i - 1) as int + 1) % (len as int) == i) by (nonlinear_arith)
            requires
                i < len,
        ;
    } else {
        assert((0int - 1) % (len as int) == len - 1) by (nonlinear_arith)
            requires
                len >= 1,
        ;
        assert(((len - 1) as int + 1) % (len as int) == 0) by (nonlinear_arith)
            requires
                len >= 1,
        ;
    }
}

pub fn advance(current: Option<usize>, len: usize, delta: isize) -> (r: Option<usize>)
    ensures
        match r {
            Some(x) => advance_spec(current, len as nat, delta as int) == Some(x as nat),
            None => advance_spec(current, len as nat, delta as int) is None,
        },
        r matches Some(x) ==> x < len,
{
    if len == 0 {
        return None;
    }
    match current {
        None => if delta > 0 {
            Some(0)
        } else {
            Some(len - 1)
        },
        Some(i) => {
            let m = len as u128;
            let a = (i as u128) % m;
            let x: u128 = if delta >= 0 {
                let b = (delta as u128) % m;
                proof {
                    lemma_add_mod_noop(i as int, delta as int, m as int);
                }
                (a + b) % m
            } else {
                let b = ((0i128 - delta as i128) as u128) % m;
                proof {
                    lemma_sub_mod_noop(i as int, -(delta as int), m as int);
                    lemma_mod_add_multiples_vanish(a - b, m as int);
                }
                (a + (m - b)) % m
            };
            Some(x as usize)
        },
    }
}

/// The search status: while scanning, the running count; before any search,
/// `STATUS_IDLE`; after a search without hits, that nothing was found;
/// otherwise the number of marks and of pages.
pub open spec fn status_spec(running: bool, searched: bool, pages: nat, marks: nat) -> Seq<char> {
    if running {
        "検索中… ("@ + text::decimal(marks) + " 件)"@
    } else if !searched {
        STATUS_IDLE@
    } else if pages == 0 {
        "見つかりませんでした"@
    } else {
        text::decimal(marks) + " 件見つかりました ("@ + text::decimal(pages) + " ページ)"@
    }
}

pub fn status_text(running: bool, searched: bool, pages: usize, marks: usize) -> (s: String)
    ensures
        s@ == status_spec(running, searched, pages as nat, marks as nat),
{
    let mut out: Vec<char> = Vec::new();
    if running {
        text::push_str(&mut out, "検索中… (");
        text::push_decimal(&mut out, marks as u64);
        text::push_str(&mut out, " 件)");
    } else if !searched {
        text::push_str(&mut out, STATUS_IDLE);
    } else if pages == 0 {
        text::push_str(&mut out, "見つかりませんでした");
    } else {
        text::push_decimal(&mut out, marks as u64);
        text::push_str(&mut out, " 件見つかりました (");
        text::push_decimal(&mut out, pages as u64);
        text::push_str(&mut out, " ページ)");
    }
    assert(out@ =~= status_spec(running, searched, pages as nat, marks as nat));
    text::string_of(&out)
}

/// Enter scans anew when the query differs from the last scanned one (or
/// nothing was scanned yet), and moves to the next hit otherwise.
pub fn should_restart(last: Option<&str>, query: &str) -> (b: bool)
    ensures
        b == match last {
            None => true,
            Some(l) => l@ != query@,
        },
{
    match last {
        None => true,
        Some(l) => {
            let a = text::chars_of(l);
            let q = text::chars_of(query);
            !text::same_chars(&a, &q)
        },
    }
}

/// The dropdown entry for a tag filter: 0 is "all", the tag at position `i`
/// (its first occurrence) is entry `i + 1`; an unknown tag selects "all".
pub fn selected_index(all_tags: &[String], filter: Option<&str>) -> (r: u32)
    ensures
        filter is None ==> r == 0,
        filter matches Some(f) ==> (forall|i: int|
            0 <= i < all_tags@.len() ==> all_tags@[i]@ != f@) ==> r == 0,
        filter matches Some(f) ==> forall|i: int|
            0 <= i < all_tags@.len() && all_tags@[i]@ == f@ && (forall|j: int|
                0 <= j < i ==> all_tags@[j]@ != f@) ==> r == #[verifier::truncate] ((i + 1) as u32),
{
    let f = match filter {
        None => {
            return 0;
        },
        Some(f) => f,
    };
    let fv = text::chars_of(f);
    let mut i: usize = 0;
    while i < all_tags.len()
        invariant
            0 <= i <= all_tags@.len(),
            fv@ == f@,
            filter == Some(f),
            forall|j: int| 0 <= j < i ==> all_tags@[j]@ != f@,
        decreases all_tags@.len() - i,
    {
        let t = text::chars_of(all_tags[i].as_str());
        if text::same_chars(&t, &fv) {
            return #[verifier::truncate] ((i + 1) as u32);
        }
        i = i + 1;
    }
    0
}

} // verus!
