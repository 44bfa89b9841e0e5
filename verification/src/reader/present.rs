//! Presentation mode: the page shown, the layout and the mascot's
//! visibility, and the pages to have rendered around the one shown.

use vstd::prelude::*;
use crate::text;

verus! {

/// The window covers the screen, or the half of it that `[present]` names.
#[derive(Clone, Copy, PartialEq, Eq, Debug, Structural)]
pub enum Layout {
    Full,
    Half,
}

/// The pages around `idx` worth rendering ahead: the one before, `idx`
/// itself and the one after, within `0..total`.
pub open spec fn neighbor_pages(idx: usize, total: usize) -> Seq<usize> {
    let lo: int = if idx >= 1 {
        idx - 1
    } else {
        0
    };
    let hi: int = if total >= 1 && idx + 1 > total - 1 {
        total - 1
    } else if total >= 1 {
        idx + 1
    } else {
        0
    };
    Seq::new(if hi >= lo { (hi - lo + 1) as nat } else { 0 }, |k: int| (lo + k) as usize)
}

/// For a page of the document, the pages rendered ahead are the page
/// itself and its existing neighbours, in order, and no page past the end.
pub proof fn lemma_neighbors_cover(idx: usize, total: usize)
    requires
        idx < total,
    ensures
        neighbor_pages(idx, total).contains(idx),
        idx >= 1 ==> neighbor_pages(idx, total).contains((idx - 1) as usize),
        idx + 1 < total ==> neighbor_pages(idx, total).contains((idx + 1) as usize),
        forall|k: int|
            0 <= k < neighbor_pages(idx, total).len() ==> #[trigger] neighbor_pages(idx, total)[k]
                < total,
        forall|k: int|
            0 < k < neighbor_pages(idx, total).len() ==> #[trigger] neighbor_pages(idx, total)[k]
                == neighbor_pages(idx, total)[k - 1] + 1,
{
    let n = neighbor_pages(idx, total);
    if idx >= 1 {
        assert(n[1] == idx);
        assert(n[0] == idx - 1);
        if idx + 1 < total {
            assert(n[2] == idx + 1);
        }
    } else {
        assert(n[0] == idx);
        if idx + 1 < total {
            assert(n[1] == idx + 1);
        }
    }
}

/// `idx` and the pages next to it (`idx - 1 ..= idx + 1`, saturated at 0
/// and clamped to the last page).
pub fn neighbors(idx: usize, total: usize) -> (r: Vec<usize>)
    requires
        idx < usize::MAX,
    ensures
        r@ == neighbor_pages(idx, total),
{
    let lo: usize = if idx >= 1 {
        idx - 1
    } else {
        0
    };
    let last: usize = if total >= 1 {
        total - 1
    } else {
        0
    };
    let hi: usize = if idx + 1 > last {
        last
    } else {
        idx + 1
    };
    let mut r: Vec<usize> = Vec::new();
    if lo > hi {
        assert(r@ =~= neighbor_pages(idx, total));
        return r;
    }
    let count: usize = hi - lo + 1;
    let mut k: usize = 0;
    while k < count
        invariant
            0 <= k <= count,
            count == hi - lo + 1,
            lo <= hi,
            r@ == Seq::new(k as nat, |j: int| (lo + j) as usize),
        decreases count - k,
    {
        r.push(lo + k);
        assert(r@ =~= Seq::new((k + 1) as nat, |j: int| (lo + j) as usize));
        k = k + 1;
    }
    assert(r@ =~= neighbor_pages(idx, total));
    r
}

/// `page / total`, the label in the corner.
pub open spec fn page_label_text(page: usize, total: usize) -> Seq<char> {
    text::decimal(page as nat) + " / "@ + text::decimal(total as nat)
}

pub fn page_label(page: usize, total: usize) -> (s: String)
    ensures
        s@ == page_label_text(page, total),
{
    let mut v: Vec<char> = Vec::new();
    text::push_decimal(&mut v, page as u64);
    text::push_str(&mut v, " / ");
    text::push_decimal(&mut v, total as u64);
    text::string_of(&v)
}

/// Page `target` kept to the pages there are: the first below 0, the last
/// beyond it, and page 0 of a PDF without pages.
pub open spec fn clamped_page(target: int, total: usize) -> usize {
    if total == 0 || target < 0 {
        0
    } else if target >= total {
        (total - 1) as usize
    } else {
        target as usize
    }
}

/// What a presentation shows: the current page of a PDF (page 0 of a PDF
/// without pages), the layout, and whether the mascot is on screen.
pub struct PresentState {
    current: usize,
    total: usize,
    layout: Layout,
    mascot_visible: bool,
}

impl PresentState {
    #[verifier::type_invariant]
    spec fn wf(self) -> bool {
        &&& self.total <= isize::MAX
        &&& (self.current < self.total || (self.total == 0 && self.current == 0))
    }

    pub closed spec fn page(self) -> usize {
        self.current
    }

    pub closed spec fn pages(self) -> usize {
        self.total
    }

    pub closed spec fn shown_layout(self) -> Layout {
        self.layout
    }

    pub closed spec fn mascot_shown(self) -> bool {
        self.mascot_visible
    }

    /// The first page of `total`, full screen, mascot still shown.
    pub fn new(total: usize) -> (s: PresentState)
        requires
            total <= isize::MAX,
        ensures
            s.page() == 0,
            s.pages() == total,
            s.shown_layout() == Layout::Full,
            s.mascot_shown(),
    {
        PresentState { current: 0, total, layout: Layout::Full, mascot_visible: true }
    }

    pub fn current(&self) -> (c: usize)
        ensures
            c == self.page(),
            self.pages() > 0 ==> c < self.pages(),
            self.pages() == 0 ==> c == 0,
    {
        proof {
            use_type_invariant(self);
        }
        self.current
    }

    pub fn total(&self) -> (t: usize)
        ensures
            t == self.pages(),
            t <= isize::MAX,
    {
        proof {
            use_type_invariant(self);
        }
        self.total
    }

    /// Goes to page `target`, clamped to the first and last page (page 0
    /// where there are none). Answers the page now shown where it changed
    /// (it is then to be drawn and its neighbours rendered), `None` where it
    /// stayed.
    pub fn go(&mut self, target: isize) -> (r: Option<usize>)
        ensures
            final(self).pages() == old(self).pages(),
            final(self).shown_layout() == old(self).shown_layout(),
            final(self).mascot_shown() == old(self).mascot_shown(),
            final(self).page() == clamped_page(target as int, old(self).pages()),
            r == (if final(self).page() == old(self).page() {
                None
            } else {
                Some(final(self).page())
            }),
    {
        proof {
            use_type_invariant(&*self);
        }
        if self.total == 0 {
            return None;
        }
        let last: isize = (self.total - 1) as isize;
        let t: usize = if target < 0 {
            0
        } else if target > last {
            last as usize
        } else {
            target as usize
        };
        if t == self.current {
            return None;
        }
        self.current = t;
        Some(t)
    }

    /// Moves `delta` pages from the current one, clamped as `go` clamps.
    pub fn step(&mut self, delta: isize) -> (r: Option<usize>)
        ensures
            final(self).pages() == old(self).pages(),
            final(self).shown_layout() == old(self).shown_layout(),
            final(self).mascot_shown() == old(self).mascot_shown(),
            final(self).page() == clamped_page(old(self).page() + delta, old(self).pages()),
            r == (if final(self).page() == old(self).page() {
                None
            } else {
                Some(final(self).page())
            }),
    {
        proof {
            use_type_invariant(&*self);
        }
        if self.total == 0 {
            return None;
        }
        let target: i128 = self.current as i128 + delta as i128;
        let last: usize = self.total - 1;
        let t: usize = if target < 0 {
            0
        } else if target > last as i128 {
            last
        } else {
            target as usize
        };
        if t == self.current {
            return None;
        }
        self.current = t;
        Some(t)
    }

    /// Switches to `layout`; answers whether it changed (the window is
    /// then laid out anew).
    pub fn set_layout(&mut self, layout: Layout) -> (changed: bool)
        ensures
            final(self).shown_layout() == layout,
            changed == (old(self).shown_layout() != layout),
            final(self).page() == old(self).page(),
            final(self).pages() == old(self).pages(),
            final(self).mascot_shown() == old(self).mascot_shown(),
    {
        proof {
            use_type_invariant(&*self);
        }
        if self.layout == layout {
            return false;
        }
        self.layout = layout;
        true
    }

    /// Shows the mascot where it was hidden and hides it where it was shown;
    /// answers whether it is now shown.
    pub fn toggle_mascot(&mut self) -> (visible: bool)
        ensures
            visible == !old(self).mascot_shown(),
            final(self).mascot_shown() == visible,
            final(self).page() == old(self).page(),
            final(self).pages() == old(self).pages(),
            final(self).shown_layout() == old(self).shown_layout(),
    {
        proof {
            use_type_invariant(&*self);
        }
        self.mascot_visible = !self.mascot_visible;
        self.mascot_visible
    }

    /// Whether the mascot is on screen.
    pub fn mascot_visible(&self) -> (v: bool)
        ensures
            v == self.mascot_shown(),
    {
        self.mascot_visible
    }

    /// The layout shown.
    pub fn layout(&self) -> (l: Layout)
        ensures
            l == self.shown_layout(),
    {
        self.layout
    }
}

} // verus!
