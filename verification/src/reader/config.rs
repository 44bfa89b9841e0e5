//! The reader's settings: the `[reader]` section (library folder, marker
//! colours, notebook), the `[present]` section, and what the reader keeps of
//! them at start-up.

use vstd::prelude::*;
use crate::text;
use crate::paths;
use crate::inkdrop::InkdropConfig;

verus! {

/// The marker colour names, in the order of the default colours.
pub open spec fn palette() -> Seq<Seq<char>> {
    seq!["yellow"@, "green"@, "blue"@, "pink"@]
}

/// The marker colours used when `[reader]` names none: the whole palette.
pub fn default_colors() -> (v: Vec<String>)
    ensures
        text::string_views(v@) == palette(),
{
    let mut v: Vec<String> = Vec::new();
    v.push(String::from_str("yellow"));
    v.push(String::from_str("green"));
    v.push(String::from_str("blue"));
    v.push(String::from_str("pink"));
    assert(text::string_views(v@) =~= palette());
    v
}

/// The side of the screen that a half-width presentation keeps to.
#[derive(Clone, Copy, PartialEq, Eq, Debug, Structural)]
pub enum HalfSide {
    Left,
    Right,
}

impl Default for HalfSide {
    fn default() -> (s: Self)
        ensures
            s == HalfSide::Left,
    {
        HalfSide::Left
    }
}

/// The `[present]` section.
#[derive(Clone, Copy, PartialEq, Eq, Debug, Structural)]
pub struct PresentConfig {
    pub half_side: HalfSide,
}

impl Default for PresentConfig {
    fn default() -> (c: Self)
        ensures
            c.half_side == HalfSide::Left,
    {
        PresentConfig { half_side: HalfSide::Left }
    }
}

/// Why a `[reader]` section was refused.
#[derive(Clone, Copy, PartialEq, Eq, Debug, Structural)]
pub enum ReaderConfigError {
    /// `dir` empty or only whitespace.
    BlankDir,
    /// Fewer than 1 or more than 8 colours.
    ColorCount,
    /// The colour at this position is not a palette name.
    UnknownColor(usize),
    /// `recall_probability` outside 0.0..=1.0.
    ProbabilityOutOfRange,
    /// `book` given but empty or only whitespace.
    BlankBook,
}

impl PresentConfig {
    /// Every value of the section is valid: `half_side` can only be read as
    /// one of its two sides.
    pub fn validate(&self) -> (r: Result<(), ReaderConfigError>)
        ensures
            r == Ok::<(), ReaderConfigError>(()),
    {
        Ok(())
    }
}

pub open spec fn blank(s: Seq<char>) -> bool {
    text::trimmed(s).len() == 0
}

/// The position of the first colour that is not a palette name.
pub open spec fn first_unknown_color(colors: Seq<Seq<char>>) -> Option<int>
    decreases colors.len(),
{
    if colors.len() == 0 {
        None
    } else if !palette().contains(colors[0]) {
        Some(0)
    } else {
        match first_unknown_color(colors.drop_first()) {
            Some(i) => Some(i + 1),
            None => None,
        }
    }
}

proof fn lemma_first_unknown_color(colors: Seq<Seq<char>>, k: int)
    requires
        0 <= k <= colors.len(),
        forall|j: int| 0 <= j < k ==> palette().contains(#[trigger] colors[j]),
        k == colors.len() || !palette().contains(colors[k]),
    ensures
        first_unknown_color(colors) == (if k < colors.len() {
            Some(k)
        } else {
            None::<int>
        }),
    decreases k,
{
    if k > 0 {
        let t = colors.drop_first();
        assert forall|j: int| 0 <= j < k - 1 implies palette().contains(#[trigger] t[j]) by {
            assert(t[j] == colors[j + 1]);
        }
        if k < colors.len() {
            assert(t[k - 1] == colors[k]);
        }
        lemma_first_unknown_color(t, k - 1);
        assert(palette().contains(colors[0]));
    }
}

/// What the `[reader]` checks answer, in their order; `probability_ok`
/// says whether `recall_probability` lies in 0.0..=1.0.
pub open spec fn reader_outcome(
    dir: Seq<char>,
    colors: Seq<Seq<char>>,
    probability_ok: bool,
    book: Option<Seq<char>>,
) -> Result<(), ReaderConfigError> {
    if blank(dir) {
        Err(ReaderConfigError::BlankDir)
    } else if colors.len() == 0 || colors.len() > 8 {
        Err(ReaderConfigError::ColorCount)
    } else if first_unknown_color(colors) is Some {
        Err(ReaderConfigError::UnknownColor(first_unknown_color(colors)->0 as usize))
    } else if !probability_ok {
        Err(ReaderConfigError::ProbabilityOutOfRange)
    } else if book is Some && blank(book->0) {
        Err(ReaderConfigError::BlankBook)
    } else {
        Ok(())
    }
}

fn is_palette_name(c: &String) -> (b: bool)
    ensures
        b == palette().contains(c@),
{
    let v = text::chars_of(c.as_str());
    let yellow = text::chars_of("yellow");
    let green = text::chars_of("green");
    let blue = text::chars_of("blue");
    let pink = text::chars_of("pink");
    let b = text::same_chars(&v, &yellow) || text::same_chars(&v, &green) || text::same_chars(
        &v,
        &blue,
    ) || text::same_chars(&v, &pink);
    proof {
        let p = palette();
        assert(p[0] == "yellow"@ && p[1] == "green"@ && p[2] == "blue"@ && p[3] == "pink"@);
        if p.contains(c@) {
            let k = choose|k: int| 0 <= k < p.len() && p[k] == c@;
            assert(k == 0 || k == 1 || k == 2 || k == 3);
        }
        if b {
            if v@ == yellow@ {
                assert(p[0] == c@);
            } else if v@ == green@ {
                assert(p[1] == c@);
            } else if v@ == blue@ {
                assert(p[2] == c@);
            } else {
                assert(p[3] == c@);
            }
        }
    }
    b
}

fn is_blank(s: &str) -> (b: bool)
    ensures
        b == blank(s@),
{
    let v = text::chars_of(s);
    let t = text::trim(&v);
    t.len() == 0
}

/// The checks of a `[reader]` section other than reading it: a folder that
/// is not blank, 1 to 8 colours, each a palette name, the recall
/// probability in range (`probability_ok`, measured by the caller), and a
/// notebook name that is not blank where it is given.
pub fn check_reader(
    dir: &str,
    colors: &Vec<String>,
    probability_ok: bool,
    book: Option<&str>,
) -> (r: Result<(), ReaderConfigError>)
    ensures
        r == reader_outcome(
            dir@,
            text::string_views(colors@),
            probability_ok,
            match book {
                Some(b) => Some(b@),
                None => None,
            },
        ),
{
    let ghost cs = text::string_views(colors@);
    if is_blank(dir) {
        return Err(ReaderConfigError::BlankDir);
    }
    if colors.len() == 0 || colors.len() > 8 {
        return Err(ReaderConfigError::ColorCount);
    }
    let mut i: usize = 0;
    while i < colors.len()
        invariant
            0 <= i <= colors.len(),
            cs == text::string_views(colors@),
            !blank(dir@),
            1 <= colors.len() <= 8,
            forall|j: int| 0 <= j < i ==> palette().contains(#[trigger] cs[j]),
        decreases colors.len() - i,
    {
        assert(cs[i as int] == colors@[i as int]@);
        if !is_palette_name(&colors[i]) {
            proof {
                lemma_first_unknown_color(cs, i as int);
            }
            return Err(ReaderConfigError::UnknownColor(i));
        }
        i = i + 1;
    }
    proof {
        lemma_first_unknown_color(cs, i as int);
    }
    if !probability_ok {
        return Err(ReaderConfigError::ProbabilityOutOfRange);
    }
    match book {
        Some(b) => {
            if is_blank(b) {
                return Err(ReaderConfigError::BlankBook);
            }
        },
        None => {},
    }
    Ok(())
}

// ---------------------------------------------------------------- folders

/// The library folder: a leading `~/` stands for the home folder where one
/// is known; any other text is kept as it is.
pub open spec fn expanded_dir(dir: Seq<char>, home: Option<Seq<char>>) -> Seq<char> {
    if text::has_prefix(dir, seq!['~', '/']) && home is Some {
        paths::join_path(home->0, dir.skip(2))
    } else {
        dir
    }
}

/// The folder `dir` names, with a leading `~/` put in terms of `home`
/// (the `HOME` variable, where it is set).
pub fn expand_dir(dir: &str, home: Option<&str>) -> (r: String)
    ensures
        r@ == expanded_dir(
            dir@,
            match home {
                Some(h) => Some(h@),
                None => None,
            },
        ),
{
    let d = text::chars_of(dir);
    let mut tilde: Vec<char> = Vec::new();
    tilde.push('~');
    tilde.push('/');
    assert(tilde@ =~= seq!['~', '/']);
    if text::starts_with(&d, &tilde) {
        match home {
            Some(h) => {
                let base = text::chars_of(h);
                let rest = text::slice_of(&d, 2, d.len());
                assert(rest@ =~= d@.skip(2));
                let joined = paths::join_path_text(&base, &rest);
                return text::string_of(&joined);
            },
            None => {},
        }
    }
    text::string_of(&d)
}

// ---------------------------------------------------------------- at start-up

/// The notebook that exports go to when neither `[reader]` nor `[inkdrop]`
/// names one.
pub const FALLBACK_BOOK: &'static str = "Inbox";

/// What the reader keeps of the settings at start-up.
pub struct ReaderSettings {
    pub colors: Vec<String>,
    pub inkdrop: Option<InkdropConfig>,
    /// `[reader] book`, else `[inkdrop] book`, else `FALLBACK_BOOK`.
    pub book_name: String,
}

impl ReaderSettings {
    /// The settings from the `[reader]` colours and notebook and the
    /// `[inkdrop]` section, each where it was given; with none of them
    /// (or a settings file that could not be read) the defaults.
    pub fn from_sections(
        reader_colors: Option<Vec<String>>,
        reader_book: Option<String>,
        inkdrop: Option<InkdropConfig>,
    ) -> (s: ReaderSettings)
        ensures
            text::string_views(s.colors@) == (match reader_colors {
                Some(c) => text::string_views(c@),
                None => palette(),
            }),
            s.book_name@ == (match reader_book {
                Some(b) => b@,
                None => match inkdrop {
                    Some(i) => i.book@,
                    None => FALLBACK_BOOK@,
                },
            }),
            s.inkdrop == inkdrop,
    {
        let colors = match reader_colors {
            Some(c) => c,
            None => default_colors(),
        };
        let book_name = match reader_book {
            Some(b) => b,
            None => match &inkdrop {
                Some(i) => i.book.clone(),
                None => String::from_str(FALLBACK_BOOK),
            },
        };
        ReaderSettings { colors, inkdrop, book_name }
    }
}

} // verus!
