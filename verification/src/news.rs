//! The `[news]` section: which RSS feeds are read, how often, how much of
//! each, and the topic the summary leans to.

use vstd::prelude::*;
use crate::text;
use crate::links;

verus! {

pub const DEFAULT_FEED: &'static str = "https://www.nhk.or.jp/rss/news/cat0.xml";

/// The feeds read when the section names none: `DEFAULT_FEED` alone.
pub fn default_feeds() -> (v: Vec<String>)
    ensures
        text::string_views(v@) == seq![DEFAULT_FEED@],
{
    let mut v: Vec<String> = Vec::new();
    v.push(String::from_str(DEFAULT_FEED));
    assert(text::string_views(v@) =~= seq![DEFAULT_FEED@]);
    v
}

pub fn default_interval_mins() -> (m: u64)
    ensures
        m == 60,
{
    60
}

pub fn default_max_kb() -> (k: u64)
    ensures
        k == 16,
{
    16
}

/// The `[news]` section.
pub struct NewsConfig {
    pub feeds: Vec<String>,
    pub interval_mins: u64,
    pub max_kb_per_feed: u64,
    pub focus: Option<String>,
}

/// Why a `[news]` section was refused.
#[derive(Clone, Copy, PartialEq, Eq, Debug, Structural)]
pub enum NewsConfigError {
    /// `feeds = []` (leaving the key out gives the default feed).
    NoFeeds,
    /// The feed at this position is not an http(s) URL.
    BadFeedUrl(usize),
    /// `interval_mins` outside 15..=1440.
    IntervalOutOfRange,
    /// `max_kb_per_feed` outside 1..=64.
    MaxKbOutOfRange,
    /// `focus = ""`.
    EmptyFocus,
}

/// The position of the first feed that is not an http(s) URL.
pub open spec fn first_bad_feed(feeds: Seq<Seq<char>>) -> Option<int>
    decreases feeds.len(),
{
    if feeds.len() == 0 {
        None
    } else if links::http_url(feeds[0]) is None {
        Some(0)
    } else {
        match first_bad_feed(feeds.drop_first()) {
            Some(i) => Some(i + 1),
            None => None,
        }
    }
}

proof fn lemma_first_bad_feed(feeds: Seq<Seq<char>>, k: int)
    requires
        0 <= k <= feeds.len(),
        forall|j: int| 0 <= j < k ==> links::http_url(#[trigger] feeds[j]) is Some,
        k == feeds.len() || links::http_url(feeds[k]) is None,
    ensures
        first_bad_feed(feeds) == (if k < feeds.len() {
            Some(k)
        } else {
            None::<int>
        }),
    decreases k,
{
    if k > 0 {
        let t = feeds.drop_first();
        assert forall|j: int| 0 <= j < k - 1 implies links::http_url(#[trigger] t[j]) is Some by {
            assert(t[j] == feeds[j + 1]);
        }
        if k < feeds.len() {
            assert(t[k - 1] == feeds[k]);
        }
        lemma_first_bad_feed(t, k - 1);
        assert(links::http_url(feeds[0]) is Some);
    }
}

/// What `validate` answers, check by check in this order.
pub open spec fn news_outcome(
    feeds: Seq<Seq<char>>,
    interval_mins: u64,
    max_kb: u64,
    focus: Option<Seq<char>>,
) -> Result<(), NewsConfigError> {
    if feeds.len() == 0 {
        Err(NewsConfigError::NoFeeds)
    } else if first_bad_feed(feeds) is Some {
        Err(NewsConfigError::BadFeedUrl(first_bad_feed(feeds)->0 as usize))
    } else if !(15 <= interval_mins && interval_mins <= 1440) {
        Err(NewsConfigError::IntervalOutOfRange)
    } else if !(1 <= max_kb && max_kb <= 64) {
        Err(NewsConfigError::MaxKbOutOfRange)
    } else if focus == Some(Seq::<char>::empty()) {
        Err(NewsConfigError::EmptyFocus)
    } else {
        Ok(())
    }
}

pub open spec fn opt_view(o: Option<String>) -> Option<Seq<char>> {
    match o {
        Some(s) => Some(s@),
        None => None,
    }
}

impl NewsConfig {
    /// Checks, in order: at least one feed, every feed an http(s) URL,
    /// an interval of 15 to 1440 minutes, 1 to 64 KiB per feed, and a focus
    /// that is not empty where it is given.
    pub fn validate(&self) -> (r: Result<(), NewsConfigError>)
        ensures
            r == news_outcome(
                text::string_views(self.feeds@),
                self.interval_mins,
                self.max_kb_per_feed,
                opt_view(self.focus),
            ),
    {
        let ghost feeds = text::string_views(self.feeds@);
        if self.feeds.len() == 0 {
            return Err(NewsConfigError::NoFeeds);
        }
        let mut i: usize = 0;
        while i < self.feeds.len()
            invariant
                0 <= i <= self.feeds.len(),
                feeds == text::string_views(self.feeds@),
                forall|j: int| 0 <= j < i ==> links::http_url(#[trigger] feeds[j]) is Some,
            decreases self.feeds.len() - i,
        {
            if links::parse_http_url(self.feeds[i].as_str()).is_none() {
                proof {
                    assert(feeds[i as int] == self.feeds@[i as int]@);
                    lemma_first_bad_feed(feeds, i as int);
                }
                return Err(NewsConfigError::BadFeedUrl(i));
            }
            assert(feeds[i as int] == self.feeds@[i as int]@);
            i = i + 1;
        }
        proof {
            lemma_first_bad_feed(feeds, i as int);
        }
        if !(15 <= self.interval_mins && self.interval_mins <= 1440) {
            return Err(NewsConfigError::IntervalOutOfRange);
        }
        if !(1 <= self.max_kb_per_feed && self.max_kb_per_feed <= 64) {
            return Err(NewsConfigError::MaxKbOutOfRange);
        }
        match &self.focus {
            Some(f) => {
                if f.unicode_len() == 0 {
                    assert(f@ =~= Seq::<char>::empty());
                    return Err(NewsConfigError::EmptyFocus);
                }
            },
            None => {},
        }
        Ok(())
    }
}

} // verus!
