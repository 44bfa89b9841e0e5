//! When the mascot speaks next, how long to the next hourly chime, and the
//! draw of a remembered remark.

use vstd::prelude::*;
use rand::RngExt;

verus! {

pub const SPEECH_INTERVAL_MIN_SECS: u64 = 30;
pub const SPEECH_INTERVAL_MAX_SECS: u64 = 90;
pub const BUBBLE_VISIBLE_SECS: u64 = 6;

/// A uniformly random number in `lo..=hi`
/// (`rand::rng().random_range(lo..=hi)`, which panics on an empty range).
/// Nothing is promised of which number comes back beyond its range.
#[verifier::external_body]
pub(crate) fn random_in(lo: u64, hi: u64) -> (r: u64)
    requires
        lo <= hi,
    ensures
        lo <= r <= hi,
{
    rand::rng().random_range(lo..=hi)
}

/// Seconds until the next phrase: a random whole number in
/// `min_secs..=max_secs`.
pub fn next_speech_interval(min_secs: u64, max_secs: u64) -> (secs: u64)
    requires
        min_secs <= max_secs,
    ensures
        min_secs <= secs <= max_secs,
{
    random_in(min_secs, max_secs)
}

/// Seconds elapsed in the hour at `min:sec`, capped at 3599 (a leap
/// second at `59:60` still leaves one second).
pub open spec fn elapsed_in_hour(min: u32, sec: u32) -> int {
    if min * 60 + sec < 3599 {
        min * 60 + sec
    } else {
        3599
    }
}

/// Seconds from `min:sec` (the minute and second of the clock) to the next
/// full hour: between 1 and 3600.
pub fn duration_until_next_hour(min: u32, sec: u32) -> (secs: u64)
    requires
        min * 60 + sec <= u32::MAX,
    ensures
        secs == 3600 - elapsed_in_hour(min, sec),
        1 <= secs <= 3600,
{
    let total: u32 = min * 60 + sec;
    let elapsed: u32 = if total < 3599 {
        total
    } else {
        3599
    };
    (3600 - elapsed) as u64
}

/// The remembered remark drawn: none where there are none or the draw was
/// lost (`won` false); else the one at `index`, wrapped round their count.
pub fn pick_recall_at(remarks: &[String], won: bool, index: usize) -> (r: Option<String>)
    ensures
        r matches Some(s) ==> won && remarks@.len() > 0 && s@ == remarks@[(index as int)
            % (remarks@.len() as int)]@,
        r is None ==> !won || remarks@.len() == 0,
{
    if remarks.len() == 0 || !won {
        return None;
    }
    let k = index % remarks.len();
    Some(remarks[k].clone())
}

/// Why a `[speech]` section was refused.
#[derive(Clone, Copy, PartialEq, Eq, Debug, Structural)]
pub enum SpeechConfigError {
    /// `interval_min_secs` below 5.
    MinTooShort,
    /// `interval_max_secs` below `interval_min_secs`.
    MaxBelowMin,
}

/// The `[speech]` section: the bounds of the pause between two phrases.
pub struct SpeechConfig {
    pub interval_min_secs: u64,
    pub interval_max_secs: u64,
}

impl SpeechConfig {
    /// The pause when the section names none: 30 to 90 seconds.
    pub fn defaults() -> (c: SpeechConfig)
        ensures
            c.interval_min_secs == SPEECH_INTERVAL_MIN_SECS,
            c.interval_max_secs == SPEECH_INTERVAL_MAX_SECS,
    {
        SpeechConfig {
            interval_min_secs: SPEECH_INTERVAL_MIN_SECS,
            interval_max_secs: SPEECH_INTERVAL_MAX_SECS,
        }
    }

    /// The lower bound must be at least 5 seconds, the upper one at least
    /// the lower one.
    pub fn validate(&self) -> (r: Result<(), SpeechConfigError>)
        ensures
            r == (if self.interval_min_secs < 5 {
                Err(SpeechConfigError::MinTooShort)
            } else if self.interval_max_secs < self.interval_min_secs {
                Err(SpeechConfigError::MaxBelowMin)
            } else {
                Ok(())
            }),
    {
        if self.interval_min_secs < 5 {
            return Err(SpeechConfigError::MinTooShort);
        }
        if self.interval_max_secs < self.interval_min_secs {
            return Err(SpeechConfigError::MaxBelowMin);
        }
        Ok(())
    }
}

} // verus!
