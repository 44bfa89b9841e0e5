//! Where the mascot's window may sit on the monitor.

use vstd::prelude::*;

verus! {

/// A margin kept on the monitor: not below 0 and, where the monitor gives
/// an upper limit, not above it (a negative limit counting as 0).
pub open spec fn clamped_margin(v: int, max: Option<i32>) -> int {
    let lo = if v < 0 {
        0
    } else {
        v
    };
    match max {
        Some(m) => {
            let hi = if m < 0 {
                0
            } else {
                m as int
            };
            if lo < hi {
                lo
            } else {
                hi
            }
        },
        None => lo,
    }
}

/// The margin `v` kept on the monitor (see `clamped_margin`).
pub fn clamp_margin(v: i32, max: Option<i32>) -> (r: i32)
    ensures
        r == clamped_margin(v as int, max),
{
    let lo: i32 = if v < 0 {
        0
    } else {
        v
    };
    match max {
        Some(m) => {
            let hi: i32 = if m < 0 {
                0
            } else {
                m
            };
            if lo < hi {
                lo
            } else {
                hi
            }
        },
        None => lo,
    }
}

} // verus!
