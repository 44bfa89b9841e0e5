//! Calendar values the library reads (a local date and time of day, a date)
//! and their textual forms.

use vstd::prelude::*;
use crate::text;
use chrono::{Datelike, Timelike};

verus! {

/// A local date and time of day, to the second.
#[derive(Clone, Copy, Debug, PartialEq, Eq)]
pub struct LocalTime {
    pub year: i32,
    pub month: u32,
    pub day: u32,
    pub hour: u32,
    pub minute: u32,
    pub second: u32,
}

/// A calendar date.
#[derive(Clone, Copy, Debug, PartialEq, Eq, Structural)]
pub struct Date {
    pub year: i32,
    pub month: u32,
    pub day: u32,
}

impl LocalTime {
    pub open spec fn valid(&self) -> bool {
        &&& 1 <= self.month <= 12
        &&& 1 <= self.day <= 31
        &&& self.hour < 24
        &&& self.minute < 60
        &&& self.second < 60
    }

    /// The date part.
    pub fn date(&self) -> (d: Date)
        ensures
            d.year == self.year,
            d.month == self.month,
            d.day == self.day,
    {
        Date { year: self.year, month: self.month, day: self.day }
    }
}

/// The current local time (`chrono::Local::now`), read field by field.
/// Nothing is promised of the values beyond the ranges chrono's accessors document.
#[verifier::external_body]
pub(crate) fn local_now() -> (t: LocalTime)
    ensures
        t.valid(),
{
    let now = chrono::Local::now();
    LocalTime {
        year: now.year(),
        month: now.month(),
        day: now.day(),
        hour: now.hour(),
        minute: now.minute(),
        second: now.second(),
    }
}

/// The `%Y` field: four zero-padded digits for years 0 to 9999, otherwise a
/// sign and at least four digits.
pub open spec fn year_text(y: int) -> Seq<char> {
    if 0 <= y && y < 10000 {
        text::padded(y as nat, 4)
    } else if y >= 10000 {
        seq!['+'] + text::decimal(y as nat)
    } else {
        seq!['-'] + text::padded((-y) as nat, 4)
    }
}

/// `%Y-%m-%d`.
pub open spec fn ymd_text(y: int, m: nat, d: nat) -> Seq<char> {
    year_text(y) + seq!['-'] + text::padded(m, 2) + seq!['-'] + text::padded(d, 2)
}

/// `%Y-%m-%d %H:%M` of a local time.
pub open spec fn ymd_hm_text(t: LocalTime) -> Seq<char> {
    ymd_text(t.year as int, t.month as nat, t.day as nat) + seq![' '] + text::padded(
        t.hour as nat,
        2,
    ) + seq![':'] + text::padded(t.minute as nat, 2)
}

/// `%m/%d` of a local time.
pub open spec fn md_text(t: LocalTime) -> Seq<char> {
    text::padded(t.month as nat, 2) + seq!['/'] + text::padded(t.day as nat, 2)
}

pub fn push_year(out: &mut Vec<char>, y: i32)
    ensures
        final(out)@ == old(out)@ + year_text(y as int),
{
    if 0 <= y && y < 10000 {
        text::push_padded(out, y as u64, 4);
    } else if y >= 10000 {
        out.push('+');
        let ghost mid = out@;
        text::push_decimal(out, y as u64);
        assert(out@ =~= old(out)@ + year_text(y as int));
    } else {
        out.push('-');
        let ghost mid = out@;
        let a: u64 = (0i64 - (y as i64)) as u64;
        text::push_padded(out, a, 4);
        assert(out@ =~= old(out)@ + year_text(y as int));
    }
}

pub fn push_ymd(out: &mut Vec<char>, y: i32, m: u32, d: u32)
    ensures
        final(out)@ == old(out)@ + ymd_text(y as int, m as nat, d as nat),
{
    push_year(out, y);
    out.push('-');
    text::push_padded(out, m as u64, 2);
    out.push('-');
    text::push_padded(out, d as u64, 2);
    assert(out@ =~= old(out)@ + ymd_text(y as int, m as nat, d as nat));
}

pub fn push_ymd_hm(out: &mut Vec<char>, t: &LocalTime)
    ensures
        final(out)@ == old(out)@ + ymd_hm_text(*t),
{
    push_ymd(out, t.year, t.month, t.day);
    out.push(' ');
    text::push_padded(out, t.hour as u64, 2);
    out.push(':');
    text::push_padded(out, t.minute as u64, 2);
    assert(out@ =~= old(out)@ + ymd_hm_text(*t));
}

pub fn push_md(out: &mut Vec<char>, t: &LocalTime)
    ensures
        final(out)@ == old(out)@ + md_text(*t),
{
    text::push_padded(out, t.month as u64, 2);
    out.push('/');
    text::push_padded(out, t.day as u64, 2);
    assert(out@ =~= old(out)@ + md_text(*t));
}

/// `t` as `%Y-%m-%d %H:%M`.
pub fn format_ymd_hm(t: &LocalTime) -> (s: String)
    ensures
        s@ == ymd_hm_text(*t),
{
    let mut out: Vec<char> = Vec::new();
    push_ymd_hm(&mut out, t);
    assert(out@ =~= ymd_hm_text(*t));
    text::string_of(&out)
}

/// `t` as `%Y-%m-%d`.
pub fn format_ymd(t: &LocalTime) -> (s: String)
    ensures
        s@ == ymd_text(t.year as int, t.month as nat, t.day as nat),
{
    let mut out: Vec<char> = Vec::new();
    push_ymd(&mut out, t.year, t.month, t.day);
    assert(out@ =~= ymd_text(t.year as int, t.month as nat, t.day as nat));
    text::string_of(&out)
}

} // verus!
