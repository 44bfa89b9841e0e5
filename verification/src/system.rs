//! How loaded the machine is: CPU and memory levels, and the reading of
//! `/proc/meminfo` text.

use vstd::prelude::*;
use crate::text;

verus! {

#[derive(Clone, Copy, PartialEq, Eq, Debug, Structural)]
pub enum CpuLevel {
    Idle,
    Normal,
    High,
}

#[derive(Clone, Copy, PartialEq, Eq, Debug, Structural)]
pub enum MemLevel {
    Normal,
    High,
}

/// Why `/proc/meminfo` text could not be read.
#[derive(Clone, Copy, PartialEq, Eq, Debug, Structural)]
pub enum MeminfoError {
    /// A field had no value after its name.
    EmptyValue,
    /// A field's value is not an unsigned integer.
    NotANumber,
    /// No `MemTotal:` line.
    MissingTotal,
    /// No `MemAvailable:` line.
    MissingAvailable,
}

/// The first word of a field's value, read as `u64::from_str` reads it.
pub open spec fn kb_value(rest: Seq<char>) -> Result<u64, MeminfoError> {
    let words = text::words_of(rest);
    if words.len() == 0 {
        Err(MeminfoError::EmptyValue)
    } else {
        match text::u64_text_value(words[0]) {
            Some(v) => Ok(v),
            None => Err(MeminfoError::NotANumber),
        }
    }
}

/// Reads the lines in order, keeping the last `MemTotal:` and `MemAvailable:`
/// values; the first unreadable value of either field stops the reading.
pub open spec fn meminfo_scan(ls: Seq<Seq<char>>, total: Option<u64>, avail: Option<u64>) -> Result<
    (Option<u64>, Option<u64>),
    MeminfoError,
>
    decreases ls.len(),
{
    if ls.len() == 0 {
        Ok((total, avail))
    } else {
        let l = ls[0];
        if text::has_prefix(l, "MemTotal:"@) {
            match kb_value(l.skip("MemTotal:"@.len() as int)) {
                Err(e) => Err(e),
                Ok(v) => meminfo_scan(ls.drop_first(), Some(v), avail),
            }
        } else if text::has_prefix(l, "MemAvailable:"@) {
            match kb_value(l.skip("MemAvailable:"@.len() as int)) {
                Err(e) => Err(e),
                Ok(v) => meminfo_scan(ls.drop_first(), total, Some(v)),
            }
        } else {
            meminfo_scan(ls.drop_first(), total, avail)
        }
    }
}

/// `(MemTotal, MemAvailable)` in kB as `/proc/meminfo` text states them.
pub open spec fn meminfo_outcome(content: Seq<char>) -> Result<(u64, u64), MeminfoError> {
    match meminfo_scan(text::lines_of(content), None, None) {
        Err(e) => Err(e),
        Ok((t, a)) => match t {
            None => Err(MeminfoError::MissingTotal),
            Some(t) => match a {
                None => Err(MeminfoError::MissingAvailable),
                Some(a) => Ok((t, a)),
            },
        },
    }
}

/// The value of a `/proc/meminfo` field: the first word after the field name.
pub fn parse_kb(rest: &Vec<char>) -> (r: Result<u64, MeminfoError>)
    ensures
        r == kb_value(rest@),
{
    let words = text::split_words(rest);
    if words.len() == 0 {
        return Err(MeminfoError::EmptyValue);
    }
    match text::parse_u64(&words[0]) {
        Some(v) => Ok(v),
        None => Err(MeminfoError::NotANumber),
    }
}

/// `(MemTotal, MemAvailable)` in kB from `/proc/meminfo` text.
pub fn parse_meminfo(content: &str) -> (r: Result<(u64, u64), MeminfoError>)
    ensures
        r == meminfo_outcome(content@),
{
    let v = text::chars_of(content);
    let ls = text::split_lines(&v);
    let total_name = text::chars_of("MemTotal:");
    let avail_name = text::chars_of("MemAvailable:");
    let mut total: Option<u64> = None;
    let mut available: Option<u64> = None;
    let ghost all = text::views(ls@);
    let mut i: usize = 0;
    assert(all.skip(0) =~= all);
    while i < ls.len()
        invariant
            0 <= i <= ls.len(),
            all == text::views(ls@),
            all == text::lines_of(content@),
            total_name@ == "MemTotal:"@,
            avail_name@ == "MemAvailable:"@,
            meminfo_scan(all, None, None) == meminfo_scan(all.skip(i as int), total, available),
        decreases ls.len() - i,
    {
        let line = &ls[i];
        assert(all.skip(i as int)[0] == line@);
        assert(all.skip(i as int).drop_first() =~= all.skip(i + 1));
        if text::starts_with(line, &total_name) {
            let rest = text::slice_of(line, total_name.len(), line.len());
            assert(rest@ =~= line@.skip("MemTotal:"@.len() as int));
            match parse_kb(&rest) {
                Ok(x) => {
                    total = Some(x);
                },
                Err(e) => {
                    return Err(e);
                },
            }
        } else if text::starts_with(line, &avail_name) {
            let rest = text::slice_of(line, avail_name.len(), line.len());
            assert(rest@ =~= line@.skip("MemAvailable:"@.len() as int));
            match parse_kb(&rest) {
                Ok(x) => {
                    available = Some(x);
                },
                Err(e) => {
                    return Err(e);
                },
            }
        }
        i = i + 1;
    }
    assert(all.skip(i as int) =~= Seq::<Seq<char>>::empty());
    match total {
        None => Err(MeminfoError::MissingTotal),
        Some(t) => match available {
            None => Err(MeminfoError::MissingAvailable),
            Some(a) => Ok((t, a)),
        },
    }
}

/// Memory is `High` when less than a tenth of it is available
/// (`available * 10 < total`, the product saturating at `u64::MAX`).
pub open spec fn mem_level_of(total_kb: u64, available_kb: u64) -> MemLevel {
    let scaled = if available_kb * 10 > u64::MAX {
        u64::MAX as int
    } else {
        available_kb * 10
    };
    if scaled < total_kb {
        MemLevel::High
    } else {
        MemLevel::Normal
    }
}

pub fn mem_level(total_kb: u64, available_kb: u64) -> (m: MemLevel)
    ensures
        m == mem_level_of(total_kb, available_kb),
{
    let scaled = match available_kb.checked_mul(10) {
        Some(x) => x,
        None => u64::MAX,
    };
    if scaled < total_kb {
        MemLevel::High
    } else {
        MemLevel::Normal
    }
}

} // verus!
