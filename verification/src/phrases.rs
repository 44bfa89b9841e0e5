//! The phrase dictionary: groups of phrases guarded by conditions on the time
//! of day, the weekday, the date and the uptime, and the choice of a phrase
//! for a moment.

use vstd::prelude::*;
use crate::text;
use crate::system::{CpuLevel, MemLevel};
use crate::llm;
use crate::scheduler;

verus! {

#[derive(Clone, Copy, PartialEq, Eq, Debug, Structural)]
pub enum Weekday {
    Mon,
    Tue,
    Wed,
    Thu,
    Fri,
    Sat,
    Sun,
}

/// The present state that conditions are judged against.
#[derive(Clone, Copy, PartialEq, Eq, Debug, Structural)]
pub struct Snapshot {
    pub hour: u32,
    pub weekday: Weekday,
    pub month: u32,
    pub day: u32,
    /// Seconds since the mascot started.
    pub uptime_secs: u64,
    pub cpu: CpuLevel,
    pub mem: MemLevel,
}

#[derive(Clone, Copy, PartialEq, Eq, Debug, Structural)]
pub enum TimeBand {
    Morning,
    Daytime,
    Evening,
    Night,
}

#[derive(Clone, Copy, PartialEq, Eq, Debug, Structural)]
pub struct MonthDay {
    pub month: u32,
    pub day: u32,
}

/// Why a phrase dictionary was refused.
#[derive(Clone, Copy, PartialEq, Eq, Debug, Structural)]
pub enum PhraseError {
    /// Top-level `phrases` and `[[group]]` both present.
    MixedFormats,
    /// No phrase at all.
    NoPhrases,
    /// A group with an empty `phrases` list.
    EmptyGroup,
    /// `uptime_hours = 0`.
    ZeroUptime,
    /// A `time` value other than morning / daytime / evening / night.
    UnknownTimeBand,
    /// A `days` value other than mon ... sun.
    UnknownWeekday,
    /// A `dates` value without a `-`.
    DateWithoutDash,
    /// A `dates` value whose month or day is not two ASCII digits.
    DateNotTwoDigits,
    /// A `dates` value with month outside 01-12 or day outside 01-31.
    DateOutOfRange,
    /// A `cpu` value other than idle / normal / high.
    UnknownCpuLevel,
    /// A `mem` value other than normal / high.
    UnknownMemLevel,
    /// An `event` other than boot / quit / chime.
    UnknownEvent,
}

/// The moments an event group speaks at, instead of the regular phrases.
#[derive(Clone, Copy, PartialEq, Eq, Debug, Structural)]
pub enum EventKind {
    Boot,
    Quit,
    Chime,
}

impl EventKind {
    pub open spec fn name(self) -> Seq<char> {
        match self {
            EventKind::Boot => "boot"@,
            EventKind::Quit => "quit"@,
            EventKind::Chime => "chime"@,
        }
    }

    /// The event named exactly `s`.
    pub fn parse(s: &str) -> (r: Result<EventKind, PhraseError>)
        ensures
            r matches Ok(e) ==> e.name() == s@,
            r is Err ==> r == Err::<EventKind, PhraseError>(PhraseError::UnknownEvent) && forall|
                e: EventKind,
            | e.name() != s@,
    {
        let v = text::chars_of(s);
        let boot = text::chars_of("boot");
        let quit = text::chars_of("quit");
        let chime = text::chars_of("chime");
        if text::same_chars(&v, &boot) {
            return Ok(EventKind::Boot);
        }
        if text::same_chars(&v, &quit) {
            return Ok(EventKind::Quit);
        }
        if text::same_chars(&v, &chime) {
            return Ok(EventKind::Chime);
        }
        assert forall|e: EventKind| e.name() != s@ by {
            match e {
                EventKind::Boot => {},
                EventKind::Quit => {},
                EventKind::Chime => {},
            }
        }
        Err(PhraseError::UnknownEvent)
    }
}

/// The CPU load named exactly `s` (`idle`, `normal`, `high`).
pub fn parse_cpu_level(s: &str) -> (r: Result<CpuLevel, PhraseError>)
    ensures
        r matches Ok(c) ==> llm::cpu_label(c) == s@,
        r is Err ==> r == Err::<CpuLevel, PhraseError>(PhraseError::UnknownCpuLevel) && forall|
            c: CpuLevel,
        | llm::cpu_label(c) != s@,
{
    let v = text::chars_of(s);
    if text::same_chars(&v, &text::chars_of("idle")) {
        return Ok(CpuLevel::Idle);
    }
    if text::same_chars(&v, &text::chars_of("normal")) {
        return Ok(CpuLevel::Normal);
    }
    if text::same_chars(&v, &text::chars_of("high")) {
        return Ok(CpuLevel::High);
    }
    assert forall|c: CpuLevel| llm::cpu_label(c) != s@ by {
        match c {
            CpuLevel::Idle => {},
            CpuLevel::Normal => {},
            CpuLevel::High => {},
        }
    }
    Err(PhraseError::UnknownCpuLevel)
}

/// The memory pressure named exactly `s` (`normal`, `high`).
pub fn parse_mem_level(s: &str) -> (r: Result<MemLevel, PhraseError>)
    ensures
        r matches Ok(m) ==> llm::mem_label(m) == s@,
        r is Err ==> r == Err::<MemLevel, PhraseError>(PhraseError::UnknownMemLevel) && forall|
            m: MemLevel,
        | llm::mem_label(m) != s@,
{
    let v = text::chars_of(s);
    if text::same_chars(&v, &text::chars_of("normal")) {
        return Ok(MemLevel::Normal);
    }
    if text::same_chars(&v, &text::chars_of("high")) {
        return Ok(MemLevel::High);
    }
    assert forall|m: MemLevel| llm::mem_label(m) != s@ by {
        match m {
            MemLevel::Normal => {},
            MemLevel::High => {},
        }
    }
    Err(PhraseError::UnknownMemLevel)
}

impl TimeBand {
    /// The hours of the day a band covers: morning 5-10, daytime 11-16,
    /// evening 17-21, night 22-4.
    pub open spec fn covers(self, hour: int) -> bool {
        match self {
            TimeBand::Morning => 5 <= hour < 11,
            TimeBand::Daytime => 11 <= hour < 17,
            TimeBand::Evening => 17 <= hour < 22,
            TimeBand::Night => hour >= 22 || hour < 5,
        }
    }

    pub open spec fn name(self) -> Seq<char> {
        match self {
            TimeBand::Morning => "morning"@,
            TimeBand::Daytime => "daytime"@,
            TimeBand::Evening => "evening"@,
            TimeBand::Night => "night"@,
        }
    }

    pub fn contains(self, hour: u32) -> (b: bool)
        ensures
            b == self.covers(hour as int),
    {
        match self {
            TimeBand::Morning => 5 <= hour && hour < 11,
            TimeBand::Daytime => 11 <= hour && hour < 17,
            TimeBand::Evening => 17 <= hour && hour < 22,
            TimeBand::Night => hour >= 22 || hour < 5,
        }
    }

    /// The band named exactly `s` (lower case).
    pub fn parse(s: &str) -> (r: Result<TimeBand, PhraseError>)
        ensures
            r matches Ok(b) ==> b.name() == s@,
            r is Err ==> r == Err::<TimeBand, PhraseError>(PhraseError::UnknownTimeBand)
                && forall|b: TimeBand| b.name() != s@,
    {
        let v = text::chars_of(s);
        let bands = [TimeBand::Morning, TimeBand::Daytime, TimeBand::Evening, TimeBand::Night];
        let names = ["morning", "daytime", "evening", "night"];
        let mut i: usize = 0;
        while i < 4
            invariant
                0 <= i <= 4,
                v@ == s@,
                bands@ == seq![TimeBand::Morning, TimeBand::Daytime, TimeBand::Evening, TimeBand::Night],
                names@ == seq!["morning", "daytime", "evening", "night"],
                forall|j: int| 0 <= j < i ==> (#[trigger] bands@[j]).name() != s@,
            decreases 4 - i,
        {
            let n = text::chars_of(names[i]);
            assert(names@[i as int]@ == bands@[i as int].name());
            if text::same_chars(&v, &n) {
                return Ok(bands[i]);
            }
            i = i + 1;
        }
        assert forall|b: TimeBand| b.name() != s@ by {
            match b {
                TimeBand::Morning => assert(bands@[0] == b),
                TimeBand::Daytime => assert(bands@[1] == b),
                TimeBand::Evening => assert(bands@[2] == b),
                TimeBand::Night => assert(bands@[3] == b),
            }
        }
        Err(PhraseError::UnknownTimeBand)
    }
}

/// The band an hour of the day falls in.
pub open spec fn band_of(hour: int) -> TimeBand {
    if 5 <= hour < 11 {
        TimeBand::Morning
    } else if 11 <= hour < 17 {
        TimeBand::Daytime
    } else if 17 <= hour < 22 {
        TimeBand::Evening
    } else {
        TimeBand::Night
    }
}

/// The name of the band an hour falls in.
pub fn time_band_name(hour: u32) -> (s: &'static str)
    ensures
        s@ == band_of(hour as int).name(),
        band_of(hour as int).covers(hour as int),
{
    if 5 <= hour && hour < 11 {
        "morning"
    } else if 11 <= hour && hour < 17 {
        "daytime"
    } else if 17 <= hour && hour < 22 {
        "evening"
    } else {
        "night"
    }
}

impl Weekday {
    pub open spec fn name(self) -> Seq<char> {
        match self {
            Weekday::Mon => "mon"@,
            Weekday::Tue => "tue"@,
            Weekday::Wed => "wed"@,
            Weekday::Thu => "thu"@,
            Weekday::Fri => "fri"@,
            Weekday::Sat => "sat"@,
            Weekday::Sun => "sun"@,
        }
    }
}

/// The weekday's three-letter lower-case name.
pub fn weekday_name(w: Weekday) -> (s: &'static str)
    ensures
        s@ == w.name(),
{
    match w {
        Weekday::Mon => "mon",
        Weekday::Tue => "tue",
        Weekday::Wed => "wed",
        Weekday::Thu => "thu",
        Weekday::Fri => "fri",
        Weekday::Sat => "sat",
        Weekday::Sun => "sun",
    }
}

/// The weekday named exactly `s` (`mon` ... `sun`).
pub fn parse_weekday(s: &str) -> (r: Result<Weekday, PhraseError>)
    ensures
        r matches Ok(w) ==> w.name() == s@,
        r is Err ==> r == Err::<Weekday, PhraseError>(PhraseError::UnknownWeekday)
            && forall|w: Weekday| w.name() != s@,
{
    let v = text::chars_of(s);
    let days = [
        Weekday::Mon,
        Weekday::Tue,
        Weekday::Wed,
        Weekday::Thu,
        Weekday::Fri,
        Weekday::Sat,
        Weekday::Sun,
    ];
    let mut i: usize = 0;
    while i < 7
        invariant
            0 <= i <= 7,
            v@ == s@,
            days@ == seq![
                Weekday::Mon,
                Weekday::Tue,
                Weekday::Wed,
                Weekday::Thu,
                Weekday::Fri,
                Weekday::Sat,
                Weekday::Sun,
            ],
            forall|j: int| 0 <= j < i ==> (#[trigger] days@[j]).name() != s@,
        decreases 7 - i,
    {
        let n = text::chars_of(weekday_name(days[i]));
        if text::same_chars(&v, &n) {
            return Ok(days[i]);
        }
        i = i + 1;
    }
    assert forall|w: Weekday| w.name() != s@ by {
        match w {
            Weekday::Mon => assert(days@[0] == w),
            Weekday::Tue => assert(days@[1] == w),
            Weekday::Wed => assert(days@[2] == w),
            Weekday::Thu => assert(days@[3] == w),
            Weekday::Fri => assert(days@[4] == w),
            Weekday::Sat => assert(days@[5] == w),
            Weekday::Sun => assert(days@[6] == w),
        }
    }
    Err(PhraseError::UnknownWeekday)
}

/// What an `MM-DD` date condition means.
pub open spec fn month_day_outcome(s: Seq<char>) -> Result<MonthDay, PhraseError> {
    match text::find_char(s, '-') {
        None => Err(PhraseError::DateWithoutDash),
        Some(k) => {
            let m = s.take(k);
            let d = s.skip(k + 1);
            if m.len() != 2 || d.len() != 2 || !text::all_digits(m) || !text::all_digits(d) {
                Err(PhraseError::DateNotTwoDigits)
            } else {
                let month = text::digits_value(m);
                let day = text::digits_value(d);
                if !(1 <= month <= 12) || !(1 <= day <= 31) {
                    Err(PhraseError::DateOutOfRange)
                } else {
                    Ok(MonthDay { month: month as u32, day: day as u32 })
                }
            }
        }
    }
}

impl MonthDay {
    /// Parses a zero-padded `MM-DD`, month 01-12 and day 01-31.
    pub fn parse(s: &str) -> (r: Result<MonthDay, PhraseError>)
        ensures
            r == month_day_outcome(s@),
    {
        let v = text::chars_of(s);
        let k = match text::position_of(&v, '-') {
            None => {
                return Err(PhraseError::DateWithoutDash);
            },
            Some(k) => k,
        };
        let m = text::slice_of(&v, 0, k);
        let d = text::slice_of(&v, k + 1, v.len());
        assert(m@ =~= v@.take(k as int));
        assert(d@ =~= v@.skip(k + 1));
        if m.len() != 2 || d.len() != 2 || !text::all_ascii_digits(&m) || !text::all_ascii_digits(
            &d,
        ) {
            return Err(PhraseError::DateNotTwoDigits);
        }
        proof {
            lemma_two_digits_small(m@);
            lemma_two_digits_small(d@);
        }
        let month = match text::digits_to_u64(&m) {
            Some(x) => x,
            None => {
                return Err(PhraseError::DateNotTwoDigits);
            },
        };
        let day = match text::digits_to_u64(&d) {
            Some(x) => x,
            None => {
                return Err(PhraseError::DateNotTwoDigits);
            },
        };
        if !(1 <= month && month <= 12) || !(1 <= day && day <= 31) {
            return Err(PhraseError::DateOutOfRange);
        }
        Ok(MonthDay { month: month as u32, day: day as u32 })
    }
}

pub proof fn lemma_two_digits_small(s: Seq<char>)
    requires
        s.len() == 2,
        text::all_digits(s),
    ensures
        text::digits_value(s) <= 99,
{
    assert(text::is_digit(s[0]));
    assert(text::is_digit(s[1]));
    assert(s.drop_last().drop_last() =~= Seq::<char>::empty());
    assert(s.drop_last().last() == s[0]);
    assert(s.last() == s[1]);
    reveal_with_fuel(text::digits_value, 3);
    assert(text::digits_value(s.drop_last()) <= 9);
}

/// A phrase group as the dictionary file writes it, before its conditions
/// are checked.
pub struct GroupRaw {
    pub time: Option<Vec<String>>,
    pub days: Option<Vec<String>>,
    pub dates: Option<Vec<String>>,
    pub cpu: Option<Vec<String>>,
    pub mem: Option<Vec<String>>,
    pub uptime_hours: Option<u64>,
    pub event: Option<String>,
    pub face: Option<String>,
    pub phrases: Vec<String>,
}

/// The dictionary file: either a legacy top-level `phrases` list or `[[group]]`s.
pub struct PhrasesFile {
    pub phrases: Option<Vec<String>>,
    pub group: Vec<GroupRaw>,
}

/// A checked phrase group. A condition that is `None` always holds; within
/// a list any entry may match; across kinds all must hold. A group with an
/// `event` speaks only at that event; `face` is the expression shown with
/// its phrases.
pub struct Group {
    pub time: Option<Vec<TimeBand>>,
    pub days: Option<Vec<Weekday>>,
    pub dates: Option<Vec<MonthDay>>,
    pub cpu: Option<Vec<CpuLevel>>,
    pub mem: Option<Vec<MemLevel>>,
    pub uptime_hours: Option<u64>,
    pub event: Option<EventKind>,
    pub face: Option<String>,
    pub phrases: Vec<String>,
}

impl Group {
    pub open spec fn time_ok(&self, now: Snapshot) -> bool {
        match self.time {
            None => true,
            Some(v) => exists|i: int| 0 <= i < v@.len() && (#[trigger] v@[i]).covers(now.hour as int),
        }
    }

    pub open spec fn days_ok(&self, now: Snapshot) -> bool {
        match self.days {
            None => true,
            Some(v) => exists|i: int| 0 <= i < v@.len() && #[trigger] v@[i] == now.weekday,
        }
    }

    pub open spec fn dates_ok(&self, now: Snapshot) -> bool {
        match self.dates {
            None => true,
            Some(v) => exists|i: int|
                0 <= i < v@.len() && (#[trigger] v@[i]).month == now.month && v@[i].day == now.day,
        }
    }

    /// `uptime >= hours * 3600 s`, the product saturating at `u64::MAX`.
    pub open spec fn uptime_ok(&self, now: Snapshot) -> bool {
        match self.uptime_hours {
            None => true,
            Some(h) => now.uptime_secs >= (if h * 3600 > u64::MAX {
                u64::MAX as int
            } else {
                h * 3600
            }),
        }
    }

    pub open spec fn cpu_ok(&self, now: Snapshot) -> bool {
        match self.cpu {
            None => true,
            Some(v) => exists|i: int| 0 <= i < v@.len() && #[trigger] v@[i] == now.cpu,
        }
    }

    pub open spec fn mem_ok(&self, now: Snapshot) -> bool {
        match self.mem {
            None => true,
            Some(v) => exists|i: int| 0 <= i < v@.len() && #[trigger] v@[i] == now.mem,
        }
    }

    pub open spec fn holds_at(&self, now: Snapshot) -> bool {
        &&& self.time_ok(now)
        &&& self.days_ok(now)
        &&& self.dates_ok(now)
        &&& self.cpu_ok(now)
        &&& self.mem_ok(now)
        &&& self.uptime_ok(now)
    }

    /// Whether every condition of the group holds at `now`.
    pub fn matches(&self, now: &Snapshot) -> (b: bool)
        ensures
            b == self.holds_at(*now),
    {
        let t = match &self.time {
            None => true,
            Some(v) => {
                let mut found = false;
                let mut i: usize = 0;
                while i < v.len()
                    invariant
                        0 <= i <= v.len(),
                        found == exists|j: int| 0 <= j < i && (#[trigger] v@[j]).covers(now.hour as int),
                    decreases v.len() - i,
                {
                    if v[i].contains(now.hour) {
                        found = true;
                    }
                    i = i + 1;
                }
                found
            },
        };
        let d = match &self.days {
            None => true,
            Some(v) => {
                let mut found = false;
                let mut i: usize = 0;
                while i < v.len()
                    invariant
                        0 <= i <= v.len(),
                        found == exists|j: int| 0 <= j < i && #[trigger] v@[j] == now.weekday,
                    decreases v.len() - i,
                {
                    if v[i] == now.weekday {
                        found = true;
                    }
                    i = i + 1;
                }
                found
            },
        };
        let m = match &self.dates {
            None => true,
            Some(v) => {
                let mut found = false;
                let mut i: usize = 0;
                while i < v.len()
                    invariant
                        0 <= i <= v.len(),
                        found == exists|j: int|
                            0 <= j < i && (#[trigger] v@[j]).month == now.month && v@[j].day
                                == now.day,
                    decreases v.len() - i,
                {
                    if v[i].month == now.month && v[i].day == now.day {
                        found = true;
                    }
                    i = i + 1;
                }
                found
            },
        };
        let c = match &self.cpu {
            None => true,
            Some(v) => {
                let mut found = false;
                let mut i: usize = 0;
                while i < v.len()
                    invariant
                        0 <= i <= v.len(),
                        found == exists|j: int| 0 <= j < i && #[trigger] v@[j] == now.cpu,
                    decreases v.len() - i,
                {
                    if v[i] == now.cpu {
                        found = true;
                    }
                    i = i + 1;
                }
                found
            },
        };
        let r = match &self.mem {
            None => true,
            Some(v) => {
                let mut found = false;
                let mut i: usize = 0;
                while i < v.len()
                    invariant
                        0 <= i <= v.len(),
                        found == exists|j: int| 0 <= j < i && #[trigger] v@[j] == now.mem,
                    decreases v.len() - i,
                {
                    if v[i] == now.mem {
                        found = true;
                    }
                    i = i + 1;
                }
                found
            },
        };
        let u = match self.uptime_hours {
            None => true,
            Some(h) => {
                let need = match h.checked_mul(3600) {
                    Some(x) => x,
                    None => u64::MAX,
                };
                now.uptime_secs >= need
            },
        };
        t && d && m && c && r && u
    }
}

} // verus!

verus! {

/// The first date condition that is not a valid `MM-DD`, by its fault.
pub open spec fn first_date_error(ss: Seq<Seq<char>>) -> Option<PhraseError>
    decreases ss.len(),
{
    if ss.len() == 0 {
        None
    } else {
        match month_day_outcome(ss[0]) {
            Err(e) => Some(e),
            Ok(_) => first_date_error(ss.drop_first()),
        }
    }
}

pub open spec fn is_band_name(s: Seq<char>) -> bool {
    exists|b: TimeBand| b.name() == s
}

pub open spec fn is_day_name(s: Seq<char>) -> bool {
    exists|w: Weekday| w.name() == s
}

pub open spec fn names_unknown_band(ss: Seq<Seq<char>>) -> bool {
    exists|i: int| 0 <= i < ss.len() && !is_band_name(#[trigger] ss[i])
}

pub open spec fn names_unknown_day(ss: Seq<Seq<char>>) -> bool {
    exists|i: int| 0 <= i < ss.len() && !is_day_name(#[trigger] ss[i])
}

pub open spec fn is_cpu_name(s: Seq<char>) -> bool {
    exists|c: CpuLevel| llm::cpu_label(c) == s
}

pub open spec fn is_mem_name(s: Seq<char>) -> bool {
    exists|m: MemLevel| llm::mem_label(m) == s
}

pub open spec fn is_event_name(s: Seq<char>) -> bool {
    exists|e: EventKind| e.name() == s
}

pub open spec fn names_unknown_cpu(ss: Seq<Seq<char>>) -> bool {
    exists|i: int| 0 <= i < ss.len() && !is_cpu_name(#[trigger] ss[i])
}

pub open spec fn names_unknown_mem(ss: Seq<Seq<char>>) -> bool {
    exists|i: int| 0 <= i < ss.len() && !is_mem_name(#[trigger] ss[i])
}

/// Why a raw group is refused, checking in order: empty phrases, zero uptime,
/// time bands, weekdays, dates, CPU loads, memory pressures, the event.
pub open spec fn group_error(raw: &GroupRaw) -> Option<PhraseError> {
    if raw.phrases@.len() == 0 {
        Some(PhraseError::EmptyGroup)
    } else if raw.uptime_hours == Some(0u64) {
        Some(PhraseError::ZeroUptime)
    } else if raw.time matches Some(v) && names_unknown_band(text::string_views(v@)) {
        Some(PhraseError::UnknownTimeBand)
    } else if raw.days matches Some(v) && names_unknown_day(text::string_views(v@)) {
        Some(PhraseError::UnknownWeekday)
    } else if raw.dates matches Some(v) && first_date_error(text::string_views(v@)) is Some {
        first_date_error(text::string_views(raw.dates->0@))
    } else if raw.cpu matches Some(v) && names_unknown_cpu(text::string_views(v@)) {
        Some(PhraseError::UnknownCpuLevel)
    } else if raw.mem matches Some(v) && names_unknown_mem(text::string_views(v@)) {
        Some(PhraseError::UnknownMemLevel)
    } else if raw.event matches Some(e) && !is_event_name(e@) {
        Some(PhraseError::UnknownEvent)
    } else {
        None
    }
}

/// `g` is what checking `raw` gives.
pub open spec fn checked_from(g: &Group, raw: &GroupRaw) -> bool {
    &&& g.phrases@ == raw.phrases@
    &&& g.uptime_hours == raw.uptime_hours
    &&& match (g.time, raw.time) {
        (None, None) => true,
        (Some(b), Some(n)) => b@.len() == n@.len() && forall|i: int|
            0 <= i < b@.len() ==> (#[trigger] b@[i]).name() == n@[i]@,
        _ => false,
    }
    &&& match (g.days, raw.days) {
        (None, None) => true,
        (Some(d), Some(n)) => d@.len() == n@.len() && forall|i: int|
            0 <= i < d@.len() ==> (#[trigger] d@[i]).name() == n@[i]@,
        _ => false,
    }
    &&& match (g.dates, raw.dates) {
        (None, None) => true,
        (Some(d), Some(n)) => d@.len() == n@.len() && forall|i: int|
            0 <= i < d@.len() ==> month_day_outcome(n@[i]@) == Ok::<MonthDay, PhraseError>(
                #[trigger] d@[i],
            ),
        _ => false,
    }
    &&& match (g.cpu, raw.cpu) {
        (None, None) => true,
        (Some(c), Some(n)) => c@.len() == n@.len() && forall|i: int|
            0 <= i < c@.len() ==> llm::cpu_label(#[trigger] c@[i]) == n@[i]@,
        _ => false,
    }
    &&& match (g.mem, raw.mem) {
        (None, None) => true,
        (Some(m), Some(n)) => m@.len() == n@.len() && forall|i: int|
            0 <= i < m@.len() ==> llm::mem_label(#[trigger] m@[i]) == n@[i]@,
        _ => false,
    }
    &&& match (g.event, raw.event) {
        (None, None) => true,
        (Some(e), Some(n)) => e.name() == n@,
        _ => false,
    }
    &&& g.face == raw.face
}

fn parse_cpus(names: &Vec<String>) -> (r: Result<Vec<CpuLevel>, PhraseError>)
    ensures
        match r {
            Ok(c) => c@.len() == names@.len() && !names_unknown_cpu(text::string_views(names@))
                && forall|i: int| 0 <= i < c@.len() ==> llm::cpu_label(#[trigger] c@[i]) == names@[i]@,
            Err(e) => e == PhraseError::UnknownCpuLevel && names_unknown_cpu(
                text::string_views(names@),
            ),
        },
{
    let mut out: Vec<CpuLevel> = Vec::new();
    let mut i: usize = 0;
    while i < names.len()
        invariant
            0 <= i <= names.len(),
            out@.len() == i,
            forall|j: int| 0 <= j < i ==> llm::cpu_label(#[trigger] out@[j]) == names@[j]@,
        decreases names.len() - i,
    {
        match parse_cpu_level(names[i].as_str()) {
            Ok(c) => {
                out.push(c);
            },
            Err(_) => {
                assert(text::string_views(names@)[i as int] == names@[i as int]@);
                return Err(PhraseError::UnknownCpuLevel);
            },
        }
        i = i + 1;
    }
    assert forall|k: int| 0 <= k < text::string_views(names@).len() implies is_cpu_name(
        #[trigger] text::string_views(names@)[k],
    ) by {
        assert(llm::cpu_label(out@[k]) == text::string_views(names@)[k]);
    }
    Ok(out)
}

fn parse_mems(names: &Vec<String>) -> (r: Result<Vec<MemLevel>, PhraseError>)
    ensures
        match r {
            Ok(m) => m@.len() == names@.len() && !names_unknown_mem(text::string_views(names@))
                && forall|i: int| 0 <= i < m@.len() ==> llm::mem_label(#[trigger] m@[i]) == names@[i]@,
            Err(e) => e == PhraseError::UnknownMemLevel && names_unknown_mem(
                text::string_views(names@),
            ),
        },
{
    let mut out: Vec<MemLevel> = Vec::new();
    let mut i: usize = 0;
    while i < names.len()
        invariant
            0 <= i <= names.len(),
            out@.len() == i,
            forall|j: int| 0 <= j < i ==> llm::mem_label(#[trigger] out@[j]) == names@[j]@,
        decreases names.len() - i,
    {
        match parse_mem_level(names[i].as_str()) {
            Ok(m) => {
                out.push(m);
            },
            Err(_) => {
                assert(text::string_views(names@)[i as int] == names@[i as int]@);
                return Err(PhraseError::UnknownMemLevel);
            },
        }
        i = i + 1;
    }
    assert forall|k: int| 0 <= k < text::string_views(names@).len() implies is_mem_name(
        #[trigger] text::string_views(names@)[k],
    ) by {
        assert(llm::mem_label(out@[k]) == text::string_views(names@)[k]);
    }
    Ok(out)
}

fn parse_bands(names: &Vec<String>) -> (r: Result<Vec<TimeBand>, PhraseError>)
    ensures
        match r {
            Ok(b) => b@.len() == names@.len() && !names_unknown_band(text::string_views(names@))
                && forall|i: int| 0 <= i < b@.len() ==> (#[trigger] b@[i]).name() == names@[i]@,
            Err(e) => e == PhraseError::UnknownTimeBand && names_unknown_band(
                text::string_views(names@),
            ),
        },
{
    let mut out: Vec<TimeBand> = Vec::new();
    let mut i: usize = 0;
    while i < names.len()
        invariant
            0 <= i <= names.len(),
            out@.len() == i,
            forall|j: int| 0 <= j < i ==> (#[trigger] out@[j]).name() == names@[j]@,
        decreases names.len() - i,
    {
        match TimeBand::parse(names[i].as_str()) {
            Ok(b) => {
                out.push(b);
            },
            Err(_) => {
                assert(text::string_views(names@)[i as int] == names@[i as int]@);
                return Err(PhraseError::UnknownTimeBand);
            },
        }
        i = i + 1;
    }
    assert forall|k: int| 0 <= k < text::string_views(names@).len() implies is_band_name(
        #[trigger] text::string_views(names@)[k],
    ) by {
        assert(out@[k].name() == text::string_views(names@)[k]);
    }
    Ok(out)
}

fn parse_days(names: &Vec<String>) -> (r: Result<Vec<Weekday>, PhraseError>)
    ensures
        match r {
            Ok(d) => d@.len() == names@.len() && !names_unknown_day(text::string_views(names@))
                && forall|i: int| 0 <= i < d@.len() ==> (#[trigger] d@[i]).name() == names@[i]@,
            Err(e) => e == PhraseError::UnknownWeekday && names_unknown_day(
                text::string_views(names@),
            ),
        },
{
    let mut out: Vec<Weekday> = Vec::new();
    let mut i: usize = 0;
    while i < names.len()
        invariant
            0 <= i <= names.len(),
            out@.len() == i,
            forall|j: int| 0 <= j < i ==> (#[trigger] out@[j]).name() == names@[j]@,
        decreases names.len() - i,
    {
        match parse_weekday(names[i].as_str()) {
            Ok(d) => {
                out.push(d);
            },
            Err(_) => {
                assert(text::string_views(names@)[i as int] == names@[i as int]@);
                return Err(PhraseError::UnknownWeekday);
            },
        }
        i = i + 1;
    }
    assert forall|k: int| 0 <= k < text::string_views(names@).len() implies is_day_name(
        #[trigger] text::string_views(names@)[k],
    ) by {
        assert(out@[k].name() == text::string_views(names@)[k]);
    }
    Ok(out)
}

fn parse_dates(names: &Vec<String>) -> (r: Result<Vec<MonthDay>, PhraseError>)
    ensures
        match r {
            Ok(d) => d@.len() == names@.len() && first_date_error(text::string_views(names@))
                is None && forall|i: int|
                0 <= i < d@.len() ==> month_day_outcome(names@[i]@) == Ok::<
                    MonthDay,
                    PhraseError,
                >(#[trigger] d@[i]),
            Err(e) => first_date_error(text::string_views(names@)) == Some(e),
        },
{
    let ghost all = text::string_views(names@);
    let mut out: Vec<MonthDay> = Vec::new();
    let mut i: usize = 0;
    assert(all.skip(0) =~= all);
    while i < names.len()
        invariant
            0 <= i <= names.len(),
            all == text::string_views(names@),
            out@.len() == i,
            first_date_error(all) == first_date_error(all.skip(i as int)),
            forall|j: int|
                0 <= j < i ==> month_day_outcome(names@[j]@) == Ok::<MonthDay, PhraseError>(
                    #[trigger] out@[j],
                ),
        decreases names.len() - i,
    {
        assert(all.skip(i as int)[0] == names@[i as int]@);
        assert(all.skip(i as int).drop_first() =~= all.skip(i + 1));
        match MonthDay::parse(names[i].as_str()) {
            Ok(d) => {
                out.push(d);
            },
            Err(e) => {
                return Err(e);
            },
        }
        i = i + 1;
    }
    assert(all.skip(i as int) =~= Seq::<Seq<char>>::empty());
    Ok(out)
}

impl GroupRaw {
    /// Checks the group's conditions and phrases.
    pub fn validate(self) -> (r: Result<Group, PhraseError>)
        ensures
            match r {
                Ok(g) => group_error(&self) is None && checked_from(&g, &self),
                Err(e) => group_error(&self) == Some(e),
            },
    {
        if self.phrases.len() == 0 {
            return Err(PhraseError::EmptyGroup);
        }
        if self.uptime_hours == Some(0u64) {
            return Err(PhraseError::ZeroUptime);
        }
        let time = match &self.time {
            None => None,
            Some(v) => match parse_bands(v) {
                Ok(b) => Some(b),
                Err(e) => {
                    return Err(e);
                },
            },
        };
        let days = match &self.days {
            None => None,
            Some(v) => match parse_days(v) {
                Ok(d) => Some(d),
                Err(e) => {
                    return Err(e);
                },
            },
        };
        let dates = match &self.dates {
            None => None,
            Some(v) => match parse_dates(v) {
                Ok(d) => Some(d),
                Err(e) => {
                    return Err(e);
                },
            },
        };
        let cpu = match &self.cpu {
            None => None,
            Some(v) => match parse_cpus(v) {
                Ok(c) => Some(c),
                Err(e) => {
                    return Err(e);
                },
            },
        };
        let mem = match &self.mem {
            None => None,
            Some(v) => match parse_mems(v) {
                Ok(m) => Some(m),
                Err(e) => {
                    return Err(e);
                },
            },
        };
        let event = match &self.event {
            None => None,
            Some(n) => match EventKind::parse(n.as_str()) {
                Ok(e) => Some(e),
                Err(e) => {
                    return Err(e);
                },
            },
        };
        let ghost raw = self;
        assert(group_error(&raw) is None);
        Group {
            time,
            days,
            dates,
            cpu,
            mem,
            uptime_hours: self.uptime_hours,
            event,
            face: self.face,
            phrases: self.phrases,
        }.into_ok()
    }
}

impl Group {
    fn into_ok(self) -> (r: Result<Group, PhraseError>)
        ensures
            r == Ok::<Group, PhraseError>(self),
    {
        Ok(self)
    }
}

} // verus!

verus! {

/// A candidate phrase and the expression of the group it comes from.
pub type Entry = (Seq<char>, Option<Seq<char>>);

pub open spec fn face_view(f: Option<String>) -> Option<Seq<char>> {
    match f {
        Some(s) => Some(s@),
        None => None,
    }
}

/// The candidates a group offers: each phrase with the group's expression.
pub open spec fn entries_of(g: Group) -> Seq<Entry> {
    Seq::new(g.phrases@.len(), |i: int| (g.phrases@[i]@, face_view(g.face)))
}

/// Whether a group speaks for `sel` at `now`: `sel` is `None` for the
/// regular phrases, or the event; the group's conditions must hold.
pub open spec fn speaks(g: Group, sel: Option<EventKind>, now: Snapshot) -> bool {
    g.event == sel && g.holds_at(now)
}

/// The candidates of the groups that speak for `sel` at `now`, group by group.
pub open spec fn matching_pool(gs: Seq<Group>, sel: Option<EventKind>, now: Snapshot) -> Seq<Entry>
    decreases gs.len(),
{
    if gs.len() == 0 {
        Seq::empty()
    } else {
        matching_pool(gs.drop_last(), sel, now) + (if speaks(gs.last(), sel, now) {
            entries_of(gs.last())
        } else {
            Seq::empty()
        })
    }
}

/// Every regular candidate (of the groups without an event), group by group.
pub open spec fn regular_entries(gs: Seq<Group>) -> Seq<Entry>
    decreases gs.len(),
{
    if gs.len() == 0 {
        Seq::empty()
    } else {
        regular_entries(gs.drop_last()) + (if gs.last().event is None {
            entries_of(gs.last())
        } else {
            Seq::empty()
        })
    }
}

/// The regular candidates at `now`: those of the groups without an event
/// whose conditions hold, or every regular phrase when none holds.
pub open spec fn pool_for(gs: Seq<Group>, now: Snapshot) -> Seq<Entry> {
    if matching_pool(gs, None, now).len() > 0 {
        matching_pool(gs, None, now)
    } else {
        regular_entries(gs)
    }
}

/// The candidates for an event at `now`: those of the groups of that event
/// whose conditions hold (possibly none).
pub open spec fn event_pool(gs: Seq<Group>, kind: EventKind, now: Snapshot) -> Seq<Entry> {
    matching_pool(gs, Some(kind), now)
}

/// The first raw group that is refused, by its fault.
pub open spec fn first_group_error(gs: Seq<GroupRaw>) -> Option<PhraseError>
    decreases gs.len(),
{
    if gs.len() == 0 {
        None
    } else {
        match group_error(&gs[0]) {
            Some(e) => Some(e),
            None => first_group_error(gs.drop_first()),
        }
    }
}

/// Some group is a regular one (has no event).
pub open spec fn has_regular(gs: Seq<GroupRaw>) -> bool {
    exists|i: int| 0 <= i < gs.len() && (#[trigger] gs[i]).event is None
}

/// Why a dictionary file is refused: both formats at once, no phrase at all,
/// the first refused group, or groups that all belong to events.
pub open spec fn book_error(file: &PhrasesFile) -> Option<PhraseError> {
    match file.phrases {
        Some(p) => if file.group@.len() > 0 {
            Some(PhraseError::MixedFormats)
        } else if p@.len() == 0 {
            Some(PhraseError::NoPhrases)
        } else {
            None
        },
        None => if file.group@.len() == 0 {
            Some(PhraseError::NoPhrases)
        } else if first_group_error(file.group@) is Some {
            first_group_error(file.group@)
        } else if !has_regular(file.group@) {
            Some(PhraseError::NoPhrases)
        } else {
            None
        },
    }
}

/// `gs` is what a dictionary file that is not refused gives: the legacy list
/// as one unconditional group, or each group checked in order.
pub open spec fn book_from(file: &PhrasesFile, gs: Seq<Group>) -> bool {
    match file.phrases {
        Some(p) => gs.len() == 1 && gs[0].time is None && gs[0].days is None && gs[0].dates is None
            && gs[0].cpu is None && gs[0].mem is None && gs[0].uptime_hours is None && gs[0].event
            is None && gs[0].face is None && gs[0].phrases@ == p@,
        None => gs.len() == file.group@.len() && forall|i: int|
            0 <= i < gs.len() ==> checked_from(&#[trigger] gs[i], &file.group@[i]),
    }
}

/// A dictionary with a regular group whose every group has a phrase always
/// has regular candidates.
pub proof fn lemma_regular_nonempty(gs: Seq<Group>)
    requires
        exists|i: int| 0 <= i < gs.len() && (#[trigger] gs[i]).event is None,
        forall|i: int| 0 <= i < gs.len() ==> (#[trigger] gs[i]).phrases@.len() > 0,
    ensures
        regular_entries(gs).len() > 0,
    decreases gs.len(),
{
    if gs.last().event is None {
        assert(gs.last() == gs[gs.len() - 1]);
        assert(entries_of(gs.last()).len() == gs.last().phrases@.len());
    } else {
        let t = gs.drop_last();
        let k = choose|i: int| 0 <= i < gs.len() && (#[trigger] gs[i]).event is None;
        assert(k != gs.len() - 1);
        assert(t[k] == gs[k]);
        assert forall|i: int| 0 <= i < t.len() implies (#[trigger] t[i]).phrases@.len() > 0 by {
            assert(t[i] == gs[i]);
        }
        lemma_regular_nonempty(t);
    }
}

/// The candidates at the given (group, phrase) positions.
pub open spec fn positions_view(gs: Seq<Group>, pos: Seq<(usize, usize)>) -> Seq<Entry> {
    Seq::new(
        pos.len(),
        |k: int| (gs[pos[k].0 as int].phrases@[pos[k].1 as int]@, face_view(gs[pos[k].0 as int].face)),
    )
}

pub proof fn lemma_positions_push(gs: Seq<Group>, pos: Seq<(usize, usize)>, p: (usize, usize))
    ensures
        positions_view(gs, pos.push(p)) == positions_view(gs, pos).push(
            (gs[p.0 as int].phrases@[p.1 as int]@, face_view(gs[p.0 as int].face)),
        ),
{
    assert(positions_view(gs, pos.push(p)) =~= positions_view(gs, pos).push(
        (gs[p.0 as int].phrases@[p.1 as int]@, face_view(gs[p.0 as int].face)),
    ));
}

pub open spec fn valid_positions(gs: Seq<Group>, pos: Seq<(usize, usize)>) -> bool {
    forall|k: int|
        0 <= k < pos.len() ==> (#[trigger] pos[k]).0 < gs.len() && pos[k].1 < gs[pos[k].0 as int].phrases@.len()
}

/// The phrase dictionary. Never without a regular candidate: some group has
/// no event, and every group has at least one phrase.
pub struct PhraseBook {
    groups: Vec<Group>,
}

impl PhraseBook {
    #[verifier::type_invariant]
    spec fn well_formed(self) -> bool {
        &&& exists|i: int| 0 <= i < self.groups@.len() && (#[trigger] self.groups@[i]).event is None
        &&& forall|i: int|
            0 <= i < self.groups@.len() ==> (#[trigger] self.groups@[i]).phrases@.len() > 0
    }

    pub closed spec fn group_seq(&self) -> Seq<Group> {
        self.groups@
    }

    /// The checked groups, in file order.
    pub fn groups(&self) -> (g: &Vec<Group>)
        ensures
            g@ == self.group_seq(),
    {
        &self.groups
    }

    /// Checks a dictionary file: exactly one of the legacy top-level list and
    /// `[[group]]`s, at least one phrase, every group valid, and some group
    /// that is not for an event.
    pub fn from_file(file: PhrasesFile) -> (r: Result<PhraseBook, PhraseError>)
        ensures
            match r {
                Ok(book) => book_error(&file) is None && book_from(&file, book.group_seq()),
                Err(e) => book_error(&file) == Some(e),
            },
    {
        let ghost f = file;
        let PhrasesFile { phrases, group } = file;
        match phrases {
            Some(p) => {
                if group.len() > 0 {
                    return Err(PhraseError::MixedFormats);
                }
                if p.len() == 0 {
                    return Err(PhraseError::NoPhrases);
                }
                let g = Group {
                    time: None,
                    days: None,
                    dates: None,
                    cpu: None,
                    mem: None,
                    uptime_hours: None,
                    event: None,
                    face: None,
                    phrases: p,
                };
                let mut groups: Vec<Group> = Vec::new();
                groups.push(g);
                assert(groups@[0].event is None);
                Ok(PhraseBook { groups })
            },
            None => {
                if group.len() == 0 {
                    return Err(PhraseError::NoPhrases);
                }
                let ghost raws0 = group@;
                let mut raws = group;
                let mut out: Vec<Group> = Vec::new();
                let mut regular = false;
                let n = raws.len();
                assert(raws0.skip(0) =~= raws0);
                while raws.len() > 0
                    invariant
                        raws0 == file.group@,
                        file.phrases is None,
                        raws0.len() == n,
                        n > 0,
                        raws@.len() + out@.len() == n,
                        raws@ == raws0.skip(out@.len() as int),
                        first_group_error(raws0) == first_group_error(raws@),
                        forall|j: int|
                            0 <= j < out@.len() ==> checked_from(&#[trigger] out@[j], &raws0[j]),
                        forall|j: int| 0 <= j < out@.len() ==> (#[trigger] out@[j]).phrases@.len() > 0,
                        regular == exists|j: int| 0 <= j < out@.len() && (#[trigger] out@[j]).event is None,
                    decreases raws@.len(),
                {
                    let ghost before = raws@;
                    let raw = raws.remove(0);
                    assert(raws@ =~= before.drop_first());
                    assert(raw == raws0[out@.len() as int]);
                    assert(raws@ =~= raws0.skip(out@.len() as int + 1));
                    match raw.validate() {
                        Ok(g) => {
                            let ghost was = regular;
                            let ghost old_out = out@;
                            if g.event.is_none() {
                                regular = true;
                            }
                            let ghost k = out@.len();
                            out.push(g);
                            proof {
                                assert(out@[k as int] == g);
                                assert forall|j: int| 0 <= j < k implies out@[j] == old_out[j] by {}
                                if g.event is None {
                                    assert(out@[k as int].event is None);
                                } else {
                                    if exists|j: int| 0 <= j < out@.len() && (#[trigger] out@[j]).event is None {
                                        let j = choose|j: int| 0 <= j < out@.len() && (#[trigger] out@[j]).event is None;
                                        assert(j < k);
                                        assert(old_out[j].event is None);
                                    }
                                    if was {
                                        let j = choose|j: int| 0 <= j < old_out.len() && (#[trigger] old_out[j]).event is None;
                                        assert(out@[j].event is None);
                                    }
                                }
                            }
                        },
                        Err(e) => {
                            assert(before[0] == raw);
                            assert(first_group_error(before) == Some(e));
                            return Err(e);
                        },
                    }
                }
                assert(raws@ =~= Seq::<GroupRaw>::empty());
                proof {
                    assert forall|j: int| 0 <= j < out@.len() implies ((#[trigger] out@[j]).event is None
                        <==> raws0[j].event is None) by {
                        assert(checked_from(&out@[j], &raws0[j]));
                    }
                }
                if !regular {
                    proof {
                        if has_regular(raws0) {
                            let j = choose|j: int| 0 <= j < raws0.len() && (#[trigger] raws0[j]).event is None;
                            assert(out@[j].event is None);
                        }
                    }
                    return Err(PhraseError::NoPhrases);
                }
                proof {
                    let j = choose|j: int| 0 <= j < out@.len() && (#[trigger] out@[j]).event is None;
                    assert(raws0[j].event is None);
                    assert(has_regular(raws0));
                }
                Ok(PhraseBook { groups: out })
            },
        }
    }

    /// The positions of the candidates of the groups that speak for `sel`
    /// at `now`, and of every regular candidate.
    fn positions(&self, sel: Option<EventKind>, now: &Snapshot) -> (r: (Vec<(usize, usize)>, Vec<(usize, usize)>))
        ensures
            valid_positions(self.groups@, r.0@),
            valid_positions(self.groups@, r.1@),
            positions_view(self.groups@, r.0@) == matching_pool(self.groups@, sel, *now),
            positions_view(self.groups@, r.1@) == regular_entries(self.groups@),
    {
        let gs = &self.groups;
        let mut matching: Vec<(usize, usize)> = Vec::new();
        let mut all: Vec<(usize, usize)> = Vec::new();
        let mut i: usize = 0;
        while i < gs.len()
            invariant
                0 <= i <= gs.len(),
                valid_positions(gs@, matching@),
                valid_positions(gs@, all@),
                positions_view(gs@, matching@) == matching_pool(gs@.take(i as int), sel, *now),
                positions_view(gs@, all@) == regular_entries(gs@.take(i as int)),
            decreases gs.len() - i,
        {
            let g = &gs[i];
            let holds = g.event == sel && g.matches(now);
            let regular = g.event.is_none();
            assert(gs@.take(i + 1).drop_last() =~= gs@.take(i as int));
            assert(gs@.take(i + 1).last() == gs@[i as int]);
            let ghost m0 = matching_pool(gs@.take(i as int), sel, *now);
            let ghost a0 = regular_entries(gs@.take(i as int));
            let mut j: usize = 0;
            while j < g.phrases.len()
                invariant
                    0 <= i < gs.len(),
                    g == gs@[i as int],
                    holds == speaks(*g, sel, *now),
                    regular == (g.event is None),
                    0 <= j <= g.phrases.len(),
                    valid_positions(gs@, matching@),
                    valid_positions(gs@, all@),
                    positions_view(gs@, matching@) == m0 + (if holds {
                        entries_of(*g).take(j as int)
                    } else {
                        Seq::empty()
                    }),
                    positions_view(gs@, all@) == a0 + (if regular {
                        entries_of(*g).take(j as int)
                    } else {
                        Seq::empty()
                    }),
                decreases g.phrases.len() - j,
            {
                let ghost mold = matching@;
                let ghost aold = all@;
                proof {
                    lemma_positions_push(gs@, mold, (i, j));
                    lemma_positions_push(gs@, aold, (i, j));
                    assert(entries_of(*g).take(j + 1) =~= entries_of(*g).take(j as int).push(
                        (g.phrases@[j as int]@, face_view(g.face)),
                    ));
                }
                if holds {
                    matching.push((i, j));
                }
                if regular {
                    all.push((i, j));
                }
                assert(positions_view(gs@, all@) =~= a0 + (if regular {
                    entries_of(*g).take(j + 1)
                } else {
                    Seq::empty()
                }));
                assert(positions_view(gs@, matching@) =~= m0 + (if holds {
                    entries_of(*g).take(j + 1)
                } else {
                    Seq::empty()
                }));
                j = j + 1;
            }
            assert(entries_of(*g).take(g.phrases@.len() as int) =~= entries_of(*g));
            i = i + 1;
        }
        assert(gs@.take(gs@.len() as int) =~= gs@);
        (matching, all)
    }

    /// The regular candidates at `now` as (group, phrase) positions.
    fn pool_positions(&self, now: &Snapshot) -> (r: Vec<(usize, usize)>)
        ensures
            valid_positions(self.groups@, r@),
            positions_view(self.groups@, r@) == pool_for(self.groups@, *now),
    {
        let (matching, all) = self.positions(None, now);
        if matching.len() > 0 {
            matching
        } else {
            all
        }
    }

    /// How many regular candidates there are at `now` (never none).
    pub fn pool_size(&self, now: &Snapshot) -> (n: usize)
        ensures
            n == pool_for(self.group_seq(), *now).len(),
            n > 0,
    {
        proof {
            use_type_invariant(self);
            lemma_regular_nonempty(self.groups@);
        }
        let pos = self.pool_positions(now);
        pos.len()
    }

    fn entry_at(&self, pos: &Vec<(usize, usize)>, k: usize) -> (r: (&str, Option<&str>))
        requires
            valid_positions(self.groups@, pos@),
            k < pos@.len(),
        ensures
            (r.0@, match r.1 {
                Some(f) => Some(f@),
                None => None,
            }) == positions_view(self.groups@, pos@)[k as int],
    {
        let (g, p) = pos[k];
        let group = &self.groups[g];
        let face = match &group.face {
            Some(f) => Some(f.as_str()),
            None => None,
        };
        (group.phrases[p].as_str(), face)
    }

    /// The regular candidate at position `index` at `now`, with its
    /// expression.
    pub fn pick_at(&self, now: &Snapshot, index: usize) -> (r: (&str, Option<&str>))
        requires
            index < pool_for(self.group_seq(), *now).len(),
        ensures
            (r.0@, match r.1 {
                Some(f) => Some(f@),
                None => None,
            }) == pool_for(self.group_seq(), *now)[index as int],
    {
        let pos = self.pool_positions(now);
        self.entry_at(&pos, index)
    }

    /// A regular phrase chosen at random, with its expression: among those
    /// of the groups without an event whose conditions hold, or among all
    /// regular phrases when none holds.
    pub fn pick(&self, now: &Snapshot) -> (r: (&str, Option<&str>))
        ensures
            pool_for(self.group_seq(), *now).contains(
                (
                    r.0@,
                    match r.1 {
                        Some(f) => Some(f@),
                        None => None,
                    },
                ),
            ),
    {
        proof {
            use_type_invariant(self);
            lemma_regular_nonempty(self.groups@);
        }
        let pos = self.pool_positions(now);
        let k = scheduler::random_in(0, (pos.len() - 1) as u64) as usize;
        let r = self.entry_at(&pos, k);
        assert(pool_for(self.group_seq(), *now)[k as int] == (r.0@, match r.1 {
            Some(f) => Some(f@),
            None => None,
        }));
        r
    }

    /// The candidate for the event `kind` at position `index` at `now`, with
    /// its expression.
    pub fn pick_event_at(&self, kind: EventKind, now: &Snapshot, index: usize) -> (r: (
        &str,
        Option<&str>,
    ))
        requires
            index < event_pool(self.group_seq(), kind, *now).len(),
        ensures
            (r.0@, match r.1 {
                Some(f) => Some(f@),
                None => None,
            }) == event_pool(self.group_seq(), kind, *now)[index as int],
    {
        let (pos, _) = self.positions(Some(kind), now);
        self.entry_at(&pos, index)
    }

    /// A phrase for the event `kind`, chosen at random among those of the
    /// groups of that event whose conditions hold, with its expression;
    /// `None` where there is none.
    pub fn pick_event(&self, kind: EventKind, now: &Snapshot) -> (r: Option<(&str, Option<&str>)>)
        ensures
            r is None <==> event_pool(self.group_seq(), kind, *now).len() == 0,
            r matches Some(x) ==> event_pool(self.group_seq(), kind, *now).contains(
                (
                    x.0@,
                    match x.1 {
                        Some(f) => Some(f@),
                        None => None,
                    },
                ),
            ),
    {
        let (pos, _) = self.positions(Some(kind), now);
        if pos.len() == 0 {
            return None;
        }
        let k = scheduler::random_in(0, (pos.len() - 1) as u64) as usize;
        let r = self.entry_at(&pos, k);
        assert(event_pool(self.group_seq(), kind, *now)[k as int] == (r.0@, match r.1 {
            Some(f) => Some(f@),
            None => None,
        }));
        Some(r)
    }
}

/// `s` with each `pat` (taken from the left, without overlaps) made `rep`.
pub open spec fn replaced(s: Seq<char>, pat: Seq<char>, rep: Seq<char>) -> Seq<char>
    decreases s.len(),
{
    if s.len() == 0 || pat.len() == 0 {
        s
    } else if text::has_prefix(s, pat) {
        rep + replaced(s.skip(pat.len() as int), pat, rep)
    } else {
        seq![s[0]] + replaced(s.drop_first(), pat, rep)
    }
}

/// A phrase as it is spoken: each `{hour}` becomes the hour of the day.
pub open spec fn spoken_text(phrase: Seq<char>, now: Snapshot) -> Seq<char> {
    replaced(phrase, "{hour}"@, text::decimal(now.hour as nat))
}

proof fn lemma_replaced_step(s: Seq<char>, pat: Seq<char>, rep: Seq<char>, i: int)
    requires
        0 <= i < s.len(),
        pat.len() > 0,
    ensures
        replaced(s.skip(i), pat, rep) == (if text::has_prefix(s.skip(i), pat) {
            rep + replaced(s.skip(i + pat.len()), pat, rep)
        } else {
            seq![s[i]] + replaced(s.skip(i + 1), pat, rep)
        }),
{
    let t = s.skip(i);
    assert(t.drop_first() =~= s.skip(i + 1));
    if text::has_prefix(t, pat) {
        assert(t.skip(pat.len() as int) =~= s.skip(i + pat.len()));
    }
}

/// The phrase with each `{hour}` replaced by the hour (0-23) of `now`.
pub fn substitute_placeholders(phrase: &str, now: &Snapshot) -> (r: String)
    ensures
        r@ == spoken_text(phrase@, *now),
{
    let v = text::chars_of(phrase);
    let pat = text::chars_of("{hour}");
    let mut rep: Vec<char> = Vec::new();
    text::push_decimal(&mut rep, now.hour as u64);
    proof {
        reveal_strlit("{hour}");
    }
    let mut out: Vec<char> = Vec::new();
    let mut i: usize = 0;
    assert(v@.skip(0) =~= v@);
    while i < v.len()
        invariant
            0 <= i <= v.len(),
            pat@ == "{hour}"@,
            pat@.len() == 6,
            out@ + replaced(v@.skip(i as int), pat@, rep@) == replaced(v@, pat@, rep@),
        decreases v.len() - i,
    {
        let rest = text::slice_of(&v, i, v.len());
        assert(rest@ =~= v@.skip(i as int));
        proof {
            lemma_replaced_step(v@, pat@, rep@, i as int);
        }
        if text::starts_with(&rest, &pat) {
            let ghost o = out@;
            text::push_all(&mut out, &rep);
            assert(out@ + replaced(v@.skip(i + 6), pat@, rep@) =~= o + (rep@ + replaced(
                v@.skip(i + 6),
                pat@,
                rep@,
            )));
            i = i + 6;
        } else {
            let ghost o = out@;
            out.push(v[i]);
            assert(out@ + replaced(v@.skip(i + 1), pat@, rep@) =~= o + (seq![v@[i as int]] + replaced(
                v@.skip(i + 1),
                pat@,
                rep@,
            )));
            i = i + 1;
        }
    }
    assert(v@.skip(v.len() as int) =~= Seq::<char>::empty());
    assert(out@ + replaced(Seq::<char>::empty(), pat@, rep@) =~= out@);
    text::string_of(&out)
}

} // verus!
