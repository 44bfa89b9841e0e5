//! Requests that arrive from outside the running mascot: timer specifications
//! such as `25m 休憩`.

use vstd::prelude::*;
use crate::text;

verus! {

/// The message spoken when a timer is given without one.
pub const DEFAULT_TIMER_MESSAGE: &'static str = "時間になりました";

/// The longest timer accepted, in seconds (24 hours).
pub const MAX_TIMER_SECS: u64 = 86400;

/// Why a timer specification was refused.
#[derive(Clone, Copy, Debug, PartialEq, Eq)]
pub enum TimerFault {
    /// No duration word at all.
    MissingDuration,
    /// The duration does not end in `s`, `m` or `h`.
    UnknownUnit,
    /// The part before the unit is empty or holds a non-digit.
    NotPositiveInteger,
    /// The digits do not fit in a `u64`.
    NotANumber,
    /// The duration is zero.
    Zero,
    /// The duration is longer than 24 hours.
    OverMaximum,
}

/// A refused timer specification: the fault and the duration word it concerns
/// (empty for `MissingDuration` and `Zero`).
#[derive(Debug)]
pub struct TimerSpecError {
    pub fault: TimerFault,
    pub token: String,
}

/// The unit multiplier of a duration word's last character, if it is a unit.
pub open spec fn unit_secs(c: char) -> Option<nat> {
    if c == 's' {
        Some(1)
    } else if c == 'm' {
        Some(60)
    } else if c == 'h' {
        Some(3600)
    } else {
        None
    }
}

/// What a timer specification means: `Ok((seconds, message))`, or the fault
/// with the word it concerns.
pub open spec fn timer_outcome(s: Seq<char>) -> Result<(nat, Seq<char>), (TimerFault, Seq<char>)> {
    let words = text::words_of(s);
    if words.len() == 0 {
        Err((TimerFault::MissingDuration, Seq::empty()))
    } else {
        let tok = words[0];
        if tok.len() == 0 || unit_secs(tok.last()) is None {
            Err((TimerFault::UnknownUnit, tok))
        } else {
            let num = tok.drop_last();
            let mult = unit_secs(tok.last())->0;
            if num.len() == 0 || !text::all_digits(num) {
                Err((TimerFault::NotPositiveInteger, tok))
            } else if text::digits_value(num) > u64::MAX {
                Err((TimerFault::NotANumber, tok))
            } else if text::digits_value(num) == 0 {
                Err((TimerFault::Zero, Seq::empty()))
            } else if text::digits_value(num) * mult > MAX_TIMER_SECS {
                Err((TimerFault::OverMaximum, tok))
            } else {
                let msg = text::joined(words.skip(1), " "@);
                Ok(
                    (
                        text::digits_value(num) * mult,
                        if msg.len() == 0 {
                            DEFAULT_TIMER_MESSAGE@
                        } else {
                            msg
                        },
                    ),
                )
            }
        }
    }
}

fn fail(fault: TimerFault, token: &Vec<char>) -> (e: TimerSpecError)
    ensures
        e.fault == fault,
        e.token@ == token@,
{
    TimerSpecError { fault, token: text::string_of(token) }
}

/// Parses `"<positive integer><s|m|h> [message words...]"` into the number of
/// seconds to wait and the message to speak. The message words are text::joined by
/// single spaces; without any, `DEFAULT_TIMER_MESSAGE` is used. Durations of
/// zero or above 24 hours are refused.
pub fn parse_timer_spec(s: &str) -> (r: Result<(u64, String), TimerSpecError>)
    ensures
        match r {
            Ok((secs, msg)) => timer_outcome(s@) == Ok::<(nat, Seq<char>), (TimerFault, Seq<char>)>((secs as nat, msg@)),
            Err(e) => timer_outcome(s@) == Err::<(nat, Seq<char>), (TimerFault, Seq<char>)>((e.fault, e.token@)),
        },
{
    let v = text::chars_of(s);
    let mut words = text::split_words(&v);
    let empty: Vec<char> = Vec::new();
    if words.len() == 0 {
        assert(empty@ =~= Seq::<char>::empty());
        return Err(fail(TimerFault::MissingDuration, &empty));
    }
    let ghost all = text::views(words@);
    let tok = words.remove(0);
    assert(tok@ == all[0]);
    assert(text::views(words@) =~= all.skip(1));
    if tok.len() == 0 {
        return Err(fail(TimerFault::UnknownUnit, &tok));
    }
    let last = tok[tok.len() - 1];
    let mult: u64 = if last == 's' {
        1
    } else if last == 'm' {
        60
    } else if last == 'h' {
        3600
    } else {
        return Err(fail(TimerFault::UnknownUnit, &tok));
    };
    assert(unit_secs(tok@.last()) == Some(mult as nat));
    let num = text::slice_of(&tok, 0, tok.len() - 1);
    assert(num@ =~= tok@.drop_last());
    if num.len() == 0 {
        return Err(fail(TimerFault::NotPositiveInteger, &tok));
    }
    if !text::all_ascii_digits(&num) {
        return Err(fail(TimerFault::NotPositiveInteger, &tok));
    }
    let n = match text::digits_to_u64(&num) {
        Some(n) => n,
        None => {
            return Err(fail(TimerFault::NotANumber, &tok));
        },
    };
    if n == 0 {
        assert(empty@ =~= Seq::<char>::empty());
        return Err(fail(TimerFault::Zero, &empty));
    }
    let secs = match n.checked_mul(mult) {
        Some(x) => x,
        None => {
            return Err(fail(TimerFault::OverMaximum, &tok));
        },
    };
    if secs > MAX_TIMER_SECS {
        return Err(fail(TimerFault::OverMaximum, &tok));
    }
    let mut sep: Vec<char> = Vec::new();
    sep.push(' ');
    proof {
        reveal_strlit(" ");
    }
    assert(sep@ =~= " "@);
    let msg = text::join(&words, &sep);
    if msg.len() == 0 {
        Ok((secs, String::from_str(DEFAULT_TIMER_MESSAGE)))
    } else {
        Ok((secs, text::string_of(&msg)))
    }
}

/// A timer that is accepted waits at least one second and at most a day,
/// and always has something to say.
pub proof fn lemma_timer_bounds(s: Seq<char>)
    ensures
        timer_outcome(s) matches Ok((secs, msg)) ==> 1 <= secs <= MAX_TIMER_SECS && msg.len() > 0,
{
    reveal_strlit("時間になりました");
    let words = text::words_of(s);
    if words.len() > 0 {
        let tok = words[0];
        if tok.len() > 0 && unit_secs(tok.last()) is Some {
            let num = tok.drop_last();
            let mult = unit_secs(tok.last())->0;
            let v = text::digits_value(num);
            if v >= 1 {
                assert(v * mult >= 1) by (nonlinear_arith)
                    requires
                        v >= 1,
                        mult >= 1,
                ;
            }
        }
    }
}

/// A character as it stands inside a single-quoted GVariant text string.
pub open spec fn gvariant_char(c: char) -> Seq<char> {
    if c == '\\' {
        seq!['\\', '\\']
    } else if c == '\'' {
        seq!['\\', '\'']
    } else if c == '\n' {
        seq!['\\', 'n']
    } else {
        seq![c]
    }
}

/// `s` with each character escaped for a single-quoted GVariant string.
pub open spec fn gvariant_text(s: Seq<char>) -> Seq<char>
    decreases s.len(),
{
    if s.len() == 0 {
        Seq::empty()
    } else {
        gvariant_text(s.drop_last()) + gvariant_char(s.last())
    }
}

/// Backslashes, single quotes and line breaks escaped (in that order, so
/// that no escape is escaped again), for a `say` request sent over D-Bus.
pub fn gvariant_escape(s: &str) -> (r: String)
    ensures
        r@ == gvariant_text(s@),
{
    let v = text::chars_of(s);
    let mut out: Vec<char> = Vec::new();
    let mut i: usize = 0;
    assert(v@.take(0) =~= Seq::<char>::empty());
    while i < v.len()
        invariant
            0 <= i <= v.len(),
            out@ == gvariant_text(v@.take(i as int)),
        decreases v.len() - i,
    {
        let c = v[i];
        if c == '\\' {
            out.push('\\');
            out.push('\\');
        } else if c == '\'' {
            out.push('\\');
            out.push('\'');
        } else if c == '\n' {
            out.push('\\');
            out.push('n');
        } else {
            out.push(c);
        }
        assert(v@.take(i + 1).drop_last() =~= v@.take(i as int));
        assert(out@ =~= gvariant_text(v@.take(i as int)) + gvariant_char(c));
        i = i + 1;
    }
    assert(v@.take(v.len() as int) =~= v@);
    text::string_of(&out)
}

/// The parameter of the `say` action: `[<'message'>]`, the message escaped.
pub fn say_parameter(message: &str) -> (r: String)
    ensures
        r@ == "[<'"@ + gvariant_text(message@) + "'>]"@,
{
    let mut out = text::chars_of("[<'");
    let e = gvariant_escape(message);
    text::push_str(&mut out, e.as_str());
    text::push_str(&mut out, "'>]");
    text::string_of(&out)
}

} // verus!
