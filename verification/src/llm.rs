//! What is handed to and taken from the language-model command line tool:
//! the situation line, the one-line prompt and the cleaning of its output.

use vstd::prelude::*;
use crate::text;
use crate::phrases::{self, Snapshot};
use crate::system::{CpuLevel, MemLevel};

verus! {

/// The persona used when the configuration gives none.
pub const DEFAULT_PERSONA: &'static str = "あなたはデスクトップ右下に常駐する小さなマスコット「miryam」です。\n以下の状況を踏まえて、画面の前のユーザーにかける一言を日本語で 1 文だけ出力してください。\n40 文字以内。軽い挨拶・気遣い・観察など。絵文字・引用符・前置き・説明は不要です。";

/// The longest phrase kept from the tool's output, in characters.
pub const PHRASE_MAX_CHARS: usize = 60;

pub open spec fn cpu_label(c: CpuLevel) -> Seq<char> {
    match c {
        CpuLevel::Idle => "idle"@,
        CpuLevel::Normal => "normal"@,
        CpuLevel::High => "high"@,
    }
}

pub open spec fn mem_label(m: MemLevel) -> Seq<char> {
    match m {
        MemLevel::Normal => "normal"@,
        MemLevel::High => "high"@,
    }
}

pub fn cpu_name(c: CpuLevel) -> (s: &'static str)
    ensures
        s@ == cpu_label(c),
{
    match c {
        CpuLevel::Idle => "idle",
        CpuLevel::Normal => "normal",
        CpuLevel::High => "high",
    }
}

pub fn mem_name(m: MemLevel) -> (s: &'static str)
    ensures
        s@ == mem_label(m),
{
    match m {
        MemLevel::Normal => "normal",
        MemLevel::High => "high",
    }
}

/// `状況: 時間帯=<band>, 曜日=<day>, CPU=<cpu>, メモリ=<mem>, 連続稼働=<hours>時間`,
/// the hours being whole hours of uptime.
pub open spec fn situation_text(now: Snapshot) -> Seq<char> {
    "状況: 時間帯="@ + phrases::band_of(now.hour as int).name() + ", 曜日="@ + now.weekday.name()
        + ", CPU="@ + cpu_label(now.cpu) + ", メモリ="@ + mem_label(now.mem) + ", 連続稼働="@
        + text::decimal((now.uptime_secs / 3600) as nat) + "時間"@
}

pub fn push_situation(out: &mut Vec<char>, now: &Snapshot)
    ensures
        final(out)@ == old(out)@ + situation_text(*now),
{
    text::push_str(out, "状況: 時間帯=");
    text::push_str(out, phrases::time_band_name(now.hour));
    text::push_str(out, ", 曜日=");
    text::push_str(out, phrases::weekday_name(now.weekday));
    text::push_str(out, ", CPU=");
    text::push_str(out, cpu_name(now.cpu));
    text::push_str(out, ", メモリ=");
    text::push_str(out, mem_name(now.mem));
    text::push_str(out, ", 連続稼働=");
    text::push_decimal(out, now.uptime_secs / 3600);
    text::push_str(out, "時間");
    assert(out@ =~= old(out)@ + situation_text(*now));
}

/// The situation line that prompts carry.
pub fn situation_line(now: &Snapshot) -> (s: String)
    ensures
        s@ == situation_text(*now),
{
    let mut out: Vec<char> = Vec::new();
    push_situation(&mut out, now);
    assert(out@ =~= situation_text(*now));
    text::string_of(&out)
}

/// The persona (the configured one, else `DEFAULT_PERSONA`), a newline and
/// the situation line.
pub fn build_prompt(persona: Option<&str>, now: &Snapshot) -> (s: String)
    ensures
        s@ == (match persona {
            Some(p) => p@,
            None => DEFAULT_PERSONA@,
        }) + "\n"@ + situation_text(*now),
{
    let mut out: Vec<char> = Vec::new();
    match persona {
        Some(p) => text::push_str(&mut out, p),
        None => text::push_str(&mut out, DEFAULT_PERSONA),
    }
    text::push_str(&mut out, "\n");
    push_situation(&mut out, now);
    text::string_of(&out)
}

/// The phrase in the tool's output: its first non-blank line, trimmed and
/// cut to `PHRASE_MAX_CHARS` characters; `None` when every line is blank.
pub fn postprocess(stdout: &str) -> (r: Option<String>)
    ensures
        match r {
            Some(p) => text::first_nonblank(text::lines_of(stdout@)) matches Some(l) && p@
                == text::take_chars(l, PHRASE_MAX_CHARS as nat),
            None => text::first_nonblank(text::lines_of(stdout@)) is None,
        },
{
    let v = text::chars_of(stdout);
    match text::first_nonblank_line(&v) {
        None => None,
        Some(l) => {
            let t = text::take_prefix(&l, PHRASE_MAX_CHARS);
            Some(text::string_of(&t))
        },
    }
}

/// Seconds the assistant's command may run for one phrase when `[llm]`
/// names no limit.
pub fn default_llm_timeout() -> (secs: u64)
    ensures
        secs == 30,
{
    30
}

/// Why an `[llm]` section was refused.
#[derive(Clone, Copy, PartialEq, Eq, Debug, Structural)]
pub enum LlmConfigError {
    EmptyCommand,
    /// `probability` outside 0.0..=1.0.
    ProbabilityOutOfRange,
    ZeroTimeout,
}

/// The checks of an `[llm]` section, in order: a command to run, the
/// probability in range (`probability_ok`, measured by the caller), and a
/// time limit above zero.
pub fn check_llm(command: &Vec<String>, probability_ok: bool, timeout_secs: u64) -> (r: Result<
    (),
    LlmConfigError,
>)
    ensures
        r == (if command@.len() == 0 {
            Err(LlmConfigError::EmptyCommand)
        } else if !probability_ok {
            Err(LlmConfigError::ProbabilityOutOfRange)
        } else if timeout_secs == 0 {
            Err(LlmConfigError::ZeroTimeout)
        } else {
            Ok(())
        }),
{
    if command.len() == 0 {
        return Err(LlmConfigError::EmptyCommand);
    }
    if !probability_ok {
        return Err(LlmConfigError::ProbabilityOutOfRange);
    }
    if timeout_secs == 0 {
        return Err(LlmConfigError::ZeroTimeout);
    }
    Ok(())
}

} // verus!
