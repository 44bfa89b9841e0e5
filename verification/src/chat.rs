//! Conversation with the mascot: the session record, the note it is saved as,
//! the prompt sent for each reply and the cleaning of replies.

use vstd::prelude::*;
use crate::text;
use crate::clock::{self, LocalTime};
use crate::llm;
use crate::phrases::Snapshot;

verus! {

/// The persona used when `[chat] prompt` is not given.
pub const DEFAULT_CHAT_PERSONA: &'static str = "あなたはデスクトップ右下に常駐する小さなマスコット「miryam」です。\nユーザーと雑談しています。日本語で、数文・120 文字程度までで自然に返答してください。絵文字・引用符・前置き・説明は不要です。";

/// How many utterances of the history a prompt carries (10 exchanges).
pub const PROMPT_HISTORY_MAX: usize = 20;

/// The longest reply shown in the bubble, in characters.
pub const REPLY_MAX_CHARS: usize = 300;

/// The most choice buttons one reply offers.
pub const CHOICES_MAX: usize = 3;

/// The longest reply shown in the conversation window, in characters.
pub const WINDOW_REPLY_MAX_CHARS: usize = 2000;

#[derive(Clone, Copy, PartialEq, Eq, Debug, Structural)]
pub enum Role {
    User,
    Mascot,
}

pub struct Turn {
    pub role: Role,
    pub text: String,
}

pub open spec fn speaker_label(role: Role) -> Seq<char> {
    match role {
        Role::User => "ユーザー"@,
        Role::Mascot => "miryam"@,
    }
}

/// How a speaker is named in notes and prompts.
pub fn speaker_name(role: Role) -> (s: &'static str)
    ensures
        s@ == speaker_label(role),
{
    match role {
        Role::User => "ユーザー",
        Role::Mascot => "miryam",
    }
}

/// Exchanges only: an even number of turns, the user's and the mascot's in turn.
pub open spec fn exchanges_only(ts: Seq<Turn>) -> bool {
    &&& ts.len() % 2 == 0
    &&& forall|i: int|
        0 <= i < ts.len() ==> (#[trigger] ts[i]).role == (if i % 2 == 0 {
            Role::User
        } else {
            Role::Mascot
        })
}

/// A conversation in progress. Only completed exchanges are recorded: the
/// user's words join the record together with the reply to them.
pub struct ChatSession {
    pub turns: Vec<Turn>,
    pub started_at: LocalTime,
}

impl ChatSession {
    pub fn new(started_at: LocalTime) -> (s: ChatSession)
        ensures
            s.turns@.len() == 0,
            s.started_at == started_at,
            exchanges_only(s.turns@),
    {
        ChatSession { turns: Vec::new(), started_at }
    }

    /// Records a completed exchange: the user's words, then the reply.
    pub fn push_exchange(&mut self, user: String, mascot: String)
        ensures
            final(self).started_at == old(self).started_at,
            final(self).turns@.len() == old(self).turns@.len() + 2,
            forall|i: int|
                0 <= i < old(self).turns@.len() ==> #[trigger] final(self).turns@[i] == old(
                    self,
                ).turns@[i],
            final(self).turns@[old(self).turns@.len() as int].role == Role::User,
            final(self).turns@[old(self).turns@.len() as int].text@ == user@,
            final(self).turns@[old(self).turns@.len() as int + 1].role == Role::Mascot,
            final(self).turns@[old(self).turns@.len() as int + 1].text@ == mascot@,
            exchanges_only(old(self).turns@) ==> exchanges_only(final(self).turns@),
    {
        let ghost n = self.turns@.len();
        self.turns.push(Turn { role: Role::User, text: user });
        self.turns.push(Turn { role: Role::Mascot, text: mascot });
        proof {
            if exchanges_only(old(self).turns@) {
                assert forall|i: int| 0 <= i < self.turns@.len() implies (#[trigger] self.turns@[i]).role
                    == (if i % 2 == 0 {
                    Role::User
                } else {
                    Role::Mascot
                }) by {
                    if i < n {
                        assert(self.turns@[i] == old(self).turns@[i]);
                    }
                }
            }
        }
    }
}

/// `**<speaker>**: <text>` and a newline.
pub open spec fn note_line(t: Turn) -> Seq<char> {
    "**"@ + speaker_label(t.role) + "**: "@ + t.text@ + "\n"@
}

/// The note block of the `k`-th pair of turns.
pub open spec fn note_block(ts: Seq<Turn>, k: int) -> Seq<char> {
    note_line(ts[2 * k]) + (if 2 * k + 1 < ts.len() {
        note_line(ts[2 * k + 1])
    } else {
        Seq::empty()
    })
}

/// One block per pair of turns (the last pair may be a single turn).
pub open spec fn note_blocks(ts: Seq<Turn>) -> Seq<Seq<char>> {
    Seq::new(((ts.len() + 1) / 2) as nat, |k: int| note_block(ts, k))
}

/// The note title: `会話ログ <start>`.
pub open spec fn note_title(start: LocalTime) -> Seq<char> {
    "会話ログ "@ + clock::ymd_hm_text(start)
}

/// The note body: the blocks separated by blank lines, then a rule and the
/// start and end times.
pub open spec fn note_body(ts: Seq<Turn>, start: LocalTime, end: LocalTime) -> Seq<char> {
    text::joined(note_blocks(ts), "\n"@) + "\n---\n- 開始: "@ + clock::ymd_hm_text(start)
        + "\n- 終了: "@ + clock::ymd_hm_text(end) + "\nSource: miryam chat"@
}

fn push_note_line(out: &mut Vec<char>, t: &Turn)
    ensures
        final(out)@ == old(out)@ + note_line(*t),
{
    text::push_str(out, "**");
    text::push_str(out, speaker_name(t.role));
    text::push_str(out, "**: ");
    text::push_str(out, t.text.as_str());
    text::push_str(out, "\n");
    assert(out@ =~= old(out)@ + note_line(*t));
}

/// The session as an Inkdrop note: `(title, body)`.
pub fn chat_note(session: &ChatSession, ended_at: &LocalTime) -> (r: (String, String))
    ensures
        r.0@ == note_title(session.started_at),
        r.1@ == note_body(session.turns@, session.started_at, *ended_at),
{
    let ts = &session.turns;
    let ghost all = note_blocks(ts@);
    let mut blocks: Vec<Vec<char>> = Vec::new();
    let mut k: usize = 0;
    let n = ts.len();
    let kmax = n / 2 + n % 2;
    assert(kmax == (n + 1) / 2);
    while k < kmax
        invariant
            n == ts@.len(),
            kmax == (n + 1) / 2,
            0 <= k <= kmax,
            all == note_blocks(ts@),
            text::views(blocks@) == all.take(k as int),
        decreases kmax - k,
    {
        let mut b: Vec<char> = Vec::new();
        push_note_line(&mut b, &ts[2 * k]);
        if 2 * k + 1 < n {
            push_note_line(&mut b, &ts[2 * k + 1]);
        }
        assert(b@ =~= note_block(ts@, k as int));
        let ghost old_b = blocks@;
        proof {
            text::lemma_views_push(old_b, b);
        }
        blocks.push(b);
        assert(text::views(blocks@) =~= all.take(k + 1));
        k = k + 1;
    }
    assert(all.take(k as int) =~= all);
    let sep = text::chars_of("\n");
    let mut body = text::join(&blocks, &sep);
    text::push_str(&mut body, "\n---\n- 開始: ");
    clock::push_ymd_hm(&mut body, &session.started_at);
    text::push_str(&mut body, "\n- 終了: ");
    clock::push_ymd_hm(&mut body, ended_at);
    text::push_str(&mut body, "\nSource: miryam chat");
    assert(body@ =~= note_body(ts@, session.started_at, *ended_at));
    let mut title: Vec<char> = Vec::new();
    text::push_str(&mut title, "会話ログ ");
    clock::push_ymd_hm(&mut title, &session.started_at);
    assert(title@ =~= note_title(session.started_at));
    (text::string_of(&title), text::string_of(&body))
}

/// `<speaker>: <text>` and a newline.
pub open spec fn prompt_line(t: Turn) -> Seq<char> {
    speaker_label(t.role) + ": "@ + t.text@ + "\n"@
}

pub open spec fn prompt_lines(ts: Seq<Turn>) -> Seq<char>
    decreases ts.len(),
{
    if ts.len() == 0 {
        Seq::empty()
    } else {
        prompt_lines(ts.drop_last()) + prompt_line(ts.last())
    }
}

/// The last `PROMPT_HISTORY_MAX` turns (all of them when there are fewer).
pub open spec fn recent_turns(ts: Seq<Turn>) -> Seq<Turn> {
    if ts.len() > PROMPT_HISTORY_MAX {
        ts.skip(ts.len() - PROMPT_HISTORY_MAX)
    } else {
        ts
    }
}

/// The chat prompt: persona, situation line, the recent history under
/// `これまでの会話:` when there is any, then the new words and `miryam:`.
pub open spec fn chat_prompt_text(
    persona: Seq<char>,
    ts: Seq<Turn>,
    input: Seq<char>,
    now: Snapshot,
) -> Seq<char> {
    let recent = recent_turns(ts);
    persona + "\n"@ + llm::situation_text(now) + "\n"@ + (if recent.len() > 0 {
        "これまでの会話:\n"@ + prompt_lines(recent)
    } else {
        Seq::empty()
    }) + "ユーザー: "@ + input + "\nmiryam:"@
}

/// The persona a configuration selects.
pub open spec fn chat_persona(cfg: &ChatConfig) -> Seq<char> {
    match cfg.prompt {
        Some(p) => p@,
        None => DEFAULT_CHAT_PERSONA@,
    }
}

/// The prompt for the reply to `user_input`.
pub fn build_chat_prompt(cfg: &ChatConfig, turns: &[Turn], user_input: &str, now: &Snapshot) -> (s:
    String)
    ensures
        s@ == chat_prompt_text(chat_persona(cfg), turns@, user_input@, *now),
{
    let mut out: Vec<char> = Vec::new();
    match &cfg.prompt {
        Some(p) => text::push_str(&mut out, p.as_str()),
        None => text::push_str(&mut out, DEFAULT_CHAT_PERSONA),
    }
    text::push_str(&mut out, "\n");
    llm::push_situation(&mut out, now);
    text::push_str(&mut out, "\n");
    let ghost head = out@;
    let n = turns.len();
    let start = if n > PROMPT_HISTORY_MAX {
        n - PROMPT_HISTORY_MAX
    } else {
        0
    };
    let ghost recent = recent_turns(turns@);
    assert(recent =~= turns@.subrange(start as int, n as int));
    if start < n {
        text::push_str(&mut out, "これまでの会話:\n");
        let ghost head2 = out@;
        let mut i = start;
        while i < n
            invariant
                n == turns@.len(),
                start <= i <= n,
                recent == turns@.subrange(start as int, n as int),
                out@ == head2 + prompt_lines(turns@.subrange(start as int, i as int)),
            decreases n - i,
        {
            let t = &turns[i];
            text::push_str(&mut out, speaker_name(t.role));
            text::push_str(&mut out, ": ");
            text::push_str(&mut out, t.text.as_str());
            text::push_str(&mut out, "\n");
            assert(turns@.subrange(start as int, i + 1).drop_last() =~= turns@.subrange(
                start as int,
                i as int,
            ));
            assert(out@ =~= head2 + prompt_lines(turns@.subrange(start as int, i + 1)));
            i = i + 1;
        }
    }
    text::push_str(&mut out, "ユーザー: ");
    text::push_str(&mut out, user_input);
    text::push_str(&mut out, "\nmiryam:");
    assert(out@ =~= chat_prompt_text(chat_persona(cfg), turns@, user_input@, *now));
    text::string_of(&out)
}

/// `Some` of the trimmed text cut to `max` characters, or `None` when the
/// text is blank. Several lines are kept.
pub open spec fn capped_reply(s: Seq<char>, max: nat) -> Option<Seq<char>> {
    if text::trimmed(s).len() == 0 {
        None
    } else {
        Some(text::take_chars(text::trimmed(s), max))
    }
}

fn cap_reply(stdout: &str, max: usize) -> (r: Option<String>)
    ensures
        match r {
            Some(x) => capped_reply(stdout@, max as nat) == Some(x@),
            None => capped_reply(stdout@, max as nat) is None,
        },
{
    let v = text::chars_of(stdout);
    let t = text::trim(&v);
    if t.len() == 0 {
        return None;
    }
    let c = text::take_prefix(&t, max);
    Some(text::string_of(&c))
}

/// A bubble reply: trimmed, at most `REPLY_MAX_CHARS` characters, `None` when blank.
pub fn postprocess_chat(stdout: &str) -> (r: Option<String>)
    ensures
        match r {
            Some(x) => capped_reply(stdout@, REPLY_MAX_CHARS as nat) == Some(x@),
            None => capped_reply(stdout@, REPLY_MAX_CHARS as nat) is None,
        },
{
    cap_reply(stdout, REPLY_MAX_CHARS)
}

/// A window reply: trimmed, at most `WINDOW_REPLY_MAX_CHARS` characters,
/// `None` when blank.
pub fn postprocess_window(stdout: &str) -> (r: Option<String>)
    ensures
        match r {
            Some(x) => capped_reply(stdout@, WINDOW_REPLY_MAX_CHARS as nat) == Some(x@),
            None => capped_reply(stdout@, WINDOW_REPLY_MAX_CHARS as nat) is None,
        },
{
    cap_reply(stdout, WINDOW_REPLY_MAX_CHARS)
}

/// Seconds a bubble reply stays: 6 plus one per ten characters, at most 20.
pub fn bubble_secs(s: &str) -> (secs: u64)
    ensures
        secs == (if 6 + s@.len() / 10 < 20 {
            6 + s@.len() / 10
        } else {
            20
        }),
{
    let n = s.unicode_len() as u64;
    let x = 6 + n / 10;
    if x < 20 {
        x
    } else {
        20
    }
}

/// The choice a line offers: a line whose text starts (after leading
/// whitespace) with `>>` offers the trimmed rest.
pub open spec fn choice_of(line: Seq<char>) -> Option<Seq<char>> {
    let t = text::trimmed_start(line);
    if text::has_prefix(t, ">>"@) {
        Some(text::trimmed(t.skip(2)))
    } else {
        None
    }
}

/// The lines that offer no choice.
pub open spec fn body_lines(ls: Seq<Seq<char>>) -> Seq<Seq<char>>
    decreases ls.len(),
{
    if ls.len() == 0 {
        Seq::empty()
    } else if choice_of(ls.last()) is None {
        body_lines(ls.drop_last()).push(ls.last())
    } else {
        body_lines(ls.drop_last())
    }
}

/// The non-empty choices offered, in order.
pub open spec fn offered_choices(ls: Seq<Seq<char>>) -> Seq<Seq<char>>
    decreases ls.len(),
{
    if ls.len() == 0 {
        Seq::empty()
    } else {
        match choice_of(ls.last()) {
            Some(c) => if c.len() > 0 {
                offered_choices(ls.drop_last()).push(c)
            } else {
                offered_choices(ls.drop_last())
            },
            None => offered_choices(ls.drop_last()),
        }
    }
}

/// Splits a reply into its body and its choices: lines starting (after
/// leading whitespace) with `>>` are choices, the first `CHOICES_MAX`
/// non-empty ones are kept; the other lines, joined and trimmed, are the body.
pub fn split_choices(s: &str) -> (r: (String, Vec<String>))
    ensures
        r.0@ == text::trimmed(text::joined(body_lines(text::lines_of(s@)), "\n"@)),
        text::string_views(r.1@) == text::first_n(
            offered_choices(text::lines_of(s@)),
            CHOICES_MAX as nat,
        ),
{
    let v = text::chars_of(s);
    let ls = text::split_lines(&v);
    let ghost all = text::views(ls@);
    let marker = text::chars_of(">>");
    proof {
        reveal_strlit(">>");
    }
    let mut body: Vec<Vec<char>> = Vec::new();
    let mut choices: Vec<Vec<char>> = Vec::new();
    let mut i: usize = 0;
    while i < ls.len()
        invariant
            0 <= i <= ls.len(),
            all == text::views(ls@),
            all == text::lines_of(s@),
            marker@ == ">>"@,
            marker@.len() == 2,
            text::views(body@) == body_lines(all.take(i as int)),
            text::views(choices@) == text::first_n(
                offered_choices(all.take(i as int)),
                CHOICES_MAX as nat,
            ),
        decreases ls.len() - i,
    {
        let ghost pre = all.take(i as int);
        assert(all.take(i + 1).drop_last() =~= pre);
        assert(all.take(i + 1).last() == ls@[i as int]@);
        let line = &ls[i];
        let t = text::trim_start(line);
        if text::starts_with(&t, &marker) {
            let rest = text::slice_of(&t, 2, t.len());
            assert(rest@ =~= t@.skip(2));
            let c = text::trim(&rest);
            if c.len() > 0 && choices.len() < CHOICES_MAX {
                let ghost oc = choices@;
                proof {
                    text::lemma_views_push(oc, c);
                }
                choices.push(c);
                assert(text::views(choices@) =~= text::first_n(
                    offered_choices(all.take(i + 1)),
                    CHOICES_MAX as nat,
                ));
            } else {
                assert(text::views(choices@) =~= text::first_n(
                    offered_choices(all.take(i + 1)),
                    CHOICES_MAX as nat,
                ));
            }
        } else {
            let ghost ob = body@;
            let copy = text::slice_of(line, 0, line.len());
            assert(copy@ =~= line@);
            proof {
                text::lemma_views_push(ob, copy);
            }
            body.push(copy);
        }
        i = i + 1;
    }
    assert(all.take(ls.len() as int) =~= all);
    let sep = text::chars_of("\n");
    let joined = text::join(&body, &sep);
    let b = text::trim(&joined);
    (text::string_of(&b), text::strings_of(&choices))
}

/// The command of a `[chat]` section that names none: empty (`validate`
/// refuses it).
pub fn default_command() -> (v: Vec<String>)
    ensures
        v@.len() == 0,
{
    Vec::new()
}

pub fn default_timeout() -> (secs: u64)
    ensures
        secs == 60,
{
    60
}

pub fn default_idle_close() -> (secs: u64)
    ensures
        secs == 600,
{
    600
}

/// The `[chat]` section.
pub struct ChatConfig {
    pub command: Vec<String>,
    pub timeout_secs: u64,
    pub idle_close_secs: u64,
    pub prompt: Option<String>,
}

/// Why a `[chat]` section was refused.
#[derive(Clone, Copy, PartialEq, Eq, Debug, Structural)]
pub enum ChatConfigError {
    EmptyCommand,
    ZeroTimeout,
    ZeroIdleClose,
}

impl ChatConfig {
    /// The command must be non-empty and both durations positive, checked in that order.
    pub fn validate(&self) -> (r: Result<(), ChatConfigError>)
        ensures
            r == (if self.command@.len() == 0 {
                Err(ChatConfigError::EmptyCommand)
            } else if self.timeout_secs == 0 {
                Err(ChatConfigError::ZeroTimeout)
            } else if self.idle_close_secs == 0 {
                Err(ChatConfigError::ZeroIdleClose)
            } else {
                Ok(())
            }),
    {
        if self.command.len() == 0 {
            return Err(ChatConfigError::EmptyCommand);
        }
        if self.timeout_secs == 0 {
            return Err(ChatConfigError::ZeroTimeout);
        }
        if self.idle_close_secs == 0 {
            return Err(ChatConfigError::ZeroIdleClose);
        }
        Ok(())
    }
}

} // verus!
