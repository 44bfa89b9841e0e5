//! What the reader asks the language model about a selected passage, and how
//! the answers are cleaned and titled.

use vstd::prelude::*;
use crate::text;
use crate::chat;
use crate::reader::store::LlmQa;

verus! {

/// How many earlier exchanges a question prompt carries.
pub const HISTORY_MAX: usize = 10;

/// The longest answer kept, in characters.
pub const ANSWER_MAX_CHARS: usize = 2000;

/// How an action's prompt is built.
#[derive(Clone, Copy, PartialEq, Eq, Debug, Structural)]
pub enum PromptKind {
    Ask,
    Translate,
}

/// Something the reader can ask about a selection.
#[derive(Clone, Copy, Debug)]
pub struct Action {
    /// The identifier stored in the sidecar (`LlmQa::kind`).
    pub kind: &'static str,
    /// The popover label.
    pub label: &'static str,
    /// Whether the user types a question; if not, the action runs at once.
    pub needs_question: bool,
    pub prompt_kind: PromptKind,
}

pub open spec fn ask_action() -> (Seq<char>, Seq<char>, bool, PromptKind) {
    ("ask"@, "LLM に聞く"@, true, PromptKind::Ask)
}

pub open spec fn translate_action() -> (Seq<char>, Seq<char>, bool, PromptKind) {
    ("translate"@, "翻訳"@, false, PromptKind::Translate)
}

pub open spec fn action_view(a: Action) -> (Seq<char>, Seq<char>, bool, PromptKind) {
    (a.kind@, a.label@, a.needs_question, a.prompt_kind)
}

/// Every action, in popover order: ask, then translate.
pub fn actions() -> (v: Vec<Action>)
    ensures
        v@.len() == 2,
        action_view(v@[0]) == ask_action(),
        action_view(v@[1]) == translate_action(),
{
    let mut v: Vec<Action> = Vec::new();
    v.push(Action { kind: "ask", label: "LLM に聞く", needs_question: true, prompt_kind: PromptKind::Ask });
    v.push(
        Action {
            kind: "translate",
            label: "翻訳",
            needs_question: false,
            prompt_kind: PromptKind::Translate,
        },
    );
    v
}

/// The action with the given kind.
pub fn find(kind: &str) -> (r: Option<Action>)
    ensures
        match r {
            Some(a) => a.kind@ == kind@ && (action_view(a) == ask_action() || action_view(a)
                == translate_action()),
            None => kind@ != ask_action().0 && kind@ != translate_action().0,
        },
{
    let all = actions();
    let k = text::chars_of(kind);
    let mut i: usize = 0;
    while i < all.len()
        invariant
            0 <= i <= 2,
            all@.len() == 2,
            action_view(all@[0]) == ask_action(),
            action_view(all@[1]) == translate_action(),
            k@ == kind@,
            forall|j: int| 0 <= j < i ==> (#[trigger] all@[j]).kind@ != kind@,
        decreases 2 - i,
    {
        let c = text::chars_of(all[i].kind);
        if text::same_chars(&c, &k) {
            return Some(all[i]);
        }
        i = i + 1;
    }
    assert(all@[0].kind@ != kind@);
    assert(all@[1].kind@ != kind@);
    None
}

pub open spec fn qa_line<T>(qa: LlmQa<T>) -> Seq<char> {
    "Q: "@ + qa.q@ + "\nA: "@ + qa.a@ + "\n"@
}

pub open spec fn qa_lines<T>(h: Seq<LlmQa<T>>) -> Seq<char>
    decreases h.len(),
{
    if h.len() == 0 {
        Seq::empty()
    } else {
        qa_lines(h.drop_last()) + qa_line(h.last())
    }
}

pub open spec fn recent_history<T>(h: Seq<LlmQa<T>>) -> Seq<LlmQa<T>> {
    if h.len() > HISTORY_MAX {
        h.skip(h.len() - HISTORY_MAX)
    } else {
        h
    }
}

/// The question prompt: the passage between `---` lines, the last
/// `HISTORY_MAX` exchanges about it (when there are any), the instructions,
/// then the question.
pub open spec fn ask_prompt_text<T>(quote: Seq<char>, h: Seq<LlmQa<T>>, question: Seq<char>) -> Seq<
    char,
> {
    let recent = recent_history(h);
    "あなたは読書中の人の相棒です。以下は本文から抜き出された一節です。\n\n---\n"@ + quote
        + "\n---\n\n"@ + (if recent.len() > 0 {
        "この一節についてのこれまでのやりとり:\n"@ + qa_lines(recent) + "\n"@
    } else {
        Seq::empty()
    }) + "この一節について質問します。日本語で、簡潔に答えてください。\n推測で補わず、一節から読み取れないことは読み取れないと言ってください。\n\n"@
        + question
}

/// The translation prompt: the passage only.
pub open spec fn translate_prompt_text(quote: Seq<char>) -> Seq<char> {
    "以下は英語の文章です。日本語に翻訳してください。\n\n---\n"@ + quote
        + "\n---\n\n翻訳文だけを出力してください。説明や補足は不要です。\n英語でない文章の場合は、その旨を簡潔に述べてください。"@
}

pub fn ask_prompt<T>(quote: &str, history: &[LlmQa<T>], question: &str) -> (s: String)
    ensures
        s@ == ask_prompt_text(quote@, history@, question@),
{
    let mut out: Vec<char> = Vec::new();
    text::push_str(&mut out, "あなたは読書中の人の相棒です。以下は本文から抜き出された一節です。\n\n---\n");
    text::push_str(&mut out, quote);
    text::push_str(&mut out, "\n---\n\n");
    let n = history.len();
    let start = if n > HISTORY_MAX {
        n - HISTORY_MAX
    } else {
        0
    };
    let ghost recent = recent_history(history@);
    assert(recent =~= history@.subrange(start as int, n as int));
    let ghost head = out@;
    if start < n {
        text::push_str(&mut out, "この一節についてのこれまでのやりとり:\n");
        let ghost head2 = out@;
        let mut i = start;
        while i < n
            invariant
                n == history@.len(),
                start <= i <= n,
                out@ == head2 + qa_lines(history@.subrange(start as int, i as int)),
            decreases n - i,
        {
            let qa = &history[i];
            text::push_str(&mut out, "Q: ");
            text::push_str(&mut out, qa.q.as_str());
            text::push_str(&mut out, "\nA: ");
            text::push_str(&mut out, qa.a.as_str());
            text::push_str(&mut out, "\n");
            assert(history@.subrange(start as int, i + 1).drop_last() =~= history@.subrange(
                start as int,
                i as int,
            ));
            assert(out@ =~= head2 + qa_lines(history@.subrange(start as int, i + 1)));
            i = i + 1;
        }
        text::push_str(&mut out, "\n");
    }
    text::push_str(
        &mut out,
        "この一節について質問します。日本語で、簡潔に答えてください。\n推測で補わず、一節から読み取れないことは読み取れないと言ってください。\n\n",
    );
    text::push_str(&mut out, question);
    assert(out@ =~= ask_prompt_text(quote@, history@, question@));
    text::string_of(&out)
}

pub fn translate_prompt<T>(quote: &str, _history: &[LlmQa<T>], _question: &str) -> (s: String)
    ensures
        s@ == translate_prompt_text(quote@),
{
    let mut out: Vec<char> = Vec::new();
    text::push_str(&mut out, "以下は英語の文章です。日本語に翻訳してください。\n\n---\n");
    text::push_str(&mut out, quote);
    text::push_str(
        &mut out,
        "\n---\n\n翻訳文だけを出力してください。説明や補足は不要です。\n英語でない文章の場合は、その旨を簡潔に述べてください。",
    );
    assert(out@ =~= translate_prompt_text(quote@));
    text::string_of(&out)
}

impl Action {
    /// The prompt this action sends; `question` is empty for actions that
    /// take none.
    pub fn prompt<T>(&self, quote: &str, history: &[LlmQa<T>], question: &str) -> (s: String)
        ensures
            s@ == match self.prompt_kind {
                PromptKind::Ask => ask_prompt_text(quote@, history@, question@),
                PromptKind::Translate => translate_prompt_text(quote@),
            },
    {
        match self.prompt_kind {
            PromptKind::Ask => ask_prompt(quote, history, question),
            PromptKind::Translate => translate_prompt(quote, history, question),
        }
    }
}

/// An answer: trimmed, at most `ANSWER_MAX_CHARS` characters, `None` when blank.
pub fn postprocess(stdout: &str) -> (r: Option<String>)
    ensures
        match r {
            Some(x) => chat::capped_reply(stdout@, ANSWER_MAX_CHARS as nat) == Some(x@),
            None => chat::capped_reply(stdout@, ANSWER_MAX_CHARS as nat) is None,
        },
{
    let v = text::chars_of(stdout);
    let t = text::trim(&v);
    if t.len() == 0 {
        return None;
    }
    let c = text::take_prefix(&t, ANSWER_MAX_CHARS);
    Some(text::string_of(&c))
}

/// The heading of an exchange in the notes pane: the question for actions
/// that take one, the action's label for the others; for an unknown kind the
/// kind itself, or for old records without a kind the question, or
/// `（不明）` when that is empty too.
pub open spec fn heading_text<T>(qa: LlmQa<T>, action: Option<Action>) -> Seq<char> {
    match action {
        Some(a) => if a.needs_question {
            qa.q@
        } else {
            a.label@
        },
        None => if qa.kind@.len() == 0 && qa.q@.len() == 0 {
            "（不明）"@
        } else if qa.kind@.len() == 0 {
            qa.q@
        } else {
            qa.kind@
        },
    }
}

pub fn qa_heading<T>(qa: &LlmQa<T>, action: Option<&Action>) -> (s: String)
    ensures
        s@ == heading_text(*qa, match action {
            Some(a) => Some(*a),
            None => None,
        }),
{
    match action {
        Some(a) => if a.needs_question {
            qa.q.clone()
        } else {
            String::from_str(a.label)
        },
        None => if qa.kind.unicode_len() == 0 && qa.q.unicode_len() == 0 {
            String::from_str("（不明）")
        } else if qa.kind.unicode_len() == 0 {
            qa.q.clone()
        } else {
            qa.kind.clone()
        },
    }
}

} // verus!
