//! Inkdrop, the note application the mascot files memos and logs into:
//! its settings, the memo note, the replies its HTTP server gives and the
//! daily inbox reminder.

use vstd::prelude::*;
use crate::text;
use crate::json;
use crate::clock::Date;
use crate::reader::export;

verus! {

/// How many notes one query asks for; a count at this limit is shown as `100+`.
pub const NOTES_QUERY_LIMIT: usize = 100;

/// The longest memo title, in characters.
pub const TITLE_MAX_CHARS: usize = 60;

pub fn default_port() -> (p: u16)
    ensures
        p == 19840,
{
    19840
}

pub fn default_threshold() -> (t: u32)
    ensures
        t == 10,
{
    10
}

/// The `[inkdrop]` section.
pub struct InkdropConfig {
    pub port: u16,
    pub username: String,
    pub password: String,
    pub book: String,
    pub inbox_threshold: u32,
    /// Where conversation logs go; `book` when absent.
    pub chat_book: Option<String>,
}

/// Why an `[inkdrop]` section was refused.
#[derive(Clone, Copy, PartialEq, Eq, Debug, Structural)]
pub enum InkdropConfigError {
    EmptyUsername,
    /// A `:` would clash with curl's `user:password`.
    ColonInUsername,
    EmptyPassword,
    EmptyBook,
    ZeroPort,
    /// Above 100 (0 turns the reminder off).
    ThresholdTooHigh,
}

impl InkdropConfig {
    /// The notebook conversation logs are saved to: `chat_book`, else `book`.
    pub fn chat_book_name(&self) -> (s: &str)
        ensures
            s@ == (match self.chat_book {
                Some(c) => c@,
                None => self.book@,
            }),
    {
        match &self.chat_book {
            Some(c) => c.as_str(),
            None => self.book.as_str(),
        }
    }

    /// Checks, in order: a username without `:`, a password, a notebook name,
    /// a port above 0, a reminder threshold of at most 100.
    pub fn validate(&self) -> (r: Result<(), InkdropConfigError>)
        ensures
            r == (if self.username@.len() == 0 {
                Err(InkdropConfigError::EmptyUsername)
            } else if self.username@.contains(':') {
                Err(InkdropConfigError::ColonInUsername)
            } else if self.password@.len() == 0 {
                Err(InkdropConfigError::EmptyPassword)
            } else if self.book@.len() == 0 {
                Err(InkdropConfigError::EmptyBook)
            } else if self.port == 0 {
                Err(InkdropConfigError::ZeroPort)
            } else if self.inbox_threshold > 100 {
                Err(InkdropConfigError::ThresholdTooHigh)
            } else {
                Ok(())
            }),
    {
        let user = text::chars_of(self.username.as_str());
        if user.len() == 0 {
            return Err(InkdropConfigError::EmptyUsername);
        }
        match text::position_of(&user, ':') {
            Some(i) => {
                assert(user@[i as int] == ':') by {
                    reveal_with_fuel(text::find_char, 1);
                    lemma_find_char_hit(user@, ':', i as int);
                }
                return Err(InkdropConfigError::ColonInUsername);
            },
            None => {
                assert(!user@.contains(':')) by {
                    lemma_find_char_none(user@, ':');
                }
            },
        }
        if self.password.unicode_len() == 0 {
            return Err(InkdropConfigError::EmptyPassword);
        }
        if self.book.unicode_len() == 0 {
            return Err(InkdropConfigError::EmptyBook);
        }
        if self.port == 0 {
            return Err(InkdropConfigError::ZeroPort);
        }
        if self.inbox_threshold > 100 {
            return Err(InkdropConfigError::ThresholdTooHigh);
        }
        Ok(())
    }
}

proof fn lemma_find_char_hit(s: Seq<char>, c: char, i: int)
    requires
        text::find_char(s, c) == Some(i),
    ensures
        0 <= i < s.len(),
        s[i] == c,
    decreases s.len(),
{
    if s.len() > 0 && s[0] != c {
        lemma_find_char_hit(s.drop_first(), c, i - 1);
    }
}

proof fn lemma_find_char_none(s: Seq<char>, c: char)
    requires
        text::find_char(s, c) is None,
    ensures
        !s.contains(c),
    decreases s.len(),
{
    if s.len() > 0 {
        lemma_find_char_none(s.drop_first(), c);
        assert forall|i: int| 0 <= i < s.len() implies s[i] != c by {
            if i > 0 {
                assert(s[i] == s.drop_first()[i - 1]);
            }
        }
    }
}

/// The memo note: the title is the first non-blank line, trimmed, at most
/// `TITLE_MAX_CHARS` characters (`メモ` when every line is blank); the body
/// is the whole text with the source and the capture date.
pub open spec fn capture_title(t: Seq<char>) -> Seq<char> {
    text::take_chars(
        match text::first_nonblank(text::lines_of(t)) {
            Some(l) => l,
            None => "メモ"@,
        },
        TITLE_MAX_CHARS as nat,
    )
}

pub open spec fn capture_body(t: Seq<char>, date: Seq<char>) -> Seq<char> {
    t + "\n\nSource: miryam-ctl\nCaptured: "@ + date
}

pub fn capture_note(t: &str, date: &str) -> (r: (String, String))
    ensures
        r.0@ == capture_title(t@),
        r.1@ == capture_body(t@, date@),
{
    let v = text::chars_of(t);
    let line = match text::first_nonblank_line(&v) {
        Some(l) => l,
        None => text::chars_of("メモ"),
    };
    let title = text::take_prefix(&line, TITLE_MAX_CHARS);
    let mut body: Vec<char> = Vec::new();
    text::push_str(&mut body, t);
    text::push_str(&mut body, "\n\nSource: miryam-ctl\nCaptured: ");
    text::push_str(&mut body, date);
    assert(body@ =~= capture_body(t@, date@));
    (text::string_of(&title), text::string_of(&body))
}

/// The body of `POST /notes` for a memo.
pub fn note_payload(book_id: &str, title: &str, body: &str) -> (s: String)
    ensures
        s@ == export::create_json(book_id@, title@, body@),
{
    export::create_payload(book_id, title, body)
}

/// The first notebook named exactly `name`: its id (which must be a string)
/// and whether another notebook of that name follows.
pub open spec fn book_lookup(
    books: Seq<(Option<Seq<char>>, Option<Seq<char>>)>,
    name: Seq<char>,
) -> Option<(Seq<char>, bool)>
    decreases books.len(),
{
    if books.len() == 0 {
        None
    } else if books[0].0 == Some(name) {
        match books[0].1 {
            Some(id) => Some(
                (
                    id,
                    exists|j: int| 1 <= j < books.len() && #[trigger] books[j].0 == Some(name),
                ),
            ),
            None => None,
        }
    } else {
        book_lookup(books.drop_first(), name)
    }
}

/// What a note sent to Inkdrop holds.
#[derive(Clone, Copy, PartialEq, Eq, Debug, Structural)]
pub enum NoteKind {
    /// A memo captured from the command line.
    Memo,
    /// The log of a finished conversation.
    ChatLog,
}

/// How sending a note to Inkdrop ended.
#[derive(Clone, Copy, PartialEq, Eq, Debug, Structural)]
pub enum NoteOutcome {
    Saved,
    /// No notebook has the configured name.
    NotebookMissing,
    /// The server could not be reached or refused the request.
    Unreachable,
}

/// What the mascot says about a note sent to the notebook `book`; nothing
/// once a conversation log is saved.
pub open spec fn note_reply_text(kind: NoteKind, outcome: NoteOutcome, book: Seq<char>) -> Option<Seq<char>> {
    match outcome {
        NoteOutcome::NotebookMissing => Some("ノートブック \""@ + book + "\" が見つかりません"@),
        NoteOutcome::Saved => match kind {
            NoteKind::Memo => Some("メモを預かりました"@),
            NoteKind::ChatLog => None,
        },
        NoteOutcome::Unreachable => match kind {
            NoteKind::Memo => Some("Inkdrop に届きませんでした"@),
            NoteKind::ChatLog => Some("会話ログを Inkdrop に残せませんでした"@),
        },
    }
}

pub fn note_reply(kind: NoteKind, outcome: NoteOutcome, book: &str) -> (r: Option<String>)
    ensures
        match r {
            Some(t) => note_reply_text(kind, outcome, book@) == Some(t@),
            None => note_reply_text(kind, outcome, book@) is None,
        },
{
    match outcome {
        NoteOutcome::NotebookMissing => {
            let mut out = text::chars_of("ノートブック \"");
            text::push_str(&mut out, book);
            text::push_str(&mut out, "\" が見つかりません");
            Some(text::string_of(&out))
        },
        NoteOutcome::Saved => match kind {
            NoteKind::Memo => Some(String::from_str("メモを預かりました")),
            NoteKind::ChatLog => None,
        },
        NoteOutcome::Unreachable => match kind {
            NoteKind::Memo => Some(String::from_str("Inkdrop に届きませんでした")),
            NoteKind::ChatLog => Some(String::from_str("会話ログを Inkdrop に残せませんでした")),
        },
    }
}

/// The notebooks as `book_lookup` reads them.
pub open spec fn book_views(entries: Seq<json::BookEntry>) -> Seq<(Option<Seq<char>>, Option<Seq<char>>)> {
    Seq::new(entries.len(), |i: int| json::book_entry_view(entries[i]))
}

/// The notebook id for `name` among the notebooks of a `GET /books` reply,
/// and whether the name occurs more than once; `None` when no notebook has
/// that name or the first one that has it lacks an id.
pub fn lookup_book(entries: &Vec<json::BookEntry>, name: &str) -> (r: Option<(String, bool)>)
    ensures
        match r {
            Some((id, dup)) => book_lookup(book_views(entries@), name@) == Some((id@, dup)),
            None => book_lookup(book_views(entries@), name@) is None,
        },
{
    let ghost all = book_views(entries@);
    let nv = text::chars_of(name);
    let mut i: usize = 0;
    assert(all.skip(0) =~= all);
    while i < entries.len()
        invariant
            0 <= i <= entries@.len(),
            all == Seq::new(entries@.len(), |k: int| json::book_entry_view(entries@[k])),
            nv@ == name@,
            book_lookup(all, name@) == book_lookup(all.skip(i as int), name@),
        decreases entries@.len() - i,
    {
        let ghost rest = all.skip(i as int);
        assert(rest[0] == all[i as int]);
        assert(rest.drop_first() =~= all.skip(i + 1));
        let is_name = match &entries[i].name {
            Some(n) => {
                let c = text::chars_of(n.as_str());
                text::same_chars(&c, &nv)
            },
            None => false,
        };
        if is_name {
            let id = match &entries[i].id {
                Some(id) => id.clone(),
                None => {
                    return None;
                },
            };
            let mut dup = false;
            let mut j = i + 1;
            while j < entries.len()
                invariant
                    i < j <= entries@.len(),
                    all == Seq::new(entries@.len(), |k: int| json::book_entry_view(entries@[k])),
                    nv@ == name@,
                    dup == exists|k: int| i + 1 <= k < j && #[trigger] all[k].0 == Some(name@),
                decreases entries@.len() - j,
            {
                let same = match &entries[j].name {
                    Some(n) => {
                        let c = text::chars_of(n.as_str());
                        text::same_chars(&c, &nv)
                    },
                    None => false,
                };
                if same {
                    dup = true;
                }
                proof {
                    if same {
                        assert(all[j as int].0 == Some(name@));
                    } else {
                        assert(all[j as int].0 != Some(name@));
                    }
                }
                j = j + 1;
            }
            assert(dup == exists|k: int| 1 <= k < rest.len() && #[trigger] rest[k].0 == Some(name@))
                by {
                if dup {
                    let k = choose|k: int| i + 1 <= k < entries@.len() && #[trigger] all[k].0 == Some(name@);
                    assert(rest[k - i] == all[k]);
                }
                if exists|k: int| 1 <= k < rest.len() && #[trigger] rest[k].0 == Some(name@) {
                    let k = choose|k: int| 1 <= k < rest.len() && #[trigger] rest[k].0 == Some(name@);
                    assert(rest[k] == all[k + i]);
                }
            }
            return Some((id, dup));
        }
        i = i + 1;
    }
    None
}

/// The notebook id for `name` in a `GET /books` reply, and whether the name
/// occurs more than once; `None` when the reply is not an array or has no
/// such notebook.
pub fn find_book_id(books_json: &str, name: &str) -> (r: Option<(String, bool)>)
    ensures
        match r {
            Some((id, dup)) => json::json_book_list(books_json@) matches Some(b) && book_lookup(
                b,
                name@,
            ) == Some((id@, dup)),
            None => match json::json_book_list(books_json@) {
                Some(b) => book_lookup(b, name@) is None,
                None => true,
            },
        },
{
    match json::json_books(books_json) {
        None => None,
        Some(entries) => {
            assert(book_views(entries@) =~= Seq::new(
                entries@.len(),
                |i: int| json::book_entry_view(entries@[i]),
            ));
            lookup_book(&entries, name)
        },
    }
}

/// `book:XXX` without its `book:` prefix (`XXX` unchanged).
pub fn strip_book_prefix(id: &str) -> (r: &str)
    ensures
        r@ == (if text::has_prefix(id@, "book:"@) {
            id@.skip(5)
        } else {
            id@
        }),
{
    let v = text::chars_of(id);
    let p = text::chars_of("book:");
    proof {
        reveal_strlit("book:");
    }
    if text::starts_with(&v, &p) {
        id.substring_char(5, id.unicode_len())
    } else {
        id
    }
}

/// The number of notes in a `GET /notes` reply; `None` when it is not an array.
pub fn count_notes(notes_json: &str) -> (r: Option<usize>)
    ensures
        match r {
            Some(n) => json::json_array_length(notes_json@) == Some(n as nat),
            None => json::json_array_length(notes_json@) is None,
        },
{
    json::json_array_len(notes_json)
}

/// The inbox reminder speaks when the threshold is on (above 0), the count
/// has reached it, and it has not spoken today.
pub fn should_notify(count: usize, threshold: u32, last_notified: Option<Date>, today: Date) -> (b:
    bool)
    ensures
        b == (threshold > 0 && count >= threshold && last_notified != Some(today)),
{
    let notified_today = match last_notified {
        Some(d) => d.year == today.year && d.month == today.month && d.day == today.day,
        None => false,
    };
    threshold > 0 && count >= threshold as usize && !notified_today
}

/// `n`, or `<limit>+` once `n` reaches `limit`.
pub fn format_count(n: usize, limit: usize) -> (s: String)
    ensures
        s@ == (if n >= limit {
            text::decimal(limit as nat) + "+"@
        } else {
            text::decimal(n as nat)
        }),
{
    let mut out: Vec<char> = Vec::new();
    if n >= limit {
        text::push_decimal(&mut out, limit as u64);
        text::push_str(&mut out, "+");
    } else {
        text::push_decimal(&mut out, n as u64);
    }
    assert(out@ =~= (if n >= limit {
        text::decimal(limit as nat) + "+"@
    } else {
        text::decimal(n as nat)
    }));
    text::string_of(&out)
}

/// The query that counts the notes of a notebook, up to `NOTES_QUERY_LIMIT`.
pub open spec fn inbox_query_text(book_id: Seq<char>) -> Seq<char> {
    let id = if text::has_prefix(book_id, "book:"@) {
        book_id.skip(5)
    } else {
        book_id
    };
    "/notes?keyword=bookId:"@ + id + "&limit="@ + text::decimal(NOTES_QUERY_LIMIT as nat)
}

/// `/notes?keyword=bookId:<id without book:>&limit=100`.
pub fn inbox_query_path(book_id: &str) -> (s: String)
    ensures
        s@ == inbox_query_text(book_id@),
{
    let mut out = text::chars_of("/notes?keyword=bookId:");
    text::push_str(&mut out, strip_book_prefix(book_id));
    text::push_str(&mut out, "&limit=");
    text::push_decimal(&mut out, NOTES_QUERY_LIMIT as u64);
    text::string_of(&out)
}

/// What the mascot says when the inbox holds `count` notes or more than
/// the threshold.
pub open spec fn inbox_message_text(count: usize) -> Seq<char> {
    "Inbox に "@ + (if count >= NOTES_QUERY_LIMIT {
        text::decimal(NOTES_QUERY_LIMIT as nat) + "+"@
    } else {
        text::decimal(count as nat)
    }) + " 件たまっています。そろそろ整理しませんか"@
}

pub fn inbox_message(count: usize) -> (s: String)
    ensures
        s@ == inbox_message_text(count),
{
    let mut out = text::chars_of("Inbox に ");
    let n = format_count(count, NOTES_QUERY_LIMIT);
    text::push_str(&mut out, n.as_str());
    text::push_str(&mut out, " 件たまっています。そろそろ整理しませんか");
    text::string_of(&out)
}

/// The command line that sends one request to Inkdrop's local server with
/// curl: quiet but reporting errors, failing on an HTTP error, with the
/// configured user and password, the method, a JSON body read from standard
/// input where there is one, and the URL on 127.0.0.1 at the configured port.
pub open spec fn curl_argv(
    port: u16,
    username: Seq<char>,
    password: Seq<char>,
    method: Seq<char>,
    path: Seq<char>,
    with_body: bool,
) -> Seq<Seq<char>> {
    seq!["curl"@, "--silent"@, "--show-error"@, "--fail"@, "--user"@, username + ":"@ + password,
        "--request"@, method, "--header"@, "Content-Type: application/json"@] + (if with_body {
        seq!["--data-binary"@, "@-"@]
    } else {
        Seq::empty()
    }) + seq!["http://127.0.0.1:"@ + text::decimal(port as nat) + path]
}

pub fn curl_args(cfg: &InkdropConfig, method: &str, path: &str, with_body: bool) -> (v: Vec<String>)
    ensures
        text::string_views(v@) == curl_argv(
            cfg.port,
            cfg.username@,
            cfg.password@,
            method@,
            path@,
            with_body,
        ),
{
    let mut v: Vec<String> = Vec::new();
    v.push(String::from_str("curl"));
    v.push(String::from_str("--silent"));
    v.push(String::from_str("--show-error"));
    v.push(String::from_str("--fail"));
    v.push(String::from_str("--user"));
    let mut user = text::chars_of(cfg.username.as_str());
    text::push_str(&mut user, ":");
    text::push_str(&mut user, cfg.password.as_str());
    v.push(text::string_of(&user));
    v.push(String::from_str("--request"));
    v.push(String::from_str(method));
    v.push(String::from_str("--header"));
    v.push(String::from_str("Content-Type: application/json"));
    if with_body {
        v.push(String::from_str("--data-binary"));
        v.push(String::from_str("@-"));
    }
    let mut url = text::chars_of("http://127.0.0.1:");
    text::push_decimal(&mut url, cfg.port as u64);
    text::push_str(&mut url, path);
    v.push(text::string_of(&url));
    assert(text::string_views(v@) =~= curl_argv(
        cfg.port,
        cfg.username@,
        cfg.password@,
        method@,
        path@,
        with_body,
    ));
    v
}

} // verus!
