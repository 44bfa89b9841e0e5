use miryam::clock::Date;
use miryam::inkdrop::{
    capture_note, count_notes, curl_args, default_port, default_threshold, find_book_id,
    format_count, inbox_message, inbox_query_path, lookup_book, note_payload, should_notify,
    strip_book_prefix, InkdropConfig, InkdropConfigError, NOTES_QUERY_LIMIT,
};
use miryam::inkdrop::{note_reply, NoteKind, NoteOutcome};
use miryam::json::BookEntry;

fn cfg(username: &str, password: &str, book: &str) -> InkdropConfig {
    InkdropConfig {
        port: default_port(),
        username: username.to_string(),
        password: password.to_string(),
        book: book.to_string(),
        inbox_threshold: default_threshold(),
        chat_book: None,
    }
}

#[test]
fn config_defaults_and_ok() {
    let c = cfg("u", "p", "Inbox");
    assert!(c.validate().is_ok());
    assert_eq!(c.inbox_threshold, 10);
    assert_eq!(c.port, 19840);
    assert_eq!(c.book, "Inbox");
}

#[test]
fn config_validation_errors() {
    assert_eq!(cfg("", "p", "b").validate(), Err(InkdropConfigError::EmptyUsername));
    assert_eq!(cfg("u:x", "p", "b").validate(), Err(InkdropConfigError::ColonInUsername));
    assert_eq!(cfg("u", "", "b").validate(), Err(InkdropConfigError::EmptyPassword));
    assert_eq!(cfg("u", "p", "").validate(), Err(InkdropConfigError::EmptyBook));
    let mut c = cfg("u", "p", "b");
    c.port = 0;
    assert_eq!(c.validate(), Err(InkdropConfigError::ZeroPort));
    let mut c = cfg("u", "p", "b");
    c.inbox_threshold = 101;
    assert_eq!(c.validate(), Err(InkdropConfigError::ThresholdTooHigh));
    let mut c = cfg("u", "p", "b");
    c.inbox_threshold = 100;
    assert!(c.validate().is_ok());
}

#[test]
fn capture_note_builds_title_and_meta() {
    let (title, body) = capture_note("  \n一行目のメモ\n二行目", "2026-08-08");
    assert_eq!(title, "一行目のメモ");
    assert!(body.starts_with("  \n一行目のメモ\n二行目"));
    assert!(body.ends_with("Source: miryam-ctl\nCaptured: 2026-08-08"));
}

#[test]
fn capture_note_truncates_title_to_60_chars() {
    let long = "あ".repeat(70);
    let (title, _) = capture_note(&long, "2026-08-08");
    assert_eq!(title.chars().count(), 60);
}

#[test]
fn capture_note_of_blank_text_is_titled_memo() {
    let (title, body) = capture_note("  \n ", "2026-01-02");
    assert_eq!(title, "メモ");
    assert_eq!(body, "  \n \n\nSource: miryam-ctl\nCaptured: 2026-01-02");
}

#[test]
fn note_payload_escapes_and_sets_fields() {
    let p = note_payload("book:JIRjBz3s", "ti\"tle", "line1\nline2\\end 日本語");
    let v: serde_json::Value = serde_json::from_str(&p).unwrap();
    assert_eq!(v["doctype"], "markdown");
    assert_eq!(v["status"], "none");
    assert_eq!(v["share"], "private");
    assert_eq!(v["bookId"], "book:JIRjBz3s");
    assert_eq!(v["title"], "ti\"tle");
    assert_eq!(v["body"], "line1\nline2\\end 日本語");
}

#[test]
fn finds_book_id_with_duplicates() {
    let json = r#"[
        {"_id":"book:aaa","name":"Inbox","parentBookId":null},
        {"_id":"book:bbb","name":"Work","parentBookId":null},
        {"_id":"book:ccc","name":"Inbox","parentBookId":"book:bbb"}
    ]"#;
    assert_eq!(find_book_id(json, "Inbox"), Some(("book:aaa".to_string(), true)));
    assert_eq!(find_book_id(json, "Work"), Some(("book:bbb".to_string(), false)));
    assert_eq!(find_book_id(json, "None"), None);
    assert_eq!(find_book_id("{}", "Inbox"), None, "非配列は None");
    assert_eq!(find_book_id("not json", "Inbox"), None);
}

#[test]
fn strips_book_prefix() {
    assert_eq!(strip_book_prefix("book:JIRjBz3s"), "JIRjBz3s");
    assert_eq!(strip_book_prefix("JIRjBz3s"), "JIRjBz3s");
}

#[test]
fn counts_notes() {
    assert_eq!(count_notes("[]"), Some(0));
    assert_eq!(count_notes(r#"[{"_id":"note:1"},{"_id":"note:2"}]"#), Some(2));
    assert_eq!(count_notes(r#"{"error":true}"#), None);
    assert_eq!(count_notes("broken"), None);
}

#[test]
fn should_notify_gates() {
    let today = Date { year: 2026, month: 8, day: 8 };
    let yesterday = Date { year: 2026, month: 8, day: 7 };
    assert!(should_notify(10, 10, None, today), "しきい値ちょうどで発火");
    assert!(!should_notify(9, 10, None, today));
    assert!(!should_notify(10, 0, None, today), "0 は無効");
    assert!(!should_notify(10, 10, Some(today), today), "同日再通知なし");
    assert!(should_notify(10, 10, Some(yesterday), today), "翌日は再通知");
}

#[test]
fn formats_count() {
    assert_eq!(format_count(99, 100), "99");
    assert_eq!(format_count(100, 100), "100+");
}

#[test]
fn inbox_query_asks_for_the_notebook_without_its_prefix() {
    assert_eq!(inbox_query_path("book:JIRjBz3s"), "/notes?keyword=bookId:JIRjBz3s&limit=100");
    assert_eq!(inbox_query_path("abc"), "/notes?keyword=bookId:abc&limit=100");
}

#[test]
fn inbox_message_caps_the_count() {
    assert_eq!(inbox_message(12), "Inbox に 12 件たまっています。そろそろ整理しませんか");
    assert_eq!(
        inbox_message(NOTES_QUERY_LIMIT),
        "Inbox に 100+ 件たまっています。そろそろ整理しませんか"
    );
}

#[test]
fn conversation_logs_go_to_the_chat_book_or_else_the_book() {
    let mut c = cfg("u", "p", "Inbox");
    assert_eq!(c.chat_book_name(), "Inbox");
    c.chat_book = Some("ChatLog".into());
    assert_eq!(c.chat_book_name(), "ChatLog");
}

fn book(name: Option<&str>, id: Option<&str>) -> BookEntry {
    BookEntry { name: name.map(str::to_string), id: id.map(str::to_string) }
}

#[test]
fn lookup_book_takes_the_first_match_and_notes_a_second() {
    let books = vec![
        book(Some("Work"), Some("book:w")),
        book(None, Some("book:x")),
        book(Some("Inbox"), Some("book:a")),
        book(Some("Inbox"), Some("book:b")),
    ];
    assert_eq!(lookup_book(&books, "Inbox"), Some(("book:a".to_string(), true)));
    assert_eq!(lookup_book(&books, "Work"), Some(("book:w".to_string(), false)));
    assert_eq!(lookup_book(&books, "inbox"), None, "名前は完全一致");
    assert_eq!(lookup_book(&Vec::new(), "Inbox"), None);
}

#[test]
fn lookup_book_without_an_id_on_the_first_match_is_none() {
    let books = vec![book(Some("Inbox"), None), book(Some("Inbox"), Some("book:b"))];
    assert_eq!(lookup_book(&books, "Inbox"), None);
}

#[test]
fn curl_args_post_a_body_from_standard_input() {
    let c = cfg("me", "secret", "Inbox");
    let argv = curl_args(&c, "POST", "/notes", true);
    let want: Vec<String> = [
        "curl",
        "--silent",
        "--show-error",
        "--fail",
        "--user",
        "me:secret",
        "--request",
        "POST",
        "--header",
        "Content-Type: application/json",
        "--data-binary",
        "@-",
        "http://127.0.0.1:19840/notes",
    ]
    .iter()
    .map(|s| s.to_string())
    .collect();
    assert_eq!(argv, want);
}

#[test]
fn curl_args_without_a_body_send_no_data() {
    let mut c = cfg("me", "secret", "Inbox");
    c.port = 8080;
    let argv = curl_args(&c, "GET", "/books", false);
    assert_eq!(argv.len(), 11);
    assert_eq!(argv[7], "GET");
    assert_eq!(argv[10], "http://127.0.0.1:8080/books");
    assert!(!argv.iter().any(|a| a == "--data-binary"));
}

#[test]
fn note_replies_follow_the_kind_and_outcome() {
    assert_eq!(note_reply(NoteKind::Memo, NoteOutcome::Saved, "Inbox").as_deref(), Some("メモを預かりました"));
    assert_eq!(
        note_reply(NoteKind::Memo, NoteOutcome::NotebookMissing, "Inbox").as_deref(),
        Some("ノートブック \"Inbox\" が見つかりません")
    );
    assert_eq!(
        note_reply(NoteKind::Memo, NoteOutcome::Unreachable, "Inbox").as_deref(),
        Some("Inkdrop に届きませんでした")
    );
    assert_eq!(note_reply(NoteKind::ChatLog, NoteOutcome::Saved, "ChatLog"), None);
    assert_eq!(
        note_reply(NoteKind::ChatLog, NoteOutcome::Unreachable, "ChatLog").as_deref(),
        Some("会話ログを Inkdrop に残せませんでした")
    );
    assert_eq!(
        note_reply(NoteKind::ChatLog, NoteOutcome::NotebookMissing, "ChatLog").as_deref(),
        Some("ノートブック \"ChatLog\" が見つかりません")
    );
}
