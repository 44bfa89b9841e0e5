use miryam::chat::{
    bubble_secs, build_chat_prompt, chat_note, default_command, default_idle_close,
    default_timeout, postprocess_chat, postprocess_window, split_choices, ChatConfig,
    ChatConfigError, ChatSession, Role, Turn,
};
use miryam::clock::LocalTime;
use miryam::phrases::{Snapshot, Weekday};
use miryam::system::{CpuLevel, MemLevel};

fn test_snapshot() -> Snapshot {
    Snapshot {
        hour: 6,
        weekday: Weekday::Mon,
        month: 6,
        day: 15,
        uptime_secs: 2 * 3600,
        cpu: CpuLevel::Idle,
        mem: MemLevel::High,
    }
}

fn turn(role: Role, text: &str) -> Turn {
    Turn { role, text: text.to_string() }
}

fn default_config() -> ChatConfig {
    ChatConfig {
        command: vec!["assistant".to_string(), "-p".to_string()],
        timeout_secs: default_timeout(),
        idle_close_secs: default_idle_close(),
        prompt: None,
    }
}

fn at(h: u32, m: u32) -> LocalTime {
    LocalTime { year: 2026, month: 8, day: 9, hour: h, minute: m, second: 0 }
}

#[test]
fn the_durations_have_defaults_but_the_command_must_be_given() {
    let mut cfg = default_config();
    cfg.command = default_command();
    assert!(cfg.command.is_empty());
    assert_eq!(cfg.timeout_secs, 60);
    assert_eq!(cfg.idle_close_secs, 600);
    assert!(cfg.prompt.is_none());
    assert_eq!(cfg.validate(), Err(ChatConfigError::EmptyCommand));
    cfg.command = vec!["assistant".to_string(), "-p".to_string()];
    assert!(cfg.validate().is_ok());
}

#[test]
fn chat_config_validation_errors() {
    let mut bad = default_config();
    bad.command = vec![];
    assert_eq!(bad.validate(), Err(ChatConfigError::EmptyCommand));
    let mut bad = default_config();
    bad.timeout_secs = 0;
    assert_eq!(bad.validate(), Err(ChatConfigError::ZeroTimeout));
    let mut bad = default_config();
    bad.idle_close_secs = 0;
    assert_eq!(bad.validate(), Err(ChatConfigError::ZeroIdleClose));
}

#[test]
fn build_chat_prompt_without_history() {
    let cfg = default_config();
    let p = build_chat_prompt(&cfg, &[], "やあ", &test_snapshot());
    assert!(p.starts_with("あなたはデスクトップ右下に常駐する小さなマスコット「miryam」です。"));
    assert!(p.contains("状況: 時間帯=morning, 曜日=mon, CPU=idle, メモリ=high, 連続稼働=2時間"));
    assert!(!p.contains("これまでの会話:"), "履歴なしではブロックを出さない");
    assert!(p.ends_with("ユーザー: やあ\nmiryam:"));
}

#[test]
fn build_chat_prompt_with_history() {
    let cfg = default_config();
    let turns = vec![turn(Role::User, "一言目"), turn(Role::Mascot, "返答一")];
    let p = build_chat_prompt(&cfg, &turns, "二言目", &test_snapshot());
    assert!(p.contains("これまでの会話:\nユーザー: 一言目\nmiryam: 返答一\n"));
    assert!(p.ends_with("ユーザー: 二言目\nmiryam:"));
}

#[test]
fn build_chat_prompt_truncates_history_to_last_20() {
    let cfg = default_config();
    let mut turns = Vec::new();
    for i in 1..=15 {
        turns.push(turn(Role::User, &format!("user{i}")));
        turns.push(turn(Role::Mascot, &format!("reply{i}")));
    }
    let p = build_chat_prompt(&cfg, &turns, "next", &test_snapshot());
    assert!(!p.contains("ユーザー: user5\n"), "古い発言 (先頭 10 件) は落ちる");
    assert!(p.contains("ユーザー: user6\n"), "直近 20 発言の先頭は user6");
    assert!(p.contains("miryam: reply15\n"));
}

#[test]
fn build_chat_prompt_custom_persona() {
    let mut cfg = default_config();
    cfg.prompt = Some("関西弁で話して".to_string());
    let p = build_chat_prompt(&cfg, &[], "やあ", &test_snapshot());
    assert!(p.starts_with("関西弁で話して\n状況: "));
}

#[test]
fn postprocess_chat_keeps_multiline_and_trims() {
    assert_eq!(
        postprocess_chat("  こんにちは。\n今日もいい天気ですね。\n").as_deref(),
        Some("こんにちは。\n今日もいい天気ですね。")
    );
}

#[test]
fn postprocess_chat_caps_at_300_chars() {
    let long = "あ".repeat(400);
    assert_eq!(postprocess_chat(&long).unwrap().chars().count(), 300);
}

#[test]
fn postprocess_chat_empty_is_none() {
    assert!(postprocess_chat("").is_none());
    assert!(postprocess_chat("  \n \n").is_none());
}

#[test]
fn bubble_secs_scales_with_length() {
    assert_eq!(bubble_secs("短い"), 6);
    assert_eq!(bubble_secs(&"あ".repeat(100)), 16);
    assert_eq!(bubble_secs(&"あ".repeat(140)), 20);
    assert_eq!(bubble_secs(&"あ".repeat(300)), 20, "上限 20 秒");
}

#[test]
fn push_exchange_appends_user_mascot_pair() {
    let mut s = ChatSession::new(at(14, 30));
    s.push_exchange("こんにちは".to_string(), "やあ".to_string());
    assert_eq!(s.turns.len(), 2);
    assert_eq!(s.turns[0].role, Role::User);
    assert_eq!(s.turns[0].text, "こんにちは");
    assert_eq!(s.turns[1].role, Role::Mascot);
    assert_eq!(s.turns[1].text, "やあ");
}

#[test]
fn chat_note_formats_title_and_body() {
    let mut s = ChatSession::new(at(14, 30));
    s.push_exchange("こんにちは".to_string(), "やあ".to_string());
    s.push_exchange("二言目".to_string(), "返答".to_string());
    let (title, body) = chat_note(&s, &at(14, 42));
    assert_eq!(title, "会話ログ 2026-08-09 14:30");
    assert_eq!(
        body,
        "**ユーザー**: こんにちは\n**miryam**: やあ\n\n\
         **ユーザー**: 二言目\n**miryam**: 返答\n\n\
         ---\n- 開始: 2026-08-09 14:30\n- 終了: 2026-08-09 14:42\nSource: miryam chat"
    );
}

#[test]
fn chat_note_keeps_multiline_reply() {
    let mut s = ChatSession::new(at(9, 0));
    s.push_exchange("q".to_string(), "一行目\n二行目".to_string());
    let (_, body) = chat_note(&s, &at(9, 5));
    assert!(body.starts_with("**ユーザー**: q\n**miryam**: 一行目\n二行目\n"));
}

#[test]
fn split_choices_extracts_up_to_three() {
    let (body, choices) =
        split_choices("本文一行目。\n二行目。\n>> 候補A\n>> 候補B\n>> 候補C\n>> 候補D");
    assert_eq!(body, "本文一行目。\n二行目。");
    assert_eq!(choices, vec!["候補A", "候補B", "候補C"], "4 個目は捨てる");
}

#[test]
fn split_choices_no_marker_returns_full_body() {
    let (body, choices) = split_choices("マーカーのない返答です。");
    assert_eq!(body, "マーカーのない返答です。");
    assert!(choices.is_empty());
}

#[test]
fn split_choices_drops_empty_choice_and_keeps_midtext_marker() {
    let (body, choices) = split_choices("前半。\n>> 深掘りする\n後半。\n>>\n>>   ");
    assert_eq!(body, "前半。\n後半。", "本文途中のマーカー行も抽出される");
    assert_eq!(choices, vec!["深掘りする"], ">> のみ・空白のみの候補は捨てる");
}

#[test]
fn split_choices_tolerates_leading_whitespace_and_trims() {
    let (body, choices) = split_choices("本文。\n  >> 例文を 3 つ見せて  \n");
    assert_eq!(body, "本文。");
    assert_eq!(choices, vec!["例文を 3 つ見せて"]);
}

#[test]
fn split_choices_all_markers_gives_empty_body() {
    let (body, choices) = split_choices(">> A\n>> B");
    assert_eq!(body, "");
    assert_eq!(choices, vec!["A", "B"]);
}

#[test]
fn postprocess_window_keeps_multiline_and_trims() {
    assert_eq!(
        postprocess_window("  一行目\n\n二行目  \n").as_deref(),
        Some("一行目\n\n二行目")
    );
}

#[test]
fn postprocess_window_caps_at_2000_chars() {
    let long = "あ".repeat(2500);
    assert_eq!(postprocess_window(&long).unwrap().chars().count(), 2000);
}

#[test]
fn postprocess_window_empty_is_none() {
    assert!(postprocess_window("").is_none());
    assert!(postprocess_window("  \n \n").is_none());
}

#[test]
fn a_session_records_exchanges_in_user_then_mascot_order() {
    let mut s = ChatSession::new(at(10, 0));
    for i in 0..3 {
        s.push_exchange(format!("q{i}"), format!("a{i}"));
    }
    assert_eq!(s.turns.len(), 6);
    for (i, t) in s.turns.iter().enumerate() {
        let want = if i % 2 == 0 { Role::User } else { Role::Mascot };
        assert_eq!(t.role, want);
    }
    assert_eq!(s.started_at, at(10, 0));
}
