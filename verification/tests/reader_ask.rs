use miryam::reader::ask::{
    actions, find, postprocess, qa_heading, Action, ANSWER_MAX_CHARS, HISTORY_MAX,
};
use miryam::reader::store::LlmQa;

fn qa(kind: &str, q: &str, a: &str) -> LlmQa<u64> {
    LlmQa { kind: kind.into(), q: q.into(), a: a.into(), at: 0 }
}

fn ask_action() -> Action {
    find("ask").expect("ask がある")
}

#[test]
fn find_returns_none_for_an_unknown_kind() {
    assert!(find("summarize").is_none(), "まだ足していない操作は None");
    assert!(find("").is_none());
}

#[test]
fn every_action_has_a_unique_kind_and_a_label() {
    let mut seen = std::collections::HashSet::new();
    for a in actions() {
        assert!(!a.kind.is_empty(), "kind は空にできない");
        assert!(!a.label.is_empty(), "label は空にできない");
        assert!(seen.insert(a.kind), "kind が重複している: {}", a.kind);
    }
}

#[test]
fn the_ask_action_has_the_expected_kind_label_and_needs_question() {
    let a = ask_action();
    assert_eq!(a.kind, "ask");
    assert_eq!(a.label, "LLM に聞く");
    assert!(a.needs_question, "「聞く」は質問文の入力を必要とする");
}

#[test]
fn the_translate_action_has_the_expected_kind_label_and_needs_question() {
    let a = find("translate").expect("翻訳がある");
    assert_eq!(a.kind, "translate");
    assert_eq!(a.label, "翻訳");
    assert!(!a.needs_question, "翻訳は質問文の入力を必要としない (方向固定)");
}

#[test]
fn the_translate_prompt_carries_the_quote_and_asks_for_japanese() {
    let p = find("translate").expect("翻訳がある").prompt::<u64>("English text", &[], "");
    assert!(p.contains("English text"), "引用文が入る: {p}");
    assert!(p.contains("日本語"), "日本語への翻訳を指示する: {p}");
}

#[test]
fn the_translate_prompt_ignores_past_exchanges() {
    let history = [qa("ask", "前の質問", "前の答え")];
    let p = find("translate").expect("翻訳がある").prompt("English text", &history, "");
    assert!(!p.contains("前の質問"), "過去の問答は翻訳に載らない: {p}");
    assert!(!p.contains("前の答え"), "過去の答えも載らない: {p}");
}

#[test]
fn the_ask_prompt_carries_the_quote_and_the_question() {
    let p = ask_action().prompt::<u64>("引用文です", &[], "これはどういう意味?");
    assert!(p.contains("引用文です"), "引用文が入る: {p}");
    assert!(p.contains("これはどういう意味?"), "質問が入る: {p}");
}

#[test]
fn the_ask_prompt_carries_previous_exchanges() {
    let history = [qa("ask", "前の質問", "前の答え")];
    let p = ask_action().prompt("引用文", &history, "もっと簡単に言うと?");
    assert!(p.contains("前の質問"), "過去の質問が入る: {p}");
    assert!(p.contains("前の答え"), "過去の答えが入る: {p}");
}

#[test]
fn the_ask_prompt_labels_question_and_answer_correctly() {
    let history = [qa("ask", "前の質問", "前の答え")];
    let p = ask_action().prompt("引用文", &history, "いま");
    assert!(p.contains("Q: 前の質問"), "質問には Q: が付く: {p}");
    assert!(p.contains("A: 前の答え"), "答えには A: が付く: {p}");
}

#[test]
fn the_ask_prompt_keeps_only_the_last_exchanges() {
    let history: Vec<LlmQa<u64>> =
        (0..HISTORY_MAX + 5).map(|i| qa("ask", &format!("Q{i}"), &format!("A{i}"))).collect();
    let p = ask_action().prompt("引用文", &history, "いま");
    assert!(!p.contains("Q0"), "古いものは落ちる: {p}");
    let newest = HISTORY_MAX + 4;
    assert!(p.contains(&format!("Q{newest}")), "新しいものは残る: {p}");
}

#[test]
fn the_ask_prompt_sends_nothing_but_the_quote_and_the_exchanges() {
    let p = ask_action().prompt::<u64>("引用文", &[], "質問");
    assert!(!p.contains("ページ"), "ページ全文をほのめかす語が入らない: {p}");
}

#[test]
fn postprocess_trims_and_keeps_multiple_lines() {
    assert_eq!(postprocess("  一行目\n二行目  \n"), Some("一行目\n二行目".to_string()));
}

#[test]
fn postprocess_of_blank_output_is_none() {
    assert_eq!(postprocess("   \n\n "), None);
    assert_eq!(postprocess(""), None);
}

#[test]
fn postprocess_caps_a_very_long_answer() {
    let long = "あ".repeat(ANSWER_MAX_CHARS + 100);
    let got = postprocess(&long).expect("空ではない");
    assert_eq!(got.chars().count(), ANSWER_MAX_CHARS, "文字数で切ること (バイトではない)");
}

#[test]
fn postprocess_keeps_exactly_answer_max_chars() {
    let at_cap = "あ".repeat(ANSWER_MAX_CHARS);
    assert_eq!(postprocess(&at_cap), Some(at_cap.clone()), "ちょうど上限は切らない");
    let over = "あ".repeat(ANSWER_MAX_CHARS + 1);
    let got = postprocess(&over).expect("空ではない");
    assert_eq!(got, at_cap, "1 文字超えたら 1 文字だけ切れる");
}

#[test]
fn the_ask_prompt_keeps_exactly_history_max_exchanges() {
    let at_cap: Vec<LlmQa<u64>> =
        (0..HISTORY_MAX).map(|i| qa("ask", &format!("Q{i}"), &format!("A{i}"))).collect();
    let p = ask_action().prompt("引用文", &at_cap, "いま");
    assert!(p.contains("Q: Q0\nA: A0"), "ちょうど上限なら最古も残る: {p}");
    assert!(
        p.contains(&format!("Q: Q{}\nA: A{}", HISTORY_MAX - 1, HISTORY_MAX - 1)),
        "最新も残る: {p}"
    );
    let over: Vec<LlmQa<u64>> =
        (0..=HISTORY_MAX).map(|i| qa("ask", &format!("Q{i}"), &format!("A{i}"))).collect();
    let p = ask_action().prompt("引用文", &over, "いま");
    assert!(!p.contains("Q: Q0\n"), "1 件超えたら最古が落ちる: {p}");
    assert!(p.contains("Q: Q1\nA: A1"), "最古の次は残る: {p}");
    assert!(p.contains(&format!("Q: Q{}\nA: A{}", HISTORY_MAX, HISTORY_MAX)), "最新は残る: {p}");
}

#[test]
fn answer_cap_is_2000() {
    assert_eq!(ANSWER_MAX_CHARS, 2000);
}

#[test]
fn history_cap_is_10() {
    assert_eq!(HISTORY_MAX, 10);
}

#[test]
fn a_question_action_headings_with_the_question_text() {
    let q = qa("ask", "この一節の主題は?", "これ");
    assert_eq!(qa_heading(&q, find("ask").as_ref()), "この一節の主題は?");
}

#[test]
fn an_action_without_a_question_headings_with_its_label() {
    let translate = find("translate").expect("翻訳がある");
    assert_eq!(qa_heading(&qa("translate", "", "Bonjour"), Some(&translate)), "翻訳");
}

#[test]
fn an_unknown_kind_is_shown_as_is() {
    assert_eq!(qa_heading(&qa("translate", "", "x"), None), "translate");
    assert_eq!(qa_heading(&qa("ask-future", "質問", "x"), None), "ask-future");
}

#[test]
fn an_old_sidecar_without_kind_uses_the_question_text() {
    assert_eq!(qa_heading(&qa("", "なに?", "これ"), None), "なに?");
}

#[test]
fn an_old_sidecar_without_kind_nor_question_is_unknown() {
    assert_eq!(qa_heading(&qa("", "", "これ"), None), "（不明）");
}
