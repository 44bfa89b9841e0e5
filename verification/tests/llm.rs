use miryam::llm::{build_prompt, check_llm, default_llm_timeout, postprocess, LlmConfigError};
use miryam::phrases::{Snapshot, Weekday};
use miryam::system::{CpuLevel, MemLevel};

fn test_snapshot() -> Snapshot {
    Snapshot {
        hour: 6,
        weekday: Weekday::Mon,
        month: 6,
        day: 15,
        uptime_secs: 2 * 3600 + 120,
        cpu: CpuLevel::Idle,
        mem: MemLevel::High,
    }
}

fn probability_ok(p: f64) -> bool {
    (0.0..=1.0).contains(&p)
}

fn command(args: &[&str]) -> Vec<String> {
    args.iter().map(|s| s.to_string()).collect()
}

#[test]
fn llm_config_validation_errors() {
    let cmd = command(&["llm", "-p"]);
    assert!(matches!(
        check_llm(&cmd, probability_ok(1.5), 30),
        Err(LlmConfigError::ProbabilityOutOfRange)
    ));
    assert!(matches!(
        check_llm(&cmd, probability_ok(-0.1), 30),
        Err(LlmConfigError::ProbabilityOutOfRange)
    ));
    assert!(matches!(check_llm(&Vec::new(), probability_ok(0.2), 30), Err(LlmConfigError::EmptyCommand)));
    assert!(matches!(check_llm(&cmd, probability_ok(0.2), 0), Err(LlmConfigError::ZeroTimeout)));
}

#[test]
fn a_complete_llm_section_is_accepted() {
    let cmd = command(&["llm", "-p"]);
    assert!(check_llm(&cmd, probability_ok(0.2), default_llm_timeout()).is_ok());
    assert_eq!(default_llm_timeout(), 30);
}

#[test]
fn build_prompt_uses_default_persona_and_context() {
    let p = build_prompt(None, &test_snapshot());
    assert!(p.starts_with("あなたはデスクトップ右下に常駐する小さなマスコット「miryam」です。"));
    assert!(p.ends_with("状況: 時間帯=morning, 曜日=mon, CPU=idle, メモリ=high, 連続稼働=2時間"));
}

#[test]
fn build_prompt_custom_persona() {
    let p = build_prompt(Some("俳句で返して"), &test_snapshot());
    assert!(p.starts_with("俳句で返して\n状況: "));
}

#[test]
fn postprocess_picks_first_nonempty_line() {
    assert_eq!(postprocess("  \n\n  こんにちは  \n二行目").as_deref(), Some("こんにちは"));
}

#[test]
fn postprocess_truncates_to_60_chars() {
    let long = "あ".repeat(70);
    let got = postprocess(&long).unwrap();
    assert_eq!(got.chars().count(), 60);
}

#[test]
fn postprocess_empty_is_none() {
    assert!(postprocess("").is_none());
    assert!(postprocess("  \n \n").is_none());
}
