use miryam::control::{parse_timer_spec, TimerFault, DEFAULT_TIMER_MESSAGE, MAX_TIMER_SECS};

#[test]
fn parses_minutes_with_message() {
    let (d, m) = parse_timer_spec("25m 休憩").unwrap();
    assert_eq!(d, 25 * 60);
    assert_eq!(m, "休憩");
}

#[test]
fn parses_seconds_with_default_message() {
    let (d, m) = parse_timer_spec("90s").unwrap();
    assert_eq!(d, 90);
    assert_eq!(m, DEFAULT_TIMER_MESSAGE);
}

#[test]
fn joins_message_words_and_parses_hours() {
    let (d, m) = parse_timer_spec("1h 会議 の 時間").unwrap();
    assert_eq!(d, 3600);
    assert_eq!(m, "会議 の 時間");
}

#[test]
fn accepts_max_24h() {
    assert!(parse_timer_spec("24h").is_ok());
    assert!(parse_timer_spec("86400s").is_ok());
}

#[test]
fn rejects_bad_specs() {
    for bad in [
        "",
        "  ",
        "25x",
        "m",
        "0m",
        "-5m",
        "25h",
        "86401s",
        "２５m",
        "1.5h",
        "18446744073709551615h",
    ] {
        assert!(parse_timer_spec(bad).is_err(), "{bad:?} はエラーのはず");
    }
}

#[test]
fn each_refusal_names_its_fault_and_word() {
    let e = parse_timer_spec("   ").unwrap_err();
    assert_eq!(e.fault, TimerFault::MissingDuration);
    assert_eq!(e.token, "");
    let e = parse_timer_spec("25x 休憩").unwrap_err();
    assert_eq!(e.fault, TimerFault::UnknownUnit);
    assert_eq!(e.token, "25x");
    let e = parse_timer_spec("1.5h").unwrap_err();
    assert_eq!(e.fault, TimerFault::NotPositiveInteger);
    assert_eq!(e.token, "1.5h");
    let e = parse_timer_spec("99999999999999999999s").unwrap_err();
    assert_eq!(e.fault, TimerFault::NotANumber);
    let e = parse_timer_spec("0m").unwrap_err();
    assert_eq!(e.fault, TimerFault::Zero);
    let e = parse_timer_spec("86401s").unwrap_err();
    assert_eq!(e.fault, TimerFault::OverMaximum);
    assert_eq!(e.token, "86401s");
}

#[test]
fn an_accepted_timer_lies_between_a_second_and_a_day() {
    for spec in ["1s", "59m", "24h", "5m 休憩", "007s"] {
        let (secs, msg) = parse_timer_spec(spec).unwrap();
        assert!((1..=MAX_TIMER_SECS).contains(&secs), "{spec}");
        assert!(!msg.is_empty());
    }
}
