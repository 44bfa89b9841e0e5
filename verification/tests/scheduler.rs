use miryam::scheduler::{
    duration_until_next_hour, next_speech_interval, pick_recall_at, BUBBLE_VISIBLE_SECS,
    SPEECH_INTERVAL_MAX_SECS, SPEECH_INTERVAL_MIN_SECS,
};

#[test]
fn interval_is_within_bounds() {
    for _ in 0..200 {
        let d = next_speech_interval(SPEECH_INTERVAL_MIN_SECS, SPEECH_INTERVAL_MAX_SECS);
        assert!(d >= SPEECH_INTERVAL_MIN_SECS, "{d} が下限未満");
        assert!(d <= SPEECH_INTERVAL_MAX_SECS, "{d} が上限超過");
    }
}

#[test]
fn interval_honors_custom_bounds() {
    for _ in 0..100 {
        let d = next_speech_interval(15, 45);
        assert!((15..=45).contains(&d), "{d} が範囲外");
    }
    assert_eq!(next_speech_interval(10, 10), 10);
}

#[test]
fn pick_recall_of_empty_remarks_is_none() {
    assert_eq!(pick_recall_at(&[], true, 0), None);
}

#[test]
fn pick_recall_of_a_lost_draw_is_none() {
    assert_eq!(pick_recall_at(&["面白かった".into()], false, 0), None);
}

/// The draw as the caller makes it: a uniform `gate` in 0.0..1.0 wins below
/// the configured probability.
fn drawn(probability: f64, gate: f64) -> bool {
    gate < probability
}

#[test]
fn pick_recall_of_zero_probability_is_none() {
    assert_eq!(pick_recall_at(&["面白かった".into()], drawn(0.0, 0.0), 0), None);
}

#[test]
fn pick_recall_gates_on_the_probability() {
    let remarks = vec!["面白かった".to_string()];
    assert_eq!(pick_recall_at(&remarks, drawn(0.1, 0.05), 0).as_deref(), Some("面白かった"));
    assert_eq!(pick_recall_at(&remarks, drawn(0.1, 0.5), 0), None, "gate >= probability は外れ");
    assert_eq!(pick_recall_at(&remarks, drawn(0.1, 0.1), 0), None, "gate == probability も外れ");
}

#[test]
fn pick_recall_selects_by_index_without_going_out_of_bounds() {
    let remarks = vec!["a".to_string(), "b".to_string(), "c".to_string()];
    assert_eq!(pick_recall_at(&remarks, true, 100).as_deref(), Some("b"));
    assert_eq!(pick_recall_at(&remarks, true, 2).as_deref(), Some("c"));
}

#[test]
fn duration_until_next_hour_boundaries() {
    assert_eq!(duration_until_next_hour(59, 59), 1);
    assert_eq!(duration_until_next_hour(0, 0), 3600);
    assert_eq!(duration_until_next_hour(30, 0), 1800);
    assert_eq!(duration_until_next_hour(59, 60), 1, "うるう秒でも 0 にならない");
}

#[test]
fn the_bubble_stays_six_seconds() {
    assert_eq!(BUBBLE_VISIBLE_SECS, 6);
    assert_eq!((SPEECH_INTERVAL_MIN_SECS, SPEECH_INTERVAL_MAX_SECS), (30, 90));
}

use miryam::scheduler::{SpeechConfig, SpeechConfigError};

#[test]
fn speech_bounds_are_checked() {
    let d = SpeechConfig::defaults();
    assert_eq!((d.interval_min_secs, d.interval_max_secs), (30, 90));
    assert!(d.validate().is_ok());
    let c = SpeechConfig { interval_min_secs: 4, interval_max_secs: 10 };
    assert_eq!(c.validate(), Err(SpeechConfigError::MinTooShort));
    let c = SpeechConfig { interval_min_secs: 15, interval_max_secs: 14 };
    assert_eq!(c.validate(), Err(SpeechConfigError::MaxBelowMin));
    let c = SpeechConfig { interval_min_secs: 15, interval_max_secs: 15 };
    assert!(c.validate().is_ok());
}
