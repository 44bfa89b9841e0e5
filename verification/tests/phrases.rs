use miryam::phrases::{
    parse_cpu_level, parse_mem_level, parse_weekday, substitute_placeholders, time_band_name,
    weekday_name, EventKind, GroupRaw, MonthDay, PhraseBook, PhraseError, PhrasesFile, Snapshot,
    TimeBand, Weekday,
};
use miryam::system::{CpuLevel, MemLevel};

fn snap(hour: u32, weekday: Weekday, month: u32, day: u32, uptime_h: u64) -> Snapshot {
    Snapshot {
        hour,
        weekday,
        month,
        day,
        uptime_secs: uptime_h * 3600,
        cpu: CpuLevel::Normal,
        mem: MemLevel::Normal,
    }
}

fn strings(v: &[&str]) -> Vec<String> {
    v.iter().map(|s| s.to_string()).collect()
}

fn group(phrases: &[&str]) -> GroupRaw {
    GroupRaw {
        time: None,
        days: None,
        dates: None,
        cpu: None,
        mem: None,
        uptime_hours: None,
        event: None,
        face: None,
        phrases: strings(phrases),
    }
}

fn legacy(phrases: &[&str]) -> PhrasesFile {
    PhrasesFile { phrases: Some(strings(phrases)), group: vec![] }
}

fn groups(gs: Vec<GroupRaw>) -> PhrasesFile {
    PhrasesFile { phrases: None, group: gs }
}

#[test]
fn rejects_empty_phrase_list() {
    assert!(PhraseBook::from_file(legacy(&[])).is_err());
}

#[test]
fn pick_returns_a_defined_phrase() {
    let book = PhraseBook::from_file(legacy(&["x", "y", "z"])).unwrap();
    let now = snap(12, Weekday::Mon, 6, 15, 0);
    for _ in 0..50 {
        assert!(["x", "y", "z"].contains(&book.pick(&now).0));
    }
}

#[test]
fn unconditional_group_always_matches() {
    let book = PhraseBook::from_file(groups(vec![group(&["always"])])).unwrap();
    assert!(book.groups()[0].matches(&snap(3, Weekday::Sun, 1, 1, 0)));
}

#[test]
fn conditions_within_array_are_or() {
    let mut g = group(&["x"]);
    g.time = Some(strings(&["morning", "night"]));
    let book = PhraseBook::from_file(groups(vec![g])).unwrap();
    let g = &book.groups()[0];
    assert!(g.matches(&snap(6, Weekday::Mon, 6, 15, 0)), "morning");
    assert!(g.matches(&snap(23, Weekday::Mon, 6, 15, 0)), "night");
    assert!(!g.matches(&snap(12, Weekday::Mon, 6, 15, 0)), "daytime は不一致");
}

#[test]
fn conditions_across_keys_are_and() {
    let mut g = group(&["x"]);
    g.time = Some(strings(&["morning"]));
    g.days = Some(strings(&["mon"]));
    let book = PhraseBook::from_file(groups(vec![g])).unwrap();
    let g = &book.groups()[0];
    assert!(g.matches(&snap(6, Weekday::Mon, 6, 15, 0)));
    assert!(!g.matches(&snap(6, Weekday::Tue, 6, 15, 0)), "曜日不一致");
    assert!(!g.matches(&snap(12, Weekday::Mon, 6, 15, 0)), "時間帯不一致");
}

#[test]
fn date_and_uptime_conditions_match() {
    let mut xmas = group(&["xmas"]);
    xmas.dates = Some(strings(&["12-25"]));
    let mut rest = group(&["rest"]);
    rest.uptime_hours = Some(4);
    let book = PhraseBook::from_file(groups(vec![xmas, rest])).unwrap();
    assert!(book.groups()[0].matches(&snap(0, Weekday::Fri, 12, 25, 0)));
    assert!(!book.groups()[0].matches(&snap(0, Weekday::Fri, 12, 26, 0)));
    assert!(book.groups()[1].matches(&snap(0, Weekday::Fri, 1, 1, 4)), "ちょうど 4h は一致");
    assert!(!book.groups()[1].matches(&snap(0, Weekday::Fri, 1, 1, 3)));
}

#[test]
fn pick_pools_only_matching_groups() {
    let mut morning = group(&["morning-only"]);
    morning.time = Some(strings(&["morning"]));
    let book = PhraseBook::from_file(groups(vec![group(&["always"]), morning])).unwrap();
    let night = snap(23, Weekday::Mon, 6, 15, 0);
    for _ in 0..50 {
        assert_eq!(book.pick(&night).0, "always", "夜は always のみのはず");
    }
}

#[test]
fn pick_falls_back_to_all_when_nothing_matches() {
    let mut morning = group(&["morning-only"]);
    morning.time = Some(strings(&["morning"]));
    let book = PhraseBook::from_file(groups(vec![morning])).unwrap();
    let night = snap(23, Weekday::Mon, 6, 15, 0);
    assert_eq!(book.pick(&night).0, "morning-only", "空プールは全台詞にフォールバック");
}

#[test]
fn parses_legacy_format_as_one_group() {
    let book = PhraseBook::from_file(legacy(&["a", "b"])).unwrap();
    assert_eq!(book.groups().len(), 1);
    assert_eq!(book.groups()[0].phrases, vec!["a", "b"]);
    assert!(book.groups()[0].time.is_none());
}

#[test]
fn parses_group_format() {
    let mut g = group(&["conditional"]);
    g.time = Some(strings(&["morning", "night"]));
    g.days = Some(strings(&["mon"]));
    g.dates = Some(strings(&["12-25"]));
    g.uptime_hours = Some(4);
    let book = PhraseBook::from_file(groups(vec![group(&["always"]), g])).unwrap();
    assert_eq!(book.groups().len(), 2);
    assert!(book.groups()[0].time.is_none());
    assert_eq!(book.groups()[1].time, Some(vec![TimeBand::Morning, TimeBand::Night]));
    assert_eq!(book.groups()[1].days, Some(vec![Weekday::Mon]));
    assert_eq!(book.groups()[1].dates, Some(vec![MonthDay { month: 12, day: 25 }]));
    assert_eq!(book.groups()[1].uptime_hours, Some(4));
}

#[test]
fn rejects_mixed_formats() {
    let file = PhrasesFile { phrases: Some(strings(&["top"])), group: vec![group(&["grouped"])] };
    assert_eq!(PhraseBook::from_file(file).err(), Some(PhraseError::MixedFormats));
}

#[test]
fn rejects_empty_file() {
    assert!(PhraseBook::from_file(PhrasesFile { phrases: None, group: vec![] }).is_err());
}

#[test]
fn rejects_group_with_no_phrases() {
    let mut g = group(&[]);
    g.time = Some(strings(&["morning"]));
    assert!(PhraseBook::from_file(groups(vec![g])).is_err());
}

#[test]
fn rejects_zero_uptime_hours() {
    let mut g = group(&["x"]);
    g.uptime_hours = Some(0);
    assert_eq!(PhraseBook::from_file(groups(vec![g])).err(), Some(PhraseError::ZeroUptime));
}

#[test]
fn rejects_invalid_condition_values() {
    let mut a = group(&["x"]);
    a.time = Some(strings(&["noon"]));
    let mut b = group(&["x"]);
    b.days = Some(strings(&["monday"]));
    let mut c = group(&["x"]);
    c.dates = Some(strings(&["13-01"]));
    for g in [a, b, c] {
        assert!(PhraseBook::from_file(groups(vec![g])).is_err());
    }
}

#[test]
fn time_band_boundaries() {
    for (hour, band) in [
        (0, TimeBand::Night),
        (4, TimeBand::Night),
        (5, TimeBand::Morning),
        (10, TimeBand::Morning),
        (11, TimeBand::Daytime),
        (16, TimeBand::Daytime),
        (17, TimeBand::Evening),
        (21, TimeBand::Evening),
        (22, TimeBand::Night),
        (23, TimeBand::Night),
    ] {
        assert!(band.contains(hour), "hour {hour} は {band:?} のはず");
    }
    assert!(!TimeBand::Morning.contains(4));
    assert!(!TimeBand::Night.contains(5));
    assert!(!TimeBand::Daytime.contains(17));
    assert!(!TimeBand::Evening.contains(22));
}

#[test]
fn parses_time_band_names() {
    assert_eq!(TimeBand::parse("morning").unwrap(), TimeBand::Morning);
    assert_eq!(TimeBand::parse("daytime").unwrap(), TimeBand::Daytime);
    assert_eq!(TimeBand::parse("evening").unwrap(), TimeBand::Evening);
    assert_eq!(TimeBand::parse("night").unwrap(), TimeBand::Night);
    assert!(TimeBand::parse("noon").is_err());
    assert!(TimeBand::parse("Morning").is_err());
}

#[test]
fn parses_weekday_names() {
    assert_eq!(parse_weekday("mon").unwrap(), Weekday::Mon);
    assert_eq!(parse_weekday("sun").unwrap(), Weekday::Sun);
    assert!(parse_weekday("monday").is_err());
    assert!(parse_weekday("MON").is_err());
}

#[test]
fn parses_month_day() {
    assert_eq!(MonthDay::parse("12-25").unwrap(), MonthDay { month: 12, day: 25 });
    assert_eq!(MonthDay::parse("02-29").unwrap(), MonthDay { month: 2, day: 29 });
    for bad in ["1-1", "13-01", "12-32", "00-10", "12-00", "1225", "12-2x", "12/25", "12-+5", "+2-05"] {
        assert!(MonthDay::parse(bad).is_err(), "{bad} はエラーのはず");
    }
}

#[test]
fn band_names_round_trip() {
    assert_eq!(time_band_name(6), "morning");
    assert_eq!(time_band_name(13), "daytime");
    assert_eq!(time_band_name(19), "evening");
    assert_eq!(time_band_name(2), "night");
    for w in [Weekday::Mon, Weekday::Wed, Weekday::Sun] {
        assert_eq!(parse_weekday(weekday_name(w)).unwrap(), w);
    }
}

#[test]
fn pick_at_walks_the_whole_pool() {
    let book = PhraseBook::from_file(legacy(&["a", "b", "c"])).unwrap();
    let now = snap(12, Weekday::Mon, 6, 15, 0);
    let n = book.pool_size(&now);
    assert_eq!(n, 3);
    let all: Vec<&str> = (0..n).map(|i| book.pick_at(&now, i).0).collect();
    assert_eq!(all, vec!["a", "b", "c"]);
}

#[test]
fn cpu_and_mem_conditions_follow_the_system_state() {
    let mut busy = group(&["fan"]);
    busy.cpu = Some(strings(&["high"]));
    busy.face = Some("troubled".into());
    let mut low = group(&["memory"]);
    low.mem = Some(strings(&["high"]));
    let book = PhraseBook::from_file(groups(vec![busy, low, group(&["calm"])])).unwrap();
    let mut now = snap(12, Weekday::Mon, 6, 15, 0);
    now.cpu = CpuLevel::High;
    assert!(book.groups()[0].matches(&now));
    assert!(!book.groups()[1].matches(&now));
    now.cpu = CpuLevel::Idle;
    now.mem = MemLevel::High;
    assert!(!book.groups()[0].matches(&now));
    assert!(book.groups()[1].matches(&now));
    assert_eq!(parse_cpu_level("idle"), Ok(CpuLevel::Idle));
    assert_eq!(parse_mem_level("normal"), Ok(MemLevel::Normal));
    assert_eq!(parse_cpu_level("busy"), Err(PhraseError::UnknownCpuLevel));
    assert_eq!(parse_mem_level("low"), Err(PhraseError::UnknownMemLevel));
}

#[test]
fn a_phrase_comes_with_the_face_of_its_group() {
    let mut busy = group(&["fan"]);
    busy.cpu = Some(strings(&["high"]));
    busy.face = Some("troubled".into());
    let mut calm = group(&["calm"]);
    calm.cpu = Some(strings(&["idle", "normal"]));
    let book = PhraseBook::from_file(groups(vec![busy, calm])).unwrap();
    let mut now = snap(12, Weekday::Mon, 6, 15, 0);
    now.cpu = CpuLevel::High;
    assert_eq!(book.pick(&now), ("fan", Some("troubled")));
    now.cpu = CpuLevel::Normal;
    assert_eq!(book.pick(&now), ("calm", None));
}

#[test]
fn event_groups_speak_only_at_their_event() {
    let mut boot = group(&["おはようございます"]);
    boot.event = Some("boot".into());
    let mut chime = group(&["{hour} 時です"]);
    chime.event = Some("chime".into());
    let book = PhraseBook::from_file(groups(vec![boot, chime, group(&["regular"])])).unwrap();
    let now = snap(9, Weekday::Tue, 1, 1, 0);
    for _ in 0..20 {
        assert_eq!(book.pick(&now).0, "regular", "イベント台詞は通常発話に混ざらない");
    }
    assert_eq!(book.pick_event(EventKind::Boot, &now).map(|x| x.0), Some("おはようございます"));
    assert_eq!(book.pick_event(EventKind::Quit, &now), None, "無いイベントは黙る");
    let (text, _) = book.pick_event(EventKind::Chime, &now).unwrap();
    assert_eq!(substitute_placeholders(text, &now), "9 時です");
}

#[test]
fn a_dictionary_of_event_groups_only_is_refused() {
    let mut boot = group(&["x"]);
    boot.event = Some("boot".into());
    assert_eq!(PhraseBook::from_file(groups(vec![boot])).err(), Some(PhraseError::NoPhrases));
    let mut bad = group(&["x"]);
    bad.event = Some("lunch".into());
    assert_eq!(PhraseBook::from_file(groups(vec![bad])).err(), Some(PhraseError::UnknownEvent));
}

#[test]
fn every_hour_placeholder_is_replaced() {
    let now = snap(23, Weekday::Sun, 1, 1, 0);
    assert_eq!(substitute_placeholders("{hour}/{hour}{hour", &now), "23/23{hour");
    assert_eq!(substitute_placeholders("no placeholder", &now), "no placeholder");
}

#[test]
fn pick_event_at_takes_the_candidate_at_its_index() {
    let mut boot = group(&["おはよう", "起きました"]);
    boot.event = Some("boot".into());
    boot.face = Some("happy".into());
    let mut late = group(&["夜更かしですね"]);
    late.event = Some("boot".into());
    late.time = Some(strings(&["night"]));
    let book = PhraseBook::from_file(groups(vec![boot, late, group(&["regular"])])).unwrap();
    let morning = snap(9, Weekday::Tue, 1, 1, 0);
    assert_eq!(book.pick_event_at(EventKind::Boot, &morning, 0), ("おはよう", Some("happy")));
    assert_eq!(book.pick_event_at(EventKind::Boot, &morning, 1), ("起きました", Some("happy")));
    let night = snap(23, Weekday::Tue, 1, 1, 0);
    assert_eq!(book.pick_event_at(EventKind::Boot, &night, 2), ("夜更かしですね", None));
}
