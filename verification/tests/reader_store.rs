use miryam::reader::store::{new_id, sidecar_path, sidecar_path_from, SCHEMA_VERSION};

#[test]
fn sidecar_path_is_dot_miryam_sibling() {
    assert_eq!(sidecar_path("/a/b/foo.pdf"), "/a/b/.miryam/foo.pdf.json");
}

#[test]
fn sidecar_path_of_a_bare_name_stays_in_the_current_folder() {
    assert_eq!(sidecar_path("foo.pdf"), ".miryam/foo.pdf.json");
    assert_eq!(sidecar_path_from(None, Some("x.pdf")), "./.miryam/x.pdf.json");
    assert_eq!(sidecar_path_from(Some("/"), Some("x.pdf")), "/.miryam/x.pdf.json");
    assert_eq!(sidecar_path_from(Some("/d"), None), "/d/.miryam/.json");
}

#[test]
fn new_id_is_sortable_and_unique() {
    let t0: i64 = 1_760_000_000_000;
    let t1 = t0 + 1;
    assert!(new_id(t0, 0) < new_id(t1, 0), "時刻順に並ぶ");
    assert_ne!(new_id(t0, 0), new_id(t0, 1), "同時刻でも seq で分かれる");
}

#[test]
fn new_id_pads_and_wraps() {
    assert_eq!(new_id(42, 7), "0000000000042-0007");
    assert_eq!(new_id(-5, 12345), "0000000000000-2345");
}

#[test]
fn the_schema_version_is_one() {
    assert_eq!(SCHEMA_VERSION, 1);
}

use miryam::reader::store::{remove_highlight, set_memo, set_tags, warn_bar_for, Highlight, WarnBar};

fn hl(id: &str, memo: &str) -> Highlight<[f64; 4], u64> {
    Highlight {
        id: id.into(),
        page: 0,
        color: "yellow".into(),
        rects: vec![[0.1, 0.2, 0.3, 0.4]],
        quote: "引用".into(),
        memo: memo.into(),
        tags: vec![],
        llm: vec![],
        created_at: 0,
    }
}

#[test]
fn set_memo_writes_the_new_text_to_the_sidecar() {
    let mut hs = vec![hl("01", ""), hl("02", "")];
    assert!(set_memo(&mut hs, "02", "新しいメモ".into()));
    assert_eq!(hs[1].memo, "新しいメモ");
    assert_eq!(hs[0].memo, "");
    assert_eq!(hs[1].quote, "引用");
}

#[test]
fn set_memo_with_the_same_text_does_not_save_again() {
    let mut hs = vec![hl("01", "同じ")];
    assert!(!set_memo(&mut hs, "01", "同じ".into()));
}

#[test]
fn set_memo_with_an_unknown_id_changes_nothing() {
    let mut hs = vec![hl("01", "a")];
    assert!(!set_memo(&mut hs, "99", "b".into()));
    assert_eq!(hs[0].memo, "a");
}

#[test]
fn remove_highlight_keeps_the_others_in_order() {
    let mut hs = vec![hl("01", "a"), hl("02", "b"), hl("01", "c"), hl("03", "d")];
    remove_highlight(&mut hs, "01");
    let ids: Vec<&str> = hs.iter().map(|h| h.id.as_str()).collect();
    assert_eq!(ids, vec!["02", "03"]);
    remove_highlight(&mut hs, "zz");
    assert_eq!(hs.len(), 2);
}

#[test]
fn a_successful_save_clears_the_recorded_error() {
    assert_eq!(warn_bar_for(None, false), WarnBar::Hide);
    assert_eq!(warn_bar_for(None, true), WarnBar::Keep, "読み取り専用の警告は消さない");
    assert_eq!(
        warn_bar_for(Some("disk full"), false),
        WarnBar::Show("注釈を保存できません: disk full".into())
    );
}

#[test]
fn an_earlier_millisecond_sorts_first_whatever_the_sequence() {
    assert!(new_id(999, 9999) < new_id(1000, 0));
    assert!(new_id(0, 5) < new_id(1, 4));
    assert_ne!(new_id(7, 3), new_id(7, 4));
    assert_eq!(new_id(7, 3), new_id(7, 10003));
}

#[test]
fn set_tags_replaces_the_tags_of_the_first_match() {
    let mut hs = vec![hl("01", ""), hl("02", ""), hl("02", "")];
    assert!(set_tags(&mut hs, "02", vec!["a".into(), "b".into()]));
    assert_eq!(hs[1].tags, vec!["a", "b"]);
    assert!(hs[2].tags.is_empty());
    assert!(!set_tags(&mut hs, "02", vec!["a".into(), "b".into()]), "同じタグは保存しない");
    assert!(!set_tags(&mut hs, "99", vec!["x".into()]));
    assert!(set_tags(&mut hs, "02", vec![]));
    assert!(hs[1].tags.is_empty());
}

#[test]
fn only_the_known_schema_is_read() {
    assert!(miryam::reader::store::schema_supported(SCHEMA_VERSION));
    assert!(!miryam::reader::store::schema_supported(SCHEMA_VERSION + 1));
    assert!(!miryam::reader::store::schema_supported(0));
}

#[test]
fn a_read_only_sidecar_is_never_written_and_keeps_its_bar() {
    let s = miryam::reader::store::SaveState::new(true);
    assert!(!s.should_write());
    assert!(!s.failed());
    assert_eq!(s.warn_bar(), WarnBar::Keep);
}

#[test]
fn a_failed_save_shows_its_error_until_a_save_succeeds() {
    let mut s = miryam::reader::store::SaveState::new(false);
    assert!(s.should_write());
    s.record(Some("disk full".into()));
    assert!(s.failed());
    assert_eq!(s.warn_bar(), WarnBar::Show("注釈を保存できません: disk full".into()));
    s.record(None);
    assert!(!s.failed());
    assert_eq!(s.warn_bar(), WarnBar::Hide);
}
