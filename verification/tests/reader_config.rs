use miryam::inkdrop::InkdropConfig;
use miryam::reader::config::{
    check_reader, default_colors, expand_dir, HalfSide, PresentConfig, ReaderConfigError,
    ReaderSettings, FALLBACK_BOOK,
};

fn strings(v: &[&str]) -> Vec<String> {
    v.iter().map(|s| s.to_string()).collect()
}

#[test]
fn defaults_are_filled() {
    assert_eq!(default_colors(), vec!["yellow", "green", "blue", "pink"]);
    assert_eq!(check_reader("~/Documents/library", &default_colors(), true, None), Ok(()));
}

#[test]
fn validate_rejects_bad_values() {
    assert_eq!(check_reader("", &default_colors(), true, None), Err(ReaderConfigError::BlankDir));
    assert_eq!(check_reader("/x", &vec![], true, None), Err(ReaderConfigError::ColorCount));
    assert_eq!(
        check_reader("/x", &strings(&["yellow", "mauve"]), true, None),
        Err(ReaderConfigError::UnknownColor(1))
    );
    assert_eq!(
        check_reader("/x", &default_colors(), false, None),
        Err(ReaderConfigError::ProbabilityOutOfRange)
    );
    assert_eq!(check_reader("/x", &default_colors(), true, Some("  ")), Err(ReaderConfigError::BlankBook));
}

#[test]
fn validate_rejects_too_many_colors() {
    let nine = strings(&["yellow", "green", "blue", "pink", "yellow", "green", "blue", "pink", "yellow"]);
    assert_eq!(check_reader("/x", &nine, true, None), Err(ReaderConfigError::ColorCount), "9 色は多すぎる");
}

#[test]
fn dir_path_expands_tilde() {
    assert_eq!(expand_dir("~/Documents/library", Some("/home/me")), "/home/me/Documents/library");
    assert_eq!(expand_dir("~/x", Some("/home/me/")), "/home/me/x");
    assert_eq!(expand_dir("~/x", None), "~/x", "HOME が無ければそのまま");
}

#[test]
fn dir_path_keeps_absolute_and_relative_as_is() {
    assert_eq!(expand_dir("/srv/pdf", Some("/home/me")), "/srv/pdf");
    assert_eq!(expand_dir("pdf", Some("/home/me")), "pdf");
    assert_eq!(expand_dir("~", Some("/home/me")), "~", "単体の ~ は展開しない");
    assert_eq!(expand_dir("~//srv", Some("/home/me")), "/srv", "絶対パスは置き換わる");
}

#[test]
fn present_defaults_to_left_half() {
    let cfg = PresentConfig::default();
    assert_eq!(cfg.half_side, HalfSide::Left);
    assert_eq!(cfg.validate(), Ok(()));
    assert_eq!(HalfSide::default(), HalfSide::Left);
}

fn inkdrop(book: &str) -> InkdropConfig {
    InkdropConfig {
        port: 19840,
        username: "u".into(),
        password: "p".into(),
        book: book.into(),
        inbox_threshold: 10,
        chat_book: None,
    }
}

#[test]
fn the_notebook_falls_back_from_reader_to_inkdrop_to_inbox() {
    let s = ReaderSettings::from_sections(None, None, None);
    assert_eq!(s.book_name, FALLBACK_BOOK);
    assert_eq!(s.colors, default_colors());
    let s = ReaderSettings::from_sections(None, None, Some(inkdrop("Books")));
    assert_eq!(s.book_name, "Books");
    assert!(s.inkdrop.is_some());
    let s = ReaderSettings::from_sections(Some(strings(&["pink"])), Some("Reading".into()), Some(inkdrop("Books")));
    assert_eq!(s.book_name, "Reading");
    assert_eq!(s.colors, vec!["pink"]);
}
