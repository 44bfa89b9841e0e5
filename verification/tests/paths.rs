use miryam::control::{gvariant_escape, say_parameter};
use miryam::paths::{reader_exe_path, skin_backdrop_path, skin_character_path, skin_face_path};

#[test]
fn skin_path_layout() {
    assert_eq!(skin_character_path("/cfg", "asha"), "/cfg/miryam/skins/asha/character.png");
    assert_eq!(skin_backdrop_path("/cfg", "asha"), "/cfg/miryam/skins/asha/backdrop.png");
}

#[test]
fn skin_face_path_layout() {
    assert_eq!(skin_face_path("/cfg", "asha", "happy"), "/cfg/miryam/skins/asha/character-happy.png");
}

#[test]
fn reader_exe_sits_next_to_the_mascot() {
    assert_eq!(reader_exe_path("/opt/miryam/bin/miryam"), "/opt/miryam/bin/miryam-reader");
}

#[test]
fn reader_exe_falls_back_to_bare_name() {
    assert_eq!(reader_exe_path("miryam"), "miryam-reader");
    assert_eq!(reader_exe_path("/"), "miryam-reader");
}

#[test]
fn escapes_backslash_quote_and_newline() {
    assert_eq!(gvariant_escape(r"a\b"), r"a\\b");
    assert_eq!(gvariant_escape("it's"), r"it\'s");
    assert_eq!(gvariant_escape("a\nb"), r"a\nb");
}

#[test]
fn escape_order_does_not_double_escape() {
    assert_eq!(gvariant_escape(r"\'"), r"\\\'");
}

#[test]
fn plain_text_is_untouched() {
    assert_eq!(gvariant_escape("『本』を読みました"), "『本』を読みました");
}

#[test]
fn the_say_parameter_wraps_the_escaped_message() {
    assert_eq!(say_parameter("it's"), r"[<'it\'s'>]");
}
