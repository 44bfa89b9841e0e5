//! File paths as text: joining a relative name to a folder, and the parent
//! and file name of a path.

use vstd::prelude::*;
use crate::text;

verus! {

/// `rest` appended to the path `base` as `PathBuf::push` does on Unix: an
/// absolute `rest` replaces `base`, and one `/` goes between them unless
/// `base` is empty or already ends with one.
pub open spec fn join_path(base: Seq<char>, rest: Seq<char>) -> Seq<char> {
    if rest.len() > 0 && rest[0] == '/' {
        rest
    } else if base.len() == 0 || base.last() == '/' {
        base + rest
    } else {
        base + seq!['/'] + rest
    }
}

/// The path `rest` joined to `base` (see `join_path`).
pub fn join_path_text(base: &Vec<char>, rest: &Vec<char>) -> (r: Vec<char>)
    ensures
        r@ == join_path(base@, rest@),
{
    if rest.len() > 0 && rest[0] == '/' {
        let mut out: Vec<char> = Vec::new();
        text::push_all(&mut out, rest);
        assert(out@ =~= rest@);
        return out;
    }
    let mut out: Vec<char> = Vec::new();
    text::push_all(&mut out, base);
    if !(base.len() == 0 || base[base.len() - 1] == '/') {
        out.push('/');
    }
    text::push_all(&mut out, rest);
    assert(out@ =~= join_path(base@, rest@));
    out
}

/// What `Path::parent` gives for the path `p`, as text.
pub uninterp spec fn path_parent(p: Seq<char>) -> Option<Seq<char>>;

/// What `Path::file_name` gives for the path `p`, as text.
pub uninterp spec fn path_file_name(p: Seq<char>) -> Option<Seq<char>>;

pub open spec fn opt_view(o: Option<String>) -> Option<Seq<char>> {
    match o {
        Some(s) => Some(s@),
        None => None,
    }
}

/// `std::path::Path::parent` of the path `p`: the path without its last
/// component, none where `p` ends in a root or is empty. Only that the
/// answer depends on `p` alone is claimed here.
#[verifier::external_body]
pub(crate) fn parent_of(p: &str) -> (r: Option<String>)
    ensures
        opt_view(r) == path_parent(p@),
{
    match std::path::Path::new(p).parent() {
        Some(q) => Some(q.to_string_lossy().into_owned()),
        None => None,
    }
}

/// `std::path::Path::file_name` of the path `p`: its last component, none
/// where that is `..`. Only that the answer depends on `p` alone is
/// claimed here.
#[verifier::external_body]
pub(crate) fn file_name_of(p: &str) -> (r: Option<String>)
    ensures
        opt_view(r) == path_file_name(p@),
{
    match std::path::Path::new(p).file_name() {
        Some(q) => Some(q.to_string_lossy().into_owned()),
        None => None,
    }
}

/// The skin folder `<config>/miryam/skins/<name>`.
pub open spec fn skin_dir(config_dir: Seq<char>, name: Seq<char>) -> Seq<char> {
    join_path(join_path(join_path(config_dir, "miryam"@), "skins"@), name)
}

fn skin_folder(config_dir: &str, name: &str) -> (r: Vec<char>)
    ensures
        r@ == skin_dir(config_dir@, name@),
{
    let base = text::chars_of(config_dir);
    let a = join_path_text(&base, &text::chars_of("miryam"));
    let b = join_path_text(&a, &text::chars_of("skins"));
    join_path_text(&b, &text::chars_of(name))
}

/// `<config>/miryam/skins/<name>/character.png`, a skin's standing picture.
pub fn skin_character_path(config_dir: &str, name: &str) -> (r: String)
    ensures
        r@ == join_path(skin_dir(config_dir@, name@), "character.png"@),
{
    let d = skin_folder(config_dir, name);
    let r = join_path_text(&d, &text::chars_of("character.png"));
    text::string_of(&r)
}

/// `<config>/miryam/skins/<name>/backdrop.png`, a skin's faint backdrop.
pub fn skin_backdrop_path(config_dir: &str, name: &str) -> (r: String)
    ensures
        r@ == join_path(skin_dir(config_dir@, name@), "backdrop.png"@),
{
    let d = skin_folder(config_dir, name);
    let r = join_path_text(&d, &text::chars_of("backdrop.png"));
    text::string_of(&r)
}

/// `<config>/miryam/skins/<name>/character-<face>.png`, a skin's picture
/// for one expression.
pub fn skin_face_path(config_dir: &str, name: &str, face: &str) -> (r: String)
    ensures
        r@ == join_path(skin_dir(config_dir@, name@), "character-"@ + face@ + ".png"@),
{
    let d = skin_folder(config_dir, name);
    let mut file = text::chars_of("character-");
    text::push_str(&mut file, face);
    text::push_str(&mut file, ".png");
    let r = join_path_text(&d, &file);
    text::string_of(&r)
}

/// Where the reader program lies: beside the mascot's own program, or
/// found by name where that has no folder.
pub open spec fn reader_exe_text(parent: Option<Seq<char>>) -> Seq<char> {
    match parent {
        Some(dir) => if dir.len() > 0 {
            join_path(dir, "miryam-reader"@)
        } else {
            "miryam-reader"@
        },
        None => "miryam-reader"@,
    }
}

/// The reader program next to the running program `current_exe`.
pub fn reader_exe_path(current_exe: &str) -> (r: String)
    ensures
        r@ == reader_exe_text(path_parent(current_exe@)),
{
    let name = text::chars_of("miryam-reader");
    match parent_of(current_exe) {
        Some(dir) => {
            let d = text::chars_of(dir.as_str());
            if d.len() > 0 {
                let r = join_path_text(&d, &name);
                return text::string_of(&r);
            }
        },
        None => {},
    }
    text::string_of(&name)
}

} // verus!
