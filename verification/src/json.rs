//! The JSON that Inkdrop's HTTP server speaks, read and written through
//! `serde_json`.

use vstd::prelude::*;
use crate::text;

verus! {

/// A lower-case hexadecimal digit.
pub open spec fn hex_digit(d: nat) -> char {
    if d < 10 {
        (d + 48) as char
    } else {
        (d - 10 + 97) as char
    }
}

/// How `serde_json` writes one character inside a string literal: `"` and
/// `\` behind a backslash, the controls with a short form (`\b`, `\t`,
/// `\n`, `\f`, `\r`) in it, the other controls below U+0020 as `\u00XX`
/// (lower-case hex), and every other character as it is.
pub open spec fn escaped_char(c: char) -> Seq<char> {
    let u = c as u32;
    if c == '"' {
        seq!['\\', '"']
    } else if c == '\\' {
        seq!['\\', '\\']
    } else if u == 8 {
        seq!['\\', 'b']
    } else if u == 9 {
        seq!['\\', 't']
    } else if u == 10 {
        seq!['\\', 'n']
    } else if u == 12 {
        seq!['\\', 'f']
    } else if u == 13 {
        seq!['\\', 'r']
    } else if u < 32 {
        seq!['\\', 'u', '0', '0', hex_digit((u / 16) as nat), hex_digit((u % 16) as nat)]
    } else {
        seq![c]
    }
}

/// The characters of `s`, each escaped.
pub open spec fn escaped(s: Seq<char>) -> Seq<char>
    decreases s.len(),
{
    if s.len() == 0 {
        Seq::empty()
    } else {
        escaped(s.drop_last()) + escaped_char(s.last())
    }
}

/// The JSON string literal `serde_json` writes for `s`: the escaped
/// characters between double quotes.
pub open spec fn json_string_literal(s: Seq<char>) -> Seq<char> {
    seq!['"'] + escaped(s) + seq!['"']
}

/// The member names of an object's members.
pub open spec fn keys_of(ms: Seq<(Seq<char>, Seq<char>)>) -> Seq<Seq<char>> {
    Seq::new(ms.len(), |i: int| ms[i].0)
}

/// The members held by a vector of name and value strings.
pub open spec fn member_views(ms: Seq<(String, String)>) -> Seq<(Seq<char>, Seq<char>)> {
    Seq::new(ms.len(), |i: int| (ms[i].0@, ms[i].1@))
}

/// One member as `serde_json` writes it compactly: `"name":"value"`.
pub open spec fn member_text(m: (Seq<char>, Seq<char>)) -> Seq<char> {
    json_string_literal(m.0) + seq![':'] + json_string_literal(m.1)
}

/// The members, separated by commas.
pub open spec fn members_text(ms: Seq<(Seq<char>, Seq<char>)>) -> Seq<char>
    decreases ms.len(),
{
    if ms.len() == 0 {
        Seq::empty()
    } else if ms.len() == 1 {
        member_text(ms[0])
    } else {
        members_text(ms.drop_last()) + seq![','] + member_text(ms.last())
    }
}

/// The JSON object of string members `ms`, written compactly.
pub open spec fn object_text(ms: Seq<(Seq<char>, Seq<char>)>) -> Seq<char> {
    seq!['{'] + members_text(ms) + seq!['}']
}

/// `Value::Object` of the `members` (names to `Value::String`s) collected
/// into a `serde_json::Map`, written by `Value`'s `Display` (`to_string`),
/// which is compact. The map keeps its members in the order of their names
/// (with or without `preserve_order`, the members being given in that
/// order), so they come out as given; writing into a `String` does not fail.
#[verifier::external_body]
pub(crate) fn json_object(members: &Vec<(String, String)>) -> (r: String)
    requires
        text::ascending(keys_of(member_views(members@))),
    ensures
        r@ == object_text(member_views(members@)),
{
    let map: serde_json::Map<String, serde_json::Value> = members.iter().map(
        |(k, v)| (k.clone(), serde_json::Value::String(v.clone())),
    ).collect();
    serde_json::Value::Object(map).to_string()
}

/// The string member `key` of the object `json` parses to; `None` when the
/// text is not JSON, not an object, lacks the member or the member is not a string.
pub uninterp spec fn json_member_text(json: Seq<char>, key: Seq<char>) -> Option<Seq<char>>;

pub open spec fn opt_text(o: Option<String>) -> Option<Seq<char>> {
    match o {
        Some(s) => Some(s@),
        None => None,
    }
}

/// `serde_json::from_str::<Value>(json)`, then `.get(key)` and `.as_str()`.
#[verifier::external_body]
pub(crate) fn json_str_member(json: &str, key: &str) -> (r: Option<String>)
    ensures
        opt_text(r) == json_member_text(json@, key@),
{
    serde_json::from_str::<serde_json::Value>(json).ok()?.get(key)?.as_str().map(str::to_string)
}

/// The number of elements of the array `json` parses to; `None` when the
/// text is not JSON or not an array.
pub uninterp spec fn json_array_length(json: Seq<char>) -> Option<nat>;

/// `serde_json::from_str::<Value>(json)`, then `.as_array()` and its length.
#[verifier::external_body]
pub(crate) fn json_array_len(json: &str) -> (r: Option<usize>)
    ensures
        match r {
            Some(n) => json_array_length(json@) == Some(n as nat),
            None => json_array_length(json@) is None,
        },
{
    serde_json::from_str::<serde_json::Value>(json).ok()?.as_array().map(|a| a.len())
}

/// A notebook in a `GET /books` reply: its `name` and `_id` members, each
/// when present as a string.
pub struct BookEntry {
    pub name: Option<String>,
    pub id: Option<String>,
}

pub open spec fn book_entry_view(b: BookEntry) -> (Option<Seq<char>>, Option<Seq<char>>) {
    (opt_text(b.name), opt_text(b.id))
}

/// The notebooks of the array `json` parses to, in order; `None` when the
/// text is not JSON or not an array.
pub uninterp spec fn json_book_list(json: Seq<char>) -> Option<
    Seq<(Option<Seq<char>>, Option<Seq<char>>)>,
>;

/// `serde_json::from_str::<Value>(json)`, `.as_array()`, and for each element
/// its `name` and `_id` members read with `.as_str()`.
#[verifier::external_body]
pub(crate) fn json_books(json: &str) -> (r: Option<Vec<BookEntry>>)
    ensures
        match r {
            Some(v) => json_book_list(json@) == Some(
                Seq::new(v@.len(), |i: int| book_entry_view(v@[i])),
            ),
            None => json_book_list(json@) is None,
        },
{
    let value: serde_json::Value = serde_json::from_str(json).ok()?;
    let arr = value.as_array()?;
    Some(
        arr.iter().map(
            |b| BookEntry {
                name: b.get("name").and_then(|n| n.as_str()).map(str::to_string),
                id: b.get("_id").and_then(|n| n.as_str()).map(str::to_string),
            },
        ).collect(),
    )
}

} // verus!
