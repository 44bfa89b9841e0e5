//! The links menu: the `[[link]]` entries of links.toml, and telling an
//! http(s) URL (for instance one pasted from the clipboard) from other text.

use vstd::prelude::*;
use crate::text;

verus! {

/// The menu item that adds the URL held by the clipboard.
pub const ADD_FROM_CLIPBOARD_LABEL: &'static str = "クリップボードの URL を追加";

/// One `[[link]]` entry of links.toml.
#[derive(Clone, Debug, PartialEq)]
pub struct Link {
    pub label: String,
    pub url: String,
}

/// Why the entries of links.toml were refused.
#[derive(Clone, Copy, PartialEq, Eq, Debug, Structural)]
pub enum LinkError {
    /// An entry whose label is empty or only whitespace.
    BlankLabel,
    /// An entry whose URL is empty or only whitespace.
    BlankUrl,
}

/// Empty once surrounding whitespace is removed.
pub open spec fn blank(s: Seq<char>) -> bool {
    text::trimmed(s).len() == 0
}

pub open spec fn link_fault(l: Link) -> Option<LinkError> {
    if blank(l.label@) {
        Some(LinkError::BlankLabel)
    } else if blank(l.url@) {
        Some(LinkError::BlankUrl)
    } else {
        None
    }
}

/// The fault of the first entry that has one.
pub open spec fn first_link_fault(ls: Seq<Link>) -> Option<LinkError>
    decreases ls.len(),
{
    if ls.len() == 0 {
        None
    } else {
        match link_fault(ls[0]) {
            Some(e) => Some(e),
            None => first_link_fault(ls.drop_first()),
        }
    }
}

proof fn lemma_first_link_fault_step(ls: Seq<Link>, i: int)
    requires
        0 <= i < ls.len(),
    ensures
        first_link_fault(ls.skip(i)) == (match link_fault(ls[i]) {
            Some(e) => Some(e),
            None => first_link_fault(ls.skip(i + 1)),
        }),
{
    assert(ls.skip(i).drop_first() =~= ls.skip(i + 1));
}

fn is_blank(s: &String) -> (b: bool)
    ensures
        b == blank(s@),
{
    let v = text::chars_of(s.as_str());
    let t = text::trim(&v);
    t.len() == 0
}

/// The entries of links.toml, refused when one has a blank label or URL
/// (the first such entry decides; its label is looked at before its URL).
pub fn check_links(links: Vec<Link>) -> (r: Result<Vec<Link>, LinkError>)
    ensures
        r == (match first_link_fault(links@) {
            Some(e) => Err::<Vec<Link>, LinkError>(e),
            None => Ok(links),
        }),
{
    let mut i: usize = 0;
    assert(links@.skip(0) =~= links@);
    while i < links.len()
        invariant
            0 <= i <= links.len(),
            first_link_fault(links@) == first_link_fault(links@.skip(i as int)),
        decreases links.len() - i,
    {
        proof {
            lemma_first_link_fault_step(links@, i as int);
        }
        if is_blank(&links[i].label) {
            return Err(LinkError::BlankLabel);
        }
        if is_blank(&links[i].url) {
            return Err(LinkError::BlankUrl);
        }
        i = i + 1;
    }
    assert(links@.skip(i as int) =~= Seq::<Link>::empty());
    Ok(links)
}

// ---------------------------------------------------------------- URLs

pub open spec fn https_scheme() -> Seq<char> {
    seq!['h', 't', 't', 'p', 's', ':', '/', '/']
}

pub open spec fn http_scheme() -> Seq<char> {
    seq!['h', 't', 't', 'p', ':', '/', '/']
}

/// What follows `https://` or `http://`.
pub open spec fn after_scheme(url: Seq<char>) -> Option<Seq<char>> {
    if text::has_prefix(url, https_scheme()) {
        Some(url.skip(8))
    } else if text::has_prefix(url, http_scheme()) {
        Some(url.skip(7))
    } else {
        None
    }
}

/// The characters of `s` before the first one that is in `stops`.
pub open spec fn prefix_before(s: Seq<char>, stops: Seq<char>) -> Seq<char>
    decreases s.len(),
{
    if s.len() == 0 || stops.contains(s[0]) {
        Seq::empty()
    } else {
        seq![s[0]] + prefix_before(s.drop_first(), stops)
    }
}

/// The characters of `s` after its last `c` (all of `s` without one).
pub open spec fn after_last(s: Seq<char>, c: char) -> Seq<char>
    decreases s.len(),
{
    if s.len() == 0 {
        s
    } else if s.last() == c {
        Seq::empty()
    } else {
        after_last(s.drop_last(), c).push(s.last())
    }
}

/// The host of an http(s) URL: the authority (up to `/`, `?` or `#`),
/// without user information (up to the last `@`) and port (from the
/// first `:`); none where the scheme is another or the host is empty.
pub open spec fn url_host(url: Seq<char>) -> Option<Seq<char>> {
    match after_scheme(url) {
        None => None,
        Some(rest) => {
            let host = prefix_before(
                after_last(prefix_before(rest, seq!['/', '?', '#']), '@'),
                seq![':'],
            );
            if host.len() == 0 {
                None
            } else {
                Some(host)
            }
        },
    }
}

/// The trimmed text, where it holds no whitespace and is an http(s) URL
/// with a host.
pub open spec fn http_url(s: Seq<char>) -> Option<Seq<char>> {
    let t = text::trimmed(s);
    if text::has_ws(t) || url_host(t) is None {
        None
    } else {
        Some(t)
    }
}

/// A URL that was accepted is accepted again, unchanged: it is already
/// trimmed, holds no whitespace and has a host.
pub proof fn lemma_http_url_stable(s: Seq<char>)
    ensures
        http_url(s) matches Some(u) ==> !text::has_ws(u) && url_host(u) is Some && http_url(u)
            == Some(u),
{
    if http_url(s) is Some {
        let u = text::trimmed(s);
        if u.len() > 0 {
            assert(!text::is_ws(u[0]));
            assert(!text::is_ws(u[u.len() - 1]));
        }
        assert(text::trimmed_start(u) == u);
        assert(text::trimmed_end(u) == u);
    }
}

proof fn lemma_prefix_before(s: Seq<char>, stops: Seq<char>, k: int)
    requires
        0 <= k <= s.len(),
        forall|j: int| 0 <= j < k ==> !stops.contains(#[trigger] s[j]),
        k == s.len() || stops.contains(s[k]),
    ensures
        prefix_before(s, stops) == s.take(k),
    decreases k,
{
    if k > 0 {
        let t = s.drop_first();
        assert forall|j: int| 0 <= j < k - 1 implies !stops.contains(#[trigger] t[j]) by {
            assert(t[j] == s[j + 1]);
        }
        if k < s.len() {
            assert(t[k - 1] == s[k]);
        }
        lemma_prefix_before(t, stops, k - 1);
        assert(!stops.contains(s[0]));
        assert(seq![s[0]] + t.take(k - 1) =~= s.take(k));
    }
}

proof fn lemma_after_last(s: Seq<char>, c: char, k: int)
    requires
        0 <= k <= s.len(),
        forall|j: int| k <= j < s.len() ==> #[trigger] s[j] != c,
        k == 0 || s[k - 1] == c,
    ensures
        after_last(s, c) == s.skip(k),
    decreases s.len(),
{
    if s.len() == 0 {
        assert(s.skip(k) =~= s);
    } else if k == s.len() {
        assert(s.last() == c);
        assert(s.skip(k) =~= Seq::<char>::empty());
    } else {
        let t = s.drop_last();
        assert(s[s.len() - 1] != c);
        assert forall|j: int| k <= j < t.len() implies #[trigger] t[j] != c by {
            assert(t[j] == s[j]);
        }
        if k > 0 {
            assert(t[k - 1] == s[k - 1]);
        }
        lemma_after_last(t, c, k);
        assert(t.skip(k).push(s.last()) =~= s.skip(k));
    }
}

fn contains_char(v: &Vec<char>, c: char) -> (b: bool)
    ensures
        b == v@.contains(c),
{
    let mut i: usize = 0;
    while i < v.len()
        invariant
            0 <= i <= v.len(),
            forall|j: int| 0 <= j < i ==> v@[j] != c,
        decreases v.len() - i,
    {
        if v[i] == c {
            assert(v@[i as int] == c);
            return true;
        }
        i = i + 1;
    }
    false
}

/// The characters of `v` before the first one that is in `stops`.
fn take_before(v: &Vec<char>, stops: &Vec<char>) -> (r: Vec<char>)
    ensures
        r@ == prefix_before(v@, stops@),
{
    let mut i: usize = 0;
    while i < v.len() && !contains_char(stops, v[i])
        invariant
            0 <= i <= v.len(),
            forall|j: int| 0 <= j < i ==> !stops@.contains(#[trigger] v@[j]),
        decreases v.len() - i,
    {
        i = i + 1;
    }
    proof {
        lemma_prefix_before(v@, stops@, i as int);
    }
    text::slice_of(v, 0, i)
}

/// The characters of `v` after its last `c`.
fn take_after_last(v: &Vec<char>, c: char) -> (r: Vec<char>)
    ensures
        r@ == after_last(v@, c),
{
    let mut i: usize = v.len();
    while i > 0 && v[i - 1] != c
        invariant
            0 <= i <= v.len(),
            forall|j: int| i <= j < v.len() ==> #[trigger] v@[j] != c,
        decreases i,
    {
        i = i - 1;
    }
    proof {
        lemma_after_last(v@, c, i as int);
        assert(v@.skip(i as int) =~= v@.subrange(i as int, v.len() as int));
    }
    text::slice_of(v, i, v.len())
}

fn host_chars(url: &Vec<char>) -> (r: Option<Vec<char>>)
    ensures
        r matches Some(h) ==> url_host(url@) == Some(h@),
        r is None ==> url_host(url@) is None,
{
    let https = text::chars_of("https://");
    let http = text::chars_of("http://");
    proof {
        reveal_strlit("https://");
        reveal_strlit("http://");
        assert(https@ =~= https_scheme());
        assert(http@ =~= http_scheme());
    }
    let rest = if text::starts_with(url, &https) {
        text::slice_of(url, 8, url.len())
    } else if text::starts_with(url, &http) {
        text::slice_of(url, 7, url.len())
    } else {
        return None;
    };
    assert(after_scheme(url@) == Some(rest@)) by {
        assert(url@.skip(8) =~= url@.subrange(8, url.len() as int));
        assert(url@.skip(7) =~= url@.subrange(7, url.len() as int));
    }
    let ends = vec!['/', '?', '#'];
    assert(ends@ =~= seq!['/', '?', '#']);
    let authority = take_before(&rest, &ends);
    let user_free = take_after_last(&authority, '@');
    let colon = vec![':'];
    assert(colon@ =~= seq![':']);
    let host = take_before(&user_free, &colon);
    if host.len() == 0 {
        None
    } else {
        Some(host)
    }
}

/// The host of an http(s) URL, without user information and port.
pub fn host_of(url: &str) -> (r: Option<String>)
    ensures
        r matches Some(h) ==> url_host(url@) == Some(h@),
        r is None ==> url_host(url@) is None,
{
    let v = text::chars_of(url);
    match host_chars(&v) {
        Some(h) => Some(text::string_of(&h)),
        None => None,
    }
}

fn any_whitespace(v: &Vec<char>) -> (b: bool)
    ensures
        b == text::has_ws(v@),
{
    let mut i: usize = 0;
    while i < v.len()
        invariant
            0 <= i <= v.len(),
            forall|j: int| 0 <= j < i ==> !text::is_ws(#[trigger] v@[j]),
        decreases v.len() - i,
    {
        if text::is_whitespace(v[i]) {
            return true;
        }
        i = i + 1;
    }
    false
}

/// The text, trimmed, where it is an http(s) URL: no whitespace inside and
/// a host after the scheme (the rest of the URL grammar is not checked).
pub fn parse_http_url(text: &str) -> (r: Option<String>)
    ensures
        r matches Some(u) ==> http_url(text@) == Some(u@),
        r is None ==> http_url(text@) is None,
{
    let v = text::chars_of(text);
    let t = text::trim(&v);
    if any_whitespace(&t) {
        return None;
    }
    match host_chars(&t) {
        Some(_) => Some(text::string_of(&t)),
        None => None,
    }
}

// ---------------------------------------------------------------- adding a link

/// `s` without the `/`s it ends with.
pub open spec fn without_trailing_slashes(s: Seq<char>) -> Seq<char>
    decreases s.len(),
{
    if s.len() > 0 && s.last() == '/' {
        without_trailing_slashes(s.drop_last())
    } else {
        s
    }
}

/// The label a link added from a URL gets: its host and its path (without
/// query, fragment and trailing `/`), such as `github.com/owner/repo`.
pub open spec fn link_label(url: Seq<char>) -> Seq<char> {
    let rest = after_scheme(url)->0;
    let authority = prefix_before(rest, seq!['/', '?', '#']);
    let path = prefix_before(rest.skip(authority.len() as int), seq!['?', '#']);
    without_trailing_slashes(url_host(url)->0 + path)
}

fn drop_trailing_slashes(v: &Vec<char>) -> (r: Vec<char>)
    ensures
        r@ == without_trailing_slashes(v@),
{
    let mut n: usize = v.len();
    assert(v@.take(v.len() as int) =~= v@);
    while n > 0 && v[n - 1] == '/'
        invariant
            0 <= n <= v.len(),
            without_trailing_slashes(v@.take(n as int)) == without_trailing_slashes(v@),
        decreases n,
    {
        assert(v@.take(n as int).drop_last() =~= v@.take(n - 1));
        n = n - 1;
    }
    assert(v@.take(n as int) =~= v@.take(n as int));
    text::slice_of(v, 0, n)
}

/// The label for the http(s) URL `url` (see `link_label`).
pub fn label_of(url: &str) -> (r: String)
    requires
        url_host(url@) is Some,
    ensures
        r@ == link_label(url@),
{
    let v = text::chars_of(url);
    let h = match host_chars(&v) {
        Some(h) => h,
        None => {
            return String::new();
        },
    };
    let https = text::chars_of("https://");
    proof {
        reveal_strlit("https://");
        reveal_strlit("http://");
        assert(https@ =~= https_scheme());
    }
    let start: usize = if text::starts_with(&v, &https) {
        8
    } else {
        7
    };
    let rest = text::slice_of(&v, start, v.len());
    assert(after_scheme(v@) == Some(rest@)) by {
        assert(v@.skip(8) =~= v@.subrange(8, v.len() as int));
        assert(v@.skip(7) =~= v@.subrange(7, v.len() as int));
        assert(http_scheme().len() == 7);
    }
    let ends = vec!['/', '?', '#'];
    assert(ends@ =~= seq!['/', '?', '#']);
    let authority = take_before(&rest, &ends);
    proof {
        lemma_prefix_before_len(rest@, seq!['/', '?', '#']);
    }
    let after = text::slice_of(&rest, authority.len(), rest.len());
    assert(after@ =~= rest@.skip(authority@.len() as int));
    let qf = vec!['?', '#'];
    assert(qf@ =~= seq!['?', '#']);
    let path = take_before(&after, &qf);
    let mut label = h;
    text::push_all(&mut label, &path);
    let r = drop_trailing_slashes(&label);
    text::string_of(&r)
}

proof fn lemma_prefix_before_len(s: Seq<char>, stops: Seq<char>)
    ensures
        prefix_before(s, stops).len() <= s.len(),
        prefix_before(s, stops) == s.take(prefix_before(s, stops).len() as int),
    decreases s.len(),
{
    if s.len() > 0 && !stops.contains(s[0]) {
        lemma_prefix_before_len(s.drop_first(), stops);
        assert(seq![s[0]] + s.drop_first().take(prefix_before(s.drop_first(), stops).len() as int)
            =~= s.take(prefix_before(s, stops).len() as int));
    }
}

proof fn lemma_prefix_before_free(s: Seq<char>, stops: Seq<char>)
    ensures
        forall|i: int|
            0 <= i < prefix_before(s, stops).len() ==> !stops.contains(
                #[trigger] prefix_before(s, stops)[i],
            ),
    decreases s.len(),
{
    if s.len() > 0 && !stops.contains(s[0]) {
        let t = s.drop_first();
        lemma_prefix_before_free(t, stops);
        let p = prefix_before(s, stops);
        assert forall|i: int| 0 <= i < p.len() implies !stops.contains(#[trigger] p[i]) by {
            if i > 0 {
                assert(p[i] == prefix_before(t, stops)[i - 1]);
            }
        }
    }
}

proof fn lemma_after_last_suffix(s: Seq<char>, c: char)
    ensures
        after_last(s, c).len() <= s.len(),
        after_last(s, c) == s.skip(s.len() - after_last(s, c).len()),
        forall|i: int| 0 <= i < after_last(s, c).len() ==> #[trigger] after_last(s, c)[i] != c,
    decreases s.len(),
{
    if s.len() == 0 {
        assert(s.skip(0) =~= s);
    } else if s.last() == c {
        assert(s.skip(s.len() as int) =~= Seq::<char>::empty());
    } else {
        let d = s.drop_last();
        lemma_after_last_suffix(d, c);
        let a = after_last(d, c);
        assert(after_last(s, c) == a.push(s.last()));
        assert(a.push(s.last()) =~= s.skip(s.len() - (a.len() + 1)));
    }
}

/// The host of an http(s) URL is a stretch of the URL itself, not empty,
/// holding none of the characters that end or split an authority (`/`,
/// `?`, `#`, `@`, `:`).
pub proof fn lemma_host_within_url(url: Seq<char>)
    requires
        url_host(url) is Some,
    ensures
        ({
            let h = url_host(url)->0;
            &&& h.len() > 0
            &&& exists|k: int|
                0 <= k && k + h.len() <= url.len() && #[trigger] url.subrange(k, k + h.len()) == h
            &&& forall|i: int|
                0 <= i < h.len() ==> #[trigger] h[i] != '/' && h[i] != '?' && h[i] != '#' && h[i]
                    != '@' && h[i] != ':'
        }),
{
    let rest = after_scheme(url)->0;
    let m: int = if text::has_prefix(url, https_scheme()) {
        8
    } else {
        7
    };
    assert(rest == url.skip(m));
    let ends = seq!['/', '?', '#'];
    let a = prefix_before(rest, ends);
    lemma_prefix_before_len(rest, ends);
    lemma_prefix_before_free(rest, ends);
    let b = after_last(a, '@');
    lemma_after_last_suffix(a, '@');
    let colon = seq![':'];
    let h = prefix_before(b, colon);
    lemma_prefix_before_len(b, colon);
    lemma_prefix_before_free(b, colon);
    assert(h == url_host(url)->0);
    let q = a.len() - b.len();
    let k = m + q;
    assert forall|i: int| 0 <= i < h.len() implies #[trigger] h[i] != '/' && h[i] != '?' && h[i]
        != '#' && h[i] != '@' && h[i] != ':' by {
        assert(h[i] == b[i]);
        assert(b[i] == a[q + i]);
        assert(!ends.contains(a[q + i]));
        assert(!colon.contains(h[i]));
        if a[q + i] == '/' {
            assert(ends[0] == a[q + i]);
        }
        if a[q + i] == '?' {
            assert(ends[1] == a[q + i]);
        }
        if a[q + i] == '#' {
            assert(ends[2] == a[q + i]);
        }
        if h[i] == ':' {
            assert(colon[0] == h[i]);
        }
    }
    assert(k + h.len() <= url.len());
    assert forall|i: int| 0 <= i < h.len() implies url.subrange(k, k + h.len())[i] == h[i] by {
        assert(h[i] == b[i]);
        assert(b[i] == a[q + i]);
        assert(a[q + i] == rest[q + i]);
        assert(rest[q + i] == url[m + q + i]);
    }
    assert(url.subrange(k, k + h.len()) =~= h);
}

/// Why a URL from the clipboard was not added.
#[derive(Clone, Copy, PartialEq, Eq, Debug, Structural)]
pub enum AddLinkError {
    /// The text is not an http(s) URL.
    NoUrl,
    /// A link with that very URL is listed already.
    AlreadyListed,
}

/// What adding the clipboard's `text` to the links `existing` comes to.
pub open spec fn added_link(text: Seq<char>, existing: Seq<Link>) -> Result<(Seq<char>, Seq<char>), AddLinkError> {
    match http_url(text) {
        None => Err(AddLinkError::NoUrl),
        Some(u) => if exists|i: int| 0 <= i < existing.len() && (#[trigger] existing[i]).url@ == u {
            Err(AddLinkError::AlreadyListed)
        } else {
            Ok((link_label(u), u))
        },
    }
}

/// The link to append for the clipboard's `text`: its URL (trimmed) with
/// the label `label_of` gives, unless the text is no http(s) URL or the
/// links hold that URL already.
pub fn link_to_add(text: &str, existing: &[Link]) -> (r: Result<Link, AddLinkError>)
    ensures
        match r {
            Ok(l) => added_link(text@, existing@) == Ok::<(Seq<char>, Seq<char>), AddLinkError>((l.label@, l.url@)),
            Err(e) => added_link(text@, existing@) == Err::<(Seq<char>, Seq<char>), AddLinkError>(e),
        },
{
    let url = match parse_http_url(text) {
        Some(u) => u,
        None => {
            return Err(AddLinkError::NoUrl);
        },
    };
    let u = text::chars_of(url.as_str());
    let mut i: usize = 0;
    while i < existing.len()
        invariant
            0 <= i <= existing.len(),
            u@ == url@,
            http_url(text@) == Some(url@),
            forall|j: int| 0 <= j < i ==> (#[trigger] existing@[j]).url@ != url@,
        decreases existing.len() - i,
    {
        let e = text::chars_of(existing[i].url.as_str());
        if text::same_chars(&e, &u) {
            assert(existing@[i as int].url@ == url@);
            return Err(AddLinkError::AlreadyListed);
        }
        i = i + 1;
    }
    proof {
        let t = text::trimmed(text@);
        assert(!text::has_ws(t) && url_host(t) is Some);
    }
    let label = label_of(url.as_str());
    Ok(Link { label, url })
}

/// links.toml with the `[[link]]` `block` appended: an empty file becomes
/// the block; otherwise the block follows one empty line, after a line
/// ending added where the file lacked its last one.
pub open spec fn appended(content: Seq<char>, block: Seq<char>) -> Seq<char> {
    if content.len() == 0 {
        block
    } else if content.last() == '\n' {
        content + seq!['\n'] + block
    } else {
        content + seq!['\n', '\n'] + block
    }
}

pub fn append_block(content: &str, block: &str) -> (r: String)
    ensures
        r@ == appended(content@, block@),
{
    let mut out = text::chars_of(content);
    if out.len() > 0 {
        if out[out.len() - 1] != '\n' {
            out.push('\n');
        }
        out.push('\n');
    }
    text::push_str(&mut out, block);
    assert(out@ =~= appended(content@, block@));
    text::string_of(&out)
}

/// The position of the first link whose URL is exactly `url`.
pub fn find_url(links: &[Link], url: &str) -> (r: Option<usize>)
    ensures
        match r {
            Some(i) => i < links@.len() && links@[i as int].url@ == url@ && forall|j: int|
                0 <= j < i ==> (#[trigger] links@[j]).url@ != url@,
            None => forall|j: int| 0 <= j < links@.len() ==> (#[trigger] links@[j]).url@ != url@,
        },
{
    let want = text::chars_of(url);
    let mut i: usize = 0;
    while i < links.len()
        invariant
            0 <= i <= links@.len(),
            want@ == url@,
            forall|j: int| 0 <= j < i ==> (#[trigger] links@[j]).url@ != url@,
        decreases links@.len() - i,
    {
        let have = text::chars_of(links[i].url.as_str());
        if text::same_chars(&have, &want) {
            return Some(i);
        }
        i = i + 1;
    }
    None
}

} // verus!
