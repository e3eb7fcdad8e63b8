//! A minimal URL parser, its formatter and a percent-encoder.

use crate::decimal::{
    decimal, decimal_string, is_digit, lemma_decimal, lemma_parse_decimal, parse_u16,
    parse_u16_chars,
};
use crate::error::Error;
use crate::text::{chars_of, find, find_in, lemma_find, lemma_find_is, substring, Pattern};
use vstd::prelude::*;
use vstd::slice::slice_subrange;
use vstd::string::*;

verus! {

/// A parsed URL.
#[derive(Debug, PartialEq, Eq)]
pub struct Url {
    pub protocol: String,
    pub host: String,
    pub port: u16,
    pub path: String,
    pub query: Option<String>,
    pub fullpath: String,
}

/// The mathematical value of a [`Url`].
pub struct UrlView {
    pub protocol: Seq<char>,
    pub host: Seq<char>,
    pub port: u16,
    pub path: Seq<char>,
    pub query: Option<Seq<char>>,
    pub fullpath: Seq<char>,
}

/// The value of an optional text.
pub open spec fn option_view(o: Option<String>) -> Option<Seq<char>> {
    match o {
        Some(q) => Some(q@),
        None => None,
    }
}

impl View for Url {
    type V = UrlView;

    open spec fn view(&self) -> UrlView {
        UrlView {
            protocol: self.protocol@,
            host: self.host@,
            port: self.port,
            path: self.path@,
            query: option_view(self.query),
            fullpath: self.fullpath@,
        }
    }
}

impl Clone for Url {
    /// The same URL.
    fn clone(&self) -> (r: Self)
        ensures
            r@ == self@,
    {
        Url {
            protocol: self.protocol.clone(),
            host: self.host.clone(),
            port: self.port,
            path: self.path.clone(),
            query: match &self.query {
                Some(q) => Some(q.clone()),
                None => None,
            },
            fullpath: self.fullpath.clone(),
        }
    }
}

/// Whether `://` stands in `s` at index `i`.
pub open spec fn scheme_sep_at(s: Seq<char>, i: int) -> bool {
    &&& 0 <= i
    &&& i + 3 <= s.len()
    &&& s[i] == ':'
    &&& s[i + 1] == '/'
    &&& s[i + 2] == '/'
}

/// The first index at or after `from` at which `://` stands in `s`, or
/// `s.len()` when there is none.
pub open spec fn find_scheme_sep(s: Seq<char>, from: int) -> int
    decreases s.len() - from,
{
    if from < 0 || from + 3 > s.len() {
        s.len() as int
    } else if scheme_sep_at(s, from) {
        from
    } else {
        find_scheme_sep(s, from + 1)
    }
}

/// The scheme `https`.
pub open spec fn https() -> Seq<char> {
    seq!['h', 't', 't', 'p', 's']
}

/// The scheme taken when the text names none.
pub open spec fn http() -> Seq<char> {
    seq!['h', 't', 't', 'p']
}

/// The port taken when the text names none: 443 for `https`, else 80.
pub open spec fn default_port(scheme: Seq<char>) -> u16 {
    if scheme == https() {
        443
    } else {
        80
    }
}

/// The path, query and full path of a URL.
pub struct TargetView {
    pub path: Seq<char>,
    pub query: Option<Seq<char>>,
    pub fullpath: Seq<char>,
}

/// The path and query read from `tail`, the text behind the host or the
/// port: what follows its first `/` is the raw target, split at its first
/// `?`. Without a `/` the path is `/` and there is no query.
pub open spec fn parse_target(tail: Seq<char>) -> TargetView {
    let slash = find(tail, Pattern::Char('/'), 0);
    if slash < tail.len() {
        let raw = tail.skip(slash + 1);
        let mark = find(raw, Pattern::Char('?'), 0);
        TargetView {
            path: seq!['/'] + raw.take(mark),
            query: if mark < raw.len() {
                Some(raw.skip(mark + 1))
            } else {
                None
            },
            fullpath: seq!['/'] + raw,
        }
    } else {
        TargetView { path: seq!['/'], query: None, fullpath: seq!['/'] }
    }
}

/// The scheme that `s` names: what stands before its first `://`, or `http`.
pub open spec fn scheme_of(s: Seq<char>) -> Seq<char> {
    let sep = find_scheme_sep(s, 0);
    if sep < s.len() {
        s.take(sep)
    } else {
        http()
    }
}

/// What stands in `s` behind the scheme and its `://`.
pub open spec fn after_scheme(s: Seq<char>) -> Seq<char> {
    let sep = find_scheme_sep(s, 0);
    if sep < s.len() {
        s.skip(sep + 3)
    } else {
        s
    }
}

/// The URL made of the given parts.
pub open spec fn with_target(scheme: Seq<char>, host: Seq<char>, port: u16, t: TargetView)
    -> UrlView {
    UrlView { protocol: scheme, host, port, path: t.path, query: t.query, fullpath: t.fullpath }
}

/// What a text denotes as a URL.
///
/// The scheme is what stands before the first `://`, or `http`. In the rest,
/// the host ends at the first `:`; the port is then what stands between that
/// `:` and the next `/`. Without a `:` the host ends at the first `/` and the
/// port follows from the scheme. Neither scheme nor host is validated.
pub open spec fn parse_url(s: Seq<char>) -> Result<UrlView, Error> {
    let scheme = scheme_of(s);
    let rest = after_scheme(s);
    let colon = find(rest, Pattern::Char(':'), 0);
    if colon < rest.len() {
        let tail = rest.skip(colon + 1);
        let slash = find(tail, Pattern::Char('/'), 0);
        match parse_u16(tail.take(slash)) {
            Err(kind) => Err(Error::ParseIntError(kind)),
            Ok(port) => Ok(with_target(scheme, rest.take(colon), port, parse_target(tail))),
        }
    } else {
        let slash = find(rest, Pattern::Char('/'), 0);
        Ok(with_target(scheme, rest.take(slash), default_port(scheme), parse_target(rest)))
    }
}

/// A URL as text: `scheme://host:port` and the full path, the port always
/// written out.
pub open spec fn format_url(u: UrlView) -> Seq<char> {
    u.protocol + seq![':', '/', '/'] + u.host + seq![':'] + decimal(u.port as nat) + u.fullpath
}

/// The full path is the path, followed by `?` and the query where there is
/// one, and the path begins with `/`.
pub open spec fn well_formed(u: UrlView) -> bool {
    &&& u.path.len() > 0
    &&& u.path[0] == '/'
    &&& u.fullpath == match u.query {
        Some(q) => u.path + seq!['?'] + q,
        None => u.path,
    }
}

/// An index with no `://` before it at which `://` stands, or beyond which
/// none fits, is the one that `find_scheme_sep` returns.
pub proof fn lemma_find_scheme_sep_is(s: Seq<char>, from: int, i: int)
    requires
        0 <= from <= i <= s.len(),
        forall|j: int| from <= j < i ==> !scheme_sep_at(s, j),
        scheme_sep_at(s, i) || i == s.len(),
    ensures
        find_scheme_sep(s, from) == i,
    decreases i - from,
{
    if from < i {
        lemma_find_scheme_sep_is(s, from + 1, i);
    }
}

/// The full path that `parse_target` reads is its path, then `?` and its
/// query where there is one.
pub proof fn lemma_parse_target_well_formed(
    scheme: Seq<char>,
    host: Seq<char>,
    port: u16,
    tail: Seq<char>,
)
    ensures
        well_formed(with_target(scheme, host, port, parse_target(tail))),
{
    let slash = find(tail, Pattern::Char('/'), 0);
    lemma_find(tail, Pattern::Char('/'), 0);
    if slash < tail.len() {
        let raw = tail.skip(slash + 1);
        let mark = find(raw, Pattern::Char('?'), 0);
        lemma_find(raw, Pattern::Char('?'), 0);
        let u = parse_target(tail);
        if mark < raw.len() {
            assert(raw =~= raw.take(mark) + seq!['?'] + raw.skip(mark + 1));
            assert(u.fullpath =~= u.path + seq!['?'] + raw.skip(mark + 1));
        } else {
            assert(raw.take(mark) =~= raw);
        }
    }
}

/// Every URL that parsing yields is well formed.
pub proof fn lemma_parse_url_well_formed(s: Seq<char>)
    ensures
        parse_url(s) matches Ok(u) ==> well_formed(u),
{
    let scheme = scheme_of(s);
    let rest = after_scheme(s);
    let colon = find(rest, Pattern::Char(':'), 0);
    if colon < rest.len() {
        let tail = rest.skip(colon + 1);
        let slash = find(tail, Pattern::Char('/'), 0);
        if let Ok(port) = parse_u16(tail.take(slash)) {
            lemma_parse_target_well_formed(scheme, rest.take(colon), port, tail);
        }
    } else {
        let slash = find(rest, Pattern::Char('/'), 0);
        lemma_parse_target_well_formed(scheme, rest.take(slash), default_port(scheme), rest);
    }
}

/// The text `scheme://host:port/` followed by `raw`, the port in its
/// shortest decimal form.
pub open spec fn url_text(scheme: Seq<char>, host: Seq<char>, port: u16, raw: Seq<char>) -> Seq<
    char,
> {
    scheme + seq![':', '/', '/'] + host + seq![':'] + decimal(port as nat) + seq!['/'] + raw
}

/// In `before`, `c`, `after` with no `c` in `before`, the first `c` is the
/// one in the middle.
pub proof fn lemma_find_delimiter(before: Seq<char>, c: char, after: Seq<char>)
    requires
        forall|i: int| 0 <= i < before.len() ==> before[i] != c,
    ensures
        find(before + seq![c] + after, Pattern::Char(c), 0) == before.len(),
        (before + seq![c] + after).take(before.len() as int) == before,
        (before + seq![c] + after).skip(before.len() as int + 1) == after,
{
    let s = before + seq![c] + after;
    let at = before.len() as int;
    assert(s[at] == c);
    assert forall|j: int| 0 <= j < at implies !Pattern::Char(c).matches(#[trigger] s[j]) by {
        assert(s[j] == before[j]);
    }
    lemma_find_is(s, Pattern::Char(c), 0, at);
    assert(s.take(at) =~= before);
    assert(s.skip(at + 1) =~= after);
}

/// A text without `c` has no first `c`.
pub proof fn lemma_find_absent(s: Seq<char>, c: char)
    requires
        forall|i: int| 0 <= i < s.len() ==> s[i] != c,
    ensures
        find(s, Pattern::Char(c), 0) == s.len(),
{
    lemma_find_is(s, Pattern::Char(c), 0, s.len() as int);
}

/// In `scheme`, `://`, `rest` with no `://` inside `scheme`, the scheme is
/// `scheme` and what follows it is `rest`.
pub proof fn lemma_scheme_split(scheme: Seq<char>, rest: Seq<char>)
    requires
        forall|j: int| !scheme_sep_at(scheme, j),
    ensures
        scheme_of(scheme + seq![':', '/', '/'] + rest) == scheme,
        after_scheme(scheme + seq![':', '/', '/'] + rest) == rest,
{
    let s = scheme + seq![':', '/', '/'] + rest;
    let at = scheme.len() as int;
    assert(scheme_sep_at(s, at));
    assert forall|j: int| 0 <= j < at implies !scheme_sep_at(s, j) by {
        if j + 3 <= at {
            assert(s[j] == scheme[j] && s[j + 1] == scheme[j + 1] && s[j + 2] == scheme[j + 2]);
            assert(!scheme_sep_at(scheme, j));
        } else if j + 2 == at {
            assert(s[j + 2] == ':');
        } else {
            assert(s[j + 1] == ':');
        }
    }
    lemma_find_scheme_sep_is(s, 0, at);
    assert(s.take(at) =~= scheme);
    assert(s.skip(at + 3) =~= rest);
}

/// The raw target `path`, followed by `?` and the query where there is one.
pub open spec fn raw_target(path: Seq<char>, query: Option<Seq<char>>) -> Seq<char> {
    path + match query {
        Some(q) => seq!['?'] + q,
        None => Seq::empty(),
    }
}

/// Behind a prefix without `/`, the target `/path?query` is read as `path`
/// and `query`.
pub proof fn lemma_target_split(prefix: Seq<char>, path: Seq<char>, query: Option<Seq<char>>)
    requires
        forall|i: int| 0 <= i < prefix.len() ==> prefix[i] != '/',
        forall|i: int| 0 <= i < path.len() ==> path[i] != '?',
    ensures
        parse_target(prefix + seq!['/'] + raw_target(path, query)) == (TargetView {
            path: seq!['/'] + path,
            query,
            fullpath: seq!['/'] + raw_target(path, query),
        }),
{
    let raw = raw_target(path, query);
    let tail = prefix + seq!['/'] + raw;
    lemma_find_delimiter(prefix, '/', raw);
    match query {
        Some(q) => {
            assert(raw =~= path + seq!['?'] + q);
            lemma_find_delimiter(path, '?', q);
        },
        None => {
            assert(raw =~= path);
            lemma_find_absent(path, '?');
            assert(path.take(path.len() as int) =~= path);
        },
    }
}

/// Round trip: a text `scheme://host:port/path?query` parses into this
/// scheme, host and port, with all that follows the port as its full path,
/// and formatting the parsed URL gives the text back, character for
/// character.
///
/// The parts are those that such a text splits into again: a scheme with no
/// `://` inside it, a host without `:`, and the port in its shortest decimal
/// form. What follows the `/` behind the port is free.
pub proof fn lemma_url_round_trip(scheme: Seq<char>, host: Seq<char>, port: u16, raw: Seq<char>)
    requires
        forall|j: int| !scheme_sep_at(scheme, j),
        forall|i: int| 0 <= i < host.len() ==> host[i] != ':',
    ensures
        parse_url(url_text(scheme, host, port, raw)) matches Ok(u) && u.protocol == scheme
            && u.host == host && u.port == port && u.fullpath == seq!['/'] + raw && format_url(u)
            == url_text(scheme, host, port, raw),
        parse_url(url_text(scheme, host, port, raw)) == Ok::<UrlView, Error>(
            with_target(scheme, host, port, parse_target(seq!['/'] + raw)),
        ),
{
    let s = url_text(scheme, host, port, raw);
    let digits = decimal(port as nat);
    let tail = digits + seq!['/'] + raw;
    let rest = host + seq![':'] + tail;
    assert(s =~= scheme + seq![':', '/', '/'] + rest);
    lemma_scheme_split(scheme, rest);
    lemma_find_delimiter(host, ':', tail);
    lemma_decimal(port as nat);
    assert forall|i: int| 0 <= i < digits.len() implies digits[i] != '/' by {
        assert(is_digit(digits[i]));
    }
    lemma_find_delimiter(digits, '/', raw);
    lemma_parse_decimal(port);
    lemma_find_delimiter(Seq::<char>::empty(), '/', raw);
    assert(seq!['/'] + raw =~= Seq::<char>::empty() + seq!['/'] + raw);
    assert(parse_target(tail) == parse_target(seq!['/'] + raw));
    let u = with_target(scheme, host, port, parse_target(tail));
    assert(parse_url(s) == Ok::<UrlView, Error>(u));
    assert(format_url(u) =~= s);
}

/// Round trip without a port: a text `scheme://host/...` parses with the
/// port that follows from the scheme, and formatting the parsed URL gives the
/// text with that port written out behind the host.
///
/// The host holds neither `:` nor `/`, and no `:` follows it: the first `:`
/// behind the scheme would begin a port.
pub proof fn lemma_url_round_trip_default_port(scheme: Seq<char>, host: Seq<char>, raw: Seq<char>)
    requires
        forall|j: int| !scheme_sep_at(scheme, j),
        forall|i: int| 0 <= i < host.len() ==> host[i] != ':' && host[i] != '/',
        forall|i: int| 0 <= i < raw.len() ==> raw[i] != ':',
    ensures
        parse_url(scheme + seq![':', '/', '/'] + host + seq!['/'] + raw) matches Ok(u)
            && u.protocol == scheme && u.host == host && u.port == default_port(scheme)
            && u.fullpath == seq!['/'] + raw && format_url(u) == url_text(
            scheme,
            host,
            default_port(scheme),
            raw,
        ),
{
    let rest = host + seq!['/'] + raw;
    let s = scheme + seq![':', '/', '/'] + host + seq!['/'] + raw;
    assert(s =~= scheme + seq![':', '/', '/'] + rest);
    lemma_scheme_split(scheme, rest);
    lemma_find_absent(rest, ':');
    lemma_find_delimiter(host, '/', raw);
    let u = with_target(scheme, host, default_port(scheme), parse_target(rest));
    assert(parse_url(s) == Ok::<UrlView, Error>(u));
    assert(format_url(u) =~= url_text(scheme, host, default_port(scheme), raw));
}

/// Path and query: in a text `scheme://host:port/path?query` whose path
/// holds no `?`, the path of the parsed URL is `/path` and its query is
/// `query`; without `?query` the URL has no query.
pub proof fn lemma_url_path_and_query(
    scheme: Seq<char>,
    host: Seq<char>,
    port: u16,
    path: Seq<char>,
    query: Option<Seq<char>>,
)
    requires
        forall|j: int| !scheme_sep_at(scheme, j),
        forall|i: int| 0 <= i < host.len() ==> host[i] != ':',
        forall|i: int| 0 <= i < path.len() ==> path[i] != '?',
    ensures
        parse_url(url_text(scheme, host, port, raw_target(path, query))) == Ok::<UrlView, Error>(
            UrlView {
                protocol: scheme,
                host,
                port,
                path: seq!['/'] + path,
                query,
                fullpath: seq!['/'] + raw_target(path, query),
            },
        ),
{
    lemma_url_round_trip(scheme, host, port, raw_target(path, query));
    lemma_target_split(Seq::<char>::empty(), path, query);
    assert(seq!['/'] + raw_target(path, query) =~= Seq::<char>::empty() + seq!['/'] + raw_target(
        path,
        query,
    ));
}

/// The first index at which `://` stands in `s`, or the length of `s`.
fn find_scheme_sep_in(s: &[char]) -> (i: usize)
    ensures
        i == find_scheme_sep(s@, 0),
        i <= s@.len(),
        i < s@.len() ==> i + 3 <= s@.len(),
{
    let n = s.len();
    let mut i: usize = 0;
    while i < n
        invariant
            n == s@.len(),
            0 <= i <= n,
            forall|j: int| 0 <= j < i ==> !scheme_sep_at(s@, j),
        decreases n - i,
    {
        if n - i < 3 {
            proof {
                assert forall|j: int| 0 <= j < n implies !scheme_sep_at(s@, j) by {}
                lemma_find_scheme_sep_is(s@, 0, n as int);
            }
            return n;
        }
        if s[i] == ':' && s[i + 1] == '/' && s[i + 2] == '/' {
            proof {
                lemma_find_scheme_sep_is(s@, 0, i as int);
            }
            return i;
        }
        i += 1;
    }
    proof {
        lemma_find_scheme_sep_is(s@, 0, n as int);
    }
    n
}

/// `/` followed by the characters of `s` from index `from` up to `to`.
fn rooted(s: &str, from: usize, to: usize) -> (r: String)
    requires
        from <= to <= s@.len(),
    ensures
        r@ == seq!['/'] + s@.subrange(from as int, to as int),
{
    proof {
        reveal_strlit("/");
    }
    let mut r = String::from_str("/");
    assert(r@ =~= seq!['/']);
    r.append(s.substring_char(from, to));
    r
}

/// Whether `s` is the text `https`.
pub fn is_https(s: &str) -> (b: bool)
    ensures
        b == (s@ == https()),
{
    let c = chars_of(s);
    let b = c.len() == 5 && c[0] == 'h' && c[1] == 't' && c[2] == 't' && c[3] == 'p' && c[4] == 's';
    proof {
        if b {
            assert(s@ =~= https());
        }
    }
    b
}

/// Reads the scheme of `s`: the scheme itself, the index at which the rest
/// begins, and whether the scheme is `https`.
fn read_scheme(s: &str, all: &[char]) -> (r: (String, usize, bool))
    requires
        all@ == s@,
    ensures
        r.0@ == scheme_of(s@),
        r.1 <= s@.len(),
        s@.skip(r.1 as int) == after_scheme(s@),
        r.2 == (scheme_of(s@) == https()),
{
    let sep = find_scheme_sep_in(all);
    if sep < all.len() {
        let protocol = substring(s, 0, sep);
        let secure = is_https(protocol.as_str());
        (protocol, sep + 3, secure)
    } else {
        proof {
            reveal_strlit("http");
        }
        let protocol = String::from_str("http");
        proof {
            assert(protocol@ =~= http());
            assert(http().len() == 4 && https().len() == 5);
            assert(s@.skip(0) =~= s@);
        }
        (protocol, 0, false)
    }
}

/// Reads the path and the query that follow the host or the port: `base` is
/// the index in `s` at which that text begins.
fn read_target(s: &str, all: &[char], base: usize) -> (r: (String, Option<String>, String))
    requires
        all@ == s@,
        base <= s@.len(),
    ensures
        parse_target(s@.skip(base as int)) == (TargetView {
            path: r.0@,
            query: option_view(r.1),
            fullpath: r.2@,
        }),
{
    let n = all.len();
    let tail = slice_subrange(all, base, n);
    assert(tail@ == s@.skip(base as int));
    let slash = find_in(tail, &Pattern::Char('/'), 0);
    if slash < tail.len() {
        let raw = slice_subrange(tail, slash + 1, tail.len());
        let mark = find_in(raw, &Pattern::Char('?'), 0);
        let raw_start: usize = base + slash + 1;
        assert(raw@ == tail@.skip(slash + 1));
        assert(raw@ =~= s@.subrange(raw_start as int, n as int));
        let fullpath = rooted(s, raw_start, n);
        let path = rooted(s, raw_start, raw_start + mark);
        assert(s@.subrange(raw_start as int, raw_start + mark) =~= raw@.take(mark as int));
        let query = if mark < raw.len() {
            let q = substring(s, raw_start + mark + 1, n);
            assert(q@ =~= raw@.skip(mark + 1));
            Some(q)
        } else {
            None
        };
        (path, query, fullpath)
    } else {
        let path = rooted(s, n, n);
        let fullpath = rooted(s, n, n);
        assert(path@ =~= seq!['/']);
        (path, None, fullpath)
    }
}

/// The URL made of parts that were parsed elsewhere. A missing scheme is
/// `http`, a missing port follows from the scheme, and the path begins with
/// `/`, which is put before it where it does not.
pub open spec fn url_of_parts(
    scheme: Option<Seq<char>>,
    host: Seq<char>,
    port: Option<u16>,
    path: Seq<char>,
    query: Option<Seq<char>>,
) -> UrlView {
    let protocol = match scheme {
        Some(s) => s,
        None => http(),
    };
    let rooted = if path.len() > 0 && path[0] == '/' {
        path
    } else {
        seq!['/'] + path
    };
    UrlView {
        protocol,
        host,
        port: match port {
            Some(p) => p,
            None => default_port(protocol),
        },
        path: rooted,
        query,
        fullpath: match query {
            Some(q) => rooted + seq!['?'] + q,
            None => rooted,
        },
    }
}

/// The value of an optional text slice.
pub open spec fn option_str_view(o: Option<&str>) -> Option<Seq<char>> {
    match o {
        Some(q) => Some(q@),
        None => None,
    }
}

impl Url {
    /// Parses a URL. The only failure is a port that is no 16-bit decimal
    /// number.
    pub fn from_str(s: &str) -> (r: Result<Url, Error>)
        ensures
            match r {
                Ok(u) => parse_url(s@) == Ok::<UrlView, Error>(u@) && well_formed(u@),
                Err(e) => parse_url(s@) == Err::<UrlView, Error>(e),
            },
    {
        let chars = chars_of(s);
        let all = chars.as_slice();
        let n = all.len();
        let (protocol, start, secure) = read_scheme(s, all);
        let rest = slice_subrange(all, start, n);
        assert(rest@ == after_scheme(s@));
        let colon = find_in(rest, &Pattern::Char(':'), 0);
        let host_end: usize;
        let tail_start: usize;
        let port: u16;
        if colon < rest.len() {
            let tail = slice_subrange(rest, colon + 1, rest.len());
            let slash = find_in(tail, &Pattern::Char('/'), 0);
            let digits = slice_subrange(tail, 0, slash);
            assert(tail@ == rest@.skip(colon + 1));
            assert(digits@ == tail@.take(slash as int));
            match parse_u16_chars(digits) {
                Err(kind) => {
                    return Err(Error::ParseIntError(kind));
                },
                Ok(p) => {
                    port = p;
                },
            }
            host_end = colon;
            tail_start = colon + 1;
        } else {
            host_end = find_in(rest, &Pattern::Char('/'), 0);
            tail_start = 0;
            port = if secure { 443 } else { 80 };
        }
        let host = substring(s, start, start + host_end);
        assert(host@ =~= rest@.take(host_end as int));
        let (path, query, fullpath) = read_target(s, all, start + tail_start);
        assert(s@.skip(start + tail_start) =~= rest@.skip(tail_start as int));
        assert(rest@.skip(0) =~= rest@);
        proof {
            lemma_parse_url_well_formed(s@);
        }
        Ok(Url { protocol, host, port, path, query, fullpath })
    }

    /// The URL made of parts that were parsed elsewhere.
    pub fn from_parts(
        scheme: Option<&str>,
        host: &str,
        port: Option<u16>,
        path: &str,
        query: Option<&str>,
    ) -> (u: Url)
        ensures
            u@ == url_of_parts(option_str_view(scheme), host@, port, path@, option_str_view(query)),
            well_formed(u@),
    {
        let protocol = match scheme {
            Some(s) => String::from_str(s),
            None => {
                proof {
                    reveal_strlit("http");
                }
                let p = String::from_str("http");
                assert(p@ =~= http());
                p
            },
        };
        let port = match port {
            Some(p) => p,
            None => if is_https(protocol.as_str()) { 443 } else { 80 },
        };
        let chars = chars_of(path);
        let rooted = if chars.len() > 0 && chars[0] == '/' {
            String::from_str(path)
        } else {
            let r = rooted(path, 0, chars.len());
            assert(path@.subrange(0, path@.len() as int) =~= path@);
            r
        };
        let mut fullpath = rooted.clone();
        let query = match query {
            Some(q) => {
                proof {
                    reveal_strlit("?");
                }
                fullpath.append("?");
                assert("?"@ =~= seq!['?']);
                fullpath.append(q);
                Some(String::from_str(q))
            },
            None => None,
        };
        Url { protocol, host: String::from_str(host), port, path: rooted, query, fullpath }
    }

    /// The URL as text, the port always written out.
    pub fn to_string(&self) -> (r: String)
        ensures
            r@ == format_url(self@),
    {
        proof {
            reveal_strlit("://");
            reveal_strlit(":");
        }
        let mut r = String::from_str(self.protocol.as_str());
        r.append("://");
        assert("://"@ =~= seq![':', '/', '/']);
        r.append(self.host.as_str());
        r.append(":");
        assert(":"@ =~= seq![':']);
        let port = decimal_string(self.port as u64);
        r.append(port.as_str());
        r.append(self.fullpath.as_str());
        r
    }
}

impl core::str::FromStr for Url {
    type Err = Error;

    /// Parses a URL, as [`Url::from_str`] does.
    fn from_str(s: &str) -> (r: Result<Url, Error>)
        ensures
            match r {
                Ok(u) => parse_url(s@) == Ok::<UrlView, Error>(u@) && well_formed(u@),
                Err(e) => parse_url(s@) == Err::<UrlView, Error>(e),
            },
    {
        Url::from_str(s)
    }
}

/// An ASCII letter, upper or lower case.
pub open spec fn is_ascii_letter(b: u8) -> bool {
    (65 <= b <= 90) || (97 <= b <= 122)
}

/// The upper-case hexadecimal digit of value `n`.
pub open spec fn hex_digit(n: int) -> char {
    if n < 10 {
        (48 + n) as u8 as char
    } else {
        (55 + n) as u8 as char
    }
}

/// One byte, percent-encoded: a letter stands for itself, every other byte
/// becomes `%` and its two upper-case hexadecimal digits.
pub open spec fn encode_byte(b: u8) -> Seq<char> {
    if is_ascii_letter(b) {
        seq![b as char]
    } else {
        seq!['%', hex_digit(b as int / 16), hex_digit(b as int % 16)]
    }
}

/// The bytes percent-encoded one after the other.
pub open spec fn percent_encode(bytes: Seq<u8>) -> Seq<char>
    decreases bytes.len(),
{
    if bytes.len() == 0 {
        Seq::empty()
    } else {
        percent_encode(bytes.drop_last()) + encode_byte(bytes.last())
    }
}

/// The one-character text of the ASCII letter `b`.
fn letter_str(b: u8) -> (r: &'static str)
    requires
        is_ascii_letter(b),
    ensures
        r@ == seq![b as char],
{
    proof {
        reveal_strlit("ABCDEFGHIJKLMNOPQRSTUVWXYZ");
        reveal_strlit("abcdefghijklmnopqrstuvwxyz");
    }
    let r = if b <= 90 {
        let i: usize = (b - 65) as usize;
        "ABCDEFGHIJKLMNOPQRSTUVWXYZ".substring_char(i, i + 1)
    } else {
        let i: usize = (b - 97) as usize;
        "abcdefghijklmnopqrstuvwxyz".substring_char(i, i + 1)
    };
    assert(r@ =~= seq![b as char]);
    r
}

/// The one-character text of the upper-case hexadecimal digit of value `n`.
fn hex_str(n: u8) -> (r: &'static str)
    requires
        n < 16,
    ensures
        r@ == seq![hex_digit(n as int)],
{
    proof {
        reveal_strlit("0123456789ABCDEF");
    }
    let r = "0123456789ABCDEF".substring_char(n as usize, n as usize + 1);
    assert(r@ =~= seq![hex_digit(n as int)]);
    r
}

/// Percent-encodes a URL component: ASCII letters pass through, every other
/// byte of the text's UTF-8 form, digits and punctuation included, becomes
/// `%` and two upper-case hexadecimal digits.
pub fn encode(input: &str) -> (output: String)
    ensures
        output@ == percent_encode(input.spec_bytes()),
{
    let bytes = input.as_bytes();
    let mut output = String::new();
    let mut i: usize = 0;
    proof {
        reveal_strlit("%");
        assert(bytes@.take(0) =~= Seq::<u8>::empty());
    }
    while i < bytes.len()
        invariant
            i <= bytes@.len(),
            output@ == percent_encode(bytes@.take(i as int)),
            "%"@ == seq!['%'],
        decreases bytes@.len() - i,
    {
        let b: u8 = bytes[i];
        let ghost before = output@;
        if (65 <= b && b <= 90) || (97 <= b && b <= 122) {
            output.append(letter_str(b));
        } else {
            output.append("%");
            output.append(hex_str(b / 16));
            output.append(hex_str(b % 16));
        }
        proof {
            let next = bytes@.take(i + 1);
            assert(next.drop_last() =~= bytes@.take(i as int));
            assert(next.last() == b);
            assert(output@ =~= before + encode_byte(b));
        }
        i += 1;
    }
    proof {
        assert(bytes@.take(i as int) =~= bytes@);
    }
    output
}

} // verus!
