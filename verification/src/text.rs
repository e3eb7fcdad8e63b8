//! Character-level building blocks shared by the parsers: searching for a
//! delimiter, Unicode white space, trimming and tokens.
//!
//! Text is modelled as `Seq<char>`. Executable code works on `&[char]`, the
//! characters of a `&str` laid out once by [`chars_of`], so that every index
//! below is a character index.

use vstd::prelude::*;
use vstd::string::*;
use vstd::utf8::{decode_utf8, encode_utf8_decode_utf8, valid_utf8};

verus! {

/// What a single character is tested against during a search.
#[derive(Clone, Copy, Debug)]
pub enum Pattern {
    /// Exactly this character.
    Char(char),
    /// Any Unicode white space character.
    Space,
    /// Any character that is not white space.
    NonSpace,
}

/// Unicode white space (the `White_Space` property).
pub open spec fn is_whitespace(c: char) -> bool {
    let n = c as u32;
    ||| 0x09 <= n <= 0x0D
    ||| n == 0x20
    ||| n == 0x85
    ||| n == 0xA0
    ||| n == 0x1680
    ||| 0x2000 <= n <= 0x200A
    ||| n == 0x2028
    ||| n == 0x2029
    ||| n == 0x202F
    ||| n == 0x205F
    ||| n == 0x3000
}

/// Whether `c` is Unicode white space.
pub fn is_space(c: char) -> (b: bool)
    ensures
        b == is_whitespace(c),
{
    let n: u32 = c as u32;
    (0x09 <= n && n <= 0x0D) || n == 0x20 || n == 0x85 || n == 0xA0 || n == 0x1680 || (0x2000 <= n
        && n <= 0x200A) || n == 0x2028 || n == 0x2029 || n == 0x202F || n == 0x205F || n == 0x3000
}

impl Pattern {
    /// Whether the pattern accepts `c`.
    pub open spec fn matches(self, c: char) -> bool {
        match self {
            Pattern::Char(d) => c == d,
            Pattern::Space => is_whitespace(c),
            Pattern::NonSpace => !is_whitespace(c),
        }
    }

    /// Whether the pattern accepts `c`.
    pub fn test(&self, c: char) -> (b: bool)
        ensures
            b == self.matches(c),
    {
        match self {
            Pattern::Char(d) => c == *d,
            Pattern::Space => is_space(c),
            Pattern::NonSpace => !is_space(c),
        }
    }
}

/// The first index at or after `from` whose character `p` accepts, or
/// `s.len()` when there is none.
pub open spec fn find(s: Seq<char>, p: Pattern, from: int) -> int
    decreases s.len() - from,
{
    if from < 0 || from >= s.len() {
        s.len() as int
    } else if p.matches(s[from]) {
        from
    } else {
        find(s, p, from + 1)
    }
}

/// `find` returns the least matching index in range, or the length.
pub proof fn lemma_find(s: Seq<char>, p: Pattern, from: int)
    requires
        0 <= from <= s.len(),
    ensures
        from <= find(s, p, from) <= s.len(),
        forall|j: int| from <= j < find(s, p, from) ==> !p.matches(#[trigger] s[j]),
        find(s, p, from) < s.len() ==> p.matches(s[find(s, p, from)]),
    decreases s.len() - from,
{
    if from < s.len() && !p.matches(s[from]) {
        lemma_find(s, p, from + 1);
    }
}

/// An index with no match before it that matches itself, or is the length,
/// is the one that `find` returns.
pub proof fn lemma_find_is(s: Seq<char>, p: Pattern, from: int, i: int)
    requires
        0 <= from <= i <= s.len(),
        forall|j: int| from <= j < i ==> !p.matches(#[trigger] s[j]),
        i < s.len() ==> p.matches(s[i]),
    ensures
        find(s, p, from) == i,
    decreases i - from,
{
    if from < i {
        lemma_find_is(s, p, from + 1, i);
    }
}

/// The first index at or after `from` whose character `p` accepts, or the
/// length of `s`.
pub fn find_in(s: &[char], p: &Pattern, from: usize) -> (i: usize)
    requires
        from <= s@.len(),
    ensures
        i == find(s@, *p, from as int),
        from <= i <= s@.len(),
{
    let mut i: usize = from;
    while i < s.len() && !p.test(s[i])
        invariant
            from <= i <= s@.len(),
            forall|j: int| from <= j < i ==> !p.matches(#[trigger] s@[j]),
        decreases s@.len() - i,
    {
        i += 1;
    }
    proof {
        lemma_find_is(s@, *p, from as int, i as int);
    }
    i
}

/// One past the last character of `s` that is not white space, or 0 when
/// every character is white space.
pub open spec fn trim_end(s: Seq<char>) -> int
    decreases s.len(),
{
    if s.len() == 0 {
        0
    } else if is_whitespace(s.last()) {
        trim_end(s.drop_last())
    } else {
        s.len() as int
    }
}

/// The index of the first character of `s` that is not white space, or
/// `s.len()`.
pub open spec fn trim_start(s: Seq<char>) -> int {
    find(s, Pattern::NonSpace, 0)
}

/// `s` without its leading and trailing white space.
pub open spec fn trim(s: Seq<char>) -> Seq<char> {
    if trim_start(s) < trim_end(s) {
        s.subrange(trim_start(s), trim_end(s))
    } else {
        Seq::empty()
    }
}

/// `trim_end` is the end of the last non-space character.
pub proof fn lemma_trim_end(s: Seq<char>)
    ensures
        0 <= trim_end(s) <= s.len(),
        forall|j: int| trim_end(s) <= j < s.len() ==> is_whitespace(#[trigger] s[j]),
        trim_end(s) > 0 ==> !is_whitespace(s[trim_end(s) - 1]),
    decreases s.len(),
{
    if s.len() > 0 && is_whitespace(s.last()) {
        let t = s.drop_last();
        lemma_trim_end(t);
        assert forall|j: int| trim_end(s) <= j < s.len() implies is_whitespace(#[trigger] s[j]) by {
            if j < t.len() {
                assert(s[j] == t[j]);
            }
        }
    }
}

/// An index with only white space from it on, and a non-space character just
/// before it (or nothing), is the one that `trim_end` returns.
pub proof fn lemma_trim_end_is(s: Seq<char>, e: int)
    requires
        0 <= e <= s.len(),
        forall|j: int| e <= j < s.len() ==> is_whitespace(#[trigger] s[j]),
        e > 0 ==> !is_whitespace(s[e - 1]),
    ensures
        trim_end(s) == e,
    decreases s.len(),
{
    if s.len() > 0 && e < s.len() {
        let t = s.drop_last();
        assert(is_whitespace(s[s.len() - 1]));
        assert forall|j: int| e <= j < t.len() implies is_whitespace(#[trigger] t[j]) by {
            assert(t[j] == s[j]);
        }
        lemma_trim_end_is(t, e);
    }
}

/// The bounds `(start, end)` of `s` without its surrounding white space:
/// `trim(s@)` is `s@.subrange(start, end)`.
pub fn trim_bounds(s: &[char]) -> (r: (usize, usize))
    ensures
        r.0 <= r.1 <= s@.len(),
        trim(s@) == s@.subrange(r.0 as int, r.1 as int),
        r.0 < r.1 ==> r.0 == trim_start(s@) && r.1 == trim_end(s@),
{
    let start = find_in(s, &Pattern::NonSpace, 0);
    let mut end: usize = s.len();
    while end > start && is_space(s[end - 1])
        invariant
            start <= end <= s@.len(),
            forall|j: int| end <= j < s@.len() ==> is_whitespace(#[trigger] s@[j]),
        decreases end,
    {
        end -= 1;
    }
    proof {
        lemma_find(s@, Pattern::NonSpace, 0);
        if end > start {
            lemma_trim_end_is(s@, end as int);
        } else {
            lemma_trim_end(s@);
            if trim_start(s@) < trim_end(s@) {
                assert(!is_whitespace(s@[trim_end(s@) - 1]));
            }
            assert(s@.subrange(start as int, end as int) =~= Seq::<char>::empty());
        }
    }
    (start, end)
}

/// The next white-space-delimited token of `s` at or after `from`, as its
/// bounds `(start, end)`; `None` when only white space is left.
pub open spec fn next_token(s: Seq<char>, from: int) -> Option<(int, int)> {
    let start = find(s, Pattern::NonSpace, from);
    if start >= s.len() {
        None
    } else {
        Some((start, find(s, Pattern::Space, start)))
    }
}

/// The next white-space-delimited token of `s` at or after `from`.
pub fn token_from(s: &[char], from: usize) -> (r: Option<(usize, usize)>)
    requires
        from <= s@.len(),
    ensures
        match r {
            Some((a, b)) => next_token(s@, from as int) == Some((a as int, b as int)) && from <= a
                < b <= s@.len(),
            None => next_token(s@, from as int) is None,
        },
{
    let start = find_in(s, &Pattern::NonSpace, from);
    if start >= s.len() {
        None
    } else {
        let end = find_in(s, &Pattern::Space, start);
        proof {
            lemma_find(s@, Pattern::NonSpace, from as int);
            lemma_find(s@, Pattern::Space, start as int);
        }
        Some((start, end))
    }
}

/// The characters of `s`, in order.
pub fn chars_of(s: &str) -> (out: Vec<char>)
    ensures
        out@ == s@,
{
    let mut out: Vec<char> = Vec::new();
    for c in it: s.chars()
        invariant
            out@ == it.seq().take(it.index()),
            it.seq() == s@,
    {
        out.push(c);
    }
    out
}

/// The characters of `s` from index `from` up to `to`, as a new text.
pub fn substring(s: &str, from: usize, to: usize) -> (r: String)
    requires
        from <= to <= s@.len(),
    ensures
        r@ == s@.subrange(from as int, to as int),
{
    String::from_str(s.substring_char(from, to))
}

/// `core::str::from_utf8`: the bytes as text, when they are valid UTF-8.
///
/// Trusted: the text returned has exactly these bytes as its UTF-8 form, and
/// `None` is returned exactly when the bytes are not valid UTF-8.
#[verifier::external_body]
fn str_from_utf8(bytes: &[u8]) -> (r: Option<&str>)
    ensures
        r is Some <==> valid_utf8(bytes@),
        r matches Some(s) ==> s.spec_bytes() == bytes@,
{
    match core::str::from_utf8(bytes) {
        Ok(s) => Some(s),
        Err(_) => None,
    }
}

/// The text that the bytes encode in UTF-8, or `None` when they encode none.
pub fn decode_text(bytes: &[u8]) -> (r: Option<&str>)
    ensures
        r is Some <==> valid_utf8(bytes@),
        r matches Some(s) ==> s@ == decode_utf8(bytes@),
{
    let r = str_from_utf8(bytes);
    proof {
        if let Some(s) = r {
            encode_utf8_decode_utf8(s@);
        }
    }
    r
}

} // verus!
