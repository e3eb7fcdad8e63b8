//! Unsigned decimal numbers: reading a 16-bit value from text and writing a
//! number as text.

use vstd::prelude::*;
use vstd::string::*;

verus! {

/// Why a text is not a 16-bit unsigned decimal number.
#[derive(Clone, Copy, Debug, PartialEq, Eq, Structural)]
pub enum IntErrorKind {
    /// The text is empty.
    Empty,
    /// A character that is not a decimal digit, or a sign with nothing
    /// behind it.
    InvalidDigit,
    /// The digits read so far already exceed 65535.
    PosOverflow,
}

impl IntErrorKind {
    /// The kind in words.
    pub open spec fn text(self) -> Seq<char> {
        match self {
            IntErrorKind::Empty => "cannot parse integer from empty string"@,
            IntErrorKind::InvalidDigit => "invalid digit found in string"@,
            IntErrorKind::PosOverflow => "number too large to fit in target type"@,
        }
    }

    /// The kind in words.
    pub fn description(&self) -> (r: &'static str)
        ensures
            r@ == self.text(),
    {
        match self {
            IntErrorKind::Empty => "cannot parse integer from empty string",
            IntErrorKind::InvalidDigit => "invalid digit found in string",
            IntErrorKind::PosOverflow => "number too large to fit in target type",
        }
    }
}

/// An ASCII decimal digit.
pub open spec fn is_digit(c: char) -> bool {
    48 <= c as u32 <= 57
}

/// The value of the digit `c`.
pub open spec fn digit_value(c: char) -> int {
    c as u32 - 48
}

/// The digit whose value is `d`.
pub open spec fn digit_char(d: int) -> char {
    (d + 48) as u8 as char
}

/// Reads `s` from index `i` on, digit by digit from the left, with `acc`
/// the value of the digits before `i`. The first character that is no digit,
/// or the first digit that takes the value over 65535, ends the reading with
/// its error.
pub open spec fn scan_digits(s: Seq<char>, i: int, acc: int) -> Result<u16, IntErrorKind>
    decreases s.len() - i,
{
    if i < 0 || i >= s.len() {
        Ok(acc as u16)
    } else if !is_digit(s[i]) {
        Err(IntErrorKind::InvalidDigit)
    } else if acc * 10 + digit_value(s[i]) > u16::MAX {
        Err(IntErrorKind::PosOverflow)
    } else {
        scan_digits(s, i + 1, acc * 10 + digit_value(s[i]))
    }
}

/// `s` without the `+` that it may begin with.
pub open spec fn unsigned_part(s: Seq<char>) -> Seq<char> {
    if s.len() > 0 && s[0] == '+' {
        s.skip(1)
    } else {
        s
    }
}

/// The number that `s` denotes: an optional `+` followed by at least one
/// decimal digit, with a value of at most 65535. Leading zeros are accepted.
/// An empty text, a text without a digit behind the sign and the first
/// character or digit at which the reading fails each give their error.
pub open spec fn parse_u16(s: Seq<char>) -> Result<u16, IntErrorKind> {
    if s.len() == 0 {
        Err(IntErrorKind::Empty)
    } else if unsigned_part(s).len() == 0 {
        Err(IntErrorKind::InvalidDigit)
    } else {
        scan_digits(unsigned_part(s), 0, 0)
    }
}

/// The decimal digits of `n`, most significant first, without leading zeros.
pub open spec fn decimal(n: nat) -> Seq<char>
    decreases n,
{
    if n < 10 {
        seq![digit_char(n as int)]
    } else {
        decimal(n / 10).push(digit_char((n % 10) as int))
    }
}

/// The value of a text of decimal digits.
pub open spec fn decimal_value(s: Seq<char>) -> nat
    decreases s.len(),
{
    if s.len() == 0 {
        0
    } else {
        (decimal_value(s.drop_last()) * 10 + digit_value(s.last())) as nat
    }
}

/// `decimal(n)` is a non-empty text of digits, beginning with `0` only for
/// zero, whose value is `n`.
pub proof fn lemma_decimal(n: nat)
    ensures
        decimal(n).len() >= 1,
        forall|i: int| 0 <= i < decimal(n).len() ==> is_digit(#[trigger] decimal(n)[i]),
        decimal_value(decimal(n)) == n,
        decimal(n)[0] == '0' <==> n == 0,
    decreases n,
{
    if n < 10 {
        let s = decimal(n);
        assert(s.drop_last() =~= Seq::<char>::empty());
        assert(decimal_value(s.drop_last()) == 0);
        assert(s.last() == digit_char(n as int));
    } else {
        lemma_decimal(n / 10);
        let s = decimal(n);
        assert(s.drop_last() =~= decimal(n / 10));
        assert(s.last() == digit_char((n % 10) as int));
    }
}

/// Every character of `s` from index `from` up to `to` is a digit.
pub open spec fn all_digits(s: Seq<char>, from: int, to: int) -> bool {
    forall|j: int| from <= j < to ==> is_digit(#[trigger] s[j])
}

/// The value of a longer text of digits is no less than that of a shorter
/// beginning of it.
proof fn lemma_value_grows(s: Seq<char>, i: int, j: int)
    requires
        0 <= i <= j <= s.len(),
        all_digits(s, i, j),
    ensures
        decimal_value(s.take(i)) <= decimal_value(s.take(j)),
    decreases j - i,
{
    if i < j {
        lemma_value_grows(s, i, j - 1);
        let t = s.take(j);
        assert(t.drop_last() =~= s.take(j - 1));
        assert(t.last() == s[j - 1]);
        assert(is_digit(s[j - 1]));
    }
}

/// The scan from `i`, begun with the value of the digits before `i`,
/// succeeds exactly when only digits follow and the whole value fits, and
/// then gives that value.
proof fn lemma_scan_digits(s: Seq<char>, i: int)
    requires
        0 <= i <= s.len(),
        decimal_value(s.take(i)) <= u16::MAX,
    ensures
        scan_digits(s, i, decimal_value(s.take(i)) as int) is Ok <==> all_digits(
            s,
            i,
            s.len() as int,
        ) && decimal_value(s) <= u16::MAX,
        scan_digits(s, i, decimal_value(s.take(i)) as int) matches Ok(v) ==> v == decimal_value(s),
    decreases s.len() - i,
{
    if i == s.len() {
        assert(s.take(i) =~= s);
    } else {
        let t = s.take(i + 1);
        assert(t.drop_last() =~= s.take(i));
        assert(t.last() == s[i]);
        assert(s.take(s.len() as int) =~= s);
        if !is_digit(s[i]) {
        } else if decimal_value(t) > u16::MAX {
            if all_digits(s, i, s.len() as int) {
                lemma_value_grows(s, i + 1, s.len() as int);
            }
        } else {
            lemma_scan_digits(s, i + 1);
        }
    }
}

/// A text denotes a number exactly when, behind the `+` that it may begin
/// with, it holds at least one character, only digits, and their value is at
/// most 65535; the number is that value.
pub proof fn lemma_parse_u16(s: Seq<char>)
    ensures
        parse_u16(s) is Ok <==> unsigned_part(s).len() > 0 && all_digits(
            unsigned_part(s),
            0,
            unsigned_part(s).len() as int,
        ) && decimal_value(unsigned_part(s)) <= u16::MAX,
        parse_u16(s) matches Ok(v) ==> v == decimal_value(unsigned_part(s)),
{
    let d = unsigned_part(s);
    if d.len() > 0 {
        assert(d.take(0) =~= Seq::<char>::empty());
        lemma_scan_digits(d, 0);
    }
}

/// Reading what `decimal` wrote gives the number back.
pub proof fn lemma_parse_decimal(n: u16)
    ensures
        parse_u16(decimal(n as nat)) == Ok::<u16, IntErrorKind>(n),
{
    let s = decimal(n as nat);
    lemma_decimal(n as nat);
    assert(is_digit(s[0]));
    lemma_parse_u16(s);
}

/// Reads a 16-bit unsigned decimal number: an optional `+`, then digits.
pub fn parse_u16_chars(s: &[char]) -> (r: Result<u16, IntErrorKind>)
    ensures
        r == parse_u16(s@),
{
    if s.len() == 0 {
        return Err(IntErrorKind::Empty);
    }
    let start: usize = if s[0] == '+' { 1 } else { 0 };
    if start == s.len() {
        return Err(IntErrorKind::InvalidDigit);
    }
    let ghost digits = unsigned_part(s@);
    assert(digits =~= s@.skip(start as int));
    let mut i: usize = start;
    let mut acc: u16 = 0;
    while i < s.len()
        invariant
            start <= i <= s@.len(),
            digits == s@.skip(start as int),
            scan_digits(digits, i - start, acc as int) == parse_u16(s@),
        decreases s@.len() - i,
    {
        let ch: char = s[i];
        let c: u32 = ch as u32;
        assert(digits[i - start] == ch);
        if c < 48 || c > 57 {
            return Err(IntErrorKind::InvalidDigit);
        }
        let d: u16 = (c - 48) as u16;
        if acc > 6553 || (acc == 6553 && d > 5) {
            return Err(IntErrorKind::PosOverflow);
        }
        acc = acc * 10 + d;
        i += 1;
    }
    Ok(acc)
}

/// The one-character text of the digit `d`.
fn digit_str(d: u64) -> (r: &'static str)
    requires
        d < 10,
    ensures
        r@ == seq![digit_char(d as int)],
{
    proof {
        reveal_strlit("0123456789");
    }
    let r = "0123456789".substring_char(d as usize, d as usize + 1);
    assert(r@ =~= seq![digit_char(d as int)]);
    r
}

/// Writes `n` in decimal.
pub fn decimal_string(n: u64) -> (r: String)
    ensures
        r@ == decimal(n as nat),
    decreases n,
{
    if n < 10 {
        String::from_str(digit_str(n))
    } else {
        let mut r = decimal_string(n / 10);
        r.append(digit_str(n % 10));
        r
    }
}

} // verus!
