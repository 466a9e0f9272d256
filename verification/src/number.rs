//! Decimal integers as `str::parse::<i32>` reads them, and the note index
//! of a key binding.

use vstd::prelude::*;
use crate::text::chars_of;

verus! {

/// An ASCII decimal digit.
pub open spec fn is_digit(c: char) -> bool {
    '0' as u32 <= c as u32 <= '9' as u32
}

/// The value of a decimal digit.
pub open spec fn digit_value(c: char) -> int {
    c as u32 - '0' as u32
}

/// Every character of `s` is a decimal digit.
pub open spec fn all_digits(s: Seq<char>) -> bool {
    forall|i: int| 0 <= i < s.len() ==> is_digit(#[trigger] s[i])
}

/// The value of the decimal numeral `s` (leading zeros allowed).
pub open spec fn decimal(s: Seq<char>) -> int
    decreases s.len(),
{
    if s.len() == 0 {
        0
    } else {
        10 * decimal(s.drop_last()) + digit_value(s.last())
    }
}

/// `s` opens with a sign character.
pub open spec fn has_sign(s: Seq<char>) -> bool {
    s.len() > 0 && (s[0] == '+' || s[0] == '-')
}

/// The digits of `s`, after its sign if it has one.
pub open spec fn unsigned_part(s: Seq<char>) -> Seq<char> {
    if has_sign(s) {
        s.drop_first()
    } else {
        s
    }
}

/// The integer that `s` writes, before any range check: an optional sign,
/// then one or more decimal digits.
pub open spec fn numeral_value(s: Seq<char>) -> Option<int> {
    let body = unsigned_part(s);
    if body.len() == 0 || !all_digits(body) {
        None
    } else if s[0] == '-' {
        Some(-decimal(body))
    } else {
        Some(decimal(body))
    }
}

/// What `str::parse::<i32>` gives for `s`: the value of an optional sign
/// followed by one or more ASCII digits, when it lies in the range of `i32`;
/// otherwise an error.
pub open spec fn parsed_i32(s: Seq<char>) -> Option<i32> {
    match numeral_value(s) {
        Some(v) => if i32::MIN <= v <= i32::MAX {
            Some(v as i32)
        } else {
            None
        },
        None => None,
    }
}

/// Whether `c` is an ASCII decimal digit.
pub fn is_digit_char(c: char) -> (b: bool)
    ensures
        b == is_digit(c),
{
    let n = c as u32;
    0x30 <= n && n <= 0x39
}

/// Reads `s` as a decimal `i32`, exactly as `str::parse::<i32>` does:
/// `None` where that gives an error.
pub fn parse_i32(s: &str) -> (r: Option<i32>)
    ensures
        r == parsed_i32(s@),
{
    let v = chars_of(s);
    let n = v.len();
    if n == 0 {
        return None;
    }
    let negative = v[0] == '-';
    let start: usize = if v[0] == '+' || v[0] == '-' { 1 } else { 0 };
    let ghost body = unsigned_part(s@);
    assert(body =~= s@.subrange(start as int, n as int));
    if start == n {
        return None;
    }
    // 2^31: the magnitude of i32::MIN, the largest that can fit.
    let limit: i64 = 2147483648;
    let mut acc: i64 = 0;
    let mut i: usize = start;
    let mut too_large = false;
    assert(body.take(0) =~= Seq::<char>::empty());
    while i < n
        invariant
            v@ == s@,
            n == v.len(),
            start <= i <= n,
            body == s@.subrange(start as int, n as int),
            body == unsigned_part(s@),
            limit == 2147483648,
            n > 0,
            negative == (s@[0] == '-'),
            all_digits(body.take(i - start)),
            too_large ==> decimal(body.take(i - start)) > limit || (all_digits(body) ==> decimal(body) > limit),
            !too_large ==> acc == decimal(body.take(i - start)) && 0 <= acc <= limit,
        decreases n - i,
    {
        let c = v[i];
        if !is_digit_char(c) {
            assert(body[i - start] == c);
            assert(!is_digit(body[i - start]));
            assert(!all_digits(body));
            assert(numeral_value(s@) is None);
            return None;
        }
        let ghost k = i - start;
        assert(body.take(k + 1).drop_last() =~= body.take(k));
        assert(body.take(k + 1).last() == c);
        assert(all_digits(body.take(k + 1)));
        if !too_large {
            let d: i64 = (c as u32 - 0x30) as i64;
            assert(0 <= d <= 9);
            assert(0 <= acc <= limit);
            acc = acc * 10 + d;
            if acc > limit {
                too_large = true;
            }
        }
        i = i + 1;
    }
    assert(body.take(n - start) =~= body);
    if too_large {
        return None;
    }
    if negative {
        Some((0 - acc) as i32)
    } else if acc > 2147483647 {
        None
    } else {
        Some(acc as i32)
    }
}

/// The note index of a binding, as `note.parse::<i32>()` and a cast to
/// `usize` make it; `None` where the parse fails.
pub fn note_index(note: &str) -> (r: Option<usize>)
    ensures
        r == (match parsed_i32(note@) {
            Some(n) => Some(n as usize),
            None => None,
        }),
{
    match parse_i32(note) {
        Some(n) => Some(n as usize),
        None => None,
    }
}

} // verus!
