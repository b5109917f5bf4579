//! The text of numeric literals: what it denotes and whether it fits.

use vstd::prelude::*;
use crate::chars::{CharClass, digit, digit_value, lemma_run_end, run_end, scan, to_chars};
use crate::token::IntegerType;

verus! {

/// The position after an optional `-` at `p`.
pub open spec fn after_sign(s: Seq<char>, p: int) -> int {
    if 0 <= p < s.len() && s[p] == '-' {
        p + 1
    } else {
        p
    }
}

/// The number that a sequence of decimal digits denotes; zero for none.
pub open spec fn digits_value(s: Seq<char>) -> int
    decreases s.len(),
{
    if s.len() == 0 {
        0
    } else {
        digits_value(s.drop_last()) * 10 + digit_value(s.last())
    }
}

/// An optional `-` and then one or more digits, nothing else.
pub open spec fn is_integer_text(s: Seq<char>) -> bool {
    let q = after_sign(s, 0);
    q < s.len() && run_end(s, q, CharClass::Digit) == s.len()
}

/// The integer that well-formed integer text denotes.
pub open spec fn integer_value(s: Seq<char>) -> int {
    let q = after_sign(s, 0);
    let magnitude = digits_value(s.subrange(q, s.len() as int));
    if q == 0 {
        magnitude
    } else {
        -magnitude
    }
}

/// The value of `s` as an integer of the given width: `None` where the
/// text is malformed or denotes a number outside the width's range.
pub open spec fn integer_of(s: Seq<char>, width: IntegerType) -> Option<int> {
    if is_integer_text(s) && width.min() <= integer_value(s) <= width.max() {
        Some(integer_value(s))
    } else {
        None
    }
}

/// An optional `-`, one or more digits, and optionally a point followed by
/// one or more digits, nothing else.
pub open spec fn is_decimal_text(s: Seq<char>) -> bool {
    let q = after_sign(s, 0);
    let e = run_end(s, q, CharClass::Digit);
    &&& q < e
    &&& e == s.len() || (s[e] == '.' && e + 1 < s.len() && run_end(s, e + 1, CharClass::Digit)
        == s.len())
}

/// Digits never denote a negative number, and more digits never denote
/// less.
pub proof fn lemma_digits_value_grows(s: Seq<char>, from: int, mid: int, to: int)
    requires
        0 <= from <= mid <= to <= s.len(),
        forall|j: int| from <= j < to ==> digit(#[trigger] s[j]),
    ensures
        0 <= digits_value(s.subrange(from, mid)) <= digits_value(s.subrange(from, to)),
    decreases to - from,
{
    if from < to {
        let whole = s.subrange(from, to);
        assert(whole.drop_last() == s.subrange(from, to - 1));
        assert(digit(s[to - 1]));
        if mid < to {
            lemma_digits_value_grows(s, from, mid, to - 1);
        } else {
            lemma_digits_value_grows(s, from, to - 1, to - 1);
        }
    } else {
        assert(s.subrange(from, mid).len() == 0);
    }
}

/// The least and the greatest value of a width.
fn bounds(width: IntegerType) -> (r: (i64, i64))
    ensures
        r.0 == width.min(),
        r.1 == width.max(),
{
    match width {
        IntegerType::Byte => (-128, 127),
        IntegerType::Short => (-32768, 32767),
        IntegerType::Int => (-2147483648, 2147483647),
        IntegerType::Long => (i64::MIN, i64::MAX),
    }
}

/// Converts the text of an integer literal to a number of the given width.
///
/// Any count of digits is read, leading zeros included; a value outside
/// the width's range is refused, never wrapped or clamped.
pub fn convert_integer(text: &str, width: IntegerType) -> (r: Option<i64>)
    ensures
        match integer_of(text@, width) {
            Some(v) => r == Some(v as i64),
            None => r is None,
        },
{
    let chars = to_chars(text);
    let ghost s = chars@;
    let n: usize = chars.len();
    let negative: bool = n > 0 && chars[0] == '-';
    let q: usize = if negative {
        1
    } else {
        0
    };
    if q >= n {
        return None;
    }
    let e: usize = scan(&chars, q, CharClass::Digit);
    if e != n {
        return None;
    }
    proof {
        lemma_run_end(s, q as int, CharClass::Digit);
    }
    let (least, greatest) = bounds(width);
    // The digits are summed below zero, where the wider half of the range
    // lies, and the sign is set at the end.
    let floor: i64 = if negative {
        least
    } else {
        -greatest
    };
    let mut sum: i64 = 0;
    let mut i: usize = q;
    assert(s.subrange(q as int, i as int).len() == 0);
    while i < n
        invariant
            s == chars@,
            n == chars.len(),
            q <= i <= n,
            s == text@,
            q == after_sign(s, 0),
            is_integer_text(s),
            floor == if q == 0 {
                -width.max()
            } else {
                width.min()
            },
            forall|j: int| q <= j < n ==> digit(#[trigger] s[j]),
            floor <= sum <= 0,
            sum == -digits_value(s.subrange(q as int, i as int)),
        decreases n - i,
    {
        let c: char = chars[i];
        let d: u32 = c as u32 - '0' as u32;
        let next: i128 = sum as i128 * 10 - d as i128;
        proof {
            assert(s.subrange(q as int, i + 1).drop_last() == s.subrange(q as int, i as int));
            assert(s.subrange(q as int, i + 1).last() == c);
            assert(next == -digits_value(s.subrange(q as int, i + 1)));
        }
        if next < floor as i128 {
            proof {
                lemma_digits_value_grows(s, q as int, i + 1, n as int);
            }
            return None;
        }
        sum = next as i64;
        i += 1;
    }
    if negative {
        Some(sum)
    } else {
        Some(-sum)
    }
}

/// Tells whether `text` has the form of a floating literal.
pub fn check_decimal(text: &str) -> (b: bool)
    ensures
        b == is_decimal_text(text@),
{
    let chars = to_chars(text);
    let n: usize = chars.len();
    let q: usize = if n > 0 && chars[0] == '-' {
        1
    } else {
        0
    };
    let e: usize = scan(&chars, q, CharClass::Digit);
    if e == q {
        false
    } else if e == n {
        true
    } else if chars[e] == '.' && n - e > 1 {
        scan(&chars, e + 1, CharClass::Digit) == n
    } else {
        false
    }
}

} // verus!
