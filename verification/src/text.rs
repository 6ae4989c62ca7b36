//! Reading numbers and comparing texts, character by character.

use vstd::prelude::*;
use crate::color::Color;
use crate::parser::chars_of;

verus! {

/// Whether two texts hold the same characters.
pub fn str_eq(a: &str, b: &str) -> (same: bool)
    ensures
        same == (a@ == b@),
{
    let x = chars_of(a);
    let y = chars_of(b);
    if x.len() != y.len() {
        return false;
    }
    let mut i: usize = 0;
    while i < x.len()
        invariant
            i <= x.len(),
            x.len() == y.len(),
            x@ == a@,
            y@ == b@,
            forall|j: int| 0 <= j < i ==> x@[j] == y@[j],
        decreases x.len() - i,
    {
        if x[i] != y[i] {
            return false;
        }
        i = i + 1;
    }
    assert(x@ =~= y@);
    true
}

/// Whether `c` is one of `0` to `9`.
pub open spec fn is_digit(c: char) -> bool {
    '0' <= c <= '9'
}

/// The number that a decimal digit stands for.
pub open spec fn digit_value(c: char) -> int {
    c as int - '0' as int
}

/// Whether `s` holds decimal digits only.
pub open spec fn all_digits(s: Seq<char>) -> bool {
    forall|i: int| 0 <= i < s.len() ==> is_digit(#[trigger] s[i])
}

/// The number that a run of decimal digits stands for, most significant digit
/// first; the empty run stands for zero.
pub open spec fn decimal_value(digits: Seq<char>) -> int
    decreases digits.len(),
{
    if digits.len() == 0 {
        0
    } else {
        10 * decimal_value(digits.drop_last()) + digit_value(digits.last())
    }
}

/// The number that `s` denotes where it is made of decimal digits, at least
/// one, and nothing else.
pub open spec fn digits_value(s: Seq<char>) -> Option<int> {
    if s.len() > 0 && all_digits(s) {
        Some(decimal_value(s))
    } else {
        None
    }
}

/// `s` without its first character where that is `sign`, and `s` itself
/// else.
pub open spec fn unsigned_part(s: Seq<char>, sign: char) -> Seq<char> {
    if s.len() > 0 && s[0] == sign {
        s.subrange(1, s.len() as int)
    } else {
        s
    }
}

/// The 32-bit signed integer that `s` denotes, if it denotes one: decimal
/// digits, with a `-` before them for a negative number.
pub open spec fn i32_of(s: Seq<char>) -> Option<i32> {
    let negative = s.len() > 0 && s[0] == '-';
    match digits_value(unsigned_part(s, '-')) {
        Some(magnitude) => {
            let v = if negative {
                -magnitude
            } else {
                magnitude
            };
            if i32::MIN <= v <= i32::MAX {
                Some(v as i32)
            } else {
                None
            }
        },
        None => None,
    }
}

/// The byte that `s` denotes, if it denotes one: decimal digits, which a `+`
/// may stand before.
pub open spec fn u8_of(s: Seq<char>) -> Option<u8> {
    match digits_value(unsigned_part(s, '+')) {
        Some(v) => if 0 <= v <= u8::MAX {
            Some(v as u8)
        } else {
            None
        },
        None => None,
    }
}

/// A run of digits stands for at least as much as any of its prefixes, and
/// for no negative number.
pub proof fn lemma_decimal_value_grows(digits: Seq<char>, k: int)
    requires
        all_digits(digits),
        0 <= k <= digits.len(),
    ensures
        0 <= decimal_value(digits.take(k)) <= decimal_value(digits),
    decreases digits.len() - k,
{
    lemma_decimal_value_nonnegative(digits.take(k));
    if k < digits.len() {
        let longer = digits.take(k + 1);
        assert(longer.drop_last() =~= digits.take(k));
        assert(is_digit(digits[k]));
        lemma_decimal_value_grows(digits, k + 1);
    } else {
        assert(digits.take(k) =~= digits);
    }
}

/// A run of digits stands for no negative number.
pub proof fn lemma_decimal_value_nonnegative(digits: Seq<char>)
    requires
        all_digits(digits),
    ensures
        0 <= decimal_value(digits),
    decreases digits.len(),
{
    if digits.len() > 0 {
        assert(is_digit(digits.last()));
        lemma_decimal_value_nonnegative(digits.drop_last());
    }
}

/// The magnitude of the digits of `chars` from `from` on, or `None` where
/// there is none, one of them is no digit, or they stand for more than
/// `limit`.
fn parse_digits(chars: &Vec<char>, from: usize, limit: i64) -> (r: Option<i64>)
    requires
        from <= chars.len(),
        0 <= limit <= 0x1_0000_0000,
    ensures
        ({
            let digits = chars@.subrange(from as int, chars.len() as int);
            r == if digits.len() > 0 && all_digits(digits) && decimal_value(digits) <= limit {
                Some(decimal_value(digits) as i64)
            } else {
                None
            }
        }),
        r matches Some(v) ==> 0 <= v <= limit,
{
    let ghost digits = chars@.subrange(from as int, chars.len() as int);
    if from == chars.len() {
        return None;
    }
    let mut value: i64 = 0;
    let mut i: usize = from;
    while i < chars.len()
        invariant
            from <= i <= chars.len(),
            0 <= limit <= 0x1_0000_0000,
            digits == chars@.subrange(from as int, chars.len() as int),
            all_digits(digits.take(i - from)),
            value == decimal_value(digits.take(i - from)),
            0 <= value <= limit,
        decreases chars.len() - i,
    {
        let c = chars[i];
        let ghost longer = digits.take(i - from + 1);
        assert(longer.drop_last() =~= digits.take(i - from));
        assert(longer.last() == c);
        if !('0' <= c && c <= '9') {
            assert(!is_digit(digits[i - from]));
            return None;
        }
        assert(all_digits(longer)) by {
            assert forall|j: int| 0 <= j < longer.len() implies is_digit(#[trigger] longer[j]) by {
                if j < i - from {
                    assert(longer[j] == digits.take(i - from)[j]);
                }
            }
        }
        let d: i64 = (c as u32 - '0' as u32) as i64;
        value = value * 10 + d;
        if value > limit {
            proof {
                if all_digits(digits) {
                    lemma_decimal_value_grows(digits, i - from + 1);
                }
            }
            return None;
        }
        i = i + 1;
    }
    assert(digits.take(i - from) =~= digits);
    Some(value)
}

/// Reads a signed 32-bit integer written in decimal: an optional `-`, then
/// digits. `None` where `s` is written otherwise or the number does not fit.
pub fn parse_i32(s: &str) -> (r: Option<i32>)
    ensures
        r == i32_of(s@),
{
    let chars = chars_of(s);
    if chars.len() == 0 {
        return None;
    }
    let negative = chars[0] == '-';
    let from: usize = if negative {
        1
    } else {
        0
    };
    assert(chars@.subrange(0, chars.len() as int) =~= chars@);
    proof {
        let digits = chars@.subrange(from as int, chars.len() as int);
        if all_digits(digits) {
            lemma_decimal_value_nonnegative(digits);
        }
    }
    if negative {
        match parse_digits(&chars, from, 0x8000_0000) {
            Some(v) => Some((-v) as i32),
            None => None,
        }
    } else {
        match parse_digits(&chars, from, 0x7FFF_FFFF) {
            Some(v) => Some(v as i32),
            None => None,
        }
    }
}

/// Reads a byte written in decimal: digits, which a `+` may stand before.
/// `None` where `s` is written otherwise or the number is above 255.
pub fn parse_u8(s: &str) -> (r: Option<u8>)
    ensures
        r == u8_of(s@),
{
    let chars = chars_of(s);
    if chars.len() == 0 {
        return None;
    }
    let from: usize = if chars[0] == '+' {
        1
    } else {
        0
    };
    assert(chars@.subrange(0, chars.len() as int) =~= chars@);
    proof {
        let digits = chars@.subrange(from as int, chars.len() as int);
        if all_digits(digits) {
            lemma_decimal_value_nonnegative(digits);
        }
    }
    match parse_digits(&chars, from, 255) {
        Some(v) => Some(v as u8),
        None => None,
    }
}

/// The number that a hexadecimal digit, in either case, stands for.
pub open spec fn hex_digit(c: char) -> Option<int> {
    if '0' <= c <= '9' {
        Some(c as int - '0' as int)
    } else if 'a' <= c <= 'f' {
        Some(c as int - 'a' as int + 10)
    } else if 'A' <= c <= 'F' {
        Some(c as int - 'A' as int + 10)
    } else {
        None
    }
}

/// Whether `s` holds hexadecimal digits only.
pub open spec fn all_hex(s: Seq<char>) -> bool {
    forall|i: int| 0 <= i < s.len() ==> hex_digit(#[trigger] s[i]) is Some
}

/// `s` with each of its characters written twice.
pub open spec fn doubled(s: Seq<char>) -> Seq<char> {
    Seq::new(2 * s.len(), |i: int| s[i / 2])
}

/// The byte that the two hexadecimal digits `high` and `low` stand for.
pub open spec fn hex_byte(high: char, low: char) -> u8 {
    (16 * hex_digit(high)->0 + hex_digit(low)->0) as u8
}

/// The color that `s` denotes: six hexadecimal digits `RRGGBB`, or three,
/// `RGB`, which stand for `RRGGBB`. Nothing else denotes a color.
pub open spec fn color_of(s: Seq<char>) -> Option<Color> {
    let digits = if s.len() == 3 {
        doubled(s)
    } else {
        s
    };
    if digits.len() == 6 && all_hex(digits) {
        Some(
            Color {
                r: hex_byte(digits[0], digits[1]),
                g: hex_byte(digits[2], digits[3]),
                b: hex_byte(digits[4], digits[5]),
            },
        )
    } else {
        None
    }
}

/// The number that a hexadecimal digit stands for.
pub fn hex_digit_of(c: char) -> (r: Option<u8>)
    ensures
        match hex_digit(c) {
            Some(v) => r == Some(v as u8) && v < 16,
            None => r is None,
        },
{
    let n: u32 = c as u32;
    if '0' <= c && c <= '9' {
        Some((n - '0' as u32) as u8)
    } else if 'a' <= c && c <= 'f' {
        Some((n - 'a' as u32 + 10) as u8)
    } else if 'A' <= c && c <= 'F' {
        Some((n - 'A' as u32 + 10) as u8)
    } else {
        None
    }
}

/// Reads a color written as three or six hexadecimal digits, without any
/// leading marker.
pub fn parse_color(s: &str) -> (r: Option<Color>)
    ensures
        r == color_of(s@),
{
    let chars = chars_of(s);
    let short = chars.len() == 3;
    if !short && chars.len() != 6 {
        return None;
    }
    let ghost digits = if short {
        doubled(s@)
    } else {
        s@
    };
    let mut values: Vec<u8> = Vec::new();
    let mut i: usize = 0;
    while i < 6
        invariant
            i <= 6,
            chars@ == s@,
            short == (chars.len() == 3),
            short || chars.len() == 6,
            digits == if short {
                doubled(s@)
            } else {
                s@
            },
            values.len() == i,
            forall|j: int|
                0 <= j < i ==> hex_digit(digits[j]) == Some(#[trigger] values@[j] as int),
        decreases 6 - i,
    {
        let c = if short {
            chars[i / 2]
        } else {
            chars[i]
        };
        assert(c == digits[i as int]);
        match hex_digit_of(c) {
            None => {
                return None;
            },
            Some(v) => {
                values.push(v);
            },
        }
        i = i + 1;
    }
    assert(all_hex(digits)) by {
        assert forall|j: int| 0 <= j < digits.len() implies hex_digit(#[trigger] digits[j])
            is Some by {
            assert(hex_digit(digits[j]) == Some(values@[j] as int));
        }
    }
    assert(values[0] < 16 && values[1] < 16 && values[2] < 16 && values[3] < 16 && values[4] < 16
        && values[5] < 16);
    Some(
        Color::new(
            16 * values[0] + values[1],
            16 * values[2] + values[3],
            16 * values[4] + values[5],
        ),
    )
}

/// A short color stands for the long one in which every digit is written
/// twice.
pub proof fn lemma_short_color(s: Seq<char>)
    requires
        s.len() == 3,
    ensures
        color_of(s) == color_of(doubled(s)),
        doubled(s) =~= seq![s[0], s[0], s[1], s[1], s[2], s[2]],
{
}

/// What `str::to_uppercase` of std gives for a text.
pub uninterp spec fn uppercase(s: Seq<char>) -> Seq<char>;

/// `str::to_uppercase` of std: the upper-case form of `s` as Unicode defines
/// it, which depends on the characters of `s` alone.
#[verifier::external_body]
pub(crate) fn to_uppercase(s: &str) -> (r: String)
    ensures
        r@ == uppercase(s@),
{
    s.to_uppercase()
}

} // verus!
