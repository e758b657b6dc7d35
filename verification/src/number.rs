//! Decimal integers as `str::parse` reads them.
use vstd::prelude::*;
use crate::text::chars_of;

verus! {

pub open spec fn is_digit(c: char) -> bool {
    '0' <= c && c <= '9'
}

pub open spec fn digit_value(c: char) -> int {
    c as int - '0' as int
}

pub open spec fn all_digits(s: Seq<char>) -> bool {
    forall|i: int| 0 <= i < s.len() ==> is_digit(#[trigger] s[i])
}

/// The value of a string of decimal digits.
pub open spec fn digits_value(s: Seq<char>) -> int
    decreases s.len(),
{
    if s.len() == 0 {
        0
    } else {
        digits_value(s.drop_last()) * 10 + digit_value(s.last())
    }
}

pub open spec fn has_sign(s: Seq<char>) -> bool {
    s.len() > 0 && (s[0] == '-' || s[0] == '+')
}

/// The digits after an optional leading sign.
pub open spec fn unsigned_part(s: Seq<char>) -> Seq<char> {
    if has_sign(s) {
        s.drop_first()
    } else {
        s
    }
}

/// The integer that `s` writes: an optional `+` or `-`, then one or more
/// ASCII digits and nothing else.
pub open spec fn integer_value(s: Seq<char>) -> Option<int> {
    let body = unsigned_part(s);
    if body.len() > 0 && all_digits(body) {
        if s[0] == '-' {
            Some(-digits_value(body))
        } else {
            Some(digits_value(body))
        }
    } else {
        None
    }
}

/// What `str::parse` gives for an integer type whose values lie in `lo..=hi`.
pub open spec fn parse_within(s: Seq<char>, lo: int, hi: int) -> Option<int> {
    match integer_value(s) {
        Some(v) => if lo <= v && v <= hi {
            Some(v)
        } else {
            None
        },
        None => None,
    }
}

pub open spec fn parse_i128_spec(s: Seq<char>) -> Option<int> {
    parse_within(s, i128::MIN as int, i128::MAX as int)
}

pub open spec fn parse_i64_spec(s: Seq<char>) -> Option<int> {
    parse_within(s, i64::MIN as int, i64::MAX as int)
}

pub open spec fn parse_i32_spec(s: Seq<char>) -> Option<int> {
    parse_within(s, i32::MIN as int, i32::MAX as int)
}

proof fn lemma_digits_value_grows(s: Seq<char>, k: int)
    requires
        all_digits(s),
        0 <= k <= s.len(),
    ensures
        0 <= digits_value(s.take(k)) <= digits_value(s),
    decreases s.len(),
{
    if s.len() > 0 {
        let t = s.drop_last();
        assert(all_digits(t)) by {
            assert forall|i: int| 0 <= i < t.len() implies is_digit(#[trigger] t[i]) by {
                assert(t[i] == s[i]);
            }
        }
        assert(is_digit(s[s.len() - 1]));
        if k == s.len() {
            assert(s.take(k) =~= s);
            lemma_digits_value_grows(t, 0);
        } else {
            assert(s.take(k) =~= t.take(k));
            lemma_digits_value_grows(t, k);
        }
    } else {
        assert(s.take(k) =~= s);
    }
}

/// `s.parse::<i128>()`, with `None` for every error.
pub fn parse_i128(s: &str) -> (r: Option<i128>)
    ensures
        r matches Some(v) ==> parse_i128_spec(s@) == Some(v as int),
        r is None ==> parse_i128_spec(s@) is None,
{
    let chars = chars_of(s);
    let n = chars.len();
    if n == 0 {
        return None;
    }
    let negative = chars[0] == '-';
    let start: usize = if chars[0] == '-' || chars[0] == '+' {
        1
    } else {
        0
    };
    let ghost body = unsigned_part(s@);
    proof {
        assert(body =~= s@.skip(start as int));
    }
    if start >= n {
        return None;
    }
    let mut magnitude: u128 = 0;
    let mut i: usize = start;
    while i < n
        invariant
            chars@ == s@,
            n == s@.len(),
            start <= i <= n,
            body == s@.skip(start as int),
            body == unsigned_part(s@),
            negative == (s@[0] == '-'),
            all_digits(body.take(i - start)),
            magnitude as int == digits_value(body.take(i - start)),
        decreases n - i,
    {
        let c = chars[i];
        let ghost j: int = i - start;
        assert(body[j] == c);
        if !('0' <= c && c <= '9') {
            assert(!is_digit(body[j]));
            return None;
        }
        let d: u128 = ((c as u32) - ('0' as u32)) as u128;
        proof {
            assert(body.take(j + 1).drop_last() =~= body.take(j));
            assert(body.take(j + 1).last() == c);
            assert(digits_value(body.take(j + 1)) == magnitude * 10 + d);
            assert(all_digits(body.take(j + 1))) by {
                assert forall|t: int| 0 <= t < j + 1 implies is_digit(#[trigger] body.take(j + 1)[t]) by {
                    if t < j {
                        assert(body.take(j + 1)[t] == body.take(j)[t]);
                    }
                }
            }
        }
        let next = match magnitude.checked_mul(10) {
            Some(m) => m.checked_add(d),
            None => None,
        };
        match next {
            Some(m) => {
                magnitude = m;
            },
            None => {
                proof {
                    if all_digits(body) {
                        lemma_digits_value_grows(body, j + 1);
                    }
                }
                return None;
            },
        }
        i += 1;
    }
    proof {
        assert(body.take(n - start) =~= body);
    }
    if negative {
        if magnitude > 0x8000_0000_0000_0000_0000_0000_0000_0000u128 {
            None
        } else if magnitude == 0x8000_0000_0000_0000_0000_0000_0000_0000u128 {
            Some(i128::MIN)
        } else {
            Some(-(magnitude as i128))
        }
    } else {
        if magnitude > 0x7fff_ffff_ffff_ffff_ffff_ffff_ffff_ffffu128 {
            None
        } else {
            Some(magnitude as i128)
        }
    }
}

/// `s.parse::<i64>()`, with `None` for every error.
pub fn parse_i64(s: &str) -> (r: Option<i64>)
    ensures
        r matches Some(v) ==> parse_i64_spec(s@) == Some(v as int),
        r is None ==> parse_i64_spec(s@) is None,
{
    match parse_i128(s) {
        Some(v) => if i64::MIN as i128 <= v && v <= i64::MAX as i128 {
            Some(v as i64)
        } else {
            None
        },
        None => None,
    }
}

/// `s.parse::<i32>()`, with `None` for every error.
pub fn parse_i32(s: &str) -> (r: Option<i32>)
    ensures
        r matches Some(v) ==> parse_i32_spec(s@) == Some(v as int),
        r is None ==> parse_i32_spec(s@) is None,
{
    match parse_i128(s) {
        Some(v) => if i32::MIN as i128 <= v && v <= i32::MAX as i128 {
            Some(v as i32)
        } else {
            None
        },
        None => None,
    }
}

/// Appending a digit multiplies the value by ten and adds the digit.
pub proof fn law_digits_append(s: Seq<char>, c: char)
    requires
        is_digit(c),
    ensures
        digits_value(s.push(c)) == 10 * digits_value(s) + (c as int - '0' as int),
{
    assert(s.push(c).drop_last() =~= s);
}

/// A run of digits reads as its value, after `+` as the same value and after
/// `-` as its negation.
pub proof fn law_integer_sign(d: Seq<char>)
    requires
        d.len() > 0,
        all_digits(d),
    ensures
        integer_value(d) == Some(digits_value(d)),
        integer_value(seq!['+'] + d) == Some(digits_value(d)),
        integer_value(seq!['-'] + d) == Some(-digits_value(d)),
{
    assert(!is_digit('+') && !is_digit('-'));
    assert(d[0] != '+' && d[0] != '-') by {
        assert(is_digit(d[0]));
    }
    assert((seq!['+'] + d).drop_first() =~= d);
    assert((seq!['-'] + d).drop_first() =~= d);
}

/// `parse::<i128>` gives the written integer exactly when it lies between
/// -2^127 and 2^127 - 1, and nothing otherwise.
pub proof fn law_i128_range(s: Seq<char>)
    ensures
        parse_i128_spec(s) == match integer_value(s) {
            Some(v) => if -0x8000_0000_0000_0000_0000_0000_0000_0000 <= v
                <= 0x7fff_ffff_ffff_ffff_ffff_ffff_ffff_ffff {
                Some(v)
            } else {
                None
            },
            None => None,
        },
{
}

} // verus!
