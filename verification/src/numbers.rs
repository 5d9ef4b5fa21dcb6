//! Reading decimal integers the way `str::parse` reads them: an optional sign
//! (`+`, or `-` for types with negatives) followed by one or more ASCII
//! digits, with no other characters, and a value inside the type's range.
use vstd::prelude::*;

use crate::text::chars_of;

verus! {

/// `c` is an ASCII decimal digit.
pub open spec fn is_digit(c: char) -> bool {
    '0' <= c && c <= '9'
}

/// Every character of `s` is an ASCII decimal digit.
pub open spec fn all_digits(s: Seq<char>) -> bool {
    forall|i: int| 0 <= i < s.len() ==> is_digit(#[trigger] s[i])
}

/// The value of the digit `c`.
pub open spec fn digit_value(c: char) -> nat {
    ((c as int) - ('0' as int)) as nat
}

/// The value of the digit string `s` (most significant digit first).
pub open spec fn digits_value(s: Seq<char>) -> nat
    decreases s.len(),
{
    if s.len() == 0 {
        0
    } else {
        digits_value(s.drop_last()) * 10 + digit_value(s.last())
    }
}

/// The integer that `s` writes in decimal, if it is well formed: one or more
/// digits after an optional `+`, or after `-` when `signed`.
pub open spec fn decimal_text_value(s: Seq<char>, signed: bool) -> Option<int> {
    if s.len() > 0 && s[0] == '+' {
        let body = s.drop_first();
        if body.len() > 0 && all_digits(body) {
            Some(digits_value(body) as int)
        } else {
            None
        }
    } else if signed && s.len() > 0 && s[0] == '-' {
        let body = s.drop_first();
        if body.len() > 0 && all_digits(body) {
            Some(-(digits_value(body) as int))
        } else {
            None
        }
    } else if s.len() > 0 && all_digits(s) {
        Some(digits_value(s) as int)
    } else {
        None
    }
}

/// The integer that `s` writes in decimal, if it is well formed and lies in
/// `[lo, hi]`.
pub open spec fn decimal_in_range(s: Seq<char>, signed: bool, lo: int, hi: int) -> Option<int> {
    match decimal_text_value(s, signed) {
        Some(v) => if lo <= v && v <= hi {
            Some(v)
        } else {
            None
        },
        None => None,
    }
}

proof fn lemma_digits_value_grows(s: Seq<char>, k: int)
    requires
        0 <= k <= s.len(),
    ensures
        digits_value(s.take(k)) <= digits_value(s),
    decreases s.len() - k,
{
    if k < s.len() {
        lemma_digits_value_grows(s, k + 1);
        assert(s.take(k + 1).drop_last() == s.take(k));
    } else {
        assert(s.take(k) == s);
    }
}

proof fn lemma_step_exceeds(acc: int, d: int, limit: int)
    requires
        0 <= acc,
        0 <= d,
        0 <= limit,
        d > limit || acc > (limit - d) / 10,
    ensures
        acc * 10 + d > limit,
{
    if d <= limit {
        assert(acc * 10 + d > limit) by (nonlinear_arith)
            requires
                acc > (limit - d) / 10,
                d <= limit,
                0 <= d,
        ;
    }
}

proof fn lemma_step_fits(acc: int, d: int, limit: int)
    requires
        0 <= acc,
        0 <= d <= limit,
        acc <= (limit - d) / 10,
    ensures
        acc * 10 + d <= limit,
{
    assert(acc * 10 + d <= limit) by (nonlinear_arith)
        requires
            acc <= (limit - d) / 10,
            0 <= d <= limit,
    ;
}

/// The value of the digits `body`, if they are all digits, there is at least
/// one, and the value is at most `limit`.
fn digits_up_to(body: &[char], limit: u128) -> (r: Option<u128>)
    ensures
        r matches Some(v) ==> body@.len() > 0 && all_digits(body@) && v == digits_value(body@) && v <= limit,
        r is None ==> !(body@.len() > 0 && all_digits(body@) && digits_value(body@) <= limit),
{
    if body.len() == 0 {
        return None;
    }
    let n = body.len();
    let mut acc: u128 = 0;
    for i in 0..n
        invariant
            n == body@.len(),
            acc as nat == digits_value(body@.take(i as int)),
            acc <= limit,
            all_digits(body@.take(i as int)),
    {
        let c = body[i];
        assert(body@.take(i + 1).drop_last() == body@.take(i as int));
        if !('0' <= c && c <= '9') {
            assert(!is_digit(body@[i as int]));
            return None;
        }
        let d = (c as u32 - '0' as u32) as u128;
        assert(d as nat == digit_value(c)) by {
            assert(c as int - '0' as int == (c as u32 - '0' as u32) as int);
        }
        assert(acc * 10 + d == digits_value(body@.take(i + 1)));
        if d > limit || acc > (limit - d) / 10 {
            proof {
                lemma_step_exceeds(acc as int, d as int, limit as int);
            }
            proof {
                if all_digits(body@) {
                    lemma_digits_value_grows(body@, i + 1);
                }
            }
            return None;
        }
        proof {
            lemma_step_fits(acc as int, d as int, limit as int);
        }
        acc = acc * 10 + d;
        assert(all_digits(body@.take(i + 1))) by {
            assert forall|j: int| 0 <= j < i + 1 implies is_digit(#[trigger] body@.take(i + 1)[j]) by {
                if j < i {
                    assert(body@.take(i + 1)[j] == body@.take(i as int)[j]);
                }
            }
        }
    }
    assert(body@.take(n as int) == body@);
    Some(acc)
}

/// Reads a decimal integer written in `s` whose value lies in
/// `[-max_neg, max_pos]` (negative values only when `signed`): the result is
/// the sign (`true` for negative) and the magnitude.
pub fn parse_decimal(s: &str, signed: bool, max_pos: u128, max_neg: u128) -> (r: Option<(bool, u128)>)
    ensures
        r matches Some((neg, mag)) ==> decimal_in_range(s@, signed, -(max_neg as int), max_pos as int) == Some(
            if neg { -(mag as int) } else { mag as int },
        ) && (neg ==> mag > 0),
        r is None ==> decimal_in_range(s@, signed, -(max_neg as int), max_pos as int) is None,
{
    let v = chars_of(s);
    let ghost sv = s@;
    if v.len() > 0 && v[0] == '+' {
        let body = tail(v.as_slice());
        assert(body@ == sv.drop_first());
        match digits_up_to(body.as_slice(), max_pos) {
            Some(m) => {
                assert(decimal_text_value(sv, signed) == Some(m as int));
                Some((false, m))
            },
            None => None,
        }
    } else if signed && v.len() > 0 && v[0] == '-' {
        let body = tail(v.as_slice());
        assert(body@ == sv.drop_first());
        match digits_up_to(body.as_slice(), max_neg) {
            Some(m) => if m == 0 {
                Some((false, 0))
            } else {
                Some((true, m))
            },
            None => None,
        }
    } else {
        match digits_up_to(v.as_slice(), max_pos) {
            Some(m) => Some((false, m)),
            None => {
                proof {
                    if v@.len() > 0 && all_digits(v@) {
                        assert(is_digit(v@[0]));
                    }
                }
                None
            },
        }
    }
}

/// `s` without its first character.
fn tail(s: &[char]) -> (r: Vec<char>)
    requires
        s@.len() > 0,
    ensures
        r@ == s@.drop_first(),
{
    let mut out: Vec<char> = Vec::new();
    let n = s.len();
    for i in 1..n
        invariant
            n == s@.len(),
            n > 0,
            out@ == s@.subrange(1, i as int),
    {
        out.push(s[i]);
        assert(out@ =~= s@.subrange(1, i + 1));
    }
    out
}

} // verus!
