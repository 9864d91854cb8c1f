use vstd::prelude::*;
use crate::text::{hex_char, hex_digits};

verus! {

/// The value of an ASCII hexadecimal digit (either case), if `b` is one.
pub open spec fn hex_digit_value(b: u8) -> Option<int> {
    if 0x30 <= b <= 0x39 {
        Some(b - 0x30)
    } else if 0x41 <= b <= 0x46 {
        Some(b - 0x41 + 10)
    } else if 0x61 <= b <= 0x66 {
        Some(b - 0x61 + 10)
    } else {
        None
    }
}

/// The value of a run of hexadecimal digits, most significant first;
/// `None` as soon as one byte is not a digit. The empty run is worth 0.
pub open spec fn hex_digits_value(s: Seq<u8>) -> Option<int>
    decreases s.len(),
{
    if s.len() == 0 {
        Some(0)
    } else {
        match (hex_digits_value(s.drop_last()), hex_digit_value(s.last())) {
            (Some(h), Some(d)) => Some(h * 16 + d),
            _ => None,
        }
    }
}

/// What a base-16 integer parse reads from `s` before any range check: an
/// optional `+` (or, when `signed`, `-`) followed by at least one digit.
pub open spec fn radix16_value(s: Seq<u8>, signed: bool) -> Option<int> {
    if s.len() == 0 {
        None
    } else if (s[0] == 0x2B || s[0] == 0x2D) && s.len() == 1 {
        None
    } else if s[0] == 0x2B {
        hex_digits_value(s.drop_first())
    } else if s[0] == 0x2D && signed {
        match hex_digits_value(s.drop_first()) {
            Some(v) => Some(-v),
            None => None,
        }
    } else {
        hex_digits_value(s)
    }
}

/// The `i64` that the text `s` denotes in base 16, if any.
pub open spec fn spec_parse_hex_i64(s: Seq<u8>) -> Option<i64> {
    match radix16_value(s, true) {
        Some(v) => if i64::MIN <= v <= i64::MAX { Some(v as i64) } else { None },
        None => None,
    }
}

/// The `usize` that the text `s` denotes in base 16, if any.
pub open spec fn spec_parse_hex_usize(s: Seq<u8>) -> Option<usize> {
    match radix16_value(s, false) {
        Some(v) => if 0 <= v <= usize::MAX { Some(v as usize) } else { None },
        None => None,
    }
}

/// The value of an ASCII hexadecimal digit.
pub fn hex_digit(b: u8) -> (r: Option<u8>)
    ensures
        match hex_digit_value(b) {
            Some(v) => r == Some(v as u8),
            None => r is None,
        },
{
    if 0x30 <= b && b <= 0x39 {
        Some(b - 0x30)
    } else if 0x41 <= b && b <= 0x46 {
        Some(b - 0x41 + 10)
    } else if 0x61 <= b && b <= 0x66 {
        Some(b - 0x61 + 10)
    } else {
        None
    }
}

proof fn lemma_digits_value_nonneg(s: Seq<u8>)
    ensures
        hex_digits_value(s) matches Some(v) ==> v >= 0,
    decreases s.len(),
{
    if s.len() > 0 {
        lemma_digits_value_nonneg(s.drop_last());
    }
}

/// Every prefix of a run of digits is itself a run of digits, worth no more.
proof fn lemma_digits_prefix(s: Seq<u8>, k: int)
    requires
        0 <= k <= s.len(),
        hex_digits_value(s) is Some,
    ensures
        hex_digits_value(s.take(k)) is Some,
        hex_digits_value(s.take(k)).unwrap() <= hex_digits_value(s).unwrap(),
    decreases s.len(),
{
    lemma_digits_value_nonneg(s);
    if k == s.len() {
        assert(s.take(k) =~= s);
    } else {
        lemma_digits_prefix(s.drop_last(), k);
        assert(s.drop_last().take(k) =~= s.take(k));
        lemma_digits_value_nonneg(s.drop_last());
    }
}

proof fn lemma_digits_step(s: Seq<u8>, i: int)
    requires
        0 <= i < s.len(),
    ensures
        hex_digits_value(s.take(i + 1)) == match (hex_digits_value(s.take(i)), hex_digit_value(s[i])) {
            (Some(h), Some(d)) => Some(h * 16 + d),
            _ => None::<int>,
        },
{
    assert(s.take(i + 1).drop_last() =~= s.take(i));
}

/// Reads the digits `s[start..]` as a magnitude of at most `limit`.
fn read_magnitude(s: &[u8], start: usize, limit: u64) -> (r: Option<u64>)
    requires
        start <= s.len(),
        limit >= 16,
    ensures
        match r {
            Some(m) => m <= limit && hex_digits_value(s@.skip(start as int)) == Some(m as int),
            None => match hex_digits_value(s@.skip(start as int)) {
                Some(v) => v > limit,
                None => true,
            },
        },
{
    let ghost t = s@.skip(start as int);
    let mut m: u64 = 0;
    let mut i: usize = start;
    assert(t.take(0) =~= Seq::<u8>::empty());
    while i < s.len()
        invariant
            start <= i <= s.len(),
            t == s@.skip(start as int),
            hex_digits_value(t.take(i - start)) == Some(m as int),
            m <= limit,
            limit >= 16,
        decreases s.len() - i,
    {
        proof {
            lemma_digits_step(t, i - start);
        }
        let d = match hex_digit(s[i]) {
            Some(d) => d,
            None => {
                proof {
                    assert(t[i - start] == s@[i as int]);
                    if hex_digits_value(t) is Some {
                        lemma_digits_prefix(t, i - start + 1);
                    }
                }
                return None;
            },
        };
        assert(t[i - start] == s@[i as int]);
        if m > (limit - d as u64) / 16 {
            proof {
                assert(m * 16 + d > limit) by (nonlinear_arith)
                    requires
                        m > (limit - d) / 16,
                        d < 16,
                        d <= limit,
                ;
                if hex_digits_value(t) is Some {
                    lemma_digits_prefix(t, i - start + 1);
                }
            }
            return None;
        }
        assert(m * 16 + d <= limit) by (nonlinear_arith)
            requires
                m <= (limit - d) / 16,
                d < 16,
                d <= limit,
        ;
        m = m * 16 + d as u64;
        i = i + 1;
    }
    assert(t.take(i - start) =~= t);
    Some(m)
}

/// Reads `s` as a base-16 `i64`: an optional sign, then at least one digit,
/// and the value must fit.
pub fn parse_hex_i64(s: &[u8]) -> (r: Option<i64>)
    ensures
        r == spec_parse_hex_i64(s@),
{
    if s.len() == 0 {
        return None;
    }
    if (s[0] == 0x2B || s[0] == 0x2D) && s.len() == 1 {
        return None;
    }
    assert(s@.skip(1) =~= s@.drop_first());
    if s[0] == 0x2D {
        match read_magnitude(s, 1, 0x8000_0000_0000_0000u64) {
            Some(m) => {
                if m == 0x8000_0000_0000_0000u64 {
                    Some(i64::MIN)
                } else {
                    Some(-(m as i64))
                }
            },
            None => None,
        }
    } else {
        let start: usize = if s[0] == 0x2B { 1 } else { 0 };
        assert(start == 0 ==> s@.skip(0) =~= s@);
        match read_magnitude(s, start, 0x7FFF_FFFF_FFFF_FFFFu64) {
            Some(m) => Some(m as i64),
            None => None,
        }
    }
}

/// Reads `s` as a base-16 `usize`: an optional `+`, then at least one digit,
/// and the value must fit.
pub fn parse_hex_usize(s: &[u8]) -> (r: Option<usize>)
    ensures
        r == spec_parse_hex_usize(s@),
{
    if s.len() == 0 {
        return None;
    }
    if (s[0] == 0x2B || s[0] == 0x2D) && s.len() == 1 {
        return None;
    }
    assert(s@.skip(1) =~= s@.drop_first());
    let start: usize = if s[0] == 0x2B { 1 } else { 0 };
    assert(start == 0 ==> s@.skip(0) =~= s@);
    let limit = usize::MAX as u64;
    assert(limit == usize::MAX);
    match read_magnitude(s, start, limit) {
        Some(m) => Some(m as usize),
        None => None,
    }
}

/// Reading back what is printed in upper-case hexadecimal gives the number
/// printed: digit by digit, and as a whole text for every `usize` and every
/// non-negative `i64`.
pub proof fn lemma_hex_round_trip(n: nat)
    ensures
        hex_digits_value(hex_digits(n)) == Some(n as int),
        n <= usize::MAX ==> spec_parse_hex_usize(hex_digits(n)) == Some(n as usize),
        n <= i64::MAX ==> spec_parse_hex_i64(hex_digits(n)) == Some(n as i64),
    decreases n,
{
    if n >= 16 {
        lemma_hex_round_trip(n / 16);
        let d = hex_digits(n);
        assert(d.drop_last() =~= hex_digits(n / 16));
        assert(d.last() == hex_char((n % 16) as int));
        assert(hex_digit_value(hex_char((n % 16) as int)) == Some((n % 16) as int));
        assert(n == (n / 16) * 16 + n % 16);
        assert(hex_digits_value(d) == Some(n as int));
    } else {
        let d = hex_digits(n);
        assert(d.len() == 1 && d.last() == hex_char(n as int));
        assert(d.drop_last() =~= Seq::<u8>::empty());
        assert(hex_digits_value(d.drop_last()) == Some(0int));
        assert(hex_digit_value(hex_char(n as int)) == Some(n as int));
        assert(hex_digits_value(hex_digits(n)) == Some(n as int));
    }
    let d = hex_digits(n);
    lemma_hex_first_digit(n);
    assert(radix16_value(d, false) == Some(n as int));
    assert(radix16_value(d, true) == Some(n as int));
}

/// The first character of a printed number is a digit.
proof fn lemma_hex_first_digit(n: nat)
    ensures
        hex_digits(n).len() > 0,
        (0x30 <= hex_digits(n)[0] <= 0x39) || (0x41 <= hex_digits(n)[0] <= 0x46),
    decreases n,
{
    if n >= 16 {
        lemma_hex_first_digit(n / 16);
        assert(hex_digits(n)[0] == hex_digits(n / 16)[0]);
    }
}

} // verus!
