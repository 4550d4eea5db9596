//! Decimal parsing with the meaning of `str::parse::<u64>`.
use vstd::prelude::*;

verus! {

/// An ASCII decimal digit.
pub open spec fn is_digit(c: char) -> bool {
    48 <= c as u32 <= 57
}

pub open spec fn digit_value(c: char) -> nat {
    (c as u32 - 48) as nat
}

pub open spec fn all_digits(d: Seq<char>) -> bool {
    forall|i: int| 0 <= i < d.len() ==> is_digit(#[trigger] d[i])
}

/// The number that the digit string `d` writes in base ten.
pub open spec fn decimal_value(d: Seq<char>) -> nat
    decreases d.len(),
{
    if d.len() == 0 {
        0
    } else {
        decimal_value(d.drop_last()) * 10 + digit_value(d.last())
    }
}

/// The digits that an unsigned parse reads: one leading `+` is allowed
/// and skipped, a `-` is not.
pub open spec fn unsigned_digits(s: Seq<char>) -> Seq<char> {
    if s.len() > 0 && s[0] == '+' {
        s.drop_first()
    } else {
        s
    }
}

/// `s.parse::<u64>().ok()`: `Some` exactly when, after an optional `+`,
/// `s` is a non-empty string of ASCII digits whose value fits in a `u64`.
pub open spec fn parse_u64_spec(s: Seq<char>) -> Option<u64> {
    let d = unsigned_digits(s);
    if d.len() > 0 && all_digits(d) && decimal_value(d) <= u64::MAX {
        Some(decimal_value(d) as u64)
    } else {
        None
    }
}

/// A longer prefix of a digit string never has a smaller value.
pub proof fn lemma_decimal_value_prefix_monotone(d: Seq<char>, i: int, j: int)
    requires
        0 <= i <= j <= d.len(),
    ensures
        decimal_value(d.subrange(0, i)) <= decimal_value(d.subrange(0, j)),
    decreases j - i,
{
    if i < j {
        lemma_decimal_value_prefix_monotone(d, i, j - 1);
        assert(d.subrange(0, j).drop_last() =~= d.subrange(0, j - 1));
    }
}

/// `s.parse::<u64>().ok()`.
pub fn parse_u64(s: &str) -> (r: Option<u64>)
    ensures
        r == parse_u64_spec(s@),
{
    let n = s.unicode_len();
    let mut start: usize = 0;
    if n > 0 && s.get_char(0) == '+' {
        start = 1;
    }
    let ghost d = unsigned_digits(s@);
    assert(d =~= s@.subrange(start as int, n as int));
    if start == n {
        return None;
    }
    let mut i: usize = start;
    let mut acc: u64 = 0;
    assert(d.subrange(0, 0) =~= Seq::<char>::empty());
    while i < n
        invariant
            start <= i <= n,
            n == s@.len(),
            d == s@.subrange(start as int, n as int),
            d == unsigned_digits(s@),
            d.len() > 0,
            all_digits(d.subrange(0, i - start)),
            acc == decimal_value(d.subrange(0, i - start)),
        decreases n - i,
    {
        let c = s.get_char(i);
        let u = c as u32;
        let ghost k: int = i - start;
        assert(d[k] == c);
        if u < 48 || u > 57 {
            assert(!is_digit(d[k]));
            return None;
        }
        let dv = (u - 48) as u64;
        assert(d.subrange(0, k + 1).drop_last() =~= d.subrange(0, k));
        assert(decimal_value(d.subrange(0, k + 1)) == acc * 10 + dv);
        match acc.checked_mul(10) {
            None => {
                proof {
                    lemma_decimal_value_prefix_monotone(d, k + 1, d.len() as int);
                    assert(d.subrange(0, d.len() as int) =~= d);
                }
                return None;
            },
            Some(m) => match m.checked_add(dv) {
                None => {
                    proof {
                        lemma_decimal_value_prefix_monotone(d, k + 1, d.len() as int);
                        assert(d.subrange(0, d.len() as int) =~= d);
                    }
                    return None;
                },
                Some(next) => {
                    acc = next;
                },
            },
        }
        assert(all_digits(d.subrange(0, k + 1))) by {
            assert forall|t: int| 0 <= t < k + 1 implies is_digit(#[trigger] d.subrange(0, k + 1)[t]) by {
                if t < k {
                    assert(d.subrange(0, k + 1)[t] == d.subrange(0, k)[t]);
                }
            }
        }
        i = i + 1;
    }
    assert(d.subrange(0, d.len() as int) =~= d);
    Some(acc)
}

} // verus!
