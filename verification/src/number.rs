//! Unsigned decimal numbers as text.

use vstd::prelude::*;

verus! {

/// The byte `0`.
pub const ZERO: u8 = 48;

/// The byte `9`.
pub const NINE: u8 = 57;

/// The byte `+`.
pub const PLUS: u8 = 43;

/// `b` is one of the bytes `0` to `9`.
pub open spec fn is_digit(b: u8) -> bool {
    ZERO <= b <= NINE
}

/// Every byte of `s` is a digit.
pub open spec fn all_digits(s: Seq<u8>) -> bool {
    forall|i: int| 0 <= i < s.len() ==> is_digit(s[i])
}

/// The number that a run of decimal digits stands for; 0 for the empty run.
pub open spec fn digits_value(s: Seq<u8>) -> nat
    decreases s.len(),
{
    if s.len() == 0 {
        0
    } else {
        digits_value(s.drop_last()) * 10 + (s.last() - ZERO) as nat
    }
}

/// What is left of a token once one leading `+` is taken off.
pub open spec fn unsigned_digits(token: Seq<u8>) -> Seq<u8> {
    if token.len() > 0 && token[0] == PLUS {
        token.skip(1)
    } else {
        token
    }
}

/// The number that `token` stands for, if it is an unsigned decimal number no
/// larger than `max`: one optional `+`, then one or more digits and nothing
/// else. Leading zeros are allowed.
pub open spec fn unsigned(token: Seq<u8>, max: nat) -> Option<nat> {
    let digits = unsigned_digits(token);
    if digits.len() > 0 && all_digits(digits) && digits_value(digits) <= max {
        Some(digits_value(digits))
    } else {
        None
    }
}

/// The shortest decimal text of `n`.
pub open spec fn decimal(n: nat) -> Seq<u8>
    decreases n,
{
    if n < 10 {
        seq![(ZERO + n) as u8]
    } else {
        decimal(n / 10).push((ZERO + n % 10) as u8)
    }
}

/// A run of digits is worth at least as much as any of its prefixes.
pub proof fn lemma_value_grows(s: Seq<u8>, k: int)
    requires
        all_digits(s),
        0 <= k <= s.len(),
    ensures
        digits_value(s.take(k)) <= digits_value(s),
    decreases s.len(),
{
    if k == s.len() {
        assert(s.take(k) == s);
    } else {
        assert(s.drop_last().take(k) == s.take(k));
        lemma_value_grows(s.drop_last(), k);
    }
}

/// The decimal text of a number is a non-empty run of digits that stands for
/// that number.
pub proof fn lemma_decimal(n: nat)
    ensures
        decimal(n).len() > 0,
        all_digits(decimal(n)),
        digits_value(decimal(n)) == n,
    decreases n,
{
    let s = decimal(n);
    if n < 10 {
        assert(digits_value(s.drop_last()) == 0);
        assert(s.last() == ZERO + n);
    } else {
        lemma_decimal(n / 10);
        assert(s.drop_last() == decimal(n / 10));
        assert(s.last() == ZERO + n % 10);
    }
}

/// Reading back the decimal text of a number gives the number.
pub proof fn lemma_unsigned_decimal(n: nat, max: nat)
    requires
        n <= max,
    ensures
        unsigned(decimal(n), max) == Some(n),
{
    lemma_decimal(n);
    assert(is_digit(decimal(n)[0]));
}

/// Reads an unsigned decimal number that is at most `max`.
pub fn parse_unsigned(token: &[u8], max: u32) -> (out: Option<u32>)
    ensures
        out is Some <==> unsigned(token@, max as nat) is Some,
        out matches Some(v) ==> unsigned(token@, max as nat) == Some(v as nat),
{
    let start: usize = if token.len() > 0 && token[0] == PLUS {
        1
    } else {
        0
    };
    if start == token.len() {
        return None;
    }
    let ghost digits = unsigned_digits(token@);
    assert(digits == token@.skip(start as int));
    let mut value: u64 = 0;
    let mut at: usize = start;
    while at < token.len()
        invariant
            start <= at <= token.len(),
            digits == unsigned_digits(token@),
            digits == token@.skip(start as int),
            all_digits(digits.take(at - start)),
            value == digits_value(digits.take(at - start)),
            value <= max,
        decreases token.len() - at,
    {
        let b = token[at];
        let ghost seen = digits.take(at - start + 1);
        proof {
            assert(seen.drop_last() == digits.take(at - start));
            assert(seen.last() == b);
        }
        if b < ZERO || b > NINE {
            assert(!is_digit(digits[at - start]));
            return None;
        }
        value = value * 10 + (b - ZERO) as u64;
        assert(all_digits(seen)) by {
            assert forall|i: int| 0 <= i < seen.len() implies is_digit(seen[i]) by {
                if i < seen.len() - 1 {
                    assert(seen[i] == digits.take(at - start)[i]);
                }
            }
        }
        if value > max as u64 {
            proof {
                if all_digits(digits) {
                    lemma_value_grows(digits, at - start + 1);
                }
            }
            return None;
        }
        at += 1;
    }
    assert(digits.take(at - start) == digits);
    Some(value as u32)
}

/// Appends the decimal text of `n` to `out`.
pub fn push_decimal(out: &mut Vec<u8>, n: u32)
    ensures
        final(out)@ == old(out)@ + decimal(n as nat),
    decreases n,
{
    if n >= 10 {
        push_decimal(out, n / 10);
    }
    out.push(ZERO + (n % 10) as u8);
}

} // verus!
