//! Integer literals: the mathematical reading of a digit string with an
//! optional sign, in base 10 or 16, and an executable parser proved
//! against it.  A literal is accepted exactly when it has at least one
//! digit, every character is a digit of the base, and its value fits in
//! a signed 64-bit integer.

use vstd::prelude::*;

use crate::ascii::{DIGIT_NINE, DIGIT_ZERO, LOWER_A, LOWER_F, MINUS, PLUS, UPPER_A, UPPER_F};

verus! {

/// Whether a byte is a digit of the given base: `0`-`9` always, and the
/// hex letters in either case when the base is 16.
pub open spec fn is_digit(b: u8, base: int) -> bool {
    (DIGIT_ZERO <= b <= DIGIT_NINE) || (base == 16 && (LOWER_A <= b <= LOWER_F || UPPER_A <= b
        <= UPPER_F))
}

/// The value of one digit byte (0 for a byte that is no digit).
pub open spec fn digit_val(b: u8) -> int {
    if DIGIT_ZERO <= b <= DIGIT_NINE {
        b - DIGIT_ZERO
    } else if LOWER_A <= b <= LOWER_F {
        b - LOWER_A + 10
    } else if UPPER_A <= b <= UPPER_F {
        b - UPPER_A + 10
    } else {
        0
    }
}

/// The value of a digit string read most-significant first.
pub open spec fn digits_val(s: Seq<u8>, base: int) -> int
    decreases s.len(),
{
    if s.len() == 0 {
        0
    } else {
        digits_val(s.drop_last(), base) * base + digit_val(s.last())
    }
}

/// Whether every byte of the string is a digit of the base.
pub open spec fn all_digits(s: Seq<u8>, base: int) -> bool {
    forall|i: int| 0 <= i < s.len() ==> is_digit(s[i], base)
}

/// Whether the token begins with an explicit sign character.
pub open spec fn has_sign(t: Seq<u8>) -> bool {
    t.len() > 0 && (t[0] == MINUS || t[0] == PLUS)
}

/// Whether the token begins with a minus sign.
pub open spec fn is_negative(t: Seq<u8>) -> bool {
    t.len() > 0 && t[0] == MINUS
}

/// The token without its sign character, if it has one.
pub open spec fn digits_of(t: Seq<u8>) -> Seq<u8> {
    if has_sign(t) {
        t.drop_first()
    } else {
        t
    }
}

/// The signed value of a literal token.
pub open spec fn int_token_val(t: Seq<u8>, base: int) -> int {
    if is_negative(t) {
        -digits_val(digits_of(t), base)
    } else {
        digits_val(digits_of(t), base)
    }
}

/// Whether the token is a well-formed literal of the base whose value
/// fits in an `i64`.
pub open spec fn is_int_token(t: Seq<u8>, base: int) -> bool {
    &&& digits_of(t).len() > 0
    &&& all_digits(digits_of(t), base)
    &&& i64::MIN <= int_token_val(t, base) <= i64::MAX
}

/// The value of a digit string is never negative.
pub proof fn lemma_digits_val_nonneg(s: Seq<u8>, base: int)
    requires
        base >= 1,
    ensures
        digits_val(s, base) >= 0,
    decreases s.len(),
{
    if s.len() > 0 {
        lemma_digits_val_nonneg(s.drop_last(), base);
        assert(digits_val(s.drop_last(), base) * base >= 0) by (nonlinear_arith)
            requires
                digits_val(s.drop_last(), base) >= 0,
                base >= 1,
        ;
    }
}

/// Reading more digits never shrinks the value: a prefix is worth at
/// most the whole string.
pub proof fn lemma_digits_val_prefix(s: Seq<u8>, base: int, j: int)
    requires
        base >= 1,
        0 <= j <= s.len(),
    ensures
        digits_val(s.take(j), base) <= digits_val(s, base),
    decreases s.len(),
{
    if j == s.len() {
        assert(s.take(j) =~= s);
    } else {
        assert(s.take(j) =~= s.drop_last().take(j));
        lemma_digits_val_prefix(s.drop_last(), base, j);
        lemma_digits_val_nonneg(s.drop_last(), base);
        assert(digits_val(s.drop_last(), base) * base >= digits_val(s.drop_last(), base))
            by (nonlinear_arith)
            requires
                digits_val(s.drop_last(), base) >= 0,
                base >= 1,
        ;
    }
}

/// Parses a token as a signed integer literal of the given base,
/// exactly as `is_int_token` and `int_token_val` describe.
pub fn parse_int(t: &[u8], base: u64) -> (r: Option<i64>)
    requires
        base == 10 || base == 16,
    ensures
        r is Some <==> is_int_token(t@, base as int),
        r matches Some(v) ==> v as int == int_token_val(t@, base as int),
{
    let n = t.len();
    if n == 0 {
        return None;
    }
    let first = t[0];
    let neg = first == MINUS;
    let start: usize = if first == MINUS || first == PLUS {
        1
    } else {
        0
    };
    proof {
        assert(digits_of(t@) =~= t@.subrange(start as int, n as int));
    }
    if start == n {
        // a bare sign has no digits
        return None;
    }
    let mut i: usize = start;
    let mut mag: u64 = 0;
    while i < n
        invariant
            base == 10 || base == 16,
            start <= i <= n,
            n == t@.len(),
            neg == is_negative(t@),
            digits_of(t@) =~= t@.subrange(start as int, n as int),
            all_digits(t@.subrange(start as int, i as int), base as int),
            mag as int == digits_val(t@.subrange(start as int, i as int), base as int),
        decreases n - i,
    {
        let b = t[i];
        let d: u64 = if DIGIT_ZERO <= b && b <= DIGIT_NINE {
            (b - DIGIT_ZERO) as u64
        } else if base == 16 && LOWER_A <= b && b <= LOWER_F {
            (b - LOWER_A + 10) as u64
        } else if base == 16 && UPPER_A <= b && b <= UPPER_F {
            (b - UPPER_A + 10) as u64
        } else {
            // not a digit of the base, so no literal at all
            proof {
                assert(!is_digit(digits_of(t@)[i - start], base as int));
            }
            return None;
        };
        proof {
            assert(t@.subrange(start as int, i + 1).drop_last() =~= t@.subrange(
                start as int,
                i as int,
            ));
            assert(t@.subrange(start as int, i + 1).last() == t@[i as int]);
        }
        let grown = match mag.checked_mul(base) {
            Some(g) => g,
            None => {
                proof {
                    overflow_means_no_token(t@, base as int, start as int, i as int, (mag as int)
                        * (base as int) + digit_val(t@[i as int]));
                }
                return None;
            },
        };
        let full = match grown.checked_add(d) {
            Some(f) => f,
            None => {
                proof {
                    overflow_means_no_token(t@, base as int, start as int, i as int, grown as int
                        + digit_val(t@[i as int]));
                }
                return None;
            },
        };
        mag = full;
        i = i + 1;
    }
    proof {
        assert(t@.subrange(start as int, n as int) =~= digits_of(t@));
    }
    if neg {
        if mag < 9223372036854775808u64 {
            Some(-(mag as i64))
        } else if mag == 9223372036854775808u64 {
            Some(i64::MIN)
        } else {
            None
        }
    } else {
        if mag <= 9223372036854775807u64 {
            Some(mag as i64)
        } else {
            None
        }
    }
}

/// When the running magnitude no longer fits in a `u64`, the whole
/// token's value cannot fit in an `i64` either.
proof fn overflow_means_no_token(t: Seq<u8>, base: int, start: int, i: int, partial: int)
    requires
        base >= 2,
        0 <= start <= i < t.len(),
        digits_of(t) =~= t.subrange(start, t.len() as int),
        partial > u64::MAX,
        partial <= digits_val(t.subrange(start, i + 1), base),
    ensures
        !is_int_token(t, base),
{
    let full = t.subrange(start, t.len() as int);
    assert(t.subrange(start, i + 1) =~= full.take(i + 1 - start));
    lemma_digits_val_prefix(full, base, i + 1 - start);
    assert(digits_val(full, base) > u64::MAX);
}

} // verus!
