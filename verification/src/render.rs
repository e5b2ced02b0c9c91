//! The formatter: a stack of signed 64-bit integers rendered as text,
//! each element followed by one space, either in plain decimal or as a
//! `0x`-prefixed lowercase hexadecimal literal of the value's two's
//! complement bit pattern.

use vstd::prelude::*;

use vstd::string::StringExecFns;

verus! {

/// How the final stack is rendered.
#[derive(Clone, Copy, PartialEq, Eq, Structural, Debug)]
pub enum DisplayFormat {
    Decimal,
    Hexadecimal,
}

/// The character for one digit value below 16 (lowercase).
pub open spec fn digit_char(d: int) -> char {
    if d == 0 {
        '0'
    } else if d == 1 {
        '1'
    } else if d == 2 {
        '2'
    } else if d == 3 {
        '3'
    } else if d == 4 {
        '4'
    } else if d == 5 {
        '5'
    } else if d == 6 {
        '6'
    } else if d == 7 {
        '7'
    } else if d == 8 {
        '8'
    } else if d == 9 {
        '9'
    } else if d == 10 {
        'a'
    } else if d == 11 {
        'b'
    } else if d == 12 {
        'c'
    } else if d == 13 {
        'd'
    } else if d == 14 {
        'e'
    } else {
        'f'
    }
}

/// The digits of a non-negative number in the given base, most
/// significant first, with no leading zeros (a single `0` for zero).
pub open spec fn spec_digits(n: nat, base: nat) -> Seq<char>
    recommends
        2 <= base <= 16,
    decreases n,
    via spec_digits_decreases
{
    if base < 2 || n < base {
        seq![digit_char(n as int)]
    } else {
        spec_digits(n / base, base) + seq![digit_char((n % base) as int)]
    }
}

#[via_fn]
proof fn spec_digits_decreases(n: nat, base: nat) {
    if !(base < 2 || n < base) {
        vstd::arithmetic::div_mod::lemma_div_is_strictly_smaller(n as int, base as int);
    }
}

/// The two's complement bit pattern of a signed 64-bit value, read as
/// an unsigned number.
pub open spec fn spec_bits_u64(x: i64) -> nat {
    if x >= 0 {
        x as nat
    } else {
        (x + 0x1_0000_0000_0000_0000) as nat
    }
}

/// One stack element as text under a display format: signed decimal
/// digits, or `0x` followed by the hex digits of the bit pattern.
pub open spec fn spec_int_chars(fmt: DisplayFormat, x: i64) -> Seq<char> {
    match fmt {
        DisplayFormat::Decimal => if x >= 0 {
            spec_digits(x as nat, 10)
        } else {
            seq!['-'] + spec_digits((-(x as int)) as nat, 10)
        },
        DisplayFormat::Hexadecimal => seq!['0', 'x'] + spec_digits(spec_bits_u64(x), 16),
    }
}

/// The rendering of a whole stack: every element bottom to top, each
/// followed by a single space.
pub open spec fn spec_render(fmt: DisplayFormat, stack: Seq<i64>) -> Seq<char>
    decreases stack.len(),
{
    if stack.len() == 0 {
        Seq::empty()
    } else {
        spec_render(fmt, stack.drop_last()) + spec_int_chars(fmt, stack.last()) + seq![' ']
    }
}

/// Rendering is a pure function: the same format and the same stack
/// always yield the same text.
pub proof fn lemma_render_deterministic(
    fmt1: DisplayFormat,
    stack1: Seq<i64>,
    fmt2: DisplayFormat,
    stack2: Seq<i64>,
)
    requires
        fmt1 == fmt2,
        stack1 == stack2,
    ensures
        spec_render(fmt1, stack1) == spec_render(fmt2, stack2),
{
}

/// One digit value below 16 as a one-character string.
fn digit_str(d: u64) -> (r: &'static str)
    requires
        d < 16,
    ensures
        r@ == seq![digit_char(d as int)],
{
    proof {
        reveal_strlit("0");
        reveal_strlit("1");
        reveal_strlit("2");
        reveal_strlit("3");
        reveal_strlit("4");
        reveal_strlit("5");
        reveal_strlit("6");
        reveal_strlit("7");
        reveal_strlit("8");
        reveal_strlit("9");
        reveal_strlit("a");
        reveal_strlit("b");
        reveal_strlit("c");
        reveal_strlit("d");
        reveal_strlit("e");
        reveal_strlit("f");
    }
    let r = if d == 0 {
        "0"
    } else if d == 1 {
        "1"
    } else if d == 2 {
        "2"
    } else if d == 3 {
        "3"
    } else if d == 4 {
        "4"
    } else if d == 5 {
        "5"
    } else if d == 6 {
        "6"
    } else if d == 7 {
        "7"
    } else if d == 8 {
        "8"
    } else if d == 9 {
        "9"
    } else if d == 10 {
        "a"
    } else if d == 11 {
        "b"
    } else if d == 12 {
        "c"
    } else if d == 13 {
        "d"
    } else if d == 14 {
        "e"
    } else {
        "f"
    };
    proof {
        assert(r@ =~= seq![digit_char(d as int)]);
    }
    r
}

/// Appends the digits of a non-negative number in the given base.
fn push_digits(out: &mut String, n: u64, base: u64)
    requires
        base == 10 || base == 16,
    ensures
        final(out)@ == old(out)@ + spec_digits(n as nat, base as nat),
    decreases n,
{
    if n < base {
        out.append(digit_str(n));
    } else {
        proof {
            vstd::arithmetic::div_mod::lemma_div_is_strictly_smaller(n as int, base as int);
        }
        push_digits(out, n / base, base);
        out.append(digit_str(n % base));
        proof {
            assert(out@ =~= old(out)@ + spec_digits(n as nat, base as nat));
        }
    }
}

/// The unsigned magnitude of a signed 64-bit value.
fn magnitude_u64(x: i64) -> (r: u64)
    requires
        x < 0,
    ensures
        r as int == -(x as int),
{
    let m: u64 = (-(x + 1)) as u64;
    m + 1
}

/// Appends one stack element under the display format.
fn push_int(out: &mut String, fmt: DisplayFormat, x: i64)
    ensures
        final(out)@ == old(out)@ + spec_int_chars(fmt, x),
{
    match fmt {
        DisplayFormat::Decimal => {
            if x >= 0 {
                push_digits(out, x as u64, 10);
            } else {
                out.append("-");
                proof {
                    reveal_strlit("-");
                    assert("-"@ =~= seq!['-']);
                }
                let m = magnitude_u64(x);
                push_digits(out, m, 10);
            }
            proof {
                assert(out@ =~= old(out)@ + spec_int_chars(fmt, x));
            }
        },
        DisplayFormat::Hexadecimal => {
            out.append("0x");
            proof {
                reveal_strlit("0x");
                assert("0x"@ =~= seq!['0', 'x']);
            }
            let bits: u64 = if x >= 0 {
                x as u64
            } else {
                let m = magnitude_u64(x);
                u64::MAX - (m - 1)
            };
            proof {
                assert(bits as nat == spec_bits_u64(x));
            }
            push_digits(out, bits, 16);
            proof {
                assert(out@ =~= old(out)@ + spec_int_chars(fmt, x));
            }
        },
    }
}

/// Renders a stack under a display format, exactly as `spec_render`
/// describes.
pub fn render_stack(fmt: DisplayFormat, stack: &Vec<i64>) -> (r: String)
    ensures
        r@ == spec_render(fmt, stack@),
{
    let mut out = String::new();
    let n = stack.len();
    let mut i: usize = 0;
    while i < n
        invariant
            0 <= i <= n,
            n == stack@.len(),
            out@ == spec_render(fmt, stack@.take(i as int)),
        decreases n - i,
    {
        proof {
            assert(stack@.take(i + 1).drop_last() =~= stack@.take(i as int));
            assert(stack@.take(i + 1).last() == stack@[i as int]);
        }
        push_int(&mut out, fmt, stack[i]);
        out.append(" ");
        proof {
            reveal_strlit(" ");
            assert(" "@ =~= seq![' ']);
            assert(out@ =~= spec_render(fmt, stack@.take(i + 1)));
        }
        i = i + 1;
    }
    proof {
        assert(stack@.take(n as int) =~= stack@);
    }
    out
}

} // verus!
