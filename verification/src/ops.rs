//! The operator registry: a closed, constant table from one-character
//! symbols to binary operations on signed 64-bit integers.

use vstd::prelude::*;

use crate::ascii::{LOWER_P, LOWER_M, LOWER_D, PLUS, STAR};

verus! {

/// A binary operation of the operator registry.
#[derive(Clone, Copy, PartialEq, Eq, Structural, Debug)]
pub enum BinOp {
    Add,
    Mul,
    Div,
}

/// The registry as a mathematical table: `p` and `+` add, `m` and `*`
/// multiply, `d` divides; every other symbol names no operation.
pub open spec fn spec_operator(sym: Seq<u8>) -> Option<BinOp> {
    if sym.len() == 1 {
        if sym[0] == LOWER_P || sym[0] == PLUS {
            Some(BinOp::Add)
        } else if sym[0] == LOWER_M || sym[0] == STAR {
            Some(BinOp::Mul)
        } else if sym[0] == LOWER_D {
            Some(BinOp::Div)
        } else {
            None
        }
    } else {
        None
    }
}

/// Looks a symbol up in the operator registry.
pub fn operator(sym: &[u8]) -> (r: Option<BinOp>)
    ensures
        r == spec_operator(sym@),
{
    if sym.len() == 1 {
        let b = sym[0];
        if b == LOWER_P || b == PLUS {
            Some(BinOp::Add)
        } else if b == LOWER_M || b == STAR {
            Some(BinOp::Mul)
        } else if b == LOWER_D {
            Some(BinOp::Div)
        } else {
            None
        }
    } else {
        None
    }
}

/// What applying an operation yields: addition and multiplication wrap
/// around on 64-bit overflow; division truncates toward zero and has no
/// result when the divisor is zero or when the quotient overflows
/// (`i64::MIN / -1`).
pub open spec fn spec_apply(op: BinOp, a: i64, b: i64) -> Option<i64> {
    match op {
        BinOp::Add => Some(a.wrapping_add(b)),
        BinOp::Mul => Some(a.wrapping_mul(b)),
        BinOp::Div => a.checked_div(b),
    }
}

/// Applies a binary operation to two operands.
pub fn apply(op: BinOp, a: i64, b: i64) -> (r: Option<i64>)
    ensures
        r == spec_apply(op, a, b),
{
    match op {
        BinOp::Add => Some(a.wrapping_add(b)),
        BinOp::Mul => Some(a.wrapping_mul(b)),
        BinOp::Div => a.checked_div(b),
    }
}

} // verus!
