//! Laws of the evaluator that hold over all inputs.

use vstd::prelude::*;

use crate::ascii::{DOT, LOWER_I, SLASH};
use crate::eval::{
    all_ascii, init_state, is_hex_token, spec_eval, spec_eval_from, spec_step, EvalState,
};
use crate::literal::{int_token_val, is_int_token};
use crate::ops::spec_operator;

verus! {

/// A token that drives the evaluator rather than pushing a literal:
/// an ASCII token that is no literal and whose first character is the
/// iota opcode, a fold, a mode directive, or a registry symbol.
pub open spec fn is_operator_token(t: Seq<u8>) -> bool {
    &&& all_ascii(t)
    &&& !is_hex_token(t)
    &&& !is_int_token(t, 10)
    &&& t.len() > 0
    &&& (t[0] == LOWER_I || t[0] == SLASH || t[0] == DOT || spec_operator(seq![t[0]]) is Some)
}

/// A token that pushes a value: an ASCII hex or decimal literal.
pub open spec fn is_literal_token(t: Seq<u8>) -> bool {
    all_ascii(t) && (is_hex_token(t) || is_int_token(t, 10))
}

/// The value a literal token pushes.
pub open spec fn literal_value(t: Seq<u8>) -> i64 {
    if is_hex_token(t) {
        int_token_val(t.skip(2), 16) as i64
    } else {
        int_token_val(t, 10) as i64
    }
}

/// The successfully parsed literals of a token sequence, in order.
pub open spec fn literal_values(toks: Seq<Seq<u8>>) -> Seq<i64>
    decreases toks.len(),
{
    if toks.len() == 0 {
        Seq::empty()
    } else if is_literal_token(toks[0]) {
        seq![literal_value(toks[0])] + literal_values(toks.drop_first())
    } else {
        literal_values(toks.drop_first())
    }
}

/// From any starting state, a pass over tokens none of which is an
/// operator token only appends the parsed literals to the stack.
proof fn lemma_literals_only_from(st: EvalState, toks: Seq<Seq<u8>>)
    requires
        forall|i: int| 0 <= i < toks.len() ==> !is_operator_token(#[trigger] toks[i]),
    ensures
        spec_eval_from(st, toks).stack == st.stack + literal_values(toks),
    decreases toks.len(),
{
    if toks.len() == 0 {
        assert(st.stack + literal_values(toks) =~= st.stack);
    } else {
        let t = toks[0];
        let st1 = spec_step(st, t);
        assert(forall|i: int|
            0 <= i < toks.drop_first().len() ==> !is_operator_token(
                #[trigger] toks.drop_first()[i],
            )) by {
            assert(forall|i: int|
                0 <= i < toks.drop_first().len() ==> toks.drop_first()[i] == toks[i + 1]);
        }
        lemma_literals_only_from(st1, toks.drop_first());
        if is_literal_token(t) {
            assert(st1.stack == st.stack.push(literal_value(t)));
            assert(st.stack.push(literal_value(t)) + literal_values(toks.drop_first()) =~= st.stack
                + (seq![literal_value(t)] + literal_values(toks.drop_first())));
        } else {
            assert(st1.stack == st.stack);
        }
    }
}

/// With no operator tokens in the input, the evaluator's final stack
/// is exactly the sequence of successfully parsed literals, in their
/// original order.
pub proof fn lemma_literals_only(toks: Seq<Seq<u8>>)
    requires
        forall|i: int| 0 <= i < toks.len() ==> !is_operator_token(#[trigger] toks[i]),
    ensures
        spec_eval(toks).stack == literal_values(toks),
{
    lemma_literals_only_from(init_state(), toks);
    assert(init_state().stack + literal_values(toks) =~= literal_values(toks));
}

} // verus!
