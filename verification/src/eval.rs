//! The stack evaluator: a single left-to-right pass over the tokens of
//! one input string.  Each token has exactly one effect: a literal
//! pushes its value (a hex literal also switches the display format),
//! `i` pops a count and pushes the ascending run starting at 1, `/op`
//! folds the whole stack with a registry operator, `.h` and `.d` pick
//! the display format, a registry symbol with two operands applies it,
//! and anything else records an advisory error.  Errors never stop the
//! pass; only the most recent error message survives.
//!
//! Two conditions that the language leaves undefined are reported
//! through the same advisory channel instead of failing: folding an
//! empty stack (`/ needs a number`) and a division with no result —
//! a zero divisor or the overflowing `i64::MIN / -1` — (`division
//! undefined`).  A binary operator applies as `second-from-top op top`,
//! and a division error leaves the stack untouched.

use vstd::prelude::*;

use vstd::string::StringExecFns;
use vstd::string::StringSliceAdditionalSpecFns;
use crate::ascii::{DIGIT_ZERO, DOT, LOWER_D, LOWER_H, LOWER_I, LOWER_X, SLASH};
use crate::literal::{int_token_val, is_int_token, parse_int};
use crate::ops::{apply, operator, spec_apply, spec_operator, BinOp};
use crate::render::DisplayFormat;
use crate::token::{spec_tokens, tokenize};

verus! {

/// The evaluator's state as mathematics: the stack bottom to top, the
/// surviving error message, and the display format.
#[verifier::ext_equal]
pub struct EvalState {
    pub stack: Seq<i64>,
    pub err: Option<Seq<char>>,
    pub fmt: DisplayFormat,
}

/// One evaluation's outcome: the final stack, at most one advisory
/// error message (the most recent one), and the final display format.
#[derive(Debug)]
pub struct EvaluationResult {
    pub stack: Vec<i64>,
    pub error: Option<String>,
    pub format: DisplayFormat,
}

/// The mathematical reading of an optional error message.
pub open spec fn err_view(e: Option<String>) -> Option<Seq<char>> {
    match e {
        Some(s) => Some(s@),
        None => None,
    }
}

/// Assembles an evaluator state.
pub open spec fn state_of(stack: Seq<i64>, err: Option<Seq<char>>, fmt: DisplayFormat) -> EvalState {
    EvalState { stack, err, fmt }
}

impl View for EvaluationResult {
    type V = EvalState;

    open spec fn view(&self) -> EvalState {
        state_of(self.stack@, err_view(self.error), self.format)
    }
}

/// Whether every byte of the token is ASCII.
pub open spec fn all_ascii(s: Seq<u8>) -> bool {
    forall|i: int| 0 <= i < s.len() ==> s[i] < 128
}

/// ASCII bytes read as the characters they stand for.
pub open spec fn ascii_chars(s: Seq<u8>) -> Seq<char> {
    s.map_values(|b: u8| b as char)
}

/// The message recorded when `i` finds an empty stack.
pub open spec fn msg_iota_needs() -> Seq<char> {
    "i needs a number"@
}

/// The message recorded when a fold finds an empty stack.
pub open spec fn msg_fold_empty() -> Seq<char> {
    "/ needs a number"@
}

/// The message recorded when the suffix of `/` names no operator.
pub open spec fn msg_bad_fold_op() -> Seq<char> {
    "/<op>"@
}

/// The message recorded when a division has no result.
pub open spec fn msg_division() -> Seq<char> {
    "division undefined"@
}

/// The message recorded for a token with no meaning.
pub open spec fn msg_couldnt_parse(t: Seq<u8>) -> Seq<char> {
    "couldn't parse '"@ + ascii_chars(t) + "'"@
}

/// Whether the token is `0x` followed by a base-16 literal.
pub open spec fn is_hex_token(t: Seq<u8>) -> bool {
    t.len() >= 2 && t[0] == DIGIT_ZERO && t[1] == LOWER_X && is_int_token(t.skip(2), 16)
}

/// The ascending run `1..=count`, empty when the count is below one.
pub open spec fn iota_seq(count: i64) -> Seq<i64> {
    if count < 1 {
        Seq::empty()
    } else {
        Seq::new(count as nat, |q: int| (q + 1) as i64)
    }
}

/// Left-folds the operation over a sequence starting from an
/// accumulator; no result if any single application has none.
pub open spec fn spec_fold(op: BinOp, acc: i64, rest: Seq<i64>) -> Option<i64>
    decreases rest.len(),
{
    if rest.len() == 0 {
        Some(acc)
    } else {
        match spec_apply(op, acc, rest[0]) {
            Some(x) => spec_fold(op, x, rest.drop_first()),
            None => None,
        }
    }
}

/// The effect of one token on the evaluator state, in the order the
/// evaluator tries its cases: non-ASCII tokens are skipped, then hex
/// and decimal literals push, then the first character dispatches.
pub open spec fn spec_step(st: EvalState, t: Seq<u8>) -> EvalState {
    if !all_ascii(t) {
        st
    } else if is_hex_token(t) {
        state_of(
            st.stack.push(int_token_val(t.skip(2), 16) as i64),
            st.err,
            DisplayFormat::Hexadecimal,
        )
    } else if is_int_token(t, 10) {
        state_of(st.stack.push(int_token_val(t, 10) as i64), st.err, st.fmt)
    } else if t.len() == 0 {
        st
    } else if t[0] == LOWER_I {
        if st.stack.len() == 0 {
            state_of(st.stack, Some(msg_iota_needs()), st.fmt)
        } else {
            state_of(st.stack.drop_last() + iota_seq(st.stack.last()), st.err, st.fmt)
        }
    } else if t[0] == SLASH {
        match spec_operator(t.skip(1)) {
            Some(op) => {
                if st.stack.len() == 0 {
                    state_of(st.stack, Some(msg_fold_empty()), st.fmt)
                } else {
                    match spec_fold(op, st.stack[0], st.stack.drop_first()) {
                        Some(v) => state_of(seq![v], st.err, st.fmt),
                        None => state_of(st.stack, Some(msg_division()), st.fmt),
                    }
                }
            },
            None => state_of(st.stack, Some(msg_bad_fold_op()), st.fmt),
        }
    } else if t[0] == DOT {
        if t.skip(1) == seq![LOWER_H] {
            state_of(st.stack, st.err, DisplayFormat::Hexadecimal)
        } else if t.skip(1) == seq![LOWER_D] {
            state_of(st.stack, st.err, DisplayFormat::Decimal)
        } else {
            st
        }
    } else {
        match spec_operator(seq![t[0]]) {
            Some(op) => {
                if st.stack.len() >= 2 {
                    let a = st.stack.last();
                    let b = st.stack[st.stack.len() - 2];
                    match spec_apply(op, b, a) {
                        Some(v) => state_of(
                            st.stack.drop_last().drop_last().push(v),
                            st.err,
                            st.fmt,
                        ),
                        None => state_of(st.stack, Some(msg_division()), st.fmt),
                    }
                } else {
                    state_of(st.stack, Some(msg_couldnt_parse(t)), st.fmt)
                }
            },
            None => state_of(st.stack, Some(msg_couldnt_parse(t)), st.fmt),
        }
    }
}

/// The state every evaluation starts from: an empty stack, no error,
/// decimal format.
pub open spec fn init_state() -> EvalState {
    state_of(Seq::empty(), None, DisplayFormat::Decimal)
}

/// Folds `spec_step` over a token sequence from a starting state.
pub open spec fn spec_eval_from(st: EvalState, toks: Seq<Seq<u8>>) -> EvalState
    decreases toks.len(),
{
    if toks.len() == 0 {
        st
    } else {
        spec_eval_from(spec_step(st, toks[0]), toks.drop_first())
    }
}

/// The state after one whole pass over a token sequence.
pub open spec fn spec_eval(toks: Seq<Seq<u8>>) -> EvalState {
    spec_eval_from(init_state(), toks)
}

/// Whether every byte of the token is ASCII.
fn check_ascii(t: &[u8]) -> (r: bool)
    ensures
        r == all_ascii(t@),
{
    let n = t.len();
    let mut i: usize = 0;
    while i < n
        invariant
            0 <= i <= n,
            n == t@.len(),
            forall|j: int| 0 <= j < i ==> t@[j] < 128,
        decreases n - i,
    {
        if t[i] >= 128 {
            return false;
        }
        i = i + 1;
    }
    true
}

/// Relies on `String::from_utf8`: bytes that are all ASCII are valid
/// UTF-8, and the string it returns holds exactly those bytes, each
/// read as one character.
#[verifier::external_body]
fn ascii_string(bytes: &Vec<u8>) -> (r: String)
    requires
        all_ascii(bytes@),
    ensures
        r@ == ascii_chars(bytes@),
{
    String::from_utf8(bytes.clone()).unwrap_or_default()
}

/// Builds the message recorded for a token with no meaning.
fn couldnt_parse_message(tok: &Vec<u8>) -> (r: String)
    requires
        all_ascii(tok@),
    ensures
        r@ == msg_couldnt_parse(tok@),
{
    let mut s = String::from_str("couldn't parse '");
    let t = ascii_string(tok);
    s.append(t.as_str());
    s.append("'");
    proof {
        assert(s@ =~= msg_couldnt_parse(tok@));
    }
    s
}

/// Left-folds the operation over the whole stack, bottom to top.
fn fold_all(op: BinOp, stack: &Vec<i64>) -> (r: Option<i64>)
    requires
        stack@.len() > 0,
    ensures
        r == spec_fold(op, stack@[0], stack@.drop_first()),
{
    let mut acc = stack[0];
    let mut j: usize = 1;
    proof {
        assert(stack@.skip(1) =~= stack@.drop_first());
    }
    while j < stack.len()
        invariant
            1 <= j <= stack@.len(),
            spec_fold(op, stack@[0], stack@.drop_first()) == spec_fold(
                op,
                acc,
                stack@.skip(j as int),
            ),
        decreases stack@.len() - j,
    {
        match apply(op, acc, stack[j]) {
            Some(x) => {
                proof {
                    assert(stack@.skip(j as int).drop_first() =~= stack@.skip(j + 1));
                }
                acc = x;
            },
            None => {
                return None;
            },
        }
        j = j + 1;
    }
    proof {
        assert(stack@.skip(stack@.len() as int) =~= Seq::<i64>::empty());
    }
    Some(acc)
}

/// Applies one token's effect to the evaluator state, exactly as
/// `spec_step` describes.
pub fn eval_token(
    stack: &mut Vec<i64>,
    error: &mut Option<String>,
    format: &mut DisplayFormat,
    tok: &Vec<u8>,
)
    ensures
        state_of(final(stack)@, err_view(*final(error)), *final(format)) == spec_step(
            state_of(old(stack)@, err_view(*old(error)), *old(format)),
            tok@,
        ),
{
    let ghost st0 = state_of(stack@, err_view(*error), *format);
    let ghost t = tok@;
    // a token with a non-ASCII byte is skipped outright
    if !check_ascii(tok.as_slice()) {
        proof {
            assert(state_of(stack@, err_view(*error), *format) =~~= spec_step(st0, t));
        }
        return ;
    }
    // a hex literal pushes and switches the display format
    if tok.len() >= 2 && tok[0] == DIGIT_ZERO && tok[1] == LOWER_X {
        let s = tok.as_slice();
        let rest = &s[2..s.len()];
        proof {
            assert(rest@ =~= t.skip(2));
        }
        match parse_int(rest, 16) {
            Some(v) => {
                stack.push(v);
                *format = DisplayFormat::Hexadecimal;
                proof {
                    assert(is_hex_token(t));
                    assert(state_of(stack@, err_view(*error), *format) =~~= spec_step(st0, t));
                }
                return ;
            },
            None => {
                proof {
                    assert(!is_hex_token(t));
                }
            },
        }
    }
    // a decimal literal pushes
    match parse_int(tok.as_slice(), 10) {
        Some(v) => {
            stack.push(v);
            proof {
                assert(state_of(stack@, err_view(*error), *format) =~~= spec_step(st0, t));
            }
            return ;
        },
        None => {},
    }
    // the tokenizer never yields an empty token, but the evaluator is total
    if tok.len() == 0 {
        proof {
            assert(state_of(stack@, err_view(*error), *format) =~~= spec_step(st0, t));
        }
        return ;
    }
    let head = tok[0];
    // iota: pop a count, push the run 1..=count
    if head == LOWER_I {
        match stack.pop() {
            None => {
                *error = Some(String::from_str("i needs a number"));
                proof {
                    assert(state_of(stack@, err_view(*error), *format) =~~= spec_step(st0, t));
                }
            },
            Some(count) => {
                let ghost base = stack@;
                let mut pushed: i64 = 0;
                proof {
                    assert(stack@ =~= base + Seq::new(0nat, |q: int| (q + 1) as i64));
                }
                while pushed < count
                    invariant
                        0 <= pushed,
                        pushed <= (if count > 0 {
                            count as int
                        } else {
                            0
                        }),
                        stack@ == base + Seq::new(pushed as nat, |q: int| (q + 1) as i64),
                    decreases count - pushed,
                {
                    pushed = pushed + 1;
                    stack.push(pushed);
                    proof {
                        assert(stack@ =~= base + Seq::new(pushed as nat, |q: int| (q + 1) as i64));
                    }
                }
                proof {
                    assert(stack@ =~= base + iota_seq(count));
                    assert(state_of(stack@, err_view(*error), *format) =~~= spec_step(st0, t));
                }
            },
        }
        return ;
    }
    // fold: the token's suffix names the operator
    if head == SLASH {
        let s = tok.as_slice();
        let rest = &s[1..s.len()];
        proof {
            assert(rest@ =~= t.skip(1));
        }
        match operator(rest) {
            Some(op) => {
                if stack.len() == 0 {
                    *error = Some(String::from_str("/ needs a number"));
                    proof {
                        assert(state_of(stack@, err_view(*error), *format) =~~= spec_step(st0, t));
                    }
                    return ;
                }
                match fold_all(op, stack) {
                    Some(v) => {
                        stack.clear();
                        stack.push(v);
                        proof {
                            assert(stack@ =~= seq![v]);
                            assert(state_of(stack@, err_view(*error), *format) =~~= spec_step(
                                st0,
                                t,
                            ));
                        }
                    },
                    None => {
                        *error = Some(String::from_str("division undefined"));
                        proof {
                            assert(state_of(stack@, err_view(*error), *format) =~~= spec_step(
                                st0,
                                t,
                            ));
                        }
                    },
                }
            },
            None => {
                *error = Some(String::from_str("/<op>"));
                proof {
                    assert(state_of(stack@, err_view(*error), *format) =~~= spec_step(st0, t));
                }
            },
        }
        return ;
    }
    // mode directive: `.h` and `.d` pick the format, anything else is a no-op
    if head == DOT {
        if tok.len() == 2 && tok[1] == LOWER_H {
            *format = DisplayFormat::Hexadecimal;
            proof {
                assert(t.skip(1) =~= seq![LOWER_H]);
                assert(state_of(stack@, err_view(*error), *format) =~~= spec_step(st0, t));
            }
        } else if tok.len() == 2 && tok[1] == LOWER_D {
            *format = DisplayFormat::Decimal;
            proof {
                assert(t.skip(1) =~= seq![LOWER_D]);
                assert(state_of(stack@, err_view(*error), *format) =~~= spec_step(st0, t));
            }
        } else {
            proof {
                assert(t.skip(1).len() == t.len() - 1);
                assert(t.len() == 2 ==> t.skip(1)[0] == t[1]);
                assert(t.skip(1) != seq![LOWER_H]);
                assert(t.skip(1) != seq![LOWER_D]);
                assert(state_of(stack@, err_view(*error), *format) =~~= spec_step(st0, t));
            }
        }
        return ;
    }
    // a registry symbol with two operands applies second-from-top op top
    let s = tok.as_slice();
    let head_sym = &s[0..1];
    proof {
        assert(head_sym@ =~= seq![t[0]]);
    }
    if let Some(op) = operator(head_sym) {
        if stack.len() >= 2 {
            let a = stack[stack.len() - 1];
            let b = stack[stack.len() - 2];
            match apply(op, b, a) {
                Some(v) => {
                    stack.pop();
                    stack.pop();
                    stack.push(v);
                    proof {
                        assert(stack@ =~= st0.stack.drop_last().drop_last().push(v));
                        assert(state_of(stack@, err_view(*error), *format) =~~= spec_step(st0, t));
                    }
                },
                None => {
                    *error = Some(String::from_str("division undefined"));
                    proof {
                        assert(state_of(stack@, err_view(*error), *format) =~~= spec_step(st0, t));
                    }
                },
            }
            return ;
        }
    }
    // no meaning at all: record the advisory error
    let msg = couldnt_parse_message(tok);
    *error = Some(msg);
    proof {
        assert(state_of(stack@, err_view(*error), *format) =~~= spec_step(st0, t));
    }
}

/// Evaluates a whole token sequence from the initial state.
pub fn eval_tokens(tokens: &Vec<Vec<u8>>) -> (r: EvaluationResult)
    ensures
        r@ == spec_eval(tokens.deep_view()),
{
    let ghost toks = tokens.deep_view();
    let mut stack: Vec<i64> = Vec::new();
    let mut error: Option<String> = None;
    let mut format = DisplayFormat::Decimal;
    let n = tokens.len();
    proof {
        assert(stack@ =~= Seq::<i64>::empty());
        assert(toks.skip(0) =~= toks);
    }
    let mut k: usize = 0;
    while k < n
        invariant
            0 <= k <= n,
            n == tokens@.len(),
            toks == tokens.deep_view(),
            spec_eval(toks) == spec_eval_from(
                state_of(stack@, err_view(error), format),
                toks.skip(k as int),
            ),
        decreases n - k,
    {
        proof {
            assert(tokens@[k as int].deep_view() =~= tokens@[k as int]@);
            assert(toks.skip(k as int)[0] == toks[k as int]);
            assert(toks.skip(k as int).drop_first() =~= toks.skip(k as int + 1));
        }
        eval_token(&mut stack, &mut error, &mut format, &tokens[k]);
        k = k + 1;
    }
    proof {
        assert(toks.skip(n as int) =~= Seq::<Seq<u8>>::empty());
    }
    EvaluationResult { stack, error, format }
}

/// Evaluates one input string: tokenize, then one pass of the stack
/// evaluator.  The whole pipeline is a pure function of the input.
pub fn evaluate(input: &str) -> (r: EvaluationResult)
    ensures
        r@ == spec_eval(spec_tokens(input.spec_bytes())),
{
    let bytes = input.as_bytes();
    let toks = tokenize(bytes);
    eval_tokens(&toks)
}

impl EvaluationResult {
    /// Renders the final stack under the final display format.
    pub fn render(&self) -> (r: String)
        ensures
            r@ == crate::render::spec_render(self@.fmt, self@.stack),
    {
        crate::render::render_stack(self.format, &self.stack)
    }
}

} // verus!
