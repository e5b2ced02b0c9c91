//! The tokenizer: an input byte string splits on runs of ASCII
//! whitespace into an ordered sequence of non-empty tokens.

use vstd::prelude::*;

use crate::ascii::{CARRIAGE_RETURN, FORM_FEED, LINE_FEED, SPACE, TAB};

verus! {

/// Whether a byte is ASCII whitespace: space, tab, line feed, form
/// feed or carriage return.
pub open spec fn is_space(b: u8) -> bool {
    b == SPACE || b == TAB || b == LINE_FEED || b == FORM_FEED || b == CARRIAGE_RETURN
}

/// The length of the leading run of non-whitespace bytes.
pub open spec fn head_len(s: Seq<u8>) -> int
    decreases s.len(),
{
    if s.len() == 0 || is_space(s[0]) {
        0
    } else {
        1 + head_len(s.drop_first())
    }
}

/// The leading run never runs past the end of the string, and is
/// non-empty exactly when the string starts with a non-space byte.
pub proof fn lemma_head_len_bounds(s: Seq<u8>)
    ensures
        0 <= head_len(s) <= s.len(),
        s.len() > 0 && !is_space(s[0]) ==> head_len(s) >= 1,
    decreases s.len(),
{
    if s.len() > 0 && !is_space(s[0]) {
        lemma_head_len_bounds(s.drop_first());
    }
}

/// The tokens of an input string: its maximal runs of non-whitespace
/// bytes, in their original left-to-right order.
pub open spec fn spec_tokens(s: Seq<u8>) -> Seq<Seq<u8>>
    decreases s.len(),
    via spec_tokens_decreases
{
    if s.len() == 0 {
        Seq::empty()
    } else if is_space(s[0]) {
        spec_tokens(s.drop_first())
    } else {
        seq![s.take(head_len(s))] + spec_tokens(s.skip(head_len(s)))
    }
}

#[via_fn]
proof fn spec_tokens_decreases(s: Seq<u8>) {
    lemma_head_len_bounds(s);
}

/// Pins the leading run down: if the first `k` bytes are non-space and
/// byte `k` is a space or the end, the leading run has length `k`.
pub proof fn lemma_head_len_is(s: Seq<u8>, k: int)
    requires
        0 <= k <= s.len(),
        forall|j: int| 0 <= j < k ==> !is_space(s[j]),
        k == s.len() || is_space(s[k]),
    ensures
        head_len(s) == k,
    decreases s.len(),
{
    if k > 0 {
        lemma_head_len_is(s.drop_first(), k - 1);
    }
}

/// Whether a byte is ASCII whitespace.
pub fn byte_is_space(b: u8) -> (r: bool)
    ensures
        r == is_space(b),
{
    b == SPACE || b == TAB || b == LINE_FEED || b == FORM_FEED || b == CARRIAGE_RETURN
}

/// Splits the input into its whitespace-separated tokens.
pub fn tokenize(input: &[u8]) -> (r: Vec<Vec<u8>>)
    ensures
        r.deep_view() == spec_tokens(input@),
{
    let n = input.len();
    let mut r: Vec<Vec<u8>> = Vec::new();
    let mut i: usize = 0;
    proof {
        assert(input@.skip(0) =~= input@);
        assert(r.deep_view() =~~= Seq::<Seq<u8>>::empty());
        assert(Seq::<Seq<u8>>::empty() + spec_tokens(input@) =~= spec_tokens(input@));
    }
    while i < n
        invariant
            0 <= i <= n,
            n == input@.len(),
            spec_tokens(input@) == r.deep_view() + spec_tokens(input@.skip(i as int)),
        decreases n - i,
    {
        if byte_is_space(input[i]) {
            proof {
                assert(input@.skip(i as int).drop_first() =~= input@.skip(i + 1));
            }
            i = i + 1;
        } else {
            let start = i;
            let mut tok: Vec<u8> = Vec::new();
            while i < n && !byte_is_space(input[i])
                invariant
                    start <= i <= n,
                    n == input@.len(),
                    tok@ == input@.subrange(start as int, i as int),
                    forall|j: int| start <= j < i ==> !is_space(input@[j]),
                    !is_space(input@[start as int]),
                decreases n - i,
            {
                tok.push(input[i]);
                proof {
                    assert(tok@ =~= input@.subrange(start as int, i + 1));
                }
                i = i + 1;
            }
            proof {
                let suffix = input@.skip(start as int);
                lemma_head_len_is(suffix, i - start);
                assert(suffix.take(i - start) =~= input@.subrange(start as int, i as int));
                assert(suffix.skip(i - start) =~= input@.skip(i as int));
                assert(spec_tokens(suffix) == seq![tok@] + spec_tokens(input@.skip(i as int)));
            }
            let ghost old_r = r.deep_view();
            r.push(tok);
            proof {
                assert(r.deep_view() =~~= old_r + seq![tok@]);
                assert(old_r + (seq![tok@] + spec_tokens(input@.skip(i as int))) =~= (old_r
                    + seq![tok@]) + spec_tokens(input@.skip(i as int)));
            }
        }
    }
    proof {
        assert(input@.skip(n as int) =~= Seq::<u8>::empty());
        assert(r.deep_view() =~= r.deep_view() + spec_tokens(input@.skip(n as int)));
    }
    r
}

} // verus!
