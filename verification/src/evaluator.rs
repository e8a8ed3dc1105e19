//! The evaluator: consumes a token sequence and produces an ordered sequence
//! of output fragments, tracking array-index annotations.
//!
//! The evaluator keeps a transient state per call: an accumulating expression
//! buffer, an accumulating list of array indices, and an optional pending
//! index.  A `Variable` token whose text has the shape `base[digits]` records
//! the index as pending and appends the base; any other `Variable` token and
//! any `PlainText` token append their text verbatim.  Brace markers flush the
//! buffer as one output fragment; bracket markers append the literal bracket
//! character, and a closing bracket moves a pending index into the index
//! list.  After the last token, a non-empty buffer is flushed, and when any
//! index was recorded one synthetic trailing fragment `[i1,i2,...]` is
//! appended.
//!
//! Variable tokens deliberately echo their literal name: the variable table
//! is accepted as an argument so that a caller can hand the evaluator a
//! consistent snapshot, but it is not consulted for resolution, and the
//! output contains the name text itself.

use vstd::prelude::*;

use crate::index::{array_base, array_index, is_array_access, split_array_access};
use crate::numeral::{dec_digits, usize_to_decimal};
use crate::token::{SpecToken, Token};
use crate::vartable::VariableTable;

verus! {

/// The evaluator's transient state: fragments already produced, the
/// expression buffer (its text, and whether anything was appended to it), the
/// recorded array indices, and the pending index.
#[verifier::ext_equal]
pub ghost struct EvalState {
    pub frags: Seq<Seq<char>>,
    pub buf: Seq<char>,
    pub buf_any: bool,
    pub indices: Seq<usize>,
    pub pending: Option<usize>,
}

/// The state an evaluation call starts from: nothing produced, nothing
/// buffered, no indices.
pub open spec fn init_state() -> EvalState {
    EvalState {
        frags: Seq::empty(),
        buf: Seq::empty(),
        buf_any: false,
        indices: Seq::empty(),
        pending: None,
    }
}

/// Appends `t` to the expression buffer.
pub open spec fn push_text(st: EvalState, t: Seq<char>) -> EvalState {
    EvalState { buf: st.buf + t, buf_any: true, ..st }
}

/// Flushes the expression buffer as one output fragment.
pub open spec fn flush_buf(st: EvalState) -> EvalState {
    EvalState { frags: st.frags.push(st.buf), buf: Seq::empty(), buf_any: false, ..st }
}

/// One token's effect on the evaluation state.
pub open spec fn step(st: EvalState, t: SpecToken) -> EvalState {
    match t {
        SpecToken::Variable(name) => if is_array_access(name) {
            EvalState { pending: Some(array_index(name)), ..push_text(st, array_base(name)) }
        } else {
            push_text(st, name)
        },
        SpecToken::PlainText(s) => push_text(st, s),
        SpecToken::BraceOpen => flush_buf(st),
        SpecToken::BraceClose => if st.buf_any {
            flush_buf(st)
        } else {
            st
        },
        SpecToken::BracketOpen => EvalState { pending: None, ..push_text(st, seq!['[']) },
        SpecToken::BracketClose => {
            let with_index = match st.pending {
                Some(ix) => EvalState { indices: st.indices.push(ix), ..st },
                None => st,
            };
            EvalState { pending: None, ..push_text(with_index, seq![']']) }
        },
    }
}

/// The state after all of `ts`, starting from `st`.
pub open spec fn run(ts: Seq<SpecToken>, st: EvalState) -> EvalState
    decreases ts.len(),
{
    if ts.len() == 0 {
        st
    } else {
        run(ts.drop_first(), step(st, ts[0]))
    }
}

/// The decimal numerals of `ix`, joined with commas.
pub open spec fn join_commas(ix: Seq<usize>) -> Seq<char>
    decreases ix.len(),
{
    if ix.len() == 0 {
        Seq::empty()
    } else if ix.len() == 1 {
        dec_digits(ix[0] as nat)
    } else {
        join_commas(ix.drop_last()) + seq![','] + dec_digits(ix.last() as nat)
    }
}

/// The synthetic trailing fragment reporting the recorded indices.
pub open spec fn indices_fragment(ix: Seq<usize>) -> Seq<char> {
    seq!['['] + join_commas(ix) + seq![']']
}

/// The fragments owed once the tokens are exhausted: a non-empty buffer is
/// flushed, and the trailing index fragment is appended when any index was
/// recorded.
pub open spec fn finish(st: EvalState) -> Seq<Seq<char>> {
    let flushed = if st.buf_any {
        st.frags.push(st.buf)
    } else {
        st.frags
    };
    if st.indices.len() > 0 {
        flushed.push(indices_fragment(st.indices))
    } else {
        flushed
    }
}

/// The fragment sequence that evaluating `ts` produces.
pub open spec fn eval(ts: Seq<SpecToken>) -> Seq<Seq<char>> {
    finish(run(ts, init_state()))
}

/// Running one more token steps the state once.
pub proof fn lemma_run_snoc(ts: Seq<SpecToken>, t: SpecToken, st: EvalState)
    ensures
        run(ts.push(t), st) == step(run(ts, st), t),
    decreases ts.len(),
{
    if ts.len() == 0 {
        assert(ts.push(t)[0] == t);
        assert(ts.push(t).drop_first() =~= Seq::<SpecToken>::empty());
        assert(run(ts.push(t), st) == run(ts.push(t).drop_first(), step(st, ts.push(t)[0])));
        assert(run(ts.push(t), st) == step(st, t));
        assert(run(ts, st) == st);
    } else {
        assert(ts.push(t)[0] == ts[0]);
        assert(ts.push(t).drop_first() =~= ts.drop_first().push(t));
        lemma_run_snoc(ts.drop_first(), t, step(st, ts[0]));
    }
}

/// Renders the recorded indices as `[i1,i2,...]`.
fn render_indices(ix: &Vec<usize>) -> (s: String)
    ensures
        s@ == indices_fragment(ix@),
{
    let ghost iv = ix@;
    let mut out = String::new();
    out.push('[');
    proof {
        assert(out@ =~= seq!['['] + join_commas(iv.take(0)));
    }
    let n = ix.len();
    let mut j: usize = 0;
    while j < n
        invariant
            j <= n,
            n == iv.len(),
            iv == ix@,
            out@ == seq!['['] + join_commas(iv.take(j as int)),
        decreases n - j,
    {
        if j > 0 {
            out.push(',');
        }
        let ds = usize_to_decimal(ix[j]);
        out.append(ds.as_str());
        proof {
            assert(iv.take(j as int + 1).drop_last() =~= iv.take(j as int));
            assert(iv.take(j as int + 1).last() == iv[j as int]);
            if j == 0 {
                assert(out@ =~= seq!['['] + join_commas(iv.take(1)));
            } else {
                assert(out@ =~= seq!['['] + join_commas(iv.take(j as int + 1)));
            }
        }
        j += 1;
    }
    out.push(']');
    proof {
        assert(iv.take(n as int) =~= iv);
        assert(out@ =~= indices_fragment(iv));
    }
    out
}

/// Evaluates `tokens` into output fragments, per [`eval`].
///
/// The variable table is accepted for the caller's snapshot discipline but
/// not consulted: variable tokens echo their literal name (see the module
/// documentation).  Total: any token sequence, however malformed, yields a
/// fragment sequence.
pub fn evaluate_tokens(tokens: &Vec<Token>, _variables: &VariableTable) -> (r: Vec<String>)
    ensures
        r.deep_view() == eval(tokens.deep_view()),
{
    let ghost tv = tokens.deep_view();
    let mut result: Vec<String> = Vec::new();
    let mut buf = String::new();
    let mut buf_any = false;
    let mut indices: Vec<usize> = Vec::new();
    let mut pending: Option<usize> = None;
    let ghost mut st = init_state();

    proof {
        assert(result.deep_view() =~= Seq::<Seq<char>>::empty());
        assert(tv.take(0) =~= Seq::<SpecToken>::empty());
        assert(st =~= run(tv.take(0), init_state()));
    }

    let n = tokens.len();
    let mut i: usize = 0;
    while i < n
        invariant
            i <= n,
            n == tokens.len(),
            tv == tokens.deep_view(),
            st == run(tv.take(i as int), init_state()),
            result.deep_view() == st.frags,
            buf@ == st.buf,
            buf_any == st.buf_any,
            indices@ == st.indices,
            pending == st.pending,
        decreases n - i,
    {
        let ghost pre = st;
        proof {
            assert(tv.take(i as int + 1) =~= tv.take(i as int).push(tv[i as int]));
            lemma_run_snoc(tv.take(i as int), tv[i as int], init_state());
            st = step(pre, tv[i as int]);
        }
        let t = &tokens[i];
        proof {
            assert(t@ == tv[i as int]);
        }
        match t {
            Token::Variable(name) => {
                match split_array_access(name.as_str()) {
                    Some(pair) => {
                        buf.append(pair.0.as_str());
                        buf_any = true;
                        pending = Some(pair.1);
                    },
                    None => {
                        buf.append(name.as_str());
                        buf_any = true;
                    },
                }
            },
            Token::PlainText(s) => {
                buf.append(s.as_str());
                buf_any = true;
            },
            Token::BraceOpen => {
                let ghost fpre = result.deep_view();
                let ghost bpre = buf@;
                result.push(buf);
                buf = String::new();
                buf_any = false;
                proof {
                    assert(result.deep_view() =~= fpre.push(bpre));
                }
            },
            Token::BraceClose => {
                if buf_any {
                    let ghost fpre = result.deep_view();
                    let ghost bpre = buf@;
                    result.push(buf);
                    buf = String::new();
                    buf_any = false;
                    proof {
                        assert(result.deep_view() =~= fpre.push(bpre));
                    }
                }
            },
            Token::BracketOpen => {
                pending = None;
                buf.push('[');
                buf_any = true;
                proof {
                    assert(buf@ =~= pre.buf + seq!['[']);
                }
            },
            Token::BracketClose => {
                if let Some(ix) = pending {
                    indices.push(ix);
                }
                buf.push(']');
                buf_any = true;
                pending = None;
                proof {
                    assert(buf@ =~= pre.buf + seq![']']);
                }
            },
        }
        i += 1;
    }
    proof {
        assert(tv.take(n as int) =~= tv);
    }
    if buf_any {
        let ghost fpre = result.deep_view();
        let ghost bpre = buf@;
        result.push(buf);
        proof {
            assert(result.deep_view() =~= fpre.push(bpre));
        }
    }
    if indices.len() > 0 {
        let ghost fpre = result.deep_view();
        let frag = render_indices(&indices);
        let ghost fv = frag@;
        result.push(frag);
        proof {
            assert(result.deep_view() =~= fpre.push(fv));
        }
    }
    result
}

/// The concatenation of all fragments, in order, with no separator.
pub open spec fn concat_frags(fs: Seq<Seq<char>>) -> Seq<char>
    decreases fs.len(),
{
    if fs.len() == 0 {
        Seq::empty()
    } else {
        concat_frags(fs.drop_last()) + fs.last()
    }
}

/// Joins the fragments into the final display string, per [`concat_frags`].
pub fn join_fragments(frags: &Vec<String>) -> (r: String)
    ensures
        r@ == concat_frags(frags.deep_view()),
{
    let ghost fv = frags.deep_view();
    let mut out = String::new();
    proof {
        assert(out@ =~= concat_frags(fv.take(0)));
    }
    let n = frags.len();
    let mut i: usize = 0;
    while i < n
        invariant
            i <= n,
            n == frags.len(),
            fv == frags.deep_view(),
            out@ == concat_frags(fv.take(i as int)),
        decreases n - i,
    {
        out.append(frags[i].as_str());
        proof {
            assert(fv.take(i as int + 1).drop_last() =~= fv.take(i as int));
            assert(fv.take(i as int + 1).last() == fv[i as int]);
            assert(fv[i as int] == frags@[i as int]@);
        }
        i += 1;
    }
    proof {
        assert(fv.take(n as int) =~= fv);
    }
    out
}

} // verus!
