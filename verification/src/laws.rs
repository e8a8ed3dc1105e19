//! The engine's general laws, stated over the spec-level model and proved
//! once and for all.

use vstd::prelude::*;

use crate::evaluator::{concat_frags, eval, finish, init_state, run, step, EvalState};
use crate::lexer::{flush, lex, lex_from};
use crate::token::SpecToken;

verus! {

/// Whether `c` is one of the four bracket characters the lexer reacts to.
pub open spec fn is_bracket_char(c: char) -> bool {
    c == '{' || c == '}' || c == '[' || c == ']'
}

/// A suffix free of bracket characters only grows the pending word.
proof fn lemma_lex_plain_suffix(s: Seq<char>, i: int, w: Seq<char>)
    requires
        0 <= i <= s.len(),
        forall|j: int| i <= j < s.len() ==> !is_bracket_char(#[trigger] s[j]),
    ensures
        lex_from(s, i, w, false) == flush(w + s.skip(i), false),
    decreases s.len() - i,
{
    if i == s.len() {
        assert(w + s.skip(i) =~= w);
    } else {
        lemma_lex_plain_suffix(s, i + 1, w.push(s[i]));
        assert(w.push(s[i]) + s.skip(i + 1) =~= w + s.skip(i));
    }
}

/// Text with no bracket characters lexes to a single plain-text token
/// carrying the text itself, and evaluating that one token yields the text
/// back as the only fragment.  (The empty string is the one exception: it
/// lexes to no token at all, since no flushed token carries empty text.)
pub proof fn lemma_plain_input(s: Seq<char>)
    requires
        s.len() > 0,
        forall|i: int| 0 <= i < s.len() ==> !is_bracket_char(#[trigger] s[i]),
    ensures
        lex(s) == seq![SpecToken::PlainText(s)],
        eval(seq![SpecToken::PlainText(s)]) == seq![s],
{
    lemma_lex_plain_suffix(s, 0, Seq::empty());
    assert(Seq::<char>::empty() + s.skip(0) =~= s);

    let ts = seq![SpecToken::PlainText(s)];
    assert(ts.drop_first() =~= Seq::<SpecToken>::empty());
    let st = step(init_state(), ts[0]);
    assert(run(ts.drop_first(), st) == st);
    assert(run(ts, init_state()) == run(ts.drop_first(), step(init_state(), ts[0])));
    assert(st.buf =~= s);
    assert(eval(ts) =~= seq![s]);
}

/// Evaluating the empty token sequence yields no fragments.
pub proof fn lemma_evaluate_empty()
    ensures
        eval(Seq::<SpecToken>::empty()) == Seq::<Seq<char>>::empty(),
{
    assert(run(Seq::<SpecToken>::empty(), init_state()) == init_state());
    assert(eval(Seq::<SpecToken>::empty()) =~= Seq::<Seq<char>>::empty());
}

/// Whether every token of `ts` is plain text.
pub open spec fn all_plain(ts: Seq<SpecToken>) -> bool {
    forall|i: int| 0 <= i < ts.len() ==> (#[trigger] ts[i]) is PlainText
}

/// The concatenation of the payloads of the plain-text tokens of `ts`, in
/// order.
pub open spec fn payload_concat(ts: Seq<SpecToken>) -> Seq<char>
    decreases ts.len(),
{
    if ts.len() == 0 {
        Seq::empty()
    } else {
        let rest = payload_concat(ts.drop_first());
        match ts[0] {
            SpecToken::PlainText(p) => p + rest,
            _ => rest,
        }
    }
}

/// Plain-text tokens only grow the buffer, so the joined output is the
/// joined state plus the joined payloads.
proof fn lemma_run_plain(ts: Seq<SpecToken>, st: EvalState)
    requires
        all_plain(ts),
        st.indices.len() == 0,
        !st.buf_any ==> st.buf.len() == 0,
    ensures
        concat_frags(finish(run(ts, st))) == concat_frags(st.frags) + st.buf + payload_concat(ts),
    decreases ts.len(),
{
    if ts.len() == 0 {
        if st.buf_any {
            assert(st.frags.push(st.buf).drop_last() =~= st.frags);
            assert(concat_frags(finish(st)) =~= concat_frags(st.frags) + st.buf + payload_concat(
                ts,
            ));
        } else {
            assert(concat_frags(st.frags) + st.buf + payload_concat(ts) =~= concat_frags(
                st.frags,
            ));
        }
    } else {
        assert(ts[0] is PlainText);
        let p = ts[0]->PlainText_0;
        let st2 = step(st, ts[0]);
        lemma_run_plain(ts.drop_first(), st2);
        assert(concat_frags(st.frags) + (st.buf + p) + payload_concat(ts.drop_first())
            =~= concat_frags(st.frags) + st.buf + payload_concat(ts));
    }
}

/// Whether every content token of `ts` carries non-empty text.
pub open spec fn no_empty_payload(ts: Seq<SpecToken>) -> bool {
    forall|i: int|
        0 <= i < ts.len() ==> match #[trigger] ts[i] {
            SpecToken::Variable(p) => p.len() > 0,
            SpecToken::PlainText(p) => p.len() > 0,
            _ => true,
        }
}

proof fn lemma_no_empty_payload_concat(a: Seq<SpecToken>, b: Seq<SpecToken>)
    requires
        no_empty_payload(a),
        no_empty_payload(b),
    ensures
        no_empty_payload(a + b),
{
    assert forall|i: int| 0 <= i < (a + b).len() implies match #[trigger] (a + b)[i] {
        SpecToken::Variable(p) => p.len() > 0,
        SpecToken::PlainText(p) => p.len() > 0,
        _ => true,
    } by {
        if i < a.len() {
            assert((a + b)[i] == a[i]);
        } else {
            assert((a + b)[i] == b[i - a.len()]);
        }
    }
}

proof fn lemma_lex_from_no_empty(s: Seq<char>, i: int, w: Seq<char>, ins: bool)
    requires
        0 <= i <= s.len(),
    ensures
        no_empty_payload(lex_from(s, i, w, ins)),
    decreases s.len() - i,
{
    assert(no_empty_payload(flush(w, ins)));
    assert(no_empty_payload(flush(w, false)));
    if i < s.len() {
        if s[i] == '{' {
            lemma_lex_from_no_empty(s, i + 1, Seq::empty(), true);
            lemma_no_empty_payload_concat(flush(w, ins), lex_from(s, i + 1, Seq::empty(), true));
        } else if s[i] == '}' {
            lemma_lex_from_no_empty(s, i + 1, Seq::empty(), false);
            assert(no_empty_payload(seq![SpecToken::BraceClose]));
            lemma_no_empty_payload_concat(flush(w, ins), seq![SpecToken::BraceClose]);
            lemma_no_empty_payload_concat(
                flush(w, ins) + seq![SpecToken::BraceClose],
                lex_from(s, i + 1, Seq::empty(), false),
            );
        } else if s[i] == '[' {
            lemma_lex_from_no_empty(s, i + 1, Seq::empty(), ins);
            assert(no_empty_payload(seq![SpecToken::BracketOpen]));
            lemma_no_empty_payload_concat(flush(w, false), seq![SpecToken::BracketOpen]);
            lemma_no_empty_payload_concat(
                flush(w, false) + seq![SpecToken::BracketOpen],
                lex_from(s, i + 1, Seq::empty(), ins),
            );
        } else if s[i] == ']' {
            lemma_lex_from_no_empty(s, i + 1, Seq::empty(), ins);
            assert(no_empty_payload(seq![SpecToken::BracketClose]));
            lemma_no_empty_payload_concat(flush(w, false), seq![SpecToken::BracketClose]);
            lemma_no_empty_payload_concat(
                flush(w, false) + seq![SpecToken::BracketClose],
                lex_from(s, i + 1, Seq::empty(), ins),
            );
        } else {
            lemma_lex_from_no_empty(s, i + 1, w.push(s[i]), ins);
        }
    }
}

/// Output guarantee of the lexer: no `Variable` or `PlainText` token it
/// produces carries empty text; only structural markers may stand with no
/// adjacent content.
pub proof fn lemma_lex_no_empty_payload(s: Seq<char>)
    ensures
        no_empty_payload(lex(s)),
{
    lemma_lex_from_no_empty(s, 0, Seq::empty(), false);
}

/// The text a token stands for: its payload for a content token, its marker
/// character for a structural one.
pub open spec fn token_text(t: SpecToken) -> Seq<char> {
    match t {
        SpecToken::Variable(p) => p,
        SpecToken::PlainText(p) => p,
        SpecToken::BraceOpen => seq!['{'],
        SpecToken::BraceClose => seq!['}'],
        SpecToken::BracketOpen => seq!['['],
        SpecToken::BracketClose => seq![']'],
    }
}

/// The concatenation of the texts of all tokens, in order.
pub open spec fn tokens_text(ts: Seq<SpecToken>) -> Seq<char>
    decreases ts.len(),
{
    if ts.len() == 0 {
        Seq::empty()
    } else {
        token_text(ts[0]) + tokens_text(ts.drop_first())
    }
}

/// `s` with every `{` removed.
pub open spec fn drop_open_braces(s: Seq<char>) -> Seq<char>
    decreases s.len(),
{
    if s.len() == 0 {
        Seq::empty()
    } else if s[0] == '{' {
        drop_open_braces(s.drop_first())
    } else {
        seq![s[0]] + drop_open_braces(s.drop_first())
    }
}

proof fn lemma_tokens_text_single(t: SpecToken)
    ensures
        tokens_text(seq![t]) == token_text(t),
{
    let ts = seq![t];
    assert(ts[0] == t);
    assert(ts.drop_first() =~= Seq::<SpecToken>::empty());
    assert(tokens_text(Seq::<SpecToken>::empty()) == Seq::<char>::empty());
    assert(tokens_text(ts) == token_text(ts[0]) + tokens_text(ts.drop_first()));
    assert(token_text(t) + Seq::<char>::empty() =~= token_text(t));
}

proof fn lemma_tokens_text_concat(a: Seq<SpecToken>, b: Seq<SpecToken>)
    ensures
        tokens_text(a + b) == tokens_text(a) + tokens_text(b),
    decreases a.len(),
{
    if a.len() == 0 {
        assert(a + b =~= b);
        assert(tokens_text(a) + tokens_text(b) =~= tokens_text(b));
    } else {
        assert((a + b).drop_first() =~= a.drop_first() + b);
        assert((a + b)[0] == a[0]);
        lemma_tokens_text_concat(a.drop_first(), b);
        assert(token_text(a[0]) + (tokens_text(a.drop_first()) + tokens_text(b)) =~= (token_text(
            a[0],
        ) + tokens_text(a.drop_first())) + tokens_text(b));
    }
}

proof fn lemma_tokens_text_flush(w: Seq<char>, ins: bool)
    ensures
        tokens_text(flush(w, ins)) == w,
{
    if w.len() == 0 {
        assert(tokens_text(flush(w, ins)) =~= w);
    } else {
        let ts = flush(w, ins);
        assert(ts.drop_first() =~= Seq::<SpecToken>::empty());
        assert(tokens_text(ts) == token_text(ts[0]) + tokens_text(ts.drop_first()));
        assert(w + Seq::<char>::empty() =~= w);
    }
}

proof fn lemma_reconstruct_from(s: Seq<char>, i: int, w: Seq<char>, ins: bool)
    requires
        0 <= i <= s.len(),
    ensures
        tokens_text(lex_from(s, i, w, ins)) == w + drop_open_braces(s.skip(i)),
    decreases s.len() - i,
{
    if i == s.len() {
        assert(s.skip(i) =~= Seq::<char>::empty());
        lemma_tokens_text_flush(w, ins);
        assert(w + Seq::<char>::empty() =~= w);
    } else {
        assert(s.skip(i).drop_first() =~= s.skip(i + 1));
        assert(s.skip(i)[0] == s[i]);
        if s[i] == '{' {
            lemma_reconstruct_from(s, i + 1, Seq::empty(), true);
            lemma_tokens_text_concat(flush(w, ins), lex_from(s, i + 1, Seq::empty(), true));
            lemma_tokens_text_flush(w, ins);
            assert(w + (Seq::<char>::empty() + drop_open_braces(s.skip(i + 1))) =~= w
                + drop_open_braces(s.skip(i)));
        } else if s[i] == '}' {
            lemma_reconstruct_from(s, i + 1, Seq::empty(), false);
            let marker = seq![SpecToken::BraceClose];
            let rest = lex_from(s, i + 1, Seq::empty(), false);
            lemma_tokens_text_concat(flush(w, ins) + marker, rest);
            lemma_tokens_text_concat(flush(w, ins), marker);
            lemma_tokens_text_flush(w, ins);
            lemma_tokens_text_single(SpecToken::BraceClose);
            assert(tokens_text(marker) =~= seq!['}']);
            assert((w + seq!['}']) + (Seq::<char>::empty() + drop_open_braces(s.skip(i + 1))) =~= w
                + drop_open_braces(s.skip(i)));
        } else if s[i] == '[' {
            lemma_reconstruct_from(s, i + 1, Seq::empty(), ins);
            let marker = seq![SpecToken::BracketOpen];
            let rest = lex_from(s, i + 1, Seq::empty(), ins);
            lemma_tokens_text_concat(flush(w, false) + marker, rest);
            lemma_tokens_text_concat(flush(w, false), marker);
            lemma_tokens_text_flush(w, false);
            lemma_tokens_text_single(SpecToken::BracketOpen);
            assert(tokens_text(marker) =~= seq!['[']);
            assert((w + seq!['[']) + (Seq::<char>::empty() + drop_open_braces(s.skip(i + 1))) =~= w
                + drop_open_braces(s.skip(i)));
        } else if s[i] == ']' {
            lemma_reconstruct_from(s, i + 1, Seq::empty(), ins);
            let marker = seq![SpecToken::BracketClose];
            let rest = lex_from(s, i + 1, Seq::empty(), ins);
            lemma_tokens_text_concat(flush(w, false) + marker, rest);
            lemma_tokens_text_concat(flush(w, false), marker);
            lemma_tokens_text_flush(w, false);
            lemma_tokens_text_single(SpecToken::BracketClose);
            assert(tokens_text(marker) =~= seq![']']);
            assert((w + seq![']']) + (Seq::<char>::empty() + drop_open_braces(s.skip(i + 1))) =~= w
                + drop_open_braces(s.skip(i)));
        } else {
            lemma_reconstruct_from(s, i + 1, w.push(s[i]), ins);
            assert(w.push(s[i]) + drop_open_braces(s.skip(i + 1)) =~= w + drop_open_braces(
                s.skip(i),
            ));
        }
    }
}

/// Token payload invariant: concatenating each token's text — payload for
/// content tokens, marker character for structural ones — reconstructs the
/// input with every `{` removed.  (A `{` raises the inside-variable flag and
/// leaves no token of its own; every other bracket character is preserved as
/// a structural token.)
pub proof fn lemma_lex_reconstructs_input(s: Seq<char>)
    ensures
        tokens_text(lex(s)) == drop_open_braces(s),
{
    lemma_reconstruct_from(s, 0, Seq::empty(), false);
    assert(s.skip(0) =~= s);
    assert(Seq::<char>::empty() + drop_open_braces(s) =~= drop_open_braces(s));
}

/// Round trip: for a token sequence of plain-text tokens only, joining the
/// evaluator's output fragments reproduces the concatenation of the tokens'
/// payloads.
pub proof fn lemma_plaintext_round_trip(ts: Seq<SpecToken>)
    requires
        all_plain(ts),
    ensures
        concat_frags(eval(ts)) == payload_concat(ts),
{
    lemma_run_plain(ts, init_state());
    assert(concat_frags(Seq::<Seq<char>>::empty()) + Seq::<char>::empty() + payload_concat(ts)
        =~= payload_concat(ts));
}

} // verus!
