//! The lexer: one left-to-right scan that splits template text into tokens.
//!
//! The scan keeps a growable current word and an inside-variable flag.  A `{`
//! flushes the word and raises the flag (emitting no structural token); a `}`
//! flushes the word, always emits a [`Token::BraceClose`] marker and clears
//! the flag; `[` and `]` flush the word as plain text (index brackets never
//! follow the flag) and emit their marker; any other character grows the
//! word.  The final word is flushed when the input ends.  The lexer is total:
//! any input, however unbalanced, yields a token sequence.

use vstd::prelude::*;

use crate::token::{SpecToken, Token};

verus! {

/// The tokens that flushing a pending word produces: nothing when the word is
/// empty, one `Variable` when the word is flushed inside a `{...}` span, one
/// `PlainText` otherwise.
pub open spec fn flush(word: Seq<char>, inside: bool) -> Seq<SpecToken> {
    if word.len() == 0 {
        Seq::empty()
    } else if inside {
        seq![SpecToken::Variable(word)]
    } else {
        seq![SpecToken::PlainText(word)]
    }
}

/// The tokens still to come when the scan stands at position `i` of `s` with
/// pending word `word` and inside-variable flag `inside`.
pub open spec fn lex_from(s: Seq<char>, i: int, word: Seq<char>, inside: bool) -> Seq<SpecToken>
    decreases s.len() - i,
{
    if i < 0 || i >= s.len() {
        flush(word, inside)
    } else if s[i] == '{' {
        flush(word, inside) + lex_from(s, i + 1, Seq::empty(), true)
    } else if s[i] == '}' {
        flush(word, inside) + seq![SpecToken::BraceClose] + lex_from(
            s,
            i + 1,
            Seq::empty(),
            false,
        )
    } else if s[i] == '[' {
        flush(word, false) + seq![SpecToken::BracketOpen] + lex_from(
            s,
            i + 1,
            Seq::empty(),
            inside,
        )
    } else if s[i] == ']' {
        flush(word, false) + seq![SpecToken::BracketClose] + lex_from(
            s,
            i + 1,
            Seq::empty(),
            inside,
        )
    } else {
        lex_from(s, i + 1, word.push(s[i]), inside)
    }
}

/// The token sequence of the whole input.
pub open spec fn lex(s: Seq<char>) -> Seq<SpecToken> {
    lex_from(s, 0, Seq::empty(), false)
}

/// Appends the flush of `word` under flag `inside` to `tokens`.
fn push_flush(tokens: &mut Vec<Token>, word: String, inside: bool)
    ensures
        final(tokens).deep_view() == old(tokens).deep_view() + flush(word@, inside),
{
    let ghost pre = tokens.deep_view();
    let ghost w = word@;
    if !word.as_str().is_empty() {
        let t = if inside {
            Token::Variable(word)
        } else {
            Token::PlainText(word)
        };
        let ghost tv = t.deep_view();
        tokens.push(t);
        proof {
            assert(tokens.deep_view() =~= pre + flush(w, inside));
        }
    } else {
        proof {
            assert(tokens.deep_view() =~= pre + flush(w, inside));
        }
    }
}

/// Appends the single token `t` to `tokens`.
fn push_token(tokens: &mut Vec<Token>, t: Token)
    ensures
        final(tokens).deep_view() == old(tokens).deep_view().push(t@),
{
    let ghost pre = tokens.deep_view();
    let ghost tv = t.deep_view();
    tokens.push(t);
    proof {
        assert(tokens.deep_view() =~= pre.push(tv));
    }
}

/// Splits `input` into tokens, per [`lex`].  Total: accepts any text,
/// including the empty string and arbitrarily unbalanced brackets.
pub fn tokenize(input: &str) -> (r: Vec<Token>)
    ensures
        r.deep_view() == lex(input@),
{
    let ghost s = input@;
    let n = input.unicode_len();
    let mut tokens: Vec<Token> = Vec::new();
    let mut word = String::new();
    let mut inside = false;
    let mut i: usize = 0;

    proof {
        assert(tokens.deep_view() =~= Seq::<SpecToken>::empty());
        assert(Seq::<SpecToken>::empty() + lex(s) =~= lex(s));
    }

    while i < n
        invariant
            i <= n,
            n == s.len(),
            s == input@,
            lex(s) == tokens.deep_view() + lex_from(s, i as int, word@, inside),
        decreases n - i,
    {
        let ghost pre = tokens.deep_view();
        let ghost w0 = word@;
        let ghost ins0 = inside;
        let ghost i0 = i as int;
        let c = input.get_char(i);
        if c == '{' {
            push_flush(&mut tokens, word, inside);
            word = String::new();
            inside = true;
            proof {
                assert(tokens.deep_view() + lex_from(s, i0 + 1, word@, true) =~= pre + lex_from(
                    s,
                    i0,
                    w0,
                    ins0,
                ));
            }
        } else if c == '}' {
            push_flush(&mut tokens, word, inside);
            word = String::new();
            push_token(&mut tokens, Token::BraceClose);
            inside = false;
            proof {
                assert(tokens.deep_view() + lex_from(s, i0 + 1, word@, false) =~= pre + lex_from(
                    s,
                    i0,
                    w0,
                    ins0,
                ));
            }
        } else if c == '[' {
            push_flush(&mut tokens, word, false);
            word = String::new();
            push_token(&mut tokens, Token::BracketOpen);
            proof {
                assert(tokens.deep_view() + lex_from(s, i0 + 1, word@, inside) =~= pre + lex_from(
                    s,
                    i0,
                    w0,
                    ins0,
                ));
            }
        } else if c == ']' {
            push_flush(&mut tokens, word, false);
            word = String::new();
            push_token(&mut tokens, Token::BracketClose);
            proof {
                assert(tokens.deep_view() + lex_from(s, i0 + 1, word@, inside) =~= pre + lex_from(
                    s,
                    i0,
                    w0,
                    ins0,
                ));
            }
        } else {
            word.push(c);
            proof {
                assert(lex_from(s, i0, w0, ins0) == lex_from(s, i0 + 1, word@, inside));
            }
        }
        i += 1;
    }
    let ghost wf = word@;
    let ghost insf = inside;
    push_flush(&mut tokens, word, inside);
    proof {
        assert(lex_from(s, n as int, wf, insf) == flush(wf, insf));
    }
    tokens
}

} // verus!
