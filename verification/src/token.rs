//! The token alphabet shared by the lexer and the evaluator.

use vstd::prelude::*;

verus! {

/// A lexical token of the template language.
///
/// Content tokens ([`Token::Variable`], [`Token::PlainText`]) carry raw text;
/// the remaining variants are structural markers for the bracket characters.
#[derive(Debug, Clone, PartialEq, Eq)]
pub enum Token {
    /// Raw content found inside a `{...}` span.
    Variable(String),
    /// Raw content found outside any `{...}` span.
    PlainText(String),
    /// Structural marker for `{`.
    BraceOpen,
    /// Structural marker for `}`.
    BraceClose,
    /// Structural marker for `[`.
    BracketOpen,
    /// Structural marker for `]`.
    BracketClose,
}

/// The mathematical shape of a token: payloads are character sequences.
pub ghost enum SpecToken {
    Variable(Seq<char>),
    PlainText(Seq<char>),
    BraceOpen,
    BraceClose,
    BracketOpen,
    BracketClose,
}

impl View for Token {
    type V = SpecToken;

    open spec fn view(&self) -> SpecToken {
        match self {
            Token::Variable(s) => SpecToken::Variable(s@),
            Token::PlainText(s) => SpecToken::PlainText(s@),
            Token::BraceOpen => SpecToken::BraceOpen,
            Token::BraceClose => SpecToken::BraceClose,
            Token::BracketOpen => SpecToken::BracketOpen,
            Token::BracketClose => SpecToken::BracketClose,
        }
    }
}

impl DeepView for Token {
    type V = SpecToken;

    open spec fn deep_view(&self) -> SpecToken {
        self.view()
    }
}

} // verus!
