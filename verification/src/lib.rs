//! A miniature string-interpolation engine.
//!
//! The pipeline has two stages, used in sequence:
//! a lexer ([`lexer::tokenize`]) that splits template text into typed tokens,
//! and an evaluator ([`evaluator::evaluate_tokens`]) that turns a token
//! sequence, together with a variable table, into an ordered sequence of
//! output fragments, tracking array-index annotations along the way.
//! Joining the fragments with no separator yields the final display string.

pub mod evaluator;
pub mod index;
pub mod laws;
pub mod lexer;
pub mod numeral;
pub mod text;
pub mod token;
pub mod vartable;
