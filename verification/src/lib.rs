//! A verified scanner for a small dynamically-typed scripting language.
//!
//! The scanner turns source text into an ordered sequence of classified tokens
//! and a list of the lexical errors it met on the way. It does not stop at an
//! error: it reports the lexeme at fault and goes on behind it.
//!
//! - [`grammar`] is the mathematical model: how a source text is cut into
//!   lexemes, and which tokens and errors they stand for.
//! - [`scanner`] is the executable scanner, proved to yield exactly the
//!   tokens and errors of the model.
//! - [`laws`] holds what follows for every scan: that no character is lost,
//!   that a clean source scans without error, that lexemes are as long as
//!   they can be.
//! - [`lemmas`] holds the smaller facts that these proofs rest on.
//! - [`token`], [`token_type`] and [`error`] are the values handed out.

pub mod error;
pub mod grammar;
pub mod laws;
pub mod lemmas;
pub mod scanner;
pub mod token;
pub mod token_type;
