//! Lexical errors.

use vstd::prelude::*;
use vstd::string::StringExecFns;

verus! {

/// The mathematical value of a [`LoxError`].
pub struct ErrorView {
    pub line: nat,
    pub message: Seq<char>,
}

/// A problem found in the source text, with the line it was found on.
#[derive(Clone, Debug, PartialEq, Eq)]
pub struct LoxError {
    line: usize,
    message: String,
}

impl View for LoxError {
    type V = ErrorView;

    closed spec fn view(&self) -> ErrorView {
        ErrorView { line: self.line as nat, message: self.message@ }
    }
}

impl DeepView for LoxError {
    type V = ErrorView;

    open spec fn deep_view(&self) -> ErrorView {
        self@
    }
}

impl LoxError {
    /// Makes an error for `line`, counted from 1, with a message for the user.
    pub fn error(line: usize, message: String) -> (e: LoxError)
        ensures
            e@ == (ErrorView { line: line as nat, message: message@ }),
    {
        LoxError { line, message }
    }

    /// The line on which the problem was found.
    pub fn line(&self) -> (line: usize)
        ensures
            line == self@.line,
    {
        self.line
    }

    /// What the problem is.
    pub fn message(&self) -> (message: &str)
        ensures
            message@ == self@.message,
    {
        self.message.as_str()
    }
}

} // verus!
