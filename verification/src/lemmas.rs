//! Facts about the grammar that the proof of the scanner rests on.

use vstd::prelude::*;
use crate::grammar::{
    error_of, errors_of, line_at, newlines, option_seq, token_lexemes_among, token_of,
    tokens_of, Lexeme,
};

verus! {

/// A text has at most as many newlines as characters.
pub proof fn lemma_newlines_bound(text: Seq<char>)
    ensures
        newlines(text) <= text.len(),
    decreases text.len(),
{
    if text.len() > 0 {
        lemma_newlines_bound(text.drop_last());
    }
}

/// The first position lies on line 1, and no position lies on a line beyond
/// those that the characters before it could have begun.
pub proof fn lemma_line_bounds(src: Seq<char>, pos: int)
    requires
        0 <= pos <= src.len(),
    ensures
        line_at(src, 0) == 1,
        1 <= line_at(src, pos) <= pos + 1,
{
    lemma_newlines_bound(src.take(pos));
}

/// The line changes from one position to the next where a newline stands
/// between them, and only there.
pub proof fn lemma_line_step(src: Seq<char>, pos: int)
    requires
        0 <= pos < src.len(),
    ensures
        line_at(src, pos + 1) == line_at(src, pos) + if src[pos] == '\n' {
            1nat
        } else {
            0nat
        },
{
    assert(src.take(pos + 1).drop_last() =~= src.take(pos));
}

/// The tokens among some lexemes and one more are the tokens among the
/// former, and then the token of the latter if it is one.
pub proof fn lemma_tokens_of_push(src: Seq<char>, lexemes: Seq<Lexeme>, lexeme: Lexeme)
    ensures
        tokens_of(src, lexemes.push(lexeme)) == tokens_of(src, lexemes) + option_seq(
            token_of(src, lexeme),
        ),
{
    assert(lexemes.push(lexeme).drop_last() =~= lexemes);
}

/// The errors among some lexemes and one more are the errors among the
/// former, and then the error of the latter if it is one.
pub proof fn lemma_errors_of_push(src: Seq<char>, lexemes: Seq<Lexeme>, lexeme: Lexeme)
    ensures
        errors_of(src, lexemes.push(lexeme)) == errors_of(src, lexemes) + option_seq(
            error_of(src, lexeme),
        ),
{
    assert(lexemes.push(lexeme).drop_last() =~= lexemes);
}

/// The token lexemes among some lexemes and one more are those among the
/// former, and then the latter if it is a token.
pub proof fn lemma_token_lexemes_among_push(lexemes: Seq<Lexeme>, lexeme: Lexeme)
    ensures
        token_lexemes_among(lexemes.push(lexeme)) == if lexeme.kind is Token {
            token_lexemes_among(lexemes).push(lexeme)
        } else {
            token_lexemes_among(lexemes)
        },
{
    reveal(Seq::filter);
    assert(lexemes.push(lexeme).drop_last() =~= lexemes);
}

/// The line does not change over characters that are no newlines.
pub proof fn lemma_line_unchanged(src: Seq<char>, from: int, to: int)
    requires
        0 <= from <= to <= src.len(),
        forall|i: int| from <= i < to ==> #[trigger] src[i] != '\n',
    ensures
        line_at(src, to) == line_at(src, from),
    decreases to - from,
{
    if from < to {
        lemma_line_unchanged(src, from, to - 1);
        lemma_line_step(src, to - 1);
    }
}

/// The tokens among two runs of lexemes, one behind the other, are the tokens
/// among the first and then those among the second.
pub proof fn lemma_tokens_of_add(src: Seq<char>, first: Seq<Lexeme>, second: Seq<Lexeme>)
    ensures
        tokens_of(src, first + second) == tokens_of(src, first) + tokens_of(src, second),
    decreases second.len(),
{
    if second.len() == 0 {
        assert(first + second =~= first);
        assert(tokens_of(src, first) + tokens_of(src, second) =~= tokens_of(src, first));
    } else {
        let init = second.drop_last();
        let last = second.last();
        lemma_tokens_of_add(src, first, init);
        assert(first + second =~= (first + init).push(last));
        assert(second =~= init.push(last));
        lemma_tokens_of_push(src, first + init, last);
        lemma_tokens_of_push(src, init, last);
        assert(tokens_of(src, first + second) =~= tokens_of(src, first) + tokens_of(
            src,
            second,
        ));
    }
}

/// The errors among two runs of lexemes, one behind the other, are the errors
/// among the first and then those among the second.
pub proof fn lemma_errors_of_add(src: Seq<char>, first: Seq<Lexeme>, second: Seq<Lexeme>)
    ensures
        errors_of(src, first + second) == errors_of(src, first) + errors_of(src, second),
    decreases second.len(),
{
    if second.len() == 0 {
        assert(first + second =~= first);
        assert(errors_of(src, first) + errors_of(src, second) =~= errors_of(src, first));
    } else {
        let init = second.drop_last();
        let last = second.last();
        lemma_errors_of_add(src, first, init);
        assert(first + second =~= (first + init).push(last));
        assert(second =~= init.push(last));
        lemma_errors_of_push(src, first + init, last);
        lemma_errors_of_push(src, init, last);
        assert(errors_of(src, first + second) =~= errors_of(src, first) + errors_of(
            src,
            second,
        ));
    }
}

} // verus!
