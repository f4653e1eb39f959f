//! What holds of every scan, stated over the grammar and proved from it.

use vstd::prelude::*;
use crate::grammar::{
    comment_characters, digits, end_token, error_free, error_of, errors_of, is_alpha,
    is_alpha_numeric,
    is_digit, is_numeral, is_skipped_text, lemma_lexeme_extent, lemma_run_end, lexeme_at,
    lexemes, lexemes_from, line_at, newlines, numeral_end, operator, run_end, scanned_errors,
    scanned_tokens, string_characters, text_of, texts_of, token_lexemes, token_lexemes_among,
    token_of, tokens_of, word_characters, word_kind, Lexeme, LexemeKind,
};
use crate::lemmas::{
    lemma_errors_of_add, lemma_errors_of_push, lemma_line_step, lemma_line_unchanged,
    lemma_token_lexemes_among_push, lemma_tokens_of_add, lemma_tokens_of_push,
};
use crate::token::{ObjectView, TokenView};
use crate::token_type::TokenType;

verus! {

/// A run is the longest there is: the one position `end` at or after `from`
/// with `member` characters alone from `from` up to it, and none at it, is
/// where the run from `from` ends.
pub proof fn lemma_run_end_unique(
    src: Seq<char>,
    from: int,
    end: int,
    member: spec_fn(char) -> bool,
)
    requires
        0 <= from <= end <= src.len(),
        forall|i: int| from <= i < end ==> member(#[trigger] src[i]),
        end < src.len() ==> !member(src[end]),
    ensures
        run_end(src, from, member) == end,
    decreases end - from,
{
    if from < end {
        lemma_run_end_unique(src, from + 1, end, member);
    }
}

/// The lexemes tile the source. From a position within the source on, they
/// begin at that position and end with the source; each holds at least one
/// character and is the lexeme that the grammar finds where it begins; and
/// each ends where the next begins. So no character lies outside a lexeme,
/// and none in two.
pub proof fn lemma_lexemes_tile(src: Seq<char>, pos: int)
    requires
        0 <= pos <= src.len(),
    ensures
        ({
            let cut = lexemes_from(src, pos);
            &&& cut.len() == 0 <==> pos == src.len()
            &&& cut.len() > 0 ==> cut.first().start == pos && cut.last().end == src.len()
            &&& forall|k: int|
                0 <= k < cut.len() ==> pos <= (#[trigger] cut[k]).start < cut[k].end <= src.len()
                    && cut[k] == lexeme_at(src, cut[k].start)
            &&& forall|j: int, k: int|
                0 <= j && j + 1 == k && k < cut.len() ==> (#[trigger] cut[j]).end == (
                #[trigger] cut[k]).start
        }),
    decreases src.len() - pos,
{
    if pos < src.len() {
        let first = lexeme_at(src, pos);
        let rest = lexemes_from(src, first.end);
        let cut = lexemes_from(src, pos);
        lemma_lexeme_extent(src, pos);
        lemma_lexemes_tile(src, first.end);
        assert(cut == seq![first] + rest);
        assert forall|k: int| 0 <= k < cut.len() implies pos <= (#[trigger] cut[k]).start
            < cut[k].end <= src.len() && cut[k] == lexeme_at(src, cut[k].start) by {
            if k > 0 {
                assert(cut[k] == rest[k - 1]);
            }
        }
        assert forall|j: int, k: int| 0 <= j && j + 1 == k && k < cut.len() implies (
        #[trigger] cut[j]).end == (#[trigger] cut[k]).start by {
            assert(cut[k] == rest[j]);
            if j > 0 {
                assert(cut[j] == rest[j - 1]);
            }
        }
        if rest.len() > 0 {
            assert(cut.last() == rest.last());
        }
    }
}

/// The texts of the lexemes from a position on, joined in order, are the
/// source from that position on: nothing is lost, added or moved.
pub proof fn lemma_texts_rebuild_source(src: Seq<char>, pos: int)
    requires
        0 <= pos <= src.len(),
    ensures
        texts_of(src, lexemes_from(src, pos)).flatten() == src.subrange(pos, src.len() as int),
    decreases src.len() - pos,
{
    let texts = texts_of(src, lexemes_from(src, pos));
    if pos < src.len() {
        let first = lexeme_at(src, pos);
        let rest = lexemes_from(src, first.end);
        lemma_lexeme_extent(src, pos);
        lemma_texts_rebuild_source(src, first.end);
        assert(texts.first() == text_of(src, first));
        assert(texts.drop_first() =~= texts_of(src, rest));
        assert(texts.flatten() =~= src.subrange(pos, src.len() as int));
    } else {
        assert(texts.flatten() =~= src.subrange(pos, src.len() as int));
    }
}

/// The lexemes of the tokens among some lexemes are, one by one and in order,
/// the texts of those lexemes that are tokens.
pub proof fn lemma_token_lexemes(src: Seq<char>, cut: Seq<Lexeme>)
    ensures
        token_lexemes(tokens_of(src, cut)) == texts_of(src, token_lexemes_among(cut)),
    decreases cut.len(),
{
    if cut.len() == 0 {
        assert(token_lexemes(tokens_of(src, cut)) =~= texts_of(src, token_lexemes_among(cut)));
    } else {
        let init = cut.drop_last();
        let last = cut.last();
        lemma_token_lexemes(src, init);
        assert(cut =~= init.push(last));
        lemma_tokens_of_push(src, init, last);
        lemma_token_lexemes_among_push(init, last);
        if last.kind is Token {
            let token = token_of(src, last)->0;
            assert(token_lexemes(tokens_of(src, init) + seq![token]) =~= token_lexemes(
                tokens_of(src, init),
            ).push(token.lexeme));
            assert(texts_of(src, token_lexemes_among(init).push(last)) =~= texts_of(
                src,
                token_lexemes_among(init),
            ).push(text_of(src, last)));
        } else {
            assert(tokens_of(src, init) + Seq::<TokenView>::empty() =~= tokens_of(src, init));
        }
    }
}

/// A lexeme that is no token and no error is passed over for what it is: a
/// blank, a newline or a comment.
pub proof fn lemma_silence_is_blank_or_comment(src: Seq<char>, start: int)
    requires
        0 <= start < src.len(),
    ensures
        ({
            let lexeme = lexeme_at(src, start);
            ||| token_of(src, lexeme) is Some
            ||| error_of(src, lexeme) is Some
            ||| is_skipped_text(text_of(src, lexeme))
        }),
{
    let lexeme = lexeme_at(src, start);
    let text = text_of(src, lexeme);
    lemma_lexeme_extent(src, start);
    if lexeme.kind is Comment {
        lemma_run_end(src, start + 2, comment_characters());
        assert(text[0] == src[start]);
        assert(text[1] == src[start + 1]);
        assert forall|i: int| 0 <= i < text.len() implies text[i] != '\n' by {
            assert(text[i] == src[start + i]);
        }
    } else if lexeme.kind is Blank || lexeme.kind is Newline {
        assert(text[0] == src[start]);
    }
}

/// No character of a source is dropped in silence. The texts of all its
/// lexemes, joined in order, are the source. The lexemes of its tokens, the
/// end token apart, are the texts of those lexemes that are tokens, in order;
/// so the lexemes of all its tokens, joined in order, are the source without
/// the lexemes that are no tokens. And a lexeme that is no token is a blank, a
/// newline or a comment, or else it is reported as an error.
pub proof fn lemma_nothing_dropped(src: Seq<char>)
    ensures
        texts_of(src, lexemes(src)).flatten() == src,
        token_lexemes(scanned_tokens(src).drop_last()) == texts_of(
            src,
            token_lexemes_among(lexemes(src)),
        ),
        scanned_tokens(src).last().lexeme == Seq::<char>::empty(),
        token_lexemes(scanned_tokens(src)).flatten() == texts_of(
            src,
            token_lexemes_among(lexemes(src)),
        ).flatten(),
        forall|k: int|
            0 <= k < lexemes(src).len() ==> {
                let lexeme = #[trigger] lexemes(src)[k];
                ||| token_of(src, lexeme) is Some
                ||| error_of(src, lexeme) is Some
                ||| is_skipped_text(text_of(src, lexeme))
            },
{
    lemma_texts_rebuild_source(src, 0);
    assert(src.subrange(0, src.len() as int) =~= src);
    lemma_token_lexemes(src, lexemes(src));
    let tokens = tokens_of(src, lexemes(src));
    assert(scanned_tokens(src).drop_last() =~= tokens);
    assert(token_lexemes(scanned_tokens(src)) =~= token_lexemes(tokens).push(Seq::empty()));
    token_lexemes(tokens).lemma_flatten_push(Seq::empty());
    assert(token_lexemes(tokens).flatten() + Seq::<char>::empty() =~= token_lexemes(
        tokens,
    ).flatten());
    lemma_lexemes_tile(src, 0);
    assert forall|k: int| 0 <= k < lexemes(src).len() implies {
        let lexeme = #[trigger] lexemes(src)[k];
        ||| token_of(src, lexeme) is Some
        ||| error_of(src, lexeme) is Some
        ||| is_skipped_text(text_of(src, lexeme))
    } by {
        lemma_silence_is_blank_or_comment(src, lexemes(src)[k].start);
    }
}

/// There is no error among some lexemes if and only if none of them is an
/// unexpected character or an unterminated string.
pub proof fn lemma_errors_are_the_error_lexemes(src: Seq<char>, cut: Seq<Lexeme>)
    ensures
        errors_of(src, cut).len() == 0 <==> error_free(src, cut),
    decreases cut.len(),
{
    if cut.len() > 0 {
        let init = cut.drop_last();
        let last = cut.last();
        lemma_errors_are_the_error_lexemes(src, init);
        assert(cut =~= init.push(last));
        lemma_errors_of_push(src, init, last);
        if errors_of(src, cut).len() == 0 {
            assert forall|k: int| 0 <= k < cut.len() implies error_of(src, #[trigger] cut[k])
                is None by {
                if k < init.len() {
                    assert(cut[k] == init[k]);
                }
            }
        } else {
            if error_of(src, last) is None {
                let k = choose|k: int| 0 <= k < init.len() && error_of(src, #[trigger] init[k])
                    is Some;
                assert(cut[k] == init[k]);
            }
        }
    }
}

/// Every token among the lexemes of a source, from a position on, is the
/// token of the lexeme that begins at some position from there on, which is
/// returned.
pub proof fn lemma_token_has_a_lexeme(src: Seq<char>, pos: int, k: int) -> (start: int)
    requires
        0 <= pos <= src.len(),
        0 <= k < tokens_of(src, lexemes_from(src, pos)).len(),
    ensures
        pos <= start < src.len(),
        token_of(src, lexeme_at(src, start)) == Some(tokens_of(src, lexemes_from(src, pos))[k]),
{
    let cut = lexemes_from(src, pos);
    let tokens = tokens_of(src, cut);
    let reader = |lexeme: Lexeme| token_of(src, lexeme);
    assert(tokens.contains(tokens[k]));
    cut.lemma_filter_map_contains(reader, tokens[k]);
    let lexeme = choose|lexeme: Lexeme| #[trigger]
        cut.contains(lexeme) && reader(lexeme) == Some(tokens[k]);
    let i = choose|i: int| 0 <= i < cut.len() && cut[i] == lexeme;
    lemma_lexemes_tile(src, pos);
    assert(cut[i] == lexeme_at(src, lexeme.start));
    lexeme.start
}

/// A scan of a source that holds no unexpected character and no unterminated
/// string reports no error; and every scan, with errors or without, ends in
/// the end token, which is the only token of its kind.
pub proof fn lemma_clean_scan(src: Seq<char>)
    ensures
        error_free(src, lexemes(src)) <==> scanned_errors(src).len() == 0,
        scanned_tokens(src).last() == end_token(src),
        end_token(src).kind == TokenType::Eof,
        forall|k: int|
            0 <= k < scanned_tokens(src).len() - 1 ==> (#[trigger] scanned_tokens(src)[k]).kind
                != TokenType::Eof,
{
    lemma_errors_are_the_error_lexemes(src, lexemes(src));
    assert forall|k: int| 0 <= k < scanned_tokens(src).len() - 1 implies (
    #[trigger] scanned_tokens(src)[k]).kind != TokenType::Eof by {
        let start = lemma_token_has_a_lexeme(src, 0, k);
    }
}

/// An operator character with `=` behind it forms one token of two characters,
/// never two tokens: the lexeme that begins at it takes the `=`, and the next
/// lexeme begins behind the `=`.
pub proof fn lemma_two_character_operator(src: Seq<char>, pos: int)
    requires
        0 <= pos,
        pos + 1 < src.len(),
        operator(src[pos], true) is Some,
        src[pos + 1] == '=',
    ensures
        lexeme_at(src, pos) == (Lexeme {
            kind: LexemeKind::Token(operator(src[pos], true)->0),
            start: pos,
            end: pos + 2,
        }),
        src[pos] == '!' ==> token_of(src, lexeme_at(src, pos))->0.kind == TokenType::BangEqual,
        src[pos] == '=' ==> token_of(src, lexeme_at(src, pos))->0.kind == TokenType::EqualEqual,
        src[pos] == '<' ==> token_of(src, lexeme_at(src, pos))->0.kind == TokenType::LessEqual,
        src[pos] == '>' ==> token_of(src, lexeme_at(src, pos))->0.kind
            == TokenType::GreaterEqual,
        lexemes_from(src, pos) == seq![lexeme_at(src, pos)] + lexemes_from(src, pos + 2),
{
}

/// A line comment yields no token and no error, whatever it holds, and ends
/// before the first newline behind its two slashes, or with the source. The
/// scan goes on from there: the tokens and errors from the comment on are those
/// from its end on.
pub proof fn lemma_line_comment(src: Seq<char>, pos: int)
    requires
        0 <= pos,
        pos + 1 < src.len(),
        src[pos] == '/',
        src[pos + 1] == '/',
    ensures
        ({
            let comment = lexeme_at(src, pos);
            &&& comment.kind == LexemeKind::Comment
            &&& comment.start == pos
            &&& pos + 2 <= comment.end <= src.len()
            &&& forall|i: int| pos <= i < comment.end ==> #[trigger] src[i] != '\n'
            &&& comment.end < src.len() ==> src[comment.end] == '\n'
            &&& tokens_of(src, lexemes_from(src, pos)) == tokens_of(
                src,
                lexemes_from(src, comment.end),
            )
            &&& errors_of(src, lexemes_from(src, pos)) == errors_of(
                src,
                lexemes_from(src, comment.end),
            )
            &&& line_at(src, comment.end) == line_at(src, pos)
        }),
{
    let comment = lexeme_at(src, pos);
    let rest = lexemes_from(src, comment.end);
    lemma_run_end(src, pos + 2, comment_characters());
    lemma_tokens_of_add(src, seq![comment], rest);
    lemma_errors_of_add(src, seq![comment], rest);
    lemma_tokens_of_push(src, Seq::empty(), comment);
    lemma_errors_of_push(src, Seq::empty(), comment);
    assert(seq![comment] =~= Seq::<Lexeme>::empty().push(comment));
    assert(tokens_of(src, Seq::empty()) =~= Seq::empty());
    assert(errors_of(src, Seq::empty()) =~= Seq::empty());
    assert(tokens_of(src, lexemes_from(src, pos)) =~= tokens_of(src, rest));
    assert(errors_of(src, lexemes_from(src, pos)) =~= errors_of(src, rest));
    lemma_line_unchanged(src, pos, comment.end);
}

/// Every newline is counted once: the line of a position is the line of an
/// earlier one and the newlines between the two. So what follows a lexeme
/// lies as many lines below its beginning as the lexeme holds newlines, a
/// string over several lines as much as a newline by itself.
pub proof fn lemma_line_counts_newlines(src: Seq<char>, from: int, to: int)
    requires
        0 <= from <= to <= src.len(),
    ensures
        line_at(src, to) == line_at(src, from) + newlines(src.subrange(from, to)),
    decreases to - from,
{
    if from < to {
        lemma_line_counts_newlines(src, from, to - 1);
        lemma_line_step(src, to - 1);
        assert(src.subrange(from, to).drop_last() =~= src.subrange(from, to - 1));
    }
}

/// A string literal runs from its opening quote to the first quote behind it,
/// newlines and all, and its value is the text between the two. Where no
/// quote follows, all the rest of the source is one unterminated string: no
/// token, and an error on the line on which the source ends.
pub proof fn lemma_string(src: Seq<char>, pos: int)
    requires
        0 <= pos < src.len(),
        src[pos] == '"',
    ensures
        ({
            let lexeme = lexeme_at(src, pos);
            let close = lexeme.end - 1;
            if exists|i: int| pos < i < src.len() && src[i] == '"' {
                &&& pos < close < src.len()
                &&& src[close] == '"'
                &&& forall|i: int| pos < i < close ==> #[trigger] src[i] != '"'
                &&& error_of(src, lexeme) is None
                &&& token_of(src, lexeme) == Some(
                    TokenView {
                        kind: TokenType::String,
                        lexeme: src.subrange(pos, close + 1),
                        literal: Some(ObjectView::Str(src.subrange(pos + 1, close))),
                        line: line_at(src, pos),
                    },
                )
            } else {
                &&& lexeme.end == src.len()
                &&& token_of(src, lexeme) is None
                &&& error_of(src, lexeme) is Some
                &&& error_of(src, lexeme)->0.line == line_at(src, src.len() as int)
                &&& error_of(src, lexeme)->0.message == "Unterminated string."@
                &&& lexemes_from(src, pos) == seq![lexeme]
            }
        }),
{
    let lexeme = lexeme_at(src, pos);
    let close = run_end(src, pos + 1, string_characters());
    lemma_run_end(src, pos + 1, string_characters());
    if close < src.len() {
        let text = text_of(src, lexeme);
        assert(text.subrange(1, text.len() - 1) =~= src.subrange(pos + 1, close));
    } else {
        assert(lexemes_from(src, src.len() as int) =~= Seq::<Lexeme>::empty());
        assert(lexemes_from(src, pos) =~= seq![lexeme]);
    }
}

/// A word is as long as it can be: it runs from its first character, a letter
/// or an underscore, over every letter, digit and underscore that follows, and
/// its kind is decided by all of its text. So a reserved word with more
/// behind it is an identifier.
pub proof fn lemma_word(src: Seq<char>, pos: int)
    requires
        0 <= pos < src.len(),
        is_alpha(src[pos]),
    ensures
        ({
            let lexeme = lexeme_at(src, pos);
            &&& pos < lexeme.end <= src.len()
            &&& forall|i: int| pos <= i < lexeme.end ==> is_alpha_numeric(#[trigger] src[i])
            &&& lexeme.end < src.len() ==> !is_alpha_numeric(src[lexeme.end])
            &&& lexeme.kind == LexemeKind::Token(word_kind(src.subrange(pos, lexeme.end)))
        }),
{
    lemma_run_end(src, pos + 1, word_characters());
}

/// A numeral is as long as it can be, and well formed: it is digits, or
/// digits, a point and digits, and it never ends in a point; no digit follows
/// it, and no point with a digit behind it unless it has a point already.
/// Its token carries the numeral itself as its value.
pub proof fn lemma_numeral(src: Seq<char>, pos: int)
    requires
        0 <= pos < src.len(),
        is_digit(src[pos]),
    ensures
        ({
            let lexeme = lexeme_at(src, pos);
            let text = src.subrange(pos, lexeme.end);
            &&& pos < lexeme.end <= src.len()
            &&& is_numeral(text)
            &&& is_digit(text.last())
            &&& lexeme.end < src.len() ==> !is_digit(src[lexeme.end])
            &&& lexeme.end + 1 < src.len() && src[lexeme.end] == '.' && is_digit(
                src[lexeme.end + 1],
            ) ==> exists|point: int| pos < point < lexeme.end && src[point] == '.'
            &&& token_of(src, lexeme) == Some(
                TokenView {
                    kind: TokenType::Number,
                    lexeme: text,
                    literal: Some(ObjectView::Num(text)),
                    line: line_at(src, pos),
                },
            )
        }),
{
    let lexeme = lexeme_at(src, pos);
    let text = src.subrange(pos, lexeme.end);
    let whole_end = run_end(src, pos, digits());
    lemma_run_end(src, pos, digits());
    assert(lexeme.end == numeral_end(src, pos));
    if lexeme.end != whole_end {
        lemma_run_end(src, whole_end + 1, digits());
        let point = whole_end - pos;
        assert(text[point] == '.');
        assert forall|i: int| 0 <= i < text.len() && i != point implies is_digit(
            #[trigger] text[i],
        ) by {
            assert(text[i] == src[pos + i]);
        }
        assert(src[whole_end] == '.');
    } else {
        assert forall|i: int| 0 <= i < text.len() implies is_digit(#[trigger] text[i]) by {
            assert(text[i] == src[pos + i]);
        }
        if whole_end + 1 < src.len() {
            lemma_run_end(src, whole_end + 1, digits());
        }
    }
    assert(text.last() == src[lexeme.end - 1]);
}

/// The value of every number token is its own lexeme, and that is a numeral.
/// So whoever reads the value as a number finds one.
pub proof fn lemma_numbers_are_numerals(src: Seq<char>, k: int)
    requires
        0 <= k < scanned_tokens(src).len(),
        scanned_tokens(src)[k].kind == TokenType::Number,
    ensures
        is_numeral(scanned_tokens(src)[k].lexeme),
        scanned_tokens(src)[k].literal == Some(ObjectView::Num(scanned_tokens(src)[k].lexeme)),
{
    let start = lemma_token_has_a_lexeme(src, 0, k);
    lemma_lexeme_extent(src, start);
    lemma_numeral(src, start);
}

} // verus!
