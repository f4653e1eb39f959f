//! The lexical grammar, as functions on sequences of characters.
//!
//! A source text is cut into consecutive [`Lexeme`]s, each the longest piece
//! that its first characters allow. Some lexemes are tokens, some are skipped
//! (blanks, newlines, comments), and some are errors. The executable scanner is
//! proved to produce exactly the tokens and errors of this cutting.

use vstd::prelude::*;
use crate::error::ErrorView;
use crate::token::{ObjectView, TokenView};
use crate::token_type::TokenType;

verus! {

/// An ASCII decimal digit.
pub open spec fn is_digit(c: char) -> bool {
    '0' <= c && c <= '9'
}

/// An ASCII letter or an underscore: what an identifier may begin with.
pub open spec fn is_alpha(c: char) -> bool {
    ('a' <= c && c <= 'z') || ('A' <= c && c <= 'Z') || c == '_'
}

/// What an identifier may continue with.
pub open spec fn is_alpha_numeric(c: char) -> bool {
    is_alpha(c) || is_digit(c)
}

/// Whitespace within a line: a space, a carriage return or a tab.
pub open spec fn is_blank(c: char) -> bool {
    c == ' ' || c == '\r' || c == '\t'
}

/// Whether `src` holds the character `c` at position `pos`.
pub open spec fn has_char_at(src: Seq<char>, pos: int, c: char) -> bool {
    0 <= pos < src.len() && src[pos] == c
}

/// The characters that a run of digits is made of.
pub open spec fn digits() -> spec_fn(char) -> bool {
    |c: char| is_digit(c)
}

/// The characters that an identifier continues with.
pub open spec fn word_characters() -> spec_fn(char) -> bool {
    |c: char| is_alpha_numeric(c)
}

/// The characters that the body of a string literal is made of.
pub open spec fn string_characters() -> spec_fn(char) -> bool {
    |c: char| c != '"'
}

/// The characters that a line comment goes on with.
pub open spec fn comment_characters() -> spec_fn(char) -> bool {
    |c: char| c != '\n'
}

/// Where the longest run of `member` characters that begins at `from` ends:
/// the first position at or after `from` that holds no such character.
pub open spec fn run_end(src: Seq<char>, from: int, member: spec_fn(char) -> bool) -> int
    decreases src.len() - from,
{
    if 0 <= from < src.len() && member(src[from]) {
        run_end(src, from + 1, member)
    } else {
        from
    }
}

/// The number of newline characters in `text`.
pub open spec fn newlines(text: Seq<char>) -> nat
    decreases text.len(),
{
    if text.len() == 0 {
        0
    } else {
        newlines(text.drop_last()) + if text.last() == '\n' {
            1nat
        } else {
            0nat
        }
    }
}

/// The line, counted from 1, that position `pos` of `src` lies on.
pub open spec fn line_at(src: Seq<char>, pos: int) -> nat {
    1 + newlines(src.take(pos))
}

/// What a lexeme is.
pub enum LexemeKind {
    /// A token of the given kind.
    Token(TokenType),
    /// One blank character.
    Blank,
    /// One newline character.
    Newline,
    /// A line comment, up to but not including the newline that ends it.
    Comment,
    /// One character that begins no lexeme.
    UnexpectedCharacter,
    /// An opening quote and all that follows it, with no closing quote.
    UnterminatedString,
}

/// A piece of the source text: the characters from `start` up to, but not
/// including, `end`.
pub struct Lexeme {
    pub kind: LexemeKind,
    pub start: int,
    pub end: int,
}

/// The token kind of a punctuation character that forms a token by itself,
/// whatever follows it.
pub open spec fn punctuation(c: char) -> Option<TokenType> {
    if c == '(' {
        Some(TokenType::LeftParen)
    } else if c == ')' {
        Some(TokenType::RightParen)
    } else if c == '{' {
        Some(TokenType::LeftBrace)
    } else if c == '}' {
        Some(TokenType::RightBrace)
    } else if c == ',' {
        Some(TokenType::Comma)
    } else if c == '.' {
        Some(TokenType::Dot)
    } else if c == '-' {
        Some(TokenType::Minus)
    } else if c == '+' {
        Some(TokenType::Plus)
    } else if c == ';' {
        Some(TokenType::Semicolon)
    } else if c == '*' {
        Some(TokenType::Star)
    } else {
        None
    }
}

/// For a character that begins an operator of one or two characters, the
/// token kind of the operator when `=` follows and when it does not.
pub open spec fn operator(c: char, equal_follows: bool) -> Option<TokenType> {
    if c == '!' {
        Some(if equal_follows { TokenType::BangEqual } else { TokenType::Bang })
    } else if c == '=' {
        Some(if equal_follows { TokenType::EqualEqual } else { TokenType::Equal })
    } else if c == '<' {
        Some(if equal_follows { TokenType::LessEqual } else { TokenType::Less })
    } else if c == '>' {
        Some(if equal_follows { TokenType::GreaterEqual } else { TokenType::Greater })
    } else {
        None
    }
}

/// The reserved word that `text` spells, if it spells one: in full, and in
/// lower case.
pub open spec fn keyword(text: Seq<char>) -> Option<TokenType> {
    if text == "and"@ {
        Some(TokenType::And)
    } else if text == "class"@ {
        Some(TokenType::Class)
    } else if text == "else"@ {
        Some(TokenType::Else)
    } else if text == "false"@ {
        Some(TokenType::False)
    } else if text == "for"@ {
        Some(TokenType::For)
    } else if text == "fun"@ {
        Some(TokenType::Fun)
    } else if text == "if"@ {
        Some(TokenType::If)
    } else if text == "nil"@ {
        Some(TokenType::Nil)
    } else if text == "or"@ {
        Some(TokenType::Or)
    } else if text == "print"@ {
        Some(TokenType::Print)
    } else if text == "return"@ {
        Some(TokenType::Return)
    } else if text == "super"@ {
        Some(TokenType::Super)
    } else if text == "this"@ {
        Some(TokenType::This)
    } else if text == "true"@ {
        Some(TokenType::True)
    } else if text == "var"@ {
        Some(TokenType::Var)
    } else if text == "while"@ {
        Some(TokenType::While)
    } else {
        None
    }
}

/// The token kind of a word: the reserved word that it spells, or else an
/// identifier.
pub open spec fn word_kind(text: Seq<char>) -> TokenType {
    match keyword(text) {
        Some(kind) => kind,
        None => TokenType::Identifier,
    }
}

/// Where the numeral that begins at `start` ends: after its digits, and after
/// a point and further digits where a point and a digit follow them.
pub open spec fn numeral_end(src: Seq<char>, start: int) -> int {
    let whole_end = run_end(src, start, digits());
    if has_char_at(src, whole_end, '.') && whole_end + 1 < src.len() && is_digit(
        src[whole_end + 1],
    ) {
        run_end(src, whole_end + 1, digits())
    } else {
        whole_end
    }
}

/// The lexeme that begins at position `start` of `src`.
pub open spec fn lexeme_at(src: Seq<char>, start: int) -> Lexeme
    recommends
        0 <= start < src.len(),
{
    let c = src[start];
    if punctuation(c) is Some {
        Lexeme { kind: LexemeKind::Token(punctuation(c)->0), start, end: start + 1 }
    } else if operator(c, false) is Some {
        let equal_follows = has_char_at(src, start + 1, '=');
        Lexeme {
            kind: LexemeKind::Token(operator(c, equal_follows)->0),
            start,
            end: if equal_follows {
                start + 2
            } else {
                start + 1
            },
        }
    } else if c == '/' {
        if has_char_at(src, start + 1, '/') {
            Lexeme {
                kind: LexemeKind::Comment,
                start,
                end: run_end(src, start + 2, comment_characters()),
            }
        } else {
            Lexeme { kind: LexemeKind::Token(TokenType::Slash), start, end: start + 1 }
        }
    } else if is_blank(c) {
        Lexeme { kind: LexemeKind::Blank, start, end: start + 1 }
    } else if c == '\n' {
        Lexeme { kind: LexemeKind::Newline, start, end: start + 1 }
    } else if c == '"' {
        let close = run_end(src, start + 1, string_characters());
        if close < src.len() {
            Lexeme { kind: LexemeKind::Token(TokenType::String), start, end: close + 1 }
        } else {
            Lexeme { kind: LexemeKind::UnterminatedString, start, end: close }
        }
    } else if is_digit(c) {
        Lexeme { kind: LexemeKind::Token(TokenType::Number), start, end: numeral_end(src, start) }
    } else if is_alpha(c) {
        let end = run_end(src, start + 1, word_characters());
        Lexeme { kind: LexemeKind::Token(word_kind(src.subrange(start, end))), start, end }
    } else {
        Lexeme { kind: LexemeKind::UnexpectedCharacter, start, end: start + 1 }
    }
}

/// The lexemes that `src` is cut into from position `pos` on.
pub open spec fn lexemes_from(src: Seq<char>, pos: int) -> Seq<Lexeme>
    decreases src.len() - pos,
{
    if 0 <= pos < src.len() {
        let lexeme = lexeme_at(src, pos);
        proof {
            lemma_lexeme_extent(src, pos);
        }
        seq![lexeme] + lexemes_from(src, lexeme.end)
    } else {
        Seq::empty()
    }
}

/// The lexemes that the whole of `src` is cut into.
pub open spec fn lexemes(src: Seq<char>) -> Seq<Lexeme> {
    lexemes_from(src, 0)
}

/// The text of a lexeme of `src`.
pub open spec fn text_of(src: Seq<char>, lexeme: Lexeme) -> Seq<char> {
    src.subrange(lexeme.start, lexeme.end)
}

/// The value that a token of kind `kind`, read from `text`, carries.
pub open spec fn literal_of(kind: TokenType, text: Seq<char>) -> Option<ObjectView> {
    match kind {
        TokenType::String => Some(ObjectView::Str(text.subrange(1, text.len() - 1))),
        TokenType::Number => Some(ObjectView::Num(text)),
        _ => None,
    }
}

/// The token that a lexeme of `src` stands for, if it is one.
pub open spec fn token_of(src: Seq<char>, lexeme: Lexeme) -> Option<TokenView> {
    match lexeme.kind {
        LexemeKind::Token(kind) => {
            let text = text_of(src, lexeme);
            Some(
                TokenView {
                    kind,
                    lexeme: text,
                    literal: literal_of(kind, text),
                    line: line_at(src, lexeme.start),
                },
            )
        },
        _ => None,
    }
}

/// The error that a lexeme of `src` stands for, if it is one.
///
/// An unexpected character is reported on its own line, an unterminated string
/// on the line on which the source ends.
pub open spec fn error_of(src: Seq<char>, lexeme: Lexeme) -> Option<ErrorView> {
    match lexeme.kind {
        LexemeKind::UnexpectedCharacter => Some(
            ErrorView { line: line_at(src, lexeme.start), message: "Unexpected character."@ },
        ),
        LexemeKind::UnterminatedString => Some(
            ErrorView { line: line_at(src, lexeme.end), message: "Unterminated string."@ },
        ),
        _ => None,
    }
}

/// The sequence of what `option` holds: one element, or none.
pub open spec fn option_seq<T>(option: Option<T>) -> Seq<T> {
    match option {
        Some(value) => seq![value],
        None => Seq::empty(),
    }
}

/// The tokens among `lexemes`, in order.
pub open spec fn tokens_of(src: Seq<char>, lexemes: Seq<Lexeme>) -> Seq<TokenView> {
    lexemes.filter_map(|lexeme: Lexeme| token_of(src, lexeme))
}

/// The errors among `lexemes`, in order.
pub open spec fn errors_of(src: Seq<char>, lexemes: Seq<Lexeme>) -> Seq<ErrorView> {
    lexemes.filter_map(|lexeme: Lexeme| error_of(src, lexeme))
}

/// Whether none of `lexemes` is an error: an unexpected character or an
/// unterminated string.
pub open spec fn error_free(src: Seq<char>, lexemes: Seq<Lexeme>) -> bool {
    forall|k: int| 0 <= k < lexemes.len() ==> error_of(src, #[trigger] lexemes[k]) is None
}

/// The token that ends every scan of `src`: it has no text, and lies on the
/// last line.
pub open spec fn end_token(src: Seq<char>) -> TokenView {
    TokenView {
        kind: TokenType::Eof,
        lexeme: Seq::empty(),
        literal: None,
        line: line_at(src, src.len() as int),
    }
}

/// The tokens that a scan of `src` yields.
pub open spec fn scanned_tokens(src: Seq<char>) -> Seq<TokenView> {
    tokens_of(src, lexemes(src)).push(end_token(src))
}

/// The errors that a scan of `src` yields.
pub open spec fn scanned_errors(src: Seq<char>) -> Seq<ErrorView> {
    errors_of(src, lexemes(src))
}

/// The texts of `lexemes`, in order.
pub open spec fn texts_of(src: Seq<char>, lexemes: Seq<Lexeme>) -> Seq<Seq<char>> {
    lexemes.map_values(|lexeme: Lexeme| text_of(src, lexeme))
}

/// The lexemes of `tokens`, in order.
pub open spec fn token_lexemes(tokens: Seq<TokenView>) -> Seq<Seq<char>> {
    tokens.map_values(|token: TokenView| token.lexeme)
}

/// Those of `lexemes` that are tokens, in order.
pub open spec fn token_lexemes_among(lexemes: Seq<Lexeme>) -> Seq<Lexeme> {
    lexemes.filter(|lexeme: Lexeme| lexeme.kind is Token)
}

/// Whether `text` is what the scanner passes over in silence: one blank, one
/// newline, or a comment, which begins with two slashes and holds no newline.
pub open spec fn is_skipped_text(text: Seq<char>) -> bool {
    ||| text.len() == 1 && (is_blank(text[0]) || text[0] == '\n')
    ||| text.len() >= 2 && text[0] == '/' && text[1] == '/' && forall|i: int|
        0 <= i < text.len() ==> #[trigger] text[i] != '\n'
}

/// Whether `text` is a decimal numeral: digits, or digits, a point and digits.
pub open spec fn is_numeral(text: Seq<char>) -> bool {
    ||| text.len() > 0 && forall|i: int| 0 <= i < text.len() ==> is_digit(#[trigger] text[i])
    ||| exists|point: int|
        0 < point < text.len() - 1 && #[trigger] text[point] == '.' && forall|i: int|
            0 <= i < text.len() && i != point ==> is_digit(#[trigger] text[i])
}

/// A run ends within the source, at or after the position it begins at; it
/// holds `member` characters alone; and no `member` character follows it.
pub proof fn lemma_run_end(src: Seq<char>, from: int, member: spec_fn(char) -> bool)
    requires
        0 <= from <= src.len(),
    ensures
        from <= run_end(src, from, member) <= src.len(),
        forall|i: int| from <= i < run_end(src, from, member) ==> member(#[trigger] src[i]),
        run_end(src, from, member) < src.len() ==> !member(src[run_end(src, from, member)]),
    decreases src.len() - from,
{
    if from < src.len() && member(src[from]) {
        lemma_run_end(src, from + 1, member);
    }
}

/// A lexeme begins where it was looked for, holds at least one character, and
/// ends within the source.
pub proof fn lemma_lexeme_extent(src: Seq<char>, start: int)
    requires
        0 <= start < src.len(),
    ensures
        lexeme_at(src, start).start == start,
        start < lexeme_at(src, start).end <= src.len(),
{
    lemma_run_end(src, start + 1, digits());
    lemma_run_end(src, start + 1, word_characters());
    lemma_run_end(src, start + 1, string_characters());
    if start + 2 <= src.len() {
        lemma_run_end(src, start + 2, comment_characters());
    }
    let whole_end = run_end(src, start, digits());
    if is_digit(src[start]) && whole_end + 1 < src.len() {
        lemma_run_end(src, whole_end + 1, digits());
    }
}

} // verus!
