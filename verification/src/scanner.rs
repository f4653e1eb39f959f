//! The scanner: source text in, tokens and errors out.

use vstd::prelude::*;
use vstd::std_specs::iter::IteratorSpec;
use crate::error::LoxError;
use crate::grammar::{
    comment_characters, digits, end_token, error_free, error_of, errors_of, has_char_at,
    is_alpha, is_alpha_numeric, is_digit, keyword, lexeme_at, lexemes, lexemes_from, line_at,
    numeral_end, option_seq, run_end, scanned_errors, scanned_tokens, string_characters,
    token_of, tokens_of, word_characters, Lexeme,
};
use crate::laws::lemma_errors_are_the_error_lexemes;
use crate::lemmas::{
    lemma_errors_of_push, lemma_line_bounds, lemma_line_step, lemma_tokens_of_push,
};
use crate::token::{Object, Token, TokenView};
use crate::token_type::TokenType;

verus! {

/// `std::string::String::push` appends the character `ch` to the end of `s`,
/// and leaves what `s` held before it in place.
pub assume_specification[ std::string::String::push ](s: &mut std::string::String, ch: char)
    ensures
        final(s)@ == old(s)@.push(ch),
;

/// A scanner over one source text.
///
/// It holds the source, one character per element, and the tokens read so
/// far. `start` marks where the lexeme being read begins and `current` the
/// next character to read; `start_line` and `line` are the lines that the two
/// lie on.
pub struct Scanner {
    source: Vec<char>,
    tokens: Vec<Token>,
    start: usize,
    start_line: usize,
    current: usize,
    line: usize,
}

impl Scanner {
    /// The source text.
    pub closed spec fn source(&self) -> Seq<char> {
        self.source@
    }

    /// The scanner is as [`Scanner::new`] makes it: at the beginning of its
    /// source, on line 1, with no token read yet; and the source is short
    /// enough for its lines to be counted.
    pub closed spec fn wf(&self) -> bool {
        &&& self.inv()
        &&& self.current == 0
        &&& self.tokens@.len() == 0
    }

    /// What holds of the scanner between two lexemes, and within one: the
    /// cursors lie within the source, in order, and each line counter holds
    /// the line of its cursor.
    spec fn inv(&self) -> bool {
        &&& self.start <= self.current <= self.source.len() < usize::MAX
        &&& self.start_line == line_at(self.source@, self.start as int)
        &&& self.line == line_at(self.source@, self.current as int)
    }

    /// `self` has read on from `before` up to position `current`, and has
    /// added the tokens `added`; the lexeme being read still begins where it
    /// did.
    spec fn read_on(&self, before: &Scanner, current: int, added: Seq<TokenView>) -> bool {
        &&& self.source == before.source
        &&& self.start == before.start
        &&& self.start_line == before.start_line
        &&& self.current == current
        &&& self.tokens.deep_view() == before.tokens.deep_view() + added
    }

    /// `self` is what `before` becomes by reading `lexeme` to its end: the
    /// cursor stands at the end of the lexeme, its token, if it is one, has
    /// been added, and the line counters hold.
    spec fn has_read(&self, before: &Scanner, lexeme: Lexeme) -> bool {
        &&& self.inv()
        &&& self.read_on(before, lexeme.end, option_seq(token_of(before.source@, lexeme)))
    }

    /// `result` is the error of `lexeme` where it is one, and success where
    /// it is none.
    spec fn reports(&self, result: Result<(), LoxError>, lexeme: Lexeme) -> bool {
        match result {
            Ok(_) => error_of(self.source@, lexeme) is None,
            Err(error) => error_of(self.source@, lexeme) == Some(error@),
        }
    }

    /// Makes a scanner at the beginning of `source`, on line 1, with no token
    /// read yet.
    pub fn new(source: String) -> (scanner: Scanner)
        requires
            source@.len() < usize::MAX,
        ensures
            scanner.wf(),
            scanner.source() == source@,
    {
        broadcast use vstd::string::axiom_spec_iter;

        let mut chars: Vec<char> = Vec::new();
        let iter = source.as_str().chars();
        for c in it: iter
            invariant
                it.seq() == source@,
                chars@ == source@.take(it.index()),
        {
            chars.push(c);
        }
        Scanner { source: chars, tokens: Vec::new(), start: 0, start_line: 1, current: 0, line: 1 }
    }

    /// Reads the source from its beginning to its end, and returns the
    /// tokens, closed by the end token, and the errors met on the way.
    ///
    /// No error stops the scan: the lexeme at fault is passed over and the
    /// scan goes on behind it. There is no error if and only if the source
    /// holds no such lexeme.
    pub fn scan_tokens(self) -> (scanned: (Vec<Token>, Vec<LoxError>))
        requires
            self.wf(),
        ensures
            scanned.0.deep_view() == scanned_tokens(self.source()),
            scanned.1.deep_view() == scanned_errors(self.source()),
            scanned.0.len() > 0 && scanned.0.deep_view().last() == end_token(self.source()),
            scanned.1.len() == 0 <==> error_free(self.source(), lexemes(self.source())),
    {
        let ghost src = self.source@;
        let ghost mut done: Seq<Lexeme> = Seq::empty();
        let mut scanner = self;
        let mut errors: Vec<LoxError> = Vec::new();
        assert(scanner.tokens.deep_view() =~= tokens_of(src, done));
        assert(errors.deep_view() =~= errors_of(src, done));
        while !scanner.is_at_end()
            invariant
                scanner.inv(),
                scanner.source@ == src,
                done + lexemes_from(src, scanner.current as int) == lexemes(src),
                scanner.tokens.deep_view() == tokens_of(src, done),
                errors.deep_view() == errors_of(src, done),
            decreases src.len() - scanner.current,
        {
            scanner.start = scanner.current;
            scanner.start_line = scanner.line;
            let ghost lexeme = lexeme_at(src, scanner.current as int);
            let ghost errors_before = errors.deep_view();
            match scanner.scan_token() {
                Ok(_) => {},
                Err(e) => {
                    errors.push(e);
                },
            }
            proof {
                lemma_tokens_of_push(src, done, lexeme);
                lemma_errors_of_push(src, done, lexeme);
                assert(errors.deep_view() =~= errors_before + option_seq(error_of(src, lexeme)));
                assert(done.push(lexeme) + lexemes_from(src, lexeme.end) =~= done + (seq![lexeme]
                    + lexemes_from(src, lexeme.end)));
                done = done.push(lexeme);
            }
        }
        let ghost tokens_before = scanner.tokens.deep_view();
        let line = scanner.line;
        scanner.tokens.push(Token::eof(line));
        proof {
            assert(done =~= done + lexemes_from(src, scanner.current as int));
            assert(scanner.tokens.deep_view() =~= tokens_before.push(end_token(src)));
            lemma_errors_are_the_error_lexemes(src, done);
            assert(errors.deep_view().len() == errors.len());
        }
        (scanner.tokens, errors)
    }

    /// Reads the one lexeme that begins at the cursor. A token is added to
    /// the tokens, a blank, a newline or a comment is passed over, and an
    /// error is returned.
    fn scan_token(&mut self) -> (result: Result<(), LoxError>)
        requires
            old(self).inv(),
            old(self).start == old(self).current,
            old(self).current < old(self).source.len(),
        ensures
            final(self).has_read(
                old(self),
                lexeme_at(old(self).source@, old(self).current as int),
            ),
            final(self).reports(result, lexeme_at(old(self).source@, old(self).current as int)),
    {
        let ghost src = self.source@;
        let ghost start = self.start as int;
        proof {
            lemma_line_step(src, start);
            lemma_line_bounds(src, start);
            if start + 1 < src.len() {
                lemma_line_step(src, start + 1);
            }
        }
        let c = self.advance();
        match c {
            '(' => self.add_token(TokenType::LeftParen),
            ')' => self.add_token(TokenType::RightParen),
            '{' => self.add_token(TokenType::LeftBrace),
            '}' => self.add_token(TokenType::RightBrace),
            ',' => self.add_token(TokenType::Comma),
            '.' => self.add_token(TokenType::Dot),
            '-' => self.add_token(TokenType::Minus),
            '+' => self.add_token(TokenType::Plus),
            ';' => self.add_token(TokenType::Semicolon),
            '*' => self.add_token(TokenType::Star),
            '!' => {
                let kind = if self.is_match('=') {
                    TokenType::BangEqual
                } else {
                    TokenType::Bang
                };
                self.add_token(kind);
            },
            '=' => {
                let kind = if self.is_match('=') {
                    TokenType::EqualEqual
                } else {
                    TokenType::Equal
                };
                self.add_token(kind);
            },
            '<' => {
                let kind = if self.is_match('=') {
                    TokenType::LessEqual
                } else {
                    TokenType::Less
                };
                self.add_token(kind);
            },
            '>' => {
                let kind = if self.is_match('=') {
                    TokenType::GreaterEqual
                } else {
                    TokenType::Greater
                };
                self.add_token(kind);
            },
            '/' => {
                if self.is_match('/') {
                    while self.peek() != Some('\n') && !self.is_at_end()
                        invariant
                            self.inv(),
                            self.source@ == src,
                            self.read_on(old(self), self.current as int, Seq::empty()),
                            start + 2 <= self.current,
                            run_end(src, self.current as int, comment_characters()) == run_end(
                                src,
                                start + 2,
                                comment_characters(),
                            ),
                        decreases self.source.len() - self.current,
                    {
                        proof {
                            lemma_line_step(src, self.current as int);
                        }
                        self.advance();
                    }
                } else {
                    self.add_token(TokenType::Slash);
                }
            },
            ' ' | '\r' | '\t' => {},
            '\n' => {
                self.line += 1;
            },
            '"' => {
                return self.string();
            },
            '0'..='9' => self.number(),
            _ => {
                if Scanner::is_alpha(c) {
                    self.identifier();
                } else {
                    return Err(LoxError::error(self.line, "Unexpected character.".to_string()));
                }
            },
        }
        Ok(())
    }

    /// Reads the rest of a word whose first character has been read, and adds
    /// its token: a reserved word where it spells one, or else an identifier.
    fn identifier(&mut self)
        requires
            old(self).inv(),
            old(self).current == old(self).start + 1,
            is_alpha(old(self).source[old(self).start as int]),
        ensures
            final(self).has_read(old(self), lexeme_at(old(self).source@, old(self).start as int)),
    {
        let ghost src = self.source@;
        while Scanner::is_alpha_numeric(self.peek())
            invariant
                self.inv(),
                self.source@ == src,
                self.read_on(old(self), self.current as int, Seq::empty()),
                self.start < self.current,
                run_end(src, self.current as int, word_characters()) == run_end(
                    src,
                    self.start + 1,
                    word_characters(),
                ),
            decreases self.source.len() - self.current,
        {
            proof {
                lemma_line_step(src, self.current as int);
            }
            self.advance();
        }
        let text = self.text(self.start, self.current);
        if let Some(kind) = Scanner::keyword(text.as_str()) {
            self.add_token(kind);
        } else {
            self.add_token(TokenType::Identifier);
        }
    }

    /// Whether every character of the source has been read.
    fn is_at_end(&self) -> (at_end: bool)
        ensures
            at_end == (self.current >= self.source.len()),
    {
        self.current >= self.source.len()
    }

    /// Reads the character at the cursor.
    fn advance(&mut self) -> (c: char)
        requires
            old(self).current < old(self).source.len(),
        ensures
            c == old(self).source[old(self).current as int],
            *final(self) == (Scanner { current: (old(self).current + 1) as usize, ..*old(self) }),
    {
        let c = self.source[self.current];
        self.current += 1;
        c
    }

    /// Adds a token of kind `kind`, without a value, for the lexeme read.
    fn add_token(&mut self, kind: TokenType)
        requires
            old(self).start <= old(self).current <= old(self).source.len(),
        ensures
            final(self).line == old(self).line,
            final(self).read_on(
                old(self),
                old(self).current as int,
                seq![
                    TokenView {
                        kind,
                        lexeme: old(self).source@.subrange(
                            old(self).start as int,
                            old(self).current as int,
                        ),
                        literal: None,
                        line: old(self).start_line as nat,
                    },
                ],
            ),
    {
        self.add_token_object(kind, None);
    }

    /// Adds a token of kind `kind`, with the value `literal`, for the lexeme
    /// read: the text between the two cursors, on the line it begins on.
    fn add_token_object(&mut self, kind: TokenType, literal: Option<Object>)
        requires
            old(self).start <= old(self).current <= old(self).source.len(),
        ensures
            final(self).line == old(self).line,
            final(self).read_on(
                old(self),
                old(self).current as int,
                seq![
                    TokenView {
                        kind,
                        lexeme: old(self).source@.subrange(
                            old(self).start as int,
                            old(self).current as int,
                        ),
                        literal: literal.deep_view(),
                        line: old(self).start_line as nat,
                    },
                ],
            ),
    {
        let lexeme = self.text(self.start, self.current);
        let token = Token::new(kind, lexeme, literal, self.start_line);
        let ghost before = self.tokens.deep_view();
        self.tokens.push(token);
        assert(self.tokens.deep_view() =~= before + seq![token@]);
    }

    /// Reads the character at the cursor if it is `expected`, and says
    /// whether it did.
    fn is_match(&mut self, expected: char) -> (matched: bool)
        requires
            old(self).current <= old(self).source.len(),
        ensures
            matched == has_char_at(old(self).source@, old(self).current as int, expected),
            *final(self) == (Scanner {
                current: if matched {
                    (old(self).current + 1) as usize
                } else {
                    old(self).current
                },
                ..*old(self)
            }),
    {
        if self.current < self.source.len() && self.source[self.current] == expected {
            self.current += 1;
            true
        } else {
            false
        }
    }

    /// The character at the cursor, if there is one.
    fn peek(&self) -> (c: Option<char>)
        ensures
            c == if self.current < self.source.len() {
                Some(self.source[self.current as int])
            } else {
                None
            },
    {
        if self.current < self.source.len() {
            Some(self.source[self.current])
        } else {
            None
        }
    }

    /// The character after the one at the cursor, if there is one.
    fn peek_next(&self) -> (c: Option<char>)
        requires
            self.current < usize::MAX,
        ensures
            c == if self.current + 1 < self.source.len() {
                Some(self.source[self.current + 1])
            } else {
                None
            },
    {
        if self.current + 1 < self.source.len() {
            Some(self.source[self.current + 1])
        } else {
            None
        }
    }

    /// The reserved word that `check` spells, if it spells one.
    fn keyword(check: &str) -> (kind: Option<TokenType>)
        ensures
            kind == keyword(check@),
    {
        if Scanner::spells(check, "and") {
            Some(TokenType::And)
        } else if Scanner::spells(check, "class") {
            Some(TokenType::Class)
        } else if Scanner::spells(check, "else") {
            Some(TokenType::Else)
        } else if Scanner::spells(check, "false") {
            Some(TokenType::False)
        } else if Scanner::spells(check, "for") {
            Some(TokenType::For)
        } else if Scanner::spells(check, "fun") {
            Some(TokenType::Fun)
        } else if Scanner::spells(check, "if") {
            Some(TokenType::If)
        } else if Scanner::spells(check, "nil") {
            Some(TokenType::Nil)
        } else if Scanner::spells(check, "or") {
            Some(TokenType::Or)
        } else if Scanner::spells(check, "print") {
            Some(TokenType::Print)
        } else if Scanner::spells(check, "return") {
            Some(TokenType::Return)
        } else if Scanner::spells(check, "super") {
            Some(TokenType::Super)
        } else if Scanner::spells(check, "this") {
            Some(TokenType::This)
        } else if Scanner::spells(check, "true") {
            Some(TokenType::True)
        } else if Scanner::spells(check, "var") {
            Some(TokenType::Var)
        } else if Scanner::spells(check, "while") {
            Some(TokenType::While)
        } else {
            None
        }
    }

    /// Reads the rest of a numeral whose first digit has been read, and adds
    /// its token. A point is read only where a digit follows it.
    fn number(&mut self)
        requires
            old(self).inv(),
            old(self).current == old(self).start + 1,
            is_digit(old(self).source[old(self).start as int]),
        ensures
            final(self).has_read(old(self), lexeme_at(old(self).source@, old(self).start as int)),
    {
        let ghost src = self.source@;
        while Scanner::is_digit(self.peek())
            invariant
                self.inv(),
                self.source@ == src,
                self.read_on(old(self), self.current as int, Seq::empty()),
                self.start < self.current,
                run_end(src, self.current as int, digits()) == run_end(
                    src,
                    self.start as int,
                    digits(),
                ),
            decreases self.source.len() - self.current,
        {
            proof {
                lemma_line_step(src, self.current as int);
            }
            self.advance();
        }

        if self.peek() == Some('.') && Scanner::is_digit(self.peek_next()) {
            proof {
                lemma_line_step(src, self.current as int);
            }
            self.advance();

            while Scanner::is_digit(self.peek())
                invariant
                    self.inv(),
                    self.source@ == src,
                    self.read_on(old(self), self.current as int, Seq::empty()),
                    self.start < self.current,
                    run_end(src, self.current as int, digits()) == numeral_end(
                        src,
                        self.start as int,
                    ),
                decreases self.source.len() - self.current,
            {
                proof {
                    lemma_line_step(src, self.current as int);
                }
                self.advance();
            }
        }
        let value = self.text(self.start, self.current);
        self.add_token_object(TokenType::Number, Some(Object::Num(value)));
    }

    /// Whether `ch` is a character, and an ASCII decimal digit.
    fn is_digit(ch: Option<char>) -> (digit: bool)
        ensures
            digit == (ch matches Some(c) && is_digit(c)),
    {
        if let Some(c) = ch {
            '0' <= c && c <= '9'
        } else {
            false
        }
    }

    /// Whether `c` may begin an identifier: an ASCII letter or an underscore.
    fn is_alpha(c: char) -> (alpha: bool)
        ensures
            alpha == is_alpha(c),
    {
        ('a' <= c && c <= 'z') || ('A' <= c && c <= 'Z') || c == '_'
    }

    /// Whether `ch` is a character that an identifier may continue with: an
    /// ASCII letter, an underscore or an ASCII decimal digit.
    fn is_alpha_numeric(ch: Option<char>) -> (alpha_numeric: bool)
        ensures
            alpha_numeric == (ch matches Some(c) && is_alpha_numeric(c)),
    {
        if let Some(c) = ch {
            Scanner::is_alpha(c) || Scanner::is_digit(ch)
        } else {
            false
        }
    }

    /// Reads the rest of a string literal whose opening quote has been read.
    /// Where a closing quote follows, adds the token, whose value is the text
    /// between the quotes; where the source ends first, returns the error, on
    /// the line on which the source ends.
    fn string(&mut self) -> (result: Result<(), LoxError>)
        requires
            old(self).inv(),
            old(self).current == old(self).start + 1,
            old(self).source[old(self).start as int] == '"',
        ensures
            final(self).has_read(old(self), lexeme_at(old(self).source@, old(self).start as int)),
            final(self).reports(result, lexeme_at(old(self).source@, old(self).start as int)),
    {
        let ghost src = self.source@;
        while self.peek() != Some('"') && !self.is_at_end()
            invariant
                self.inv(),
                self.source@ == src,
                self.read_on(old(self), self.current as int, Seq::empty()),
                self.start < self.current,
                run_end(src, self.current as int, string_characters()) == run_end(
                    src,
                    self.start + 1,
                    string_characters(),
                ),
            decreases self.source.len() - self.current,
        {
            proof {
                lemma_line_step(src, self.current as int);
                lemma_line_bounds(src, self.current as int);
            }
            if self.peek() == Some('\n') {
                self.line += 1;
            }
            self.advance();
        }

        if self.is_at_end() {
            return Err(LoxError::error(self.line, "Unterminated string.".to_string()));
        }
        proof {
            lemma_line_step(src, self.current as int);
        }
        self.advance();

        let value = self.text(self.start + 1, self.current - 1);
        proof {
            let text = src.subrange(self.start as int, self.current as int);
            assert(value@ =~= text.subrange(1, text.len() - 1));
        }
        self.add_token_object(TokenType::String, Some(Object::Str(value)));
        Ok(())
    }

    /// The characters of the source from position `from` up to, but not
    /// including, position `to`.
    fn text(&self, from: usize, to: usize) -> (text: String)
        requires
            from <= to <= self.source.len(),
        ensures
            text@ == self.source@.subrange(from as int, to as int),
    {
        let mut text = String::new();
        let mut i: usize = from;
        while i < to
            invariant
                from <= i <= to <= self.source.len(),
                text@ == self.source@.subrange(from as int, i as int),
            decreases to - i,
        {
            text.push(self.source[i]);
            i += 1;
        }
        text
    }

    /// Whether `text` and `word` hold the same characters.
    fn spells(text: &str, word: &str) -> (same: bool)
        ensures
            same == (text@ == word@),
    {
        broadcast use vstd::string::group_string_axioms;

        let mut rest_of_text = text.chars();
        let mut rest_of_word = word.chars();
        let ghost mut read: Seq<char> = Seq::empty();
        loop
            invariant
                text@ == read + rest_of_text.remaining(),
                word@ == read + rest_of_word.remaining(),
                rest_of_text.decrease() is Some,
            decreases rest_of_text.decrease()->0,
        {
            let ghost text_left = rest_of_text.remaining();
            let ghost word_left = rest_of_word.remaining();
            match (rest_of_text.next(), rest_of_word.next()) {
                (None, None) => {
                    assert(text@ =~= word@);
                    return true;
                },
                (Some(a), Some(b)) => {
                    assert(text@[read.len() as int] == a);
                    assert(word@[read.len() as int] == b);
                    if a != b {
                        return false;
                    }
                    proof {
                        read = read.push(a);
                        assert(text@ =~= read + text_left.drop_first());
                        assert(word@ =~= read + word_left.drop_first());
                    }
                },
                _ => {
                    assert(text@.len() != word@.len());
                    return false;
                },
            }
        }
    }
}

} // verus!
