use lox_scanner::error::LoxError;
use lox_scanner::scanner::Scanner;
use lox_scanner::token::{Object, Token};
use lox_scanner::token_type::TokenType;

fn scan(source: &str) -> (Vec<Token>, Vec<LoxError>) {
    Scanner::new(source.to_string()).scan_tokens()
}

fn kinds(tokens: &[Token]) -> Vec<TokenType> {
    tokens.iter().map(|token| token.kind).collect()
}

fn lexemes(tokens: &[Token]) -> Vec<&str> {
    tokens.iter().map(|token| token.lexeme.as_str()).collect()
}

fn lines(tokens: &[Token]) -> Vec<usize> {
    tokens.iter().map(|token| token.line).collect()
}

#[test]
fn empty_source_yields_the_end_token_alone() {
    let (tokens, errors) = scan("");
    assert!(errors.is_empty());
    assert_eq!(tokens, vec![Token::eof(1)]);
}

#[test]
fn end_token_has_no_text_and_no_value() {
    let token = Token::eof(7);
    assert_eq!(token.kind, TokenType::Eof);
    assert_eq!(token.lexeme, "");
    assert_eq!(token.literal, None);
    assert_eq!(token.line, 7);
}

#[test]
fn token_new_keeps_its_parts() {
    let token = Token::new(
        TokenType::String,
        "\"hi\"".to_string(),
        Some(Object::Str("hi".to_string())),
        3,
    );
    assert_eq!(token.kind, TokenType::String);
    assert_eq!(token.lexeme, "\"hi\"");
    assert_eq!(token.literal, Some(Object::Str("hi".to_string())));
    assert_eq!(token.line, 3);
}

#[test]
fn error_keeps_its_line_and_message() {
    let error = LoxError::error(12, "Unexpected character.".to_string());
    assert_eq!(error.line(), 12);
    assert_eq!(error.message(), "Unexpected character.");
}

#[test]
fn punctuation_characters_are_tokens_by_themselves() {
    let (tokens, errors) = scan("(){},.-+;*/");
    assert!(errors.is_empty());
    assert_eq!(
        kinds(&tokens),
        vec![
            TokenType::LeftParen,
            TokenType::RightParen,
            TokenType::LeftBrace,
            TokenType::RightBrace,
            TokenType::Comma,
            TokenType::Dot,
            TokenType::Minus,
            TokenType::Plus,
            TokenType::Semicolon,
            TokenType::Star,
            TokenType::Slash,
            TokenType::Eof,
        ]
    );
    assert_eq!(lexemes(&tokens), vec!["(", ")", "{", "}", ",", ".", "-", "+", ";", "*", "/", ""]);
    assert!(tokens.iter().all(|token| token.literal.is_none()));
    assert!(tokens.iter().all(|token| token.line == 1));
}

#[test]
fn bang_equal_is_one_token() {
    let (tokens, errors) = scan("!=");
    assert!(errors.is_empty());
    assert_eq!(
        tokens,
        vec![Token::new(TokenType::BangEqual, "!=".to_string(), None, 1), Token::eof(1)]
    );
}

#[test]
fn operators_take_a_following_equal_sign() {
    let (tokens, errors) = scan("! != = == < <= > >=");
    assert!(errors.is_empty());
    assert_eq!(
        kinds(&tokens),
        vec![
            TokenType::Bang,
            TokenType::BangEqual,
            TokenType::Equal,
            TokenType::EqualEqual,
            TokenType::Less,
            TokenType::LessEqual,
            TokenType::Greater,
            TokenType::GreaterEqual,
            TokenType::Eof,
        ]
    );
    assert_eq!(lexemes(&tokens), vec!["!", "!=", "=", "==", "<", "<=", ">", ">=", ""]);
}

#[test]
fn operators_take_one_equal_sign_only() {
    let (tokens, errors) = scan("===!==<==");
    assert!(errors.is_empty());
    assert_eq!(
        kinds(&tokens),
        vec![
            TokenType::EqualEqual,
            TokenType::Equal,
            TokenType::BangEqual,
            TokenType::Equal,
            TokenType::LessEqual,
            TokenType::Equal,
            TokenType::Eof,
        ]
    );
}

#[test]
fn operator_at_the_end_of_the_source_stands_alone() {
    let (tokens, errors) = scan(">");
    assert!(errors.is_empty());
    assert_eq!(
        tokens,
        vec![Token::new(TokenType::Greater, ">".to_string(), None, 1), Token::eof(1)]
    );
}

#[test]
fn comment_yields_no_token_and_the_next_line_is_scanned() {
    let (tokens, errors) = scan("// print \"x\" @\n+");
    assert!(errors.is_empty());
    assert_eq!(
        tokens,
        vec![Token::new(TokenType::Plus, "+".to_string(), None, 2), Token::eof(2)]
    );
}

#[test]
fn comment_may_end_the_source() {
    let (tokens, errors) = scan("1 // one");
    assert!(errors.is_empty());
    assert_eq!(kinds(&tokens), vec![TokenType::Number, TokenType::Eof]);
    assert_eq!(lines(&tokens), vec![1, 1]);
}

#[test]
fn comment_follows_a_token_on_its_line() {
    let (tokens, errors) = scan("a // b\nc");
    assert!(errors.is_empty());
    assert_eq!(lexemes(&tokens), vec!["a", "c", ""]);
    assert_eq!(lines(&tokens), vec![1, 2, 2]);
}

#[test]
fn single_slash_is_a_token() {
    let (tokens, errors) = scan("a/b");
    assert!(errors.is_empty());
    assert_eq!(
        kinds(&tokens),
        vec![TokenType::Identifier, TokenType::Slash, TokenType::Identifier, TokenType::Eof]
    );
}

#[test]
fn blanks_yield_no_token() {
    let (tokens, errors) = scan(" \r\t+ \t");
    assert!(errors.is_empty());
    assert_eq!(
        tokens,
        vec![Token::new(TokenType::Plus, "+".to_string(), None, 1), Token::eof(1)]
    );
}

#[test]
fn newlines_advance_the_line() {
    let (tokens, errors) = scan("a\nb\n\nc\n");
    assert!(errors.is_empty());
    assert_eq!(lexemes(&tokens), vec!["a", "b", "c", ""]);
    assert_eq!(lines(&tokens), vec![1, 2, 4, 5]);
}

#[test]
fn string_value_is_the_text_between_the_quotes() {
    let (tokens, errors) = scan("\"abc\"");
    assert!(errors.is_empty());
    assert_eq!(
        tokens,
        vec![
            Token::new(
                TokenType::String,
                "\"abc\"".to_string(),
                Some(Object::Str("abc".to_string())),
                1,
            ),
            Token::eof(1),
        ]
    );
}

#[test]
fn empty_string_has_an_empty_value() {
    let (tokens, errors) = scan("\"\"");
    assert!(errors.is_empty());
    assert_eq!(
        tokens,
        vec![
            Token::new(
                TokenType::String,
                "\"\"".to_string(),
                Some(Object::Str(String::new())),
                1,
            ),
            Token::eof(1),
        ]
    );
}

#[test]
fn string_keeps_what_would_be_a_comment_or_an_error() {
    let (tokens, errors) = scan("\"// @ 1.5 for\"");
    assert!(errors.is_empty());
    assert_eq!(kinds(&tokens), vec![TokenType::String, TokenType::Eof]);
    assert_eq!(tokens[0].literal, Some(Object::Str("// @ 1.5 for".to_string())));
}

#[test]
fn string_holds_characters_beyond_ascii() {
    let (tokens, errors) = scan("\"h\u{e9}llo \u{4e16}\u{754c}\" x");
    assert!(errors.is_empty());
    assert_eq!(lexemes(&tokens), vec!["\"h\u{e9}llo \u{4e16}\u{754c}\"", "x", ""]);
    assert_eq!(
        tokens[0].literal,
        Some(Object::Str("h\u{e9}llo \u{4e16}\u{754c}".to_string()))
    );
}

#[test]
fn unterminated_string_is_an_error_and_no_token() {
    let (tokens, errors) = scan("\"abc");
    assert_eq!(errors, vec![LoxError::error(1, "Unterminated string.".to_string())]);
    assert_eq!(tokens, vec![Token::eof(1)]);
}

#[test]
fn unterminated_string_is_reported_where_the_source_ends() {
    let (tokens, errors) = scan("x \"abc\ndef\n");
    assert_eq!(errors, vec![LoxError::error(3, "Unterminated string.".to_string())]);
    assert_eq!(
        tokens,
        vec![Token::new(TokenType::Identifier, "x".to_string(), None, 1), Token::eof(3)]
    );
}

#[test]
fn lone_quote_is_an_unterminated_string() {
    let (tokens, errors) = scan("\"");
    assert_eq!(errors, vec![LoxError::error(1, "Unterminated string.".to_string())]);
    assert_eq!(tokens, vec![Token::eof(1)]);
}

#[test]
fn multi_line_string_counts_its_newline_once() {
    let (tokens, errors) = scan("\"a\nb\" +");
    assert!(errors.is_empty());
    assert_eq!(
        tokens,
        vec![
            Token::new(
                TokenType::String,
                "\"a\nb\"".to_string(),
                Some(Object::Str("a\nb".to_string())),
                1,
            ),
            Token::new(TokenType::Plus, "+".to_string(), None, 2),
            Token::eof(2),
        ]
    );
}

#[test]
fn string_lies_on_the_line_of_its_opening_quote() {
    let (tokens, errors) = scan("\n\"a\n\nb\"\nc");
    assert!(errors.is_empty());
    assert_eq!(kinds(&tokens), vec![TokenType::String, TokenType::Identifier, TokenType::Eof]);
    assert_eq!(lines(&tokens), vec![2, 5, 5]);
}

#[test]
fn forest_is_an_identifier() {
    let (tokens, errors) = scan("forest");
    assert!(errors.is_empty());
    assert_eq!(
        tokens,
        vec![Token::new(TokenType::Identifier, "forest".to_string(), None, 1), Token::eof(1)]
    );
}

#[test]
fn reserved_words_are_told_from_identifiers() {
    let (tokens, errors) = scan(
        "and class else false for fun if nil or print return super this true var while",
    );
    assert!(errors.is_empty());
    assert_eq!(
        kinds(&tokens),
        vec![
            TokenType::And,
            TokenType::Class,
            TokenType::Else,
            TokenType::False,
            TokenType::For,
            TokenType::Fun,
            TokenType::If,
            TokenType::Nil,
            TokenType::Or,
            TokenType::Print,
            TokenType::Return,
            TokenType::Super,
            TokenType::This,
            TokenType::True,
            TokenType::Var,
            TokenType::While,
            TokenType::Eof,
        ]
    );
    assert!(tokens.iter().all(|token| token.literal.is_none()));
}

#[test]
fn reserved_words_are_matched_in_full_and_in_lower_case() {
    let (tokens, errors) = scan("For fo fore iff _if or_ var1 WHILE nill");
    assert!(errors.is_empty());
    assert_eq!(tokens.len(), 10);
    assert!(tokens[..9].iter().all(|token| token.kind == TokenType::Identifier));
    assert_eq!(
        lexemes(&tokens),
        vec!["For", "fo", "fore", "iff", "_if", "or_", "var1", "WHILE", "nill", ""]
    );
}

#[test]
fn identifier_holds_letters_digits_and_underscores() {
    let (tokens, errors) = scan("_a1_B2__ x9");
    assert!(errors.is_empty());
    assert_eq!(
        tokens,
        vec![
            Token::new(TokenType::Identifier, "_a1_B2__".to_string(), None, 1),
            Token::new(TokenType::Identifier, "x9".to_string(), None, 1),
            Token::eof(1),
        ]
    );
}

#[test]
fn identifier_ends_before_a_character_beyond_ascii() {
    let (tokens, errors) = scan("caf\u{e9}");
    assert_eq!(errors, vec![LoxError::error(1, "Unexpected character.".to_string())]);
    assert_eq!(
        tokens,
        vec![Token::new(TokenType::Identifier, "caf".to_string(), None, 1), Token::eof(1)]
    );
}

#[test]
fn number_with_dangling_dot_leaves_the_dot() {
    let (tokens, errors) = scan("3.");
    assert!(errors.is_empty());
    assert_eq!(
        tokens,
        vec![
            Token::new(
                TokenType::Number,
                "3".to_string(),
                Some(Object::Num("3".to_string())),
                1,
            ),
            Token::new(TokenType::Dot, ".".to_string(), None, 1),
            Token::eof(1),
        ]
    );
}

#[test]
fn number_takes_a_fraction() {
    let (tokens, errors) = scan("12.50");
    assert!(errors.is_empty());
    assert_eq!(
        tokens,
        vec![
            Token::new(
                TokenType::Number,
                "12.50".to_string(),
                Some(Object::Num("12.50".to_string())),
                1,
            ),
            Token::eof(1),
        ]
    );
}

#[test]
fn number_takes_one_point_only() {
    let (tokens, errors) = scan("1.2.3");
    assert!(errors.is_empty());
    assert_eq!(
        kinds(&tokens),
        vec![TokenType::Number, TokenType::Dot, TokenType::Number, TokenType::Eof]
    );
    assert_eq!(lexemes(&tokens), vec!["1.2", ".", "3", ""]);
}

#[test]
fn number_does_not_begin_with_a_point() {
    let (tokens, errors) = scan(".5");
    assert!(errors.is_empty());
    assert_eq!(kinds(&tokens), vec![TokenType::Dot, TokenType::Number, TokenType::Eof]);
    assert_eq!(lexemes(&tokens), vec![".", "5", ""]);
}

#[test]
fn number_ends_before_a_letter() {
    let (tokens, errors) = scan("12abc 1.x");
    assert!(errors.is_empty());
    assert_eq!(
        kinds(&tokens),
        vec![
            TokenType::Number,
            TokenType::Identifier,
            TokenType::Number,
            TokenType::Dot,
            TokenType::Identifier,
            TokenType::Eof,
        ]
    );
    assert_eq!(lexemes(&tokens), vec!["12", "abc", "1", ".", "x", ""]);
}

#[test]
fn numeral_reads_as_a_floating_point_number() {
    let (tokens, errors) = scan("12.5 007 0.1 123456789012345678901234567890");
    assert!(errors.is_empty());
    let values: Vec<f64> = tokens
        .iter()
        .filter_map(|token| match &token.literal {
            Some(Object::Num(numeral)) => Some(numeral.parse::<f64>().unwrap()),
            _ => None,
        })
        .collect();
    assert_eq!(values, vec![12.5, 7.0, 0.1, 123456789012345678901234567890.0]);
}

#[test]
fn unexpected_character_is_an_error_and_the_scan_goes_on() {
    let (tokens, errors) = scan("@+");
    assert_eq!(errors, vec![LoxError::error(1, "Unexpected character.".to_string())]);
    assert_eq!(
        tokens,
        vec![Token::new(TokenType::Plus, "+".to_string(), None, 1), Token::eof(1)]
    );
}

#[test]
fn every_error_is_reported_on_its_line() {
    let (tokens, errors) = scan("a @\n# b\n\n$ \"c");
    assert_eq!(
        errors,
        vec![
            LoxError::error(1, "Unexpected character.".to_string()),
            LoxError::error(2, "Unexpected character.".to_string()),
            LoxError::error(4, "Unexpected character.".to_string()),
            LoxError::error(4, "Unterminated string.".to_string()),
        ]
    );
    assert_eq!(lexemes(&tokens), vec!["a", "b", ""]);
    assert_eq!(lines(&tokens), vec![1, 2, 4]);
}

#[test]
fn clean_source_has_no_error_and_ends_in_one_end_token() {
    let source = "var answer = (40 + 2) * 1.0; // the answer\nprint \"done\";\n";
    let (tokens, errors) = scan(source);
    assert!(errors.is_empty());
    assert_eq!(tokens.last(), Some(&Token::eof(3)));
    assert_eq!(tokens.iter().filter(|token| token.kind == TokenType::Eof).count(), 1);
    assert_eq!(
        kinds(&tokens),
        vec![
            TokenType::Var,
            TokenType::Identifier,
            TokenType::Equal,
            TokenType::LeftParen,
            TokenType::Number,
            TokenType::Plus,
            TokenType::Number,
            TokenType::RightParen,
            TokenType::Star,
            TokenType::Number,
            TokenType::Semicolon,
            TokenType::Print,
            TokenType::String,
            TokenType::Semicolon,
            TokenType::Eof,
        ]
    );
}

#[test]
fn source_with_errors_still_ends_in_one_end_token() {
    let (tokens, errors) = scan("@ \"open");
    assert_eq!(errors.len(), 2);
    assert_eq!(tokens, vec![Token::eof(1)]);
}

#[test]
fn token_lexemes_are_the_source_without_blanks_and_comments() {
    let source = "fun add(a, b) { // sum\n\treturn a+b >= 1.5;\r\n}\n\"s p\" != nil";
    let (tokens, errors) = scan(source);
    assert!(errors.is_empty());
    let joined: String = tokens.iter().map(|token| token.lexeme.as_str()).collect();
    assert_eq!(joined, "funadd(a,b){returna+b>=1.5;}\"s p\"!=nil");
}

#[test]
fn token_lexemes_lie_in_the_source_in_order() {
    let source = "if (x1 <= 10.25) print \"a\nb\"; // end";
    let (tokens, errors) = scan(source);
    assert!(errors.is_empty());
    let mut rest = source;
    for token in &tokens {
        let at = rest.find(token.lexeme.as_str()).unwrap();
        let skipped = &rest[..at];
        assert!(skipped.chars().all(|c| c == ' ' || c == '\r' || c == '\t' || c == '\n'));
        rest = &rest[at + token.lexeme.len()..];
    }
    assert_eq!(rest, " // end");
}
