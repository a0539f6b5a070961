use tinylex::lexer::{has_repeated_dot, tokenize, Lexer};
use tinylex::token::{LexError, Token};

fn ident(s: &str) -> Token {
    Token::Identifier(s.to_string())
}

fn number(s: &str) -> Token {
    Token::NumberLiteral(s.to_string())
}

fn ok_tokens(input: &str) -> Vec<Token> {
    tokenize(input)
        .into_iter()
        .map(|r| r.expect("unexpected lexing error"))
        .collect()
}

#[test]
fn empty_input_ends_immediately() {
    let mut lx = Lexer::new("");
    assert_eq!(lx.next_token(), Ok(None));
    assert_eq!(tokenize(""), Vec::new());
}

#[test]
fn whitespace_only_input_ends_with_no_tokens() {
    assert_eq!(tokenize(" \t\r\n  "), Vec::new());
}

#[test]
fn exhaustion_is_stable() {
    let mut lx = Lexer::new("x");
    assert_eq!(lx.next_token(), Ok(Some(ident("x"))));
    assert_eq!(lx.next_token(), Ok(None));
    assert_eq!(lx.next_token(), Ok(None));
}

#[test]
fn end_to_end_let_statement() {
    assert_eq!(
        ok_tokens("let x = 3 + 4;"),
        vec![
            Token::Let,
            ident("x"),
            Token::Equal,
            number("3"),
            Token::Plus,
            number("4"),
            Token::SemiColon,
        ]
    );
    let mut lx = Lexer::new("let x = 3 + 4;");
    for _ in 0..7 {
        assert!(matches!(lx.next_token(), Ok(Some(_))));
    }
    assert_eq!(lx.next_token(), Ok(None));
}

#[test]
fn end_to_end_parenthesized_expression() {
    assert_eq!(
        ok_tokens("(a*b)/c^2"),
        vec![
            Token::LParen,
            ident("a"),
            Token::Star,
            ident("b"),
            Token::RParen,
            Token::Slash,
            ident("c"),
            Token::Caret,
            number("2"),
        ]
    );
}

#[test]
fn all_single_char_tokens() {
    assert_eq!(
        ok_tokens("= + - * / ^ ; ( )"),
        vec![
            Token::Equal,
            Token::Plus,
            Token::Minus,
            Token::Star,
            Token::Slash,
            Token::Caret,
            Token::SemiColon,
            Token::LParen,
            Token::RParen,
        ]
    );
}

#[test]
fn keyword_let_takes_precedence_over_identifier() {
    assert_eq!(ok_tokens("let"), vec![Token::Let]);
    assert_ne!(ok_tokens("let"), vec![ident("let")]);
}

#[test]
fn keyword_matching_is_exact_not_prefix() {
    assert_eq!(ok_tokens("letx"), vec![ident("letx")]);
    assert_eq!(ok_tokens("lets"), vec![ident("lets")]);
    assert_eq!(ok_tokens("Let"), vec![ident("Let")]);
    assert_eq!(ok_tokens("le"), vec![ident("le")]);
}

#[test]
fn lookup_keyword_maps_every_identifier() {
    assert_eq!(Lexer::lookup_keyword("let".to_string()), Token::Let);
    assert_eq!(Lexer::lookup_keyword("letx".to_string()), ident("letx"));
    assert_eq!(Lexer::lookup_keyword("".to_string()), ident(""));
}

#[test]
fn numeric_fidelity_fractional() {
    let toks = ok_tokens("3.14");
    assert_eq!(toks, vec![number("3.14")]);
    match &toks[0] {
        Token::NumberLiteral(text) => {
            let value: f64 = text.parse().unwrap();
            assert_eq!(value, 3.14);
        }
        other => panic!("expected a number literal, got {:?}", other),
    }
}

#[test]
fn numeric_fidelity_integral() {
    let toks = ok_tokens("42");
    assert_eq!(toks, vec![number("42")]);
    match &toks[0] {
        Token::NumberLiteral(text) => {
            let value: f64 = text.parse().unwrap();
            assert_eq!(value, 42.0);
        }
        other => panic!("expected a number literal, got {:?}", other),
    }
}

#[test]
fn number_with_trailing_dot_is_one_literal() {
    let toks = ok_tokens("1.");
    assert_eq!(toks, vec![number("1.")]);
    match &toks[0] {
        Token::NumberLiteral(text) => {
            let value: f64 = text.parse().unwrap();
            assert_eq!(value, 1.0);
        }
        other => panic!("expected a number literal, got {:?}", other),
    }
}

#[test]
fn malformed_number_is_surfaced_as_error() {
    let mut lx = Lexer::new("1.2.3");
    assert_eq!(
        lx.next_token(),
        Err(LexError::MalformedNumber("1.2.3".to_string()))
    );
    assert_eq!(lx.next_token(), Ok(None));
}

#[test]
fn malformed_number_consumes_whole_run_and_scanning_continues() {
    assert_eq!(
        tokenize("1.2.3 + x"),
        vec![
            Err(LexError::MalformedNumber("1.2.3".to_string())),
            Ok(Token::Plus),
            Ok(ident("x")),
        ]
    );
}

#[test]
fn standalone_dot_is_unrecognized() {
    assert_eq!(
        tokenize("."),
        vec![Err(LexError::UnrecognizedCharacter('.'))]
    );
}

#[test]
fn unrecognized_character_is_reported_and_skipped() {
    assert_eq!(
        tokenize("a @ b"),
        vec![
            Ok(ident("a")),
            Err(LexError::UnrecognizedCharacter('@')),
            Ok(ident("b")),
        ]
    );
}

#[test]
fn identifiers_may_contain_digits_and_underscores() {
    assert_eq!(ok_tokens("x1_2 _start"), vec![ident("x1_2"), ident("_start")]);
}

#[test]
fn identifiers_accept_unicode_letters() {
    assert_eq!(ok_tokens("héllo"), vec![ident("héllo")]);
}

#[test]
fn number_stops_before_letter() {
    assert_eq!(ok_tokens("2x"), vec![number("2"), ident("x")]);
}

#[test]
fn is_letter_accepts_letters_and_underscore_only() {
    assert!(Lexer::is_letter('a'));
    assert!(Lexer::is_letter('Z'));
    assert!(Lexer::is_letter('_'));
    assert!(!Lexer::is_letter('1'));
    assert!(!Lexer::is_letter(' '));
    assert!(!Lexer::is_letter('.'));
}

#[test]
fn has_repeated_dot_counts_dots() {
    assert!(has_repeated_dot("1.2.3"));
    assert!(has_repeated_dot("..."));
    assert!(has_repeated_dot("1..2"));
    assert!(!has_repeated_dot("3.14"));
    assert!(!has_repeated_dot("42"));
    assert!(!has_repeated_dot(""));
}

#[test]
fn peek_is_idempotent_and_does_not_advance() {
    let lx = Lexer::new("ab");
    assert_eq!(lx.peek_char(), Some('a'));
    assert_eq!(lx.peek_char(), Some('a'));
    assert_eq!(lx.peek_char(), Some('a'));
    let mut peeked = lx;
    let mut unpeeked = Lexer::new("ab");
    assert_eq!(peeked.next_token(), unpeeked.next_token());
    assert_eq!(peeked.next_token(), unpeeked.next_token());
}

#[test]
fn peek_previews_exactly_what_read_consumes() {
    let mut lx = Lexer::new("xy");
    assert_eq!(lx.peek_char(), Some('x'));
    assert_eq!(lx.read_char(), Some('x'));
    assert_eq!(lx.peek_char(), Some('y'));
    assert_eq!(lx.read_char(), Some('y'));
    assert_eq!(lx.peek_char(), None);
    assert_eq!(lx.read_char(), None);
}

#[test]
fn skip_whitespace_stops_at_first_non_whitespace() {
    let mut lx = Lexer::new(" \t\n a");
    lx.skip_whitespace();
    assert_eq!(lx.read_char(), Some('a'));
    let mut at_end = Lexer::new("   ");
    at_end.skip_whitespace();
    assert_eq!(at_end.read_char(), None);
}

#[test]
fn read_identifier_collects_the_run() {
    let mut lx = Lexer::new("bc1_d e");
    assert_eq!(lx.read_identifier('a'), "abc1_d".to_string());
    assert_eq!(lx.read_char(), Some(' '));
}

#[test]
fn read_number_collects_digits_and_dots_verbatim() {
    let mut lx = Lexer::new("2.3.4x");
    assert_eq!(lx.read_number('1'), "12.3.4".to_string());
    assert_eq!(lx.read_char(), Some('x'));
}

#[test]
fn whitespace_between_tokens_is_transparent() {
    assert_eq!(tokenize("let x=1"), tokenize("  let\tx =\n1 "));
    assert_eq!(tokenize("a+b"), tokenize("a + b"));
    assert_eq!(tokenize("1.2.3+"), tokenize("  1.2.3  +  "));
}

#[test]
fn whitespace_prevents_merging_adjacent_runs() {
    assert_eq!(ok_tokens("ab"), vec![ident("ab")]);
    assert_eq!(ok_tokens("a b"), vec![ident("a"), ident("b")]);
    assert_eq!(ok_tokens("12"), vec![number("12")]);
    assert_eq!(ok_tokens("1 2"), vec![number("1"), number("2")]);
}

#[test]
fn token_texts_concatenate_to_the_source() {
    let input = "let x=3.14+y_2;(a*b)";
    let mut rebuilt = String::new();
    for step in tokenize(input) {
        match step {
            Ok(Token::Identifier(s)) => rebuilt.push_str(&s),
            Ok(Token::NumberLiteral(s)) => rebuilt.push_str(&s),
            Ok(Token::Let) => rebuilt.push_str("let"),
            Ok(Token::Plus) => rebuilt.push('+'),
            Ok(Token::Minus) => rebuilt.push('-'),
            Ok(Token::Star) => rebuilt.push('*'),
            Ok(Token::Slash) => rebuilt.push('/'),
            Ok(Token::Caret) => rebuilt.push('^'),
            Ok(Token::Equal) => rebuilt.push('='),
            Ok(Token::SemiColon) => rebuilt.push(';'),
            Ok(Token::LParen) => rebuilt.push('('),
            Ok(Token::RParen) => rebuilt.push(')'),
            Err(e) => panic!("unexpected lexing error {:?}", e),
        }
    }
    assert_eq!(rebuilt, input.replace(' ', ""));
}
