use tokenizer::errors::{LexerError, ParseError};
use tokenizer::lexer::{lex, Lexer};
use tokenizer::text::is_valid_identifier_char;
use tokenizer::token::Token;

fn ident(s: &str) -> Token {
    Token::Ident(s.to_string())
}

#[test]
fn whitespace_only_gives_eof() {
    assert_eq!(lex("").unwrap(), vec![Token::EOF]);
    assert_eq!(lex(" \t\r\n  \n").unwrap(), vec![Token::EOF]);
}

#[test]
fn integer_literal_value() {
    assert_eq!(lex("0").unwrap(), vec![Token::Integer(0), Token::EOF]);
    assert_eq!(lex("12345").unwrap(), vec![Token::Integer(12345), Token::EOF]);
    assert_eq!(lex("007").unwrap(), vec![Token::Integer(7), Token::EOF]);
}

#[test]
fn integer_limits() {
    assert_eq!(
        lex("9223372036854775807").unwrap(),
        vec![Token::Integer(i64::MAX), Token::EOF]
    );
    match lex("9223372036854775808") {
        Err(LexerError::MalformedNumber(ParseError::IntError(text))) => {
            assert_eq!(text, "9223372036854775808")
        }
        other => panic!("unexpected {:?}", other),
    }
}

#[test]
fn float_literal_text() {
    assert_eq!(lex("10.2").unwrap(), vec![Token::Float("10.2".to_string()), Token::EOF]);
    assert_eq!(lex("3.").unwrap(), vec![Token::Float("3.".to_string()), Token::EOF]);
    match &lex("10.25").unwrap()[0] {
        Token::Float(text) => assert_eq!(text.parse::<f64>().unwrap(), 10.25f64),
        other => panic!("unexpected {:?}", other),
    }
}

#[test]
fn two_dots_are_malformed() {
    match lex("1.2.3") {
        Err(LexerError::MalformedNumber(ParseError::FloatError(text))) => assert_eq!(text, "1.2.3"),
        other => panic!("unexpected {:?}", other),
    }
    match lex("x = 4..5;") {
        Err(LexerError::MalformedNumber(ParseError::FloatError(text))) => assert_eq!(text, "4..5"),
        other => panic!("unexpected {:?}", other),
    }
}

#[test]
fn equals_and_assign() {
    assert_eq!(lex("==").unwrap(), vec![Token::Eq, Token::EOF]);
    assert_eq!(lex("=").unwrap(), vec![Token::Assign, Token::EOF]);
    assert_eq!(lex("= =").unwrap(), vec![Token::Assign, Token::Assign, Token::EOF]);
    assert_eq!(lex("===").unwrap(), vec![Token::Eq, Token::Assign, Token::EOF]);
}

#[test]
fn bang_and_not_equal() {
    assert_eq!(lex("!=").unwrap(), vec![Token::NotEq, Token::EOF]);
    assert_eq!(lex("!").unwrap(), vec![Token::Bang, Token::EOF]);
    assert_eq!(lex("!x").unwrap(), vec![Token::Bang, ident("x"), Token::EOF]);
}

#[test]
fn keywords_and_identifiers() {
    let keywords = [
        ("fn", Token::Fn),
        ("let", Token::Let),
        ("true", Token::True),
        ("false", Token::False),
        ("if", Token::If),
        ("else", Token::Else),
        ("return", Token::Return),
    ];
    for (text, token) in keywords {
        assert_eq!(lex(text).unwrap(), vec![token, Token::EOF]);
    }
    assert_eq!(lex("letter").unwrap(), vec![ident("letter"), Token::EOF]);
    assert_eq!(lex("Let").unwrap(), vec![ident("Let"), Token::EOF]);
    assert_eq!(lex("_under_score").unwrap(), vec![ident("_under_score"), Token::EOF]);
}

#[test]
fn unicode_identifiers() {
    assert!(is_valid_identifier_char('é'));
    assert!(is_valid_identifier_char('_'));
    assert!(!is_valid_identifier_char('1'));
    assert!(!is_valid_identifier_char('€'));
    assert_eq!(lex("héllo").unwrap(), vec![ident("héllo"), Token::EOF]);
}

#[test]
fn rendering_rescans_to_same_token() {
    let tokens = vec![
        Token::Assign,
        Token::Bang,
        Token::Plus,
        Token::Minus,
        Token::Asterisk,
        Token::Slash,
        Token::Lt,
        Token::Gt,
        Token::Eq,
        Token::NotEq,
        Token::Comma,
        Token::Semicolon,
        Token::Colon,
        Token::LParen,
        Token::RParen,
        Token::LBrace,
        Token::RBrace,
        Token::LBracket,
        Token::RBracket,
        Token::Fn,
        Token::Let,
        Token::True,
        Token::False,
        Token::If,
        Token::Else,
        Token::Return,
    ];
    for t in tokens {
        let text = t.render();
        assert_eq!(lex(&text).unwrap(), vec![t.clone(), Token::EOF]);
        let resolved = Token::try_from(text.clone()).unwrap();
        if text.chars().count() == 1 {
            assert_eq!(resolved, Token::Ident(text));
        } else {
            assert_eq!(resolved, t);
        }
    }
    assert!(matches!(lex(&Token::EOF.render()), Err(LexerError::IllegalCharacter('\0'))));
}

#[test]
fn rendering_texts() {
    assert_eq!(Token::LBrace.render(), "{");
    assert_eq!(Token::Eq.render(), "==");
    assert_eq!(Token::Return.render(), "return");
    assert_eq!(Token::Illegal.render(), "ILLEGAL");
    assert_eq!(Token::EOF.render(), "\0");
    assert_eq!(Token::Integer(0).render(), "0");
    assert_eq!(Token::Integer(907).render(), "907");
    assert_eq!(Token::Integer(-42).render(), "-42");
    assert_eq!(Token::Integer(i64::MIN).render(), "-9223372036854775808");
    assert_eq!(Token::String("foo bar".to_string()).render(), "foo bar");
    assert_eq!(Token::Float("9.6".to_string()).render(), "9.6");
}

#[test]
fn example_let_statement() {
    assert_eq!(
        lex("let five = 5;").unwrap(),
        vec![Token::Let, ident("five"), Token::Assign, Token::Integer(5), Token::Semicolon, Token::EOF]
    );
}

#[test]
fn example_comparison() {
    assert_eq!(
        lex("10 == 10.2;").unwrap(),
        vec![
            Token::Integer(10),
            Token::Eq,
            Token::Float("10.2".to_string()),
            Token::Semicolon,
            Token::EOF
        ]
    );
}

#[test]
fn example_string() {
    assert_eq!(
        lex("\"foo bar\"").unwrap(),
        vec![Token::String("foo bar".to_string()), Token::EOF]
    );
    assert_eq!(lex("\"\"").unwrap(), vec![Token::String(String::new()), Token::EOF]);
}

#[test]
fn example_unterminated_string() {
    assert!(matches!(lex("\"unterminated"), Err(LexerError::UnterminatedString)));
    let mut lexer = Lexer::new("x \"open");
    assert_eq!(lexer.next_token().unwrap(), ident("x"));
    assert!(matches!(lexer.next_token(), Err(LexerError::UnterminatedString)));
    assert_eq!(lexer.next_token().unwrap(), Token::EOF);
}

#[test]
fn example_malformed_number() {
    assert!(matches!(lex("1.2.3"), Err(LexerError::MalformedNumber(_))));
}

#[test]
fn illegal_character_is_recoverable() {
    assert!(matches!(lex("a # b"), Err(LexerError::IllegalCharacter('#'))));
    let mut lexer = Lexer::new("a # b");
    assert_eq!(lexer.next_token().unwrap(), ident("a"));
    assert!(matches!(lexer.next_token(), Err(LexerError::IllegalCharacter('#'))));
    assert_eq!(lexer.next_token().unwrap(), ident("b"));
    assert_eq!(lexer.next_token().unwrap(), Token::EOF);
    assert!(matches!(lex("\0"), Err(LexerError::IllegalCharacter('\0'))));
}

#[test]
fn eof_repeats() {
    let mut lexer = Lexer::new("  ;  ");
    assert_eq!(lexer.next_token().unwrap(), Token::Semicolon);
    assert_eq!(lexer.next_token().unwrap(), Token::EOF);
    assert_eq!(lexer.next_token().unwrap(), Token::EOF);
    assert_eq!(lexer.next_token().unwrap(), Token::EOF);
}

#[test]
fn cursor_primitives() {
    let mut lexer = Lexer::new("ab");
    assert_eq!(lexer.current(), Some('a'));
    assert_eq!(lexer.peek(), Some('b'));
    lexer.read_char();
    assert_eq!(lexer.current(), Some('b'));
    assert_eq!(lexer.peek(), None);
    lexer.read_char();
    assert_eq!(lexer.current(), None);
    lexer.read_char();
    assert_eq!(lexer.current(), None);
}

#[test]
fn lexer_lex_drains_input() {
    let mut lexer = Lexer::new("if x { 1 }");
    assert_eq!(
        lexer.lex().unwrap(),
        vec![Token::If, ident("x"), Token::LBrace, Token::Integer(1), Token::RBrace, Token::EOF]
    );
}

#[test]
fn whitespace_classes_separate_lexemes() {
    assert_eq!(
        lex("a\tb\nc\rd").unwrap(),
        vec![ident("a"), ident("b"), ident("c"), ident("d"), Token::EOF]
    );
    assert_eq!(lex("x1").unwrap(), vec![ident("x"), Token::Integer(1), Token::EOF]);
}

#[test]
fn scanner_stops_a_number_before_a_letter() {
    assert_eq!(
        lex("1.5e3").unwrap(),
        vec![Token::Float("1.5".to_string()), ident("e"), Token::Integer(3), Token::EOF]
    );
}
