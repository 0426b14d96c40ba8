use tokenizer::errors::{ParseError, TokenParseError};
use tokenizer::token::Token;

fn resolve(s: &str) -> Result<Token, TokenParseError> {
    Token::try_from(s.to_string())
}

#[test]
fn single_characters() {
    assert_eq!(Token::from('+'), Token::Plus);
    assert_eq!(Token::from('}'), Token::RBrace);
    assert_eq!(Token::from('\0'), Token::EOF);
    assert_eq!(Token::from('#'), Token::Illegal);
    assert_eq!(Token::from('a'), Token::Illegal);
}

#[test]
fn fixed_texts_resolve() {
    assert_eq!(resolve("==").unwrap(), Token::Eq);
    assert_eq!(resolve("!=").unwrap(), Token::NotEq);
    assert_eq!(resolve("else").unwrap(), Token::Else);
}

#[test]
fn literals_resolve() {
    assert_eq!(resolve("\"a b\"").unwrap(), Token::String("a b".to_string()));
    assert_eq!(resolve("42").unwrap(), Token::Integer(42));
    assert_eq!(resolve("4.5").unwrap(), Token::Float("4.5".to_string()));
    assert_eq!(resolve("name").unwrap(), Token::Ident("name".to_string()));
}

#[test]
fn other_texts_resolve_without_error() {
    assert_eq!(resolve("\"open").unwrap(), Token::String("open".to_string()));
    assert_eq!(resolve("\"").unwrap(), Token::String(String::new()));
    assert_eq!(resolve("a b").unwrap(), Token::Ident("a b".to_string()));
    assert_eq!(resolve("x1").unwrap(), Token::Ident("x1".to_string()));
    assert_eq!(resolve(";").unwrap(), Token::Ident(";".to_string()));
    assert_eq!(resolve("\0").unwrap(), Token::Ident("\0".to_string()));
    assert_eq!(resolve("").unwrap(), Token::Ident(String::new()));
}

#[test]
fn malformed_lexemes() {
    match resolve("12ab") {
        Err(TokenParseError::ParseError(ParseError::IntError(text))) => assert_eq!(text, "12ab"),
        other => panic!("unexpected {:?}", other),
    }
    match resolve("99999999999999999999") {
        Err(TokenParseError::ParseError(ParseError::IntError(text))) => {
            assert_eq!(text, "99999999999999999999")
        }
        other => panic!("unexpected {:?}", other),
    }
    match resolve("1.2.3") {
        Err(TokenParseError::ParseError(ParseError::FloatError(text))) => assert_eq!(text, "1.2.3"),
        other => panic!("unexpected {:?}", other),
    }
}

#[test]
fn parse_error_converts() {
    let e = TokenParseError::from(ParseError::IntError("9x".to_string()));
    assert!(matches!(e, TokenParseError::ParseError(ParseError::IntError(_))));
}

#[test]
fn float_texts_with_exponent() {
    for text in ["1.5e3", "1.e5", "2.5E-3", "7.0e+12", "3."] {
        assert_eq!(resolve(text).unwrap(), Token::Float(text.to_string()));
        assert!(text.parse::<f64>().is_ok());
    }
    assert_eq!(resolve("1.5e3").unwrap(), Token::Float("1.5e3".to_string()));
    for text in ["1.5e", "1.5e+", "1.5x", "1.2.3", "1.5e3.0", "1.5e3x"] {
        match resolve(text) {
            Err(TokenParseError::ParseError(ParseError::FloatError(t))) => assert_eq!(t, text),
            other => panic!("unexpected {:?} for {}", other, text),
        }
        assert!(text.parse::<f64>().is_err());
    }
}
