use tokenizer::lexer::{lex, Token};

#[test]
fn test_lexer() {
    let input = "let five = 5;
let ten = 10;

fn add(x, y) {
    return x + y;
}

let result = add(five, ten);
!-/*5;
5 < 10 > 5;


if (5 < 10) {
    return true;
} else {
    return false;
}


10 == 10.2;
10 != 9.6;
\"foobar\"
\"foo bar\"
[1, 2];
{\"foo\": \"bar\"}
";

    let expected_tokens: Vec<Token> = vec![
        Token::Let,
        Token::Ident("five".to_string()),
        Token::Assign,
        Token::Integer(5),
        Token::Semicolon,
        Token::Let,
        Token::Ident("ten".to_string()),
        Token::Assign,
        Token::Integer(10),
        Token::Semicolon,
        Token::Fn,
        Token::Ident("add".to_string()),
        Token::LParen,
        Token::Ident("x".to_string()),
        Token::Comma,
        Token::Ident("y".to_string()),
        Token::RParen,
        Token::LBrace,
        Token::Return,
        Token::Ident("x".to_string()),
        Token::Plus,
        Token::Ident("y".to_string()),
        Token::Semicolon,
        Token::RBrace,
        Token::Let,
        Token::Ident("result".to_string()),
        Token::Assign,
        Token::Ident("add".to_string()),
        Token::LParen,
        Token::Ident("five".to_string()),
        Token::Comma,
        Token::Ident("ten".to_string()),
        Token::RParen,
        Token::Semicolon,
        Token::Bang,
        Token::Minus,
        Token::Slash,
        Token::Asterisk,
        Token::Integer(5),
        Token::Semicolon,
        Token::Integer(5),
        Token::Lt,
        Token::Integer(10),
        Token::Gt,
        Token::Integer(5),
        Token::Semicolon,
        Token::If,
        Token::LParen,
        Token::Integer(5),
        Token::Lt,
        Token::Integer(10),
        Token::RParen,
        Token::LBrace,
        Token::Return,
        Token::True,
        Token::Semicolon,
        Token::RBrace,
        Token::Else,
        Token::LBrace,
        Token::Return,
        Token::False,
        Token::Semicolon,
        Token::RBrace,
        Token::Integer(10),
        Token::Eq,
        Token::Float("10.2".to_string()),
        Token::Semicolon,
        Token::Integer(10),
        Token::NotEq,
        Token::Float("9.6".to_string()),
        Token::Semicolon,
        Token::String("foobar".to_string()),
        Token::String("foo bar".to_string()),
        Token::LBracket,
        Token::Integer(1),
        Token::Comma,
        Token::Integer(2),
        Token::RBracket,
        Token::Semicolon,
        Token::LBrace,
        Token::String("foo".to_string()),
        Token::Colon,
        Token::String("bar".to_string()),
        Token::RBrace,
        Token::Semicolon,
    ];

    match lex(input) {
        Ok(tokens) => {
            // The scan ends with the end-of-input sentinel; every token
            // before it is checked against the expected list.
            assert_eq!(tokens.last(), Some(&Token::EOF));
            for (i, token) in tokens[..tokens.len() - 1].iter().enumerate() {
                println!("Token: {:?}", token);
                assert_eq!(expected_tokens[i], *token);
            }
        }
        Err(err) => {
            panic!("Lexer error: {:?}", err);
        }
    }
}
