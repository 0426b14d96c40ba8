//! The token model: token kinds, their texts, and the single-character table.
use vstd::prelude::*;
use vstd::string::StringExecFns;
use crate::text::push_char;

verus! {

/// A classified lexeme.
#[derive(Debug, Clone, PartialEq, Eq)]
pub enum Token {
    // Special
    Illegal,
    EOF,
    // Identifiers and literals
    Ident(String),
    /// A string literal's text, without its quotes.
    String(String),
    /// A float literal's text: digits, a `.`, more digits if any, and an
    /// optional exponent part.
    Float(String),
    Integer(i64),
    // Operators
    Assign,
    Bang,
    Plus,
    Minus,
    Asterisk,
    Slash,
    Lt,
    Gt,
    Eq,
    NotEq,
    // Delimiters
    Comma,
    Semicolon,
    Colon,
    LParen,
    RParen,
    LBrace,
    RBrace,
    LBracket,
    RBracket,
    // Keywords
    Fn,
    Let,
    True,
    False,
    If,
    Else,
    Return,
}

/// The mathematical value of a [`Token`]: texts become character sequences.
pub enum TokenView {
    Illegal,
    EOF,
    Ident(Seq<char>),
    String(Seq<char>),
    Float(Seq<char>),
    Integer(i64),
    Assign,
    Bang,
    Plus,
    Minus,
    Asterisk,
    Slash,
    Lt,
    Gt,
    Eq,
    NotEq,
    Comma,
    Semicolon,
    Colon,
    LParen,
    RParen,
    LBrace,
    RBrace,
    LBracket,
    RBracket,
    Fn,
    Let,
    True,
    False,
    If,
    Else,
    Return,
}

impl View for Token {
    type V = TokenView;

    open spec fn view(&self) -> TokenView {
        match self {
            Token::Illegal => TokenView::Illegal,
            Token::EOF => TokenView::EOF,
            Token::Ident(s) => TokenView::Ident(s@),
            Token::String(s) => TokenView::String(s@),
            Token::Float(s) => TokenView::Float(s@),
            Token::Integer(n) => TokenView::Integer(*n),
            Token::Assign => TokenView::Assign,
            Token::Bang => TokenView::Bang,
            Token::Plus => TokenView::Plus,
            Token::Minus => TokenView::Minus,
            Token::Asterisk => TokenView::Asterisk,
            Token::Slash => TokenView::Slash,
            Token::Lt => TokenView::Lt,
            Token::Gt => TokenView::Gt,
            Token::Eq => TokenView::Eq,
            Token::NotEq => TokenView::NotEq,
            Token::Comma => TokenView::Comma,
            Token::Semicolon => TokenView::Semicolon,
            Token::Colon => TokenView::Colon,
            Token::LParen => TokenView::LParen,
            Token::RParen => TokenView::RParen,
            Token::LBrace => TokenView::LBrace,
            Token::RBrace => TokenView::RBrace,
            Token::LBracket => TokenView::LBracket,
            Token::RBracket => TokenView::RBracket,
            Token::Fn => TokenView::Fn,
            Token::Let => TokenView::Let,
            Token::True => TokenView::True,
            Token::False => TokenView::False,
            Token::If => TokenView::If,
            Token::Else => TokenView::Else,
            Token::Return => TokenView::Return,
        }
    }
}

/// The single-character table: the token that a character stands for on
/// its own, an operator or delimiter, `EOF` for the NUL character, and
/// `Illegal` for anything else.
pub open spec fn single_char_token(c: char) -> Token {
    if c == '=' {
        Token::Assign
    } else if c == '!' {
        Token::Bang
    } else if c == '+' {
        Token::Plus
    } else if c == '-' {
        Token::Minus
    } else if c == '*' {
        Token::Asterisk
    } else if c == '/' {
        Token::Slash
    } else if c == '<' {
        Token::Lt
    } else if c == '>' {
        Token::Gt
    } else if c == ',' {
        Token::Comma
    } else if c == ';' {
        Token::Semicolon
    } else if c == ':' {
        Token::Colon
    } else if c == '(' {
        Token::LParen
    } else if c == ')' {
        Token::RParen
    } else if c == '{' {
        Token::LBrace
    } else if c == '}' {
        Token::RBrace
    } else if c == '[' {
        Token::LBracket
    } else if c == ']' {
        Token::RBracket
    } else if c == '\0' {
        Token::EOF
    } else {
        Token::Illegal
    }
}

/// The value of [`single_char_token`].
pub open spec fn char_token(c: char) -> TokenView {
    single_char_token(c)@
}

impl From<char> for Token {
    /// Total single-character resolution.
    fn from(ch: char) -> Self {
        if ch == '=' {
            Token::Assign
        } else if ch == '!' {
            Token::Bang
        } else if ch == '+' {
            Token::Plus
        } else if ch == '-' {
            Token::Minus
        } else if ch == '*' {
            Token::Asterisk
        } else if ch == '/' {
            Token::Slash
        } else if ch == '<' {
            Token::Lt
        } else if ch == '>' {
            Token::Gt
        } else if ch == ',' {
            Token::Comma
        } else if ch == ';' {
            Token::Semicolon
        } else if ch == ':' {
            Token::Colon
        } else if ch == '(' {
            Token::LParen
        } else if ch == ')' {
            Token::RParen
        } else if ch == '{' {
            Token::LBrace
        } else if ch == '}' {
            Token::RBrace
        } else if ch == '[' {
            Token::LBracket
        } else if ch == ']' {
            Token::RBracket
        } else if ch == '\0' {
            Token::EOF
        } else {
            Token::Illegal
        }
    }
}

impl vstd::std_specs::convert::FromSpecImpl<char> for Token {
    open spec fn obeys_from_spec() -> bool {
        true
    }

    open spec fn from_spec(v: char) -> Token {
        single_char_token(v)
    }
}

pub open spec fn digit_char(d: nat) -> char {
    seq!['0', '1', '2', '3', '4', '5', '6', '7', '8', '9'][d as int]
}

/// The decimal digits of `n`, most significant first.
pub open spec fn nat_text(n: nat) -> Seq<char>
    decreases n,
{
    if n < 10 {
        seq![digit_char(n)]
    } else {
        nat_text(n / 10).push(digit_char(n % 10))
    }
}

/// The decimal text of `n`, with a leading `-` when negative.
pub open spec fn int_text(n: int) -> Seq<char> {
    if n < 0 {
        seq!['-'] + nat_text((-n) as nat)
    } else {
        nat_text(n as nat)
    }
}

/// The text that a token is written as. A string literal is written without
/// its quotes, and the end of input as the NUL character.
pub open spec fn token_text(t: TokenView) -> Seq<char> {
    match t {
        TokenView::Illegal => "ILLEGAL"@,
        TokenView::EOF => seq!['\0'],
        TokenView::Ident(s) => s,
        TokenView::String(s) => s,
        TokenView::Float(s) => s,
        TokenView::Integer(n) => int_text(n as int),
        TokenView::Assign => "="@,
        TokenView::Bang => "!"@,
        TokenView::Plus => "+"@,
        TokenView::Minus => "-"@,
        TokenView::Asterisk => "*"@,
        TokenView::Slash => "/"@,
        TokenView::Lt => "<"@,
        TokenView::Gt => ">"@,
        TokenView::Eq => "=="@,
        TokenView::NotEq => "!="@,
        TokenView::Comma => ","@,
        TokenView::Semicolon => ";"@,
        TokenView::Colon => ":"@,
        TokenView::LParen => "("@,
        TokenView::RParen => ")"@,
        TokenView::LBrace => "{"@,
        TokenView::RBrace => "}"@,
        TokenView::LBracket => "["@,
        TokenView::RBracket => "]"@,
        TokenView::Fn => "fn"@,
        TokenView::Let => "let"@,
        TokenView::True => "true"@,
        TokenView::False => "false"@,
        TokenView::If => "if"@,
        TokenView::Else => "else"@,
        TokenView::Return => "return"@,
    }
}

fn digit(d: u64) -> (r: char)
    requires
        d < 10,
    ensures
        r == digit_char(d as nat),
{
    match d {
        0 => '0',
        1 => '1',
        2 => '2',
        3 => '3',
        4 => '4',
        5 => '5',
        6 => '6',
        7 => '7',
        8 => '8',
        _ => '9',
    }
}

/// Appends the decimal digits of `m` to `out`.
fn push_decimal(out: &mut String, m: u64)
    ensures
        final(out)@ == old(out)@ + nat_text(m as nat),
    decreases m,
{
    if m >= 10 {
        push_decimal(out, m / 10);
    }
    push_char(out, digit(m % 10));
    proof {
        if m >= 10 {
            assert(old(out)@ + nat_text(m as nat) =~= old(out)@ + nat_text((m / 10) as nat) + seq![digit_char((m % 10) as nat)]);
        } else {
            assert(old(out)@ + nat_text(m as nat) =~= old(out)@.push(digit_char((m % 10) as nat)));
        }
    }
}

fn string_of(s: &str) -> (r: String)
    ensures
        r@ == s@,
{
    String::from_str(s)
}

impl Token {
    /// The text this token is written as: the text of a keyword, operator
    /// or delimiter, a literal's value, `ILLEGAL`, or NUL for `EOF`.
    pub fn render(&self) -> (r: String)
        ensures
            r@ == token_text(self@),
    {
        match self {
            Token::Illegal => string_of("ILLEGAL"),
            Token::EOF => {
                let mut out = String::new();
                push_char(&mut out, '\0');
                out
            },
            Token::Ident(s) => s.clone(),
            Token::String(s) => s.clone(),
            Token::Float(s) => s.clone(),
            Token::Integer(n) => {
                let mut out = String::new();
                if *n < 0 {
                    push_char(&mut out, '-');
                    push_decimal(&mut out, (0i128 - *n as i128) as u64);
                } else {
                    push_decimal(&mut out, *n as u64);
                }
                out
            },
            Token::Assign => string_of("="),
            Token::Bang => string_of("!"),
            Token::Plus => string_of("+"),
            Token::Minus => string_of("-"),
            Token::Asterisk => string_of("*"),
            Token::Slash => string_of("/"),
            Token::Lt => string_of("<"),
            Token::Gt => string_of(">"),
            Token::Eq => string_of("=="),
            Token::NotEq => string_of("!="),
            Token::Comma => string_of(","),
            Token::Semicolon => string_of(";"),
            Token::Colon => string_of(":"),
            Token::LParen => string_of("("),
            Token::RParen => string_of(")"),
            Token::LBrace => string_of("{"),
            Token::RBrace => string_of("}"),
            Token::LBracket => string_of("["),
            Token::RBracket => string_of("]"),
            Token::Fn => string_of("fn"),
            Token::Let => string_of("let"),
            Token::True => string_of("true"),
            Token::False => string_of("false"),
            Token::If => string_of("if"),
            Token::Else => string_of("else"),
            Token::Return => string_of("return"),
        }
    }
}

} // verus!
