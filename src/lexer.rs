//! The scanner: a cursor over the input that produces one token per call.
use vstd::prelude::*;
use crate::errors::{LexerError, LexerErrorView};
use crate::lexeme::{is_number_char, is_punctuation, number_token, parse_number, word, word_token};
use crate::text::{
    chars_of, is_digit, is_digit_char, is_ident_char, is_valid_identifier_char, is_whitespace,
    is_whitespace_char, lemma_run_end_bounds, run_end, text_of,
};
use crate::token::{char_token, TokenView};
pub use crate::token::Token;

verus! {

/// The end of the whitespace run that starts at `i`.
pub open spec fn whitespace_end(cs: Seq<char>, i: int) -> int {
    run_end(cs, i, |c: char| is_whitespace(c))
}

/// The end of the run of digits and `.` that starts at `i`.
pub open spec fn number_end(cs: Seq<char>, i: int) -> int {
    run_end(cs, i, |c: char| is_number_char(c))
}

/// The end of the run of identifier characters that starts at `i`.
pub open spec fn word_end(cs: Seq<char>, i: int) -> int {
    run_end(cs, i, |c: char| is_ident_char(c))
}

/// The position of the first `"` at or after `i`, or the end of `cs`.
pub open spec fn quote_end(cs: Seq<char>, i: int) -> int {
    run_end(cs, i, |c: char| c != '"')
}

/// One scanning step from position `i`: after skipping whitespace, the token
/// (or error) that the next lexeme gives, and the position after it. At the
/// end of the input the step gives `EOF` and stays there.
pub open spec fn step(cs: Seq<char>, i: int) -> (Result<TokenView, LexerErrorView>, int) {
    let k = whitespace_end(cs, i);
    if k < 0 || k >= cs.len() {
        (Ok(TokenView::EOF), k)
    } else {
        let c = cs[k];
        if is_digit(c) {
            let j = number_end(cs, k);
            match number_token(cs.subrange(k, j)) {
                Ok(t) => (Ok(t), j),
                Err(p) => (Err(LexerErrorView::MalformedNumber(p)), j),
            }
        } else if c == '"' {
            let j = quote_end(cs, k + 1);
            if j >= cs.len() {
                (Err(LexerErrorView::UnterminatedString), j)
            } else {
                (Ok(TokenView::String(cs.subrange(k + 1, j))), j + 1)
            }
        } else if c == '=' {
            if k + 1 < cs.len() && cs[k + 1] == '=' {
                (Ok(TokenView::Eq), k + 2)
            } else {
                (Ok(TokenView::Assign), k + 1)
            }
        } else if c == '!' {
            if k + 1 < cs.len() && cs[k + 1] == '=' {
                (Ok(TokenView::NotEq), k + 2)
            } else {
                (Ok(TokenView::Bang), k + 1)
            }
        } else if is_ident_char(c) {
            let j = word_end(cs, k);
            (Ok(word_token(cs.subrange(k, j))), j)
        } else if is_punctuation(char_token(c)) {
            (Ok(char_token(c)), k + 1)
        } else {
            (Err(LexerErrorView::IllegalCharacter(c)), k + 1)
        }
    }
}

/// A step stays within the input and, unless it gives `EOF`, moves forward.
pub proof fn lemma_step_advances(cs: Seq<char>, i: int)
    requires
        0 <= i <= cs.len(),
    ensures
        i <= step(cs, i).1 <= cs.len(),
        step(cs, i).0 != Ok::<TokenView, LexerErrorView>(TokenView::EOF) ==> i < step(cs, i).1,
{
    let k = whitespace_end(cs, i);
    lemma_run_end_bounds(cs, i, |c: char| is_whitespace(c));
    if k < cs.len() {
        lemma_run_end_bounds(cs, k, |c: char| is_number_char(c));
        lemma_run_end_bounds(cs, k + 1, |c: char| c != '"');
        lemma_run_end_bounds(cs, k, |c: char| is_ident_char(c));
    }
}

/// Scanning from position `i` to the end: the tokens up to and including
/// `EOF`, or the first error.
pub open spec fn scan_from(cs: Seq<char>, i: int) -> Result<Seq<TokenView>, LexerErrorView>
    decreases cs.len() - i,
    via scan_from_decreases
{
    if i < 0 || i > cs.len() {
        Ok(seq![TokenView::EOF])
    } else {
        let (r, j) = step(cs, i);
        match r {
            Err(e) => Err(e),
            Ok(t) => if t is EOF {
                Ok(seq![t])
            } else {
                match scan_from(cs, j) {
                    Ok(ts) => Ok(seq![t] + ts),
                    Err(e) => Err(e),
                }
            },
        }
    }
}

#[via_fn]
proof fn scan_from_decreases(cs: Seq<char>, i: int) {
    if 0 <= i <= cs.len() {
        lemma_step_advances(cs, i);
    }
}

/// Scanning a whole input.
pub open spec fn scan(cs: Seq<char>) -> Result<Seq<TokenView>, LexerErrorView> {
    scan_from(cs, 0)
}

pub open spec fn tokens_view(ts: Seq<Token>) -> Seq<TokenView> {
    ts.map_values(|t: Token| t@)
}

/// The mathematical value of a scanning result.
pub open spec fn scan_result(r: Result<Vec<Token>, LexerError>) -> Result<Seq<TokenView>, LexerErrorView> {
    match r {
        Ok(ts) => Ok(tokens_view(ts@)),
        Err(e) => Err(e@),
    }
}

/// The mathematical value of one step's result.
pub open spec fn step_result(r: Result<Token, LexerError>) -> Result<TokenView, LexerErrorView> {
    match r {
        Ok(t) => Ok(t@),
        Err(e) => Err(e@),
    }
}

/// A scanner over one input; it owns its cursor.
pub struct Lexer {
    chars: Vec<char>,
    pos: usize,
}

impl Lexer {
    /// The input, as characters.
    pub closed spec fn input(&self) -> Seq<char> {
        self.chars@
    }

    /// The cursor: the index of the current character.
    pub closed spec fn position(&self) -> int {
        self.pos as int
    }

    pub closed spec fn wf(&self) -> bool {
        self.pos <= self.chars.len()
    }

    /// A scanner at the start of `input`.
    pub fn new(input: &str) -> (r: Lexer)
        ensures
            r.wf(),
            r.input() == input@,
            r.position() == 0,
    {
        Lexer { chars: chars_of(input), pos: 0 }
    }

    /// The character under the cursor, if any is left.
    pub fn current(&self) -> (r: Option<char>)
        requires
            self.wf(),
        ensures
            r == (if self.position() < self.input().len() {
                Some(self.input()[self.position()])
            } else {
                None::<char>
            }),
    {
        if self.pos < self.chars.len() {
            Some(self.chars[self.pos])
        } else {
            None
        }
    }

    /// The character after the one under the cursor, if any.
    pub fn peek(&self) -> (r: Option<char>)
        requires
            self.wf(),
        ensures
            r == (if self.position() + 1 < self.input().len() {
                Some(self.input()[self.position() + 1])
            } else {
                None::<char>
            }),
    {
        if self.chars.len() - self.pos > 1 {
            Some(self.chars[self.pos + 1])
        } else {
            None
        }
    }

    /// Moves the cursor one character on, unless it is at the end.
    pub fn read_char(&mut self)
        requires
            old(self).wf(),
        ensures
            final(self).wf(),
            final(self).input() == old(self).input(),
            final(self).position() == if old(self).position() < old(self).input().len() {
                old(self).position() + 1
            } else {
                old(self).position()
            },
    {
        if self.pos < self.chars.len() {
            self.pos = self.pos + 1;
        }
    }

    /// Moves the cursor past the whitespace under it.
    fn skip_whitespace(&mut self)
        requires
            old(self).wf(),
        ensures
            final(self).wf(),
            final(self).input() == old(self).input(),
            final(self).position() == whitespace_end(old(self).input(), old(self).position()),
    {
        while self.pos < self.chars.len() && is_whitespace_char(self.chars[self.pos])
            invariant
                self.wf(),
                self.input() == old(self).input(),
                whitespace_end(self.input(), self.position()) == whitespace_end(
                    old(self).input(),
                    old(self).position(),
                ),
            decreases self.chars.len() - self.pos,
        {
            self.pos = self.pos + 1;
        }
    }

    /// Moves the cursor past the digits and `.` under it.
    fn skip_number(&mut self)
        requires
            old(self).wf(),
        ensures
            final(self).wf(),
            final(self).input() == old(self).input(),
            final(self).position() == number_end(old(self).input(), old(self).position()),
    {
        while self.pos < self.chars.len() && (is_digit_char(self.chars[self.pos]) || self.chars[self.pos] == '.')
            invariant
                self.wf(),
                self.input() == old(self).input(),
                number_end(self.input(), self.position()) == number_end(
                    old(self).input(),
                    old(self).position(),
                ),
            decreases self.chars.len() - self.pos,
        {
            self.pos = self.pos + 1;
        }
    }

    /// Moves the cursor past the identifier characters under it.
    fn skip_word(&mut self)
        requires
            old(self).wf(),
        ensures
            final(self).wf(),
            final(self).input() == old(self).input(),
            final(self).position() == word_end(old(self).input(), old(self).position()),
    {
        while self.pos < self.chars.len() && is_valid_identifier_char(self.chars[self.pos])
            invariant
                self.wf(),
                self.input() == old(self).input(),
                word_end(self.input(), self.position()) == word_end(
                    old(self).input(),
                    old(self).position(),
                ),
            decreases self.chars.len() - self.pos,
        {
            self.pos = self.pos + 1;
        }
    }

    /// Moves the cursor to the next `"`, or to the end of the input.
    fn skip_to_quote(&mut self)
        requires
            old(self).wf(),
        ensures
            final(self).wf(),
            final(self).input() == old(self).input(),
            final(self).position() == quote_end(old(self).input(), old(self).position()),
    {
        while self.pos < self.chars.len() && self.chars[self.pos] != '"'
            invariant
                self.wf(),
                self.input() == old(self).input(),
                quote_end(self.input(), self.position()) == quote_end(
                    old(self).input(),
                    old(self).position(),
                ),
            decreases self.chars.len() - self.pos,
        {
            self.pos = self.pos + 1;
        }
    }

    /// Produces the next token and moves the cursor past its lexeme. At the
    /// end of the input it gives `EOF`, on every call. An error also moves
    /// the cursor past the offending lexeme, so scanning may go on.
    pub fn next_token(&mut self) -> (r: Result<Token, LexerError>)
        requires
            old(self).wf(),
        ensures
            final(self).wf(),
            final(self).input() == old(self).input(),
            (step_result(r), final(self).position()) == step(old(self).input(), old(self).position()),
    {
        let ghost cs = self.input();
        self.skip_whitespace();
        let k = self.pos;
        proof {
            lemma_run_end_bounds(cs, old(self).position(), |c: char| is_whitespace(c));
        }
        match self.current() {
            None => Ok(Token::EOF),
            Some(c) => {
                if is_digit_char(c) {
                    self.skip_number();
                    proof {
                        lemma_run_end_bounds(cs, k as int, |c: char| is_number_char(c));
                    }
                    match parse_number(&self.chars, k, self.pos) {
                        Ok(t) => Ok(t),
                        Err(p) => Err(LexerError::MalformedNumber(p)),
                    }
                } else if c == '"' {
                    self.read_char();
                    self.skip_to_quote();
                    proof {
                        lemma_run_end_bounds(cs, k + 1, |c: char| c != '"');
                    }
                    if self.pos >= self.chars.len() {
                        Err(LexerError::UnterminatedString)
                    } else {
                        let s = text_of(&self.chars, k + 1, self.pos);
                        self.read_char();
                        Ok(Token::String(s))
                    }
                } else if c == '=' || c == '!' {
                    let double = match self.peek() {
                        Some(n) => n == '=',
                        None => false,
                    };
                    self.read_char();
                    if double {
                        self.read_char();
                        if c == '=' { Ok(Token::Eq) } else { Ok(Token::NotEq) }
                    } else {
                        if c == '=' { Ok(Token::Assign) } else { Ok(Token::Bang) }
                    }
                } else if is_valid_identifier_char(c) {
                    self.skip_word();
                    proof {
                        lemma_run_end_bounds(cs, k as int, |c: char| is_ident_char(c));
                    }
                    Ok(word(&self.chars, k, self.pos))
                } else {
                    let t = Token::from(c);
                    self.read_char();
                    match t {
                        Token::Illegal | Token::EOF => Err(LexerError::IllegalCharacter(c)),
                        _ => Ok(t),
                    }
                }
            },
        }
    }

    /// Scans from the cursor to the end of the input: every token up to and
    /// including `EOF`, or the first error.
    pub fn lex(&mut self) -> (r: Result<Vec<Token>, LexerError>)
        requires
            old(self).wf(),
        ensures
            final(self).wf(),
            final(self).input() == old(self).input(),
            scan_result(r) == scan_from(old(self).input(), old(self).position()),
    {
        let ghost cs = self.input();
        let ghost start = self.position();
        let mut out: Vec<Token> = Vec::new();
        loop
            invariant
                self.wf(),
                self.input() == cs,
                cs == old(self).input(),
                start == old(self).position(),
                scan_from(cs, start) == match scan_from(cs, self.position()) {
                    Ok(ts) => Ok(tokens_view(out@) + ts),
                    Err(e) => Err(e),
                },
            decreases cs.len() - self.position(),
        {
            let ghost before = out@;
            let ghost i = self.position();
            proof {
                lemma_step_advances(cs, i);
            }
            match self.next_token() {
                Err(e) => {
                    assert(scan_from(cs, i) == Err::<Seq<TokenView>, LexerErrorView>(e@));
                    return Err(e);
                },
                Ok(t) => {
                    let eof = match t {
                        Token::EOF => true,
                        _ => false,
                    };
                    out.push(t);
                    assert(tokens_view(out@) =~= tokens_view(before).push(t@));
                    if eof {
                        assert(tokens_view(out@) =~= tokens_view(before) + seq![t@]);
                        return Ok(out);
                    }
                    proof {
                        let j = self.position();
                        match scan_from(cs, j) {
                            Ok(ts) => {
                                assert(tokens_view(before) + (seq![t@] + ts) =~= tokens_view(out@) + ts);
                            },
                            Err(e) => {},
                        }
                    }
                },
            }
        }
    }
}

/// Scans the whole of `input`: every token up to and including `EOF`, or the
/// first error.
pub fn lex(input: &str) -> (r: Result<Vec<Token>, LexerError>)
    ensures
        scan_result(r) == scan(input@),
{
    let mut lexer = Lexer::new(input);
    lexer.lex()
}

} // verus!
