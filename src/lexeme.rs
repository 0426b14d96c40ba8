//! Resolution of a collected lexeme into a token: keywords, numbers,
//! strings and identifiers.
use vstd::prelude::*;
use crate::errors::{ParseError, ParseErrorView, TokenParseError, TokenParseErrorView};
use crate::text::{
    chars_of, is_digit, is_digit_char, is_ident_char, matches_text, run_end, text_of,
};
use crate::token::{Token, TokenView};

verus! {

/// The mathematical value of a result that carries a token.
pub open spec fn token_result<E: View>(r: Result<Token, E>) -> Result<TokenView, E::V> {
    match r {
        Ok(t) => Ok(t@),
        Err(e) => Err(e@),
    }
}

pub open spec fn digit_value(c: char) -> nat {
    ((c as u32) - ('0' as u32)) as nat
}

/// The number that a string of decimal digits denotes.
pub open spec fn digits_value(w: Seq<char>) -> nat
    decreases w.len(),
{
    if w.len() == 0 {
        0
    } else {
        digits_value(w.drop_last()) * 10 + digit_value(w.last())
    }
}

/// How many `.` characters `w` holds.
pub open spec fn dot_count(w: Seq<char>) -> nat
    decreases w.len(),
{
    if w.len() == 0 {
        0
    } else {
        dot_count(w.drop_last()) + if w.last() == '.' { 1nat } else { 0nat }
    }
}

pub open spec fn all_digits(w: Seq<char>) -> bool {
    forall|i: int| 0 <= i < w.len() ==> is_digit(#[trigger] w[i])
}

pub open spec fn is_number_char(c: char) -> bool {
    is_digit(c) || c == '.'
}

pub open spec fn all_number_chars(w: Seq<char>) -> bool {
    forall|i: int| 0 <= i < w.len() ==> is_number_char(#[trigger] w[i])
}

/// The end of the run of digits in `w` that starts at `i`.
pub open spec fn digits_end(w: Seq<char>, i: int) -> int {
    run_end(w, i, |c: char| is_digit(c))
}

/// Whether `w[b..]` is an exponent part: `e` or `E`, an optional sign, and
/// one or more digits up to the end.
pub open spec fn is_exponent_part(w: Seq<char>, b: int) -> bool {
    let c = if b + 1 < w.len() && (w[b + 1] == '+' || w[b + 1] == '-') {
        b + 2
    } else {
        b + 1
    };
    &&& 0 <= b < w.len()
    &&& (w[b] == 'e' || w[b] == 'E')
    &&& c < w.len()
    &&& digits_end(w, c) == w.len()
}

/// A float literal as 64-bit float parsing takes a digit-led text: digits,
/// a `.`, possibly more digits, and an optional exponent part.
pub open spec fn is_float_text(w: Seq<char>) -> bool {
    let a = digits_end(w, 0);
    let b = digits_end(w, a + 1);
    &&& 0 < a < w.len()
    &&& w[a] == '.'
    &&& (b == w.len() || is_exponent_part(w, b))
}

/// The token of a lexeme that starts with a digit. Without a `.` it is an
/// integer, which must fit in `i64`; with a `.` it is a float, kept as its
/// text, which must be a float literal; anything else is malformed.
pub open spec fn number_token(w: Seq<char>) -> Result<TokenView, ParseErrorView> {
    if dot_count(w) == 0 {
        if all_digits(w) && digits_value(w) <= i64::MAX {
            Ok(TokenView::Integer(digits_value(w) as i64))
        } else {
            Err(ParseErrorView::IntError(w))
        }
    } else if is_float_text(w) {
        Ok(TokenView::Float(w))
    } else {
        Err(ParseErrorView::FloatError(w))
    }
}

/// The keyword table: exact, case-sensitive matches.
pub open spec fn keyword(w: Seq<char>) -> Option<TokenView> {
    if w == "let"@ {
        Some(TokenView::Let)
    } else if w == "fn"@ {
        Some(TokenView::Fn)
    } else if w == "if"@ {
        Some(TokenView::If)
    } else if w == "else"@ {
        Some(TokenView::Else)
    } else if w == "true"@ {
        Some(TokenView::True)
    } else if w == "false"@ {
        Some(TokenView::False)
    } else if w == "return"@ {
        Some(TokenView::Return)
    } else {
        None
    }
}

/// The token of an identifier-shaped lexeme: its keyword, else an identifier.
pub open spec fn word_token(w: Seq<char>) -> TokenView {
    match keyword(w) {
        Some(t) => t,
        None => TokenView::Ident(w),
    }
}

pub open spec fn is_identifier(w: Seq<char>) -> bool {
    w.len() > 0 && forall|i: int| 0 <= i < w.len() ==> is_ident_char(#[trigger] w[i])
}

/// The text of a quote-led lexeme: without its opening quote, and without
/// its closing quote where it ends with one.
pub open spec fn string_payload(w: Seq<char>) -> Seq<char> {
    if w.len() >= 2 && w.last() == '"' {
        w.subrange(1, w.len() - 1)
    } else {
        w.subrange(1, w.len() as int)
    }
}

pub open spec fn is_punctuation(t: TokenView) -> bool {
    !(t is Illegal) && !(t is EOF)
}

/// The fixed texts that resolve to their own token: the two-character
/// operators and the keywords.
pub open spec fn fixed_token(w: Seq<char>) -> Option<TokenView> {
    if w == "=="@ {
        Some(TokenView::Eq)
    } else if w == "!="@ {
        Some(TokenView::NotEq)
    } else {
        keyword(w)
    }
}

/// Resolution of a whole lexeme: a fixed text first; then a text that starts
/// with a quote is a string, and one that starts with a digit a number;
/// anything else, the empty text included, is an identifier. Only a number
/// can fail.
pub open spec fn resolve(w: Seq<char>) -> Result<TokenView, TokenParseErrorView> {
    match fixed_token(w) {
        Some(t) => Ok(t),
        None => if w.len() > 0 && w[0] == '"' {
            Ok(TokenView::String(string_payload(w)))
        } else if w.len() > 0 && is_digit(w[0]) {
            match number_token(w) {
                Ok(t) => Ok(t),
                Err(p) => Err(TokenParseErrorView::ParseError(p)),
            }
        } else {
            Ok(TokenView::Ident(w))
        },
    }
}

proof fn lemma_prefix_step(cs: Seq<char>, lo: int, k: int)
    requires
        0 <= lo <= k < cs.len(),
    ensures
        cs.subrange(lo, k + 1).drop_last() == cs.subrange(lo, k),
        cs.subrange(lo, k + 1).last() == cs[k],
        cs.subrange(lo, k + 1).len() == k + 1 - lo,
{
    assert(cs.subrange(lo, k + 1).drop_last() =~= cs.subrange(lo, k));
}

/// The end of the run of digits in `cs[lo..hi]` that starts at `i`.
fn skip_digits(cs: &Vec<char>, lo: usize, hi: usize, i: usize) -> (r: usize)
    requires
        lo <= i <= hi <= cs.len(),
    ensures
        lo <= i <= r <= hi,
        r - lo == digits_end(cs@.subrange(lo as int, hi as int), i - lo),
{
    let ghost w = cs@.subrange(lo as int, hi as int);
    let mut k: usize = i;
    while k < hi && is_digit_char(cs[k])
        invariant
            lo <= i <= k <= hi <= cs.len(),
            w == cs@.subrange(lo as int, hi as int),
            digits_end(w, k - lo) == digits_end(w, i - lo),
        decreases hi - k,
    {
        assert(w[k - lo] == cs@[k as int]);
        k = k + 1;
    }
    proof {
        if k < hi {
            assert(w[k - lo] == cs@[k as int]);
        }
    }
    k
}

/// Whether `cs[lo..hi]` is a float literal.
fn is_float_lexeme(cs: &Vec<char>, lo: usize, hi: usize) -> (r: bool)
    requires
        lo <= hi <= cs.len(),
    ensures
        r == is_float_text(cs@.subrange(lo as int, hi as int)),
{
    let ghost w = cs@.subrange(lo as int, hi as int);
    let a = skip_digits(cs, lo, hi, lo);
    if a == lo || a == hi || cs[a] != '.' {
        proof {
            if a < hi {
                assert(w[a - lo] == cs@[a as int]);
            }
        }
        return false;
    }
    assert(w[a - lo] == cs@[a as int]);
    let b = skip_digits(cs, lo, hi, a + 1);
    if b == hi {
        return true;
    }
    assert(w[b - lo] == cs@[b as int]);
    if cs[b] != 'e' && cs[b] != 'E' {
        return false;
    }
    let mut c = b + 1;
    if c < hi && (cs[c] == '+' || cs[c] == '-') {
        assert(w[c - lo] == cs@[c as int]);
        c = c + 1;
    } else {
        proof {
            if c < hi {
                assert(w[c - lo] == cs@[c as int]);
            }
        }
    }
    if c >= hi {
        return false;
    }
    let d = skip_digits(cs, lo, hi, c);
    d == hi
}

/// Resolves the numeric lexeme `cs[lo..hi]`.
pub fn parse_number(cs: &Vec<char>, lo: usize, hi: usize) -> (r: Result<Token, ParseError>)
    requires
        lo < hi <= cs.len(),
    ensures
        token_result(r) == number_token(cs@.subrange(lo as int, hi as int)),
{
    let ghost w = cs@.subrange(lo as int, hi as int);
    let mut dots: usize = 0;
    let mut digits_only = true;
    let mut overflow = false;
    let mut value: i64 = 0;
    let mut k: usize = lo;
    while k < hi
        invariant
            lo <= k <= hi <= cs.len(),
            dots <= k - lo,
            dots == dot_count(cs@.subrange(lo as int, k as int)),
            digits_only == all_digits(cs@.subrange(lo as int, k as int)),
            digits_only && !overflow ==> value == digits_value(cs@.subrange(lo as int, k as int)),
            digits_only && overflow ==> digits_value(cs@.subrange(lo as int, k as int)) > i64::MAX,
        decreases hi - k,
    {
        let c = cs[k];
        let ghost prev = cs@.subrange(lo as int, k as int);
        let ghost next = cs@.subrange(lo as int, k + 1);
        proof {
            lemma_prefix_step(cs@, lo as int, k as int);
        }
        if is_digit_char(c) {
            if digits_only && !overflow {
                let d = (c as u32 - '0' as u32) as u128;
                let n = (value as u128) * 10 + d;
                if n > i64::MAX as u128 {
                    overflow = true;
                } else {
                    value = n as i64;
                }
            }
        } else if c == '.' {
            dots = dots + 1;
            digits_only = false;
        } else {
            digits_only = false;
        }
        assert(digits_only == all_digits(next)) by {
            if all_digits(next) {
                assert(is_digit(next[k - lo]));
                assert forall|i: int| 0 <= i < prev.len() implies is_digit(#[trigger] prev[i]) by {
                    assert(prev[i] == next[i]);
                }
            }
            if !is_digit(c) {
                assert(next[k - lo] == c);
            }
        }
        k = k + 1;
    }
    assert(cs@.subrange(lo as int, k as int) == w);
    if dots == 0 {
        if digits_only && !overflow {
            Ok(Token::Integer(value))
        } else {
            Err(ParseError::IntError(text_of(cs, lo, hi)))
        }
    } else if is_float_lexeme(cs, lo, hi) {
        Ok(Token::Float(text_of(cs, lo, hi)))
    } else {
        Err(ParseError::FloatError(text_of(cs, lo, hi)))
    }
}

/// Looks the lexeme `cs[lo..hi]` up in the keyword table.
fn token_keyword_literal_to_enum(cs: &Vec<char>, lo: usize, hi: usize) -> (r: Option<Token>)
    requires
        lo <= hi <= cs.len(),
    ensures
        match r {
            Some(t) => keyword(cs@.subrange(lo as int, hi as int)) == Some(t@),
            None => keyword(cs@.subrange(lo as int, hi as int)) is None,
        },
{
    if matches_text(cs, lo, hi, "let") {
        Some(Token::Let)
    } else if matches_text(cs, lo, hi, "fn") {
        Some(Token::Fn)
    } else if matches_text(cs, lo, hi, "if") {
        Some(Token::If)
    } else if matches_text(cs, lo, hi, "else") {
        Some(Token::Else)
    } else if matches_text(cs, lo, hi, "true") {
        Some(Token::True)
    } else if matches_text(cs, lo, hi, "false") {
        Some(Token::False)
    } else if matches_text(cs, lo, hi, "return") {
        Some(Token::Return)
    } else {
        None
    }
}

/// The token of the identifier-shaped lexeme `cs[lo..hi]`.
pub fn word(cs: &Vec<char>, lo: usize, hi: usize) -> (r: Token)
    requires
        lo <= hi <= cs.len(),
    ensures
        r@ == word_token(cs@.subrange(lo as int, hi as int)),
{
    match token_keyword_literal_to_enum(cs, lo, hi) {
        Some(t) => t,
        None => Token::Ident(text_of(cs, lo, hi)),
    }
}

/// The fixed text `cs[lo..hi]` resolves to, if any.
fn fixed(cs: &Vec<char>, lo: usize, hi: usize) -> (r: Option<Token>)
    requires
        lo <= hi <= cs.len(),
    ensures
        match r {
            Some(t) => fixed_token(cs@.subrange(lo as int, hi as int)) == Some(t@),
            None => fixed_token(cs@.subrange(lo as int, hi as int)) is None,
        },
{
    if matches_text(cs, lo, hi, "==") {
        Some(Token::Eq)
    } else if matches_text(cs, lo, hi, "!=") {
        Some(Token::NotEq)
    } else {
        token_keyword_literal_to_enum(cs, lo, hi)
    }
}

impl TryFrom<String> for Token {
    type Error = TokenParseError;

    /// Resolves a whole lexeme into its token.
    fn try_from(value: String) -> (r: Result<Token, TokenParseError>)
        ensures
            token_result(r) == resolve(value@),
    {
        let cs = chars_of(value.as_str());
        let n = cs.len();
        assert(cs@.subrange(0, n as int) == value@);
        if let Some(t) = fixed(&cs, 0, n) {
            return Ok(t);
        }
        if n > 0 && cs[0] == '"' {
            let end = if n >= 2 && cs[n - 1] == '"' {
                n - 1
            } else {
                n
            };
            Ok(Token::String(text_of(&cs, 1, end)))
        } else if n > 0 && is_digit_char(cs[0]) {
            match parse_number(&cs, 0, n) {
                Ok(t) => Ok(t),
                Err(p) => Err(TokenParseError::ParseError(p)),
            }
        } else {
            Ok(Token::Ident(value))
        }
    }
}

impl vstd::std_specs::convert::TryFromSpecImpl<String> for Token {
    /// The contract of `try_from` above is stated over views instead.
    open spec fn obeys_try_from_spec() -> bool {
        false
    }

    open spec fn try_from_spec(v: String) -> Result<Token, TokenParseError> {
        arbitrary()
    }
}

} // verus!
