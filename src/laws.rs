//! Properties of the scanner, stated over its specification and proved.
use vstd::prelude::*;
use crate::errors::{LexerErrorView, ParseErrorView, TokenParseErrorView};
use crate::lexeme::{
    digits_end, is_float_text,
    resolve,
    all_digits, all_number_chars, digits_value, dot_count, is_identifier, is_number_char,
    keyword, word_token,
};
use crate::lexer::{scan, scan_from, step, whitespace_end};
use crate::text::{is_digit, is_ident_char, is_whitespace, lemma_run_end_bounds, run_end};
use crate::token::{token_text, TokenView};

verus! {

/// A run that covers every character from `i` on ends at the end of `cs`.
proof fn lemma_run_to_end(cs: Seq<char>, i: int, p: spec_fn(char) -> bool)
    requires
        0 <= i <= cs.len(),
        forall|m: int| i <= m < cs.len() ==> p(#[trigger] cs[m]),
    ensures
        run_end(cs, i, p) == cs.len(),
    decreases cs.len() - i,
{
    if i < cs.len() {
        lemma_run_to_end(cs, i + 1, p);
    }
}

/// At the end of the input a step gives `EOF` and stays put.
proof fn lemma_step_at_end(cs: Seq<char>)
    ensures
        step(cs, cs.len() as int) == (Ok::<TokenView, LexerErrorView>(TokenView::EOF), cs.len() as int),
        scan_from(cs, cs.len() as int) == Ok::<Seq<TokenView>, LexerErrorView>(seq![TokenView::EOF]),
{
}

/// An input that one step reads whole scans to that token and `EOF`.
proof fn lemma_scan_single(cs: Seq<char>, t: TokenView)
    requires
        step(cs, 0) == (Ok::<TokenView, LexerErrorView>(t), cs.len() as int),
        !(t is EOF),
    ensures
        scan(cs) == Ok::<Seq<TokenView>, LexerErrorView>(seq![t, TokenView::EOF]),
{
    lemma_step_at_end(cs);
    assert(seq![t] + seq![TokenView::EOF] =~= seq![t, TokenView::EOF]);
}

/// Once a step has given `EOF`, every further step gives `EOF` again from
/// the same position.
pub proof fn lemma_eof_repeats(cs: Seq<char>, i: int)
    requires
        0 <= i <= cs.len(),
        step(cs, i).0 == Ok::<TokenView, LexerErrorView>(TokenView::EOF),
    ensures
        step(cs, step(cs, i).1) == step(cs, i),
{
    lemma_run_end_bounds(cs, i, |c: char| is_whitespace(c));
}

/// An input made of whitespace alone scans to `EOF` and nothing else.
pub proof fn lemma_whitespace_only(cs: Seq<char>)
    requires
        forall|m: int| 0 <= m < cs.len() ==> is_whitespace(#[trigger] cs[m]),
    ensures
        scan(cs) == Ok::<Seq<TokenView>, LexerErrorView>(seq![TokenView::EOF]),
{
    lemma_run_to_end(cs, 0, |c: char| is_whitespace(c));
}

proof fn lemma_no_dots(w: Seq<char>)
    requires
        forall|i: int| 0 <= i < w.len() ==> #[trigger] w[i] != '.',
    ensures
        dot_count(w) == 0,
    decreases w.len(),
{
    if w.len() > 0 {
        assert(w[w.len() - 1] != '.');
        assert forall|i: int| 0 <= i < w.drop_last().len() implies #[trigger] w.drop_last()[i]
            != '.' by {
            assert(w.drop_last()[i] == w[i]);
        }
        lemma_no_dots(w.drop_last());
    }
}

proof fn lemma_one_dot(w: Seq<char>, p: int)
    requires
        0 <= p < w.len(),
        w[p] == '.',
    ensures
        dot_count(w) >= 1,
    decreases w.len(),
{
    if p < w.len() - 1 {
        assert(w.drop_last()[p] == w[p]);
        lemma_one_dot(w.drop_last(), p);
    }
}

proof fn lemma_two_dots(w: Seq<char>, p: int, q: int)
    requires
        0 <= p < q < w.len(),
        w[p] == '.',
        w[q] == '.',
    ensures
        dot_count(w) >= 2,
    decreases w.len(),
{
    assert(w.drop_last()[p] == w[p]);
    if q == w.len() - 1 {
        lemma_one_dot(w.drop_last(), p);
    } else {
        assert(w.drop_last()[q] == w[q]);
        lemma_two_dots(w.drop_last(), p, q);
    }
}

proof fn lemma_single_dot(w: Seq<char>, a: int)
    requires
        0 <= a < w.len(),
        w[a] == '.',
        forall|i: int| 0 <= i < w.len() && i != a ==> #[trigger] w[i] != '.',
    ensures
        dot_count(w) == 1,
    decreases w.len(),
{
    assert forall|i: int| 0 <= i < w.drop_last().len() && i != a implies #[trigger] w.drop_last()[i]
        != '.' by {
        assert(w.drop_last()[i] == w[i]);
    }
    if a == w.len() - 1 {
        lemma_no_dots(w.drop_last());
    } else {
        assert(w.drop_last()[a] == w[a]);
        lemma_single_dot(w.drop_last(), a);
    }
}

/// For a run of digits and `.` that starts with a digit, the float grammar
/// holds exactly when the run has a single `.`.
proof fn lemma_float_text_of_run(w: Seq<char>)
    requires
        w.len() > 0,
        is_digit(w[0]),
        all_number_chars(w),
    ensures
        is_float_text(w) <==> dot_count(w) == 1,
{
    let a = digits_end(w, 0);
    lemma_run_end_bounds(w, 0, |c: char| is_digit(c));
    lemma_run_end_bounds(w, 1, |c: char| is_digit(c));
    assert(a >= 1);
    if a == w.len() {
        lemma_no_dots(w);
        return;
    }
    assert(is_number_char(w[a]));
    assert(w[a] == '.');
    let b = digits_end(w, a + 1);
    lemma_run_end_bounds(w, a + 1, |c: char| is_digit(c));
    if b < w.len() {
        assert(is_number_char(w[b]));
        assert(w[b] == '.');
        lemma_two_dots(w, a, b);
    } else {
        assert forall|i: int| 0 <= i < w.len() && i != a implies #[trigger] w[i] != '.' by {
            if i < a {
                assert(is_digit(w[i]));
            } else {
                assert(is_digit(w[i]));
            }
        }
        lemma_single_dot(w, a);
    }
}

/// The position where a whole numeric input's lexeme ends: the end.
proof fn lemma_number_whole(w: Seq<char>)
    requires
        w.len() > 0,
        is_digit(w[0]),
        all_number_chars(w),
    ensures
        whitespace_end(w, 0) == 0,
        run_end(w, 0, |c: char| is_number_char(c)) == w.len(),
        w.subrange(0, w.len() as int) == w,
{
    lemma_run_to_end(w, 0, |c: char| is_number_char(c));
    assert(w.subrange(0, w.len() as int) =~= w);
}

/// A string of decimal digits scans to the integer it denotes, or, when
/// that does not fit in `i64`, to a malformed-number error holding the text.
pub proof fn lemma_integer_lexeme(w: Seq<char>)
    requires
        w.len() > 0,
        all_digits(w),
    ensures
        digits_value(w) <= i64::MAX ==> scan(w) == Ok::<Seq<TokenView>, LexerErrorView>(
            seq![TokenView::Integer(digits_value(w) as i64), TokenView::EOF],
        ),
        digits_value(w) > i64::MAX ==> scan(w) == Err::<Seq<TokenView>, LexerErrorView>(
            LexerErrorView::MalformedNumber(ParseErrorView::IntError(w)),
        ),
{
    assert(is_digit(w[0]));
    assert(all_number_chars(w)) by {
        assert forall|i: int| 0 <= i < w.len() implies is_number_char(#[trigger] w[i]) by {
            assert(is_digit(w[i]));
        }
    }
    lemma_number_whole(w);
    lemma_no_dots(w);
    if digits_value(w) <= i64::MAX {
        lemma_scan_single(w, TokenView::Integer(digits_value(w) as i64));
    }
}

/// Digits with exactly one `.` among them scan to a float literal that
/// holds exactly that text.
pub proof fn lemma_float_lexeme(w: Seq<char>)
    requires
        w.len() > 0,
        is_digit(w[0]),
        all_number_chars(w),
        dot_count(w) == 1,
    ensures
        scan(w) == Ok::<Seq<TokenView>, LexerErrorView>(seq![TokenView::Float(w), TokenView::EOF]),
{
    lemma_float_text_of_run(w);
    lemma_number_whole(w);
    lemma_scan_single(w, TokenView::Float(w));
}

/// A numeric lexeme with two or more `.` is always a malformed number,
/// never a value.
pub proof fn lemma_many_dots(w: Seq<char>)
    requires
        w.len() > 0,
        is_digit(w[0]),
        all_number_chars(w),
        dot_count(w) >= 2,
    ensures
        scan(w) == Err::<Seq<TokenView>, LexerErrorView>(
            LexerErrorView::MalformedNumber(ParseErrorView::FloatError(w)),
        ),
{
    lemma_float_text_of_run(w);
    lemma_number_whole(w);
}

/// Where the next lexeme starts with `=`, one step reads `==` as a single
/// equality token, and a `=` not followed by `=` as a single assignment.
pub proof fn lemma_equals(cs: Seq<char>, i: int)
    requires
        0 <= i <= cs.len(),
        whitespace_end(cs, i) < cs.len(),
        cs[whitespace_end(cs, i)] == '=',
    ensures
        ({
            let k = whitespace_end(cs, i);
            if k + 1 < cs.len() && cs[k + 1] == '=' {
                step(cs, i) == (Ok::<TokenView, LexerErrorView>(TokenView::Eq), k + 2)
            } else {
                step(cs, i) == (Ok::<TokenView, LexerErrorView>(TokenView::Assign), k + 1)
            }
        }),
{
    lemma_run_end_bounds(cs, i, |c: char| is_whitespace(c));
}

/// Where the next lexeme starts with `!`, one step reads `!=` as a single
/// inequality token, and a `!` not followed by `=` as a single bang.
pub proof fn lemma_bang(cs: Seq<char>, i: int)
    requires
        0 <= i <= cs.len(),
        whitespace_end(cs, i) < cs.len(),
        cs[whitespace_end(cs, i)] == '!',
    ensures
        ({
            let k = whitespace_end(cs, i);
            if k + 1 < cs.len() && cs[k + 1] == '=' {
                step(cs, i) == (Ok::<TokenView, LexerErrorView>(TokenView::NotEq), k + 2)
            } else {
                step(cs, i) == (Ok::<TokenView, LexerErrorView>(TokenView::Bang), k + 1)
            }
        }),
{
    lemma_run_end_bounds(cs, i, |c: char| is_whitespace(c));
}

/// An identifier-shaped input scans to its keyword when it is one of the
/// seven keywords, and otherwise to an identifier holding exactly its text.
pub proof fn lemma_word_lexeme(w: Seq<char>)
    requires
        is_identifier(w),
    ensures
        scan(w) == Ok::<Seq<TokenView>, LexerErrorView>(seq![word_token(w), TokenView::EOF]),
        keyword(w) is Some ==> scan(w) == Ok::<Seq<TokenView>, LexerErrorView>(
            seq![keyword(w)->0, TokenView::EOF],
        ),
        keyword(w) is None ==> scan(w) == Ok::<Seq<TokenView>, LexerErrorView>(
            seq![TokenView::Ident(w), TokenView::EOF],
        ),
{
    assert(is_ident_char(w[0]));
    lemma_run_to_end(w, 0, |c: char| is_ident_char(c));
    assert(w.subrange(0, w.len() as int) =~= w);
    lemma_scan_single(w, word_token(w));
}

/// Scanning the text of a keyword, operator or delimiter gives back that
/// token and then `EOF`. Resolving that text as a lexeme gives the token
/// back too where the text is a fixed text: `==`, `!=` or a keyword.
#[verifier::rlimit(50)]
pub proof fn lemma_render_round_trip(t: TokenView)
    requires
        !(t is Ident),
        !(t is String),
        !(t is Float),
        !(t is Integer),
        !(t is Illegal),
        !(t is EOF),
    ensures
        scan(token_text(t)) == Ok::<Seq<TokenView>, LexerErrorView>(seq![t, TokenView::EOF]),
        (t is Eq || t is NotEq || keyword(token_text(t)) is Some) ==> resolve(token_text(t))
            == Ok::<TokenView, TokenParseErrorView>(t),
{
    reveal_strlit("=");
    reveal_strlit("!");
    reveal_strlit("+");
    reveal_strlit("-");
    reveal_strlit("*");
    reveal_strlit("/");
    reveal_strlit("<");
    reveal_strlit(">");
    reveal_strlit("==");
    reveal_strlit("!=");
    reveal_strlit(",");
    reveal_strlit(";");
    reveal_strlit(":");
    reveal_strlit("(");
    reveal_strlit(")");
    reveal_strlit("{");
    reveal_strlit("}");
    reveal_strlit("[");
    reveal_strlit("]");
    reveal_strlit("fn");
    reveal_strlit("let");
    reveal_strlit("true");
    reveal_strlit("false");
    reveal_strlit("if");
    reveal_strlit("else");
    reveal_strlit("return");
    let w = token_text(t);
    match t {
        TokenView::Fn | TokenView::Let | TokenView::True | TokenView::False | TokenView::If
        | TokenView::Else | TokenView::Return => {
            assert(is_identifier(w));
            lemma_word_lexeme(w);
        },
        _ => {
            lemma_scan_single(w, t);
        },
    }
}

} // verus!
