//! Laws of the three stages taken together: from text to value.

use crate::expr::Sexp;
use crate::interpreter::{eval, EvalError};
use crate::laws::evaluation::{binary_form, lemma_eval_binary_form};
use crate::laws::lexing::lemma_lex_run;
use crate::lexer::{
    decimal_value, is_digit, lemma_decimal_value_nonnegative, lex, literals_fit, Category, Lexeme,
};
use crate::parser::{parse_expr, parse_form, parse_items, ParseError};
use vstd::prelude::*;

verus! {

/// The text of a sum of two numbers: `(+ a b)`.
pub open spec fn sum_text(a: Seq<char>, b: Seq<char>) -> Seq<char> {
    seq!['(', '+', ' '] + a + seq![' '] + b + seq![')']
}

/// For all runs of digits `a` and `b` whose sum fits a signed 64-bit
/// integer, the text `(+ a b)` is lexed without a number too large, parsed as
/// the sum of the two numbers, and evaluated to the number that is their sum.
pub proof fn lemma_sum_of_two_literals(a: Seq<char>, b: Seq<char>)
    requires
        a.len() > 0,
        b.len() > 0,
        forall|i: int| 0 <= i < a.len() ==> is_digit(#[trigger] a[i]),
        forall|i: int| 0 <= i < b.len() ==> is_digit(#[trigger] b[i]),
        decimal_value(a) + decimal_value(b) <= i64::MAX,
    ensures
        literals_fit(sum_text(a, b)),
        parse_expr(lex(sum_text(a, b))).result == Ok::<Sexp, ParseError>(
            binary_form('+', decimal_value(a), decimal_value(b)),
        ),
        eval(binary_form('+', decimal_value(a), decimal_value(b))) == Ok::<Sexp, EvalError>(
            Sexp::Number(decimal_value(a) + decimal_value(b)),
        ),
{
    let va = decimal_value(a);
    let vb = decimal_value(b);
    lemma_decimal_value_nonnegative(a);
    lemma_decimal_value_nonnegative(b);
    let plus = seq!['+'];
    let tokens = seq![
        Lexeme::LeftParen,
        Lexeme::Symbol(plus),
        Lexeme::Number(va),
        Lexeme::Number(vb),
        Lexeme::RightParen,
    ];
    assert(lex(sum_text(a, b)) == tokens) by {
        let t6 = seq![')'];
        let t5 = b + t6;
        let t4 = seq![' '] + t5;
        let t3 = a + t4;
        let t2 = seq![' '] + t3;
        let t1 = plus + t2;
        let t0 = seq!['('] + t1;
        assert(t0 =~= sum_text(a, b));
        assert(t6 + Seq::<char>::empty() =~= t6);
        lemma_lex_run(Category::RightParen, t6, Seq::empty());
        lemma_lex_run(Category::Number, b, t6);
        lemma_lex_run(Category::Whitespace, seq![' '], t5);
        lemma_lex_run(Category::Number, a, t4);
        lemma_lex_run(Category::Whitespace, seq![' '], t3);
        lemma_lex_run(Category::Symbol, plus, t2);
        lemma_lex_run(Category::LeftParen, seq!['('], t1);
        assert(lex(t0) =~= tokens);
    }
    assert(parse_expr(tokens).result == Ok::<Sexp, ParseError>(binary_form('+', va, vb))) by {
        let s1 = tokens.drop_first();
        let s2 = s1.drop_first();
        let s3 = s2.drop_first();
        let s4 = s3.drop_first();
        let i0 = Seq::<Sexp>::empty();
        let i1 = i0.push(Sexp::Symbol(plus));
        let i2 = i1.push(Sexp::Number(va));
        let i3 = i2.push(Sexp::Number(vb));
        assert(i3 =~= seq![Sexp::Symbol(plus), Sexp::Number(va), Sexp::Number(vb)]);
        assert(parse_items(s4, i3).result == Ok::<Sexp, ParseError>(Sexp::List(i3)));
        assert(parse_expr(s3).rest == s4);
        assert(parse_items(s3, i2) == parse_items(s4, i3));
        assert(parse_expr(s2).rest == s3);
        assert(parse_items(s2, i1) == parse_items(s3, i2));
        assert(parse_expr(s1).rest == s2);
        assert(parse_items(s1, i0) == parse_items(s2, i1));
        assert(parse_form(s1) == parse_items(s1, i0));
    }
    lemma_eval_binary_form('+', va, vb);
}

} // verus!
