//! Laws of the evaluator.

use crate::expr::Sexp;
use crate::interpreter::{
    combine, eval, fits, fold, head_operator, operand, operator_named, truncated_quotient,
    EvalError, Operator,
};
use vstd::prelude::*;

verus! {

/// A value has itself as its value: evaluating what an evaluation gave
/// changes nothing.
pub proof fn lemma_value_is_fixed_point(expr: Sexp)
    requires
        eval(expr) is Ok,
    ensures
        eval(eval(expr)->Ok_0) == eval(expr),
{
}

/// A form whose head is not the name of an operator is its own value.
pub proof fn lemma_unknown_head_is_inert(items: Seq<Sexp>)
    requires
        items.len() > 0,
        head_operator(items) is None,
    ensures
        eval(Sexp::List(items)) == Ok::<Sexp, EvalError>(Sexp::List(items)),
{
}

/// The form of an operator, by its character, and two numbers.
pub open spec fn binary_form(operator: char, a: int, b: int) -> Sexp {
    Sexp::List(seq![Sexp::Symbol(seq![operator]), Sexp::Number(a), Sexp::Number(b)])
}

/// The value of a form of an operator and two numbers is one step of
/// arithmetic on them: its result, or its error.
pub proof fn lemma_eval_binary_form(operator: char, a: int, b: int)
    requires
        operator_named(seq![operator]) is Some,
        fits(a),
        fits(b),
    ensures
        eval(binary_form(operator, a, b)) == match combine(
            operator_named(seq![operator])->Some_0,
            a,
            b,
        ) {
            Ok(n) => Ok::<Sexp, EvalError>(Sexp::Number(n)),
            Err(error) => Err(error),
        },
{
    let op = operator_named(seq![operator])->Some_0;
    let items = seq![Sexp::Symbol(seq![operator]), Sexp::Number(a), Sexp::Number(b)];
    let operands = items.drop_first();
    let last = operands.drop_first();
    assert(operand(op, operands[0]) == Ok::<int, EvalError>(a));
    assert(operand(op, last[0]) == Ok::<int, EvalError>(b));
    assert(last.drop_first().len() == 0);
    match combine(op, a, b) {
        Ok(n) => {
            assert(fold(op, n, last.drop_first()) == Ok::<int, EvalError>(n));
            assert(fold(op, a, last) == Ok::<int, EvalError>(n));
        },
        Err(error) => {
            assert(fold(op, a, last) == Err::<int, EvalError>(error));
        },
    }
    if op == Operator::Add {
        assert(combine(op, 0, a) == Ok::<int, EvalError>(a));
        assert(fold(op, 0, operands) == fold(op, a, last));
    }
}

/// The value of a difference of one number is the number negated.
pub proof fn lemma_negation(n: int)
    requires
        fits(n),
        fits(-n),
    ensures
        eval(Sexp::List(seq![Sexp::Symbol(seq!['-']), Sexp::Number(n)])) == Ok::<Sexp, EvalError>(
            Sexp::Number(-n),
        ),
{
    let items = seq![Sexp::Symbol(seq!['-']), Sexp::Number(n)];
    assert(operand(Operator::Sub, items.drop_first()[0]) == Ok::<int, EvalError>(n));
}

/// A division by zero has no value: it is an error.
pub proof fn lemma_division_by_zero(a: int)
    requires
        fits(a),
    ensures
        eval(binary_form('/', a, 0)) == Err::<Sexp, EvalError>(EvalError::DivisionByZero),
{
    lemma_eval_binary_form('/', a, 0);
}

/// The quotient rounded toward zero is the one whose remainder is smaller
/// than the divisor and is not on the other side of zero than the dividend.
pub proof fn lemma_quotient_rounds_toward_zero(a: int, b: int)
    requires
        b != 0,
    ensures
        ({
            let remainder = a - truncated_quotient(a, b) * b;
            &&& a >= 0 ==> 0 <= remainder
            &&& a <= 0 ==> remainder <= 0
            &&& -b < remainder < b || b < remainder < -b
        }),
{
    let x = if a >= 0 { a } else { -a };
    let d = if b >= 0 { b } else { -b };
    vstd::arithmetic::div_mod::lemma_fundamental_div_mod(x, d);
    vstd::arithmetic::div_mod::lemma_mod_bound(x, d);
    let q = x / d;
    assert(x == d * q + x % d);
    assert(truncated_quotient(a, b) == if (a >= 0) == (b >= 0) { q } else { -q });
    assert(q * b == b * q && (-q) * b == -(b * q) && d * q == q * d) by (nonlinear_arith);
    assert((-b) * q == -(b * q)) by (nonlinear_arith);
}

} // verus!
