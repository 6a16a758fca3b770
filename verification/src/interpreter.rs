//! The evaluator: from an expression to its value.
//!
//! A number or a name is its own value. A form whose head is one of the four
//! arithmetic operators is reduced to a number, its operands taken from left
//! to right; any other form is its own value. Arithmetic is on signed 64-bit
//! integers, and a result outside their range is an error.

use crate::expr::{sexps, LispExpr, Sexp};
use vstd::prelude::*;

verus! {

/// An arithmetic operator.
#[derive(Debug, Clone, Copy, PartialEq, Eq)]
pub enum Operator {
    Add,
    Sub,
    Mul,
    Div,
}

/// Why an expression has no value.
pub ghost enum EvalError {
    /// The expression is a form with nothing in it.
    EmptyList,
    /// The operator has too few operands, or one that is no number.
    InvalidOperation(Operator),
    /// A divisor is zero.
    DivisionByZero,
    /// A result is outside the range of a signed 64-bit integer.
    Overflow,
}

impl EvalError {
    /// The text that reports the error.
    pub open spec fn message(self) -> Seq<char> {
        match self {
            EvalError::EmptyList => "Cannot evaluate empty list"@,
            EvalError::InvalidOperation(Operator::Add) => "Invalid + operation"@,
            EvalError::InvalidOperation(Operator::Sub) => "Invalid - operation"@,
            EvalError::InvalidOperation(Operator::Mul) => "Invalid * operation"@,
            EvalError::InvalidOperation(Operator::Div) => "Invalid / operation"@,
            EvalError::DivisionByZero => "Division by zero"@,
            EvalError::Overflow => "Integer overflow"@,
        }
    }
}

/// The operator that a name stands for, if it stands for one.
pub open spec fn operator_named(name: Seq<char>) -> Option<Operator> {
    if name.len() != 1 {
        None
    } else if name[0] == '+' {
        Some(Operator::Add)
    } else if name[0] == '-' {
        Some(Operator::Sub)
    } else if name[0] == '*' {
        Some(Operator::Mul)
    } else if name[0] == '/' {
        Some(Operator::Div)
    } else {
        None
    }
}

/// The operator at the head of a form, if its head is the name of one.
pub open spec fn head_operator(items: Seq<Sexp>) -> Option<Operator> {
    if items.len() > 0 && items[0] is Symbol {
        operator_named(items[0]->Symbol_0)
    } else {
        None
    }
}

/// The quotient of `a` by `b`, rounded toward zero: the quotient of their
/// distances from zero, negative where their signs differ.
pub open spec fn truncated_quotient(a: int, b: int) -> int {
    if a >= 0 && b >= 0 {
        a / b
    } else if a >= 0 {
        -(a / (-b))
    } else if b >= 0 {
        -((-a) / b)
    } else {
        (-a) / (-b)
    }
}

/// Whether `n` is in the range of a signed 64-bit integer.
pub open spec fn fits(n: int) -> bool {
    i64::MIN <= n <= i64::MAX
}

/// One step of arithmetic: the operator applied to the accumulator `acc` and
/// the operand `n`.
pub open spec fn combine(op: Operator, acc: int, n: int) -> Result<int, EvalError> {
    let value = match op {
        Operator::Add => acc + n,
        Operator::Sub => acc - n,
        Operator::Mul => acc * n,
        Operator::Div => truncated_quotient(acc, n),
    };
    if op == Operator::Div && n == 0 {
        Err(EvalError::DivisionByZero)
    } else if !fits(value) {
        Err(EvalError::Overflow)
    } else {
        Ok(value)
    }
}

/// The value of an expression.
pub open spec fn eval(expr: Sexp) -> Result<Sexp, EvalError>
    decreases expr, 1int,
{
    match expr {
        Sexp::Number(_) | Sexp::Symbol(_) => Ok(expr),
        Sexp::List(items) => if items.len() == 0 {
            Err(EvalError::EmptyList)
        } else {
            match head_operator(items) {
                None => Ok(expr),
                Some(op) => match reduce(op, items.drop_first()) {
                    Ok(n) => Ok(Sexp::Number(n)),
                    Err(error) => Err(error),
                },
            }
        },
    }
}

/// The number that an operand of `op` stands for.
pub open spec fn operand(op: Operator, expr: Sexp) -> Result<int, EvalError>
    decreases expr, 2int,
{
    match eval(expr) {
        Ok(Sexp::Number(n)) => Ok(n),
        Ok(_) => Err(EvalError::InvalidOperation(op)),
        Err(error) => Err(error),
    }
}

/// The number that `op` makes of its operands.
///
/// A sum starts from zero. A difference of one operand is its negation. In
/// every other case the first operand is the first accumulator, and at least
/// one more operand must follow it.
pub open spec fn reduce(op: Operator, operands: Seq<Sexp>) -> Result<int, EvalError>
    decreases operands, 1int,
{
    if op == Operator::Add {
        fold(op, 0, operands)
    } else if operands.len() == 0 || (operands.len() == 1 && op != Operator::Sub) {
        Err(EvalError::InvalidOperation(op))
    } else {
        match operand(op, operands[0]) {
            Ok(first) => if operands.len() == 1 {
                combine(op, 0, first)
            } else {
                fold(op, first, operands.drop_first())
            },
            Err(error) => Err(error),
        }
    }
}

/// The operands folded into the accumulator from left to right. The first
/// operand that has no value or is no number, or the first step of arithmetic
/// that fails, ends the fold with its error.
pub open spec fn fold(op: Operator, acc: int, operands: Seq<Sexp>) -> Result<int, EvalError>
    decreases operands, 0int,
{
    if operands.len() == 0 {
        Ok(acc)
    } else {
        match operand(op, operands[0]) {
            Ok(n) => match combine(op, acc, n) {
                Ok(next) => fold(op, next, operands.drop_first()),
                Err(error) => Err(error),
            },
            Err(error) => Err(error),
        }
    }
}

/// Whether `result` is what `expected` asks for: the expression with that
/// model, or the text that reports that error.
pub open spec fn yields(result: Result<LispExpr, String>, expected: Result<Sexp, EvalError>) -> bool {
    match expected {
        Ok(expr) => result matches Ok(found) && found@ == expr,
        Err(error) => result matches Err(text) && text@ == error.message(),
    }
}

/// Whether `result` is what `expected` asks for: that number, or the text
/// that reports that error.
pub open spec fn computes(result: Result<i64, String>, expected: Result<int, EvalError>) -> bool {
    match expected {
        Ok(n) => result matches Ok(found) && found == n,
        Err(error) => result matches Err(text) && text@ == error.message(),
    }
}

impl Operator {
    /// The operator that `name` stands for, if it stands for one.
    pub fn named(name: &str) -> (op: Option<Operator>)
        ensures
            op == operator_named(name@),
    {
        if name.unicode_len() != 1 {
            return None;
        }
        let c = name.get_char(0);
        if c == '+' {
            Some(Operator::Add)
        } else if c == '-' {
            Some(Operator::Sub)
        } else if c == '*' {
            Some(Operator::Mul)
        } else if c == '/' {
            Some(Operator::Div)
        } else {
            None
        }
    }

    /// The text that reports a misuse of the operator.
    pub fn misuse(self) -> (text: String)
        ensures
            text@ == EvalError::InvalidOperation(self).message(),
    {
        match self {
            Operator::Add => String::from_str("Invalid + operation"),
            Operator::Sub => String::from_str("Invalid - operation"),
            Operator::Mul => String::from_str("Invalid * operation"),
            Operator::Div => String::from_str("Invalid / operation"),
        }
    }

    /// One step of arithmetic: the operator applied to the accumulator `acc`
    /// and the operand `n`.
    pub fn apply(self, acc: i64, n: i64) -> (result: Result<i64, String>)
        ensures
            computes(result, combine(self, acc as int, n as int)),
    {
        if let Operator::Div = self {
            if n == 0 {
                return Err(String::from_str("Division by zero"));
            }
        }
        let value = match self {
            Operator::Add => acc.checked_add(n),
            Operator::Sub => acc.checked_sub(n),
            Operator::Mul => acc.checked_mul(n),
            Operator::Div => acc.checked_div(n),
        };
        match value {
            Some(value) => Ok(value),
            None => Err(String::from_str("Integer overflow")),
        }
    }
}

/// The operator at the head of a form, if its head is the name of one.
fn operator_at_head(items: &Vec<LispExpr>) -> (op: Option<Operator>)
    ensures
        op == head_operator(sexps(items@)),
{
    if items.len() == 0 {
        return None;
    }
    match &items[0] {
        LispExpr::Symbol(name) => Operator::named(name.as_str()),
        _ => None,
    }
}

/// An evaluator of expressions. It holds no state.
pub struct Interpreter {}

impl Interpreter {
    /// An evaluator.
    pub fn new() -> Interpreter {
        Interpreter {}
    }

    /// The value of `ast`.
    pub fn evaluate(&self, ast: LispExpr) -> (result: Result<LispExpr, String>)
        ensures
            yields(result, eval(ast@)),
        decreases ast@, 1int,
    {
        match &ast {
            LispExpr::List(items) => {
                if items.len() == 0 {
                    return Err(String::from_str("Cannot evaluate empty list"));
                }
                match operator_at_head(items) {
                    Some(op) => match self.reduce(op, items) {
                        Ok(n) => Ok(LispExpr::Number(n)),
                        Err(error) => Err(error),
                    },
                    None => Ok(ast),
                }
            },
            _ => Ok(ast),
        }
    }

    /// The number that an operand of `op` stands for.
    fn operand(&self, op: Operator, expr: &LispExpr) -> (result: Result<i64, String>)
        ensures
            computes(result, operand(op, expr@)),
        decreases expr@, 2int,
    {
        match self.evaluate(expr.clone()) {
            Ok(LispExpr::Number(n)) => Ok(n),
            Ok(_) => Err(op.misuse()),
            Err(error) => Err(error),
        }
    }

    /// The number that `op` makes of the operands that follow the head of the
    /// form.
    fn reduce(&self, op: Operator, items: &Vec<LispExpr>) -> (result: Result<i64, String>)
        requires
            items.len() > 0,
        ensures
            computes(result, reduce(op, sexps(items@).drop_first())),
        decreases Sexp::List(sexps(items@)), 0int,
    {
        let ghost form = Sexp::List(sexps(items@));
        let ghost operands = sexps(items@).drop_first();
        let mut acc: i64 = 0;
        let mut next: usize = 1;
        match op {
            Operator::Add => {},
            _ => {
                let least: usize = match op {
                    Operator::Sub => 2,
                    _ => 3,
                };
                if items.len() < least {
                    return Err(op.misuse());
                }
                assert(decreases_to!(form => form->List_0));
                assert(decreases_to!(sexps(items@) => sexps(items@)[1]));
                let first = match self.operand(op, &items[1]) {
                    Ok(first) => first,
                    Err(error) => {
                        return Err(error);
                    },
                };
                if items.len() == 2 {
                    return op.apply(0, first);
                }
                acc = first;
                next = 2;
            },
        }
        assert(operands.skip(0) =~= operands);
        assert(operands.skip(1) =~= operands.drop_first());
        while next < items.len()
            invariant
                1 <= next <= items.len(),
                form == Sexp::List(sexps(items@)),
                operands == sexps(items@).drop_first(),
                fold(op, acc as int, operands.skip(next - 1)) == reduce(op, operands),
            decreases items.len() - next,
        {
            assert(decreases_to!(form => form->List_0));
            assert(decreases_to!(sexps(items@) => sexps(items@)[next as int]));
            assert(operands.skip(next - 1).drop_first() =~= operands.skip(next as int));
            let n = match self.operand(op, &items[next]) {
                Ok(n) => n,
                Err(error) => {
                    return Err(error);
                },
            };
            acc = match op.apply(acc, n) {
                Ok(value) => value,
                Err(error) => {
                    return Err(error);
                },
            };
            next += 1;
        }
        Ok(acc)
    }
}

} // verus!
