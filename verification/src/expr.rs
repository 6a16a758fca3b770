//! Expressions: the tree that the parser builds and the evaluator reduces.

use vstd::prelude::*;

verus! {

/// The mathematical model of an expression.
pub ghost enum Sexp {
    Number(int),
    Symbol(Seq<char>),
    List(Seq<Sexp>),
}

/// An expression: a number, a name, or a parenthesised form.
#[derive(Debug, PartialEq, Eq)]
pub enum LispExpr {
    Number(i64),
    Symbol(String),
    List(Vec<LispExpr>),
}

/// The models of a sequence of expressions, in order.
pub open spec fn sexps(items: Seq<LispExpr>) -> Seq<Sexp>
    decreases items,
{
    Seq::new(
        items.len(),
        |i: int|
            if 0 <= i < items.len() {
                items[i].view()
            } else {
                Sexp::Number(0)
            },
    )
}

/// The model of a sequence with one more expression at its end.
pub proof fn lemma_sexps_push(items: Seq<LispExpr>, item: LispExpr)
    ensures
        sexps(items.push(item)) == sexps(items).push(item@),
{
    assert(sexps(items.push(item)) =~= sexps(items).push(item@));
}

impl View for LispExpr {
    type V = Sexp;

    open spec fn view(&self) -> Sexp
        decreases self,
    {
        match self {
            LispExpr::Number(n) => Sexp::Number(*n as int),
            LispExpr::Symbol(name) => Sexp::Symbol(name@),
            LispExpr::List(items) => Sexp::List(sexps(items@)),
        }
    }
}

impl Clone for LispExpr {
    /// A deep copy.
    fn clone(&self) -> (copy: LispExpr)
        ensures
            copy@ == self@,
        decreases self,
    {
        match self {
            LispExpr::Number(n) => LispExpr::Number(*n),
            LispExpr::Symbol(name) => LispExpr::Symbol(name.clone()),
            LispExpr::List(items) => {
                let mut copies: Vec<LispExpr> = Vec::new();
                let mut i: usize = 0;
                while i < items.len()
                    invariant
                        *self == LispExpr::List(*items),
                        i <= items.len(),
                        sexps(copies@) == sexps(items@).take(i as int),
                    decreases items.len() - i,
                {
                    assert(decreases_to!(*self => self->List_0));
                    assert(decreases_to!(*items => items[i as int]));
                    let copy = items[i].clone();
                    proof {
                        lemma_sexps_push(copies@, copy);
                        assert(sexps(items@).take(i + 1) =~= sexps(items@).take(i as int).push(
                            copy@,
                        ));
                    }
                    copies.push(copy);
                    i += 1;
                }
                assert(sexps(items@).take(i as int) =~= sexps(items@));
                LispExpr::List(copies)
            },
        }
    }
}

} // verus!
