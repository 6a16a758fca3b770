//! Laws of the parser.

use crate::expr::Sexp;
use crate::lexer::Lexeme;
use crate::parser::{lemma_parse_expr_consumes, parse_expr, parse_items, Parsed};
use vstd::prelude::*;

verus! {

/// The tokens that an expression is written with.
pub open spec fn unparse(expr: Sexp) -> Seq<Lexeme>
    decreases expr,
{
    match expr {
        Sexp::Number(n) => seq![Lexeme::Number(n)],
        Sexp::Symbol(name) => seq![Lexeme::Symbol(name)],
        Sexp::List(items) => seq![Lexeme::LeftParen] + unparse_all(items) + seq![
            Lexeme::RightParen,
        ],
    }
}

/// The tokens that a sequence of expressions is written with, one after
/// another.
pub open spec fn unparse_all(items: Seq<Sexp>) -> Seq<Lexeme>
    decreases items,
{
    if items.len() == 0 {
        Seq::empty()
    } else {
        unparse(items[0]) + unparse_all(items.drop_first())
    }
}

/// Tokens that begin with an expression as it is written are parsed as that
/// expression, and what follows it is left.
pub proof fn lemma_parse_reads_what_was_written(expr: Sexp, rest: Seq<Lexeme>)
    ensures
        parse_expr(unparse(expr) + rest) == (Parsed { result: Ok(expr), rest }),
    decreases expr,
{
    let tokens = unparse(expr) + rest;
    match expr {
        Sexp::Number(_) | Sexp::Symbol(_) => {
            assert(tokens.drop_first() =~= rest);
        },
        Sexp::List(items) => {
            let inside = unparse_all(items) + seq![Lexeme::RightParen] + rest;
            assert(tokens.drop_first() =~= inside);
            lemma_parse_items_reads_what_was_written(Seq::empty(), items, rest);
            assert(Seq::<Sexp>::empty() + items =~= items);
        },
    }
}

/// Inside a form of which `read` has been read, tokens that begin with the
/// expressions `items` as they are written and a closing parenthesis are
/// parsed as the form of `read` and `items`, and what follows the parenthesis
/// is left.
pub proof fn lemma_parse_items_reads_what_was_written(
    read: Seq<Sexp>,
    items: Seq<Sexp>,
    rest: Seq<Lexeme>,
)
    ensures
        parse_items(unparse_all(items) + seq![Lexeme::RightParen] + rest, read) == (Parsed {
            result: Ok(Sexp::List(read + items)),
            rest,
        }),
    decreases items,
{
    let tokens = unparse_all(items) + seq![Lexeme::RightParen] + rest;
    if items.len() == 0 {
        assert(tokens.drop_first() =~= rest);
        assert(read + items =~= read);
    } else {
        let tail = items.drop_first();
        let after = unparse_all(tail) + seq![Lexeme::RightParen] + rest;
        assert(tokens =~= unparse(items[0]) + after);
        lemma_parse_reads_what_was_written(items[0], after);
        lemma_parse_items_reads_what_was_written(read.push(items[0]), tail, rest);
        assert(read.push(items[0]) + tail =~= read + items);
        assert(tokens[0] == unparse(items[0])[0]);
    }
}

/// Tokens that are parsed as an expression begin with that expression as it
/// is written, and what is left follows it. So no expression is read from
/// tokens that end inside a form.
pub proof fn lemma_parse_reads_only_what_was_written(tokens: Seq<Lexeme>)
    requires
        parse_expr(tokens).result is Ok,
    ensures
        tokens == unparse(parse_expr(tokens).result->Ok_0) + parse_expr(tokens).rest,
    decreases tokens.len(), 0int,
{
    let parsed = parse_expr(tokens);
    if tokens[0] is LeftParen {
        let inside = tokens.drop_first();
        lemma_parse_items_reads_only_what_was_written(inside, Seq::empty());
        let items = parsed.result->Ok_0->List_0;
        assert(items.skip(0) =~= items);
        assert(tokens =~= seq![Lexeme::LeftParen] + inside);
        assert(tokens =~= unparse(parsed.result->Ok_0) + parsed.rest);
    } else {
        assert(tokens =~= unparse(parsed.result->Ok_0) + parsed.rest);
    }
}

/// Inside a form of which `read` has been read, tokens that are parsed to the
/// end of the form begin with the other expressions of the form as they are
/// written and a closing parenthesis, and what is left follows it.
pub proof fn lemma_parse_items_reads_only_what_was_written(tokens: Seq<Lexeme>, read: Seq<Sexp>)
    requires
        parse_items(tokens, read).result is Ok,
    ensures
        parse_items(tokens, read).result->Ok_0 is List,
        ({
            let items = parse_items(tokens, read).result->Ok_0->List_0;
            &&& read.len() <= items.len()
            &&& items.take(read.len() as int) == read
            &&& tokens == unparse_all(items.skip(read.len() as int)) + seq![Lexeme::RightParen]
                + parse_items(tokens, read).rest
        }),
    decreases tokens.len(), 1int,
{
    let parsed = parse_items(tokens, read);
    let items = parsed.result->Ok_0->List_0;
    let k = read.len() as int;
    if tokens[0] is RightParen {
        assert(items.take(k) =~= read);
        assert(items.skip(k) =~= Seq::<Sexp>::empty());
        assert(tokens =~= unparse_all(items.skip(k)) + seq![Lexeme::RightParen] + parsed.rest);
    } else {
        let item = parse_expr(tokens);
        lemma_parse_expr_consumes(tokens);
        lemma_parse_reads_only_what_was_written(tokens);
        let expr = item.result->Ok_0;
        lemma_parse_items_reads_only_what_was_written(item.rest, read.push(expr));
        assert(items.take(k) =~= items.take(k + 1).take(k));
        assert(items.take(k + 1)[k] == expr);
        assert(items.skip(k).drop_first() =~= items.skip(k + 1));
        assert(tokens =~= unparse_all(items.skip(k)) + seq![Lexeme::RightParen] + parsed.rest);
    }
}

} // verus!
