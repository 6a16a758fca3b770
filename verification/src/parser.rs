//! The parser: from tokens to one expression.
//!
//! The grammar is `expr := NUMBER | SYMBOL | '(' expr* ')'`. One expression is
//! read from the front of the tokens; what follows it is left unread.

use crate::expr::{lemma_sexps_push, sexps, LispExpr, Sexp};
use crate::lexer::{lexemes, Lexeme, Token, TokenType};
use vstd::prelude::*;

verus! {

/// Why a sequence of tokens does not begin with an expression.
pub ghost enum ParseError {
    /// The tokens end where an expression or the inside of a form must begin.
    InvalidExpression,
    /// The expression begins with a closing parenthesis.
    UnexpectedRightParen,
    /// The tokens end inside a form.
    UnbalancedParens,
}

impl ParseError {
    /// The text that reports the error.
    pub open spec fn message(self) -> Seq<char> {
        match self {
            ParseError::InvalidExpression => "Invalid expression"@,
            ParseError::UnexpectedRightParen => "Unexpected right paren found."@,
            ParseError::UnbalancedParens => "Unbalanced parentheses"@,
        }
    }
}

/// What reading one expression gives: the expression or the error, and the
/// tokens that are left.
pub ghost struct Parsed {
    pub result: Result<Sexp, ParseError>,
    pub rest: Seq<Lexeme>,
}

/// Reads one expression from the front of `tokens`.
pub open spec fn parse_expr(tokens: Seq<Lexeme>) -> Parsed
    decreases tokens.len(), 0int,
{
    if tokens.len() == 0 {
        Parsed { result: Err(ParseError::InvalidExpression), rest: tokens }
    } else {
        match tokens[0] {
            Lexeme::LeftParen => parse_form(tokens.drop_first()),
            Lexeme::RightParen => Parsed {
                result: Err(ParseError::UnexpectedRightParen),
                rest: tokens.drop_first(),
            },
            Lexeme::Number(n) => Parsed { result: Ok(Sexp::Number(n)), rest: tokens.drop_first() },
            Lexeme::Symbol(name) => Parsed {
                result: Ok(Sexp::Symbol(name)),
                rest: tokens.drop_first(),
            },
        }
    }
}

/// Reads a form whose opening parenthesis has been read.
pub open spec fn parse_form(tokens: Seq<Lexeme>) -> Parsed
    decreases tokens.len(), 2int,
{
    if tokens.len() == 0 {
        Parsed { result: Err(ParseError::InvalidExpression), rest: tokens }
    } else {
        parse_items(tokens, Seq::empty())
    }
}

/// Reads the rest of a form of which `items` have been read: expressions up
/// to the closing parenthesis, which is read too.
///
/// An expression that was read has used up at least one token
/// (`lemma_parse_expr_consumes`); the test on the lengths only makes this
/// plain where the function is defined.
pub open spec fn parse_items(tokens: Seq<Lexeme>, items: Seq<Sexp>) -> Parsed
    decreases tokens.len(), 1int,
{
    if tokens.len() == 0 {
        Parsed { result: Err(ParseError::UnbalancedParens), rest: tokens }
    } else if tokens[0] is RightParen {
        Parsed { result: Ok(Sexp::List(items)), rest: tokens.drop_first() }
    } else {
        let item = parse_expr(tokens);
        match item.result {
            Ok(expr) if item.rest.len() < tokens.len() => parse_items(item.rest, items.push(expr)),
            _ => item,
        }
    }
}

/// Reading an expression from tokens that are not empty uses up at least one
/// of them, whether it succeeds or not, and what is left is an end of the
/// tokens.
pub proof fn lemma_parse_expr_consumes(tokens: Seq<Lexeme>)
    requires
        tokens.len() > 0,
    ensures
        parse_expr(tokens).rest.len() < tokens.len(),
        parse_expr(tokens).rest == tokens.skip(tokens.len() - parse_expr(tokens).rest.len()),
    decreases tokens.len(), 0int,
{
    let tail = tokens.drop_first();
    assert(tail =~= tokens.skip(1));
    if tokens[0] is LeftParen {
        lemma_parse_form_consumes(tail);
        let rest = parse_form(tail).rest;
        assert(tail.skip(tail.len() - rest.len()) =~= tokens.skip(tokens.len() - rest.len()));
    }
}

/// What reading a form leaves is an end of the tokens.
pub proof fn lemma_parse_form_consumes(tokens: Seq<Lexeme>)
    ensures
        parse_form(tokens).rest.len() <= tokens.len(),
        parse_form(tokens).rest == tokens.skip(tokens.len() - parse_form(tokens).rest.len()),
    decreases tokens.len(), 2int,
{
    if tokens.len() == 0 {
        assert(tokens.skip(0) =~= tokens);
    } else {
        lemma_parse_items_consumes(tokens, Seq::empty());
    }
}

/// What reading the rest of a form leaves is an end of the tokens.
pub proof fn lemma_parse_items_consumes(tokens: Seq<Lexeme>, items: Seq<Sexp>)
    ensures
        parse_items(tokens, items).rest.len() <= tokens.len(),
        parse_items(tokens, items).rest == tokens.skip(
            tokens.len() - parse_items(tokens, items).rest.len(),
        ),
        tokens.len() > 0 ==> parse_items(tokens, items).rest.len() < tokens.len(),
    decreases tokens.len(), 1int,
{
    if tokens.len() == 0 {
        assert(tokens.skip(0) =~= tokens);
    } else if tokens[0] is RightParen {
        assert(tokens.drop_first() =~= tokens.skip(1));
    } else {
        lemma_parse_expr_consumes(tokens);
        let item = parse_expr(tokens);
        if let Ok(expr) = item.result {
            lemma_parse_items_consumes(item.rest, items.push(expr));
            let rest = parse_items(item.rest, items.push(expr)).rest;
            assert(item.rest.skip(item.rest.len() - rest.len()) =~= tokens.skip(
                tokens.len() - rest.len(),
            ));
        }
    }
}

/// Whether `result` is what `expected` asks for: the expression with that
/// model, or the text that reports that error.
pub open spec fn reports(result: Result<LispExpr, String>, expected: Result<Sexp, ParseError>) -> bool {
    match expected {
        Ok(expr) => result matches Ok(found) && found@ == expr,
        Err(error) => result matches Err(text) && text@ == error.message(),
    }
}

/// A reader of expressions from a sequence of tokens.
pub struct Parser {
    tokens: Vec<Token>,
    position: usize,
}

impl View for Parser {
    type V = Seq<Lexeme>;

    /// The tokens that have not been read yet.
    closed spec fn view(&self) -> Seq<Lexeme> {
        if self.position <= self.tokens.len() {
            lexemes(self.tokens@).skip(self.position as int)
        } else {
            Seq::empty()
        }
    }
}

impl Parser {
    /// A parser that has all of `tokens` before it.
    pub fn new(tokens: Vec<Token>) -> (parser: Parser)
        ensures
            parser@ == lexemes(tokens@),
    {
        assert(lexemes(tokens@).skip(0) =~= lexemes(tokens@));
        Parser { tokens, position: 0 }
    }

    /// Reads one expression from the front of the tokens.
    pub fn parse(&mut self) -> (result: Result<LispExpr, String>)
        ensures
            reports(result, parse_expr(old(self)@).result),
            final(self)@ == parse_expr(old(self)@).rest,
        decreases old(self)@.len(), 0int,
    {
        if self.position >= self.tokens.len() {
            assert(self@ =~= Seq::<Lexeme>::empty());
            return Err(String::from_str("Invalid expression"));
        }
        assert(self@[0] == self.tokens@[self.position as int]@);
        assert(self@.drop_first() =~= lexemes(self.tokens@).skip(self.position + 1));
        let expr = match &self.tokens[self.position].token_type {
            TokenType::LeftParen => None,
            TokenType::RightParen => {
                self.position += 1;
                return Err(String::from_str("Unexpected right paren found."));
            },
            TokenType::Number(n) => Some(LispExpr::Number(*n)),
            TokenType::Symbol(name) => Some(LispExpr::Symbol(name.clone())),
        };
        self.position += 1;
        match expr {
            Some(expr) => Ok(expr),
            None => self.parse_form(),
        }
    }

    /// Reads a form whose opening parenthesis has been read.
    fn parse_form(&mut self) -> (result: Result<LispExpr, String>)
        ensures
            reports(result, parse_form(old(self)@).result),
            final(self)@ == parse_form(old(self)@).rest,
        decreases old(self)@.len(), 2int,
    {
        if self.position >= self.tokens.len() {
            assert(self@ =~= Seq::<Lexeme>::empty());
            return Err(String::from_str("Invalid expression"));
        }
        let mut list: Vec<LispExpr> = Vec::new();
        assert(sexps(list@) =~= Seq::<Sexp>::empty());
        loop
            invariant
                self@.len() <= old(self)@.len(),
                parse_items(self@, sexps(list@)) == parse_form(old(self)@),
            decreases self@.len(),
        {
            if self.position >= self.tokens.len() {
                assert(self@ =~= Seq::<Lexeme>::empty());
                return Err(String::from_str("Unbalanced parentheses"));
            }
            assert(self@[0] == self.tokens@[self.position as int]@);
            if let TokenType::RightParen = &self.tokens[self.position].token_type {
                assert(self@.drop_first() =~= lexemes(self.tokens@).skip(self.position + 1));
                self.position += 1;
                return Ok(LispExpr::List(list));
            }
            proof {
                lemma_parse_expr_consumes(self@);
            }
            match self.parse() {
                Ok(value) => {
                    proof {
                        lemma_sexps_push(list@, value);
                    }
                    list.push(value);
                },
                Err(error) => {
                    return Err(error);
                },
            }
        }
    }
}

} // verus!
