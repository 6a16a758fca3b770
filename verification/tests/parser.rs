use math_lisp::{tokenize, LispExpr, Parser, Token, TokenType};

fn parse_text(text: &str) -> Result<LispExpr, String> {
    Parser::new(tokenize(text)).parse()
}

fn num(n: i64) -> LispExpr {
    LispExpr::Number(n)
}

fn sym(name: &str) -> LispExpr {
    LispExpr::Symbol(name.to_string())
}

#[test]
fn parses_a_number() {
    assert_eq!(parse_text("42"), Ok(num(42)));
}

#[test]
fn parses_a_symbol() {
    assert_eq!(parse_text("foo"), Ok(sym("foo")));
}

#[test]
fn parses_a_form() {
    assert_eq!(parse_text("(+ 1 2)"), Ok(LispExpr::List(vec![sym("+"), num(1), num(2)])));
}

#[test]
fn parses_an_empty_form() {
    assert_eq!(parse_text("()"), Ok(LispExpr::List(vec![])));
}

#[test]
fn parses_nested_forms() {
    assert_eq!(
        parse_text("(- (+ (/ 100 5) (* 2 6)) 10)"),
        Ok(LispExpr::List(vec![
            sym("-"),
            LispExpr::List(vec![
                sym("+"),
                LispExpr::List(vec![sym("/"), num(100), num(5)]),
                LispExpr::List(vec![sym("*"), num(2), num(6)]),
            ]),
            num(10),
        ]))
    );
}

#[test]
fn parses_forms_that_hold_only_forms() {
    assert_eq!(
        parse_text("(() (()))"),
        Ok(LispExpr::List(vec![
            LispExpr::List(vec![]),
            LispExpr::List(vec![LispExpr::List(vec![])]),
        ]))
    );
}

#[test]
fn no_tokens_are_an_invalid_expression() {
    assert_eq!(parse_text(""), Err("Invalid expression".to_string()));
    assert_eq!(Parser::new(Vec::new()).parse(), Err("Invalid expression".to_string()));
}

#[test]
fn right_paren_first_is_unexpected() {
    assert_eq!(parse_text(")"), Err("Unexpected right paren found.".to_string()));
    assert_eq!(parse_text(") 1 2"), Err("Unexpected right paren found.".to_string()));
}

#[test]
fn left_paren_at_the_end_is_an_invalid_expression() {
    assert_eq!(parse_text("("), Err("Invalid expression".to_string()));
    assert_eq!(parse_text("(+ 1 ("), Err("Invalid expression".to_string()));
}

#[test]
fn unbalanced_form_is_an_error() {
    assert_eq!(parse_text("(+ 1 2"), Err("Unbalanced parentheses".to_string()));
    assert_eq!(parse_text("(+"), Err("Unbalanced parentheses".to_string()));
    assert_eq!(parse_text("(+ (1 2) 3"), Err("Unbalanced parentheses".to_string()));
    assert_eq!(parse_text("((1 2"), Err("Unbalanced parentheses".to_string()));
}

#[test]
fn tokens_after_the_first_expression_are_left_unread() {
    assert_eq!(parse_text("1 2 3"), Ok(num(1)));
    assert_eq!(parse_text("(+ 1 2) )"), Ok(LispExpr::List(vec![sym("+"), num(1), num(2)])));
    assert_eq!(parse_text("foo ("), Ok(sym("foo")));
}

#[test]
fn parser_reads_one_expression_after_another() {
    let mut parser = Parser::new(tokenize("1 (a b) ) foo"));
    assert_eq!(parser.parse(), Ok(num(1)));
    assert_eq!(parser.parse(), Ok(LispExpr::List(vec![sym("a"), sym("b")])));
    assert_eq!(parser.parse(), Err("Unexpected right paren found.".to_string()));
    assert_eq!(parser.parse(), Ok(sym("foo")));
    assert_eq!(parser.parse(), Err("Invalid expression".to_string()));
    assert_eq!(parser.parse(), Err("Invalid expression".to_string()));
}

#[test]
fn parser_takes_tokens_made_by_hand() {
    let tokens = vec![
        Token { token_type: TokenType::LeftParen },
        Token { token_type: TokenType::Symbol("not lexable".to_string()) },
        Token { token_type: TokenType::Number(-7) },
        Token { token_type: TokenType::RightParen },
    ];
    assert_eq!(
        Parser::new(tokens).parse(),
        Ok(LispExpr::List(vec![sym("not lexable"), num(-7)]))
    );
}

#[test]
fn clone_is_a_deep_copy() {
    let expr = parse_text("(a (b 1) (c (d 2)))").unwrap();
    let copy = expr.clone();
    assert_eq!(copy, expr);
    assert_eq!(num(5).clone(), num(5));
    assert_eq!(sym("x").clone(), sym("x"));
}
