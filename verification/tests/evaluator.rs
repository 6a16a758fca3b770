use math_lisp::{tokenize, Interpreter, LispExpr, Operator, Parser};

fn run(text: &str) -> Result<LispExpr, String> {
    let ast = Parser::new(tokenize(text)).parse()?;
    Interpreter::new().evaluate(ast)
}

fn num(n: i64) -> LispExpr {
    LispExpr::Number(n)
}

fn sym(name: &str) -> LispExpr {
    LispExpr::Symbol(name.to_string())
}

fn form(head: &str, operands: Vec<LispExpr>) -> LispExpr {
    let mut items = vec![sym(head)];
    items.extend(operands);
    LispExpr::List(items)
}

fn eval(expr: LispExpr) -> Result<LispExpr, String> {
    Interpreter::new().evaluate(expr)
}

fn fails(text: &str) -> Result<LispExpr, String> {
    Err(text.to_string())
}

#[test]
fn sum_of_two_numbers() {
    assert_eq!(run("(+ 1 2)"), Ok(num(3)));
    assert_eq!(run("(+ 0 0)"), Ok(num(0)));
    assert_eq!(run("(+ 123456789 987654321)"), Ok(num(1111111110)));
    assert_eq!(run("(+ 9223372036854775806 1)"), Ok(num(i64::MAX)));
    assert_eq!(run("(+ 0007 0035)"), Ok(num(42)));
}

#[test]
fn nested_arithmetic() {
    assert_eq!(run("(- (+ (/ 100 5) (* 2 6)) 10)"), Ok(num(22)));
}

#[test]
fn unary_minus_negates() {
    assert_eq!(run("(- 5)"), Ok(num(-5)));
    assert_eq!(run("(- 0)"), Ok(num(0)));
    assert_eq!(run("(- (- 5))"), Ok(num(5)));
    assert_eq!(eval(form("-", vec![num(-9)])), Ok(num(9)));
}

#[test]
fn division_truncates_toward_zero() {
    assert_eq!(run("(/ 7 2)"), Ok(num(3)));
    assert_eq!(run("(/ (- 7) 2)"), Ok(num(-3)));
    assert_eq!(run("(/ 7 (- 2))"), Ok(num(-3)));
    assert_eq!(run("(/ (- 7) (- 2))"), Ok(num(3)));
    assert_eq!(run("(/ 1 2)"), Ok(num(0)));
    assert_eq!(run("(/ (- 1) 2)"), Ok(num(0)));
    assert_eq!(run("(/ 0 5)"), Ok(num(0)));
}

#[test]
fn unknown_head_passes_through() {
    assert_eq!(run("(foo 1 2)"), Ok(LispExpr::List(vec![sym("foo"), num(1), num(2)])));
    assert_eq!(run("(++ 1 2)"), Ok(LispExpr::List(vec![sym("++"), num(1), num(2)])));
    assert_eq!(run("(+a 1 2)"), Ok(LispExpr::List(vec![sym("+a"), num(1), num(2)])));
}

#[test]
fn form_headed_by_a_number_or_a_form_passes_through() {
    assert_eq!(run("(1 2 3)"), Ok(LispExpr::List(vec![num(1), num(2), num(3)])));
    assert_eq!(
        run("((+ 1 2) 3)"),
        Ok(LispExpr::List(vec![LispExpr::List(vec![sym("+"), num(1), num(2)]), num(3)]))
    );
    assert_eq!(
        run("(foo (/ 1 0))"),
        Ok(LispExpr::List(vec![sym("foo"), LispExpr::List(vec![sym("/"), num(1), num(0)])]))
    );
}

#[test]
fn leaves_are_their_own_value() {
    assert_eq!(run("7"), Ok(num(7)));
    assert_eq!(run("foo"), Ok(sym("foo")));
    assert_eq!(run("+"), Ok(sym("+")));
    assert_eq!(eval(num(i64::MIN)), Ok(num(i64::MIN)));
}

#[test]
fn evaluating_a_value_changes_nothing() {
    for text in ["(+ 1 2)", "(foo 1 (+ 1 2))", "7", "bar", "(- (+ (/ 100 5) (* 2 6)) 10)", "(1)"] {
        let once = run(text).unwrap();
        let twice = eval(once.clone()).unwrap();
        assert_eq!(twice, once);
    }
}

#[test]
fn sum_of_any_number_of_operands() {
    assert_eq!(run("(+)"), Ok(num(0)));
    assert_eq!(run("(+ 5)"), Ok(num(5)));
    assert_eq!(run("(+ 1 2 3 4)"), Ok(num(10)));
}

#[test]
fn difference_goes_from_left_to_right() {
    assert_eq!(run("(- 10 1 2 3)"), Ok(num(4)));
    assert_eq!(run("(- 1 2)"), Ok(num(-1)));
}

#[test]
fn product_goes_from_left_to_right() {
    assert_eq!(run("(* 2 3)"), Ok(num(6)));
    assert_eq!(run("(* 2 3 4)"), Ok(num(24)));
    assert_eq!(run("(* 5 0)"), Ok(num(0)));
    assert_eq!(run("(* (- 3) 4)"), Ok(num(-12)));
}

#[test]
fn quotient_goes_from_left_to_right() {
    assert_eq!(run("(/ 100 5 2)"), Ok(num(10)));
    assert_eq!(run("(/ 100 7 3)"), Ok(num(4)));
}

#[test]
fn division_by_zero_is_an_error() {
    assert_eq!(run("(/ 5 0)"), fails("Division by zero"));
    assert_eq!(run("(/ 0 0)"), fails("Division by zero"));
    assert_eq!(run("(/ 100 5 0 2)"), fails("Division by zero"));
    assert_eq!(run("(/ 5 (- 1 1))"), fails("Division by zero"));
}

#[test]
fn empty_form_is_an_error() {
    assert_eq!(run("()"), fails("Cannot evaluate empty list"));
    assert_eq!(eval(LispExpr::List(vec![])), fails("Cannot evaluate empty list"));
}

#[test]
fn too_few_operands_are_an_error() {
    assert_eq!(run("(-)"), fails("Invalid - operation"));
    assert_eq!(run("(*)"), fails("Invalid * operation"));
    assert_eq!(run("(* 5)"), fails("Invalid * operation"));
    assert_eq!(run("(/)"), fails("Invalid / operation"));
    assert_eq!(run("(/ 5)"), fails("Invalid / operation"));
}

#[test]
fn too_few_operands_are_seen_before_any_operand() {
    assert_eq!(run("(* (/ 1 0))"), fails("Invalid * operation"));
    assert_eq!(run("(/ ())"), fails("Invalid / operation"));
}

#[test]
fn operand_that_is_no_number_is_an_error() {
    assert_eq!(run("(+ 1 foo)"), fails("Invalid + operation"));
    assert_eq!(run("(+ foo)"), fails("Invalid + operation"));
    assert_eq!(run("(- foo)"), fails("Invalid - operation"));
    assert_eq!(run("(- 1 foo)"), fails("Invalid - operation"));
    assert_eq!(run("(- foo 1)"), fails("Invalid - operation"));
    assert_eq!(run("(* 2 (foo 1))"), fails("Invalid * operation"));
    assert_eq!(run("(* foo 2)"), fails("Invalid * operation"));
    assert_eq!(run("(/ 2 (1 2))"), fails("Invalid / operation"));
    assert_eq!(run("(/ + 2)"), fails("Invalid / operation"));
}

#[test]
fn error_of_an_operand_comes_up_unchanged() {
    assert_eq!(run("(+ 1 (/ 5 0))"), fails("Division by zero"));
    assert_eq!(run("(+ 1 (* 2))"), fails("Invalid * operation"));
    assert_eq!(run("(- (()))"), fails("Invalid - operation"));
    assert_eq!(run("(- ())"), fails("Cannot evaluate empty list"));
    assert_eq!(run("(* 1 (+ 2 (- 3 (/ 4 foo))))"), fails("Invalid / operation"));
}

#[test]
fn first_failure_from_the_left_wins() {
    assert_eq!(run("(+ (/ 1 0) foo)"), fails("Division by zero"));
    assert_eq!(run("(+ foo (/ 1 0))"), fails("Invalid + operation"));
    assert_eq!(run("(/ 1 0 foo)"), fails("Division by zero"));
    assert_eq!(run("(+ 9223372036854775807 1 foo)"), fails("Integer overflow"));
    assert_eq!(run("(+ 9223372036854775807 foo 1)"), fails("Invalid + operation"));
}

#[test]
fn result_out_of_range_is_an_error() {
    assert_eq!(run("(+ 9223372036854775807 1)"), fails("Integer overflow"));
    assert_eq!(run("(- (- 9223372036854775807) 2)"), fails("Integer overflow"));
    assert_eq!(run("(* 4611686018427387904 2)"), fails("Integer overflow"));
    assert_eq!(eval(form("-", vec![num(i64::MIN)])), fails("Integer overflow"));
    assert_eq!(eval(form("/", vec![num(i64::MIN), num(-1)])), fails("Integer overflow"));
}

#[test]
fn results_at_the_ends_of_the_range() {
    assert_eq!(run("(- (- 9223372036854775807) 1)"), Ok(num(i64::MIN)));
    assert_eq!(eval(form("+", vec![num(i64::MIN), num(i64::MAX)])), Ok(num(-1)));
    assert_eq!(eval(form("*", vec![num(i64::MIN), num(1)])), Ok(num(i64::MIN)));
    assert_eq!(eval(form("/", vec![num(i64::MIN), num(1)])), Ok(num(i64::MIN)));
    assert_eq!(eval(form("-", vec![num(i64::MAX)])), Ok(num(-i64::MAX)));
}

#[test]
fn operator_names() {
    assert_eq!(Operator::named("+"), Some(Operator::Add));
    assert_eq!(Operator::named("-"), Some(Operator::Sub));
    assert_eq!(Operator::named("*"), Some(Operator::Mul));
    assert_eq!(Operator::named("/"), Some(Operator::Div));
    assert_eq!(Operator::named(""), None);
    assert_eq!(Operator::named("++"), None);
    assert_eq!(Operator::named("a"), None);
    assert_eq!(Operator::named("\u{e9}"), None);
}

#[test]
fn one_step_of_arithmetic() {
    assert_eq!(Operator::Add.apply(2, 3), Ok(5));
    assert_eq!(Operator::Sub.apply(2, 3), Ok(-1));
    assert_eq!(Operator::Mul.apply(2, 3), Ok(6));
    assert_eq!(Operator::Div.apply(7, 2), Ok(3));
    assert_eq!(Operator::Div.apply(-7, 2), Ok(-3));
    assert_eq!(Operator::Div.apply(7, 0), Err("Division by zero".to_string()));
    assert_eq!(Operator::Div.apply(i64::MIN, -1), Err("Integer overflow".to_string()));
    assert_eq!(Operator::Add.apply(i64::MAX, 1), Err("Integer overflow".to_string()));
    assert_eq!(Operator::Sub.apply(i64::MIN, 1), Err("Integer overflow".to_string()));
    assert_eq!(Operator::Mul.apply(i64::MAX, 2), Err("Integer overflow".to_string()));
}

#[test]
fn misuse_names_the_operator() {
    assert_eq!(Operator::Add.misuse(), "Invalid + operation");
    assert_eq!(Operator::Sub.misuse(), "Invalid - operation");
    assert_eq!(Operator::Mul.misuse(), "Invalid * operation");
    assert_eq!(Operator::Div.misuse(), "Invalid / operation");
}

#[test]
fn parse_error_stops_the_line() {
    assert_eq!(run("(+ 1 2"), fails("Unbalanced parentheses"));
    assert_eq!(run(""), fails("Invalid expression"));
    assert_eq!(run(")"), fails("Unexpected right paren found."));
}
