use bc_rs::ast::AST;
use bc_rs::error::CalcError;
use bc_rs::evaluator::Evaluator;
use bc_rs::operator::Operator;
use bc_rs::parser::Parser;

#[derive(Debug, PartialEq)]
enum Shape {
    N(f64),
    O(&'static str, Box<Shape>, Box<Shape>),
}

fn op_name(op: &Operator) -> &'static str {
    match op {
        Operator::Add => "Add",
        Operator::Deduct => "Deduct",
        Operator::Multiply => "Multiply",
        Operator::Divide => "Divide",
        Operator::Power => "Power",
    }
}

fn shape(t: &AST) -> Shape {
    match t {
        AST::Num(d) => Shape::N(d.iter().collect::<String>().parse().unwrap()),
        AST::Oper(op, l, r) => Shape::O(op_name(op), Box::new(shape(l)), Box::new(shape(r))),
    }
}

fn num_ast(v: f64) -> Shape {
    Shape::N(v)
}

fn oper_ast(op: Operator, l: Shape, r: Shape) -> Shape {
    Shape::O(op_name(&op), Box::new(l), Box::new(r))
}

fn value(t: &AST) -> f64 {
    match t {
        AST::Num(d) => d.iter().collect::<String>().parse().unwrap(),
        AST::Oper(op, l, r) => {
            let (a, b) = (value(l), value(r));
            match op {
                Operator::Add => a + b,
                Operator::Deduct => a - b,
                Operator::Multiply => a * b,
                Operator::Divide => a / b,
                Operator::Power => a.powf(b),
            }
        }
    }
}

fn eval(line: &str) -> Result<f64, CalcError> {
    Evaluator::new_evaluator(line).tree().map(|t| value(&t))
}

#[test]
fn parse_test() {
    let p_1 = Parser::new_parser("2");
    assert_eq!(num_ast(2.0), shape(&p_1.parse().unwrap()));

    let p_2 = Parser::new_parser("1 + 2");
    assert_eq!(oper_ast(Operator::Add, num_ast(1.0), num_ast(2.0)), shape(&p_2.parse().unwrap()));

    let p_3 = Parser::new_parser("1 + 2 + 3");
    assert_eq!(
        oper_ast(
            Operator::Add,
            oper_ast(Operator::Add, num_ast(1.0), num_ast(2.0)),
            num_ast(3.0)
        ),
        shape(&p_3.parse().unwrap())
    );

    let p_4 = Parser::new_parser("1 + 2 * 3");
    assert_eq!(
        oper_ast(
            Operator::Add,
            num_ast(1.0),
            oper_ast(Operator::Multiply, num_ast(2.0), num_ast(3.0))
        ),
        shape(&p_4.parse().unwrap())
    );

    let p_5 = Parser::new_parser("1 * (2 + 3)");
    assert_eq!(
        oper_ast(
            Operator::Multiply,
            num_ast(1.0),
            oper_ast(Operator::Add, num_ast(2.0), num_ast(3.0))
        ),
        shape(&p_5.parse().unwrap())
    );

    let p_6 = Parser::new_parser("(1 + 2) * 3");
    assert_eq!(
        oper_ast(
            Operator::Multiply,
            oper_ast(Operator::Add, num_ast(1.0), num_ast(2.0)),
            num_ast(3.0)
        ),
        shape(&p_6.parse().unwrap())
    );

    let p_7 = Parser::new_parser("3 ^ (1 * (2 + 3))");
    assert_eq!(
        oper_ast(
            Operator::Power,
            num_ast(3.0),
            oper_ast(
                Operator::Multiply,
                num_ast(1.0),
                oper_ast(Operator::Add, num_ast(2.0), num_ast(3.0))
            )
        ),
        shape(&p_7.parse().unwrap())
    );
}

#[test]
fn equal_tier_chains_group_left() {
    let t = Parser::new_parser("8 - 3 - 2").parse().unwrap();
    assert_eq!(
        oper_ast(
            Operator::Deduct,
            oper_ast(Operator::Deduct, num_ast(8.0), num_ast(3.0)),
            num_ast(2.0)
        ),
        shape(&t)
    );
    assert_eq!(value(&t), 3.0);
    let u = Parser::new_parser("8 / 4 x 2").parse().unwrap();
    assert_eq!(
        oper_ast(
            Operator::Multiply,
            oper_ast(Operator::Divide, num_ast(8.0), num_ast(4.0)),
            num_ast(2.0)
        ),
        shape(&u)
    );
    assert_eq!(value(&u), 4.0);
}

#[test]
fn higher_tier_binds_tighter() {
    assert_eq!(eval("1 + 2 * 3"), Ok(7.0));
    assert_eq!(eval("1 - 2 * 3 + 4"), Ok(-1.0));
    assert_eq!(eval("2 * 3 ^ 2 - 1"), Ok(17.0));
    assert_eq!(eval("1 + 2 * 3 ^ 2 * 2 - 6"), Ok(31.0));
}

#[test]
fn parentheses_override_precedence() {
    assert_eq!(eval("1 * (2 + 3)"), Ok(5.0));
    assert_eq!(eval("(1 + 2) * 3"), Ok(9.0));
    assert_eq!(eval("(1 + 2 * 3) * 4"), Ok(28.0));
}

#[test]
fn nested_groups() {
    assert_eq!(eval("3 ^ (1 * (2 + 3))"), Ok(243.0));
    assert_eq!(eval("((2))"), Ok(2.0));
}

#[test]
fn repeated_power_groups_left() {
    assert_eq!(eval("2 ^ 3 ^ 2"), Ok(64.0));
    let t = Parser::new_parser("2 ^ 3 ^ 2").parse().unwrap();
    assert_eq!(
        oper_ast(
            Operator::Power,
            oper_ast(Operator::Power, num_ast(2.0), num_ast(3.0)),
            num_ast(2.0)
        ),
        shape(&t)
    );
}

#[test]
fn lone_literal() {
    assert_eq!(eval("2"), Ok(2.0));
    assert_eq!(eval("2.5\n"), Ok(2.5));
}

#[test]
fn division_by_zero_is_infinite() {
    assert_eq!(eval("1 / 0"), Ok(f64::INFINITY));
    assert!(eval("0 / 0").unwrap().is_nan());
}

#[test]
fn malformed_lines_fail() {
    assert_eq!(eval("+ 1"), Err(CalcError::LeadingOperator));
    assert_eq!(eval(")"), Err(CalcError::UnmatchedRightParen));
    assert_eq!(eval("1 + 2)"), Err(CalcError::UnmatchedRightParen));
    assert_eq!(eval("("), Err(CalcError::UnclosedGroup));
    assert_eq!(eval("(1 + 2"), Err(CalcError::UnclosedGroup));
    assert_eq!(eval("1 2"), Err(CalcError::UnexpectedOperand));
    assert_eq!(eval("2 (3)"), Err(CalcError::UnexpectedOperand));
    assert_eq!(eval("1 +"), Err(CalcError::MissingOperand));
    assert_eq!(eval("1 + * 2"), Err(CalcError::MissingOperand));
    assert_eq!(eval("()"), Err(CalcError::MissingOperand));
    assert_eq!(eval(""), Err(CalcError::MissingOperand));
    assert_eq!(eval("(+ 2)"), Err(CalcError::LeadingOperator));
    assert_eq!(eval("1.2.3 + 1"), Err(CalcError::MalformedNumber));
    assert_eq!(eval("1 + y"), Err(CalcError::Lexical { ch: 'y', pos: 4 }));
}

#[test]
fn repeated_runs_agree() {
    for line in ["1 + 2 * 3", "2 ^ 0.5", "1 / 3 - 7", "1 2"] {
        let a = eval(line);
        let b = eval(line);
        match (a, b) {
            (Ok(x), Ok(y)) => assert_eq!(x.to_bits(), y.to_bits()),
            (x, y) => assert_eq!(x, y),
        }
    }
}
