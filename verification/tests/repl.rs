use calculator::lexer::Lexer;
use calculator::literal::Literal;
use calculator::parser::{Expr, Op, Parser, Type};
use calculator::repl::{Declaration, Quantity, Repl, Value};

fn tree(line: &str) -> Expr {
    Parser::new().parse(Lexer::lex(line.to_string()).unwrap()).unwrap()
}

fn evaluate(line: &str) -> Value {
    Repl::new().interpret(tree(line))
}

fn number(n: u64) -> Expr {
    Expr::Number(Literal::from_u64(n))
}

fn quantity(n: u64) -> Quantity {
    Quantity::Literal(Literal::from_u64(n))
}

fn binary(lhs: Expr, op: Op, rhs: Expr) -> Expr {
    Expr::BinaryExpr { lhs: Box::new(lhs), op, rhs: Box::new(rhs) }
}

fn declared(name: &str, ty: Type) -> Expr {
    Expr::Declaration { name: name.to_string(), ty }
}

fn key(name: &str, ty: Type) -> Declaration {
    Declaration { name: name.to_string(), ty }
}

fn rounded_literal(literal: &Literal) -> f64 {
    let digits = literal.digits();
    if digits.is_empty() {
        return 0.0;
    }
    let text: String = digits.iter().map(|d| (b'0' + d) as char).collect();
    text.parse::<f64>().unwrap()
}

fn rounded(quantity: &Quantity) -> f64 {
    match quantity {
        Quantity::Literal(literal) => rounded_literal(literal),
        Quantity::Sum(a, b) => rounded(a) + rounded(b),
        Quantity::Difference(a, b) => rounded(a) - rounded(b),
        Quantity::Product(a, b) => rounded(a) * rounded(b),
        Quantity::Quotient(a, b) => rounded(a) / rounded(b),
    }
}

fn number_of(value: &Value) -> f64 {
    match value {
        Value::Number(quantity) => rounded(quantity),
        other => panic!("no number: {:?}", other),
    }
}

#[test]
fn literal_is_its_number() {
    assert_eq!(evaluate("42"), Value::Number(quantity(42)));
    assert_eq!(number_of(&evaluate("42")), 42.0);
    assert_eq!(number_of(&evaluate("0")), 0.0);
    assert_eq!(
        number_of(&evaluate("123456789012345678901234567890")),
        123456789012345678901234567890.0
    );
}

#[test]
fn sum_of_a_product() {
    let value = evaluate("1 + 2 * 3");
    assert_eq!(
        value,
        Value::Number(Quantity::Sum(
            Box::new(quantity(1)),
            Box::new(Quantity::Product(Box::new(quantity(2)), Box::new(quantity(3))))
        ))
    );
    assert_eq!(number_of(&value), 7.0);
}

#[test]
fn the_four_operations() {
    assert_eq!(
        evaluate("7 + 2"),
        Value::Number(Quantity::Sum(Box::new(quantity(7)), Box::new(quantity(2))))
    );
    assert_eq!(
        evaluate("7 - 2"),
        Value::Number(Quantity::Difference(Box::new(quantity(7)), Box::new(quantity(2))))
    );
    assert_eq!(
        evaluate("7 * 2"),
        Value::Number(Quantity::Product(Box::new(quantity(7)), Box::new(quantity(2))))
    );
    assert_eq!(
        evaluate("7 / 2"),
        Value::Number(Quantity::Quotient(Box::new(quantity(7)), Box::new(quantity(2))))
    );
    assert_eq!(number_of(&evaluate("7 + 2")), 9.0);
    assert_eq!(number_of(&evaluate("7 - 2")), 5.0);
    assert_eq!(number_of(&evaluate("2 - 7")), -5.0);
    assert_eq!(number_of(&evaluate("7 * 2")), 14.0);
    assert_eq!(number_of(&evaluate("7 / 2")), 3.5);
    assert_eq!(number_of(&evaluate("8 - 3 - 2")), 3.0);
    assert_eq!(number_of(&evaluate("8 / 4 / 2")), 1.0);
    assert_eq!(number_of(&evaluate("1 / 3")), 1.0 / 3.0);
}

#[test]
fn division_by_zero_is_no_error() {
    let value = evaluate("1 / 0");
    assert_eq!(
        value,
        Value::Number(Quantity::Quotient(Box::new(quantity(1)), Box::new(quantity(0))))
    );
    assert_eq!(number_of(&value), f64::INFINITY);
    assert!(number_of(&evaluate("0 / 0")).is_nan());
    assert_eq!(number_of(&evaluate("0 - 1 / 0")), f64::NEG_INFINITY);
}

#[test]
fn definition_is_void_and_is_recorded() {
    let mut repl = Repl::new();
    assert_eq!(repl.lookup(&key("x", Type::Number)), None);
    assert_eq!(repl.interpret(tree("x :: number := 5")), Value::Void);
    assert_eq!(repl.lookup(&key("x", Type::Number)), Some(number(5)));
    assert_eq!(repl.lookup(&key("x", Type::Void)), None);
    assert_eq!(repl.lookup(&key("y", Type::Number)), None);
}

#[test]
fn defined_name_is_void_all_the_same() {
    let mut repl = Repl::new();
    repl.interpret(tree("x :: number := 5"));
    assert_eq!(repl.interpret(tree("x")), Value::Void);
    assert_eq!(repl.interpret(Expr::Identifier("x".to_string())), Value::Void);
    assert_eq!(repl.interpret(tree("x + 1")), Value::Void);
    assert_eq!(repl.lookup(&key("x", Type::Number)), Some(number(5)));
}

#[test]
fn right_side_of_a_definition_is_kept_as_it_stands() {
    let mut repl = Repl::new();
    assert_eq!(repl.interpret(tree("x :: number := 1 + 2 * 3")), Value::Void);
    assert_eq!(
        repl.lookup(&key("x", Type::Number)),
        Some(binary(number(1), Op::Plus, binary(number(2), Op::Star, number(3))))
    );
    assert_eq!(repl.interpret(tree("y :: number := 1 / 0")), Value::Void);
    assert_eq!(
        repl.lookup(&key("y", Type::Number)),
        Some(binary(number(1), Op::Slash, number(0)))
    );
    let inner = binary(declared("z", Type::Number), Op::Define, number(1));
    repl.interpret(binary(declared("w", Type::Number), Op::Define, inner.clone()));
    assert_eq!(repl.lookup(&key("w", Type::Number)), Some(inner));
    assert_eq!(repl.lookup(&key("z", Type::Number)), None);
}

#[test]
fn defining_again_replaces() {
    let mut repl = Repl::new();
    repl.interpret(tree("x :: number := 5"));
    repl.interpret(tree("y :: number := 6"));
    repl.interpret(tree("x :: number := 7"));
    assert_eq!(repl.lookup(&key("x", Type::Number)), Some(number(7)));
    assert_eq!(repl.lookup(&key("y", Type::Number)), Some(number(6)));
    repl.interpret(tree("y :: number := 8"));
    assert_eq!(repl.lookup(&key("x", Type::Number)), Some(number(7)));
    assert_eq!(repl.lookup(&key("y", Type::Number)), Some(number(8)));
}

#[test]
fn one_name_with_two_types_is_two_definitions() {
    let mut repl = Repl::new();
    repl.interpret(tree("x :: number := 5"));
    repl.interpret(tree("x :: [3] := 6"));
    repl.interpret(tree("x :: [3, 1] := 7"));
    repl.interpret(tree("x :: number -> number := 8"));
    assert_eq!(repl.lookup(&key("x", Type::Number)), Some(number(5)));
    assert_eq!(repl.lookup(&key("x", Type::Vector(3))), Some(number(6)));
    assert_eq!(repl.lookup(&key("x", Type::Matrix(3, 1))), Some(number(7)));
    assert_eq!(
        repl.lookup(&key(
            "x",
            Type::Lambda { variable: Box::new(Type::Number), body: Box::new(Type::Number) }
        )),
        Some(number(8))
    );
    assert_eq!(repl.lookup(&key("x", Type::Vector(4))), None);
}

#[test]
fn sign_is_void() {
    assert_eq!(evaluate("-1"), Value::Void);
    assert_eq!(evaluate("+1"), Value::Void);
    assert_eq!(evaluate("1 + -2"), Value::Void);
    assert_eq!(evaluate("-1 * 2"), Value::Void);
    assert_eq!(evaluate("1 + 2 * -3"), Value::Void);
    assert_eq!(
        Repl::new().interpret(Expr::UnaryExpr { op: Op::Plus, rhs: Box::new(number(1)) }),
        Value::Void
    );
    assert_eq!(
        Repl::new().interpret(Expr::UnaryExpr {
            op: Op::Star,
            rhs: Box::new(binary(number(1), Op::Plus, number(2))),
        }),
        Value::Void
    );
}

#[test]
fn other_trees_are_void() {
    assert_eq!(evaluate("x"), Value::Void);
    assert_eq!(evaluate("x :: number"), Value::Void);
    assert_eq!(evaluate("x + 1"), Value::Void);
    assert_eq!(evaluate("1 + x"), Value::Void);
    let mut repl = Repl::new();
    assert_eq!(
        repl.interpret(Expr::Lambda { variable: None, body: Box::new(number(1)) }),
        Value::Void
    );
    assert_eq!(
        repl.interpret(Expr::Call { name: "f".to_string(), variable: Box::new(number(1)) }),
        Value::Void
    );
    assert_eq!(repl.interpret(declared("x", Type::Number)), Value::Void);
    assert_eq!(repl.lookup(&key("x", Type::Number)), None);
}

#[test]
fn other_operators_are_void() {
    let mut repl = Repl::new();
    assert_eq!(repl.interpret(binary(number(1), Op::EqualEqual, number(1))), Value::Void);
    assert_eq!(repl.interpret(binary(number(2), Op::Power, number(3))), Value::Void);
    assert_eq!(repl.interpret(binary(number(2), Op::Define, number(3))), Value::Void);
    assert_eq!(
        repl.interpret(binary(Expr::Identifier("x".to_string()), Op::Define, number(3))),
        Value::Void
    );
    assert_eq!(repl.lookup(&key("x", Type::Number)), None);
}

#[test]
fn declaration_under_another_operator_binds_nothing() {
    let mut repl = Repl::new();
    assert_eq!(
        repl.interpret(binary(declared("x", Type::Number), Op::Plus, number(3))),
        Value::Void
    );
    assert_eq!(repl.lookup(&key("x", Type::Number)), None);
}

#[test]
fn definitions_within_a_tree_are_recorded_left_to_right() {
    let mut repl = Repl::new();
    let first = binary(declared("x", Type::Number), Op::Define, number(1));
    let second = binary(declared("x", Type::Number), Op::Define, number(2));
    let third = binary(declared("y", Type::Number), Op::Define, number(3));
    let whole = binary(binary(first, Op::Plus, third), Op::EqualEqual, second);
    assert_eq!(repl.interpret(whole), Value::Void);
    assert_eq!(repl.lookup(&key("x", Type::Number)), Some(number(2)));
    assert_eq!(repl.lookup(&key("y", Type::Number)), Some(number(3)));
}

#[test]
fn binary_expr_is_void_on_other_trees() {
    let mut repl = Repl::new();
    assert_eq!(repl.binary_expr(number(1)), Value::Void);
    assert_eq!(repl.binary_expr(Expr::Identifier("x".to_string())), Value::Void);
    assert_eq!(
        repl.binary_expr(binary(number(1), Op::Plus, number(2))),
        Value::Number(Quantity::Sum(Box::new(quantity(1)), Box::new(quantity(2))))
    );
    assert_eq!(
        repl.binary_expr(binary(declared("x", Type::Number), Op::Define, number(2))),
        Value::Void
    );
    assert_eq!(repl.lookup(&key("x", Type::Number)), Some(number(2)));
}

#[test]
fn new_evaluator_knows_nothing() {
    let repl = Repl::new();
    assert_eq!(repl.lookup(&key("x", Type::Number)), None);
    assert_eq!(repl.lookup(&key("", Type::Void)), None);
}

#[test]
fn values_are_equal_by_shape_and_content() {
    assert_eq!(Value::Void, Value::Void);
    assert_ne!(Value::Void, Value::Number(quantity(0)));
    assert_eq!(Value::Number(quantity(3)), Value::Number(quantity(3)));
    assert_ne!(Value::Number(quantity(3)), Value::Number(quantity(4)));
    assert_ne!(
        Value::Number(Quantity::Sum(Box::new(quantity(1)), Box::new(quantity(2)))),
        Value::Number(Quantity::Product(Box::new(quantity(1)), Box::new(quantity(2))))
    );
    assert_ne!(
        Value::Number(Quantity::Difference(Box::new(quantity(1)), Box::new(quantity(2)))),
        Value::Number(Quantity::Difference(Box::new(quantity(2)), Box::new(quantity(1))))
    );
    let row = || vec![Box::new(Value::Number(quantity(1))), Box::new(Value::Void)];
    assert_eq!(Value::Vector(row()), Value::Vector(row()));
    assert_ne!(Value::Vector(row()), Value::Matrix(row()));
    assert_ne!(Value::Vector(row()), Value::Vector(vec![]));
    assert_ne!(
        Value::Vector(row()),
        Value::Vector(vec![Box::new(Value::Number(quantity(2))), Box::new(Value::Void)])
    );
    let nested = Value::Matrix(vec![Box::new(Value::Vector(row())), Box::new(Value::Vector(row()))]);
    assert_eq!(nested.clone(), nested);
    assert!(nested.same(&nested.clone()));
    assert!(!nested.same(&Value::Matrix(vec![Box::new(Value::Vector(row()))])));
}

#[test]
fn declarations_are_equal_by_name_and_type() {
    assert_eq!(key("x", Type::Number), key("x", Type::Number));
    assert_ne!(key("x", Type::Number), key("y", Type::Number));
    assert_ne!(key("x", Type::Number), key("x", Type::Void));
    assert_eq!(key("x", Type::Vector(2)).clone(), key("x", Type::Vector(2)));
    assert!(key("x", Type::Number).same(&key("x", Type::Number)));
}

#[test]
fn quantities_clone_and_compare() {
    let q = Quantity::Quotient(
        Box::new(Quantity::Sum(Box::new(quantity(1)), Box::new(quantity(2)))),
        Box::new(Quantity::Difference(Box::new(quantity(5)), Box::new(quantity(2)))),
    );
    assert_eq!(q.clone(), q);
    assert!(q.same(&q.clone()));
    assert!(!q.same(&quantity(1)));
    assert_eq!(rounded(&q), 1.0);
}
