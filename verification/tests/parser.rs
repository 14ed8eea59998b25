use calculator::lexer::{Lexer, Token};
use calculator::literal::Literal;
use calculator::parser::{Error, Expr, Op, Parser, Type};

fn tokens_of(line: &str) -> Vec<Token> {
    Lexer::lex(line.to_string()).unwrap()
}

fn parse_line(parser: &mut Parser, line: &str) -> Result<Expr, Error> {
    parser.parse(tokens_of(line))
}

fn parse_fresh(line: &str) -> Result<Expr, Error> {
    Parser::new().parse(tokens_of(line))
}

fn number(n: u64) -> Expr {
    Expr::Number(Literal::from_u64(n))
}

fn name(text: &str) -> Expr {
    Expr::Identifier(text.to_string())
}

fn binary(lhs: Expr, op: Op, rhs: Expr) -> Expr {
    Expr::BinaryExpr { lhs: Box::new(lhs), op, rhs: Box::new(rhs) }
}

fn unary(op: Op, rhs: Expr) -> Expr {
    Expr::UnaryExpr { op, rhs: Box::new(rhs) }
}

fn declared(text: &str, ty: Type) -> Expr {
    Expr::Declaration { name: text.to_string(), ty }
}

fn function(variable: Type, body: Type) -> Type {
    Type::Lambda { variable: Box::new(variable), body: Box::new(body) }
}

fn with_x_defined() -> Parser {
    let mut parser = Parser::new();
    parse_line(&mut parser, "x :: number := 5").unwrap();
    parser
}

#[test]
fn factor_binds_tighter_than_term() {
    assert_eq!(
        parse_fresh("1 + 2 * 3"),
        Ok(binary(number(1), Op::Plus, binary(number(2), Op::Star, number(3))))
    );
    assert_eq!(
        parse_fresh("1 * 2 + 3"),
        Ok(binary(binary(number(1), Op::Star, number(2)), Op::Plus, number(3)))
    );
    assert_eq!(
        parse_fresh("6 / 3 - 1"),
        Ok(binary(binary(number(6), Op::Slash, number(3)), Op::Minus, number(1)))
    );
}

#[test]
fn chains_group_from_the_left() {
    assert_eq!(
        parse_fresh("8 - 3 - 2"),
        Ok(binary(binary(number(8), Op::Minus, number(3)), Op::Minus, number(2)))
    );
    assert_eq!(
        parse_fresh("8 / 4 / 2"),
        Ok(binary(binary(number(8), Op::Slash, number(4)), Op::Slash, number(2)))
    );
    assert_eq!(
        parse_fresh("1 + 2 - 3 + 4"),
        Ok(binary(
            binary(binary(number(1), Op::Plus, number(2)), Op::Minus, number(3)),
            Op::Plus,
            number(4)
        ))
    );
}

#[test]
fn declaration_with_value() {
    let mut parser = Parser::new();
    assert!(!parser.is_defined("x"));
    assert_eq!(
        parse_line(&mut parser, "x :: number := 5"),
        Ok(binary(declared("x", Type::Number), Op::Define, number(5)))
    );
    assert!(parser.is_defined("x"));
    assert!(!parser.is_defined("y"));
    assert_eq!(parser.position(), 5);
    assert_eq!(parser.lookup("x"), Some(number(5)));
    assert_eq!(parser.lookup("y"), None);
    parse_line(&mut parser, "x :: [2] := 1 + 2").unwrap();
    assert_eq!(parser.lookup("x"), Some(binary(number(1), Op::Plus, number(2))));
}

#[test]
fn declaration_alone_defines_nothing() {
    let mut parser = Parser::new();
    assert_eq!(parse_line(&mut parser, "x :: number"), Ok(declared("x", Type::Number)));
    assert!(!parser.is_defined("x"));
    assert_eq!(parser.position(), 3);
}

#[test]
fn defined_name_takes_an_argument() {
    let mut parser = with_x_defined();
    assert_eq!(
        parse_line(&mut parser, "x 3"),
        Ok(Expr::Call { name: "x".to_string(), variable: Box::new(number(3)) })
    );
    assert_eq!(parser.position(), 2);
    assert_eq!(
        parse_line(&mut parser, "x x"),
        Ok(Expr::Call { name: "x".to_string(), variable: Box::new(name("x")) })
    );
    assert_eq!(
        parse_line(&mut parser, "x y 1"),
        Ok(Expr::Call { name: "x".to_string(), variable: Box::new(name("y")) })
    );
    assert_eq!(parser.position(), 2);
}

#[test]
fn defined_name_without_argument_is_a_name() {
    let mut parser = with_x_defined();
    assert_eq!(parse_line(&mut parser, "x"), Ok(name("x")));
    assert_eq!(parser.position(), 1);
    assert_eq!(
        parse_line(&mut parser, "x + 1"),
        Ok(binary(name("x"), Op::Plus, number(1)))
    );
    assert_eq!(parser.position(), 3);
}

#[test]
fn undefined_name_takes_no_argument() {
    let mut parser = with_x_defined();
    assert_eq!(parse_line(&mut parser, "y 3"), Ok(name("y")));
    assert_eq!(parser.position(), 1);
    assert_eq!(parse_fresh("x 3"), Ok(name("x")));
}

#[test]
fn definitions_outlive_the_line() {
    let mut parser = Parser::new();
    parse_line(&mut parser, "a :: number := 1").unwrap();
    parse_line(&mut parser, "b :: number := 2").unwrap();
    parse_line(&mut parser, "1 + 1").unwrap();
    assert!(parse_line(&mut parser, "+").is_err());
    assert!(parser.is_defined("a"));
    assert!(parser.is_defined("b"));
    parse_line(&mut parser, "a :: number := 3").unwrap();
    assert!(parser.is_defined("a"));
}

#[test]
fn failed_value_defines_nothing() {
    let mut parser = Parser::new();
    assert_eq!(parse_line(&mut parser, "x :: number := +"), Err(Error::EOF));
    assert!(!parser.is_defined("x"));
    assert_eq!(parse_line(&mut parser, "x :: number :="), Err(Error::EOF));
    assert!(!parser.is_defined("x"));
}

#[test]
fn define_behind_a_plain_name_is_left_unread() {
    let mut parser = Parser::new();
    assert_eq!(parse_line(&mut parser, "x := 5"), Ok(name("x")));
    assert_eq!(parser.position(), 1);
    assert_eq!(parser.current(), Ok(Token::Define));
    assert!(!parser.is_defined("x"));
}

#[test]
fn define_type_behind_a_number_is_passed_over() {
    let mut parser = Parser::new();
    assert_eq!(parse_line(&mut parser, "1 :: number"), Ok(number(1)));
    assert_eq!(parser.position(), 2);
}

#[test]
fn each_line_is_parsed_from_its_first_token() {
    let mut parser = Parser::new();
    assert_eq!(parse_line(&mut parser, "1 + 2"), Ok(binary(number(1), Op::Plus, number(2))));
    assert_eq!(parser.position(), 3);
    assert_eq!(parse_line(&mut parser, "7"), Ok(number(7)));
    assert_eq!(parser.position(), 1);
}

#[test]
fn signs() {
    assert_eq!(parse_fresh("-1"), Ok(unary(Op::Minus, number(1))));
    assert_eq!(parse_fresh("+1"), Ok(unary(Op::Plus, number(1))));
    assert_eq!(
        parse_fresh("2 * -3"),
        Ok(binary(number(2), Op::Star, unary(Op::Minus, number(3))))
    );
    assert_eq!(
        parse_fresh("-2 * 3"),
        Ok(binary(unary(Op::Minus, number(2)), Op::Star, number(3)))
    );
    assert_eq!(
        parse_fresh("1 - -2"),
        Ok(binary(number(1), Op::Minus, unary(Op::Minus, number(2))))
    );
    assert_eq!(parse_fresh("- -1"), Err(Error::UnexpectedToken));
    assert_eq!(parse_fresh("- "), Err(Error::EOF));
}

#[test]
fn running_out_of_tokens() {
    assert_eq!(parse_fresh(""), Err(Error::EOF));
    assert_eq!(parse_fresh("1 +"), Err(Error::EOF));
    assert_eq!(parse_fresh("1 *"), Err(Error::EOF));
    assert_eq!(parse_fresh("x ::"), Err(Error::EOF));
    assert_eq!(parse_fresh("x :: ["), Err(Error::EOF));
    assert_eq!(parse_fresh("x :: [2,"), Err(Error::EOF));
    assert_eq!(parse_fresh("x :: number ->"), Err(Error::EOF));
}

#[test]
fn unexpected_tokens() {
    assert_eq!(parse_fresh("* 1"), Err(Error::UnexpectedToken));
    assert_eq!(parse_fresh("1 + *"), Err(Error::UnexpectedToken));
    assert_eq!(parse_fresh("(1)"), Err(Error::UnexpectedToken));
    assert_eq!(parse_fresh(". 1"), Err(Error::UnexpectedToken));
    assert_eq!(parse_fresh("x :: foo"), Err(Error::UnexpectedToken));
    assert_eq!(parse_fresh("x :: 5"), Err(Error::UnexpectedToken));
    assert_eq!(parse_fresh("x :: [y]"), Err(Error::UnexpectedToken));
    assert_eq!(parse_fresh("x :: [2, 3"), Err(Error::UnexpectedToken));
    assert_eq!(parse_fresh("x :: [2, 3 4"), Err(Error::UnexpectedToken));
}

#[test]
fn what_follows_an_expression_is_left_unread() {
    let mut parser = Parser::new();
    assert_eq!(parse_line(&mut parser, "1 2"), Ok(number(1)));
    assert_eq!(parser.position(), 1);
    assert_eq!(parse_line(&mut parser, "1 + 2 )"), Ok(binary(number(1), Op::Plus, number(2))));
    assert_eq!(parser.current(), Ok(Token::RightParen));
    assert_eq!(parse_line(&mut parser, "1 == 2"), Ok(number(1)));
    assert_eq!(parser.current(), Ok(Token::EqualEqual));
    assert_eq!(parse_line(&mut parser, "2 ^ 3"), Ok(number(2)));
    assert_eq!(parser.current(), Ok(Token::Power));
}

#[test]
fn type_names() {
    assert_eq!(Type::from_string("number".to_string()), Ok(Type::Number));
    assert_eq!(Type::from_string("Number".to_string()), Err(Error::UnexpectedToken));
    assert_eq!(Type::from_string("void".to_string()), Err(Error::UnexpectedToken));
    assert_eq!(Type::from_string("".to_string()), Err(Error::UnexpectedToken));
    assert_eq!(Type::from_string("numbers".to_string()), Err(Error::UnexpectedToken));
}

#[test]
fn vector_and_matrix_types() {
    assert_eq!(parse_fresh("v :: [3]"), Ok(declared("v", Type::Vector(3))));
    assert_eq!(parse_fresh("m :: [2, 3]"), Ok(declared("m", Type::Matrix(2, 3))));
    assert_eq!(parse_fresh("v :: [0]"), Ok(declared("v", Type::Vector(0))));
    assert_eq!(
        parse_fresh("v :: [99999999999999999999999999]"),
        Ok(declared("v", Type::Vector(usize::MAX)))
    );
    assert_eq!(
        parse_fresh("m :: [1, 99999999999999999999999999]"),
        Ok(declared("m", Type::Matrix(1, usize::MAX)))
    );
}

#[test]
fn function_types_group_from_the_right() {
    assert_eq!(
        parse_fresh("f :: number -> number"),
        Ok(declared("f", function(Type::Number, Type::Number)))
    );
    assert_eq!(
        parse_fresh("f :: number -> number -> number"),
        Ok(declared("f", function(Type::Number, function(Type::Number, Type::Number))))
    );
    assert_eq!(
        parse_fresh("f :: [2] -> [2, 2] -> number"),
        Ok(declared(
            "f",
            function(Type::Vector(2), function(Type::Matrix(2, 2), Type::Number))
        ))
    );
    assert_eq!(parse_fresh("f :: number -> foo"), Err(Error::UnexpectedToken));
}

#[test]
fn unfinished_brackets_leave_the_type_void() {
    let mut parser = Parser::new();
    assert_eq!(parse_line(&mut parser, "v :: [3"), Ok(declared("v", Type::Void)));
    assert_eq!(parser.position(), 4);
    assert_eq!(parse_line(&mut parser, "v :: [3 4"), Ok(declared("v", Type::Void)));
    assert_eq!(parser.position(), 4);
    assert_eq!(parse_line(&mut parser, "v :: [3, y]"), Ok(declared("v", Type::Void)));
    assert_eq!(parser.position(), 6);
    assert_eq!(
        parse_line(&mut parser, "v :: [3 -> number"),
        Ok(declared("v", function(Type::Void, Type::Number)))
    );
}

#[test]
fn type_grammar_from_the_cursor() {
    let mut parser = Parser::new();
    parse_line(&mut parser, "1 [4] -> number").unwrap();
    assert_eq!(parser.position(), 1);
    assert_eq!(parser.ty(), Ok(function(Type::Vector(4), Type::Number)));
    assert_eq!(parser.position(), 6);
    assert_eq!(parser.ty(), Err(Error::EOF));
    parse_line(&mut parser, "1 + 2").unwrap();
    parse_line(&mut parser, "1 +").unwrap_err();
    parse_line(&mut parser, "1 ) number").unwrap();
    assert_eq!(parser.ty(), Err(Error::UnexpectedToken));
    assert_eq!(parser.position(), 1);
}

#[test]
fn lambda_with_a_parameter() {
    assert_eq!(
        parse_fresh("f :: number -> number := \u{3bb}x.x + 1"),
        Ok(binary(
            declared("f", function(Type::Number, Type::Number)),
            Op::Define,
            Expr::Lambda {
                variable: Some("x".to_string()),
                body: Box::new(binary(name("x"), Op::Plus, number(1))),
            }
        ))
    );
}

#[test]
fn lambda_without_a_parameter() {
    assert_eq!(
        parse_fresh("k :: number := \u{3bb}.5"),
        Ok(binary(
            declared("k", Type::Number),
            Op::Define,
            Expr::Lambda { variable: None, body: Box::new(number(5)) }
        ))
    );
    assert_eq!(
        parse_fresh("k :: number := \u{3bb} 7 . 5"),
        Ok(binary(
            declared("k", Type::Number),
            Op::Define,
            Expr::Lambda { variable: None, body: Box::new(number(5)) }
        ))
    );
}

#[test]
fn lambda_glyph_without_a_dot() {
    assert_eq!(
        parse_fresh("k :: number := \u{3bb} x 5"),
        Ok(binary(declared("k", Type::Number), Op::Define, number(5)))
    );
    assert_eq!(parse_fresh("k :: number := \u{3bb}"), Err(Error::EOF));
    assert_eq!(parse_fresh("k :: number := \u{3bb} +"), Err(Error::UnexpectedToken));
    assert_eq!(parse_fresh("k :: number := \u{3bb} x ."), Err(Error::EOF));
}

#[test]
fn lambda_is_read_only_behind_define() {
    assert_eq!(parse_fresh("\u{3bb}x.x"), Err(Error::UnexpectedToken));
    let mut parser = Parser::new();
    parse_line(&mut parser, "\u{3bb}x.x + 1").unwrap_err();
    assert_eq!(
        parser.lambda(),
        Ok(Expr::Lambda {
            variable: Some("x".to_string()),
            body: Box::new(binary(name("x"), Op::Plus, number(1))),
        })
    );
}

#[test]
fn sign_takes_one_primary() {
    let mut parser = Parser::new();
    assert_eq!(
        parse_line(&mut parser, "+ 4 * 5"),
        Ok(binary(unary(Op::Plus, number(4)), Op::Star, number(5)))
    );
    assert_eq!(parser.position(), 4);
}

#[test]
fn value_of_a_definition_is_a_term() {
    assert_eq!(
        parse_fresh("x :: number := 1 + 2 * 3"),
        Ok(binary(
            declared("x", Type::Number),
            Op::Define,
            binary(number(1), Op::Plus, binary(number(2), Op::Star, number(3)))
        ))
    );
}

#[test]
fn new_parser_is_empty() {
    let parser = Parser::new();
    assert_eq!(parser.position(), 0);
    assert_eq!(parser.current(), Err(Error::EOF));
    assert_eq!(parser.previous(), Err(Error::UnexpectedToken));
    assert_eq!(parser.check(Token::Plus), Err(Error::EOF));
    assert!(!parser.is_defined("x"));
}

#[test]
fn cursor_moves_over_tokens() {
    let mut parser = Parser::new();
    parse_line(&mut parser, ") 1 + x").unwrap_err();
    assert_eq!(parser.position(), 0);
    assert_eq!(parser.current(), Ok(Token::RightParen));
    assert_eq!(parser.previous(), Err(Error::UnexpectedToken));
    assert_eq!(parser.next(), Ok(Token::RightParen));
    assert_eq!(parser.position(), 1);
    assert_eq!(parser.previous(), Ok(Token::RightParen));
    assert_eq!(parser.current(), Ok(Token::Number(Literal::from_u64(1))));
    assert_eq!(parser.check(Token::Number(Literal::from_u64(1))), Ok(()));
    assert_eq!(parser.check(Token::Number(Literal::from_u64(2))), Err(Error::UnexpectedToken));
    assert_eq!(parser.check(Token::Plus), Err(Error::UnexpectedToken));
    assert_eq!(parser.position(), 1);
    assert_eq!(parser.consume(Token::Plus), Err(Error::UnexpectedToken));
    assert_eq!(parser.position(), 1);
    assert_eq!(parser.consume(Token::Number(Literal::from_u64(1))), Ok(()));
    assert_eq!(parser.position(), 2);
    assert_eq!(parser.expect(vec![Token::Star, Token::Slash]), Err(Error::UnexpectedToken));
    assert_eq!(parser.position(), 2);
    assert_eq!(parser.expect(vec![]), Err(Error::UnexpectedToken));
    assert_eq!(parser.expect(vec![Token::Minus, Token::Plus]), Ok(()));
    assert_eq!(parser.position(), 3);
    assert_eq!(parser.previous(), Ok(Token::Plus));
    assert_eq!(parser.next(), Ok(Token::Identifier("x".to_string())));
    assert_eq!(parser.position(), 4);
    assert_eq!(parser.next(), Err(Error::EOF));
    assert_eq!(parser.position(), 4);
    assert_eq!(parser.current(), Err(Error::EOF));
    assert_eq!(parser.check(Token::Plus), Err(Error::EOF));
    assert_eq!(parser.consume(Token::Plus), Err(Error::UnexpectedToken));
    assert_eq!(parser.expect(vec![Token::Plus]), Err(Error::UnexpectedToken));
    assert_eq!(parser.previous(), Ok(Token::Identifier("x".to_string())));
}

#[test]
fn productions_from_the_cursor() {
    let mut parser = Parser::new();
    parse_line(&mut parser, ") 2 * 3 + 4").unwrap_err();
    assert_eq!(parser.next(), Ok(Token::RightParen));
    assert_eq!(parser.primary(), Ok(number(2)));
    assert_eq!(parser.position(), 2);
    assert_eq!(parser.primary(), Err(Error::UnexpectedToken));
    assert_eq!(parser.position(), 2);
    assert_eq!(parser.next(), Ok(Token::Star));
    assert_eq!(parser.factor(), Ok(number(3)));
    assert_eq!(parser.unary(), Ok(unary(Op::Plus, number(4))));
    assert_eq!(parser.primary(), Err(Error::EOF));
    assert_eq!(parser.term(), Err(Error::EOF));
    assert_eq!(parser.declaration(), Err(Error::EOF));
    assert_eq!(parser.definition(), Err(Error::EOF));
    assert_eq!(parser.position(), 6);
}

#[test]
fn operators_of_tokens() {
    assert_eq!(Op::from_token(Token::Plus), Some(Op::Plus));
    assert_eq!(Op::from_token(Token::Minus), Some(Op::Minus));
    assert_eq!(Op::from_token(Token::Star), Some(Op::Star));
    assert_eq!(Op::from_token(Token::Slash), Some(Op::Slash));
    assert_eq!(Op::from_token(Token::Power), Some(Op::Power));
    assert_eq!(Op::from_token(Token::EqualEqual), Some(Op::EqualEqual));
    assert_eq!(Op::from_token(Token::Define), Some(Op::Define));
    assert_eq!(Op::from_token(Token::DefineType), None);
    assert_eq!(Op::from_token(Token::Arrow), None);
    assert_eq!(Op::from_token(Token::Dot), None);
    assert_eq!(Op::from_token(Token::Number(Literal::from_u64(1))), None);
    assert_eq!(Op::from_token(Token::Identifier("x".to_string())), None);
}

#[test]
fn trees_are_equal_by_shape_and_content() {
    assert_eq!(number(1), number(1));
    assert_ne!(number(1), number(2));
    assert_ne!(number(1), name("x"));
    assert_ne!(name("x"), name("y"));
    assert_ne!(declared("x", Type::Number), declared("x", Type::Void));
    assert_ne!(declared("x", Type::Number), declared("y", Type::Number));
    assert_ne!(
        binary(number(1), Op::Plus, number(2)),
        binary(number(1), Op::Minus, number(2))
    );
    assert_ne!(
        binary(number(1), Op::Plus, number(2)),
        binary(number(2), Op::Plus, number(1))
    );
    assert_ne!(unary(Op::Minus, number(1)), unary(Op::Plus, number(1)));
    assert_ne!(
        Expr::Lambda { variable: None, body: Box::new(number(1)) },
        Expr::Lambda { variable: Some("x".to_string()), body: Box::new(number(1)) }
    );
    let tree = binary(
        Expr::Call { name: "f".to_string(), variable: Box::new(name("x")) },
        Op::Star,
        Expr::Lambda { variable: Some("x".to_string()), body: Box::new(unary(Op::Minus, number(1))) },
    );
    assert_eq!(tree.clone(), tree);
    assert!(tree.same(&tree.clone()));
}

#[test]
fn types_are_equal_by_shape() {
    assert_eq!(Type::Number, Type::Number);
    assert_ne!(Type::Number, Type::Void);
    assert_ne!(Type::Vector(2), Type::Vector(3));
    assert_ne!(Type::Vector(2), Type::Matrix(2, 1));
    assert_ne!(Type::Matrix(2, 3), Type::Matrix(3, 2));
    assert_eq!(function(Type::Number, Type::Vector(2)), function(Type::Number, Type::Vector(2)));
    assert_ne!(function(Type::Number, Type::Vector(2)), function(Type::Vector(2), Type::Number));
    let ty = function(function(Type::Number, Type::Void), Type::Matrix(1, 2));
    assert_eq!(ty.clone(), ty);
    assert!(ty.same(&ty.clone()));
}
