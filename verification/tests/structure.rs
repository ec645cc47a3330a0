use rlox::ast::{Expr, Literal, Stmt};
use rlox::ast_printer::AstPrinter;
use rlox::interpreter::Interpreter;
use rlox::number::Decimal;
use rlox::parser::Parser;
use rlox::runner::LoxRunner;
use rlox::scanner::Scanner;
use rlox::token::{Token, TokenType};

fn parse_source(source: &str) -> (Vec<Stmt>, Vec<rlox::parser::ParseError>) {
    let (tokens, errors) = Scanner::new(String::from(source)).scan_tokens();
    assert!(errors.is_empty(), "unexpected lexical errors: {:?}", errors);
    Parser::new(tokens).parse()
}

#[test]
fn syntax_error_recovers_at_the_next_statement() {
    let (statements, errors) = parse_source("print ;\nprint 2;");
    assert_eq!(errors.len(), 1);
    assert_eq!(errors[0].message, "Expected expression");
    assert_eq!(statements.len(), 2);
    assert!(matches!(statements[0], Stmt::Nop));
    assert!(matches!(statements[1], Stmt::Print(_)));
    // The recovered statements still execute; the placeholder does nothing.
    let (outputs, runtime_error) = Interpreter.interpret(&statements);
    assert!(runtime_error.is_none());
    assert_eq!(outputs, vec![String::from("2")]);
}

#[test]
fn two_errors_in_one_source_are_both_collected() {
    let (statements, errors) = parse_source("print ;\nvar 1;\nprint 3;");
    assert_eq!(errors.len(), 2);
    assert_eq!(errors[0].message, "Expected expression");
    assert_eq!(errors[1].message, "Expect variable name.");
    assert_eq!(statements.len(), 3);
    assert!(matches!(statements[2], Stmt::Print(_)));
}

#[test]
fn missing_semicolon_after_print_value_is_reported() {
    let (_, errors) = parse_source("print 1");
    assert_eq!(errors.len(), 1);
    assert_eq!(errors[0].message, "Expect ';' after value.");
}

#[test]
fn missing_semicolon_after_bare_expression_is_reported() {
    let (_, errors) = parse_source("1+2");
    assert_eq!(errors.len(), 1);
    assert_eq!(errors[0].message, "Expect ';' after expression.");
}

#[test]
fn missing_semicolon_after_declaration_is_reported() {
    let (_, errors) = parse_source("var x = 1");
    assert_eq!(errors.len(), 1);
    assert_eq!(errors[0].message, "Expect ';' after variable declaration.");
}

#[test]
fn parsing_twice_yields_identical_trees() {
    let source = "print 1+2*3;";
    let (s1, e1) = parse_source(source);
    let (s2, e2) = parse_source(source);
    assert!(e1.is_empty() && e2.is_empty());
    assert_eq!(s1.len(), s2.len());
    let p1 = match &s1[0] {
        Stmt::Print(e) => AstPrinter::print(e),
        _ => panic!("expected a print statement"),
    };
    let p2 = match &s2[0] {
        Stmt::Print(e) => AstPrinter::print(e),
        _ => panic!("expected a print statement"),
    };
    assert_eq!(p1, p2);
}

#[test]
fn printer_shows_precedence_structure() {
    let (statements, errors) = parse_source("print 1+2*3;");
    assert!(errors.is_empty());
    match &statements[0] {
        Stmt::Print(e) => assert_eq!(AstPrinter::print(e), "(+ 1 (* 2 3))"),
        _ => panic!("expected a print statement"),
    }
    let (statements, _) = parse_source("print (1+2)*3;");
    match &statements[0] {
        Stmt::Print(e) => assert_eq!(AstPrinter::print(e), "(* (group (+ 1 2)) 3)"),
        _ => panic!("expected a print statement"),
    }
}

#[test]
fn printer_renders_hand_built_trees() {
    let one = Expr::Literal(Literal::Number(Decimal::from_integer(1).unwrap()));
    let two = Expr::Literal(Literal::Number(Decimal::from_integer(2).unwrap()));
    let plus = Token::new(TokenType::Plus, String::from("+"), None, 1);
    let sum = Expr::new_binary(one, plus, two);
    assert_eq!(AstPrinter::print(&sum), "(+ 1 2)");
    let bang = Token::new(TokenType::Bang, String::from("!"), None, 1);
    let negated = Expr::new_unary(bang, Expr::Literal(Literal::Bool(true)));
    assert_eq!(AstPrinter::print(&negated), "(! true)");
}

#[test]
fn diagnostic_line_format() {
    let runner = LoxRunner;
    assert_eq!(runner.error(1, "boom"), "[line 1] Error: boom");
    assert_eq!(runner.error(42, "x"), "[line 42] Error: x");
}

#[test]
fn diagnostic_location_hints() {
    let runner = LoxRunner;
    let eof = Token::new(TokenType::Eof, String::new(), None, 3);
    assert_eq!(runner.error_token(&eof, "msg"), "[line 3] Error at end: msg");
    let plus = Token::new(TokenType::Plus, String::from("+"), None, 2);
    assert_eq!(runner.error_token(&plus, "msg"), "[line 2] Error at '+': msg");
}

#[test]
fn decimal_construction_and_rendering() {
    assert_eq!(Decimal::from_integer(7).unwrap().render(), "7");
    assert_eq!(Decimal::from_integer(-7).unwrap().render(), "-7");
    assert_eq!(Decimal::from_scaled(true, 1_500_000_000_000).render(), "-1.5");
    assert_eq!(Decimal::from_scaled(false, 10_000_000_000).render(), "0.01");
    assert_eq!(Decimal::zero().render(), "0");
    assert!(Decimal::from_integer(100_000_000_000_000).is_none());
}

#[test]
fn decimal_arithmetic_operations() {
    let two = Decimal::from_integer(2).unwrap();
    let three = Decimal::from_integer(3).unwrap();
    assert_eq!(two.add_val(&three).unwrap().render(), "5");
    assert_eq!(two.sub_val(&three).unwrap().render(), "-1");
    assert_eq!(two.mul_val(&three).unwrap().render(), "6");
    assert_eq!(two.div_val(&three).unwrap().render(), "0.666666666666");
    assert!(two.lt(&three));
    assert!(!three.lt(&two));
    assert!(two.negated().lt(&Decimal::zero()));
    assert!(Decimal::zero().is_zero());
    let big = Decimal::from_integer(99_999_999_999_999).unwrap();
    assert!(big.add_val(&big).is_none());
    assert!(big.mul_val(&big).is_none());
}

#[test]
fn decimal_equality_is_canonical() {
    let a = Decimal::from_integer(2).unwrap();
    let b = Decimal::from_scaled(false, 2_000_000_000_000);
    assert_eq!(a, b);
    assert_eq!(Decimal::zero(), Decimal::from_integer(0).unwrap());
}

#[test]
fn evaluator_on_hand_built_trees() {
    let interpreter = Interpreter;
    let one = Expr::Literal(Literal::Number(Decimal::from_integer(1).unwrap()));
    let s = Expr::Literal(Literal::Str(String::from("ab")));
    let star = Token::new(TokenType::Star, String::from("*"), None, 1);
    let three = Expr::Literal(Literal::Number(Decimal::from_integer(3).unwrap()));
    let product = Expr::new_binary(s, star, three);
    let value = interpreter.evaluate(&product).unwrap();
    assert_eq!(value, Literal::Str(String::from("ababab")));
    let value = interpreter.evaluate(&one).unwrap();
    assert_eq!(value, Literal::Number(Decimal::from_integer(1).unwrap()));
}

#[test]
fn truthiness_and_equality_helpers() {
    let interpreter = Interpreter;
    assert!(!interpreter.is_truthy(&Literal::Nil));
    assert!(!interpreter.is_truthy(&Literal::Bool(false)));
    assert!(interpreter.is_truthy(&Literal::Number(Decimal::zero())));
    assert!(interpreter.is_truthy(&Literal::Str(String::new())));
    assert!(interpreter.is_equal(&Literal::Nil, &Literal::Nil));
    assert!(!interpreter.is_equal(
        &Literal::Number(Decimal::from_integer(1).unwrap()),
        &Literal::Str(String::from("1"))
    ));
}
