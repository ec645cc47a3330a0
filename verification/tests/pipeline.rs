use rlox::runner::{LoxRunner, RunOutcome};

fn run_ok(source: &str) -> Vec<String> {
    let runner = LoxRunner;
    match runner.run(String::from(source)) {
        RunOutcome::Success(outputs) => outputs,
        RunOutcome::LexFailure(errors) => {
            panic!("lexical failure: {:?}", errors)
        },
        RunOutcome::SyntaxFailure(errors) => {
            panic!("syntax failure: {:?}", errors)
        },
        RunOutcome::RuntimeFailure(_, error) => {
            panic!("runtime failure: {}", error.message)
        },
    }
}

fn run_runtime_failure(source: &str) -> (Vec<String>, String) {
    let runner = LoxRunner;
    match runner.run(String::from(source)) {
        RunOutcome::RuntimeFailure(outputs, error) => (outputs, error.message),
        other => panic!("expected a runtime failure, got {:?}", outcome_kind(&other)),
    }
}

fn outcome_kind(r: &RunOutcome) -> &'static str {
    match r {
        RunOutcome::Success(_) => "success",
        RunOutcome::LexFailure(_) => "lexical failure",
        RunOutcome::SyntaxFailure(_) => "syntax failure",
        RunOutcome::RuntimeFailure(_, _) => "runtime failure",
    }
}

#[test]
fn precedence_multiplication_binds_tighter() {
    assert_eq!(run_ok("print 1+2*3;"), vec![String::from("7")]);
}

#[test]
fn precedence_grouping_overrides() {
    assert_eq!(run_ok("print (1+2)*3;"), vec![String::from("9")]);
}

#[test]
fn subtraction_is_left_associative() {
    assert_eq!(run_ok("print 2-3-4;"), vec![String::from("-5")]);
}

#[test]
fn division_by_zero_halts_the_run() {
    let (outputs, message) = run_runtime_failure("print 1/0; print 2;");
    assert_eq!(message, "Division by 0");
    assert!(outputs.is_empty());
}

#[test]
fn division_by_zero_keeps_earlier_output() {
    let (outputs, message) = run_runtime_failure("print 5; print 1/0; print 2;");
    assert_eq!(message, "Division by 0");
    assert_eq!(outputs, vec![String::from("5")]);
}

#[test]
fn string_repetition_number_on_right() {
    assert_eq!(run_ok("print \"ab\"*3;"), vec![String::from("ababab")]);
}

#[test]
fn string_repetition_number_on_left() {
    assert_eq!(run_ok("print 3*\"ab\";"), vec![String::from("ababab")]);
}

#[test]
fn string_repetition_truncates_and_clamps() {
    assert_eq!(run_ok("print \"ab\"*2.9;"), vec![String::from("abab")]);
    assert_eq!(run_ok("print \"ab\"*(0-2);"), vec![String::from("")]);
}

#[test]
fn nil_equals_nil() {
    assert_eq!(run_ok("print nil==nil;"), vec![String::from("true")]);
}

#[test]
fn cross_tag_equality_is_false_not_an_error() {
    assert_eq!(run_ok("print 1==\"1\";"), vec![String::from("false")]);
    assert_eq!(run_ok("print true==1;"), vec![String::from("false")]);
    assert_eq!(run_ok("print nil==false;"), vec![String::from("false")]);
}

#[test]
fn bang_equal_negates_equality() {
    assert_eq!(run_ok("print 1!=2;"), vec![String::from("true")]);
    assert_eq!(run_ok("print 1!=1;"), vec![String::from("false")]);
}

#[test]
fn comparisons_on_numbers() {
    assert_eq!(run_ok("print 1<2;"), vec![String::from("true")]);
    assert_eq!(run_ok("print 2<=2;"), vec![String::from("true")]);
    assert_eq!(run_ok("print 1>2;"), vec![String::from("false")]);
    assert_eq!(run_ok("print 3>=4;"), vec![String::from("false")]);
}

#[test]
fn comparison_on_mixed_types_is_an_error() {
    let (_, message) = run_runtime_failure("print 1<\"a\";");
    assert_eq!(message, "Both operands must be numbers.");
}

#[test]
fn plus_concatenates_strings_and_stringifies_numbers() {
    assert_eq!(run_ok("print \"a\"+\"b\";"), vec![String::from("ab")]);
    assert_eq!(run_ok("print \"a\"+1;"), vec![String::from("a1")]);
    assert_eq!(run_ok("print 1+\"a\";"), vec![String::from("1a")]);
}

#[test]
fn star_on_bools_is_an_error() {
    let (_, message) = run_runtime_failure("print true*false;");
    assert_eq!(message, "Both operands must be numbers.");
}

#[test]
fn plus_on_bool_is_an_error() {
    let (_, message) = run_runtime_failure("print true+1;");
    assert_eq!(message, "Both operands must be numbers or strings.");
}

#[test]
fn unary_minus_needs_a_number() {
    assert_eq!(run_ok("print -(3);"), vec![String::from("-3")]);
    let (_, message) = run_runtime_failure("print -\"a\";");
    assert_eq!(message, "Operand must be a number.");
}

#[test]
fn truthiness_under_bang() {
    assert_eq!(run_ok("print !nil;"), vec![String::from("true")]);
    assert_eq!(run_ok("print !false;"), vec![String::from("true")]);
    assert_eq!(run_ok("print !0;"), vec![String::from("false")]);
    assert_eq!(run_ok("print !\"\";"), vec![String::from("false")]);
    assert_eq!(run_ok("print !!true;"), vec![String::from("true")]);
}

#[test]
fn decimal_arithmetic_is_exact() {
    assert_eq!(run_ok("print 1.5+1;"), vec![String::from("2.5")]);
    assert_eq!(run_ok("print 0.1+0.2;"), vec![String::from("0.3")]);
    assert_eq!(run_ok("print 2.5*4;"), vec![String::from("10")]);
}

#[test]
fn division_truncates_to_twelve_fraction_digits() {
    assert_eq!(run_ok("print 1/3;"), vec![String::from("0.333333333333")]);
    assert_eq!(run_ok("print 10/4;"), vec![String::from("2.5")]);
}

#[test]
fn arithmetic_out_of_range_is_a_runtime_error() {
    let (_, message) = run_runtime_failure("print 99999999999999 * 99999999999999;");
    assert_eq!(message, "Number out of range.");
}

#[test]
fn variable_declaration_executes_quietly() {
    assert_eq!(run_ok("var x = 1; print 2;"), vec![String::from("2")]);
    assert_eq!(run_ok("var x;"), Vec::<String>::new());
}

#[test]
fn variable_reference_is_a_runtime_error() {
    let (_, message) = run_runtime_failure("var x = 1; print x;");
    assert_eq!(message, "Undefined variable.");
}

#[test]
fn bare_expression_statement_prints_nothing() {
    assert_eq!(run_ok("1+2;"), Vec::<String>::new());
}

#[test]
fn comments_and_whitespace_are_skipped() {
    assert_eq!(run_ok("// a comment\nprint 1; // trailing\n"), vec![String::from("1")]);
}

#[test]
fn syntax_error_is_reported_and_nothing_executes() {
    let runner = LoxRunner;
    match runner.run(String::from("print ;")) {
        RunOutcome::SyntaxFailure(errors) => {
            assert_eq!(errors.len(), 1);
            assert_eq!(errors[0].message, "Expected expression");
        },
        other => panic!("expected a syntax failure, got {:?}", outcome_kind(&other)),
    }
}

#[test]
fn missing_close_paren_is_reported() {
    let runner = LoxRunner;
    match runner.run(String::from("print (1+2;")) {
        RunOutcome::SyntaxFailure(errors) => {
            assert_eq!(errors.len(), 1);
            assert_eq!(errors[0].message, "Expect ')' after expression");
        },
        other => panic!("expected a syntax failure, got {:?}", outcome_kind(&other)),
    }
}

#[test]
fn running_the_same_source_twice_is_identical() {
    let source = "print 1+2*3; print \"ab\"*2;";
    let first = run_ok(source);
    let second = run_ok(source);
    assert_eq!(first, second);
    assert_eq!(first, vec![String::from("7"), String::from("abab")]);
}
