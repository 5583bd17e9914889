use kita::frontend::ast::{Expression, Statement};
use kita::frontend::lexer::Lexer;
use kita::frontend::parser::Parser;
use kita::frontend::sema::SemanticAnalyzer;
use kita::frontend::token::Token;

fn parsed(source: &str) -> Vec<Statement> {
    let mut parser = Parser::new(Lexer::new(source.to_string()));
    let program = parser.parse_program();
    assert_eq!(parser.errors, Vec::<String>::new());
    program
}

fn analyzed(source: &str) -> Result<(), String> {
    let mut program = parsed(source);
    SemanticAnalyzer::new().analyze(&mut program)
}

fn failure(source: &str) -> String {
    match analyzed(source) {
        Ok(()) => panic!("analysis passed: {}", source),
        Err(message) => message,
    }
}

#[test]
fn arithmetic_on_a_boolean_is_rejected() {
    assert_eq!(
        failure("local x = true + 1"),
        "Cannot perform arithmetic on non-integers. Left is Bool, Right is Int"
    );
    assert_eq!(
        failure("local x = 1 + true"),
        "Cannot perform arithmetic on non-integers. Left is Int, Right is Bool"
    );
}

#[test]
fn an_unbound_name_is_rejected() {
    assert_eq!(failure("y"), "Undeclared variable: y");
    assert_eq!(failure("local x = y"), "Undeclared variable: y");
    assert_eq!(failure("return y"), "Undeclared variable: y");
}

#[test]
fn a_condition_that_is_no_boolean_is_rejected() {
    assert_eq!(failure("if 1 then end"), "If condition must be a boolean");
    assert_eq!(failure("if print then end"), "If condition must be a boolean");
}

#[test]
fn a_clean_program_passes() {
    assert_eq!(analyzed("local x = 1\nprint(x)"), Ok(()));
    assert_eq!(analyzed(""), Ok(()));
    assert_eq!(analyzed("local x = 1 + 2 * 3\nlocal y = x - 4 / x\nreturn y"), Ok(()));
    assert_eq!(analyzed("if true then local a = 1 else local a = 2 end"), Ok(()));
}

#[test]
fn booleans_cannot_be_operands_even_of_each_other() {
    assert_eq!(
        failure("true == false"),
        "Cannot perform arithmetic on non-integers. Left is Bool, Right is Bool"
    );
}

#[test]
fn a_comparison_has_the_integer_type() {
    assert_eq!(analyzed("local b = 1 < 2\nlocal c = b + 1"), Ok(()));
    assert_eq!(failure("local b = 1 < 2\nif b then end"), "If condition must be a boolean");
    assert_eq!(failure("if 1 == 1 then end"), "If condition must be a boolean");
}

#[test]
fn a_name_is_unbound_before_its_binding() {
    assert_eq!(failure("print(x)\nlocal x = 1"), "Undeclared variable: x");
    assert_eq!(failure("local x = x"), "Undeclared variable: x");
}

#[test]
fn a_later_binding_overwrites_the_type() {
    assert_eq!(
        failure("local x = 1\nlocal x = true\nlocal y = x + 1"),
        "Cannot perform arithmetic on non-integers. Left is Bool, Right is Int"
    );
    assert_eq!(analyzed("local x = true\nlocal x = 1\nlocal y = x + 1"), Ok(()));
    assert_eq!(analyzed("local a = 1\nlocal b = true\nlocal a = 2\nif b then end\nreturn a + a"), Ok(()));
}

#[test]
fn print_can_be_shadowed() {
    assert_eq!(failure("local print = 1\nprint(2)"), "'print' is not a function");
}

#[test]
fn only_functions_can_be_called() {
    assert_eq!(failure("foo()"), "Undeclared function: foo");
    assert_eq!(failure("local f = 1\nf()"), "'f' is not a function");
    assert_eq!(failure("(1)(2)"), "Can only call named functions");
    assert_eq!(failure("print(1)(2)"), "Can only call named functions");
}

#[test]
fn the_target_of_a_call_is_checked_before_its_arguments() {
    assert_eq!(failure("foo(y)"), "Undeclared function: foo");
    assert_eq!(failure("print(y)"), "Undeclared variable: y");
}

#[test]
fn arguments_are_checked_but_not_counted() {
    assert_eq!(analyzed("print()"), Ok(()));
    assert_eq!(analyzed("print(1, true, print)"), Ok(()));
    assert_eq!(failure("print(1, y)"), "Undeclared variable: y");
    assert_eq!(
        failure("print(1, true + 1, y)"),
        "Cannot perform arithmetic on non-integers. Left is Bool, Right is Int"
    );
}

#[test]
fn a_function_name_has_the_function_type() {
    assert_eq!(
        failure("local p = print + 1"),
        "Cannot perform arithmetic on non-integers. Left is Function, Right is Int"
    );
    assert_eq!(analyzed("local p = print\np(1)"), Ok(()));
}

#[test]
fn an_if_and_a_call_have_the_unknown_type() {
    assert_eq!(
        failure("local u = if true then end\nlocal v = u + 1"),
        "Cannot perform arithmetic on non-integers. Left is Unknown, Right is Int"
    );
    assert_eq!(
        failure("local v = 1 + print(1)"),
        "Cannot perform arithmetic on non-integers. Left is Int, Right is Unknown"
    );
}

#[test]
fn the_left_operand_is_checked_first() {
    assert_eq!(failure("a + b"), "Undeclared variable: a");
    assert_eq!(failure("1 + b"), "Undeclared variable: b");
    assert_eq!(failure("(true + 1) + b"), "Cannot perform arithmetic on non-integers. Left is Bool, Right is Int");
}

#[test]
fn the_consequence_is_checked_and_the_alternative_is_not() {
    assert_eq!(failure("if true then y end"), "Undeclared variable: y");
    assert_eq!(analyzed("if true then 1 else y end"), Ok(()));
    assert_eq!(analyzed("if true then 1 else true + 1 end"), Ok(()));
    assert_eq!(failure("if y then 1 end"), "Undeclared variable: y");
}

#[test]
fn blocks_share_the_symbol_table() {
    assert_eq!(analyzed("if true then local a = 1 end\nprint(a)"), Ok(()));
    assert_eq!(failure("if true then 1 else local a = 1 end\nprint(a)"), "Undeclared variable: a");
}

#[test]
fn analysis_stops_at_the_first_failure() {
    assert_eq!(failure("local a = y\nlocal b = true + 1"), "Undeclared variable: y");
    assert_eq!(
        failure("local b = true + 1\nlocal a = y"),
        "Cannot perform arithmetic on non-integers. Left is Bool, Right is Int"
    );
}

#[test]
fn forms_without_a_rule_are_unsupported() {
    let mut prefix = vec![Statement::Expression(Expression::Prefix {
        op: Token::Minus,
        right: Box::new(Expression::IntegerLiteral(1)),
    })];
    assert_eq!(
        SemanticAnalyzer::new().analyze(&mut prefix),
        Err("Unsupported expression type".to_string())
    );
    let mut literal = vec![Statement::Let {
        name: "f".to_string(),
        value: Expression::FunctionLiteral { params: vec![], body: vec![] },
    }];
    assert_eq!(
        SemanticAnalyzer::new().analyze(&mut literal),
        Err("Unsupported expression type".to_string())
    );
}

#[test]
fn analysis_leaves_the_program_as_it_was() {
    let mut program = parsed("local x = 1\nif true then print(x) end");
    let before = program.clone();
    assert_eq!(SemanticAnalyzer::new().analyze(&mut program), Ok(()));
    assert_eq!(program, before);
    let mut failing = parsed("local x = y");
    let before = failing.clone();
    assert!(SemanticAnalyzer::new().analyze(&mut failing).is_err());
    assert_eq!(failing, before);
}

#[test]
fn an_analyzer_keeps_its_symbols_between_programs() {
    let mut analyzer = SemanticAnalyzer::new();
    let mut first = parsed("local x = 1");
    let mut second = parsed("print(x + 1)");
    assert_eq!(analyzer.analyze(&mut first), Ok(()));
    assert_eq!(analyzer.analyze(&mut second), Ok(()));
    let mut fresh = SemanticAnalyzer::new();
    assert_eq!(fresh.analyze(&mut second), Err("Undeclared variable: x".to_string()));
}

#[test]
fn names_are_told_apart_by_their_whole_text() {
    assert_eq!(failure("local ab = 1\nreturn a"), "Undeclared variable: a");
    assert_eq!(failure("local a = 1\nreturn ab"), "Undeclared variable: ab");
    assert_eq!(analyzed("local a = 1\nlocal ab = true\nreturn a + 1"), Ok(()));
}
