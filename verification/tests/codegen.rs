use kita::backend::codegen_c::CTranspiler;
use kita::frontend::ast::{Expression, Statement};
use kita::frontend::lexer::Lexer;
use kita::frontend::parser::Parser;
use kita::frontend::sema::SemanticAnalyzer;
use kita::frontend::token::Token;

const HEAD: &str = "#include <stdio.h>\n#include <stdint.h>\n#include <stdbool.h>\n\nint main() {\n";
const TAIL: &str = "    return 0;\n}\n";

fn parsed(source: &str) -> Vec<Statement> {
    let mut parser = Parser::new(Lexer::new(source.to_string()));
    let program = parser.parse_program();
    assert_eq!(parser.errors, Vec::<String>::new());
    program
}

fn emit(program: Vec<Statement>) -> String {
    let mut emitter = CTranspiler::new();
    assert!(emitter.fits(&program));
    emitter.transpile(program).unwrap()
}

fn body(program: Vec<Statement>) -> String {
    let text = emit(program);
    assert!(text.starts_with(HEAD));
    assert!(text.ends_with(TAIL));
    text[HEAD.len()..text.len() - TAIL.len()].to_string()
}

fn num(n: i64) -> Expression {
    Expression::IntegerLiteral(n)
}

fn infix(op: Token, left: Expression, right: Expression) -> Expression {
    Expression::Infix { op, left: Box::new(left), right: Box::new(right) }
}

#[test]
fn emission_is_deterministic() {
    let first = emit(parsed("local x = 1\nprint(x)"));
    let second = emit(parsed("local x = 1\nprint(x)"));
    assert_eq!(first, second);
    assert_eq!(
        first,
        "#include <stdio.h>\n#include <stdint.h>\n#include <stdbool.h>\n\nint main() {\n    int64_t x = 1;\n    printf(\"%lld\\n\", x);\n    return 0;\n}\n"
    );
    assert!(first.contains("printf(\"%lld\\n\", x)"));
}

#[test]
fn the_whole_pipeline_emits_a_checked_program() {
    let mut program = parsed("local x = 1\nprint(x)");
    assert_eq!(SemanticAnalyzer::new().analyze(&mut program), Ok(()));
    assert_eq!(body(program), "    int64_t x = 1;\n    printf(\"%lld\\n\", x);\n");
}

#[test]
fn an_empty_program_is_an_empty_main() {
    assert_eq!(emit(vec![]), format!("{}{}", HEAD, TAIL));
}

#[test]
fn infix_expressions_are_fully_parenthesized() {
    assert_eq!(body(parsed("local x = 1 + 2 * 3")), "    int64_t x = (1 + (2 * 3));\n");
    assert_eq!(body(parsed("local x = (1 + 2) * 3")), "    int64_t x = ((1 + 2) * 3);\n");
    assert_eq!(body(parsed("a - b / c")), "    (a - (b / c));\n");
}

#[test]
fn every_operator_has_its_c_form() {
    assert_eq!(
        body(parsed("1 + 2\n1 - 2\n1 * 2\n1 / 2\n1 == 2\n1 != 2\n1 ~= 2\n1 < 2\n1 > 2")),
        "    (1 + 2);\n    (1 - 2);\n    (1 * 2);\n    (1 / 2);\n    (1 == 2);\n    (1 != 2);\n    (1 != 2);\n    (1 < 2);\n    (1 > 2);\n"
    );
}

#[test]
fn another_operator_token_leaves_a_marker() {
    assert_eq!(
        body(vec![Statement::Expression(infix(Token::Comma, num(1), num(2)))]),
        "    (1 /* unhandled op */ 2);\n"
    );
    assert_eq!(
        body(vec![Statement::Expression(infix(Token::Ident("plus".to_string()), num(1), num(2)))]),
        "    (1 /* unhandled op */ 2);\n"
    );
}

#[test]
fn a_binding_is_always_a_64_bit_integer() {
    assert_eq!(body(parsed("local b = true")), "    int64_t b = true;\n");
    assert_eq!(body(parsed("local b = false")), "    int64_t b = false;\n");
    assert_eq!(body(parsed("local n = other")), "    int64_t n = other;\n");
}

#[test]
fn a_return_emits_a_return() {
    assert_eq!(body(parsed("return 1")), "    return 1;\n");
    assert_eq!(body(parsed("return a + 1")), "    return (a + 1);\n");
}

#[test]
fn integer_literals_are_written_in_decimal() {
    let cases: Vec<(i64, &str)> = vec![
        (0, "0"),
        (7, "7"),
        (10, "10"),
        (1234567890, "1234567890"),
        (-1, "-1"),
        (-905, "-905"),
        (i64::MAX, "9223372036854775807"),
        (i64::MIN, "-9223372036854775808"),
    ];
    for (value, text) in cases {
        assert_eq!(body(vec![Statement::Expression(num(value))]), format!("    {};\n", text));
        assert_eq!(text, format!("{}", value));
    }
}

#[test]
fn a_conditional_becomes_an_if_block() {
    assert_eq!(
        body(parsed("if true then local x = 1 end")),
        "    if (true) {\n        int64_t x = 1;\n    };\n"
    );
}

#[test]
fn an_alternative_becomes_an_else_block() {
    assert_eq!(
        body(parsed("if a < b then print(a) else print(b) end")),
        "    if ((a < b)) {\n        printf(\"%lld\\n\", a);\n    } else {\n        printf(\"%lld\\n\", b);\n    };\n"
    );
}

#[test]
fn empty_blocks_are_emitted_empty() {
    assert_eq!(body(parsed("if c then end")), "    if (c) {\n    };\n");
    assert_eq!(body(parsed("if c then else end")), "    if (c) {\n    } else {\n    };\n");
}

#[test]
fn nested_blocks_are_indented_one_level_deeper() {
    assert_eq!(
        body(parsed("if a then if b then return 1 else return 2 end return 3 end\nreturn 4")),
        "    if (a) {\n        if (b) {\n            return 1;\n        } else {\n            return 2;\n        };\n        return 3;\n    };\n    return 4;\n"
    );
}

#[test]
fn a_conditional_inside_an_expression_keeps_its_level() {
    assert_eq!(
        body(parsed("local x = if c then 1 end")),
        "    int64_t x = if (c) {\n        1;\n    };\n"
    );
}

#[test]
fn print_forwards_only_its_first_argument() {
    assert_eq!(body(parsed("print(1, 2, 3)")), "    printf(\"%lld\\n\", 1);\n");
    assert_eq!(body(parsed("print(a + 1)")), "    printf(\"%lld\\n\", (a + 1));\n");
    assert_eq!(body(parsed("print()")), "    printf(\"%lld\\n\", );\n");
}

#[test]
fn another_call_has_an_empty_argument_list() {
    assert_eq!(body(parsed("foo(1, 2)")), "    foo();\n");
    assert_eq!(body(parsed("printf(1)")), "    printf();\n");
    assert_eq!(body(parsed("local y = g()")), "    int64_t y = g();\n");
}

#[test]
fn a_call_of_anything_but_a_name_leaves_a_marker() {
    assert_eq!(body(parsed("(1)(2)")), "    /* unhandled expression */;\n");
    assert_eq!(body(parsed("f(1)(2)")), "    /* unhandled expression */;\n");
    assert_eq!(
        body(vec![Statement::Expression(Expression::Call {
            function: Box::new(num(1)),
            arguments: vec![],
        })]),
        "    /* unhandled expression */;\n"
    );
}

#[test]
fn other_expression_forms_leave_a_marker() {
    assert_eq!(
        body(vec![Statement::Expression(Expression::Prefix { op: Token::Minus, right: Box::new(num(1)) })]),
        "    /* unhandled expression */;\n"
    );
    assert_eq!(
        body(vec![Statement::Return(Expression::FunctionLiteral { params: vec!["a".to_string()], body: vec![] })]),
        "    return /* unhandled expression */;\n"
    );
}

#[test]
fn a_second_emission_gives_the_same_text() {
    let program = parsed("local x = 1\nprint(x)");
    let mut emitter = CTranspiler::new();
    let first = emitter.transpile(program.clone()).unwrap();
    let second = emitter.transpile(program).unwrap();
    assert_eq!(first, second);
    assert_eq!(first, format!("{}    int64_t x = 1;\n    printf(\"%lld\\n\", x);\n{}", HEAD, TAIL));
    assert_eq!(first.matches("int main()").count(), 1);
}

#[test]
fn an_emitter_starts_each_program_afresh() {
    let mut emitter = CTranspiler::new();
    let first = emitter.transpile(parsed("return 1")).unwrap();
    let second = emitter.transpile(parsed("return 2")).unwrap();
    assert_eq!(first, format!("{}    return 1;\n{}", HEAD, TAIL));
    assert_eq!(second, format!("{}    return 2;\n{}", HEAD, TAIL));
}

#[test]
fn the_nesting_counter_takes_deep_programs() {
    let mut program = vec![Statement::Return(num(0))];
    for _ in 0..200 {
        program = vec![Statement::Expression(Expression::If {
            condition: Box::new(Expression::Boolean(true)),
            consequence: program,
            alternative: None,
        })];
    }
    let emitter = CTranspiler::new();
    assert!(emitter.fits(&program));
    let text = emit(program);
    let deepest = format!("{}return 0;\n", "    ".repeat(201));
    assert!(text.contains(&deepest));
    assert!(!text.contains(&format!(" {}", deepest)));
}
