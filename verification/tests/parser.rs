use kita::frontend::ast::{Expression, Statement};
use kita::frontend::lexer::Lexer;
use kita::frontend::parser::{Parser, Precedence};
use kita::frontend::token::Token;

fn parse(source: &str) -> (Vec<Statement>, Vec<String>) {
    let mut parser = Parser::new(Lexer::new(source.to_string()));
    let program = parser.parse_program();
    (program, parser.errors)
}

fn parse_clean(source: &str) -> Vec<Statement> {
    let (program, errors) = parse(source);
    assert_eq!(errors, Vec::<String>::new());
    program
}

fn num(n: i64) -> Expression {
    Expression::IntegerLiteral(n)
}

fn name(s: &str) -> Expression {
    Expression::Identifier(s.to_string())
}

fn infix(op: Token, left: Expression, right: Expression) -> Expression {
    Expression::Infix { op, left: Box::new(left), right: Box::new(right) }
}

fn call(function: Expression, arguments: Vec<Expression>) -> Expression {
    Expression::Call { function: Box::new(function), arguments }
}

fn bind(n: &str, value: Expression) -> Statement {
    Statement::Let { name: n.to_string(), value }
}

#[test]
fn multiplication_binds_tighter_than_addition() {
    assert_eq!(
        parse_clean("1 + 2 * 3"),
        vec![Statement::Expression(infix(Token::Plus, num(1), infix(Token::Asterisk, num(2), num(3))))]
    );
    assert_eq!(
        parse_clean("1 * 2 + 3"),
        vec![Statement::Expression(infix(Token::Plus, infix(Token::Asterisk, num(1), num(2)), num(3)))]
    );
}

#[test]
fn equality_binds_looser_than_addition() {
    assert_eq!(
        parse_clean("1 + 2 == 3"),
        vec![Statement::Expression(infix(Token::Eq, infix(Token::Plus, num(1), num(2)), num(3)))]
    );
}

#[test]
fn comparison_binds_between_equality_and_addition() {
    assert_eq!(
        parse_clean("a == b < c + d"),
        vec![Statement::Expression(infix(
            Token::Eq,
            name("a"),
            infix(Token::Lt, name("b"), infix(Token::Plus, name("c"), name("d")))
        ))]
    );
    assert_eq!(
        parse_clean("a > b != c"),
        vec![Statement::Expression(infix(Token::NotEq, infix(Token::Gt, name("a"), name("b")), name("c")))]
    );
}

#[test]
fn operators_of_equal_precedence_associate_left() {
    assert_eq!(
        parse_clean("1 - 2 - 3"),
        vec![Statement::Expression(infix(Token::Minus, infix(Token::Minus, num(1), num(2)), num(3)))]
    );
    assert_eq!(
        parse_clean("8 / 4 * 2"),
        vec![Statement::Expression(infix(Token::Asterisk, infix(Token::Slash, num(8), num(4)), num(2)))]
    );
    assert_eq!(
        parse_clean("1 == 2 ~= 3"),
        vec![Statement::Expression(infix(Token::NotEq, infix(Token::Eq, num(1), num(2)), num(3)))]
    );
}

#[test]
fn parentheses_group() {
    assert_eq!(
        parse_clean("(1 + 2) * 3"),
        vec![Statement::Expression(infix(Token::Asterisk, infix(Token::Plus, num(1), num(2)), num(3)))]
    );
    assert_eq!(parse_clean("((7))"), vec![Statement::Expression(num(7))]);
}

#[test]
fn if_with_else_has_both_blocks() {
    assert_eq!(
        parse_clean("if true then local x = 1 else local x = 2 end"),
        vec![Statement::Expression(Expression::If {
            condition: Box::new(Expression::Boolean(true)),
            consequence: vec![bind("x", num(1))],
            alternative: Some(vec![bind("x", num(2))]),
        })]
    );
}

#[test]
fn if_without_else_has_no_alternative() {
    assert_eq!(
        parse_clean("if true then local x = 1 end"),
        vec![Statement::Expression(Expression::If {
            condition: Box::new(Expression::Boolean(true)),
            consequence: vec![bind("x", num(1))],
            alternative: None,
        })]
    );
}

#[test]
fn if_blocks_may_be_empty_and_nested() {
    assert_eq!(
        parse_clean("if a then else end"),
        vec![Statement::Expression(Expression::If {
            condition: Box::new(name("a")),
            consequence: vec![],
            alternative: Some(vec![]),
        })]
    );
    assert_eq!(
        parse_clean("if a then if b then return 1 end return 2 end"),
        vec![Statement::Expression(Expression::If {
            condition: Box::new(name("a")),
            consequence: vec![
                Statement::Expression(Expression::If {
                    condition: Box::new(name("b")),
                    consequence: vec![Statement::Return(num(1))],
                    alternative: None,
                }),
                Statement::Return(num(2)),
            ],
            alternative: None,
        })]
    );
}

#[test]
fn an_if_may_be_an_operand() {
    assert_eq!(
        parse_clean("local x = if c then 1 end + 2"),
        vec![bind(
            "x",
            infix(
                Token::Plus,
                Expression::If {
                    condition: Box::new(name("c")),
                    consequence: vec![Statement::Expression(num(1))],
                    alternative: None,
                },
                num(2)
            )
        )]
    );
}

#[test]
fn statements_are_chosen_by_their_first_token() {
    assert_eq!(
        parse_clean("local x = 1\nreturn x\nx"),
        vec![bind("x", num(1)), Statement::Return(name("x")), Statement::Expression(name("x"))]
    );
}

#[test]
fn booleans_parse_as_literals() {
    assert_eq!(
        parse_clean("true false"),
        vec![Statement::Expression(Expression::Boolean(true)), Statement::Expression(Expression::Boolean(false))]
    );
}

#[test]
fn call_arguments_are_a_comma_separated_list() {
    assert_eq!(parse_clean("f()"), vec![Statement::Expression(call(name("f"), vec![]))]);
    assert_eq!(parse_clean("f(1)"), vec![Statement::Expression(call(name("f"), vec![num(1)]))]);
    assert_eq!(
        parse_clean("f(1, 2 + 3, g(x))"),
        vec![Statement::Expression(call(
            name("f"),
            vec![num(1), infix(Token::Plus, num(2), num(3)), call(name("g"), vec![name("x")])]
        ))]
    );
}

#[test]
fn calls_bind_tightest_and_chain_to_the_left() {
    assert_eq!(
        parse_clean("1 + f(2) * 3"),
        vec![Statement::Expression(infix(
            Token::Plus,
            num(1),
            infix(Token::Asterisk, call(name("f"), vec![num(2)]), num(3))
        ))]
    );
    assert_eq!(
        parse_clean("f(1)(2)"),
        vec![Statement::Expression(call(call(name("f"), vec![num(1)]), vec![num(2)]))]
    );
}

#[test]
fn a_trailing_comma_is_refused() {
    let (program, errors) = parse("f(1,)");
    assert_eq!(errors, vec!["No prefix parse function for RParen".to_string()]);
    assert_eq!(program, vec![]);
}

#[test]
fn an_unclosed_call_is_reported() {
    let (program, errors) = parse("f(1 2");
    assert_eq!(errors, vec!["Expected next token to be RParen, got Int(2) instead".to_string()]);
    assert_eq!(program, vec![Statement::Expression(num(2))]);
}

#[test]
fn an_unclosed_parenthesis_is_reported() {
    let (program, errors) = parse("(1 + 2");
    assert_eq!(errors, vec!["Expected next token to be RParen, got Eof instead".to_string()]);
    assert_eq!(program, vec![]);
}

#[test]
fn a_malformed_statement_gives_one_diagnostic_and_the_next_statement_stays() {
    let (program, errors) = parse("local = 1\nlocal y = 2");
    assert_eq!(errors.len(), 1);
    assert_eq!(errors, vec!["Expected next token to be an identifier, got Assign".to_string()]);
    assert!(program.contains(&bind("y", num(2))));
    assert_eq!(program, vec![Statement::Expression(num(1)), bind("y", num(2))]);
}

#[test]
fn other_malformed_statements_give_one_diagnostic_too() {
    let (program, errors) = parse("local x 1\nlocal y = 2");
    assert_eq!(errors, vec!["Expected next token to be Assign, got Int(1) instead".to_string()]);
    assert_eq!(program, vec![Statement::Expression(num(1)), bind("y", num(2))]);
    let (program, errors) = parse("return )\nlocal y = 2");
    assert_eq!(errors, vec!["No prefix parse function for RParen".to_string()]);
    assert_eq!(program, vec![bind("y", num(2))]);
    let (program, errors) = parse("local\nlocal y = 2");
    assert_eq!(errors, vec!["Expected next token to be an identifier, got Let".to_string()]);
    assert_eq!(program, vec![bind("y", num(2))]);
    let (program, errors) = parse("local x\nlocal y = 2");
    assert_eq!(errors, vec!["Expected next token to be Assign, got Let instead".to_string()]);
    assert_eq!(program, vec![bind("y", num(2))]);
    let (program, errors) = parse("(1\nlocal y = 2");
    assert_eq!(errors, vec!["Expected next token to be RParen, got Let instead".to_string()]);
    assert_eq!(program, vec![bind("y", num(2))]);
    let (program, errors) = parse("if a\nlocal y = 2");
    assert_eq!(errors, vec!["Expected next token to be Then, got Let instead".to_string()]);
    assert_eq!(program, vec![bind("y", num(2))]);
}

#[test]
fn two_malformed_statements_give_two_diagnostics() {
    let (program, errors) = parse("local 1\nlocal 2");
    assert_eq!(
        errors,
        vec![
            "Expected next token to be an identifier, got Int(1)".to_string(),
            "Expected next token to be an identifier, got Int(2)".to_string(),
        ]
    );
    assert_eq!(program, vec![Statement::Expression(num(1)), Statement::Expression(num(2))]);
}

#[test]
fn the_rest_of_a_malformed_statement_is_passed_over_in_silence() {
    let (program, errors) = parse("(1,)");
    assert_eq!(errors, vec!["Expected next token to be RParen, got Comma instead".to_string()]);
    assert_eq!(program, vec![]);
    let (program, errors) = parse("local = = , ) 1");
    assert_eq!(errors, vec!["Expected next token to be an identifier, got Assign".to_string()]);
    assert_eq!(program, vec![Statement::Expression(num(1))]);
    let (program, errors) = parse("+ + * end else\nreturn 1");
    assert_eq!(errors, vec!["No prefix parse function for Plus".to_string()]);
    assert_eq!(program, vec![Statement::Return(num(1))]);
}

#[test]
fn a_stray_token_behind_a_good_statement_is_reported() {
    let (program, errors) = parse("1 ) )\n2");
    assert_eq!(errors, vec!["No prefix parse function for RParen".to_string()]);
    assert_eq!(program, vec![Statement::Expression(num(1)), Statement::Expression(num(2))]);
    let (program, errors) = parse("1 end 2 else 3");
    assert_eq!(
        errors,
        vec![
            "No prefix parse function for End".to_string(),
            "No prefix parse function for Else".to_string(),
        ]
    );
    assert_eq!(
        program,
        vec![
            Statement::Expression(num(1)),
            Statement::Expression(num(2)),
            Statement::Expression(num(3))
        ]
    );
}

#[test]
fn recovery_inside_a_block_stops_where_the_block_ends() {
    let (program, errors) = parse("if a then local = ) end\nlocal y = 2");
    assert_eq!(errors, vec!["Expected next token to be an identifier, got Assign".to_string()]);
    assert_eq!(
        program,
        vec![
            Statement::Expression(Expression::If {
                condition: Box::new(name("a")),
                consequence: vec![],
                alternative: None,
            }),
            bind("y", num(2)),
        ]
    );
    let (program, errors) = parse("if a then local , else return 1 end");
    assert_eq!(errors, vec!["Expected next token to be an identifier, got Comma".to_string()]);
    assert_eq!(
        program,
        vec![Statement::Expression(Expression::If {
            condition: Box::new(name("a")),
            consequence: vec![],
            alternative: Some(vec![Statement::Return(num(1))]),
        })]
    );
}

#[test]
fn a_name_in_place_of_the_equals_sign_is_quoted_in_the_diagnostic() {
    let (program, errors) = parse("local x y");
    assert_eq!(errors, vec!["Expected next token to be Assign, got Ident(\"y\") instead".to_string()]);
    assert_eq!(program, vec![Statement::Expression(name("y"))]);
}

#[test]
fn an_illegal_token_is_a_parse_error() {
    let (program, errors) = parse("local x = @");
    assert_eq!(errors, vec!["No prefix parse function for Illegal(\"@\")".to_string()]);
    assert_eq!(program, vec![]);
}

#[test]
fn an_if_without_then_is_reported() {
    let (program, errors) = parse("if a b end");
    assert_eq!(
        errors,
        vec![
            "Expected next token to be Then, got Ident(\"b\") instead".to_string(),
            "No prefix parse function for End".to_string()
        ]
    );
    assert_eq!(program, vec![Statement::Expression(name("b"))]);
}

#[test]
fn an_if_without_end_is_reported() {
    let (program, errors) = parse("if true then local x = 1");
    assert_eq!(errors, vec!["Expected 'end' to close 'if' block, got Eof".to_string()]);
    assert_eq!(program, vec![]);
    let (program, errors) = parse("if true then 1 else 2");
    assert_eq!(errors, vec!["Expected 'end' to close 'if' block, got Eof".to_string()]);
    assert_eq!(program, vec![]);
}

#[test]
fn a_second_else_is_reported() {
    let (_, errors) = parse("if a then 1 else 2 else 3 end");
    assert_eq!(errors[0], "Expected 'end' to close 'if' block, got Else");
}

#[test]
fn a_failed_statement_inside_a_block_is_dropped_from_the_block() {
    let (program, errors) = parse("if a then local = 1 end");
    assert_eq!(errors, vec!["Expected next token to be an identifier, got Assign".to_string()]);
    assert_eq!(
        program,
        vec![Statement::Expression(Expression::If {
            condition: Box::new(name("a")),
            consequence: vec![Statement::Expression(num(1))],
            alternative: None,
        })]
    );
}

#[test]
fn diagnostics_come_in_source_order() {
    let (program, errors) = parse("local 1\nlocal a = 1\nreturn +\nlocal b c\n(2\n");
    assert_eq!(
        errors,
        vec![
            "Expected next token to be an identifier, got Int(1)".to_string(),
            "No prefix parse function for Plus".to_string(),
            "Expected next token to be Assign, got Ident(\"c\") instead".to_string(),
            "Expected next token to be RParen, got Eof instead".to_string(),
        ]
    );
    assert_eq!(program, vec![Statement::Expression(num(1)), bind("a", num(1))]);
}

#[test]
fn an_operator_without_left_operand_is_reported() {
    let (program, errors) = parse("* 2");
    assert_eq!(errors, vec!["No prefix parse function for Asterisk".to_string()]);
    assert_eq!(program, vec![Statement::Expression(num(2))]);
    let (program, errors) = parse("- 2");
    assert_eq!(errors, vec!["No prefix parse function for Minus".to_string()]);
    assert_eq!(program, vec![Statement::Expression(num(2))]);
}

#[test]
fn an_operator_without_right_operand_is_reported() {
    let (program, errors) = parse("1 +");
    assert_eq!(errors, vec!["No prefix parse function for Eof".to_string()]);
    assert_eq!(program, vec![]);
}

#[test]
fn function_is_a_keyword_without_a_parse_rule() {
    let (_, errors) = parse("function");
    assert_eq!(errors, vec!["No prefix parse function for Function".to_string()]);
}

#[test]
fn an_empty_source_is_an_empty_program() {
    assert_eq!(parse_clean(""), vec![]);
    assert_eq!(parse_clean("-- nothing here\n"), vec![]);
}

#[test]
fn a_nul_character_is_a_parse_error_and_parsing_goes_on() {
    let (program, errors) = parse("local x = 1\0local y = 2");
    assert_eq!(errors, vec!["No prefix parse function for Illegal(\"\\0\")".to_string()]);
    assert_eq!(program, vec![bind("x", num(1)), bind("y", num(2))]);
}

#[test]
fn a_parser_may_start_in_the_middle_of_a_text() {
    let mut lexer = Lexer::new("local x = 1 2".to_string());
    lexer.next_token();
    let mut parser = Parser::new(lexer);
    let program = parser.parse_program();
    assert_eq!(parser.errors.len(), 1);
    assert_eq!(parser.errors[0], "No prefix parse function for Assign");
    assert_eq!(program, vec![Statement::Expression(name("x")), Statement::Expression(num(1)), Statement::Expression(num(2))]);
}

#[test]
fn parsing_again_at_the_end_adds_nothing() {
    let mut parser = Parser::new(Lexer::new("local = 1".to_string()));
    let first = parser.parse_program();
    let reported = parser.errors.clone();
    let second = parser.parse_program();
    assert_eq!(first, vec![Statement::Expression(num(1))]);
    assert_eq!(second, vec![]);
    assert_eq!(parser.errors, reported);
}

#[test]
fn precedence_levels_rise_from_lowest_to_call() {
    let levels = [
        Precedence::Lowest,
        Precedence::Equals,
        Precedence::LessGreater,
        Precedence::Sum,
        Precedence::Product,
        Precedence::Call,
    ];
    for (i, level) in levels.iter().enumerate() {
        assert_eq!(level.rank() as usize, i);
    }
}

#[test]
fn syntax_trees_can_be_cloned() {
    let program = parse_clean("local x = if f(1, y) then return 1 + 2 else g() end");
    assert_eq!(program.clone(), program);
    let literal = Expression::FunctionLiteral { params: vec!["a".to_string(), "b".to_string()], body: program.clone() };
    assert_eq!(literal.clone(), literal);
    let prefix = Expression::Prefix { op: Token::Minus, right: Box::new(num(1)) };
    assert_eq!(prefix.clone(), prefix);
}

#[test]
fn diagnostics_reads_the_list_of_errors() {
    let mut parser = Parser::new(Lexer::new("local 1\n(".to_string()));
    assert!(parser.diagnostics().is_empty());
    parser.parse_program();
    assert_eq!(
        parser.diagnostics(),
        &vec![
            "Expected next token to be an identifier, got Int(1)".to_string(),
            "No prefix parse function for Eof".to_string(),
        ]
    );
    assert_eq!(parser.diagnostics(), &parser.errors);
}

#[test]
fn two_operators_group_by_precedence_whatever_they_are() {
    let operators = [
        ("==", Token::Eq, 1),
        ("!=", Token::NotEq, 1),
        ("<", Token::Lt, 2),
        (">", Token::Gt, 2),
        ("+", Token::Plus, 3),
        ("-", Token::Minus, 3),
        ("*", Token::Asterisk, 4),
        ("/", Token::Slash, 4),
    ];
    for (text1, op1, level1) in operators.iter() {
        for (text2, op2, level2) in operators.iter() {
            let source = format!("x {} 2 {} true", text1, text2);
            let expected = if level2 > level1 {
                infix(op1.clone(), name("x"), infix(op2.clone(), num(2), Expression::Boolean(true)))
            } else {
                infix(op2.clone(), infix(op1.clone(), name("x"), num(2)), Expression::Boolean(true))
            };
            assert_eq!(parse_clean(&source), vec![Statement::Expression(expected)]);
        }
    }
}
