use evasion::ast::{Expressions, Node, Nodes, Program, Statements};
use evasion::lexer::Lexer;
use evasion::parser::Parser;

fn h_parse(input: &str) -> (Program, Parser) {
    let lexer = Lexer::new(input);
    let mut parser = Parser::new(lexer);
    let program = parser.parse_program();
    (program, parser)
}

fn check_parser_errors(parser: &Parser) {
    let errors = &parser.errors;
    if errors.len() == 0 {
        return;
    }

    println!("Parser has {} errors", errors.len());

    for err in errors {
        println!("parser error: {}", err);
    }

    panic!("Failed to parse input");
}

fn h_test_integer_litteral(expression: &Expressions, expected_integer: &str) {
    match expression {
        Expressions::IntegerLiteral { .. } => {
            if expression.token_litteral() != expected_integer {
                panic!(
                    "token_litteral() not '{}', got={}",
                    expected_integer,
                    expression.token_litteral()
                );
            }
        }
        _ => panic!(
            "was exprecting IntegerLiteral, got={}",
            expression.display_type()
        ),
    }
}

fn h_test_identifier(expression: &Expressions, expected_identifier: &str) {
    match expression {
        Expressions::Identifier { .. } => {
            if expression.token_litteral() != expected_identifier {
                panic!(
                    "token_litteral() not '{}', got={}",
                    expected_identifier,
                    expression.token_litteral()
                );
            }
        }
        _ => panic!(
            "was expecting Identifier, got={}",
            expression.display_type()
        ),
    }
}

fn h_test_boolean(expression: &Expressions, expected_bool: bool) {
    match expression {
        Expressions::Boolean { value, .. } => {
            if *value != expected_bool {
                panic!("Was expecting {}, got={}", expected_bool, value)
            }
        }
        _ => panic!("Was expecting a boolean, got={}", expression.display_type()),
    }
}

fn h_test_operand(expression: &Expressions, expected: &str) {
    if let Ok(_) = expected.parse::<u64>() {
        h_test_integer_litteral(expression, expected);
    } else if let Ok(b) = expected.parse::<bool>() {
        h_test_boolean(expression, b);
    } else {
        h_test_identifier(expression, expected);
    }
}

fn h_test_infix_expression(exp_infix: &Expressions, t_left: &str, t_op: &str, t_right: &str) {
    match exp_infix {
        Expressions::Infix {
            left,
            operator,
            right,
            ..
        } => {
            h_test_operand(left, t_left);
            assert_eq!(operator, t_op);
            h_test_operand(right, t_right);
        }
        _ => panic!("Expected an Infix expression, got={}", exp_infix.display_type()),
    }
}

fn h_test_let_statments(stmt: &Statements, ident: &str) {
    match stmt {
        Statements::Let { name, .. } => {
            if stmt.token_litteral() != "let" {
                panic!("token_litteral() not 'let', got={}", stmt.token_litteral());
            }

            if name.render() != ident.to_string() {
                panic!("Identifier.value is not={} got={}", ident, name.render());
            }

            if name.token_litteral() != ident.trim() {
                panic!(
                    "Identifier.name.token_litteral() is not={} got={}",
                    ident,
                    name.token_litteral()
                );
            }
        }
        _ => panic!("Expected a Let statement but got={}", stmt.display_type()),
    }
}

#[test]
fn test_let_statments() {
    let inputs = vec![
        ("let x = 5;", "x", "5"),
        ("let y = 10;", "y", "10"),
        ("let foobar = 838383", "foobar", "838383"),
    ];
    for (input, expected_ident, expected_value) in inputs {
        let (program, parser) = h_parse(input);
        check_parser_errors(&parser);

        match &program.statments[0] {
            Nodes::Statement(statement) => match statement {
                Statements::Let { value, .. } => {
                    h_test_let_statments(statement, expected_ident);
                    h_test_integer_litteral(value, expected_value);
                }
                _ => panic!("Expected Let Statement, got={}", statement.display_type()),
            },
            _ => panic!("Expected a statement node"),
        }
    }
}

#[test]
fn test_return_statements() {
    let inputs = vec![("return 5;", "5"), ("return 10;", "10")];

    for (input, expected_value) in inputs {
        let (program, parser) = h_parse(input);
        check_parser_errors(&parser);

        match &program.statments[0] {
            Nodes::Statement(statement) => match statement {
                Statements::Return { value, .. } => {
                    if statement.token_litteral() != "return" {
                        panic!(
                            "token_litteral() not 'return', got={}",
                            statement.token_litteral()
                        );
                    }
                    h_test_integer_litteral(value, expected_value);
                }
                _ => panic!(
                    "Expected Return Statement, got={}",
                    statement.display_type()
                ),
            },
            _ => panic!("Expected a statement node"),
        }
    }
}

#[test]
fn test_identifier() {
    let input = "foobar;";

    let (program, parser) = h_parse(input);
    check_parser_errors(&parser);

    if program.statments.len() != 1 {
        panic!(
            "program.statments doesn't contain 1 statments, got={}",
            program.statments.len()
        )
    }
    match &program.statments[0] {
        Nodes::Expression(expression) => h_test_identifier(expression, "foobar"),
        _ => panic!("Expected an expression node"),
    }
}

#[test]
fn test_integer_litteral() {
    let input = "5;";

    let (program, parser) = h_parse(input);
    check_parser_errors(&parser);

    if program.statments.len() != 1 {
        panic!(
            "program.statments doesn't contain 1 statments, got={}",
            program.statments.len()
        )
    }

    match &program.statments[0] {
        Nodes::Expression(expression) => h_test_integer_litteral(expression, "5"),
        _ => panic!("Expected an expression node"),
    }
}

#[test]
fn test_prefix_expression() {
    let inputs = vec![
        ("!5", "!", "5"),
        ("-15", "-", "15"),
        ("!true", "!", "true"),
        ("!false", "!", "false"),
    ];

    for (input, expected_operator, operhand) in inputs {
        let (program, parser) = h_parse(input);
        check_parser_errors(&parser);

        match &program.statments[0] {
            Nodes::Expression(expression) => match expression {
                Expressions::Prefix {
                    operator, right, ..
                } => {
                    h_test_operand(right, operhand);
                    assert_eq!(operator, expected_operator, "Expected {}, got={}", expected_operator, operator);
                }
                _ => panic!(
                    "Expected Prefix Expression, got={}",
                    expression.display_type()
                ),
            },
            _ => panic!("Expected an expression node"),
        }
    }
}

#[test]
fn test_parsing_infix_expression() {
    let inputs = vec![
        ("5 + 4;", "5", "+", "4"),
        ("5 - 5;", "5", "-", "5"),
        ("5 * 5;", "5", "*", "5"),
        ("5 / 5;", "5", "/", "5"),
        ("5 < 5;", "5", "<", "5"),
        ("5 > 5;", "5", ">", "5"),
        ("5 == 5;", "5", "==", "5"),
        ("5 != 5;", "5", "!=", "5"),
        ("true != true;", "true", "!=", "true"),
        ("false == false;", "false", "==", "false"),
        ("true == false;", "true", "==", "false"),
    ];

    for (input, left, op, right) in inputs {
        let (program, parser) = h_parse(input);
        check_parser_errors(&parser);

        match &program.statments[0] {
            Nodes::Expression(expression) => match expression {
                Expressions::Infix { .. } => h_test_infix_expression(expression, left, op, right),
                _ => panic!(
                    "Expected Infix Expression, got={}",
                    expression.display_type()
                ),
            },
            _ => panic!("Expected an expression node"),
        }
    }
}

#[test]
fn test_precedence() {
    let inputs = vec![
        ("-a * b", "((-a) * b)"),
        ("!-a", "(!(-a))"),
        ("a + b + c", "((a + b) + c)"),
        ("a + b - c", "((a + b) - c)"),
        ("a * b * c", "((a * b) * c)"),
        ("a * b / c", "((a * b) / c)"),
        ("a + b / c", "(a + (b / c))"),
        ("a + b * c + d / e - f", "(((a + (b * c)) + (d / e)) - f)"),
        ("3 + 4; -5 * 5", "(3 + 4)((-5) * 5)"),
        ("5 > 4 == 3 < 4", "((5 > 4) == (3 < 4))"),
        ("5 < 4 != 3 > 4", "((5 < 4) != (3 > 4))"),
        (
            "3 + 4 * 5 == 3 * 1 + 4 * 5",
            "((3 + (4 * 5)) == ((3 * 1) + (4 * 5)))",
        ),
        ("true", "true"),
        ("false", "false"),
        ("3 > 5 == false", "((3 > 5) == false)"),
        ("3 < 5 == true", "((3 < 5) == true)"),
        ("1 + (2 + 3) + 4", "((1 + (2 + 3)) + 4)"),
        ("(5 + 5) * 2", "((5 + 5) * 2)"),
        ("2 / (5 + 5)", "(2 / (5 + 5))"),
        ("-(5 + 5)", "(-(5 + 5))"),
        ("!(true == true)", "(!(true == true))"),
        ("a + add(b * c) + d", "((a + add((b * c))) + d)"),
        (
            "add(a, b, 1, 2 * 3, 4 + 5, add(6, 7 * 8))",
            "add(a, b, 1, (2 * 3), (4 + 5), add(6, (7 * 8)))",
        ),
        (
            "add(a + b + c * d / f + g)",
            "add((((a + b) + ((c * d) / f)) + g))",
        ),
    ];

    for (input, expected) in inputs {
        let (program, parser) = h_parse(input);
        check_parser_errors(&parser);

        if expected.to_string() != program.render() {
            panic!("Expected {}, got={}", expected, program.render())
        }
    }
}

#[test]
fn test_if_expression() {
    let input = "if (x > y) { x }";

    let (program, parser) = h_parse(input);
    check_parser_errors(&parser);

    if program.statments.len() != 1 {
        panic!(
            "program.statments doesn't contain 1 statments, got={}",
            program.statments.len()
        )
    }

    match &program.statments[0] {
        Nodes::Expression(Expressions::IfExpression {
            alternative,
            consequence,
            condition,
            ..
        }) => {
            h_test_infix_expression(condition, "x", ">", "y");

            match consequence.as_ref() {
                Statements::BlockStatements { statements, .. } => match &statements[0] {
                    Nodes::Expression(e) => {
                        h_test_identifier(e, "x");
                    }
                    _ => panic!("Expected an Expession, got a statement"),
                },
                _ => panic!("Expected to find a BlockStatements"),
            };

            if alternative.is_some() {
                panic!("Should not have an alternatice statement")
            }
        }

        _ => panic!("was exprecting an IfExpression"),
    }
}

#[test]
fn test_if_else_expression() {
    let input = "if (x > y) { x } else { y }";

    let (program, parser) = h_parse(input);
    check_parser_errors(&parser);

    if program.statments.len() != 1 {
        panic!(
            "program.statments doesn't contain 1 statments, got={}",
            program.statments.len()
        )
    }

    match &program.statments[0] {
        Nodes::Expression(Expressions::IfExpression {
            alternative,
            consequence,
            condition,
            ..
        }) => {
            h_test_infix_expression(condition, "x", ">", "y");

            match consequence.as_ref() {
                Statements::BlockStatements { statements, .. } => match &statements[0] {
                    Nodes::Expression(e) => h_test_identifier(e, "x"),
                    _ => panic!("Expected an expression in the consequence"),
                },
                _ => panic!("Expected to find a BlockStatements"),
            };

            match alternative {
                Some(alt) => match alt.as_ref() {
                    Statements::BlockStatements { statements, .. } => match &statements[0] {
                        Nodes::Expression(e) => h_test_identifier(e, "y"),
                        _ => panic!("Expected an expression in the alternative"),
                    },
                    _ => panic!("Expected to find a BlockStatements"),
                },
                None => panic!("Expected an alternative"),
            }
        }

        _ => panic!("was exprecting an IfExpression"),
    }
}

#[test]
fn test_fn_expression() {
    let input = "fn(x, y) { x + y; }";

    let (program, parser) = h_parse(input);
    check_parser_errors(&parser);

    if program.statments.len() != 1 {
        panic!(
            "program.statments doesn't contain 1 statments, got={}",
            program.statments.len()
        )
    }

    match &program.statments[0] {
        Nodes::Expression(expression) => match expression {
            Expressions::FnExpression {
                body, parameters, ..
            } => {
                if expression.token_litteral() != "fn" {
                    panic!(
                        "Was expecting fn as token litteral, got={}",
                        expression.token_litteral()
                    );
                }

                h_test_identifier(&parameters[0], "x");
                h_test_identifier(&parameters[1], "y");

                match body.as_ref() {
                    Statements::BlockStatements { statements, .. } => match &statements[0] {
                        Nodes::Expression(e) => h_test_infix_expression(e, "x", "+", "y"),
                        _ => panic!("Expected an expression in the body"),
                    },
                    _ => panic!("Expected to find a BlockStatements"),
                };
            }

            n => panic!("was exprecting FnExpression, got={}", n.display_type()),
        },
        _ => panic!("Expected an expression node"),
    }
}

#[test]
fn test_fn_parameter() {
    let tests: Vec<(&str, Vec<&str>)> = vec![
        ("fn() {}", vec![]),
        ("fn(x) {}", vec!["x"]),
        ("fn(x, y, z) {}", vec!["x", "y", "z"]),
    ];

    for (input, expected) in tests {
        let (program, parser) = h_parse(input);
        check_parser_errors(&parser);

        match &program.statments[0] {
            Nodes::Expression(expression) => match expression {
                Expressions::FnExpression { parameters, .. } => {
                    for (idx, expected_param) in expected.iter().enumerate() {
                        h_test_identifier(&parameters[idx], expected_param);
                    }
                }
                _ => panic!(
                    "was exprecting FnExpression, got={}",
                    expression.display_type()
                ),
            },
            _ => panic!("Expected an expression node"),
        }
    }
}

#[test]
fn test_call_expression() {
    let input = "add(1, 2 * 3, 4 + 5);";

    let (program, parser) = h_parse(input);
    check_parser_errors(&parser);

    if program.statments.len() != 1 {
        panic!(
            "program.statments doesn't contain 1 statments, got={}",
            program.statments.len()
        )
    }

    match &program.statments[0] {
        Nodes::Expression(expression) => match expression {
            Expressions::CallExpression {
                function,
                arguments,
                ..
            } => {
                h_test_identifier(function, "add");

                if arguments.len() != 3 {
                    panic!("Expected 3 arguments, got={}", arguments.len())
                }
                h_test_integer_litteral(&arguments[0], "1");
                h_test_infix_expression(&arguments[1], "2", "*", "3");
                h_test_infix_expression(&arguments[2], "4", "+", "5")
            }
            n => panic!("was exprecting CallExpression, got={}", n.display_type()),
        },
        _ => panic!("Expected an expression node"),
    }
}

#[test]
fn test_parser_error_message() {
    let (_, parser) = h_parse("let 5 = 3;");
    assert!(parser.errors.len() >= 1);
    assert_eq!(
        parser.errors[0],
        "expected next token to be IDENT, got INT instead".to_string()
    );
}

#[test]
fn test_parser_error_message_missing_assign() {
    let (_, parser) = h_parse("let x 3;");
    assert!(parser.errors.len() >= 1);
    assert_eq!(
        parser.errors[0],
        "expected next token to be ASSIGN, got INT instead".to_string()
    );
}

#[test]
fn test_integer_literal_overflow_is_soft() {
    // 2^64 does not fit in 64 bits: the parser records an error and
    // carries on instead of aborting.
    let (_, parser) = h_parse("18446744073709551616;");
    assert!(parser.errors.len() >= 1);
    assert_eq!(
        parser.errors[0],
        "could not parse 18446744073709551616 as integer".to_string()
    );
}

#[test]
fn test_missing_prefix_parser_is_reported() {
    let (_, parser) = h_parse("+ 3;");
    assert!(parser.errors.len() >= 1);
    assert_eq!(
        parser.errors[0],
        "no prefix parse function for PLUS found".to_string()
    );
}
