use monkey_front::ast::{Expression, Node, Statement};
use monkey_front::lexer::{Lexer, Token};
use monkey_front::parser::Parser;

fn create_program(input: &str) -> Vec<Statement> {
    let lexer = Lexer::new(input.to_string());
    let mut parser = Parser::new(lexer);

    let program = parser.parse_program();

    for err in parser.errors {
        panic!("{:?}", err)
    }

    let stmts = match program {
        Node::Program(stmts) => stmts,
    };

    return stmts;
}

fn parse_with_errors(input: &str) -> (Vec<Statement>, Vec<String>) {
    let lexer = Lexer::new(input.to_string());
    let mut parser = Parser::new(lexer);
    let program = parser.parse_program();
    let stmts = match program {
        Node::Program(stmts) => stmts,
    };
    (stmts, parser.errors)
}

fn test_let(token: &Token, ident: &Token, _expr: &Option<Box<Expression>>, tt: &Token) {
    assert!(matches!(token, Token::Let), "Expected Let, got {:?}", token);
    assert_eq!(ident, tt)
}

fn expr_to_int(expr: &Box<Expression>) -> i64 {
    match **expr {
        Expression::IntegerLiteral(_, val) => val,
        _ => panic!(
            "unexpected expression, expected IntegerLiteral, got {:?}",
            expr
        ),
    }
}

#[test]
fn test_let_stmt() {
    let stmts = create_program(
        "let x = 5;
            let y = 10;
            let foobar = 838383;",
    );

    assert_eq!(stmts.len(), 3);

    let tests = [
        Token::Ident(String::from("x")),
        Token::Ident(String::from("y")),
        Token::Ident(String::from("foobar")),
    ];

    for (i, tt) in tests.iter().enumerate() {
        let stmt = &stmts[i];
        match stmt {
            Statement::Let(token, ident, expr) => test_let(token, ident, expr, tt),
            _ => panic!("unexpected statement {:?}", stmt),
        }
    }
}

#[test]
fn test_return_stmt() {
    let stmts = create_program(
        "return 5;
            return 10;
            return 838383;",
    );

    assert_eq!(stmts.len(), 3);

    for stmt in stmts {
        match stmt {
            Statement::Return(token, expr) => {
                assert_eq!(token, Token::Return);
                assert!(expr.is_none());
            }
            _ => panic!("unexpected statement {:?}", stmt),
        }
    }
}

#[test]
fn test_identifier_expr() {
    let stmts = create_program("foobar;");
    assert_eq!(stmts.len(), 1);

    for stmt in stmts {
        match stmt {
            Statement::Expression(_, expr) => match **expr.as_ref().unwrap() {
                Expression::Identifier(ref value) => {
                    assert_eq!(*value, Token::Ident("foobar".to_string()));
                }
                _ => panic!("unexpected expression {:?}", expr),
            },
            _ => panic!("unexpected statement {:?}", stmt),
        }
    }
}

#[test]
fn test_int_literal_expr() {
    let stmts = create_program("42;");
    assert_eq!(stmts.len(), 1);

    for stmt in stmts {
        match stmt {
            Statement::Expression(_, expr) => {
                if let Expression::IntegerLiteral(token, value) = &**expr.as_ref().unwrap() {
                    assert_eq!(*token, Token::Int("42".to_string()));
                    assert_eq!(*value, 42);
                } else {
                    panic!("unexpected expression {:?}", expr);
                }
            }
            _ => panic!("unexpected statement {:?}", stmt),
        }
    }
}

#[test]
fn test_prefix_expr() {
    let stmt = create_program("!5;");

    assert_eq!(stmt.len(), 1);

    match stmt.first().unwrap() {
        Statement::Expression(_, expr) => match **expr.as_ref().unwrap() {
            Expression::Prefix(ref token, ref expr) => {
                assert_eq!(*token, Token::Bang);
                assert_eq!(5, expr_to_int(expr.as_ref().unwrap()))
            }
            _ => panic!("unexpected expression {:?}", expr),
        },
        _ => panic!("unexpected statement {:?}", stmt),
    }
}

#[test]
fn test_infix_expr() {
    let cases = vec![
        ("5 + 5;", 5, Token::Plus, 5),
        ("5 - 5;", 5, Token::Minus, 5),
        ("5 * 5;", 5, Token::Asterisk, 5),
        ("5 / 5;", 5, Token::Slash, 5),
        ("5 > 5;", 5, Token::Gt, 5),
        ("5 < 5;", 5, Token::Lt, 5),
        ("5 == 5;", 5, Token::Eq, 5),
        ("5 != 5;", 5, Token::Neq, 5),
    ];

    for (input, left, operator, right) in cases {
        let stmt = create_program(input);

        match stmt.first().unwrap() {
            Statement::Expression(_, expr) => match **expr.as_ref().unwrap() {
                Expression::Infix(ref l, ref op, ref r) => {
                    assert_eq!(left, expr_to_int(l.as_ref().unwrap()));
                    assert_eq!(*op, operator);
                    assert_eq!(right, expr_to_int(r.as_ref().unwrap()));
                }
                _ => panic!("unexpected expression {:?}", expr),
            },
            _ => panic!("unexpected statement {:?}", stmt),
        }
    }
}

#[test]
fn test_operator_precedence() {
    let tests = vec![
        ("-a * b", "((-a) * b)"),
        ("!-a", "(!(-a))"),
        ("a + b + c", "((a + b) + c)"),
        ("a + b - c", "((a + b) - c)"),
        ("a * b * c", "((a * b) * c)"),
        ("a * b / c", "((a * b) / c)"),
        ("a + b / c", "(a + (b / c))"),
        ("a + b * c + d / e - f", "(((a + (b * c)) + (d / e)) - f)"),
        ("3 + 4; -5 * 5", "(3 + 4)((-5) * 5)"),
        ("5 > 4 == 3 < 4", "((5 > 4) == (3 < 4))"),
        ("5 < 4 != 3 > 4", "((5 < 4) != (3 > 4))"),
        (
            "3 + 4 * 5 == 3 * 1 + 4 * 5",
            "((3 + (4 * 5)) == ((3 * 1) + (4 * 5)))",
        ),
        (
            "3 + 4 * 5 == 3 * 1 + 4 * 5",
            "((3 + (4 * 5)) == ((3 * 1) + (4 * 5)))",
        ),
    ];

    for t in tests {
        let stmts = create_program(t.0);

        let str = stmts.iter().map(|s| s.render()).collect::<Vec<_>>().join("");

        assert_eq!(str, t.1);
    }
}

#[test]
fn test_let_with_bad_identifier_position() {
    let (stmts, errors) = parse_with_errors("let 5 = 5;");
    assert!(errors.len() >= 1);
    assert_eq!(
        errors[0],
        "expected next token to be Ident(\"identifier\"), got Int(\"5\") instead"
    );
    // The broken let statement itself is never emitted.
    assert!(!stmts.iter().any(|s| matches!(s, Statement::Let(_, _, _))));
}

#[test]
fn test_let_with_missing_assign() {
    let (stmts, errors) = parse_with_errors("let x 5;");
    assert!(errors.len() >= 1);
    assert_eq!(errors[0], "expected next token to be Assign, got Int(\"5\") instead");
    assert!(!stmts.iter().any(|s| matches!(s, Statement::Let(_, _, _))));
}

#[test]
fn test_no_prefix_rule_diagnostic() {
    let (stmts, errors) = parse_with_errors("(1 + 2);");
    assert!(errors.len() >= 1);
    assert_eq!(errors[0], "no prefix parse function for (");
    assert_eq!(stmts.len(), 3);
}

#[test]
fn test_integer_literal_overflow_diagnostic() {
    let (stmts, errors) = parse_with_errors("9223372036854775808;");
    assert_eq!(errors.len(), 1);
    assert_eq!(
        errors[0],
        "could not parse 9223372036854775808 as integer"
    );
    assert_eq!(stmts.len(), 1);
    match &stmts[0] {
        Statement::Expression(_, expr) => assert!(expr.is_none()),
        other => panic!("unexpected statement {:?}", other),
    }
}

#[test]
fn test_largest_integer_literal() {
    let stmts = create_program("9223372036854775807;");
    assert_eq!(stmts.len(), 1);
    match &stmts[0] {
        Statement::Expression(_, expr) => {
            assert_eq!(expr_to_int(expr.as_ref().unwrap()), i64::MAX);
        }
        other => panic!("unexpected statement {:?}", other),
    }
}

#[test]
fn test_empty_input_parses_to_empty_program() {
    let (stmts, errors) = parse_with_errors("");
    assert_eq!(stmts.len(), 0);
    assert_eq!(errors.len(), 0);
}

#[test]
fn test_unterminated_let_stops_at_end_of_input() {
    // No semicolon after the initializer: statement recovery must stop at
    // the end of the input instead of spinning.
    let (stmts, errors) = parse_with_errors("let x = 5");
    assert_eq!(errors.len(), 0);
    assert_eq!(stmts.len(), 1);
    match &stmts[0] {
        Statement::Let(token, ident, _) => {
            assert_eq!(*token, Token::Let);
            assert_eq!(*ident, Token::Ident(String::from("x")));
        }
        other => panic!("unexpected statement {:?}", other),
    }
}
