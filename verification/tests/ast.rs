use monkey_front::ast::{Expression, Statement};
use monkey_front::lexer::Token;

#[test]
fn print_program() {
    let stmts = [Statement::Let(
        Token::Let,
        Token::Ident(String::from("foo")),
        Some(Box::new(Expression::Identifier(Token::Ident(String::from("bar"))))),
    )];

    for stmt in stmts {
        println!("{}", stmt.render());
    }
}

#[test]
fn render_let_statement() {
    let stmt = Statement::Let(
        Token::Let,
        Token::Ident(String::from("foo")),
        Some(Box::new(Expression::Identifier(Token::Ident(String::from("bar"))))),
    );
    assert_eq!(stmt.render(), "let foo = bar");
}

#[test]
fn render_let_statement_without_expression() {
    let stmt = Statement::Let(Token::Let, Token::Ident(String::from("x")), None);
    assert_eq!(stmt.render(), "let x = ");
}

#[test]
fn render_return_statement() {
    let with_expr = Statement::Return(
        Token::Return,
        Some(Box::new(Expression::IntegerLiteral(Token::Int(String::from("5")), 5))),
    );
    assert_eq!(with_expr.render(), "return 5");

    let bare = Statement::Return(Token::Return, None);
    assert_eq!(bare.render(), "return");
}

#[test]
fn render_prefix_and_infix() {
    let prefix = Expression::Prefix(
        Token::Minus,
        Some(Box::new(Expression::Identifier(Token::Ident(String::from("a"))))),
    );
    assert_eq!(prefix.render(), "(-a)");

    let infix = Expression::Infix(
        Some(Box::new(Expression::IntegerLiteral(Token::Int(String::from("1")), 1))),
        Token::Plus,
        Some(Box::new(Expression::IntegerLiteral(Token::Int(String::from("2")), 2))),
    );
    assert_eq!(infix.render(), "(1 + 2)");
}

#[test]
fn token_text_renderings() {
    assert_eq!(Token::Eof.text(), "EOF");
    assert_eq!(Token::Illegal.text(), "Illegal");
    assert_eq!(Token::Eq.text(), "==");
    assert_eq!(Token::Neq.text(), "!=");
    assert_eq!(Token::Function.text(), "fn");
    assert_eq!(Token::Ident(String::from("abc")).text(), "abc");
    assert_eq!(Token::Int(String::from("42")).text(), "42");
}
