use monkey_front::lexer::{Lexer, Token};

#[test]
fn test_next_token() {
    let input = String::from(
        "
            let five = 5;
            let ten = 10;
            let add = fn(x, y) {
                x + y;
            };
            let result = add(five, ten);
            !-/*5;
            5 < 10 > 5;

            if (5 < 10) {
                return true;
            } else {
                return false;
            }

            10 == 10;
            10 != 9;
        ",
    );
    let tests = [
        Token::Let,
        Token::Ident(String::from("five")),
        Token::Assign,
        Token::Int(String::from("5")),
        Token::Semicolon,
        Token::Let,
        Token::Ident(String::from("ten")),
        Token::Assign,
        Token::Int(String::from("10")),
        Token::Semicolon,
        Token::Let,
        Token::Ident(String::from("add")),
        Token::Assign,
        Token::Function,
        Token::Lparen,
        Token::Ident(String::from("x")),
        Token::Comma,
        Token::Ident(String::from("y")),
        Token::Rparen,
        Token::Lbrace,
        Token::Ident(String::from("x")),
        Token::Plus,
        Token::Ident(String::from("y")),
        Token::Semicolon,
        Token::Rbrace,
        Token::Semicolon,
        Token::Let,
        Token::Ident(String::from("result")),
        Token::Assign,
        Token::Ident(String::from("add")),
        Token::Lparen,
        Token::Ident(String::from("five")),
        Token::Comma,
        Token::Ident(String::from("ten")),
        Token::Rparen,
        Token::Semicolon,
        Token::Bang,
        Token::Minus,
        Token::Slash,
        Token::Asterisk,
        Token::Int(String::from("5")),
        Token::Semicolon,
        Token::Int(String::from("5")),
        Token::Lt,
        Token::Int(String::from("10")),
        Token::Gt,
        Token::Int(String::from("5")),
        Token::Semicolon,
        Token::If,
        Token::Lparen,
        Token::Int(String::from("5")),
        Token::Lt,
        Token::Int(String::from("10")),
        Token::Rparen,
        Token::Lbrace,
        Token::Return,
        Token::True,
        Token::Semicolon,
        Token::Rbrace,
        Token::Else,
        Token::Lbrace,
        Token::Return,
        Token::False,
        Token::Semicolon,
        Token::Rbrace,
        Token::Int(String::from("10")),
        Token::Eq,
        Token::Int(String::from("10")),
        Token::Semicolon,
        Token::Int(String::from("10")),
        Token::Neq,
        Token::Int(String::from("9")),
        Token::Semicolon,
        Token::Eof,
    ];

    let mut l = Lexer::new(input);

    for tt in tests {
        let tok = l.next_token();
        assert_eq!(tok, tt);
    }
}

fn tokenize_all(input: &str) -> Vec<Token> {
    let mut l = Lexer::new(input.to_string());
    let mut out = Vec::new();
    loop {
        let tok = l.next_token();
        let done = tok == Token::Eof;
        out.push(tok);
        if done {
            return out;
        }
    }
}

#[test]
fn tokenize_operator_sequences() {
    assert_eq!(
        tokenize_all("10 == 10;"),
        vec![
            Token::Int(String::from("10")),
            Token::Eq,
            Token::Int(String::from("10")),
            Token::Semicolon,
            Token::Eof,
        ]
    );
    assert_eq!(
        tokenize_all("!= ! = =="),
        vec![Token::Neq, Token::Bang, Token::Assign, Token::Eq, Token::Eof]
    );
    assert_eq!(
        tokenize_all("+-*/<>,;(){}"),
        vec![
            Token::Plus,
            Token::Minus,
            Token::Asterisk,
            Token::Slash,
            Token::Lt,
            Token::Gt,
            Token::Comma,
            Token::Semicolon,
            Token::Lparen,
            Token::Rparen,
            Token::Lbrace,
            Token::Rbrace,
            Token::Eof,
        ]
    );
}

#[test]
fn tokenize_twice_is_deterministic() {
    let source = "let answer = 42; answer != 0 == true;";
    let first = tokenize_all(source);
    let second = tokenize_all(source);
    assert_eq!(first, second);
}

#[test]
fn tokenize_empty_and_whitespace_input() {
    assert_eq!(tokenize_all(""), vec![Token::Eof]);
    assert_eq!(tokenize_all(" \t\r\n "), vec![Token::Eof]);
}

#[test]
fn eof_is_permanent() {
    let mut l = Lexer::new(String::from("x"));
    assert_eq!(l.next_token(), Token::Ident(String::from("x")));
    assert_eq!(l.next_token(), Token::Eof);
    assert_eq!(l.next_token(), Token::Eof);
    assert_eq!(l.next_token(), Token::Eof);
}

#[test]
fn unrecognized_byte_is_illegal() {
    assert_eq!(
        tokenize_all("a @ b"),
        vec![
            Token::Ident(String::from("a")),
            Token::Illegal,
            Token::Ident(String::from("b")),
            Token::Eof,
        ]
    );
}
