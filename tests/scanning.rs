use lexer::Lexer;
use lexer::Token;

fn tokens(input: &str) -> Vec<Token> {
    let mut lexer = Lexer::new(input);
    let mut out = Vec::new();
    loop {
        let tok = lexer.next_token();
        let done = tok == Token::Eof;
        out.push(tok);
        if done {
            return out;
        }
    }
}

fn ident(s: &str) -> Token {
    Token::Ident(String::from(s))
}

#[test]
fn test_next_token() {
    let input = r#"let five = 5;
let ten = 10;

let add = fn(x, y) {
  x + y;
};

let result = add(five, ten);
!-/*5;
5 < 10 > 5;

if (5 < 10) {
  return true;
} else {
  return false;
}

10 == 10;
10 != 9;
10 <= 10;
10 >= 10;
"foobar";
"foo bar";

[1, 2];


{"foo": "bar"};
"#;

    let tests = vec![
        Token::Let,
        Token::Ident(String::from("five")),
        Token::Assign,
        Token::Int(5),
        Token::Semicolon,
        Token::Let,
        Token::Ident(String::from("ten")),
        Token::Assign,
        Token::Int(10),
        Token::Semicolon,
        Token::Blank,
        Token::Let,
        Token::Ident(String::from("add")),
        Token::Assign,
        Token::Func,
        Token::Lparen,
        Token::Ident(String::from("x")),
        Token::Comma,
        Token::Ident(String::from("y")),
        Token::Rparen,
        Token::Lbrace,
        Token::Ident(String::from("x")),
        Token::Plus,
        Token::Ident(String::from("y")),
        Token::Semicolon,
        Token::Rbrace,
        Token::Semicolon,
        Token::Blank,
        Token::Let,
        Token::Ident(String::from("result")),
        Token::Assign,
        Token::Ident(String::from("add")),
        Token::Lparen,
        Token::Ident(String::from("five")),
        Token::Comma,
        Token::Ident(String::from("ten")),
        Token::Rparen,
        Token::Semicolon,
        Token::Bang,
        Token::Minus,
        Token::Slash,
        Token::Asterisk,
        Token::Int(5),
        Token::Semicolon,
        Token::Int(5),
        Token::LessThan,
        Token::Int(10),
        Token::GreaterThan,
        Token::Int(5),
        Token::Semicolon,
        Token::Blank,
        Token::If,
        Token::Lparen,
        Token::Int(5),
        Token::LessThan,
        Token::Int(10),
        Token::Rparen,
        Token::Lbrace,
        Token::Return,
        Token::Bool(true),
        Token::Semicolon,
        Token::Rbrace,
        Token::Else,
        Token::Lbrace,
        Token::Return,
        Token::Bool(false),
        Token::Semicolon,
        Token::Rbrace,
        Token::Blank,
        Token::Int(10),
        Token::Equal,
        Token::Int(10),
        Token::Semicolon,
        Token::Int(10),
        Token::NotEqual,
        Token::Int(9),
        Token::Semicolon,
        Token::Int(10),
        Token::LessThanEqual,
        Token::Int(10),
        Token::Semicolon,
        Token::Int(10),
        Token::GreaterThanEqual,
        Token::Int(10),
        Token::Semicolon,
        Token::String(String::from("foobar")),
        Token::Semicolon,
        Token::String(String::from("foo bar")),
        Token::Semicolon,
        Token::Blank,
        Token::Lbracket,
        Token::Int(1),
        Token::Comma,
        Token::Int(2),
        Token::Rbracket,
        Token::Semicolon,
        Token::Blank,
        Token::Blank,
        Token::Lbrace,
        Token::String(String::from("foo")),
        Token::Colon,
        Token::String(String::from("bar")),
        Token::Rbrace,
        Token::Semicolon,
        Token::Eof,
    ];

    let mut lexer = Lexer::new(input);

    for expect in tests {
        let tok = lexer.next_token();

        assert_eq!(expect, tok);
    }
}

#[test]
fn whitespace_and_one_newline_is_empty() {
    assert_eq!(tokens(" \t  \n"), vec![Token::Eof]);
    assert_eq!(tokens("\n"), vec![Token::Eof]);
    assert_eq!(tokens("\t\t\n"), vec![Token::Eof]);
}

#[test]
fn empty_input_is_eof() {
    assert_eq!(tokens(""), vec![Token::Eof]);
}

#[test]
fn eof_repeats() {
    let mut lexer = Lexer::new("x;");
    assert_eq!(lexer.next_token(), ident("x"));
    assert_eq!(lexer.next_token(), Token::Semicolon);
    for _ in 0..5 {
        assert_eq!(lexer.next_token(), Token::Eof);
    }
}

#[test]
fn zero_byte_ends_input_for_good() {
    let mut lexer = Lexer::new("a\0b");
    assert_eq!(lexer.next_token(), ident("a"));
    assert_eq!(lexer.next_token(), Token::Eof);
    assert_eq!(lexer.next_token(), Token::Eof);
}

#[test]
fn identifier_runs() {
    assert_eq!(tokens("foo_Bar"), vec![ident("foo_Bar"), Token::Eof]);
    assert_eq!(tokens("_x+y"), vec![ident("_x"), Token::Plus, ident("y"), Token::Eof]);
    assert_eq!(tokens("abc123"), vec![ident("abc"), Token::Int(123), Token::Eof]);
    assert_eq!(tokens("lets iff Fn"), vec![ident("lets"), ident("iff"), ident("Fn"), Token::Eof]);
}

#[test]
fn integer_runs() {
    assert_eq!(tokens("0"), vec![Token::Int(0), Token::Eof]);
    assert_eq!(tokens("007"), vec![Token::Int(7), Token::Eof]);
    assert_eq!(tokens("12ab"), vec![Token::Int(12), ident("ab"), Token::Eof]);
    assert_eq!(tokens("-3"), vec![Token::Minus, Token::Int(3), Token::Eof]);
    assert_eq!(tokens("9223372036854775807"), vec![Token::Int(i64::MAX), Token::Eof]);
}

#[test]
fn integer_overflow_is_reported() {
    let mut lexer = Lexer::new("9223372036854775808;");
    assert_eq!(lexer.next_token_checked(), None);
    assert_eq!(lexer.next_token_checked(), Some(Token::Semicolon));
    assert_eq!(lexer.next_token_checked(), Some(Token::Eof));

    let mut lexer = Lexer::new("99999999999999999999999");
    assert_eq!(lexer.next_token_checked(), None);
    assert_eq!(lexer.next_token_checked(), Some(Token::Eof));
}

#[test]
fn checked_scan_agrees_on_ordinary_input() {
    let mut lexer = Lexer::new("x = 42");
    assert_eq!(lexer.next_token_checked(), Some(ident("x")));
    assert_eq!(lexer.next_token_checked(), Some(Token::Assign));
    assert_eq!(lexer.next_token_checked(), Some(Token::Int(42)));
    assert_eq!(lexer.next_token_checked(), Some(Token::Eof));
}

#[test]
fn keywords_alone() {
    assert_eq!(tokens("fn"), vec![Token::Func, Token::Eof]);
    assert_eq!(tokens("let"), vec![Token::Let, Token::Eof]);
    assert_eq!(tokens("true"), vec![Token::Bool(true), Token::Eof]);
    assert_eq!(tokens("false"), vec![Token::Bool(false), Token::Eof]);
    assert_eq!(tokens("if"), vec![Token::If, Token::Eof]);
    assert_eq!(tokens("else"), vec![Token::Else, Token::Eof]);
    assert_eq!(tokens("return"), vec![Token::Return, Token::Eof]);
}

#[test]
fn two_character_operators() {
    assert_eq!(tokens("=="), vec![Token::Equal, Token::Eof]);
    assert_eq!(tokens("="), vec![Token::Assign, Token::Eof]);
    assert_eq!(tokens("!="), vec![Token::NotEqual, Token::Eof]);
    assert_eq!(tokens("!"), vec![Token::Bang, Token::Eof]);
    assert_eq!(tokens("<="), vec![Token::LessThanEqual, Token::Eof]);
    assert_eq!(tokens("<x"), vec![Token::LessThan, ident("x"), Token::Eof]);
    assert_eq!(tokens(">="), vec![Token::GreaterThanEqual, Token::Eof]);
    assert_eq!(tokens(">"), vec![Token::GreaterThan, Token::Eof]);
    assert_eq!(tokens("==="), vec![Token::Equal, Token::Assign, Token::Eof]);
    assert_eq!(tokens("= ="), vec![Token::Assign, Token::Assign, Token::Eof]);
}

#[test]
fn single_character_symbols() {
    assert_eq!(
        tokens("+-/*(){}[].,;:"),
        vec![
            Token::Plus,
            Token::Minus,
            Token::Slash,
            Token::Asterisk,
            Token::Lparen,
            Token::Rparen,
            Token::Lbrace,
            Token::Rbrace,
            Token::Lbracket,
            Token::Rbracket,
            Token::Dot,
            Token::Comma,
            Token::Semicolon,
            Token::Colon,
            Token::Eof,
        ]
    );
}

#[test]
fn blank_lines() {
    assert_eq!(tokens("a\n\nb"), vec![ident("a"), Token::Blank, ident("b"), Token::Eof]);
    assert_eq!(tokens("a\nb"), vec![ident("a"), ident("b"), Token::Eof]);
    assert_eq!(
        tokens("a\n\n\nb"),
        vec![ident("a"), Token::Blank, Token::Blank, ident("b"), Token::Eof]
    );
    assert_eq!(tokens("a\n \nb"), vec![ident("a"), ident("b"), Token::Eof]);
}

#[test]
fn string_literals() {
    assert_eq!(tokens("\"foo bar\""), vec![Token::String(String::from("foo bar")), Token::Eof]);
    assert_eq!(tokens("\"foo"), vec![Token::String(String::from("foo")), Token::Eof]);
    assert_eq!(tokens("\"\""), vec![Token::String(String::new()), Token::Eof]);
    assert_eq!(
        tokens("\"a\\nb\""),
        vec![Token::String(String::from("a\\nb")), Token::Eof]
    );
    assert_eq!(
        tokens("\"h\u{e9}llo \u{4e16}\"x"),
        vec![Token::String(String::from("h\u{e9}llo \u{4e16}")), ident("x"), Token::Eof]
    );
}

#[test]
fn canonical_sample_line() {
    assert_eq!(
        tokens("let five = 5;\n"),
        vec![Token::Let, ident("five"), Token::Assign, Token::Int(5), Token::Semicolon, Token::Eof]
    );
}

#[test]
fn illegal_bytes() {
    assert_eq!(tokens("@"), vec![Token::Illegal, Token::Eof]);
    assert_eq!(tokens("a?b"), vec![ident("a"), Token::Illegal, ident("b"), Token::Eof]);
    assert_eq!(tokens("\u{e9}"), vec![Token::Illegal, Token::Illegal, Token::Eof]);
    assert_eq!(tokens("\r"), vec![Token::Illegal, Token::Eof]);
}
