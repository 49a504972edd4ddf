use monkey::lexer::token::Token;
use monkey::lexer::tokenize;

fn ident(s: &str) -> Token {
    Token::Identifier(s.to_string())
}

fn num(s: &str) -> Token {
    Token::Int(s.to_string())
}

#[test]
fn single_character_tokens() {
    assert_eq!(
        tokenize("=+(){},;-!*/<>"),
        vec![
            Token::Assign,
            Token::Plus,
            Token::Lparen,
            Token::Rparen,
            Token::Lbrace,
            Token::Rbrace,
            Token::Comma,
            Token::Semicolon,
            Token::Minus,
            Token::Bang,
            Token::Asterisk,
            Token::Slash,
            Token::Lt,
            Token::Gt,
        ]
    );
}

#[test]
fn two_character_operators() {
    assert_eq!(tokenize("== != =! ="), vec![Token::Eq, Token::Noteq, Token::Assign, Token::Bang, Token::Assign]);
    assert_eq!(tokenize("==="), vec![Token::Eq, Token::Assign]);
}

#[test]
fn keywords_and_identifiers() {
    assert_eq!(
        tokenize("fn let true false if else return fnx _under Let"),
        vec![
            Token::Function,
            Token::Let,
            Token::True,
            Token::False,
            Token::If,
            Token::Else,
            Token::Return,
            ident("fnx"),
            ident("_under"),
            ident("Let"),
        ]
    );
}

#[test]
fn numbers_and_words_split() {
    assert_eq!(tokenize("a1 42x 007"), vec![ident("a"), num("1"), num("42"), ident("x"), num("007")]);
}

#[test]
fn whitespace_is_skipped() {
    assert_eq!(tokenize(" \t\r\n "), vec![]);
    assert_eq!(tokenize(""), vec![]);
    assert_eq!(tokenize("let\tx\n=\r\n5 ;"), vec![Token::Let, ident("x"), Token::Assign, num("5"), Token::Semicolon]);
}

#[test]
fn unknown_characters_are_illegal() {
    assert_eq!(tokenize("@ é #"), vec![Token::Illegal, Token::Illegal, Token::Illegal]);
}

#[test]
fn a_whole_program() {
    let input = "let add = fn(x, y) { x + y; };\nlet result = add(five, 10);\nif (5 < 10) { return true; } else { return false; }";
    assert_eq!(
        tokenize(input),
        vec![
            Token::Let,
            ident("add"),
            Token::Assign,
            Token::Function,
            Token::Lparen,
            ident("x"),
            Token::Comma,
            ident("y"),
            Token::Rparen,
            Token::Lbrace,
            ident("x"),
            Token::Plus,
            ident("y"),
            Token::Semicolon,
            Token::Rbrace,
            Token::Semicolon,
            Token::Let,
            ident("result"),
            Token::Assign,
            ident("add"),
            Token::Lparen,
            ident("five"),
            Token::Comma,
            num("10"),
            Token::Rparen,
            Token::Semicolon,
            Token::If,
            Token::Lparen,
            num("5"),
            Token::Lt,
            num("10"),
            Token::Rparen,
            Token::Lbrace,
            Token::Return,
            Token::True,
            Token::Semicolon,
            Token::Rbrace,
            Token::Else,
            Token::Lbrace,
            Token::Return,
            Token::False,
            Token::Semicolon,
            Token::Rbrace,
        ]
    );
}

#[test]
fn token_text() {
    assert_eq!(Token::Eq.to_string(), "==");
    assert_eq!(Token::Function.to_string(), "fn");
    assert_eq!(Token::Illegal.to_string(), "ILLEGAL");
    assert_eq!(ident("abc").to_string(), "abc");
    assert_eq!(num("12").to_string(), "12");
}

#[test]
fn token_clone() {
    let t = ident("name");
    assert_eq!(t.clone(), t);
}

#[test]
fn whitespace_between_texts_only_separates_their_tokens() {
    let pairs = [("let x", "= 5;"), ("a", "b"), ("=", "="), ("!", "=x"), ("12", "34"), ("fn", "(x)"), ("", "y")];
    for (a, b) in pairs {
        for w in [" ", "\t", "\n", "\r"] {
            let mut joined = tokenize(a);
            joined.extend(tokenize(b));
            assert_eq!(tokenize(&format!("{a}{w}{b}")), joined, "{a:?} {w:?} {b:?}");
            assert_eq!(tokenize(&format!("{w}{b}")), tokenize(b));
        }
    }
}
