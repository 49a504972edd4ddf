use vstd::prelude::*;

verus! {

/// A lexical token of the language.
#[derive(Debug, PartialEq)]
pub enum Token {
    Illegal,
    Identifier(String),
    Int(String),
    Assign,
    Plus,
    Minus,
    Bang,
    Asterisk,
    Slash,
    Lt,
    Gt,
    Eq,
    Noteq,
    Comma,
    Semicolon,
    Lparen,
    Rparen,
    Lbrace,
    Rbrace,
    Function,
    Let,
    True,
    False,
    If,
    Else,
    Return,
}

/// What a token is, with its text as characters.
pub enum SpecToken {
    Illegal,
    Identifier(Seq<char>),
    Int(Seq<char>),
    Assign,
    Plus,
    Minus,
    Bang,
    Asterisk,
    Slash,
    Lt,
    Gt,
    Eq,
    Noteq,
    Comma,
    Semicolon,
    Lparen,
    Rparen,
    Lbrace,
    Rbrace,
    Function,
    Let,
    True,
    False,
    If,
    Else,
    Return,
}

impl View for Token {
    type V = SpecToken;

    open spec fn view(&self) -> SpecToken {
        match self {
            Token::Illegal => SpecToken::Illegal,
            Token::Identifier(s) => SpecToken::Identifier(s@),
            Token::Int(s) => SpecToken::Int(s@),
            Token::Assign => SpecToken::Assign,
            Token::Plus => SpecToken::Plus,
            Token::Minus => SpecToken::Minus,
            Token::Bang => SpecToken::Bang,
            Token::Asterisk => SpecToken::Asterisk,
            Token::Slash => SpecToken::Slash,
            Token::Lt => SpecToken::Lt,
            Token::Gt => SpecToken::Gt,
            Token::Eq => SpecToken::Eq,
            Token::Noteq => SpecToken::Noteq,
            Token::Comma => SpecToken::Comma,
            Token::Semicolon => SpecToken::Semicolon,
            Token::Lparen => SpecToken::Lparen,
            Token::Rparen => SpecToken::Rparen,
            Token::Lbrace => SpecToken::Lbrace,
            Token::Rbrace => SpecToken::Rbrace,
            Token::Function => SpecToken::Function,
            Token::Let => SpecToken::Let,
            Token::True => SpecToken::True,
            Token::False => SpecToken::False,
            Token::If => SpecToken::If,
            Token::Else => SpecToken::Else,
            Token::Return => SpecToken::Return,
        }
    }
}

/// The views of a sequence of tokens.
pub open spec fn tokens_view(ts: Seq<Token>) -> Seq<SpecToken> {
    ts.map_values(|t: Token| t@)
}

impl SpecToken {
    /// How the token is written.
    pub open spec fn text(self) -> Seq<char> {
        match self {
            SpecToken::Illegal => "ILLEGAL"@,
            SpecToken::Identifier(s) => s,
            SpecToken::Int(s) => s,
            SpecToken::Assign => "="@,
            SpecToken::Plus => "+"@,
            SpecToken::Minus => "-"@,
            SpecToken::Bang => "!"@,
            SpecToken::Asterisk => "*"@,
            SpecToken::Slash => "/"@,
            SpecToken::Lt => "<"@,
            SpecToken::Gt => ">"@,
            SpecToken::Eq => "=="@,
            SpecToken::Noteq => "!="@,
            SpecToken::Comma => ","@,
            SpecToken::Semicolon => ";"@,
            SpecToken::Lparen => "("@,
            SpecToken::Rparen => ")"@,
            SpecToken::Lbrace => "{"@,
            SpecToken::Rbrace => "}"@,
            SpecToken::Function => "fn"@,
            SpecToken::Let => "let"@,
            SpecToken::True => "true"@,
            SpecToken::False => "false"@,
            SpecToken::If => "if"@,
            SpecToken::Else => "else"@,
            SpecToken::Return => "return"@,
        }
    }
}

impl Clone for Token {
    fn clone(&self) -> (t: Self)
        ensures
            t == *self,
    {
        match self {
            Token::Illegal => Token::Illegal,
            Token::Identifier(s) => Token::Identifier(s.clone()),
            Token::Int(s) => Token::Int(s.clone()),
            Token::Assign => Token::Assign,
            Token::Plus => Token::Plus,
            Token::Minus => Token::Minus,
            Token::Bang => Token::Bang,
            Token::Asterisk => Token::Asterisk,
            Token::Slash => Token::Slash,
            Token::Lt => Token::Lt,
            Token::Gt => Token::Gt,
            Token::Eq => Token::Eq,
            Token::Noteq => Token::Noteq,
            Token::Comma => Token::Comma,
            Token::Semicolon => Token::Semicolon,
            Token::Lparen => Token::Lparen,
            Token::Rparen => Token::Rparen,
            Token::Lbrace => Token::Lbrace,
            Token::Rbrace => Token::Rbrace,
            Token::Function => Token::Function,
            Token::Let => Token::Let,
            Token::True => Token::True,
            Token::False => Token::False,
            Token::If => Token::If,
            Token::Else => Token::Else,
            Token::Return => Token::Return,
        }
    }
}

impl Token {
    /// How the token is written, as it is shown in messages.
    pub fn to_string(&self) -> (s: String)
        ensures
            s@ == self@.text(),
    {
        match self {
            Token::Illegal => String::from_str("ILLEGAL"),
            Token::Identifier(s) => s.clone(),
            Token::Int(s) => s.clone(),
            Token::Assign => String::from_str("="),
            Token::Plus => String::from_str("+"),
            Token::Minus => String::from_str("-"),
            Token::Bang => String::from_str("!"),
            Token::Asterisk => String::from_str("*"),
            Token::Slash => String::from_str("/"),
            Token::Lt => String::from_str("<"),
            Token::Gt => String::from_str(">"),
            Token::Eq => String::from_str("=="),
            Token::Noteq => String::from_str("!="),
            Token::Comma => String::from_str(","),
            Token::Semicolon => String::from_str(";"),
            Token::Lparen => String::from_str("("),
            Token::Rparen => String::from_str(")"),
            Token::Lbrace => String::from_str("{"),
            Token::Rbrace => String::from_str("}"),
            Token::Function => String::from_str("fn"),
            Token::Let => String::from_str("let"),
            Token::True => String::from_str("true"),
            Token::False => String::from_str("false"),
            Token::If => String::from_str("if"),
            Token::Else => String::from_str("else"),
            Token::Return => String::from_str("return"),
        }
    }
}

} // verus!
