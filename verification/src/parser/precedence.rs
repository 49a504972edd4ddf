use crate::lexer::token::{SpecToken, Token};
use vstd::prelude::*;

verus! {

/// How tightly an operator binds, from loosest to tightest.
#[derive(Debug, PartialEq, Eq, Clone, Copy)]
pub enum Precedence {
    Lowest,
    Equals,
    LessGreater,
    Sum,
    Product,
    Prefix,
    Call,
}

impl Precedence {
    pub open spec fn level(self) -> nat {
        match self {
            Precedence::Lowest => 0,
            Precedence::Equals => 1,
            Precedence::LessGreater => 2,
            Precedence::Sum => 3,
            Precedence::Product => 4,
            Precedence::Prefix => 5,
            Precedence::Call => 6,
        }
    }

    /// The precedence of a token that stands between two operands.
    pub open spec fn of(token: SpecToken) -> Precedence {
        match token {
            SpecToken::Eq | SpecToken::Noteq => Precedence::Equals,
            SpecToken::Lt | SpecToken::Gt => Precedence::LessGreater,
            SpecToken::Plus | SpecToken::Minus => Precedence::Sum,
            SpecToken::Slash | SpecToken::Asterisk => Precedence::Product,
            SpecToken::Lparen => Precedence::Call,
            _ => Precedence::Lowest,
        }
    }

    pub fn get_precedence(token: &Token) -> (p: Precedence)
        ensures
            p == Precedence::of(token@),
    {
        match token {
            Token::Eq | Token::Noteq => Precedence::Equals,
            Token::Lt | Token::Gt => Precedence::LessGreater,
            Token::Plus | Token::Minus => Precedence::Sum,
            Token::Slash | Token::Asterisk => Precedence::Product,
            Token::Lparen => Precedence::Call,
            _ => Precedence::Lowest,
        }
    }

    fn rank(&self) -> (r: u8)
        ensures
            r == self.level(),
    {
        match self {
            Precedence::Lowest => 0,
            Precedence::Equals => 1,
            Precedence::LessGreater => 2,
            Precedence::Sum => 3,
            Precedence::Product => 4,
            Precedence::Prefix => 5,
            Precedence::Call => 6,
        }
    }

    /// Whether `self` binds more loosely than `other`.
    pub fn lower_than(&self, other: &Precedence) -> (r: bool)
        ensures
            r == (self.level() < other.level()),
    {
        self.rank() < other.rank()
    }
}

} // verus!
