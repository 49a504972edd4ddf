//! What parsing a sequence of tokens gives.
//!
//! Each function reads the tokens `ts` from position `p` on and returns its
//! result together with the position of the first token it did not take;
//! a failed parse also reports how far it got, since what follows depends on
//! it. A function whose first token was already taken receives that token.
//!
//! The parse never moves backwards, so the branches that test whether a
//! position moved are never taken: they make it plain that the recursion ends.
use super::ast::{Infix, Prefix, SpecExpression, SpecStatement};
use super::integer::decimal_i64;
use super::precedence::Precedence;
use super::SpecParsingError;
use crate::lexer::token::SpecToken;
use vstd::prelude::*;

verus! {

/// A result and the position after it.
pub type Parsed<T> = (Result<T, SpecParsingError>, int);

/// The token at `p`, if there is one.
pub open spec fn peek(ts: Seq<SpecToken>, p: int) -> Option<SpecToken> {
    if 0 <= p < ts.len() {
        Some(ts[p])
    } else {
        None
    }
}

/// Takes the next token, which must exist and must not end the statement.
pub open spec fn next_or_end(ts: Seq<SpecToken>, p: int) -> Parsed<SpecToken> {
    match peek(ts, p) {
        Some(SpecToken::Semicolon) => (Err(SpecParsingError::UnexpectedSemicolon), p),
        Some(t) => (Ok(t), p + 1),
        None => (Err(SpecParsingError::UnexpectedEof), p),
    }
}

/// The position of the first `;` at or after `p`, or the end.
pub open spec fn skip_to_semicolon(ts: Seq<SpecToken>, p: int) -> int
    decreases ts.len() - p,
{
    match peek(ts, p) {
        Some(SpecToken::Semicolon) => p,
        Some(_) => skip_to_semicolon(ts, p + 1),
        None => p,
    }
}

pub open spec fn parse_integer(s: Seq<char>) -> Result<SpecExpression, SpecParsingError> {
    match decimal_i64(s) {
        Some(n) => Ok(SpecExpression::Integer(n)),
        None => Err(SpecParsingError::InvalidInteger(s)),
    }
}

pub open spec fn prefix_operator(t: SpecToken) -> Option<Prefix> {
    match t {
        SpecToken::Bang => Some(Prefix::Bang),
        SpecToken::Minus => Some(Prefix::Minus),
        _ => None,
    }
}

pub open spec fn infix_operator(t: SpecToken) -> Option<Infix> {
    match t {
        SpecToken::Plus => Some(Infix::Plus),
        SpecToken::Minus => Some(Infix::Minus),
        SpecToken::Asterisk => Some(Infix::Multiply),
        SpecToken::Slash => Some(Infix::Divide),
        SpecToken::Lt => Some(Infix::LessThan),
        SpecToken::Gt => Some(Infix::GreaterThan),
        SpecToken::Eq => Some(Infix::Equal),
        SpecToken::Noteq => Some(Infix::NotEqual),
        _ => None,
    }
}

/// The message of the error for an operator that the parser cannot build.
pub open spec fn unreachable_operator_message() -> Seq<char> {
    "should never get here... fix types"@
}

/// A parameter list after its `(`: identifiers separated by `,`, up to `)`.
pub open spec fn parameter_list(ts: Seq<SpecToken>, p: int, acc: Seq<SpecExpression>) -> Parsed<Seq<SpecExpression>>
    decreases ts.len() - p,
{
    let (n, q) = next_or_end(ts, p);
    match n {
        Err(e) => (Err(e), q),
        Ok(SpecToken::Identifier(id)) => {
            let acc = acc.push(SpecExpression::Identifier(id));
            match peek(ts, q) {
                Some(SpecToken::Comma) => parameter_list(ts, q + 1, acc),
                Some(SpecToken::Rparen) => (Ok(acc), q + 1),
                Some(t) => (Err(SpecParsingError::UnexpectedToken(t)), q),
                None => (Err(SpecParsingError::UnexpectedEof), q),
            }
        },
        Ok(t) => (Err(SpecParsingError::UnexpectedToken(t)), q),
    }
}

/// The parameters of a function literal, from its `(` on.
pub open spec fn parameters(ts: Seq<SpecToken>, p: int) -> Parsed<Seq<SpecExpression>> {
    let (n, q) = next_or_end(ts, p);
    match n {
        Err(e) => (Err(e), q),
        Ok(SpecToken::Lparen) => parameter_list(ts, q, seq![]),
        Ok(t) => (Err(SpecParsingError::UnexpectedToken(t)), q),
    }
}

/// The expression that begins with the token `token`, which was taken:
/// what that token alone starts, before any infix operator.
pub open spec fn expression_start(ts: Seq<SpecToken>, p: int, token: SpecToken) -> Parsed<SpecExpression>
    decreases ts.len() - p, 9int,
{
    match token {
        SpecToken::Identifier(id) => (Ok(SpecExpression::Identifier(id)), p),
        SpecToken::Int(s) => (parse_integer(s), p),
        SpecToken::Bang | SpecToken::Minus => prefix_expression(ts, p, token),
        SpecToken::True => (Ok(SpecExpression::Boolean(true)), p),
        SpecToken::False => (Ok(SpecExpression::Boolean(false)), p),
        SpecToken::Lparen => grouped_expression(ts, p),
        SpecToken::If => if_expression(ts, p),
        SpecToken::Function => function_literal(ts, p),
        _ => (Err(SpecParsingError::InvalidPrefixOperator(token)), p),
    }
}

/// An expression whose first token `token` was taken, binding operators
/// tighter than `precedence`.
pub open spec fn expression(ts: Seq<SpecToken>, p: int, token: SpecToken, precedence: Precedence) -> Parsed<SpecExpression>
    decreases ts.len() - p, 10int,
{
    let (first, q) = expression_start(ts, p, token);
    match first {
        Err(e) => (Err(e), q),
        Ok(left) => if p <= q <= ts.len() {
            infix_loop(ts, q, precedence, left)
        } else {
            (Ok(left), q)
        },
    }
}

/// Extends `left` with the operators that follow while they bind tighter
/// than `precedence`.
pub open spec fn infix_loop(ts: Seq<SpecToken>, p: int, precedence: Precedence, left: SpecExpression) -> Parsed<SpecExpression>
    decreases ts.len() - p, 9int,
{
    match peek(ts, p) {
        None => (Ok(left), p),
        Some(SpecToken::Semicolon) => (Ok(left), p),
        Some(right) => if precedence.level() < Precedence::of(right).level() {
            // the operator is taken
            if right == SpecToken::Lparen || infix_operator(right) is Some {
                let (r, q) = if right == SpecToken::Lparen {
                    call_expression(ts, p + 1, left)
                } else {
                    infix_expression(ts, p + 1, left, right)
                };
                match r {
                    Err(e) => (Err(e), q),
                    Ok(next) => if p < q <= ts.len() {
                        infix_loop(ts, q, precedence, next)
                    } else {
                        (Ok(next), q)
                    },
                }
            } else {
                (Ok(left), p + 1)
            }
        } else {
            (Ok(left), p)
        },
    }
}

/// `!` or `-` and its operand.
pub open spec fn prefix_expression(ts: Seq<SpecToken>, p: int, token: SpecToken) -> Parsed<SpecExpression>
    decreases ts.len() - p, 8int,
{
    match prefix_operator(token) {
        None => (Err(SpecParsingError::Generic(unreachable_operator_message())), p),
        Some(op) => {
            let (n, q) = next_or_end(ts, p);
            match n {
                Err(e) => (Err(e), q),
                Ok(next) => {
                    let (r, q2) = expression(ts, q, next, Precedence::Prefix);
                    match r {
                        Err(e) => (Err(e), q2),
                        Ok(right) => (Ok(SpecExpression::Prefix(op, Box::new(right))), q2),
                    }
                },
            }
        },
    }
}

/// An expression after `(`, and the `)` that closes it.
pub open spec fn grouped_expression(ts: Seq<SpecToken>, p: int) -> Parsed<SpecExpression>
    decreases ts.len() - p, 8int,
{
    let (n, q) = next_or_end(ts, p);
    match n {
        Err(e) => (Err(e), q),
        Ok(next) => {
            let (r, q2) = expression(ts, q, next, Precedence::Lowest);
            match r {
                Err(e) => (Err(e), q2),
                Ok(inner) => match peek(ts, q2) {
                    Some(SpecToken::Rparen) => (Ok(inner), q2 + 1),
                    Some(t) => (Err(SpecParsingError::UnexpectedToken(t)), q2),
                    None => (Ok(inner), q2),
                },
            }
        },
    }
}

/// The rest of an `if` expression: a condition in parentheses, a block, and
/// an optional `else` block.
pub open spec fn if_expression(ts: Seq<SpecToken>, p: int) -> Parsed<SpecExpression>
    decreases ts.len() - p, 8int,
{
    let (n, q) = next_or_end(ts, p);
    match n {
        Err(e) => (Err(e), q),
        Ok(SpecToken::Lparen) => {
            let (c, q2) = expression(ts, q, SpecToken::Lparen, Precedence::Lowest);
            match c {
                Err(e) => (Err(e), q2),
                Ok(condition) => if p < q2 <= ts.len() {
                    let (b, q3) = block_statement(ts, q2);
                    match b {
                        Err(e) => (Err(e), q3),
                        Ok(consequence) => if p < q3 <= ts.len() {
                            match peek(ts, q3) {
                                Some(SpecToken::Else) => {
                                    let (b2, q4) = block_statement(ts, q3 + 1);
                                    match b2 {
                                        Err(e) => (Err(e), q4),
                                        Ok(alternative) => (
                                            Ok(SpecExpression::If(Box::new(condition), Box::new(consequence), Some(Box::new(alternative)))),
                                            q4,
                                        ),
                                    }
                                },
                                _ => (Ok(SpecExpression::If(Box::new(condition), Box::new(consequence), None)), q3),
                            }
                        } else {
                            (Err(SpecParsingError::UnexpectedEof), q3)
                        },
                    }
                } else {
                    (Err(SpecParsingError::UnexpectedEof), q2)
                },
            }
        },
        Ok(t) => (Err(SpecParsingError::UnexpectedToken(t)), q),
    }
}

/// The rest of a function literal: its parameters and its body.
pub open spec fn function_literal(ts: Seq<SpecToken>, p: int) -> Parsed<SpecExpression>
    decreases ts.len() - p, 8int,
{
    let (ps, q) = parameters(ts, p);
    match ps {
        Err(e) => (Err(e), q),
        Ok(params) => if p < q <= ts.len() {
            let (b, q2) = block_statement(ts, q);
            match b {
                Err(e) => (Err(e), q2),
                Ok(body) => (Ok(SpecExpression::Function(params, Box::new(body))), q2),
            }
        } else {
            (Err(SpecParsingError::UnexpectedEof), q)
        },
    }
}

/// The right operand of the infix `operator`, which was taken after `left`.
pub open spec fn infix_expression(ts: Seq<SpecToken>, p: int, left: SpecExpression, operator: SpecToken) -> Parsed<SpecExpression>
    decreases ts.len() - p, 8int,
{
    match infix_operator(operator) {
        None => (Err(SpecParsingError::Generic(unreachable_operator_message())), p),
        Some(op) => {
            let (n, q) = next_or_end(ts, p);
            match n {
                Err(e) => (Err(e), q),
                Ok(next) => {
                    let (r, q2) = expression(ts, q, next, Precedence::of(operator));
                    match r {
                        Err(e) => (Err(e), q2),
                        Ok(right) => (Ok(SpecExpression::Infix(Box::new(left), op, Box::new(right))), q2),
                    }
                },
            }
        },
    }
}

/// The arguments of a call of `left`, after its `(`.
pub open spec fn call_expression(ts: Seq<SpecToken>, p: int, left: SpecExpression) -> Parsed<SpecExpression>
    decreases ts.len() - p, 8int,
{
    if peek(ts, p) == Some(SpecToken::Rparen) {
        (Ok(SpecExpression::Call(Box::new(left), seq![])), p + 1)
    } else {
        let (n, q) = next_or_end(ts, p);
        match n {
            Err(e) => (Err(e), q),
            Ok(next) => {
                let (r, q2) = expression(ts, q, next, Precedence::Lowest);
                match r {
                    Err(e) => (Err(e), q2),
                    Ok(first) => if p < q2 <= ts.len() {
                        call_arguments(ts, q2, left, seq![first])
                    } else {
                        (Err(SpecParsingError::UnexpectedEof), q2)
                    },
                }
            },
        }
    }
}

/// The further arguments of a call, each after a `,`, and the closing `)`.
pub open spec fn call_arguments(ts: Seq<SpecToken>, p: int, left: SpecExpression, args: Seq<SpecExpression>) -> Parsed<SpecExpression>
    decreases ts.len() - p, 7int,
{
    if peek(ts, p) == Some(SpecToken::Comma) {
        let (n, q) = next_or_end(ts, p + 1);
        match n {
            Err(e) => (Err(e), q),
            Ok(next) => {
                let (r, q2) = expression(ts, q, next, Precedence::Lowest);
                match r {
                    Err(e) => (Err(e), q2),
                    Ok(arg) => if p < q2 <= ts.len() {
                        call_arguments(ts, q2, left, args.push(arg))
                    } else {
                        (Err(SpecParsingError::UnexpectedEof), q2)
                    },
                }
            },
        }
    } else {
        let (n, q) = next_or_end(ts, p);
        match n {
            Err(e) => (Err(e), q),
            Ok(SpecToken::Rparen) => (Ok(SpecExpression::Call(Box::new(left), args)), q),
            Ok(t) => (Err(SpecParsingError::UnexpectedToken(t)), q),
        }
    }
}

/// A block: `{`, statements, `}`.
pub open spec fn block_statement(ts: Seq<SpecToken>, p: int) -> Parsed<SpecStatement>
    decreases ts.len() - p, 7int,
{
    let (n, q) = next_or_end(ts, p);
    match n {
        Err(e) => (Err(e), q),
        Ok(SpecToken::Lbrace) => block_items(ts, q, seq![]),
        Ok(t) => (Err(SpecParsingError::UnexpectedToken(t)), q),
    }
}

/// The statements of a block after `acc`, up to its `}`.
pub open spec fn block_items(ts: Seq<SpecToken>, p: int, acc: Seq<SpecStatement>) -> Parsed<SpecStatement>
    decreases ts.len() - p, 6int,
{
    match peek(ts, p) {
        Some(SpecToken::Semicolon) => block_items(ts, p + 1, acc),
        Some(SpecToken::Rbrace) => (Ok(SpecStatement::BlockStatement(acc)), p + 1),
        Some(_) => {
            let (r, q) = statement(ts, p);
            match r {
                Err(e) => (Err(e), q),
                Ok(s) => if p < q <= ts.len() {
                    block_items(ts, q, acc.push(s))
                } else {
                    (Err(SpecParsingError::UnexpectedEof), q)
                },
            }
        },
        None => (Err(SpecParsingError::UnexpectedEof), p),
    }
}

/// The statement that begins with the token at `p`. After a `let` or a
/// `return` statement, and after an expression statement that fails, the
/// parse moves on to the next `;`.
pub open spec fn statement(ts: Seq<SpecToken>, p: int) -> Parsed<SpecStatement>
    decreases ts.len() - p, 5int,
{
    if 0 <= p < ts.len() {
        match ts[p] {
            SpecToken::Let => {
                let (r, q) = let_statement(ts, p + 1);
                (r, skip_to_semicolon(ts, q))
            },
            SpecToken::Return => {
                let (r, q) = return_statement(ts, p + 1);
                (r, skip_to_semicolon(ts, q))
            },
            t => {
                let (r, q) = expression_statement(ts, p + 1, t);
                match r {
                    Ok(s) => (Ok(s), q),
                    Err(e) => (Err(e), skip_to_semicolon(ts, q)),
                }
            },
        }
    } else {
        (Err(SpecParsingError::UnexpectedEof), p)
    }
}

/// The rest of `let <identifier> = <expression>`, which `;` must follow.
pub open spec fn let_statement(ts: Seq<SpecToken>, p: int) -> Parsed<SpecStatement>
    decreases ts.len() - p, 4int,
{
    let (n1, q1) = next_or_end(ts, p);
    match n1 {
        Err(e) => (Err(e), q1),
        Ok(SpecToken::Identifier(id)) => {
            let (n2, q2) = next_or_end(ts, q1);
            match n2 {
                Err(e) => (Err(e), q2),
                Ok(SpecToken::Assign) => {
                    let (n3, q3) = next_or_end(ts, q2);
                    match n3 {
                        Err(e) => (Err(e), q3),
                        Ok(next) => {
                            let (r, q4) = expression(ts, q3, next, Precedence::Lowest);
                            match r {
                                Err(e) => (Err(e), q4),
                                Ok(value) => match peek(ts, q4) {
                                    Some(SpecToken::Semicolon) => (
                                        Ok(SpecStatement::Let(SpecExpression::Identifier(id), value)),
                                        q4,
                                    ),
                                    Some(t) => (Err(SpecParsingError::UnexpectedToken(t)), q4),
                                    None => (Err(SpecParsingError::UnexpectedEof), q4),
                                },
                            }
                        },
                    }
                },
                Ok(t) => (Err(SpecParsingError::UnexpectedToken(t)), q2),
            }
        },
        Ok(t) => (Err(SpecParsingError::UnexpectedToken(t)), q1),
    }
}

/// The rest of `return <expression>`, which `;` must follow.
pub open spec fn return_statement(ts: Seq<SpecToken>, p: int) -> Parsed<SpecStatement>
    decreases ts.len() - p, 4int,
{
    let (n, q) = next_or_end(ts, p);
    match n {
        Err(e) => (Err(e), q),
        Ok(next) => {
            let (r, q2) = expression(ts, q, next, Precedence::Lowest);
            match r {
                Err(e) => (Err(e), q2),
                Ok(value) => match peek(ts, q2) {
                    Some(SpecToken::Semicolon) => (Ok(SpecStatement::Return(value)), q2),
                    Some(t) => (Err(SpecParsingError::UnexpectedToken(t)), q2),
                    None => (Err(SpecParsingError::UnexpectedEof), q2),
                },
            }
        },
    }
}

/// An expression used as a statement, whose first token was taken.
pub open spec fn expression_statement(ts: Seq<SpecToken>, p: int, token: SpecToken) -> Parsed<SpecStatement>
    decreases ts.len() - p, 11int,
{
    let (r, q) = expression(ts, p, token, Precedence::Lowest);
    match r {
        Err(e) => (Err(e), q),
        Ok(e) => (Ok(SpecStatement::Expression(e)), q),
    }
}

/// The statements from `p` on, after `stmts` parsed and `errors` found:
/// every statement is parsed, those that fail give their error, and the
/// program is its statements only when no statement failed.
pub open spec fn program_from(
    ts: Seq<SpecToken>,
    p: int,
    stmts: Seq<SpecStatement>,
    errors: Seq<SpecParsingError>,
) -> Result<Seq<SpecStatement>, Seq<SpecParsingError>>
    decreases ts.len() - p,
{
    match peek(ts, p) {
        Some(SpecToken::Semicolon) => program_from(ts, p + 1, stmts, errors),
        Some(_) => {
            let (r, q) = statement(ts, p);
            if p < q <= ts.len() {
                match r {
                    Ok(s) => program_from(ts, q, stmts.push(s), errors),
                    Err(e) => program_from(ts, q, stmts, errors.push(e)),
                }
            } else {
                Err(errors)
            }
        },
        None => if errors.len() > 0 {
            Err(errors)
        } else {
            Ok(stmts)
        },
    }
}

/// One step of `block_items` at a token that begins a statement.
pub proof fn lemma_block_items_statement(ts: Seq<SpecToken>, p: int, acc: Seq<SpecStatement>)
    requires
        peek(ts, p) is Some,
        peek(ts, p) != Some(SpecToken::Semicolon),
        peek(ts, p) != Some(SpecToken::Rbrace),
    ensures
        block_items(ts, p, acc) == ({
            let (r, q) = statement(ts, p);
            match r {
                Err(e) => (Err(e), q),
                Ok(s) => if p < q <= ts.len() {
                    block_items(ts, q, acc.push(s))
                } else {
                    (Err(SpecParsingError::UnexpectedEof), q)
                },
            }
        }),
{
}

/// A statement that begins at `p` adds exactly its own result to the program:
/// its statement, or its one error, and parsing goes on where it ended.
pub proof fn lemma_program_from_statement(
    ts: Seq<SpecToken>,
    p: int,
    stmts: Seq<SpecStatement>,
    errors: Seq<SpecParsingError>,
)
    requires
        peek(ts, p) is Some,
        peek(ts, p) != Some(SpecToken::Semicolon),
        p < statement(ts, p).1 <= ts.len(),
    ensures
        program_from(ts, p, stmts, errors) == match statement(ts, p).0 {
            Ok(s) => program_from(ts, statement(ts, p).1, stmts.push(s), errors),
            Err(e) => program_from(ts, statement(ts, p).1, stmts, errors.push(e)),
        },
{
}

/// What parsing the tokens `ts` as a program gives.
pub open spec fn program(ts: Seq<SpecToken>) -> Result<Seq<SpecStatement>, Seq<SpecParsingError>> {
    program_from(ts, 0, seq![], seq![])
}

} // verus!
