//! The parse reads forward: each parsing function ends at or after the
//! position where it began and never past the end of the tokens, and a
//! statement always takes at least one token. So the branches of the grammar
//! that test whether a position moved are never taken.
use super::ast::{SpecExpression, SpecStatement};
use super::grammar::{
    block_items, block_statement, call_arguments, call_expression, expression, expression_start,
    expression_statement, function_literal, grouped_expression, if_expression, infix_expression,
    infix_loop, infix_operator, let_statement, next_or_end, parameter_list, parameters, peek,
    prefix_expression, return_statement, skip_to_semicolon, statement,
};
use super::precedence::Precedence;
use super::SpecParsingError;
use crate::lexer::token::SpecToken;
use vstd::prelude::*;

verus! {

/// Where a parse that begins at `p` may end.
pub open spec fn within(ts: Seq<SpecToken>, p: int, q: int) -> bool {
    p <= q <= ts.len()
}

pub proof fn lemma_skip_to_semicolon(ts: Seq<SpecToken>, p: int)
    requires
        0 <= p <= ts.len(),
    ensures
        within(ts, p, skip_to_semicolon(ts, p)),
    decreases ts.len() - p,
{
    if peek(ts, p) is Some && peek(ts, p) != Some(SpecToken::Semicolon) {
        lemma_skip_to_semicolon(ts, p + 1);
    }
}

pub proof fn lemma_parameter_list(ts: Seq<SpecToken>, p: int, acc: Seq<SpecExpression>)
    requires
        0 <= p <= ts.len(),
    ensures
        within(ts, p, parameter_list(ts, p, acc).1),
    decreases ts.len() - p,
{
    let (n, q) = next_or_end(ts, p);
    if let Ok(SpecToken::Identifier(id)) = n {
        if peek(ts, q) == Some(SpecToken::Comma) {
            lemma_parameter_list(ts, q + 1, acc.push(SpecExpression::Identifier(id)));
        }
    }
}

pub proof fn lemma_parameters(ts: Seq<SpecToken>, p: int)
    requires
        0 <= p <= ts.len(),
    ensures
        within(ts, p, parameters(ts, p).1),
        parameters(ts, p).0 is Ok ==> p < parameters(ts, p).1,
{
    let (n, q) = next_or_end(ts, p);
    if n == Ok::<SpecToken, SpecParsingError>(SpecToken::Lparen) {
        lemma_parameter_list(ts, q, seq![]);
    }
}

pub proof fn lemma_expression_start(ts: Seq<SpecToken>, p: int, token: SpecToken)
    requires
        0 <= p <= ts.len(),
    ensures
        within(ts, p, expression_start(ts, p, token).1),
    decreases ts.len() - p, 9int,
{
    match token {
        SpecToken::Bang | SpecToken::Minus => lemma_prefix_expression(ts, p, token),
        SpecToken::Lparen => lemma_grouped_expression(ts, p),
        SpecToken::If => lemma_if_expression(ts, p),
        SpecToken::Function => lemma_function_literal(ts, p),
        _ => {},
    }
}

/// An expression ends at or after where it begins, and within the tokens.
pub proof fn lemma_expression(ts: Seq<SpecToken>, p: int, token: SpecToken, precedence: Precedence)
    requires
        0 <= p <= ts.len(),
    ensures
        within(ts, p, expression(ts, p, token, precedence).1),
    decreases ts.len() - p, 10int,
{
    lemma_expression_start(ts, p, token);
    let (first, q) = expression_start(ts, p, token);
    if let Ok(left) = first {
        lemma_infix_loop(ts, q, precedence, left);
    }
}

pub proof fn lemma_infix_loop(ts: Seq<SpecToken>, p: int, precedence: Precedence, left: SpecExpression)
    requires
        0 <= p <= ts.len(),
    ensures
        within(ts, p, infix_loop(ts, p, precedence, left).1),
    decreases ts.len() - p, 9int,
{
    if let Some(right) = peek(ts, p) {
        if right != SpecToken::Semicolon && precedence.level() < Precedence::of(right).level() {
            if right == SpecToken::Lparen || infix_operator(right) is Some {
                let (r, q) = if right == SpecToken::Lparen {
                    lemma_call_expression(ts, p + 1, left);
                    call_expression(ts, p + 1, left)
                } else {
                    lemma_infix_expression(ts, p + 1, left, right);
                    infix_expression(ts, p + 1, left, right)
                };
                if let Ok(next) = r {
                    lemma_infix_loop(ts, q, precedence, next);
                }
            }
        }
    }
}

pub proof fn lemma_prefix_expression(ts: Seq<SpecToken>, p: int, token: SpecToken)
    requires
        0 <= p <= ts.len(),
    ensures
        within(ts, p, prefix_expression(ts, p, token).1),
    decreases ts.len() - p, 8int,
{
    let (n, q) = next_or_end(ts, p);
    if let Ok(next) = n {
        lemma_expression(ts, q, next, Precedence::Prefix);
    }
}

pub proof fn lemma_grouped_expression(ts: Seq<SpecToken>, p: int)
    requires
        0 <= p <= ts.len(),
    ensures
        within(ts, p, grouped_expression(ts, p).1),
    decreases ts.len() - p, 8int,
{
    let (n, q) = next_or_end(ts, p);
    if let Ok(next) = n {
        lemma_expression(ts, q, next, Precedence::Lowest);
    }
}

pub proof fn lemma_if_expression(ts: Seq<SpecToken>, p: int)
    requires
        0 <= p <= ts.len(),
    ensures
        within(ts, p, if_expression(ts, p).1),
    decreases ts.len() - p, 8int,
{
    let (n, q) = next_or_end(ts, p);
    if n == Ok::<SpecToken, SpecParsingError>(SpecToken::Lparen) {
        lemma_expression(ts, q, SpecToken::Lparen, Precedence::Lowest);
        let (c, q2) = expression(ts, q, SpecToken::Lparen, Precedence::Lowest);
        if c is Ok {
            lemma_block_statement(ts, q2);
            let (b, q3) = block_statement(ts, q2);
            if b is Ok && peek(ts, q3) == Some(SpecToken::Else) {
                lemma_block_statement(ts, q3 + 1);
            }
        }
    }
}

pub proof fn lemma_function_literal(ts: Seq<SpecToken>, p: int)
    requires
        0 <= p <= ts.len(),
    ensures
        within(ts, p, function_literal(ts, p).1),
    decreases ts.len() - p, 8int,
{
    lemma_parameters(ts, p);
    let (ps, q) = parameters(ts, p);
    if ps is Ok {
        lemma_block_statement(ts, q);
    }
}

pub proof fn lemma_infix_expression(ts: Seq<SpecToken>, p: int, left: SpecExpression, operator: SpecToken)
    requires
        0 <= p <= ts.len(),
    ensures
        within(ts, p, infix_expression(ts, p, left, operator).1),
    decreases ts.len() - p, 8int,
{
    let (n, q) = next_or_end(ts, p);
    if let Ok(next) = n {
        lemma_expression(ts, q, next, Precedence::of(operator));
    }
}

pub proof fn lemma_call_expression(ts: Seq<SpecToken>, p: int, left: SpecExpression)
    requires
        0 <= p <= ts.len(),
    ensures
        within(ts, p, call_expression(ts, p, left).1),
    decreases ts.len() - p, 8int,
{
    if peek(ts, p) != Some(SpecToken::Rparen) {
        let (n, q) = next_or_end(ts, p);
        if let Ok(next) = n {
            lemma_expression(ts, q, next, Precedence::Lowest);
            let (r, q2) = expression(ts, q, next, Precedence::Lowest);
            if let Ok(first) = r {
                lemma_call_arguments(ts, q2, left, seq![first]);
            }
        }
    }
}

pub proof fn lemma_call_arguments(ts: Seq<SpecToken>, p: int, left: SpecExpression, args: Seq<SpecExpression>)
    requires
        0 <= p <= ts.len(),
    ensures
        within(ts, p, call_arguments(ts, p, left, args).1),
    decreases ts.len() - p, 7int,
{
    if peek(ts, p) == Some(SpecToken::Comma) {
        let (n, q) = next_or_end(ts, p + 1);
        if let Ok(next) = n {
            lemma_expression(ts, q, next, Precedence::Lowest);
            let (r, q2) = expression(ts, q, next, Precedence::Lowest);
            if let Ok(arg) = r {
                lemma_call_arguments(ts, q2, left, args.push(arg));
            }
        }
    }
}

pub proof fn lemma_block_statement(ts: Seq<SpecToken>, p: int)
    requires
        0 <= p <= ts.len(),
    ensures
        within(ts, p, block_statement(ts, p).1),
        block_statement(ts, p).0 is Ok ==> p < block_statement(ts, p).1,
    decreases ts.len() - p, 7int,
{
    let (n, q) = next_or_end(ts, p);
    if n == Ok::<SpecToken, SpecParsingError>(SpecToken::Lbrace) {
        lemma_block_items(ts, q, seq![]);
    }
}

pub proof fn lemma_block_items(ts: Seq<SpecToken>, p: int, acc: Seq<SpecStatement>)
    requires
        0 <= p <= ts.len(),
    ensures
        within(ts, p, block_items(ts, p, acc).1),
        block_items(ts, p, acc).0 is Ok ==> p < block_items(ts, p, acc).1,
    decreases ts.len() - p, 6int,
{
    match peek(ts, p) {
        Some(SpecToken::Semicolon) => lemma_block_items(ts, p + 1, acc),
        Some(SpecToken::Rbrace) => {},
        Some(_) => {
            lemma_statement(ts, p);
            let (r, q) = statement(ts, p);
            if let Ok(s) = r {
                lemma_block_items(ts, q, acc.push(s));
            }
        },
        None => {},
    }
}

/// A statement takes at least one token and ends within the tokens.
pub proof fn lemma_statement(ts: Seq<SpecToken>, p: int)
    requires
        0 <= p < ts.len(),
    ensures
        p < statement(ts, p).1 <= ts.len(),
    decreases ts.len() - p, 5int,
{
    match ts[p] {
        SpecToken::Let => {
            lemma_let_statement(ts, p + 1);
            lemma_skip_to_semicolon(ts, let_statement(ts, p + 1).1);
        },
        SpecToken::Return => {
            lemma_return_statement(ts, p + 1);
            lemma_skip_to_semicolon(ts, return_statement(ts, p + 1).1);
        },
        t => {
            lemma_expression_statement(ts, p + 1, t);
            lemma_skip_to_semicolon(ts, expression_statement(ts, p + 1, t).1);
        },
    }
}

pub proof fn lemma_let_statement(ts: Seq<SpecToken>, p: int)
    requires
        0 <= p <= ts.len(),
    ensures
        within(ts, p, let_statement(ts, p).1),
    decreases ts.len() - p, 4int,
{
    let (n1, q1) = next_or_end(ts, p);
    if let Ok(SpecToken::Identifier(id)) = n1 {
        let (n2, q2) = next_or_end(ts, q1);
        if n2 == Ok::<SpecToken, SpecParsingError>(SpecToken::Assign) {
            let (n3, q3) = next_or_end(ts, q2);
            if let Ok(next) = n3 {
                lemma_expression(ts, q3, next, Precedence::Lowest);
            }
        }
    }
}

pub proof fn lemma_return_statement(ts: Seq<SpecToken>, p: int)
    requires
        0 <= p <= ts.len(),
    ensures
        within(ts, p, return_statement(ts, p).1),
    decreases ts.len() - p, 4int,
{
    let (n, q) = next_or_end(ts, p);
    if let Ok(next) = n {
        lemma_expression(ts, q, next, Precedence::Lowest);
    }
}

pub proof fn lemma_expression_statement(ts: Seq<SpecToken>, p: int, token: SpecToken)
    requires
        0 <= p <= ts.len(),
    ensures
        within(ts, p, expression_statement(ts, p, token).1),
    decreases ts.len() - p, 11int,
{
    lemma_expression(ts, p, token, Precedence::Lowest);
}

} // verus!
