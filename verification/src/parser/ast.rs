use vstd::prelude::*;

verus! {

/// A prefix operator.
#[derive(Debug, PartialEq, Eq, Clone, Copy)]
pub enum Prefix {
    Bang,
    Minus,
}

/// An infix operator.
#[derive(Debug, PartialEq, Eq, Clone, Copy)]
pub enum Infix {
    Plus,
    Minus,
    Multiply,
    Divide,
    LessThan,
    GreaterThan,
    Equal,
    NotEqual,
}

/// An expression of the language.
#[derive(Debug, PartialEq)]
pub enum Expression {
    Identifier(String),
    Integer(i64),
    Boolean(bool),
    Prefix(Prefix, Box<Expression>),
    Infix(Box<Expression>, Infix, Box<Expression>),
    If(Box<Expression>, Box<Statement>, Option<Box<Statement>>),
    Function(Vec<Expression>, Box<Statement>),
    Call(Box<Expression>, Vec<Expression>),
}

/// A statement of the language.
#[derive(Debug, PartialEq)]
pub enum Statement {
    Let(Expression, Expression),
    Return(Expression),
    Expression(Expression),
    BlockStatement(Vec<Statement>),
}

/// A whole program: its statements in order.
#[derive(Debug, PartialEq)]
pub struct Program(pub Vec<Statement>);

/// What an expression is, with names as characters and lists as sequences.
pub enum SpecExpression {
    Identifier(Seq<char>),
    Integer(i64),
    Boolean(bool),
    Prefix(Prefix, Box<SpecExpression>),
    Infix(Box<SpecExpression>, Infix, Box<SpecExpression>),
    If(Box<SpecExpression>, Box<SpecStatement>, Option<Box<SpecStatement>>),
    Function(Seq<SpecExpression>, Box<SpecStatement>),
    Call(Box<SpecExpression>, Seq<SpecExpression>),
}

/// What a statement is.
pub enum SpecStatement {
    Let(SpecExpression, SpecExpression),
    Return(SpecExpression),
    Expression(SpecExpression),
    BlockStatement(Seq<SpecStatement>),
}

pub open spec fn expressions_view(es: Seq<Expression>) -> Seq<SpecExpression>
    decreases es,
{
    Seq::new(es.len(), |i: int| if 0 <= i < es.len() { expression_view(es[i]) } else { SpecExpression::Boolean(false) })
}

pub open spec fn statements_view(ss: Seq<Statement>) -> Seq<SpecStatement>
    decreases ss,
{
    Seq::new(ss.len(), |i: int| if 0 <= i < ss.len() { statement_view(ss[i]) } else { SpecStatement::BlockStatement(seq![]) })
}

pub open spec fn expression_view(e: Expression) -> SpecExpression
    decreases e,
{
    match e {
        Expression::Identifier(id) => SpecExpression::Identifier(id@),
        Expression::Integer(n) => SpecExpression::Integer(n),
        Expression::Boolean(b) => SpecExpression::Boolean(b),
        Expression::Prefix(p, r) => SpecExpression::Prefix(p, Box::new(expression_view(*r))),
        Expression::Infix(l, op, r) => SpecExpression::Infix(Box::new(expression_view(*l)), op, Box::new(expression_view(*r))),
        Expression::If(c, t, f) => SpecExpression::If(
            Box::new(expression_view(*c)),
            Box::new(statement_view(*t)),
            match f {
                Some(f) => Some(Box::new(statement_view(*f))),
                None => None,
            },
        ),
        Expression::Function(ps, body) => SpecExpression::Function(expressions_view(ps@), Box::new(statement_view(*body))),
        Expression::Call(f, args) => SpecExpression::Call(Box::new(expression_view(*f)), expressions_view(args@)),
    }
}

pub open spec fn statement_view(s: Statement) -> SpecStatement
    decreases s,
{
    match s {
        Statement::Let(n, e) => SpecStatement::Let(expression_view(n), expression_view(e)),
        Statement::Return(e) => SpecStatement::Return(expression_view(e)),
        Statement::Expression(e) => SpecStatement::Expression(expression_view(e)),
        Statement::BlockStatement(ss) => SpecStatement::BlockStatement(statements_view(ss@)),
    }
}

impl View for Expression {
    type V = SpecExpression;

    open spec fn view(&self) -> SpecExpression {
        expression_view(*self)
    }
}

impl View for Statement {
    type V = SpecStatement;

    open spec fn view(&self) -> SpecStatement {
        statement_view(*self)
    }
}

impl View for Program {
    type V = Seq<SpecStatement>;

    open spec fn view(&self) -> Seq<SpecStatement> {
        statements_view(self.0@)
    }
}

pub proof fn lemma_expressions_view_push(es: Seq<Expression>, e: Expression)
    ensures
        expressions_view(es.push(e)) == expressions_view(es).push(expression_view(e)),
{
    assert(expressions_view(es.push(e)) =~= expressions_view(es).push(expression_view(e)));
}

pub proof fn lemma_statements_view_push(ss: Seq<Statement>, s: Statement)
    ensures
        statements_view(ss.push(s)) == statements_view(ss).push(statement_view(s)),
{
    assert(statements_view(ss.push(s)) =~= statements_view(ss).push(statement_view(s)));
}

pub proof fn lemma_expressions_view_empty()
    ensures
        expressions_view(Seq::<Expression>::empty()) == Seq::<SpecExpression>::empty(),
{
    assert(expressions_view(Seq::<Expression>::empty()) =~= Seq::<SpecExpression>::empty());
}

pub proof fn lemma_statements_view_empty()
    ensures
        statements_view(Seq::<Statement>::empty()) == Seq::<SpecStatement>::empty(),
{
    assert(statements_view(Seq::<Statement>::empty()) =~= Seq::<SpecStatement>::empty());
}

} // verus!
