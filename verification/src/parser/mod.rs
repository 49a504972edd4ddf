pub mod ast;
pub mod grammar;
pub mod integer;
pub mod laws;
pub mod progress;
pub mod precedence;

use self::ast::{
    Expression, Infix, Prefix, Program, SpecExpression, SpecStatement, Statement, expression_view,
    expressions_view, statement_view, statements_view,
};
use self::precedence::Precedence;
use crate::lexer::token::{SpecToken, Token, tokens_view};
use crate::lexer::{lex, tokenize};
use vstd::prelude::*;

verus! {

#[derive(Debug, PartialEq)]
pub enum ParsingError {
    UnexpectedToken(Token),
    UnexpectedEof,
    UnexpectedSemicolon,
    InvalidPrefixOperator(Token),
    InvalidInteger(String),
    Generic(String),
}

/// What a parsing error is.
pub enum SpecParsingError {
    UnexpectedToken(SpecToken),
    UnexpectedEof,
    UnexpectedSemicolon,
    InvalidPrefixOperator(SpecToken),
    InvalidInteger(Seq<char>),
    Generic(Seq<char>),
}

impl View for ParsingError {
    type V = SpecParsingError;

    open spec fn view(&self) -> SpecParsingError {
        match self {
            ParsingError::UnexpectedToken(t) => SpecParsingError::UnexpectedToken(t@),
            ParsingError::UnexpectedEof => SpecParsingError::UnexpectedEof,
            ParsingError::UnexpectedSemicolon => SpecParsingError::UnexpectedSemicolon,
            ParsingError::InvalidPrefixOperator(t) => SpecParsingError::InvalidPrefixOperator(t@),
            ParsingError::InvalidInteger(s) => SpecParsingError::InvalidInteger(s@),
            ParsingError::Generic(s) => SpecParsingError::Generic(s@),
        }
    }
}

impl SpecParsingError {
    /// The message that describes the error.
    pub open spec fn message(self) -> Seq<char> {
        match self {
            SpecParsingError::UnexpectedToken(t) => "Unexpected token: '"@ + t.text() + "'"@,
            SpecParsingError::UnexpectedEof => "Unexpected EOF"@,
            SpecParsingError::UnexpectedSemicolon => "Unexpected end of statement: ';'"@,
            SpecParsingError::InvalidPrefixOperator(t) => "'"@ + t.text() + "' is not a valid prefix operator"@,
            SpecParsingError::InvalidInteger(s) => "Cannot parse '"@ + s + "' as a valid integer"@,
            SpecParsingError::Generic(s) => s,
        }
    }
}

impl ParsingError {
    /// The message that describes the error.
    pub fn to_string(&self) -> (s: String)
        ensures
            s@ == self@.message(),
    {
        match self {
            ParsingError::UnexpectedToken(token) => String::from_str("Unexpected token: '").concat(
                token.to_string().as_str(),
            ).concat("'"),
            ParsingError::UnexpectedEof => String::from_str("Unexpected EOF"),
            ParsingError::UnexpectedSemicolon => String::from_str("Unexpected end of statement: ';'"),
            ParsingError::InvalidPrefixOperator(token) => String::from_str("'").concat(
                token.to_string().as_str(),
            ).concat("' is not a valid prefix operator"),
            ParsingError::InvalidInteger(string) => String::from_str("Cannot parse '").concat(
                string.as_str(),
            ).concat("' as a valid integer"),
            ParsingError::Generic(string) => string.clone(),
        }
    }
}

pub open spec fn errors_view(es: Seq<ParsingError>) -> Seq<SpecParsingError> {
    es.map_values(|e: ParsingError| e@)
}

pub open spec fn expression_result(r: Result<Expression, ParsingError>) -> Result<SpecExpression, SpecParsingError> {
    match r {
        Ok(e) => Ok(expression_view(e)),
        Err(e) => Err(e@),
    }
}

pub open spec fn expressions_result(r: Result<Vec<Expression>, ParsingError>) -> Result<Seq<SpecExpression>, SpecParsingError> {
    match r {
        Ok(es) => Ok(expressions_view(es@)),
        Err(e) => Err(e@),
    }
}

pub open spec fn statement_result(r: Result<Statement, ParsingError>) -> Result<SpecStatement, SpecParsingError> {
    match r {
        Ok(s) => Ok(statement_view(s)),
        Err(e) => Err(e@),
    }
}

pub open spec fn token_result(r: Result<Token, ParsingError>) -> Result<SpecToken, SpecParsingError> {
    match r {
        Ok(t) => Ok(t@),
        Err(e) => Err(e@),
    }
}

pub open spec fn program_result(r: Result<Program, Vec<ParsingError>>) -> Result<Seq<SpecStatement>, Seq<SpecParsingError>> {
    match r {
        Ok(p) => Ok(p@),
        Err(es) => Err(errors_view(es@)),
    }
}

/// A parser over the tokens of a program, at a position among them.
pub struct Parser<'a> {
    tokens: &'a [Token],
    pos: usize,
}

impl<'a> Parser<'a> {
    spec fn toks(&self) -> Seq<SpecToken> {
        tokens_view(self.tokens@)
    }

    spec fn wf(&self) -> bool {
        self.pos <= self.tokens@.len()
    }

    /// `after` reads the same tokens as `before`, no earlier than it.
    spec fn moved_on(before: Parser<'a>, after: Parser<'a>) -> bool {
        &&& after.tokens == before.tokens
        &&& before.pos <= after.pos <= after.tokens@.len()
    }

    /// Parses a program's text: every statement is parsed, and the program
    /// is returned when none failed, else the errors of those that failed.
    #[verifier::rlimit(50)]
    pub fn parse_program(program: &str) -> (r: Result<Program, Vec<ParsingError>>)
        ensures
            program_result(r) == grammar::program(lex(program@)),
    {
        let tokens = tokenize(program);
        let mut parser = Parser { tokens: tokens.as_slice(), pos: 0 };
        let ghost ts = parser.toks();

        let mut program = vec![];
        let mut errors = vec![];

        proof {
            ast::lemma_statements_view_empty();
            assert(errors_view(errors@) =~= Seq::<SpecParsingError>::empty());
        }
        loop
            invariant
                parser.toks() == ts,
                parser.wf(),
                grammar::program_from(ts, parser.pos as int, statements_view(program@), errors_view(errors@))
                    == grammar::program(ts),
            ensures
                parser.pos == parser.tokens@.len(),
                grammar::program_from(ts, parser.pos as int, statements_view(program@), errors_view(errors@))
                    == grammar::program(ts),
            decreases parser.tokens@.len() - parser.pos,
        {
            let token = match parser.peek() {
                Some(Token::Semicolon) => {
                    parser.advance();
                    continue;
                },
                Some(tok) => tok.clone(),
                None => break,
            };

            let ghost p = parser.pos as int;
            let ghost done = statements_view(program@);
            let ghost failed = errors_view(errors@);
            let result = parser.parse_statement(&token);
            proof {
                grammar::lemma_program_from_statement(ts, p, done, failed);
            }
            match result {
                Ok(statement) => {
                    proof {
                        ast::lemma_statements_view_push(program@, statement);
                    }
                    program.push(statement)
                },
                Err(error) => {
                    proof {
                        assert(errors_view(errors@.push(error)) =~= errors_view(errors@).push(error@));
                    }
                    errors.push(error)
                },
            }
        }

        if errors.len() > 0 {
            Err(errors)
        } else {
            proof {
                assert(errors_view(errors@) =~= Seq::<SpecParsingError>::empty());
            }
            Ok(Program(program))
        }
    }

    /// The next token, left in place.
    fn peek(&self) -> (r: Option<&'a Token>)
        ensures
            match r {
                Some(t) => self.pos < self.tokens@.len() && *t == self.tokens@[self.pos as int]
                    && grammar::peek(self.toks(), self.pos as int) == Some(t@),
                None => self.pos >= self.tokens@.len() && grammar::peek(self.toks(), self.pos as int) is None,
            },
    {
        let tokens: &'a [Token] = self.tokens;
        if self.pos < tokens.len() {
            Some(&tokens[self.pos])
        } else {
            None
        }
    }

    /// Takes the next token, if there is one.
    fn advance(&mut self) -> (r: Option<Token>)
        requires
            old(self).wf(),
        ensures
            final(self).tokens == old(self).tokens,
            final(self).wf(),
            match r {
                Some(t) => old(self).pos < old(self).tokens@.len() && t == old(self).tokens@[old(self).pos as int]
                    && final(self).pos == old(self).pos + 1,
                None => old(self).pos == old(self).tokens@.len() && final(self).pos == old(self).pos,
            },
    {
        if self.pos < self.tokens.len() {
            let t = self.tokens[self.pos].clone();
            self.pos = self.pos + 1;
            Some(t)
        } else {
            None
        }
    }

    fn parse_statement(&mut self, token: &Token) -> (r: Result<Statement, ParsingError>)
        requires
            old(self).wf(),
            old(self).pos < old(self).tokens@.len(),
            *token == old(self).tokens@[old(self).pos as int],
        ensures
            Self::moved_on(*old(self), *final(self)),
            (statement_result(r), final(self).pos as int) == grammar::statement(old(self).toks(), old(self).pos as int),
            old(self).pos < final(self).pos,
        decreases old(self).tokens@.len() - old(self).pos, 5int,
    {
        self.advance();
        match token {
            Token::Let => {
                let r = self.parse_let();
                self.skip_to_semicolon();
                r
            },
            Token::Return => {
                let r = self.parse_return();
                self.skip_to_semicolon();
                r
            },
            t => match self.parse_expression_statement(t) {
                Ok(s) => Ok(s),
                Err(e) => {
                    self.skip_to_semicolon();
                    Err(e)
                },
            },
        }
    }

    fn parse_let(&mut self) -> (r: Result<Statement, ParsingError>)
        requires
            old(self).wf(),
        ensures
            Self::moved_on(*old(self), *final(self)),
            (statement_result(r), final(self).pos as int) == grammar::let_statement(old(self).toks(), old(self).pos as int),
        decreases old(self).tokens@.len() - old(self).pos, 4int,
    {
        // after 'let' next token should be an identifier
        let identifier = Expression::Identifier(
            match self.next_token_or_end()? {
                Token::Identifier(id) => id,
                token => return Err(ParsingError::UnexpectedToken(token)),
            },
        );

        // after identifier next token should be '='
        match self.next_token_or_end()? {
            Token::Assign => {},
            token => return Err(ParsingError::UnexpectedToken(token)),
        };

        // after '=' next token should be the start of an expression, which
        // means it should not be ';' or EOF
        let token = self.next_token_or_end()?;

        let expression = match self.parse_expression(&token, Precedence::Lowest) {
            Ok(exp) => exp,
            Err(e) => return Err(e),
        };

        // after expression next token should be ';'
        match self.peek() {
            Some(Token::Semicolon) => {},
            Some(token) => return Err(ParsingError::UnexpectedToken(token.clone())),
            None => return Err(ParsingError::UnexpectedEof),
        }

        Ok(Statement::Let(identifier, expression))
    }

    fn parse_return(&mut self) -> (r: Result<Statement, ParsingError>)
        requires
            old(self).wf(),
        ensures
            Self::moved_on(*old(self), *final(self)),
            (statement_result(r), final(self).pos as int) == grammar::return_statement(old(self).toks(), old(self).pos as int),
        decreases old(self).tokens@.len() - old(self).pos, 4int,
    {
        // after 'return' next token should be beginning of expression, which
        // means it should not be ';' or EOF
        let token = self.next_token_or_end()?;

        let expression = match self.parse_expression(&token, Precedence::Lowest) {
            Ok(exp) => exp,
            Err(e) => return Err(e),
        };

        // after expression next token should be ';'
        match self.peek() {
            Some(Token::Semicolon) => {},
            Some(token) => return Err(ParsingError::UnexpectedToken(token.clone())),
            None => return Err(ParsingError::UnexpectedEof),
        };

        Ok(Statement::Return(expression))
    }

    fn parse_expression_statement(&mut self, token: &Token) -> (r: Result<Statement, ParsingError>)
        requires
            old(self).wf(),
        ensures
            Self::moved_on(*old(self), *final(self)),
            (statement_result(r), final(self).pos as int)
                == grammar::expression_statement(old(self).toks(), old(self).pos as int, token@),
        decreases old(self).tokens@.len() - old(self).pos, 11int,
    {
        let expression = match self.parse_expression(token, Precedence::Lowest) {
            Ok(s) => s,
            Err(e) => return Err(e),
        };

        Ok(Statement::Expression(expression))
    }

    fn parse_block_statement(&mut self) -> (r: Result<Statement, ParsingError>)
        requires
            old(self).wf(),
        ensures
            Self::moved_on(*old(self), *final(self)),
            (statement_result(r), final(self).pos as int) == grammar::block_statement(old(self).toks(), old(self).pos as int),
            r is Ok ==> old(self).pos < final(self).pos,
        decreases old(self).tokens@.len() - old(self).pos, 7int,
    {
        let ghost ts = self.toks();
        let ghost p = self.pos as int;
        // expect first token of block to be '{'
        match self.next_token_or_end()? {
            Token::Lbrace => {},
            token => return Err(ParsingError::UnexpectedToken(token)),
        }

        let mut block = vec![];
        proof {
            ast::lemma_statements_view_empty();
        }

        loop
            invariant
                self.toks() == ts,
                ts == old(self).toks(),
                p == old(self).pos,
                self.tokens == old(self).tokens,
                self.wf(),
                p < self.pos,
                grammar::block_items(ts, self.pos as int, statements_view(block@))
                    == grammar::block_statement(ts, p),
            decreases self.tokens@.len() - self.pos,
        {
            let token = match self.peek() {
                Some(Token::Semicolon) => {
                    self.advance();
                    continue;
                },
                Some(tok) => tok.clone(),
                None => return Err(ParsingError::UnexpectedEof),
            };

            if matches!(token, Token::Rbrace) {
                // expect last token of block to be '}'
                match self.next_token_or_end()? {
                    Token::Rbrace => {},
                    token => return Err(ParsingError::UnexpectedToken(token)),
                }
                return Ok(Statement::BlockStatement(block));
            } else {
                proof {
                    grammar::lemma_block_items_statement(ts, self.pos as int, statements_view(block@));
                }
                let result = self.parse_statement(&token)?;
                proof {
                    ast::lemma_statements_view_push(block@, result);
                }
                block.push(result)
            }
        }
    }

    fn next_token_or_end(&mut self) -> (r: Result<Token, ParsingError>)
        requires
            old(self).wf(),
        ensures
            Self::moved_on(*old(self), *final(self)),
            (token_result(r), final(self).pos as int) == grammar::next_or_end(old(self).toks(), old(self).pos as int),
            r matches Ok(t) ==> t == old(self).tokens@[old(self).pos as int],
    {
        match self.peek() {
            Some(Token::Semicolon) => Err(ParsingError::UnexpectedSemicolon),
            Some(_) => Ok(self.advance().unwrap()),  // unwrap safe since peeked value is Some
            None => Err(ParsingError::UnexpectedEof),
        }
    }

    fn skip_to_semicolon(&mut self)
        requires
            old(self).wf(),
        ensures
            Self::moved_on(*old(self), *final(self)),
            final(self).pos as int == grammar::skip_to_semicolon(old(self).toks(), old(self).pos as int),
    {
        let ghost ts = self.toks();
        let ghost p = self.pos as int;
        loop
            invariant
                self.toks() == ts,
                ts == old(self).toks(),
                p == old(self).pos,
                self.tokens == old(self).tokens,
                self.wf(),
                p <= self.pos,
                grammar::skip_to_semicolon(ts, self.pos as int) == grammar::skip_to_semicolon(ts, p),
            decreases self.tokens@.len() - self.pos,
        {
            match self.peek() {
                Some(token) => {
                    if !matches!(token, Token::Semicolon) {
                        self.advance();
                    } else {
                        return;
                    }
                },
                None => return,
            }
        }
    }

    fn parse_expression(&mut self, token: &Token, precedence: Precedence) -> (r: Result<Expression, ParsingError>)
        requires
            old(self).wf(),
        ensures
            Self::moved_on(*old(self), *final(self)),
            (expression_result(r), final(self).pos as int)
                == grammar::expression(old(self).toks(), old(self).pos as int, token@, precedence),
        decreases old(self).tokens@.len() - old(self).pos, 10int,
    {
        let ghost ts = self.toks();
        let ghost p = self.pos as int;
        // prefix parse functions
        let mut left_expression = match token {
            Token::Identifier(id) => Self::parse_identifier(id),
            Token::Int(digits) => Self::parse_integer(digits),
            Token::Bang | Token::Minus => self.parse_prefix_expression(&token),
            Token::True => Parser::parse_boolean(true),
            Token::False => Parser::parse_boolean(false),
            Token::Lparen => self.parse_grouped_expression(),
            Token::If => self.parse_if_expression(),
            Token::Function => self.parse_function_literal(),
            _ => return Err(ParsingError::InvalidPrefixOperator(token.clone())),
        }?;

        loop
            invariant
                self.toks() == ts,
                ts == old(self).toks(),
                p == old(self).pos,
                self.tokens == old(self).tokens,
                self.wf(),
                p <= self.pos,
                grammar::infix_loop(ts, self.pos as int, precedence, expression_view(left_expression))
                    == grammar::expression(ts, p, token@, precedence),
            decreases self.tokens@.len() - self.pos,
        {
            let right = match self.peek() {
                Some(Token::Semicolon) | None => return Ok(left_expression),
                Some(tok) => tok.clone(),
            };

            if precedence.lower_than(&Precedence::get_precedence(&right)) {
                let operator = self.next_token_or_end()?;
                // infix parse functions
                left_expression = match right {
                    Token::Plus
                    | Token::Minus
                    | Token::Asterisk
                    | Token::Slash
                    | Token::Lt
                    | Token::Gt
                    | Token::Eq
                    | Token::Noteq => self.parse_infix_expression(left_expression, &operator)?,
                    Token::Lparen => self.parse_call_expression(left_expression, &operator)?,
                    _ => return Ok(left_expression),
                }
            } else {
                return Ok(left_expression);
            }
        }
    }

    fn parse_identifier(id: &str) -> (r: Result<Expression, ParsingError>)
        ensures
            expression_result(r) == Ok::<SpecExpression, SpecParsingError>(SpecExpression::Identifier(id@)),
    {
        Ok(Expression::Identifier(String::from_str(id)))
    }

    fn parse_integer(digits: &str) -> (r: Result<Expression, ParsingError>)
        ensures
            expression_result(r) == grammar::parse_integer(digits@),
    {
        match integer::parse_i64(digits) {
            Some(n) => Ok(Expression::Integer(n)),
            None => Err(ParsingError::InvalidInteger(String::from_str(digits))),
        }
    }

    fn parse_boolean(val: bool) -> (r: Result<Expression, ParsingError>)
        ensures
            expression_result(r) == Ok::<SpecExpression, SpecParsingError>(SpecExpression::Boolean(val)),
    {
        Ok(Expression::Boolean(val))
    }

    fn parse_grouped_expression(&mut self) -> (r: Result<Expression, ParsingError>)
        requires
            old(self).wf(),
        ensures
            Self::moved_on(*old(self), *final(self)),
            (expression_result(r), final(self).pos as int) == grammar::grouped_expression(old(self).toks(), old(self).pos as int),
        decreases old(self).tokens@.len() - old(self).pos, 8int,
    {
        let next_token = self.next_token_or_end()?;
        let exp = self.parse_expression(&next_token, Precedence::Lowest)?;
        if let Some(token) = self.peek() {
            if !matches!(token, Token::Rparen) {
                return Err(ParsingError::UnexpectedToken(token.clone()));
            } else {
                self.next_token_or_end()?;
            }
        }
        Ok(exp)
    }

    #[verifier::rlimit(40)]
    fn parse_if_expression(&mut self) -> (r: Result<Expression, ParsingError>)
        requires
            old(self).wf(),
        ensures
            Self::moved_on(*old(self), *final(self)),
            (expression_result(r), final(self).pos as int) == grammar::if_expression(old(self).toks(), old(self).pos as int),
        decreases old(self).tokens@.len() - old(self).pos, 8int,
    {
        // get and expect next token to be '(' after 'if'
        let token = match self.next_token_or_end()? {
            Token::Lparen => Token::Lparen,
            t => return Err(ParsingError::UnexpectedToken(t)),
        };

        // expect grouped expression after 'if' token
        let condition = self.parse_expression(&token, Precedence::Lowest)?;

        let consequence = Box::new(self.parse_block_statement()?);

        let alternative = match self.peek() {
            Some(Token::Else) => {
                self.next_token_or_end()?;

                Some(Box::new(self.parse_block_statement()?))
            },
            _ => None,
        };

        Ok(Expression::If(Box::new(condition), consequence, alternative))
    }

    fn parse_function_literal(&mut self) -> (r: Result<Expression, ParsingError>)
        requires
            old(self).wf(),
        ensures
            Self::moved_on(*old(self), *final(self)),
            (expression_result(r), final(self).pos as int) == grammar::function_literal(old(self).toks(), old(self).pos as int),
        decreases old(self).tokens@.len() - old(self).pos, 8int,
    {
        // expect parameter list after 'fn' keyword
        let parameters = self.parse_function_parameters()?;

        // expect block statement after parameter list
        let body = Box::new(self.parse_block_statement()?);

        Ok(Expression::Function(parameters, body))
    }

    fn parse_function_parameters(&mut self) -> (r: Result<Vec<Expression>, ParsingError>)
        requires
            old(self).wf(),
        ensures
            Self::moved_on(*old(self), *final(self)),
            (expressions_result(r), final(self).pos as int) == grammar::parameters(old(self).toks(), old(self).pos as int),
            r is Ok ==> old(self).pos < final(self).pos,
    {
        let ghost ts = self.toks();
        let ghost p = self.pos as int;
        // expect first token of parameter list to be '('
        match self.next_token_or_end()? {
            Token::Lparen => {},
            token => return Err(ParsingError::UnexpectedToken(token)),
        }

        let mut parameters = vec![];
        proof {
            ast::lemma_expressions_view_empty();
        }

        loop
            invariant
                self.toks() == ts,
                ts == old(self).toks(),
                p == old(self).pos,
                self.tokens == old(self).tokens,
                self.wf(),
                p < self.pos,
                grammar::parameter_list(ts, self.pos as int, expressions_view(parameters@))
                    == grammar::parameters(ts, p),
            decreases self.tokens@.len() - self.pos,
        {
            let ghost before = parameters@;
            match self.next_token_or_end()? {
                Token::Identifier(id) => parameters.push(Expression::Identifier(id)),
                t => return Err(ParsingError::UnexpectedToken(t)),
            }
            proof {
                ast::lemma_expressions_view_push(before, parameters@.last());
                assert(parameters@ == before.push(parameters@.last()));
            }

            match self.peek() {
                Some(Token::Comma) => {
                    self.next_token_or_end()?;
                },
                Some(Token::Rparen) => {
                    self.next_token_or_end()?;
                    return Ok(parameters);
                },
                Some(t) => return Err(ParsingError::UnexpectedToken(t.clone())),
                None => return Err(ParsingError::UnexpectedEof),
            }
        }
    }

    fn parse_prefix_expression(&mut self, token: &Token) -> (r: Result<Expression, ParsingError>)
        requires
            old(self).wf(),
        ensures
            Self::moved_on(*old(self), *final(self)),
            (expression_result(r), final(self).pos as int)
                == grammar::prefix_expression(old(self).toks(), old(self).pos as int, token@),
        decreases old(self).tokens@.len() - old(self).pos, 8int,
    {
        let prefix = match token {
            Token::Bang => Prefix::Bang,
            Token::Minus => Prefix::Minus,
            _ => {
                return Err(ParsingError::Generic(String::from_str("should never get here... fix types")))
            },
        };

        let next_token = self.next_token_or_end()?;

        let right_expression = self.parse_expression(&next_token, Precedence::Prefix)?;

        Ok(Expression::Prefix(prefix, Box::new(right_expression)))
    }

    fn parse_infix_expression(&mut self, left_expression: Expression, operator: &Token) -> (r: Result<Expression, ParsingError>)
        requires
            old(self).wf(),
        ensures
            Self::moved_on(*old(self), *final(self)),
            (expression_result(r), final(self).pos as int) == grammar::infix_expression(
                old(self).toks(),
                old(self).pos as int,
                expression_view(left_expression),
                operator@,
            ),
        decreases old(self).tokens@.len() - old(self).pos, 8int,
    {
        let infix = match operator {
            Token::Plus => Infix::Plus,
            Token::Minus => Infix::Minus,
            Token::Asterisk => Infix::Multiply,
            Token::Slash => Infix::Divide,
            Token::Lt => Infix::LessThan,
            Token::Gt => Infix::GreaterThan,
            Token::Eq => Infix::Equal,
            Token::Noteq => Infix::NotEqual,
            _ => {
                return Err(ParsingError::Generic(String::from_str("should never get here... fix types")))
            },
        };

        let precedence = Precedence::get_precedence(operator);

        let next_token = self.next_token_or_end()?;

        let right_expression = self.parse_expression(&next_token, precedence)?;

        Ok(Expression::Infix(Box::new(left_expression), infix, Box::new(right_expression)))
    }

    fn parse_call_expression(&mut self, left_expression: Expression, _operator: &Token) -> (r: Result<Expression, ParsingError>)
        requires
            old(self).wf(),
        ensures
            Self::moved_on(*old(self), *final(self)),
            (expression_result(r), final(self).pos as int)
                == grammar::call_expression(old(self).toks(), old(self).pos as int, expression_view(left_expression)),
        decreases old(self).tokens@.len() - old(self).pos, 8int,
    {
        let ghost ts = self.toks();
        let ghost p = self.pos as int;
        let ghost left = expression_view(left_expression);
        let mut arguments = vec![];
        proof {
            ast::lemma_expressions_view_empty();
        }

        if let Some(Token::Rparen) = self.peek() {
            self.next_token_or_end()?;
            return Ok(Expression::Call(Box::new(left_expression), arguments));
        }

        let next_token = self.next_token_or_end()?;
        let first = self.parse_expression(&next_token, Precedence::Lowest)?;
        proof {
            ast::lemma_expressions_view_push(arguments@, first);
        }
        arguments.push(first);

        loop
            invariant
                self.toks() == ts,
                ts == old(self).toks(),
                p == old(self).pos,
                self.tokens == old(self).tokens,
                self.wf(),
                p < self.pos,
                expression_view(left_expression) == left,
                grammar::call_arguments(ts, self.pos as int, left, expressions_view(arguments@))
                    == grammar::call_expression(ts, p, left),
            decreases self.tokens@.len() - self.pos,
        {
            if let Some(Token::Comma) = self.peek() {
                self.next_token_or_end()?;
                let next_token = self.next_token_or_end()?;
                let argument = self.parse_expression(&next_token, Precedence::Lowest)?;
                proof {
                    ast::lemma_expressions_view_push(arguments@, argument);
                }
                arguments.push(argument);
            } else {
                match self.next_token_or_end()? {
                    Token::Rparen => {},
                    token => return Err(ParsingError::UnexpectedToken(token)),
                }
                return Ok(Expression::Call(Box::new(left_expression), arguments));
            }
        }
    }
}

} // verus!
