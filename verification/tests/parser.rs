use monkey::lexer::token::Token;
use monkey::parser::ast::{Expression, Infix, Prefix, Program, Statement};
use monkey::parser::{Parser, ParsingError};

fn ident(s: &str) -> Expression {
    Expression::Identifier(s.to_string())
}

fn num(n: i64) -> Expression {
    Expression::Integer(n)
}

fn infix(l: Expression, op: Infix, r: Expression) -> Expression {
    Expression::Infix(Box::new(l), op, Box::new(r))
}

fn prefix(op: Prefix, e: Expression) -> Expression {
    Expression::Prefix(op, Box::new(e))
}

fn expr_stmt(e: Expression) -> Statement {
    Statement::Expression(e)
}

fn ok(statements: Vec<Statement>) -> Result<Program, Vec<ParsingError>> {
    Ok(Program(statements))
}

fn single(input: &str) -> Expression {
    match Parser::parse_program(input) {
        Ok(Program(mut statements)) => {
            assert_eq!(statements.len(), 1, "{input}");
            match statements.remove(0) {
                Statement::Expression(e) => e,
                s => panic!("not an expression statement: {s:?}"),
            }
        }
        Err(errors) => panic!("errors for {input}: {errors:?}"),
    }
}

#[test]
fn let_statements() {
    assert_eq!(
        Parser::parse_program("let x = 5; let y = true; let foobar = y;"),
        ok(vec![
            Statement::Let(ident("x"), num(5)),
            Statement::Let(ident("y"), Expression::Boolean(true)),
            Statement::Let(ident("foobar"), ident("y")),
        ])
    );
}

#[test]
fn return_statements() {
    assert_eq!(
        Parser::parse_program("return 5; return x + 1;"),
        ok(vec![Statement::Return(num(5)), Statement::Return(infix(ident("x"), Infix::Plus, num(1)))])
    );
}

#[test]
fn empty_programs() {
    assert_eq!(Parser::parse_program(""), ok(vec![]));
    assert_eq!(Parser::parse_program(" ;;; ; "), ok(vec![]));
}

#[test]
fn statements_without_semicolons() {
    assert_eq!(Parser::parse_program("a b"), ok(vec![expr_stmt(ident("a")), expr_stmt(ident("b"))]));
}

#[test]
fn integers() {
    assert_eq!(single("5"), num(5));
    assert_eq!(single("9223372036854775807"), num(i64::MAX));
    assert_eq!(single("007"), num(7));
}

#[test]
fn integer_too_large() {
    assert_eq!(
        Parser::parse_program("9223372036854775808;"),
        Err(vec![ParsingError::InvalidInteger("9223372036854775808".to_string())])
    );
}

#[test]
fn prefix_expressions() {
    assert_eq!(single("!true"), prefix(Prefix::Bang, Expression::Boolean(true)));
    assert_eq!(single("-15"), prefix(Prefix::Minus, num(15)));
    assert_eq!(single("!!x"), prefix(Prefix::Bang, prefix(Prefix::Bang, ident("x"))));
    assert_eq!(single("-a * b"), infix(prefix(Prefix::Minus, ident("a")), Infix::Multiply, ident("b")));
}

#[test]
fn infix_operators() {
    let cases = [
        ("5 + 5", Infix::Plus),
        ("5 - 5", Infix::Minus),
        ("5 * 5", Infix::Multiply),
        ("5 / 5", Infix::Divide),
        ("5 < 5", Infix::LessThan),
        ("5 > 5", Infix::GreaterThan),
        ("5 == 5", Infix::Equal),
        ("5 != 5", Infix::NotEqual),
    ];
    for (input, op) in cases {
        assert_eq!(single(input), infix(num(5), op, num(5)));
    }
}

#[test]
fn operators_of_one_precedence_group_to_the_left() {
    assert_eq!(
        single("a + b - c"),
        infix(infix(ident("a"), Infix::Plus, ident("b")), Infix::Minus, ident("c"))
    );
    assert_eq!(
        single("a * b / c"),
        infix(infix(ident("a"), Infix::Multiply, ident("b")), Infix::Divide, ident("c"))
    );
}

#[test]
fn tighter_operators_bind_first() {
    assert_eq!(
        single("a + b * c"),
        infix(ident("a"), Infix::Plus, infix(ident("b"), Infix::Multiply, ident("c")))
    );
    assert_eq!(
        single("a < b == b > a"),
        infix(
            infix(ident("a"), Infix::LessThan, ident("b")),
            Infix::Equal,
            infix(ident("b"), Infix::GreaterThan, ident("a"))
        )
    );
    assert_eq!(
        single("-a + f(b)"),
        infix(
            prefix(Prefix::Minus, ident("a")),
            Infix::Plus,
            Expression::Call(Box::new(ident("f")), vec![ident("b")])
        )
    );
}

#[test]
fn grouped_expressions() {
    assert_eq!(
        single("(a + b) * c"),
        infix(infix(ident("a"), Infix::Plus, ident("b")), Infix::Multiply, ident("c"))
    );
    assert_eq!(single("-(5 + 5)"), prefix(Prefix::Minus, infix(num(5), Infix::Plus, num(5))));
}

#[test]
fn grouped_expression_left_open_at_the_end() {
    assert_eq!(single("(a + b"), infix(ident("a"), Infix::Plus, ident("b")));
}

#[test]
fn grouped_expression_without_its_closing_parenthesis() {
    assert_eq!(
        Parser::parse_program("(a b); c"),
        Err(vec![ParsingError::UnexpectedToken(Token::Identifier("b".to_string()))])
    );
}

#[test]
fn if_expressions() {
    assert_eq!(
        single("if (x < y) { x }"),
        Expression::If(
            Box::new(infix(ident("x"), Infix::LessThan, ident("y"))),
            Box::new(Statement::BlockStatement(vec![expr_stmt(ident("x"))])),
            None
        )
    );
    assert_eq!(
        single("if (x < y) { x } else { y; ; }"),
        Expression::If(
            Box::new(infix(ident("x"), Infix::LessThan, ident("y"))),
            Box::new(Statement::BlockStatement(vec![expr_stmt(ident("x"))])),
            Some(Box::new(Statement::BlockStatement(vec![expr_stmt(ident("y"))])))
        )
    );
}

#[test]
fn if_without_parenthesis() {
    assert_eq!(
        Parser::parse_program("if x { 1 }"),
        Err(vec![ParsingError::UnexpectedToken(Token::Identifier("x".to_string()))])
    );
}

#[test]
fn block_left_open() {
    assert_eq!(Parser::parse_program("if (x) { x"), Err(vec![ParsingError::UnexpectedEof]));
}

#[test]
fn block_with_statements() {
    assert_eq!(
        single("if (true) { let a = 1; return a; }"),
        Expression::If(
            Box::new(Expression::Boolean(true)),
            Box::new(Statement::BlockStatement(vec![
                Statement::Let(ident("a"), num(1)),
                Statement::Return(ident("a")),
            ])),
            None
        )
    );
}

#[test]
fn function_literals() {
    assert_eq!(
        single("fn(x, y) { x + y; }"),
        Expression::Function(
            vec![ident("x"), ident("y")],
            Box::new(Statement::BlockStatement(vec![expr_stmt(infix(ident("x"), Infix::Plus, ident("y")))]))
        )
    );
    assert_eq!(
        single("fn(x) {}"),
        Expression::Function(vec![ident("x")], Box::new(Statement::BlockStatement(vec![])))
    );
}

#[test]
fn function_literal_needs_a_parameter() {
    assert_eq!(Parser::parse_program("fn() { 1 }"), Err(vec![ParsingError::UnexpectedToken(Token::Rparen)]));
}

#[test]
fn function_parameters_must_be_identifiers() {
    assert_eq!(
        Parser::parse_program("fn(x, 1) { x }"),
        Err(vec![ParsingError::UnexpectedToken(Token::Int("1".to_string()))])
    );
    assert_eq!(
        Parser::parse_program("fn(x y) { x }"),
        Err(vec![ParsingError::UnexpectedToken(Token::Identifier("y".to_string()))])
    );
}

#[test]
fn call_expressions() {
    assert_eq!(
        single("add(1, 2 * 3, 4 + 5)"),
        Expression::Call(
            Box::new(ident("add")),
            vec![num(1), infix(num(2), Infix::Multiply, num(3)), infix(num(4), Infix::Plus, num(5))]
        )
    );
    assert_eq!(single("add()"), Expression::Call(Box::new(ident("add")), vec![]));
    assert_eq!(
        single("f(a)(b)"),
        Expression::Call(Box::new(Expression::Call(Box::new(ident("f")), vec![ident("a")])), vec![ident("b")])
    );
}

#[test]
fn call_without_closing_parenthesis() {
    assert_eq!(
        Parser::parse_program("add(1, 2 3)"),
        Err(vec![ParsingError::UnexpectedToken(Token::Int("3".to_string()))])
    );
}

#[test]
fn let_errors() {
    assert_eq!(
        Parser::parse_program("let = 5;"),
        Err(vec![ParsingError::UnexpectedToken(Token::Assign)])
    );
    assert_eq!(
        Parser::parse_program("let x 5;"),
        Err(vec![ParsingError::UnexpectedToken(Token::Int("5".to_string()))])
    );
    assert_eq!(Parser::parse_program("let x = ;"), Err(vec![ParsingError::UnexpectedSemicolon]));
    assert_eq!(Parser::parse_program("let x = 5"), Err(vec![ParsingError::UnexpectedEof]));
    assert_eq!(
        Parser::parse_program("let x = 5 6;"),
        Err(vec![ParsingError::UnexpectedToken(Token::Int("6".to_string()))])
    );
}

#[test]
fn return_errors() {
    assert_eq!(Parser::parse_program("return;"), Err(vec![ParsingError::UnexpectedSemicolon]));
    assert_eq!(Parser::parse_program("return 5"), Err(vec![ParsingError::UnexpectedEof]));
}

#[test]
fn invalid_prefix_operators() {
    assert_eq!(
        Parser::parse_program("*5;"),
        Err(vec![ParsingError::InvalidPrefixOperator(Token::Asterisk)])
    );
    assert_eq!(
        Parser::parse_program("@;"),
        Err(vec![ParsingError::InvalidPrefixOperator(Token::Illegal)])
    );
    assert_eq!(
        Parser::parse_program("{ x }"),
        Err(vec![ParsingError::InvalidPrefixOperator(Token::Lbrace)])
    );
}

#[test]
fn every_failed_statement_is_reported_and_parsing_goes_on() {
    assert_eq!(
        Parser::parse_program("let = 1; let x = 2; *3; return x;"),
        Err(vec![
            ParsingError::UnexpectedToken(Token::Assign),
            ParsingError::InvalidPrefixOperator(Token::Asterisk),
        ])
    );
}

#[test]
fn error_messages() {
    assert_eq!(
        ParsingError::UnexpectedToken(Token::Identifier("x".to_string())).to_string(),
        "Unexpected token: 'x'"
    );
    assert_eq!(ParsingError::UnexpectedEof.to_string(), "Unexpected EOF");
    assert_eq!(ParsingError::UnexpectedSemicolon.to_string(), "Unexpected end of statement: ';'");
    assert_eq!(
        ParsingError::InvalidPrefixOperator(Token::Asterisk).to_string(),
        "'*' is not a valid prefix operator"
    );
    assert_eq!(
        ParsingError::InvalidInteger("99x".to_string()).to_string(),
        "Cannot parse '99x' as a valid integer"
    );
    assert_eq!(ParsingError::Generic("oops".to_string()).to_string(), "oops");
}

#[test]
fn longer_chains() {
    assert_eq!(
        single("1 + 2 - 3 + x"),
        infix(infix(infix(num(1), Infix::Plus, num(2)), Infix::Minus, num(3)), Infix::Plus, ident("x"))
    );
    assert_eq!(
        single("a == b < c + d * e"),
        infix(
            ident("a"),
            Infix::Equal,
            infix(ident("b"), Infix::LessThan, infix(ident("c"), Infix::Plus, infix(ident("d"), Infix::Multiply, ident("e"))))
        )
    );
    assert_eq!(
        single("true != false == true"),
        infix(
            infix(Expression::Boolean(true), Infix::NotEqual, Expression::Boolean(false)),
            Infix::Equal,
            Expression::Boolean(true)
        )
    );
}
