//! What parses give: how operators group, and how statements and errors
//! accumulate into a program.
use super::ast::{SpecExpression, SpecStatement};
use super::grammar::{
    call_arguments, call_expression, expression, expression_statement, infix_expression, infix_loop, infix_operator,
    let_statement, prefix_expression, prefix_operator, program, program_from, skip_to_semicolon, statement,
};
use super::integer::decimal_i64;
use super::precedence::Precedence;
use super::SpecParsingError;
use crate::lexer::token::SpecToken;
use vstd::prelude::*;

verus! {

/// The expression that a single token stands for on its own: a name, a
/// boolean, or an integer literal that fits.
pub open spec fn atom(t: SpecToken) -> Option<SpecExpression> {
    match t {
        SpecToken::Identifier(id) => Some(SpecExpression::Identifier(id)),
        SpecToken::True => Some(SpecExpression::Boolean(true)),
        SpecToken::False => Some(SpecExpression::Boolean(false)),
        SpecToken::Int(s) => match decimal_i64(s) {
            Some(n) => Some(SpecExpression::Integer(n)),
            None => None,
        },
        _ => None,
    }
}

/// The tokens `atoms[0] ops[0] atoms[1] ... ops[n-1] atoms[n]`.
pub open spec fn chain(atoms: Seq<SpecToken>, ops: Seq<SpecToken>) -> Seq<SpecToken> {
    Seq::new(2 * ops.len() + 1, |k: int| if k % 2 == 0 { atoms[k / 2] } else { ops[k / 2] })
}

/// Operands that stand alone and infix operators between them.
pub open spec fn operator_chain(atoms: Seq<SpecToken>, ops: Seq<SpecToken>) -> bool {
    &&& atoms.len() == ops.len() + 1
    &&& forall|i: int| 0 <= i < atoms.len() ==> (#[trigger] atom(atoms[i])) is Some
    &&& forall|i: int| 0 <= i < ops.len() ==> (#[trigger] infix_operator(ops[i])) is Some
}

/// The chain up to `atoms[i]`, grouped to the left.
pub open spec fn grouped_left(atoms: Seq<SpecToken>, ops: Seq<SpecToken>, i: int) -> SpecExpression
    decreases i,
{
    if i <= 0 {
        atom(atoms[0])->Some_0
    } else {
        SpecExpression::Infix(
            Box::new(grouped_left(atoms, ops, i - 1)),
            infix_operator(ops[i - 1])->Some_0,
            Box::new(atom(atoms[i])->Some_0),
        )
    }
}

/// The chain from `atoms[i]` on, grouped to the right.
pub open spec fn grouped_right(atoms: Seq<SpecToken>, ops: Seq<SpecToken>, i: int) -> SpecExpression
    decreases ops.len() - i,
{
    if i >= ops.len() {
        atom(atoms[i])->Some_0
    } else {
        SpecExpression::Infix(
            Box::new(atom(atoms[i])->Some_0),
            infix_operator(ops[i])->Some_0,
            Box::new(grouped_right(atoms, ops, i + 1)),
        )
    }
}

proof fn lemma_chain_tokens(atoms: Seq<SpecToken>, ops: Seq<SpecToken>, i: int)
    requires
        operator_chain(atoms, ops),
        0 <= i <= ops.len(),
    ensures
        chain(atoms, ops)[2 * i] == atoms[i],
        i < ops.len() ==> chain(atoms, ops)[2 * i + 1] == ops[i],
        chain(atoms, ops).len() == 2 * ops.len() + 1,
{
    assert((2 * i) % 2 == 0 && (2 * i) / 2 == i);
    assert((2 * i + 1) % 2 == 1 && (2 * i + 1) / 2 == i);
}

/// The atom at `2 * i` parsed at precedence `precedence`, where the operator
/// after it, if any, does not bind tighter, is just that atom.
proof fn lemma_atom_alone(atoms: Seq<SpecToken>, ops: Seq<SpecToken>, i: int, precedence: Precedence)
    requires
        operator_chain(atoms, ops),
        0 <= i <= ops.len(),
        i < ops.len() ==> Precedence::of(ops[i]).level() <= precedence.level(),
    ensures
        expression(chain(atoms, ops), 2 * i + 1, atoms[i], precedence) == (
            Ok::<SpecExpression, SpecParsingError>(atom(atoms[i])->Some_0),
            (2 * i + 1) as int,
        ),
{
    lemma_chain_tokens(atoms, ops, i);
    assert(atom(atoms[i]) is Some);
}

/// No operator of the chain binds tighter than the one before it.
pub open spec fn non_rising(ops: Seq<SpecToken>) -> bool {
    forall|k: int| 0 <= k < ops.len() - 1 ==> #[trigger] Precedence::of(ops[k + 1]).level() <= Precedence::of(ops[k]).level()
}

proof fn lemma_left_from(atoms: Seq<SpecToken>, ops: Seq<SpecToken>, i: int)
    requires
        operator_chain(atoms, ops),
        0 <= i <= ops.len(),
        non_rising(ops),
    ensures
        infix_loop(chain(atoms, ops), 2 * i + 1, Precedence::Lowest, grouped_left(atoms, ops, i)) == (
            Ok::<SpecExpression, SpecParsingError>(grouped_left(atoms, ops, ops.len() as int)),
            (2 * ops.len() + 1) as int,
        ),
    decreases ops.len() - i,
{
    let ts = chain(atoms, ops);
    lemma_chain_tokens(atoms, ops, i);
    if i < ops.len() {
        let op = ops[i];
        assert(infix_operator(op) is Some);
        lemma_chain_tokens(atoms, ops, i + 1);
        assert(atom(atoms[i + 1]) is Some);
        if i + 1 < ops.len() {
            assert(Precedence::of(ops[i + 1]).level() <= Precedence::of(ops[i]).level());
        }
        lemma_atom_alone(atoms, ops, i + 1, Precedence::of(op));
        assert(infix_expression(ts, 2 * i + 2, grouped_left(atoms, ops, i), op) == (
            Ok::<SpecExpression, SpecParsingError>(grouped_left(atoms, ops, i + 1)),
            (2 * i + 3) as int,
        ));
        lemma_left_from(atoms, ops, i + 1);
    }
}

/// Operators of equal precedence group to the left: the chain
/// `a0 o0 a1 o1 ... an` of operands that stand alone is
/// `((a0 o0 a1) o1 ...) an`, as an expression and as a whole program.
pub proof fn lemma_equal_precedence_groups_left(atoms: Seq<SpecToken>, ops: Seq<SpecToken>)
    requires
        operator_chain(atoms, ops),
        forall|k: int| 0 <= k < ops.len() ==> #[trigger] Precedence::of(ops[k]) == Precedence::of(ops[0]),
    ensures
        expression(chain(atoms, ops), 1, atoms[0], Precedence::Lowest) == (
            Ok::<SpecExpression, SpecParsingError>(grouped_left(atoms, ops, ops.len() as int)),
            (2 * ops.len() + 1) as int,
        ),
        program(chain(atoms, ops)) == Ok::<Seq<SpecStatement>, Seq<SpecParsingError>>(
            seq![SpecStatement::Expression(grouped_left(atoms, ops, ops.len() as int))],
        ),
{
    assert forall|k: int| 0 <= k < ops.len() - 1 implies #[trigger] Precedence::of(ops[k + 1]).level()
        <= Precedence::of(ops[k]).level() by {
        assert(Precedence::of(ops[k + 1]) == Precedence::of(ops[0]));
        assert(Precedence::of(ops[k]) == Precedence::of(ops[0]));
    }
    lemma_operators_that_do_not_rise_group_left(atoms, ops);
}

/// A chain `a0 o0 a1 o1 ... an` in which no operator binds tighter than the
/// one before it groups to the left, `((a0 o0 a1) o1 ...) an`, as an
/// expression and as a whole program.
pub proof fn lemma_operators_that_do_not_rise_group_left(atoms: Seq<SpecToken>, ops: Seq<SpecToken>)
    requires
        operator_chain(atoms, ops),
        non_rising(ops),
    ensures
        expression(chain(atoms, ops), 1, atoms[0], Precedence::Lowest) == (
            Ok::<SpecExpression, SpecParsingError>(grouped_left(atoms, ops, ops.len() as int)),
            (2 * ops.len() + 1) as int,
        ),
        program(chain(atoms, ops)) == Ok::<Seq<SpecStatement>, Seq<SpecParsingError>>(
            seq![SpecStatement::Expression(grouped_left(atoms, ops, ops.len() as int))],
        ),
{
    lemma_chain_tokens(atoms, ops, 0);
    assert(atom(atoms[0]) is Some);
    lemma_left_from(atoms, ops, 0);
    lemma_program_of_one_expression(atoms, ops, grouped_left(atoms, ops, ops.len() as int));
}

#[verifier::rlimit(30)]
proof fn lemma_right_from(atoms: Seq<SpecToken>, ops: Seq<SpecToken>, i: int, precedence: Precedence)
    requires
        operator_chain(atoms, ops),
        0 <= i <= ops.len(),
        forall|k: int| 0 <= k < ops.len() - 1 ==> #[trigger] Precedence::of(ops[k]).level() < Precedence::of(ops[k + 1]).level(),
        i < ops.len() ==> precedence.level() < Precedence::of(ops[i]).level(),
    ensures
        infix_loop(chain(atoms, ops), 2 * i + 1, precedence, atom(atoms[i])->Some_0) == (
            Ok::<SpecExpression, SpecParsingError>(grouped_right(atoms, ops, i)),
            (2 * ops.len() + 1) as int,
        ),
    decreases ops.len() - i,
{
    let ts = chain(atoms, ops);
    lemma_chain_tokens(atoms, ops, i);
    if i < ops.len() {
        let op = ops[i];
        assert(infix_operator(op) is Some);
        lemma_chain_tokens(atoms, ops, i + 1);
        assert(atom(atoms[i + 1]) is Some);
        if i + 1 < ops.len() {
            assert(Precedence::of(ops[i]).level() < Precedence::of(ops[i + 1]).level());
        }
        lemma_right_from(atoms, ops, i + 1, Precedence::of(op));
        let end = (2 * ops.len() + 1) as int;
        let inner = grouped_right(atoms, ops, i + 1);
        let whole = grouped_right(atoms, ops, i);
        assert(ts.len() == end);
        assert(expression(ts, 2 * i + 3, atoms[i + 1], Precedence::of(op)) == (
            Ok::<SpecExpression, SpecParsingError>(inner),
            end,
        )) by {
            assert(super::grammar::expression_start(ts, 2 * i + 3, atoms[i + 1]) == (
                Ok::<SpecExpression, SpecParsingError>(atom(atoms[i + 1])->Some_0),
                2 * i + 3,
            ));
        }
        assert(infix_expression(ts, 2 * i + 2, atom(atoms[i])->Some_0, op) == (
            Ok::<SpecExpression, SpecParsingError>(whole),
            end,
        )) by {
            assert(super::grammar::next_or_end(ts, 2 * i + 2) == (
                Ok::<SpecToken, SpecParsingError>(atoms[i + 1]),
                2 * i + 3,
            ));
        }
        assert(infix_loop(ts, end, precedence, whole) == (Ok::<SpecExpression, SpecParsingError>(whole), end)) by {
            assert(super::grammar::peek(ts, end) is None);
        }
    }
}

/// Tighter operators bind first: a chain `a0 o0 a1 o1 ... an` whose
/// operators bind ever tighter is `a0 o0 (a1 o1 (... an))`, as an expression
/// and as a whole program.
pub proof fn lemma_tighter_operators_bind_first(atoms: Seq<SpecToken>, ops: Seq<SpecToken>)
    requires
        operator_chain(atoms, ops),
        forall|k: int| 0 <= k < ops.len() - 1 ==> #[trigger] Precedence::of(ops[k]).level() < Precedence::of(ops[k + 1]).level(),
    ensures
        expression(chain(atoms, ops), 1, atoms[0], Precedence::Lowest) == (
            Ok::<SpecExpression, SpecParsingError>(grouped_right(atoms, ops, 0)),
            (2 * ops.len() + 1) as int,
        ),
        program(chain(atoms, ops)) == Ok::<Seq<SpecStatement>, Seq<SpecParsingError>>(
            seq![SpecStatement::Expression(grouped_right(atoms, ops, 0))],
        ),
{
    lemma_chain_tokens(atoms, ops, 0);
    assert(atom(atoms[0]) is Some);
    if ops.len() > 0 {
        assert(infix_operator(ops[0]) is Some);
    }
    lemma_right_from(atoms, ops, 0, Precedence::Lowest);
    lemma_program_of_one_expression(atoms, ops, grouped_right(atoms, ops, 0));
}

/// A chain that parses as one expression to its end is a program of that one
/// expression statement.
proof fn lemma_program_of_one_expression(atoms: Seq<SpecToken>, ops: Seq<SpecToken>, e: SpecExpression)
    requires
        operator_chain(atoms, ops),
        expression(chain(atoms, ops), 1, atoms[0], Precedence::Lowest) == (
            Ok::<SpecExpression, SpecParsingError>(e),
            (2 * ops.len() + 1) as int,
        ),
    ensures
        program(chain(atoms, ops)) == Ok::<Seq<SpecStatement>, Seq<SpecParsingError>>(
            seq![SpecStatement::Expression(e)],
        ),
{
    let ts = chain(atoms, ops);
    lemma_chain_tokens(atoms, ops, 0);
    assert(atom(atoms[0]) is Some);
    assert(ts[0] != SpecToken::Let && ts[0] != SpecToken::Return && ts[0] != SpecToken::Semicolon);
    assert(statement(ts, 0) == (
        Ok::<SpecStatement, SpecParsingError>(SpecStatement::Expression(e)),
        (2 * ops.len() + 1) as int,
    ));
    assert(program_from(ts, (2 * ops.len() + 1) as int, seq![SpecStatement::Expression(e)], seq![]) == Ok::<
        Seq<SpecStatement>,
        Seq<SpecParsingError>,
    >(seq![SpecStatement::Expression(e)]));
    assert(seq![].push(SpecStatement::Expression(e)) == seq![SpecStatement::Expression(e)]);
}

/// How tightly each infix operator binds, from loosest to tightest: `==` and
/// `!=`, then `<` and `>`, then `+` and `-`, then `*` and `/`.
pub open spec fn binding_power(t: SpecToken) -> int {
    match t {
        SpecToken::Eq | SpecToken::Noteq => 1,
        SpecToken::Lt | SpecToken::Gt => 2,
        SpecToken::Plus | SpecToken::Minus => 3,
        SpecToken::Asterisk | SpecToken::Slash => 4,
        _ => 0,
    }
}

/// The parser's precedence of each infix operator is its binding power: `/`
/// binds as tightly as `*`, and both bind tighter than `+` and `-`.
pub proof fn lemma_precedence_table(op: SpecToken)
    requires
        infix_operator(op) is Some,
    ensures
        Precedence::of(op).level() == binding_power(op),
        Precedence::of(SpecToken::Slash) == Precedence::of(SpecToken::Asterisk),
        Precedence::of(SpecToken::Slash) == Precedence::Product,
        Precedence::of(SpecToken::Slash).level() > Precedence::of(SpecToken::Plus).level(),
{
}

/// Two infix operators between three operands that stand alone: the second
/// operator takes the middle operand when it binds tighter than the first,
/// and otherwise the first does: `x o1 y o2 z` is `x o1 (y o2 z)` or
/// `(x o1 y) o2 z`.
pub proof fn lemma_two_operators(x: SpecToken, o1: SpecToken, y: SpecToken, o2: SpecToken, z: SpecToken)
    requires
        atom(x) is Some,
        atom(y) is Some,
        atom(z) is Some,
        infix_operator(o1) is Some,
        infix_operator(o2) is Some,
    ensures
        ({
            let (vx, vy, vz) = (atom(x)->Some_0, atom(y)->Some_0, atom(z)->Some_0);
            let (i1, i2) = (infix_operator(o1)->Some_0, infix_operator(o2)->Some_0);
            let e = if binding_power(o1) < binding_power(o2) {
                SpecExpression::Infix(Box::new(vx), i1, Box::new(SpecExpression::Infix(Box::new(vy), i2, Box::new(vz))))
            } else {
                SpecExpression::Infix(Box::new(SpecExpression::Infix(Box::new(vx), i1, Box::new(vy))), i2, Box::new(vz))
            };
            program(chain(seq![x, y, z], seq![o1, o2])) == Ok::<Seq<SpecStatement>, Seq<SpecParsingError>>(
                seq![SpecStatement::Expression(e)],
            )
        }),
{
    let atoms = seq![x, y, z];
    let ops = seq![o1, o2];
    assert(atoms[0] == x && atoms[1] == y && atoms[2] == z && ops[0] == o1 && ops[1] == o2);
    assert(operator_chain(atoms, ops));
    lemma_precedence_table(o1);
    lemma_precedence_table(o2);
    if binding_power(o1) < binding_power(o2) {
        lemma_tighter_operators_bind_first(atoms, ops);
        reveal_with_fuel(grouped_right, 3);
    } else {
        lemma_operators_that_do_not_rise_group_left(atoms, ops);
        reveal_with_fuel(grouped_left, 3);
    }
}

/// `ts` holds the operator chain at `s`, and the token after it, if any,
/// is no infix operator and no `(`: it cannot continue the chain.
pub open spec fn holds_chain_at(ts: Seq<SpecToken>, s: int, atoms: Seq<SpecToken>, ops: Seq<SpecToken>) -> bool {
    let c = chain(atoms, ops);
    &&& operator_chain(atoms, ops)
    &&& 0 <= s
    &&& s + c.len() <= ts.len()
    &&& ts.subrange(s, s + c.len()) == c
    &&& s + c.len() < ts.len() ==> Precedence::of(ts[s + c.len()]).level() == 0
}

proof fn lemma_chain_token(ts: Seq<SpecToken>, s: int, atoms: Seq<SpecToken>, ops: Seq<SpecToken>, k: int)
    requires
        holds_chain_at(ts, s, atoms, ops),
        0 <= k < chain(atoms, ops).len(),
    ensures
        ts[s + k] == chain(atoms, ops)[k],
        k % 2 == 0 ==> atom(chain(atoms, ops)[k]) is Some,
        k % 2 == 1 ==> infix_operator(chain(atoms, ops)[k]) is Some,
{
    let c = chain(atoms, ops);
    assert(ts.subrange(s, s + c.len())[k] == ts[s + k]);
    if k % 2 == 0 {
        assert(c[k] == atoms[k / 2]);
        assert(atom(atoms[k / 2]) is Some);
    } else {
        assert(c[k] == ops[k / 2]);
        assert(infix_operator(ops[k / 2]) is Some);
    }
}

/// An operand at `k` of a chain held in `ts` at `s` parses there as it does
/// in the chain alone, and the parse takes the rest of the chain at the lowest
/// precedence.
proof fn lemma_in_context_expression(
    ts: Seq<SpecToken>,
    s: int,
    atoms: Seq<SpecToken>,
    ops: Seq<SpecToken>,
    k: int,
    tok: SpecToken,
    precedence: Precedence,
)
    requires
        holds_chain_at(ts, s, atoms, ops),
        1 <= k <= chain(atoms, ops).len(),
        k % 2 == 1,
        atom(tok) is Some,
    ensures
        ({
            let c = chain(atoms, ops);
            let (r, q) = expression(c, k, tok, precedence);
            &&& r is Ok
            &&& k <= q <= c.len()
            &&& q % 2 == 1
            &&& precedence == Precedence::Lowest ==> q == c.len()
            &&& expression(ts, s + k, tok, precedence) == (r, q + s)
        }),
    decreases chain(atoms, ops).len() - k, 2int,
{
    lemma_in_context_infix_loop(ts, s, atoms, ops, k, precedence, atom(tok)->Some_0);
}

proof fn lemma_in_context_infix_loop(
    ts: Seq<SpecToken>,
    s: int,
    atoms: Seq<SpecToken>,
    ops: Seq<SpecToken>,
    k: int,
    precedence: Precedence,
    left: SpecExpression,
)
    requires
        holds_chain_at(ts, s, atoms, ops),
        1 <= k <= chain(atoms, ops).len(),
        k % 2 == 1,
    ensures
        ({
            let c = chain(atoms, ops);
            let (r, q) = infix_loop(c, k, precedence, left);
            &&& r is Ok
            &&& k <= q <= c.len()
            &&& q % 2 == 1
            &&& precedence == Precedence::Lowest ==> q == c.len()
            &&& infix_loop(ts, s + k, precedence, left) == (r, q + s)
        }),
    decreases chain(atoms, ops).len() - k, 1int,
{
    let c = chain(atoms, ops);
    if k < c.len() {
        lemma_chain_token(ts, s, atoms, ops, k);
        let op = c[k];
        lemma_precedence_table(op);
        if precedence.level() < Precedence::of(op).level() {
            lemma_in_context_infix_expression(ts, s, atoms, ops, k + 1, left, op);
            let (r, q) = infix_expression(c, k + 1, left, op);
            lemma_in_context_infix_loop(ts, s, atoms, ops, q, precedence, r->Ok_0);
        }
    } else if s + k < ts.len() {
        assert(Precedence::of(ts[s + k]).level() == 0);
    }
}

proof fn lemma_in_context_infix_expression(
    ts: Seq<SpecToken>,
    s: int,
    atoms: Seq<SpecToken>,
    ops: Seq<SpecToken>,
    k: int,
    left: SpecExpression,
    op: SpecToken,
)
    requires
        holds_chain_at(ts, s, atoms, ops),
        2 <= k < chain(atoms, ops).len(),
        k % 2 == 0,
        infix_operator(op) is Some,
    ensures
        ({
            let c = chain(atoms, ops);
            let (r, q) = infix_expression(c, k, left, op);
            &&& r is Ok
            &&& k < q <= c.len()
            &&& q % 2 == 1
            &&& infix_expression(ts, s + k, left, op) == (r, q + s)
        }),
    decreases chain(atoms, ops).len() - k, 3int,
{
    let c = chain(atoms, ops);
    lemma_chain_token(ts, s, atoms, ops, k);
    lemma_in_context_expression(ts, s, atoms, ops, k + 1, c[k], Precedence::of(op));
}

/// An operator chain of operands that stand alone parses, on its own, as a
/// single expression statement.
pub proof fn lemma_chain_is_one_expression(atoms: Seq<SpecToken>, ops: Seq<SpecToken>) -> (e: SpecExpression)
    requires
        operator_chain(atoms, ops),
    ensures
        program(chain(atoms, ops)) == Ok::<Seq<SpecStatement>, Seq<SpecParsingError>>(
            seq![SpecStatement::Expression(e)],
        ),
{
    let c = chain(atoms, ops);
    assert(c.subrange(0, c.len() as int) =~= c);
    lemma_chain_tokens(atoms, ops, 0);
    assert(atom(atoms[0]) is Some);
    lemma_in_context_expression(c, 0, atoms, ops, 1, atoms[0], Precedence::Lowest);
    let e = expression(c, 1, atoms[0], Precedence::Lowest).0->Ok_0;
    lemma_program_of_one_expression(atoms, ops, e);
    e
}

/// What a chain that parses on its own as `e` gives at the lowest precedence:
/// `e`, up to its end.
proof fn lemma_chain_alone(atoms: Seq<SpecToken>, ops: Seq<SpecToken>, e: SpecExpression)
    requires
        operator_chain(atoms, ops),
        program(chain(atoms, ops)) == Ok::<Seq<SpecStatement>, Seq<SpecParsingError>>(
            seq![SpecStatement::Expression(e)],
        ),
    ensures
        expression(chain(atoms, ops), 1, atoms[0], Precedence::Lowest) == (
            Ok::<SpecExpression, SpecParsingError>(e),
            chain(atoms, ops).len() as int,
        ),
{
    let c = chain(atoms, ops);
    assert(c.subrange(0, c.len() as int) =~= c);
    lemma_chain_tokens(atoms, ops, 0);
    assert(atom(atoms[0]) is Some);
    lemma_in_context_expression(c, 0, atoms, ops, 1, atoms[0], Precedence::Lowest);
    let e0 = expression(c, 1, atoms[0], Precedence::Lowest).0->Ok_0;
    lemma_program_of_one_expression(atoms, ops, e0);
    assert(seq![SpecStatement::Expression(e0)][0] == seq![SpecStatement::Expression(e)][0]);
}

/// A `let` binds the whole expression that its value's tokens make on their
/// own: when the chain `c` alone is the expression statement `e`,
/// `let x = c;` is `Let(x, e)`, whatever operators `c` holds.
pub proof fn lemma_let_binds_whole_expression(x: Seq<char>, atoms: Seq<SpecToken>, ops: Seq<SpecToken>, e: SpecExpression)
    requires
        operator_chain(atoms, ops),
        program(chain(atoms, ops)) == Ok::<Seq<SpecStatement>, Seq<SpecParsingError>>(
            seq![SpecStatement::Expression(e)],
        ),
    ensures
        program(seq![SpecToken::Let, SpecToken::Identifier(x), SpecToken::Assign] + chain(atoms, ops) + seq![SpecToken::Semicolon])
            == Ok::<Seq<SpecStatement>, Seq<SpecParsingError>>(
            seq![SpecStatement::Let(SpecExpression::Identifier(x), e)],
        ),
{
    let c = chain(atoms, ops);
    let n = c.len() as int;
    let ts = seq![SpecToken::Let, SpecToken::Identifier(x), SpecToken::Assign] + c + seq![SpecToken::Semicolon];
    let stmt = SpecStatement::Let(SpecExpression::Identifier(x), e);
    assert(ts.subrange(3, 3 + n) =~= c);
    assert(ts.len() == n + 4 && ts[0] == SpecToken::Let && ts[1] == SpecToken::Identifier(x) && ts[2] == SpecToken::Assign);
    assert(ts[3 + n] == SpecToken::Semicolon);
    lemma_chain_tokens(atoms, ops, 0);
    assert(ts[3] == atoms[0]);
    assert(atom(atoms[0]) is Some);
    lemma_chain_alone(atoms, ops, e);
    lemma_in_context_expression(ts, 3, atoms, ops, 1, atoms[0], Precedence::Lowest);
    assert(expression(ts, 4, atoms[0], Precedence::Lowest) == (Ok::<SpecExpression, SpecParsingError>(e), n + 3));
    assert(let_statement(ts, 1) == (Ok::<SpecStatement, SpecParsingError>(stmt), n + 3));
    assert(skip_to_semicolon(ts, n + 3) == n + 3);
    assert(statement(ts, 0) == (Ok::<SpecStatement, SpecParsingError>(stmt), n + 3));
    assert(program_from(ts, n + 4, seq![stmt], seq![]) == Ok::<Seq<SpecStatement>, Seq<SpecParsingError>>(seq![stmt]));
    assert(program_from(ts, n + 3, seq![stmt], seq![]) == Ok::<Seq<SpecStatement>, Seq<SpecParsingError>>(seq![stmt]));
    assert(seq![].push(stmt) == seq![stmt]);
}

/// A `return` returns the whole expression that its value's tokens make on
/// their own: when the chain `c` alone is the expression statement `e`,
/// `return c;` is `Return(e)`, whatever operators `c` holds.
pub proof fn lemma_return_takes_whole_expression(atoms: Seq<SpecToken>, ops: Seq<SpecToken>, e: SpecExpression)
    requires
        operator_chain(atoms, ops),
        program(chain(atoms, ops)) == Ok::<Seq<SpecStatement>, Seq<SpecParsingError>>(
            seq![SpecStatement::Expression(e)],
        ),
    ensures
        program(seq![SpecToken::Return] + chain(atoms, ops) + seq![SpecToken::Semicolon])
            == Ok::<Seq<SpecStatement>, Seq<SpecParsingError>>(seq![SpecStatement::Return(e)]),
{
    let c = chain(atoms, ops);
    let n = c.len() as int;
    let ts = seq![SpecToken::Return] + c + seq![SpecToken::Semicolon];
    let stmt = SpecStatement::Return(e);
    assert(ts.subrange(1, 1 + n) =~= c);
    assert(ts.len() == n + 2 && ts[0] == SpecToken::Return);
    assert(ts[1 + n] == SpecToken::Semicolon);
    lemma_chain_tokens(atoms, ops, 0);
    assert(ts[1] == atoms[0]);
    assert(atom(atoms[0]) is Some);
    lemma_chain_alone(atoms, ops, e);
    lemma_in_context_expression(ts, 1, atoms, ops, 1, atoms[0], Precedence::Lowest);
    assert(expression(ts, 2, atoms[0], Precedence::Lowest) == (Ok::<SpecExpression, SpecParsingError>(e), n + 1));
    assert(super::grammar::return_statement(ts, 1) == (Ok::<SpecStatement, SpecParsingError>(stmt), n + 1));
    assert(skip_to_semicolon(ts, n + 1) == n + 1);
    assert(statement(ts, 0) == (Ok::<SpecStatement, SpecParsingError>(stmt), n + 1));
    assert(program_from(ts, n + 2, seq![stmt], seq![]) == Ok::<Seq<SpecStatement>, Seq<SpecParsingError>>(seq![stmt]));
    assert(program_from(ts, n + 1, seq![stmt], seq![]) == Ok::<Seq<SpecStatement>, Seq<SpecParsingError>>(seq![stmt]));
    assert(seq![].push(stmt) == seq![stmt]);
}

/// Every argument of a call, the first as well as the later ones, is the
/// whole expression that its tokens make on their own: when the chains `c1`
/// and `c2` alone are the expression statements `e1` and `e2`, `f(c1, c2)` is
/// the call of `f` on `[e1, e2]`, whatever operators the chains hold.
pub proof fn lemma_call_takes_whole_arguments(
    f: Seq<char>,
    atoms1: Seq<SpecToken>,
    ops1: Seq<SpecToken>,
    e1: SpecExpression,
    atoms2: Seq<SpecToken>,
    ops2: Seq<SpecToken>,
    e2: SpecExpression,
)
    requires
        operator_chain(atoms1, ops1),
        operator_chain(atoms2, ops2),
        program(chain(atoms1, ops1)) == Ok::<Seq<SpecStatement>, Seq<SpecParsingError>>(
            seq![SpecStatement::Expression(e1)],
        ),
        program(chain(atoms2, ops2)) == Ok::<Seq<SpecStatement>, Seq<SpecParsingError>>(
            seq![SpecStatement::Expression(e2)],
        ),
    ensures
        program(
            seq![SpecToken::Identifier(f), SpecToken::Lparen] + chain(atoms1, ops1) + seq![SpecToken::Comma]
                + chain(atoms2, ops2) + seq![SpecToken::Rparen],
        ) == Ok::<Seq<SpecStatement>, Seq<SpecParsingError>>(
            seq![SpecStatement::Expression(
                SpecExpression::Call(Box::new(SpecExpression::Identifier(f)), seq![e1, e2]),
            )],
        ),
{
    let c1 = chain(atoms1, ops1);
    let c2 = chain(atoms2, ops2);
    let n1 = c1.len() as int;
    let n2 = c2.len() as int;
    let ts = seq![SpecToken::Identifier(f), SpecToken::Lparen] + c1 + seq![SpecToken::Comma] + c2 + seq![SpecToken::Rparen];
    let left = SpecExpression::Identifier(f);
    let call = SpecExpression::Call(Box::new(left), seq![e1, e2]);
    let stmt = SpecStatement::Expression(call);
    assert(ts.len() == n1 + n2 + 4);
    assert(ts.subrange(2, 2 + n1) =~= c1);
    assert(ts.subrange(n1 + 3, n1 + 3 + n2) =~= c2);
    assert(ts[0] == SpecToken::Identifier(f) && ts[1] == SpecToken::Lparen);
    assert(ts[n1 + 2] == SpecToken::Comma && ts[n1 + n2 + 3] == SpecToken::Rparen);
    lemma_chain_tokens(atoms1, ops1, 0);
    lemma_chain_tokens(atoms2, ops2, 0);
    assert(ts[2] == atoms1[0] && ts[n1 + 3] == atoms2[0]);
    assert(atom(atoms1[0]) is Some && atom(atoms2[0]) is Some);
    lemma_chain_alone(atoms1, ops1, e1);
    lemma_chain_alone(atoms2, ops2, e2);
    lemma_in_context_expression(ts, 2, atoms1, ops1, 1, atoms1[0], Precedence::Lowest);
    lemma_in_context_expression(ts, n1 + 3, atoms2, ops2, 1, atoms2[0], Precedence::Lowest);
    assert(expression(ts, 3, atoms1[0], Precedence::Lowest) == (Ok::<SpecExpression, SpecParsingError>(e1), n1 + 2));
    assert(expression(ts, n1 + 4, atoms2[0], Precedence::Lowest) == (
        Ok::<SpecExpression, SpecParsingError>(e2),
        n1 + n2 + 3,
    ));
    assert(call_arguments(ts, n1 + n2 + 3, left, seq![e1, e2]) == (
        Ok::<SpecExpression, SpecParsingError>(call),
        n1 + n2 + 4,
    ));
    assert(seq![e1].push(e2) =~= seq![e1, e2]);
    assert(call_arguments(ts, n1 + 2, left, seq![e1]) == (Ok::<SpecExpression, SpecParsingError>(call), n1 + n2 + 4));
    assert(call_expression(ts, 2, left) == (Ok::<SpecExpression, SpecParsingError>(call), n1 + n2 + 4));
    assert(infix_loop(ts, n1 + n2 + 4, Precedence::Lowest, call) == (
        Ok::<SpecExpression, SpecParsingError>(call),
        n1 + n2 + 4,
    ));
    assert(infix_loop(ts, 1, Precedence::Lowest, left) == (Ok::<SpecExpression, SpecParsingError>(call), n1 + n2 + 4));
    assert(expression(ts, 1, ts[0], Precedence::Lowest) == (Ok::<SpecExpression, SpecParsingError>(call), n1 + n2 + 4));
    assert(statement(ts, 0) == (Ok::<SpecStatement, SpecParsingError>(stmt), n1 + n2 + 4));
    assert(program_from(ts, n1 + n2 + 4, seq![stmt], seq![]) == Ok::<Seq<SpecStatement>, Seq<SpecParsingError>>(
        seq![stmt],
    ));
    assert(seq![].push(stmt) == seq![stmt]);
}

/// A prefix operator keeps a call of its operand inside: operators that bind
/// tighter than `!` and `-` stay in the operand. When the chain `c` alone is
/// the expression statement `e`, `-a(c)` is `-(a(e))`, not `(-a)(e)`.
pub proof fn lemma_prefix_keeps_call_inside(op: SpecToken, a: SpecToken, atoms: Seq<SpecToken>, ops: Seq<SpecToken>, e: SpecExpression)
    requires
        prefix_operator(op) is Some,
        atom(a) is Some,
        operator_chain(atoms, ops),
        program(chain(atoms, ops)) == Ok::<Seq<SpecStatement>, Seq<SpecParsingError>>(
            seq![SpecStatement::Expression(e)],
        ),
    ensures
        program(seq![op, a, SpecToken::Lparen] + chain(atoms, ops) + seq![SpecToken::Rparen])
            == Ok::<Seq<SpecStatement>, Seq<SpecParsingError>>(
            seq![SpecStatement::Expression(
                SpecExpression::Prefix(
                    prefix_operator(op)->Some_0,
                    Box::new(SpecExpression::Call(Box::new(atom(a)->Some_0), seq![e])),
                ),
            )],
        ),
{
    let c = chain(atoms, ops);
    let n = c.len() as int;
    let ts = seq![op, a, SpecToken::Lparen] + c + seq![SpecToken::Rparen];
    let operand = atom(a)->Some_0;
    let call = SpecExpression::Call(Box::new(operand), seq![e]);
    let whole = SpecExpression::Prefix(prefix_operator(op)->Some_0, Box::new(call));
    let stmt = SpecStatement::Expression(whole);
    assert(ts.len() == n + 4);
    assert(ts.subrange(3, 3 + n) =~= c);
    assert(ts[0] == op && ts[1] == a && ts[2] == SpecToken::Lparen && ts[n + 3] == SpecToken::Rparen);
    lemma_chain_tokens(atoms, ops, 0);
    assert(ts[3] == atoms[0]);
    assert(atom(atoms[0]) is Some);
    lemma_chain_alone(atoms, ops, e);
    lemma_in_context_expression(ts, 3, atoms, ops, 1, atoms[0], Precedence::Lowest);
    assert(expression(ts, 4, atoms[0], Precedence::Lowest) == (Ok::<SpecExpression, SpecParsingError>(e), n + 3));
    assert(call_arguments(ts, n + 3, operand, seq![e]) == (Ok::<SpecExpression, SpecParsingError>(call), n + 4));
    assert(call_expression(ts, 3, operand) == (Ok::<SpecExpression, SpecParsingError>(call), n + 4));
    assert(infix_loop(ts, n + 4, Precedence::Prefix, call) == (Ok::<SpecExpression, SpecParsingError>(call), n + 4));
    assert(infix_loop(ts, 2, Precedence::Prefix, operand) == (Ok::<SpecExpression, SpecParsingError>(call), n + 4));
    assert(expression(ts, 2, a, Precedence::Prefix) == (Ok::<SpecExpression, SpecParsingError>(call), n + 4));
    assert(prefix_expression(ts, 1, op) == (Ok::<SpecExpression, SpecParsingError>(whole), n + 4));
    assert(infix_loop(ts, n + 4, Precedence::Lowest, whole) == (Ok::<SpecExpression, SpecParsingError>(whole), n + 4));
    assert(expression(ts, 1, op, Precedence::Lowest) == (Ok::<SpecExpression, SpecParsingError>(whole), n + 4));
    assert(statement(ts, 0) == (Ok::<SpecStatement, SpecParsingError>(stmt), n + 4));
    assert(program_from(ts, n + 4, seq![stmt], seq![]) == Ok::<Seq<SpecStatement>, Seq<SpecParsingError>>(seq![stmt]));
    assert(seq![].push(stmt) == seq![stmt]);
}

/// A prefix operator binds tighter than every infix operator: `-a o b` is
/// `(-a) o b`.
pub proof fn lemma_prefix_binds_before_infix(op: SpecToken, a: SpecToken, o: SpecToken, b: SpecToken)
    requires
        prefix_operator(op) is Some,
        atom(a) is Some,
        infix_operator(o) is Some,
        atom(b) is Some,
    ensures
        program(seq![op, a, o, b]) == Ok::<Seq<SpecStatement>, Seq<SpecParsingError>>(
            seq![SpecStatement::Expression(
                SpecExpression::Infix(
                    Box::new(SpecExpression::Prefix(prefix_operator(op)->Some_0, Box::new(atom(a)->Some_0))),
                    infix_operator(o)->Some_0,
                    Box::new(atom(b)->Some_0),
                ),
            )],
        ),
{
    let ts = seq![op, a, o, b];
    let va = atom(a)->Some_0;
    let vb = atom(b)->Some_0;
    let pre = SpecExpression::Prefix(prefix_operator(op)->Some_0, Box::new(va));
    let whole = SpecExpression::Infix(Box::new(pre), infix_operator(o)->Some_0, Box::new(vb));
    let stmt = SpecStatement::Expression(whole);
    assert(ts.len() == 4 && ts[0] == op && ts[1] == a && ts[2] == o && ts[3] == b);
    lemma_precedence_table(o);
    assert(expression(ts, 2, a, Precedence::Prefix) == (Ok::<SpecExpression, SpecParsingError>(va), 2int));
    assert(prefix_expression(ts, 1, op) == (Ok::<SpecExpression, SpecParsingError>(pre), 2int));
    assert(expression(ts, 4, b, Precedence::of(o)) == (Ok::<SpecExpression, SpecParsingError>(vb), 4int));
    assert(infix_expression(ts, 3, pre, o) == (Ok::<SpecExpression, SpecParsingError>(whole), 4int));
    assert(infix_loop(ts, 4, Precedence::Lowest, whole) == (Ok::<SpecExpression, SpecParsingError>(whole), 4int));
    assert(infix_loop(ts, 2, Precedence::Lowest, pre) == (Ok::<SpecExpression, SpecParsingError>(whole), 4int));
    assert(expression(ts, 1, op, Precedence::Lowest) == (Ok::<SpecExpression, SpecParsingError>(whole), 4int));
    assert(statement(ts, 0) == (Ok::<SpecStatement, SpecParsingError>(stmt), 4int));
    assert(program_from(ts, 4, seq![stmt], seq![]) == Ok::<Seq<SpecStatement>, Seq<SpecParsingError>>(seq![stmt]));
    assert(seq![].push(stmt) == seq![stmt]);
}

/// An expression statement is the expression parse, wrapped as a statement.
pub proof fn lemma_expression_statement(ts: Seq<SpecToken>, p: int, token: SpecToken)
    ensures
        expression_statement(ts, p, token) == ({
            let (r, q) = expression(ts, p, token, Precedence::Lowest);
            (
                match r {
                    Ok(e) => Ok(SpecStatement::Expression(e)),
                    Err(e) => Err(e),
                },
                q,
            )
        }),
{
}

/// A program only accumulates: the errors found so far are all reported,
/// first and in order, and a program is given only when none was found, with
/// the statements parsed so far first.
pub proof fn lemma_program_accumulates(
    ts: Seq<SpecToken>,
    p: int,
    stmts: Seq<SpecStatement>,
    errors: Seq<SpecParsingError>,
)
    ensures
        match program_from(ts, p, stmts, errors) {
            Ok(all) => errors.len() == 0 && all.len() >= stmts.len() && all.subrange(0, stmts.len() as int) == stmts,
            Err(es) => es.len() >= errors.len() && es.subrange(0, errors.len() as int) == errors,
        },
    decreases ts.len() - p,
{
    let (r, q) = super::grammar::statement(ts, p);
    match super::grammar::peek(ts, p) {
        Some(SpecToken::Semicolon) => lemma_program_accumulates(ts, p + 1, stmts, errors),
        Some(_) => {
            if p < q <= ts.len() {
                match r {
                    Ok(s) => {
                        lemma_program_accumulates(ts, q, stmts.push(s), errors);
                        if let Ok(all) = program_from(ts, q, stmts.push(s), errors) {
                            assert(all.subrange(0, stmts.len() as int) =~= stmts.push(s).subrange(0, stmts.len() as int));
                        }
                    },
                    Err(e) => {
                        lemma_program_accumulates(ts, q, stmts, errors.push(e));
                        if let Err(es) = program_from(ts, q, stmts, errors.push(e)) {
                            assert(es.subrange(0, errors.len() as int) =~= errors.push(e).subrange(0, errors.len() as int));
                        }
                    },
                }
            } else {
                assert(errors.subrange(0, errors.len() as int) =~= errors);
            }
        },
        None => {
            assert(errors.subrange(0, errors.len() as int) =~= errors);
            assert(stmts.subrange(0, stmts.len() as int) =~= stmts);
        },
    }
}

} // verus!
