//! Pratt parser for expressions (arithmetic, comparison, boolean).

use vstd::prelude::*;
use crate::lexer::{Span, SpecToken, Token};
use crate::text::owned;
use super::ast::{exprs_view, lemma_exprs_view, BinaryOp, Expression, Literal, SpecExpr, SpecLiteral, UnaryOp};
use super::{ident_at, tok_is, ParseError, Parser};
use crate::executor::compare::compares;
use crate::executor::logic::{bool_op, LogicError, Truth};
use crate::planner::optimize::int_fold;

verus! {

/// Binding powers (left, right) of an infix operator.
pub open spec fn infix_bp(op: BinaryOp) -> (u8, u8) {
    match op {
        BinaryOp::Or => (1, 2),
        BinaryOp::And => (3, 4),
        BinaryOp::Eq | BinaryOp::Neq | BinaryOp::Lt | BinaryOp::Lte | BinaryOp::Gt
        | BinaryOp::Gte => (5, 6),
        BinaryOp::Add | BinaryOp::Sub => (7, 8),
        BinaryOp::Mul | BinaryOp::Div | BinaryOp::Mod => (9, 10),
    }
}

/// Binding power for Pratt parser precedence: (left_bp, right_bp) of an infix operator.
/// OR binds loosest, then AND, the comparisons, `+ -`, and `* / %` tightest.
pub fn infix_binding_power(op: &BinaryOp) -> (r: (u8, u8))
    ensures
        r == infix_bp(*op),
        r.0 < r.1,
{
    match op {
        BinaryOp::Or => (1, 2),
        BinaryOp::And => (3, 4),
        BinaryOp::Eq | BinaryOp::Neq | BinaryOp::Lt | BinaryOp::Lte | BinaryOp::Gt
        | BinaryOp::Gte => (5, 6),
        BinaryOp::Add | BinaryOp::Sub => (7, 8),
        BinaryOp::Mul | BinaryOp::Div | BinaryOp::Mod => (9, 10),
    }
}

/// Right binding power of a prefix operator: NOT sits between AND and the
/// comparisons, unary minus binds tighter than every infix operator.
pub fn prefix_binding_power(op: &UnaryOp) -> (r: u8)
    ensures
        r == match *op {
            UnaryOp::Not => 4u8,
            UnaryOp::Neg => 11u8,
        },
{
    match op {
        UnaryOp::Not => 4,
        UnaryOp::Neg => 11,
    }
}

/// The binary operator a token stands for, if any.
pub open spec fn binop_of(t: SpecToken) -> Option<BinaryOp> {
    match t {
        SpecToken::Plus => Some(BinaryOp::Add),
        SpecToken::Minus => Some(BinaryOp::Sub),
        SpecToken::Star => Some(BinaryOp::Mul),
        SpecToken::Slash => Some(BinaryOp::Div),
        SpecToken::Percent => Some(BinaryOp::Mod),
        SpecToken::Eq => Some(BinaryOp::Eq),
        SpecToken::NotEqual | SpecToken::BangEqual => Some(BinaryOp::Neq),
        SpecToken::Less => Some(BinaryOp::Lt),
        SpecToken::LessEqual => Some(BinaryOp::Lte),
        SpecToken::Greater => Some(BinaryOp::Gt),
        SpecToken::GreaterEqual => Some(BinaryOp::Gte),
        SpecToken::And => Some(BinaryOp::And),
        SpecToken::Or => Some(BinaryOp::Or),
        _ => None,
    }
}

/// Maps a token to a binary operator, if applicable.
pub fn token_to_binary_op(token: &Token) -> (r: Option<BinaryOp>)
    ensures
        r == binop_of(token@),
{
    match token {
        Token::Plus => Some(BinaryOp::Add),
        Token::Minus => Some(BinaryOp::Sub),
        Token::Star => Some(BinaryOp::Mul),
        Token::Slash => Some(BinaryOp::Div),
        Token::Percent => Some(BinaryOp::Mod),
        Token::Eq => Some(BinaryOp::Eq),
        Token::NotEqual | Token::BangEqual => Some(BinaryOp::Neq),
        Token::Less => Some(BinaryOp::Lt),
        Token::LessEqual => Some(BinaryOp::Lte),
        Token::Greater => Some(BinaryOp::Gt),
        Token::GreaterEqual => Some(BinaryOp::Gte),
        Token::And => Some(BinaryOp::And),
        Token::Or => Some(BinaryOp::Or),
        _ => None,
    }
}

/// The relation a comparison token writes between two numbers.
pub open spec fn written_relation(t: SpecToken, x: i64, y: i64) -> bool {
    match t {
        SpecToken::Eq => x == y,
        SpecToken::NotEqual | SpecToken::BangEqual => x != y,
        SpecToken::Less => x < y,
        SpecToken::LessEqual => x <= y,
        SpecToken::Greater => x > y,
        SpecToken::GreaterEqual => x >= y,
        _ => false,
    }
}

/// A comparison token.
pub open spec fn is_comparison_token(t: SpecToken) -> bool {
    t is Eq || t is NotEqual || t is BangEqual || t is Less || t is LessEqual || t is Greater
        || t is GreaterEqual
}

/// Each comparison token is read as the comparison it writes: for all
/// numbers `x` and `y`, the operator read from `<=` holds exactly when
/// `x <= y`, that read from `<` exactly when `x < y`, and so on; so the six
/// relations `= <> < <= > >=` are read as six different operators.
pub proof fn lemma_comparison_tokens(t: SpecToken, x: i64, y: i64)
    requires
        is_comparison_token(t),
    ensures
        binop_of(t) matches Some(op) && compares(x, y, op) == written_relation(t, x, y),
{
}

/// The arithmetic and boolean tokens are read as the operations they
/// write: `+ - *` compute the sum, difference and product (when it fits),
/// `/` and `%` the quotient and remainder of non-negative numbers by a
/// positive one, and `AND` / `OR` the conjunction and disjunction.
pub proof fn lemma_operation_tokens(x: i64, y: i64, a: bool, b: bool)
    ensures
        binop_of(SpecToken::Plus) matches Some(op) && (i64::MIN <= x + y <= i64::MAX ==> int_fold(
            op,
            x,
            y,
        ) == Some((x + y) as i64)),
        binop_of(SpecToken::Minus) matches Some(op) && (i64::MIN <= x - y <= i64::MAX ==> int_fold(
            op,
            x,
            y,
        ) == Some((x - y) as i64)),
        binop_of(SpecToken::Star) matches Some(op) && (i64::MIN <= x * y <= i64::MAX ==> int_fold(
            op,
            x,
            y,
        ) == Some((x * y) as i64)),
        binop_of(SpecToken::Slash) matches Some(op) && (x >= 0 && y > 0 ==> int_fold(op, x, y)
            == Some((x / y) as i64)),
        binop_of(SpecToken::Percent) matches Some(op) && (x >= 0 && y > 0 ==> int_fold(op, x, y)
            == Some((x % y) as i64)),
        binop_of(SpecToken::And) matches Some(op) && bool_op(op, Truth::Bool(a), Truth::Bool(b))
            == Ok::<Option<bool>, LogicError>(Some(a && b)),
        binop_of(SpecToken::Or) matches Some(op) && bool_op(op, Truth::Bool(a), Truth::Bool(b))
            == Ok::<Option<bool>, LogicError>(Some(a || b)),
{
    if x >= 0 && y > 0 {
        let xi = x as int;
        let yi = y as int;
        assert(0 <= xi % yi < yi) by (nonlinear_arith)
            requires
                yi > 0,
        ;
        if xi == 0 {
            assert(xi % yi == 0) by (nonlinear_arith)
                requires
                    xi == 0,
                    yi > 0,
            ;
        }
    }
}

/// Operator precedence: in `a op1 b op2 c`, an operator that binds more
/// tightly takes its operands first: when `op2` binds more tightly than
/// `op1` the expression reads as `a op1 (b op2 c)`, and otherwise (also for
/// operators of the same level, which group to the left) as
/// `(a op1 b) op2 c`.
pub proof fn lemma_precedence(ts: Toks, a: i64, b: i64, c: i64)
    requires
        ts.len() == 5,
        ts[0].0@ == SpecToken::Integer(a),
        ts[2].0@ == SpecToken::Integer(b),
        ts[4].0@ == SpecToken::Integer(c),
        binding_rank(ts[1].0@) > 0,
        binding_rank(ts[3].0@) > 0,
    ensures
        ({
            let la = SpecExpr::Literal(SpecLiteral::Integer(a));
            let lb = SpecExpr::Literal(SpecLiteral::Integer(b));
            let lc = SpecExpr::Literal(SpecLiteral::Integer(c));
            &&& binop_of(ts[1].0@) is Some && binop_of(ts[3].0@) is Some
            &&& {
                let o1 = binop_of(ts[1].0@)->0;
                let o2 = binop_of(ts[3].0@)->0;
                if binding_rank(ts[3].0@) > binding_rank(ts[1].0@) {
                    expr_at(ts, 0, 0) == Some(
                        (
                            SpecExpr::BinaryOp(
                                o1,
                                Box::new(la),
                                Box::new(SpecExpr::BinaryOp(o2, Box::new(lb), Box::new(lc))),
                            ),
                            5int,
                        ),
                    )
                } else {
                    expr_at(ts, 0, 0) == Some(
                        (
                            SpecExpr::BinaryOp(
                                o2,
                                Box::new(SpecExpr::BinaryOp(o1, Box::new(la), Box::new(lb))),
                                Box::new(lc),
                            ),
                            5int,
                        ),
                    )
                }
            }
        }),
{
    let la = SpecExpr::Literal(SpecLiteral::Integer(a));
    let lb = SpecExpr::Literal(SpecLiteral::Integer(b));
    let lc = SpecExpr::Literal(SpecLiteral::Integer(c));
    let o1 = binop_of(ts[1].0@)->0;
    let o2 = binop_of(ts[3].0@)->0;
    let r1 = infix_bp(o1).1 as int;
    let r2 = infix_bp(o2).1 as int;
    assert(primary_at(ts, 0) == Some((la, 1int)));
    assert(prefix_at(ts, 0) == Some((la, 1int)));
    assert(primary_at(ts, 2) == Some((lb, 3int)));
    assert(prefix_at(ts, 2) == Some((lb, 3int)));
    assert(primary_at(ts, 4) == Some((lc, 5int)));
    assert(prefix_at(ts, 4) == Some((lc, 5int)));
    assert(op_at(ts, 1) == Some(o1));
    assert(op_at(ts, 3) == Some(o2));
    assert(infix_from(ts, lc, 5, r2) == Some((lc, 5int)));
    assert(expr_at(ts, 4, r2) == Some((lc, 5int)));
    if binding_rank(ts[3].0@) > binding_rank(ts[1].0@) {
        let bc = SpecExpr::BinaryOp(o2, Box::new(lb), Box::new(lc));
        assert(infix_from(ts, bc, 5, r1) == Some((bc, 5int)));
        assert(infix_from(ts, lb, 3, r1) == Some((bc, 5int)));
        assert(expr_at(ts, 2, r1) == Some((bc, 5int)));
        let all = SpecExpr::BinaryOp(o1, Box::new(la), Box::new(bc));
        assert(infix_from(ts, all, 5, 0) == Some((all, 5int)));
        assert(infix_from(ts, la, 1, 0) == Some((all, 5int)));
    } else {
        assert(infix_from(ts, lb, 3, r1) == Some((lb, 3int)));
        assert(expr_at(ts, 2, r1) == Some((lb, 3int)));
        let ab = SpecExpr::BinaryOp(o1, Box::new(la), Box::new(lb));
        let all = SpecExpr::BinaryOp(o2, Box::new(ab), Box::new(lc));
        assert(infix_from(ts, all, 5, 0) == Some((all, 5int)));
        assert(infix_from(ts, ab, 3, 0) == Some((all, 5int)));
        assert(infix_from(ts, la, 1, 0) == Some((all, 5int)));
    }
}

/// Two numbers around a comparison token read as that comparison of the
/// two numbers: `x <= y` as `BinaryOp(Lte, x, y)`, and so on.
pub proof fn lemma_parse_comparison(ts: Toks, x: i64, y: i64)
    requires
        ts.len() == 3,
        ts[0].0@ == SpecToken::Integer(x),
        is_comparison_token(ts[1].0@),
        ts[2].0@ == SpecToken::Integer(y),
    ensures
        expr_at(ts, 0, 0) matches Some((SpecExpr::BinaryOp(op, l, r), j)) && j == 3 && *l
            == SpecExpr::Literal(SpecLiteral::Integer(x)) && *r == SpecExpr::Literal(
            SpecLiteral::Integer(y),
        ) && compares(x, y, op) == written_relation(ts[1].0@, x, y),
{
    let lx = SpecExpr::Literal(SpecLiteral::Integer(x));
    let ly = SpecExpr::Literal(SpecLiteral::Integer(y));
    let op = binop_of(ts[1].0@)->0;
    assert(primary_at(ts, 0) == Some((lx, 1int)));
    assert(prefix_at(ts, 0) == Some((lx, 1int)));
    assert(primary_at(ts, 2) == Some((ly, 3int)));
    assert(prefix_at(ts, 2) == Some((ly, 3int)));
    assert(infix_from(ts, ly, 3, 6) == Some((ly, 3int)));
    assert(expr_at(ts, 2, 6) == Some((ly, 3int)));
    let both = SpecExpr::BinaryOp(op, Box::new(lx), Box::new(ly));
    assert(infix_from(ts, both, 3, 0) == Some((both, 3int)));
    assert(infix_from(ts, lx, 1, 0) == Some((both, 3int)));
    assert(expr_at(ts, 0, 0) == Some((both, 3int)));
}

/// How tightly an infix token binds, loosest first: OR, AND, the
/// comparisons, `+ -`, then `* / %`; 0 for any other token.
pub open spec fn binding_rank(t: SpecToken) -> int {
    match t {
        SpecToken::Or => 1,
        SpecToken::And => 2,
        SpecToken::Eq | SpecToken::NotEqual | SpecToken::BangEqual | SpecToken::Less
        | SpecToken::LessEqual | SpecToken::Greater | SpecToken::GreaterEqual => 3,
        SpecToken::Plus | SpecToken::Minus => 4,
        SpecToken::Star | SpecToken::Slash | SpecToken::Percent => 5,
        _ => 0,
    }
}

/// Tokens read by the parser.
pub type Toks = Seq<(Token, Span)>;

/// An expression read from a position, and the position after it; `None`
/// when the tokens there do not form one.
pub type ExprRead = Option<(SpecExpr, int)>;

/// A list of expressions read from a position, and the position after it.
pub type ListRead = Option<(Seq<SpecExpr>, int)>;

/// The expression a single token stands for when it is read as a whole
/// primary expression: a literal, a parameter, or a variable name (an
/// identifier not followed by `(`).
pub open spec fn atom_at(ts: Toks, k: int) -> Option<SpecExpr> {
    if 0 <= k < ts.len() {
        match ts[k].0@ {
            SpecToken::Integer(n) => Some(SpecExpr::Literal(SpecLiteral::Integer(n))),
            SpecToken::Float(t) => Some(SpecExpr::Literal(SpecLiteral::Float(t))),
            SpecToken::StringLiteral(t) => Some(SpecExpr::Literal(SpecLiteral::String(t))),
            SpecToken::True => Some(SpecExpr::Literal(SpecLiteral::Bool(true))),
            SpecToken::False => Some(SpecExpr::Literal(SpecLiteral::Bool(false))),
            SpecToken::Null => Some(SpecExpr::Literal(SpecLiteral::Null)),
            SpecToken::Parameter(n) => Some(SpecExpr::Parameter(n)),
            SpecToken::BacktickIdent(n) => Some(SpecExpr::Variable(n)),
            SpecToken::Ident(n) => if tok_is(ts, k + 1, SpecToken::LParen) {
                None
            } else {
                Some(SpecExpr::Variable(n))
            },
            _ => None,
        }
    } else {
        None
    }
}

/// The infix operator token at `k`, if any.
pub open spec fn op_at(ts: Toks, k: int) -> Option<BinaryOp> {
    if 0 <= k < ts.len() {
        binop_of(ts[k].0@)
    } else {
        None
    }
}

/// The expression from `k` whose infix operators all bind at least
/// `min_bp` on their left: a prefix expression, then what follows it.
pub open spec fn expr_at(ts: Toks, k: int, min_bp: int) -> ExprRead
    decreases ts.len() - k, 2int,
{
    if k < 0 || k > ts.len() {
        None
    } else {
        match prefix_at(ts, k) {
            Some((lhs, j)) => if k < j <= ts.len() {
                infix_from(ts, lhs, j, min_bp)
            } else {
                None
            },
            None => None,
        }
    }
}

/// What follows an expression `lhs` read up to `j`: property accesses,
/// `IS [NOT] NULL` tests and infix operators binding at least `min_bp`,
/// applied left to right (a right operand binds its operator's right power).
pub open spec fn infix_from(ts: Toks, lhs: SpecExpr, j: int, min_bp: int) -> ExprRead
    decreases ts.len() - j, 3int,
{
    if j < 0 || j > ts.len() {
        None
    } else if tok_is(ts, j, SpecToken::Dot) {
        match ident_at(ts, j + 1) {
            Some(name) => infix_from(ts, SpecExpr::Property(Box::new(lhs), name), j + 2, min_bp),
            None => None,
        }
    } else if tok_is(ts, j, SpecToken::Is) {
        if 5 < min_bp {
            Some((lhs, j))
        } else {
            let neg = tok_is(ts, j + 1, SpecToken::Not);
            let m = if neg {
                j + 2
            } else {
                j + 1
            };
            if tok_is(ts, m, SpecToken::Null) {
                infix_from(ts, SpecExpr::IsNull(Box::new(lhs), neg), m + 1, min_bp)
            } else {
                None
            }
        }
    } else {
        match op_at(ts, j) {
            Some(op) => if (infix_bp(op).0 as int) < min_bp {
                Some((lhs, j))
            } else {
                match expr_at(ts, j + 1, infix_bp(op).1 as int) {
                    Some((rhs, m)) => if j + 1 < m <= ts.len() {
                        infix_from(
                            ts,
                            SpecExpr::BinaryOp(op, Box::new(lhs), Box::new(rhs)),
                            m,
                            min_bp,
                        )
                    } else {
                        None
                    },
                    None => None,
                }
            },
            None => Some((lhs, j)),
        }
    }
}

/// A prefix expression from `k`: `NOT e`, `-e`, `(e)`, a list literal, or a
/// primary expression.
pub open spec fn prefix_at(ts: Toks, k: int) -> ExprRead
    decreases ts.len() - k, 1int,
{
    if k < 0 || k >= ts.len() {
        None
    } else if tok_is(ts, k, SpecToken::Not) {
        match expr_at(ts, k + 1, 4) {
            Some((e, j)) => Some((SpecExpr::UnaryOp(UnaryOp::Not, Box::new(e)), j)),
            None => None,
        }
    } else if tok_is(ts, k, SpecToken::Minus) {
        match expr_at(ts, k + 1, 11) {
            Some((e, j)) => Some((SpecExpr::UnaryOp(UnaryOp::Neg, Box::new(e)), j)),
            None => None,
        }
    } else if tok_is(ts, k, SpecToken::LParen) {
        match expr_at(ts, k + 1, 0) {
            Some((e, j)) => if tok_is(ts, j, SpecToken::RParen) {
                Some((e, j + 1))
            } else {
                None
            },
            None => None,
        }
    } else if tok_is(ts, k, SpecToken::LBracket) {
        list_at(ts, k)
    } else {
        primary_at(ts, k)
    }
}

/// One or more expressions separated by commas, from `k`.
pub open spec fn expr_list_at(ts: Toks, k: int) -> ListRead
    decreases ts.len() - k, 4int,
{
    if k < 0 || k > ts.len() {
        None
    } else {
        match expr_at(ts, k, 0) {
            Some((e, j)) => if k < j <= ts.len() {
                if tok_is(ts, j, SpecToken::Comma) {
                    match expr_list_at(ts, j + 1) {
                        Some((es, m)) => Some((seq![e] + es, m)),
                        None => None,
                    }
                } else {
                    Some((seq![e], j))
                }
            } else {
                None
            },
            None => None,
        }
    }
}

/// A list literal `[e, ...]` from `k`.
pub open spec fn list_at(ts: Toks, k: int) -> ExprRead
    decreases ts.len() - k, 0int,
{
    if !tok_is(ts, k, SpecToken::LBracket) {
        None
    } else if tok_is(ts, k + 1, SpecToken::RBracket) {
        Some((SpecExpr::ListLiteral(Seq::empty()), k + 2))
    } else {
        match expr_list_at(ts, k + 1) {
            Some((es, j)) => if tok_is(ts, j, SpecToken::RBracket) {
                Some((SpecExpr::ListLiteral(es), j + 1))
            } else {
                None
            },
            None => None,
        }
    }
}

/// The arguments of a call from `k` (after its `(` and optional
/// `DISTINCT`), up to and including `)`.
pub open spec fn call_args_at(ts: Toks, k: int) -> ListRead
    decreases ts.len() - k, 5int,
{
    if k < 0 || k > ts.len() {
        None
    } else if tok_is(ts, k, SpecToken::RParen) {
        Some((Seq::empty(), k + 1))
    } else {
        match expr_list_at(ts, k) {
            Some((es, j)) => if tok_is(ts, j, SpecToken::RParen) {
                Some((es, j + 1))
            } else {
                None
            },
            None => None,
        }
    }
}

/// A primary expression from `k`: an atom, `count(*)`, `count([DISTINCT] e)`,
/// or a function call `name([DISTINCT] args)`.
pub open spec fn primary_at(ts: Toks, k: int) -> ExprRead
    decreases ts.len() - k, 0int,
{
    if k < 0 || k >= ts.len() {
        None
    } else {
        match ts[k].0@ {
            SpecToken::Count => if !tok_is(ts, k + 1, SpecToken::LParen) {
                None
            } else if tok_is(ts, k + 2, SpecToken::Star) {
                if tok_is(ts, k + 3, SpecToken::RParen) {
                    Some((SpecExpr::CountStar, k + 4))
                } else {
                    None
                }
            } else {
                let d = tok_is(ts, k + 2, SpecToken::Distinct);
                let s = if d {
                    k + 3
                } else {
                    k + 2
                };
                match expr_at(ts, s, 0) {
                    Some((e, j)) => if tok_is(ts, j, SpecToken::RParen) {
                        Some(
                            (
                                SpecExpr::FunctionCall { name: "count"@, distinct: d, args: seq![e] },
                                j + 1,
                            ),
                        )
                    } else {
                        None
                    },
                    None => None,
                }
            },
            SpecToken::Ident(name) => if tok_is(ts, k + 1, SpecToken::LParen) {
                let d = tok_is(ts, k + 2, SpecToken::Distinct);
                let s = if d {
                    k + 3
                } else {
                    k + 2
                };
                match call_args_at(ts, s) {
                    Some((args, j)) => Some((SpecExpr::FunctionCall { name, distinct: d, args }, j)),
                    None => None,
                }
            } else {
                Some((SpecExpr::Variable(name), k + 1))
            },
            _ => match atom_at(ts, k) {
                Some(e) => Some((e, k + 1)),
                None => None,
            },
        }
    }
}

/// The model of an expression result, with the position after it.
pub open spec fn expr_outcome(r: Result<Expression, ParseError>, pos: int) -> ExprRead {
    match r {
        Ok(e) => Some((e@, pos)),
        Err(_) => None,
    }
}

/// Tokens that can begin an expression.
pub open spec fn starts_expression(t: SpecToken) -> bool {
    match t {
        SpecToken::Not | SpecToken::Minus | SpecToken::LParen | SpecToken::LBracket
        | SpecToken::Integer(_) | SpecToken::Float(_) | SpecToken::StringLiteral(_)
        | SpecToken::True | SpecToken::False | SpecToken::Null | SpecToken::Parameter(_)
        | SpecToken::Count | SpecToken::Ident(_) | SpecToken::BacktickIdent(_) => true,
        _ => false,
    }
}

/// The rest of a comma-separated list whose first expressions `es` end
/// at `j`: more expressions after a comma, or nothing more.
pub open spec fn list_tail(ts: Toks, es: Seq<SpecExpr>, j: int) -> ListRead {
    if tok_is(ts, j, SpecToken::Comma) {
        match expr_list_at(ts, j + 1) {
            Some((rest, m)) => Some((es + rest, m)),
            None => None,
        }
    } else {
        Some((es, j))
    }
}

/// Reading one more expression after a comma moves it into the list.
proof fn lemma_list_tail_step(ts: Toks, es: Seq<SpecExpr>, j: int, e: SpecExpr, m: int)
    requires
        tok_is(ts, j, SpecToken::Comma),
        expr_at(ts, j + 1, 0) == Some((e, m)),
        j + 1 < m <= ts.len(),
    ensures
        list_tail(ts, es, j) == list_tail(ts, es.push(e), m),
{
    if tok_is(ts, m, SpecToken::Comma) {
        match expr_list_at(ts, m + 1) {
            Some((rest, m2)) => {
                assert(es + (seq![e] + rest) =~= es.push(e) + rest);
            },
            None => {},
        }
    } else {
        assert(es + seq![e] =~= es.push(e));
    }
}

impl<'a> Parser<'a> {
    /// Parses an expression by precedence climbing.
    pub fn parse_expression(&mut self) -> (r: Result<Expression, ParseError>)
        requires
            old(self).wf(),
        ensures
            super::reported(r),
            expr_outcome(r, final(self).pos as int) == expr_at(old(self).tokens@, old(self).pos as int, 0),
            final(self).moved_from(old(self)),
            r is Ok ==> final(self).pos > old(self).pos,
            old(self).pos >= old(self).tokens@.len() ==> r is Err,
            old(self).pos < old(self).tokens@.len() && !starts_expression(
                old(self).tok(old(self).pos as int),
            ) ==> r is Err,
        decreases old(self).tokens@.len() - old(self).pos, 3int,
    {
        self.parse_expr_bp(0)
    }

    /// Parses an expression but stops before AND/OR (for `BETWEEN TIME a AND b`):
    /// AND has left binding power 3, so a minimum of 4 leaves it unread.
    pub fn parse_expression_no_and(&mut self) -> (r: Result<Expression, ParseError>)
        requires
            old(self).wf(),
        ensures
            super::reported(r),
            expr_outcome(r, final(self).pos as int) == expr_at(old(self).tokens@, old(self).pos as int, 4),
            final(self).moved_from(old(self)),
            r is Ok ==> final(self).pos > old(self).pos,
            old(self).pos >= old(self).tokens@.len() ==> r is Err,
            old(self).pos < old(self).tokens@.len() && !starts_expression(
                old(self).tok(old(self).pos as int),
            ) ==> r is Err,
            r is Ok && final(self).pos < final(self).tokens@.len() ==> match binop_of(
                final(self).tok(final(self).pos as int),
            ) {
                Some(op) => infix_bp(op).0 < 4,
                None => true,
            },
        decreases old(self).tokens@.len() - old(self).pos, 3int,
    {
        self.parse_expr_bp(4)
    }

    /// Pratt parser core: an expression whose infix operators all have left
    /// binding power at least `min_bp`.  On success the next token is not an
    /// operator that could continue it at this level.
    pub fn parse_expr_bp(&mut self, min_bp: u8) -> (r: Result<Expression, ParseError>)
        requires
            old(self).wf(),
        ensures
            super::reported(r),
            expr_outcome(r, final(self).pos as int) == expr_at(
                old(self).tokens@,
                old(self).pos as int,
                min_bp as int,
            ),
            final(self).moved_from(old(self)),
            r is Ok ==> final(self).pos > old(self).pos,
            old(self).pos >= old(self).tokens@.len() ==> r is Err,
            old(self).pos < old(self).tokens@.len() && !starts_expression(
                old(self).tok(old(self).pos as int),
            ) ==> r is Err,
            r is Ok && final(self).pos < final(self).tokens@.len() ==> match binop_of(
                final(self).tok(final(self).pos as int),
            ) {
                Some(op) => infix_bp(op).0 < min_bp,
                None => true,
            },
            r is Ok && final(self).pos < final(self).tokens@.len() ==> final(self).tok(
                final(self).pos as int,
            ) != SpecToken::Dot,
        decreases old(self).tokens@.len() - old(self).pos, 2int,
    {
        let start = self.pos;
        let ghost ts = self.tokens@;
        let mut lhs = match self.parse_prefix() {
            Ok(e) => e,
            Err(e) => return Err(e),
        };
        assert(expr_at(ts, start as int, min_bp as int) == infix_from(ts, lhs@, self.pos as int, min_bp as int));
        loop
            invariant
                self.moved_from(old(self)),
                self.pos > start,
                start == old(self).pos,
                ts == old(self).tokens@,
                infix_from(ts, lhs@, self.pos as int, min_bp as int) == expr_at(
                    ts,
                    start as int,
                    min_bp as int,
                ),
            ensures
                self.moved_from(old(self)),
                self.pos > start,
                expr_at(ts, start as int, min_bp as int) == Some((lhs@, self.pos as int)),
                self.pos < self.tokens@.len() ==> match binop_of(self.tok(self.pos as int)) {
                    Some(op) => infix_bp(op).0 < min_bp,
                    None => true,
                },
                self.pos < self.tokens@.len() ==> self.tok(self.pos as int) != SpecToken::Dot,
            decreases self.tokens@.len() - self.pos,
        {
            let ghost j = self.pos as int;
            let ghost prev = lhs@;
            if self.check(&Token::Dot) {
                self.advance();
                let prop = match self.expect_ident() {
                    Ok(p) => p,
                    Err(e) => return Err(e),
                };
                lhs = Expression::Property(Box::new(lhs), prop);
                assert(lhs@ == SpecExpr::Property(Box::new(prev), prop@));
                continue;
            }
            if self.check(&Token::Is) {
                let (line, column) = self.offset_to_line_col(self.current_span().start);
                let is_bp: u8 = 5;
                if is_bp < min_bp {
                    break;
                }
                self.advance();
                let negated = self.eat(&Token::Not);
                if !self.check(&Token::Null) {
                    proof {
                        reveal_strlit("expected NULL after IS [NOT]");
                    }
                    return Err(
                        ParseError {
                            line,
                            column,
                            message: owned("expected NULL after IS [NOT]"),
                        },
                    );
                }
                self.advance();
                lhs = Expression::IsNull(Box::new(lhs), negated);
                assert(lhs@ == SpecExpr::IsNull(Box::new(prev), negated));
                continue;
            }
            let op = match self.peek() {
                Some(t) => match token_to_binary_op(t) {
                    Some(op) => op,
                    None => break,
                },
                None => break,
            };
            assert(op_at(ts, j) == Some(op));
            let (l_bp, r_bp) = infix_binding_power(&op);
            if l_bp < min_bp {
                break;
            }
            self.advance();
            let rhs = match self.parse_expr_bp(r_bp) {
                Ok(e) => e,
                Err(e) => return Err(e),
            };
            lhs = Expression::BinaryOp(op, Box::new(lhs), Box::new(rhs));
            assert(lhs@ == SpecExpr::BinaryOp(op, Box::new(prev), Box::new(rhs@)));
        }
        Ok(lhs)
    }

    /// Parses a prefix expression (unary operator, parenthesized expression,
    /// list literal) or a primary expression.
    fn parse_prefix(&mut self) -> (r: Result<Expression, ParseError>)
        requires
            old(self).wf(),
        ensures
            super::reported(r),
            expr_outcome(r, final(self).pos as int) == prefix_at(old(self).tokens@, old(self).pos as int),
            final(self).moved_from(old(self)),
            r is Ok ==> final(self).pos > old(self).pos,
            old(self).pos >= old(self).tokens@.len() ==> r is Err,
            old(self).pos < old(self).tokens@.len() && !starts_expression(
                old(self).tok(old(self).pos as int),
            ) ==> r is Err,
        decreases old(self).tokens@.len() - old(self).pos, 1int,
    {
        if self.check(&Token::Not) {
            self.advance();
            let r_bp = prefix_binding_power(&UnaryOp::Not);
            let e = match self.parse_expr_bp(r_bp) {
                Ok(e) => e,
                Err(e) => return Err(e),
            };
            Ok(Expression::UnaryOp(UnaryOp::Not, Box::new(e)))
        } else if self.check(&Token::Minus) {
            self.advance();
            let r_bp = prefix_binding_power(&UnaryOp::Neg);
            let e = match self.parse_expr_bp(r_bp) {
                Ok(e) => e,
                Err(e) => return Err(e),
            };
            Ok(Expression::UnaryOp(UnaryOp::Neg, Box::new(e)))
        } else if self.check(&Token::LParen) {
            self.advance();
            let e = match self.parse_expr_bp(0) {
                Ok(e) => e,
                Err(e) => return Err(e),
            };
            match self.expect(&Token::RParen) {
                Ok(_) => Ok(e),
                Err(err) => Err(err),
            }
        } else if self.check(&Token::LBracket) {
            self.parse_list_literal()
        } else {
            self.parse_primary()
        }
    }

    /// Parses one or more comma-separated expressions.
    pub(crate) fn parse_expr_list(&mut self) -> (r: Result<Vec<Expression>, ParseError>)
        requires
            old(self).wf(),
        ensures
            super::reported(r),
            final(self).moved_from(old(self)),
            match r {
                Ok(v) => expr_list_at(old(self).tokens@, old(self).pos as int) == Some(
                    (exprs_view(v@), final(self).pos as int),
                ) && final(self).pos > old(self).pos,
                Err(_) => expr_list_at(old(self).tokens@, old(self).pos as int) is None,
            },
        decreases old(self).tokens@.len() - old(self).pos, 4int,
    {
        let ghost ts = self.tokens@;
        let ghost k0 = self.pos as int;
        let mut elements: Vec<Expression> = Vec::new();
        match self.parse_expression() {
            Ok(e) => elements.push(e),
            Err(e) => return Err(e),
        }
        proof {
            lemma_exprs_view(elements@);
            assert(exprs_view(elements@) =~= seq![elements@[0]@]);
        }
        while self.eat(&Token::Comma)
            invariant
                self.moved_from(old(self)),
                self.pos > old(self).pos,
                ts == old(self).tokens@,
                k0 == old(self).pos,
                expr_list_at(ts, k0) == list_tail(ts, exprs_view(elements@), self.pos as int),
            decreases self.tokens@.len() - self.pos,
        {
            let ghost j = self.pos - 1;
            let ghost before = elements@;
            match self.parse_expression() {
                Ok(e) => {
                    proof {
                        lemma_list_tail_step(ts, exprs_view(before), j, e@, self.pos as int);
                    }
                    elements.push(e);
                    proof {
                        lemma_exprs_view(before);
                        lemma_exprs_view(elements@);
                        assert(exprs_view(elements@) =~= exprs_view(before).push(e@));
                    }
                },
                Err(e) => return Err(e),
            }
        }
        Ok(elements)
    }

    /// Parses a list literal: `[expr, expr, ...]`.
    fn parse_list_literal(&mut self) -> (r: Result<Expression, ParseError>)
        requires
            old(self).wf(),
        ensures
            super::reported(r),
            expr_outcome(r, final(self).pos as int) == list_at(old(self).tokens@, old(self).pos as int),
            final(self).moved_from(old(self)),
            r is Ok ==> final(self).pos > old(self).pos && r->Ok_0 is ListLiteral,
            !old(self).at(old(self).pos as int, SpecToken::LBracket) ==> r is Err,
        decreases old(self).tokens@.len() - old(self).pos, 0int,
    {
        match self.expect(&Token::LBracket) {
            Ok(_) => {},
            Err(e) => return Err(e),
        }
        let mut elements: Vec<Expression> = Vec::new();
        if !self.check(&Token::RBracket) {
            elements = match self.parse_expr_list() {
                Ok(v) => v,
                Err(e) => return Err(e),
            };
        }
        proof {
            lemma_exprs_view(elements@);
        }
        match self.expect(&Token::RBracket) {
            Ok(_) => Ok(Expression::ListLiteral(elements)),
            Err(e) => Err(e),
        }
    }

    /// Parses the comma-separated arguments of a call, up to and including `)`.
    fn parse_call_args(&mut self) -> (r: Result<Vec<Expression>, ParseError>)
        requires
            old(self).wf(),
        ensures
            super::reported(r),
            match r {
                Ok(v) => call_args_at(old(self).tokens@, old(self).pos as int) == Some(
                    (exprs_view(v@), final(self).pos as int),
                ),
                Err(_) => call_args_at(old(self).tokens@, old(self).pos as int) is None,
            },
            final(self).moved_from(old(self)),
            r is Ok ==> final(self).pos > old(self).pos,
        decreases old(self).tokens@.len() - old(self).pos + 1, 0int,
    {
        let mut args: Vec<Expression> = Vec::new();
        if !self.check(&Token::RParen) {
            args = match self.parse_expr_list() {
                Ok(v) => v,
                Err(e) => return Err(e),
            };
        }
        proof {
            lemma_exprs_view(args@);
        }
        match self.expect(&Token::RParen) {
            Ok(_) => Ok(args),
            Err(e) => Err(e),
        }
    }

    /// The rest of `count(...)` after the `count` token at `k`: `(*)` or
    /// `([DISTINCT] expr)`.
    fn parse_count_call(&mut self, k: usize) -> (r: Result<Expression, ParseError>)
        requires
            old(self).wf(),
            old(self).pos == k + 1,
            k < old(self).tokens@.len(),
            old(self).tok(k as int) == SpecToken::Count,
        ensures
            super::reported(r),
            expr_outcome(r, final(self).pos as int) == primary_at(old(self).tokens@, k as int),
            final(self).moved_from(old(self)),
        decreases old(self).tokens@.len() - old(self).pos, 0int,
    {
        match self.expect(&Token::LParen) {
            Ok(_) => {},
            Err(e) => return Err(e),
        }
        if self.eat(&Token::Star) {
            return match self.expect(&Token::RParen) {
                Ok(_) => Ok(Expression::CountStar),
                Err(e) => Err(e),
            };
        }
        let distinct = self.eat(&Token::Distinct);
        let arg = match self.parse_expression() {
            Ok(e) => e,
            Err(e) => return Err(e),
        };
        match self.expect(&Token::RParen) {
            Ok(_) => {},
            Err(e) => return Err(e),
        }
        let mut args: Vec<Expression> = Vec::new();
        args.push(arg);
        proof {
            reveal_strlit("count");
            lemma_exprs_view(args@);
            assert(exprs_view(args@) =~= seq![arg@]);
        }
        Ok(Expression::FunctionCall { name: owned("count"), distinct, args })
    }

    /// The rest of a call or variable after the identifier `name` at `k`.
    fn parse_named(&mut self, k: usize, name: String) -> (r: Result<Expression, ParseError>)
        requires
            old(self).wf(),
            old(self).pos == k + 1,
            k < old(self).tokens@.len(),
            old(self).tok(k as int) == SpecToken::Ident(name@),
        ensures
            super::reported(r),
            expr_outcome(r, final(self).pos as int) == primary_at(old(self).tokens@, k as int),
            final(self).moved_from(old(self)),
            r is Ok ==> final(self).pos > k,
        decreases old(self).tokens@.len() - old(self).pos, 1int,
    {
        if self.check(&Token::LParen) {
            self.advance();
            let distinct = self.eat(&Token::Distinct);
            let args = match self.parse_call_args() {
                Ok(a) => a,
                Err(e) => return Err(e),
            };
            Ok(Expression::FunctionCall { name, distinct, args })
        } else {
            Ok(Expression::Variable(name))
        }
    }

    /// Parses a primary expression: literal, variable, function call, parameter.
    fn parse_primary(&mut self) -> (r: Result<Expression, ParseError>)
        requires
            old(self).wf(),
        ensures
            super::reported(r),
            expr_outcome(r, final(self).pos as int) == primary_at(old(self).tokens@, old(self).pos as int),
            final(self).moved_from(old(self)),
            r is Ok ==> final(self).pos > old(self).pos,
            old(self).pos >= old(self).tokens@.len() ==> r is Err,
            old(self).pos < old(self).tokens@.len() && !starts_expression(
                old(self).tok(old(self).pos as int),
            ) ==> r is Err,
        decreases old(self).tokens@.len() - old(self).pos, 0int,
    {
        proof {
            reveal_strlit("unexpected end of input in expression");
            reveal_strlit("unexpected token in expression: ");
        }
        if self.pos >= self.tokens.len() {
            return Err(self.error("unexpected end of input in expression"));
        }
        let k = self.pos;
        match &self.tokens[k].0 {
            Token::Integer(n) => {
                let v = *n;
                self.pos = k + 1;
                Ok(Expression::Literal(Literal::Integer(v)))
            },
            Token::Float(t) => {
                let v = t.clone();
                self.pos = k + 1;
                Ok(Expression::Literal(Literal::Float(v)))
            },
            Token::StringLiteral(t) => {
                let v = t.clone();
                self.pos = k + 1;
                Ok(Expression::Literal(Literal::String(v)))
            },
            Token::True => {
                self.pos = k + 1;
                Ok(Expression::Literal(Literal::Bool(true)))
            },
            Token::False => {
                self.pos = k + 1;
                Ok(Expression::Literal(Literal::Bool(false)))
            },
            Token::Null => {
                self.pos = k + 1;
                Ok(Expression::Literal(Literal::Null))
            },
            Token::Parameter(name) => {
                let v = name.clone();
                self.pos = k + 1;
                Ok(Expression::Parameter(v))
            },
            Token::Count => {
                self.pos = k + 1;
                self.parse_count_call(k)
            },
            Token::Ident(name) => {
                let v = name.clone();
                self.pos = k + 1;
                self.parse_named(k, v)
            },
            Token::BacktickIdent(name) => {
                let v = name.clone();
                self.pos = k + 1;
                Ok(Expression::Variable(v))
            },
            tok => {
                let mut m = owned("unexpected token in expression: ");
                m.append(tok.debug_string().as_str());
                Err(self.error(m.as_str()))
            },
        }
    }
}

} // verus!
