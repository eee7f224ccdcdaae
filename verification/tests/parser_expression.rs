#![allow(unused_imports)]

use cypherlite_query::lexer::{lex, LexError, Span, Token};
use cypherlite_query::parser::{parse_query, ParseError, Parser};
use cypherlite_query::parser::ast::{
    BinaryOp, Clause, CreateClause, CreateIndexClause, DeleteClause, DropIndexClause, Expression,
    IndexTarget, Literal, MapLiteral, MatchClause, MergeClause, NodePattern, OrderItem, Pattern,
    PatternChain, PatternElement, Query, RelDirection, RelationshipPattern, RemoveClause,
    RemoveItem, ReturnClause, ReturnItem, SetClause, SetItem, TemporalPredicate, UnaryOp,
    UnwindClause, WithClause,
};
use cypherlite_query::planner::{AggregateFunc, LogicalPlan, LogicalPlanner, PlanError, TemporalFilterPlan};
use cypherlite_query::planner::catalog::Catalog;
use cypherlite_query::planner::optimize::optimize;

/// Helper: parse an expression from a string.
fn parse_expr(input: &str) -> Result<Expression, ParseError> {
    let tokens = lex(input).expect("lexing should succeed");
    let mut parser = Parser::new(&tokens, input);
    parser.parse_expression()
}

// -- TASK-022: Expression parser tests --

// Precedence: 1 + 2 * 3 -> Add(1, Mul(2, 3))
#[test]
fn expr_precedence_add_mul() {
    let expr = parse_expr("1 + 2 * 3").expect("should parse");
    assert_eq!(
        expr,
        Expression::BinaryOp(
            BinaryOp::Add,
            Box::new(Expression::Literal(Literal::Integer(1))),
            Box::new(Expression::BinaryOp(
                BinaryOp::Mul,
                Box::new(Expression::Literal(Literal::Integer(2))),
                Box::new(Expression::Literal(Literal::Integer(3))),
            )),
        )
    );
}

// Parenthesized: (1 + 2) * 3 -> Mul(Add(1, 2), 3)
#[test]
fn expr_parenthesized() {
    let expr = parse_expr("(1 + 2) * 3").expect("should parse");
    assert_eq!(
        expr,
        Expression::BinaryOp(
            BinaryOp::Mul,
            Box::new(Expression::BinaryOp(
                BinaryOp::Add,
                Box::new(Expression::Literal(Literal::Integer(1))),
                Box::new(Expression::Literal(Literal::Integer(2))),
            )),
            Box::new(Expression::Literal(Literal::Integer(3))),
        )
    );
}

// Comparison: n.age > 30
#[test]
fn expr_comparison_property() {
    let expr = parse_expr("n.age > 30").expect("should parse");
    assert_eq!(
        expr,
        Expression::BinaryOp(
            BinaryOp::Gt,
            Box::new(Expression::Property(
                Box::new(Expression::Variable("n".to_string())),
                "age".to_string(),
            )),
            Box::new(Expression::Literal(Literal::Integer(30))),
        )
    );
}

// Boolean: a AND b OR c -> Or(And(a, b), c)
#[test]
fn expr_boolean_precedence() {
    let expr = parse_expr("a AND b OR c").expect("should parse");
    assert_eq!(
        expr,
        Expression::BinaryOp(
            BinaryOp::Or,
            Box::new(Expression::BinaryOp(
                BinaryOp::And,
                Box::new(Expression::Variable("a".to_string())),
                Box::new(Expression::Variable("b".to_string())),
            )),
            Box::new(Expression::Variable("c".to_string())),
        )
    );
}

// NOT: NOT x
#[test]
fn expr_not_unary() {
    let expr = parse_expr("NOT x").expect("should parse");
    assert_eq!(
        expr,
        Expression::UnaryOp(
            UnaryOp::Not,
            Box::new(Expression::Variable("x".to_string())),
        )
    );
}

// NOT with AND: NOT a AND b -> And(Not(a), b)
#[test]
fn expr_not_and_precedence() {
    let expr = parse_expr("NOT a AND b").expect("should parse");
    assert_eq!(
        expr,
        Expression::BinaryOp(
            BinaryOp::And,
            Box::new(Expression::UnaryOp(
                UnaryOp::Not,
                Box::new(Expression::Variable("a".to_string())),
            )),
            Box::new(Expression::Variable("b".to_string())),
        )
    );
}

// Function call: count(n)
#[test]
fn expr_function_call_count() {
    let expr = parse_expr("count(n)").expect("should parse");
    assert_eq!(
        expr,
        Expression::FunctionCall {
            name: "count".to_string(),
            distinct: false,
            args: vec![Expression::Variable("n".to_string())],
        }
    );
}

// Function call: count(DISTINCT n)
#[test]
fn expr_function_call_count_distinct() {
    let expr = parse_expr("count(DISTINCT n)").expect("should parse");
    assert_eq!(
        expr,
        Expression::FunctionCall {
            name: "count".to_string(),
            distinct: true,
            args: vec![Expression::Variable("n".to_string())],
        }
    );
}

// count(*)
#[test]
fn expr_count_star() {
    let expr = parse_expr("count(*)").expect("should parse");
    assert_eq!(expr, Expression::CountStar);
}

// Generic function call: toUpper(n.name)
#[test]
fn expr_generic_function_call() {
    let expr = parse_expr("toUpper(n.name)").expect("should parse");
    assert_eq!(
        expr,
        Expression::FunctionCall {
            name: "toUpper".to_string(),
            distinct: false,
            args: vec![Expression::Property(
                Box::new(Expression::Variable("n".to_string())),
                "name".to_string(),
            )],
        }
    );
}

// Multi-arg function: coalesce(a, b, c)
#[test]
fn expr_multi_arg_function() {
    let expr = parse_expr("coalesce(a, b, c)").expect("should parse");
    assert_eq!(
        expr,
        Expression::FunctionCall {
            name: "coalesce".to_string(),
            distinct: false,
            args: vec![
                Expression::Variable("a".to_string()),
                Expression::Variable("b".to_string()),
                Expression::Variable("c".to_string()),
            ],
        }
    );
}

// Parameter: $name
#[test]
fn expr_parameter() {
    let expr = parse_expr("$name").expect("should parse");
    assert_eq!(expr, Expression::Parameter("name".to_string()));
}

// IS NULL
#[test]
fn expr_is_null() {
    let expr = parse_expr("n.name IS NULL").expect("should parse");
    assert_eq!(
        expr,
        Expression::IsNull(
            Box::new(Expression::Property(
                Box::new(Expression::Variable("n".to_string())),
                "name".to_string(),
            )),
            false,
        )
    );
}

// IS NOT NULL
#[test]
fn expr_is_not_null() {
    let expr = parse_expr("n.name IS NOT NULL").expect("should parse");
    assert_eq!(
        expr,
        Expression::IsNull(
            Box::new(Expression::Property(
                Box::new(Expression::Variable("n".to_string())),
                "name".to_string(),
            )),
            true,
        )
    );
}

// Literals
#[test]
fn expr_literal_integer() {
    let expr = parse_expr("42").expect("should parse");
    assert_eq!(expr, Expression::Literal(Literal::Integer(42)));
}

#[test]
fn expr_literal_float() {
    let expr = parse_expr("3.15").expect("should parse");
    assert_eq!(expr, Expression::Literal(Literal::Float("3.15".to_string())));
}

#[test]
fn expr_literal_string() {
    let expr = parse_expr("'hello'").expect("should parse");
    assert_eq!(
        expr,
        Expression::Literal(Literal::String("hello".to_string()))
    );
}

#[test]
fn expr_literal_true() {
    let expr = parse_expr("true").expect("should parse");
    assert_eq!(expr, Expression::Literal(Literal::Bool(true)));
}

#[test]
fn expr_literal_false() {
    let expr = parse_expr("false").expect("should parse");
    assert_eq!(expr, Expression::Literal(Literal::Bool(false)));
}

#[test]
fn expr_literal_null() {
    let expr = parse_expr("null").expect("should parse");
    assert_eq!(expr, Expression::Literal(Literal::Null));
}

// Unary minus
#[test]
fn expr_unary_minus() {
    let expr = parse_expr("-42").expect("should parse");
    assert_eq!(
        expr,
        Expression::UnaryOp(
            UnaryOp::Neg,
            Box::new(Expression::Literal(Literal::Integer(42))),
        )
    );
}

// Chained property access: a.b.c
#[test]
fn expr_chained_property() {
    let expr = parse_expr("a.b.c").expect("should parse");
    assert_eq!(
        expr,
        Expression::Property(
            Box::new(Expression::Property(
                Box::new(Expression::Variable("a".to_string())),
                "b".to_string(),
            )),
            "c".to_string(),
        )
    );
}

// Complex: n.age >= 18 AND n.name <> 'unknown'
#[test]
fn expr_complex_boolean_comparison() {
    let expr = parse_expr("n.age >= 18 AND n.name <> 'unknown'").expect("should parse");
    assert_eq!(
        expr,
        Expression::BinaryOp(
            BinaryOp::And,
            Box::new(Expression::BinaryOp(
                BinaryOp::Gte,
                Box::new(Expression::Property(
                    Box::new(Expression::Variable("n".to_string())),
                    "age".to_string(),
                )),
                Box::new(Expression::Literal(Literal::Integer(18))),
            )),
            Box::new(Expression::BinaryOp(
                BinaryOp::Neq,
                Box::new(Expression::Property(
                    Box::new(Expression::Variable("n".to_string())),
                    "name".to_string(),
                )),
                Box::new(Expression::Literal(Literal::String("unknown".to_string()))),
            )),
        )
    );
}

// != operator
#[test]
fn expr_bang_equal() {
    let expr = parse_expr("a != b").expect("should parse");
    assert_eq!(
        expr,
        Expression::BinaryOp(
            BinaryOp::Neq,
            Box::new(Expression::Variable("a".to_string())),
            Box::new(Expression::Variable("b".to_string())),
        )
    );
}

// Error case: empty input
#[test]
fn expr_error_empty() {
    let result = parse_expr("");
    assert!(result.is_err());
}

// Error case: unmatched paren
#[test]
fn expr_error_unmatched_paren() {
    let result = parse_expr("(1 + 2");
    assert!(result.is_err());
}

// ---- TASK-067/068: List literal expressions ----

#[test]
fn expr_list_literal_empty() {
    let expr = parse_expr("[]").expect("should parse");
    assert_eq!(expr, Expression::ListLiteral(vec![]));
}

#[test]
fn expr_list_literal_integers() {
    let expr = parse_expr("[1, 2, 3]").expect("should parse");
    assert_eq!(
        expr,
        Expression::ListLiteral(vec![
            Expression::Literal(Literal::Integer(1)),
            Expression::Literal(Literal::Integer(2)),
            Expression::Literal(Literal::Integer(3)),
        ])
    );
}

#[test]
fn expr_list_literal_mixed() {
    let expr = parse_expr("[1, 'hello', true, null]").expect("should parse");
    assert_eq!(
        expr,
        Expression::ListLiteral(vec![
            Expression::Literal(Literal::Integer(1)),
            Expression::Literal(Literal::String("hello".to_string())),
            Expression::Literal(Literal::Bool(true)),
            Expression::Literal(Literal::Null),
        ])
    );
}

#[test]
fn expr_list_literal_nested() {
    let expr = parse_expr("[[1, 2], [3]]").expect("should parse");
    assert_eq!(
        expr,
        Expression::ListLiteral(vec![
            Expression::ListLiteral(vec![
                Expression::Literal(Literal::Integer(1)),
                Expression::Literal(Literal::Integer(2)),
            ]),
            Expression::ListLiteral(vec![Expression::Literal(Literal::Integer(3)),]),
        ])
    );
}

#[test]
fn expr_list_literal_with_expressions() {
    let expr = parse_expr("[1 + 2, n.name]").expect("should parse");
    assert_eq!(
        expr,
        Expression::ListLiteral(vec![
            Expression::BinaryOp(
                BinaryOp::Add,
                Box::new(Expression::Literal(Literal::Integer(1))),
                Box::new(Expression::Literal(Literal::Integer(2))),
            ),
            Expression::Property(
                Box::new(Expression::Variable("n".to_string())),
                "name".to_string(),
            ),
        ])
    );
}

// All arithmetic operators
#[test]
fn expr_all_arithmetic() {
    let expr = parse_expr("1 + 2 - 3 * 4 / 5 % 6").expect("should parse");
    // 1 + 2 - ((3 * 4) / 5) % 6
    // Due to left-to-right at same precedence:
    // Mul/Div/Mod: 3*4=Mul(3,4), Mul(3,4)/5=Div(Mul(3,4),5), Div(...)/6... wait
    // Actually: 3 * 4 / 5 % 6 at precedence 9/10 (left-to-right)
    // = Mod(Div(Mul(3,4),5),6)
    // Then: 1 + 2 - Mod(...) at precedence 7/8 (left-to-right)
    // = Sub(Add(1,2), Mod(Div(Mul(3,4),5),6))
    assert_eq!(
        expr,
        Expression::BinaryOp(
            BinaryOp::Sub,
            Box::new(Expression::BinaryOp(
                BinaryOp::Add,
                Box::new(Expression::Literal(Literal::Integer(1))),
                Box::new(Expression::Literal(Literal::Integer(2))),
            )),
            Box::new(Expression::BinaryOp(
                BinaryOp::Mod,
                Box::new(Expression::BinaryOp(
                    BinaryOp::Div,
                    Box::new(Expression::BinaryOp(
                        BinaryOp::Mul,
                        Box::new(Expression::Literal(Literal::Integer(3))),
                        Box::new(Expression::Literal(Literal::Integer(4))),
                    )),
                    Box::new(Expression::Literal(Literal::Integer(5))),
                )),
                Box::new(Expression::Literal(Literal::Integer(6))),
            )),
        )
    );
}
