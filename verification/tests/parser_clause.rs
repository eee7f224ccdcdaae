#![allow(unused_imports)]

use cypherlite_query::lexer::{lex, LexError, Span, Token};
use cypherlite_query::parser::{parse_query, ParseError, Parser};
use cypherlite_query::parser::ast::{
    BinaryOp, Clause, CreateClause, CreateIndexClause, DeleteClause, DropIndexClause, Expression,
    IndexTarget, Literal, MapLiteral, MatchClause, MergeClause, NodePattern, OrderItem, Pattern,
    PatternChain, PatternElement, Query, RelDirection, RelationshipPattern, RemoveClause,
    RemoveItem, ReturnClause, ReturnItem, SetClause, SetItem, TemporalPredicate, UnaryOp,
    UnwindClause, WithClause,
};
use cypherlite_query::planner::{AggregateFunc, LogicalPlan, LogicalPlanner, PlanError, TemporalFilterPlan};
use cypherlite_query::planner::catalog::Catalog;
use cypherlite_query::planner::optimize::optimize;

/// Helper: create a parser from an input string.
fn make_parser(input: &str) -> (Vec<(Token, Span)>, String) {
    let tokens = lex(input).expect("lexing should succeed");
    (tokens, input.to_string())
}

// ======================================================================
// TASK-028: parse_match_clause
// ======================================================================

#[test]
fn match_simple_node() {
    let (tokens, input) = make_parser("MATCH (n:Person)");
    let mut p = Parser::new(&tokens, &input);
    let mc = p.parse_match_clause(false).expect("should parse");

    assert!(!mc.optional);
    assert_eq!(mc.pattern.chains.len(), 1);
    let node = match &mc.pattern.chains[0].elements[0] {
        PatternElement::Node(n) => n,
        _ => panic!("expected node"),
    };
    assert_eq!(node.variable, Some("n".to_string()));
    assert_eq!(node.labels, vec!["Person".to_string()]);
    assert!(mc.where_clause.is_none());
}

#[test]
fn match_with_where() {
    let (tokens, input) = make_parser("MATCH (n:Person) WHERE n.age > 30");
    let mut p = Parser::new(&tokens, &input);
    let mc = p.parse_match_clause(false).expect("should parse");

    assert!(mc.where_clause.is_some());
    let where_expr = mc.where_clause.expect("checked above");
    assert!(matches!(
        where_expr,
        Expression::BinaryOp(BinaryOp::Gt, _, _)
    ));
}

#[test]
fn match_optional() {
    let (tokens, input) = make_parser("MATCH (n)");
    let mut p = Parser::new(&tokens, &input);
    let mc = p.parse_match_clause(true).expect("should parse");

    assert!(mc.optional);
}

#[test]
fn match_with_relationship() {
    let (tokens, input) = make_parser("MATCH (a)-[:KNOWS]->(b)");
    let mut p = Parser::new(&tokens, &input);
    let mc = p.parse_match_clause(false).expect("should parse");

    assert_eq!(mc.pattern.chains[0].elements.len(), 3);
}

// ======================================================================
// TASK-029 / TASK-030: parse_return_clause (with ORDER BY, SKIP, LIMIT)
// ======================================================================

#[test]
fn return_simple_variable() {
    let (tokens, input) = make_parser("RETURN n");
    let mut p = Parser::new(&tokens, &input);
    let rc = p.parse_return_clause().expect("should parse");

    assert!(!rc.distinct);
    assert_eq!(rc.items.len(), 1);
    assert_eq!(rc.items[0].expr, Expression::Variable("n".to_string()));
    assert!(rc.items[0].alias.is_none());
    assert!(rc.order_by.is_none());
    assert!(rc.skip.is_none());
    assert!(rc.limit.is_none());
}

#[test]
fn return_distinct() {
    let (tokens, input) = make_parser("RETURN DISTINCT n.name");
    let mut p = Parser::new(&tokens, &input);
    let rc = p.parse_return_clause().expect("should parse");

    assert!(rc.distinct);
}

#[test]
fn return_multiple_with_alias() {
    let (tokens, input) = make_parser("RETURN n.name AS name, n.age AS age");
    let mut p = Parser::new(&tokens, &input);
    let rc = p.parse_return_clause().expect("should parse");

    assert_eq!(rc.items.len(), 2);
    assert_eq!(rc.items[0].alias, Some("name".to_string()));
    assert_eq!(rc.items[1].alias, Some("age".to_string()));
}

#[test]
fn return_with_order_by() {
    let (tokens, input) = make_parser("RETURN n.name ORDER BY n.name ASC");
    let mut p = Parser::new(&tokens, &input);
    let rc = p.parse_return_clause().expect("should parse");

    let order = rc.order_by.expect("should have ORDER BY");
    assert_eq!(order.len(), 1);
    assert!(order[0].ascending);
}

#[test]
fn return_with_order_by_desc() {
    let (tokens, input) = make_parser("RETURN n ORDER BY n.age DESC");
    let mut p = Parser::new(&tokens, &input);
    let rc = p.parse_return_clause().expect("should parse");

    let order = rc.order_by.expect("should have ORDER BY");
    assert!(!order[0].ascending);
}

#[test]
fn return_with_order_by_multiple() {
    let (tokens, input) = make_parser("RETURN n ORDER BY n.name ASC, n.age DESC");
    let mut p = Parser::new(&tokens, &input);
    let rc = p.parse_return_clause().expect("should parse");

    let order = rc.order_by.expect("should have ORDER BY");
    assert_eq!(order.len(), 2);
    assert!(order[0].ascending);
    assert!(!order[1].ascending);
}

#[test]
fn return_with_skip() {
    let (tokens, input) = make_parser("RETURN n SKIP 5");
    let mut p = Parser::new(&tokens, &input);
    let rc = p.parse_return_clause().expect("should parse");

    assert_eq!(
        rc.skip.expect("should have SKIP"),
        Expression::Literal(Literal::Integer(5))
    );
}

#[test]
fn return_with_limit() {
    let (tokens, input) = make_parser("RETURN n LIMIT 10");
    let mut p = Parser::new(&tokens, &input);
    let rc = p.parse_return_clause().expect("should parse");

    assert_eq!(
        rc.limit.expect("should have LIMIT"),
        Expression::Literal(Literal::Integer(10))
    );
}

#[test]
fn return_with_order_skip_limit() {
    let (tokens, input) = make_parser("RETURN n ORDER BY n.name SKIP 5 LIMIT 10");
    let mut p = Parser::new(&tokens, &input);
    let rc = p.parse_return_clause().expect("should parse");

    assert!(rc.order_by.is_some());
    assert!(rc.skip.is_some());
    assert!(rc.limit.is_some());
}

#[test]
fn return_order_by_default_ascending() {
    let (tokens, input) = make_parser("RETURN n ORDER BY n.name");
    let mut p = Parser::new(&tokens, &input);
    let rc = p.parse_return_clause().expect("should parse");

    let order = rc.order_by.expect("should have ORDER BY");
    assert!(order[0].ascending); // default is ASC
}

// ======================================================================
// TASK-031: parse_create_clause
// ======================================================================

#[test]
fn create_simple_node() {
    let (tokens, input) = make_parser("CREATE (n:Person)");
    let mut p = Parser::new(&tokens, &input);
    let cc = p.parse_create_clause().expect("should parse");

    let node = match &cc.pattern.chains[0].elements[0] {
        PatternElement::Node(n) => n,
        _ => panic!("expected node"),
    };
    assert_eq!(node.variable, Some("n".to_string()));
    assert_eq!(node.labels, vec!["Person".to_string()]);
}

#[test]
fn create_node_with_properties() {
    let (tokens, input) = make_parser("CREATE (n:Person {name: 'Alice', age: 30})");
    let mut p = Parser::new(&tokens, &input);
    let cc = p.parse_create_clause().expect("should parse");

    let node = match &cc.pattern.chains[0].elements[0] {
        PatternElement::Node(n) => n,
        _ => panic!("expected node"),
    };
    assert!(node.properties.is_some());
    let props = node.properties.as_ref().expect("checked above");
    assert_eq!(props.len(), 2);
}

#[test]
fn create_relationship() {
    let (tokens, input) =
        make_parser("CREATE (a:Person {name: 'Alice'})-[:KNOWS]->(b:Person {name: 'Bob'})");
    let mut p = Parser::new(&tokens, &input);
    let cc = p.parse_create_clause().expect("should parse");

    assert_eq!(cc.pattern.chains[0].elements.len(), 3);
}

// ======================================================================
// TASK-032: parse_set_clause / parse_remove_clause
// ======================================================================

#[test]
fn set_single_property() {
    let (tokens, input) = make_parser("SET n.name = 'Alice'");
    let mut p = Parser::new(&tokens, &input);
    let sc = p.parse_set_clause().expect("should parse");

    assert_eq!(sc.items.len(), 1);
    match &sc.items[0] {
        SetItem::Property { target, value } => {
            assert_eq!(
                *target,
                Expression::Property(
                    Box::new(Expression::Variable("n".to_string())),
                    "name".to_string(),
                )
            );
            assert_eq!(
                *value,
                Expression::Literal(Literal::String("Alice".to_string()))
            );
        }
    }
}

#[test]
fn set_multiple_properties() {
    let (tokens, input) = make_parser("SET n.name = 'Alice', n.age = 30");
    let mut p = Parser::new(&tokens, &input);
    let sc = p.parse_set_clause().expect("should parse");

    assert_eq!(sc.items.len(), 2);
}

#[test]
fn remove_property() {
    let (tokens, input) = make_parser("REMOVE n.email");
    let mut p = Parser::new(&tokens, &input);
    let rc = p.parse_remove_clause().expect("should parse");

    assert_eq!(rc.items.len(), 1);
    match &rc.items[0] {
        RemoveItem::Property(expr) => {
            assert_eq!(
                *expr,
                Expression::Property(
                    Box::new(Expression::Variable("n".to_string())),
                    "email".to_string(),
                )
            );
        }
        _ => panic!("expected property remove"),
    }
}

#[test]
fn remove_label() {
    let (tokens, input) = make_parser("REMOVE n:Person");
    let mut p = Parser::new(&tokens, &input);
    let rc = p.parse_remove_clause().expect("should parse");

    assert_eq!(rc.items.len(), 1);
    match &rc.items[0] {
        RemoveItem::Label { variable, label } => {
            assert_eq!(variable, "n");
            assert_eq!(label, "Person");
        }
        _ => panic!("expected label remove"),
    }
}

#[test]
fn remove_multiple() {
    let (tokens, input) = make_parser("REMOVE n.email, n:Temp");
    let mut p = Parser::new(&tokens, &input);
    let rc = p.parse_remove_clause().expect("should parse");

    assert_eq!(rc.items.len(), 2);
    assert!(matches!(&rc.items[0], RemoveItem::Property(_)));
    assert!(matches!(&rc.items[1], RemoveItem::Label { .. }));
}

// ======================================================================
// TASK-033: parse_delete_clause
// ======================================================================

#[test]
fn delete_single() {
    let (tokens, input) = make_parser("DELETE n");
    let mut p = Parser::new(&tokens, &input);
    let dc = p.parse_delete_clause(false).expect("should parse");

    assert!(!dc.detach);
    assert_eq!(dc.exprs.len(), 1);
    assert_eq!(dc.exprs[0], Expression::Variable("n".to_string()));
}

#[test]
fn delete_multiple() {
    let (tokens, input) = make_parser("DELETE n, m");
    let mut p = Parser::new(&tokens, &input);
    let dc = p.parse_delete_clause(false).expect("should parse");

    assert_eq!(dc.exprs.len(), 2);
}

#[test]
fn delete_detach() {
    let (tokens, input) = make_parser("DELETE n");
    let mut p = Parser::new(&tokens, &input);
    let dc = p.parse_delete_clause(true).expect("should parse");

    assert!(dc.detach);
}

// ======================================================================
// WITH and MERGE (P2)
// ======================================================================

#[test]
fn with_simple() {
    let (tokens, input) = make_parser("WITH n, m");
    let mut p = Parser::new(&tokens, &input);
    let wc = p.parse_with_clause().expect("should parse");

    assert!(!wc.distinct);
    assert_eq!(wc.items.len(), 2);
    assert!(wc.where_clause.is_none());
}

#[test]
fn with_distinct_and_where() {
    let (tokens, input) = make_parser("WITH DISTINCT n WHERE n.age > 30");
    let mut p = Parser::new(&tokens, &input);
    let wc = p.parse_with_clause().expect("should parse");

    assert!(wc.distinct);
    assert_eq!(wc.items.len(), 1);
    assert!(wc.where_clause.is_some());
}

#[test]
fn merge_simple() {
    let (tokens, input) = make_parser("MERGE (n:Person {name: 'Alice'})");
    let mut p = Parser::new(&tokens, &input);
    let mc = p.parse_merge_clause().expect("should parse");

    let node = match &mc.pattern.chains[0].elements[0] {
        PatternElement::Node(n) => n,
        _ => panic!("expected node"),
    };
    assert_eq!(node.variable, Some("n".to_string()));
    assert_eq!(node.labels, vec!["Person".to_string()]);
    assert!(mc.on_match.is_empty());
    assert!(mc.on_create.is_empty());
}

// TASK-084: MERGE with ON CREATE SET
#[test]
fn merge_on_create_set() {
    let (tokens, input) =
        make_parser("MERGE (n:Person {name: 'Alice'}) ON CREATE SET n.created = true");
    let mut p = Parser::new(&tokens, &input);
    let mc = p.parse_merge_clause().expect("should parse");

    assert!(mc.on_match.is_empty());
    assert_eq!(mc.on_create.len(), 1);
    match &mc.on_create[0] {
        SetItem::Property { target, value } => {
            assert_eq!(
                *target,
                Expression::Property(
                    Box::new(Expression::Variable("n".to_string())),
                    "created".to_string(),
                )
            );
            assert_eq!(*value, Expression::Literal(Literal::Bool(true)));
        }
    }
}

// TASK-084: MERGE with ON MATCH SET
#[test]
fn merge_on_match_set() {
    let (tokens, input) =
        make_parser("MERGE (n:Person {name: 'Alice'}) ON MATCH SET n.seen = true");
    let mut p = Parser::new(&tokens, &input);
    let mc = p.parse_merge_clause().expect("should parse");

    assert_eq!(mc.on_match.len(), 1);
    assert!(mc.on_create.is_empty());
}

// TASK-084: MERGE with both ON CREATE SET and ON MATCH SET
#[test]
fn merge_on_create_and_on_match() {
    let (tokens, input) = make_parser(
        "MERGE (n:Person {name: 'Alice'}) ON CREATE SET n.created = true ON MATCH SET n.seen = true",
    );
    let mut p = Parser::new(&tokens, &input);
    let mc = p.parse_merge_clause().expect("should parse");

    assert_eq!(mc.on_create.len(), 1);
    assert_eq!(mc.on_match.len(), 1);
}

// TASK-084: MERGE with multiple SET items in ON CREATE
#[test]
fn merge_on_create_multiple_items() {
    let (tokens, input) = make_parser(
        "MERGE (n:Person {name: 'Alice'}) ON CREATE SET n.created = true, n.age = 1",
    );
    let mut p = Parser::new(&tokens, &input);
    let mc = p.parse_merge_clause().expect("should parse");

    assert_eq!(mc.on_create.len(), 2);
}

// ======================================================================
// X-T3: AT TIME / BETWEEN TIME temporal predicate parsing
// ======================================================================

#[test]
fn match_at_time_literal() {
    let (tokens, input) = make_parser("MATCH (n:Person) AT TIME 1000 WHERE n.age > 30");
    let mut p = Parser::new(&tokens, &input);
    let mc = p.parse_match_clause(false).expect("should parse");

    assert!(mc.temporal_predicate.is_some());
    match mc.temporal_predicate.as_ref().expect("checked above") {
        TemporalPredicate::AsOf(expr) => {
            assert_eq!(*expr, Expression::Literal(Literal::Integer(1000)));
        }
        _ => panic!("expected AsOf temporal predicate"),
    }
    assert!(mc.where_clause.is_some());
}

#[test]
fn match_at_time_function_call() {
    let (tokens, input) =
        make_parser("MATCH (n:Person) AT TIME datetime('2024-01-15T00:00:00Z')");
    let mut p = Parser::new(&tokens, &input);
    let mc = p.parse_match_clause(false).expect("should parse");

    assert!(mc.temporal_predicate.is_some());
    match mc.temporal_predicate.as_ref().expect("checked above") {
        TemporalPredicate::AsOf(Expression::FunctionCall { name, .. }) => {
            assert_eq!(name, "datetime");
        }
        _ => panic!("expected AsOf with datetime function call"),
    }
}

#[test]
fn match_at_time_no_where() {
    let (tokens, input) = make_parser("MATCH (n:Person) AT TIME 1000");
    let mut p = Parser::new(&tokens, &input);
    let mc = p.parse_match_clause(false).expect("should parse");

    assert!(mc.temporal_predicate.is_some());
    assert!(mc.where_clause.is_none());
}

#[test]
fn match_no_temporal_predicate() {
    let (tokens, input) = make_parser("MATCH (n:Person) WHERE n.age > 30");
    let mut p = Parser::new(&tokens, &input);
    let mc = p.parse_match_clause(false).expect("should parse");

    assert!(mc.temporal_predicate.is_none());
    assert!(mc.where_clause.is_some());
}

// Y-T1: BETWEEN TIME ... AND ... parsing
#[test]
fn match_between_time() {
    let (tokens, input) = make_parser("MATCH (n:Person) BETWEEN TIME 100 AND 200");
    let mut p = Parser::new(&tokens, &input);
    let mc = p.parse_match_clause(false).expect("should parse");

    assert!(mc.temporal_predicate.is_some());
    match mc.temporal_predicate.as_ref().expect("checked above") {
        TemporalPredicate::Between(start, end) => {
            assert_eq!(*start, Expression::Literal(Literal::Integer(100)));
            assert_eq!(*end, Expression::Literal(Literal::Integer(200)));
        }
        _ => panic!("expected Between temporal predicate"),
    }
}

#[test]
fn match_between_time_with_where() {
    let (tokens, input) =
        make_parser("MATCH (n:Person) BETWEEN TIME 100 AND 200 WHERE n.age > 30");
    let mut p = Parser::new(&tokens, &input);
    let mc = p.parse_match_clause(false).expect("should parse");

    assert!(mc.temporal_predicate.is_some());
    assert!(matches!(
        mc.temporal_predicate.as_ref().expect("checked"),
        TemporalPredicate::Between(_, _)
    ));
    assert!(mc.where_clause.is_some());
}

// ======================================================================
// TASK-068: parse_unwind_clause
// ======================================================================

#[test]
fn unwind_list_literal() {
    let (tokens, input) = make_parser("UNWIND [1, 2, 3] AS x");
    let mut p = Parser::new(&tokens, &input);
    let uc = p.parse_unwind_clause().expect("should parse");

    assert_eq!(
        uc.expr,
        Expression::ListLiteral(vec![
            Expression::Literal(Literal::Integer(1)),
            Expression::Literal(Literal::Integer(2)),
            Expression::Literal(Literal::Integer(3)),
        ])
    );
    assert_eq!(uc.variable, "x");
}

#[test]
fn unwind_variable_expression() {
    let (tokens, input) = make_parser("UNWIND items AS item");
    let mut p = Parser::new(&tokens, &input);
    let uc = p.parse_unwind_clause().expect("should parse");

    assert_eq!(uc.expr, Expression::Variable("items".to_string()));
    assert_eq!(uc.variable, "item");
}

#[test]
fn unwind_property_expression() {
    let (tokens, input) = make_parser("UNWIND n.hobbies AS h");
    let mut p = Parser::new(&tokens, &input);
    let uc = p.parse_unwind_clause().expect("should parse");

    assert_eq!(
        uc.expr,
        Expression::Property(
            Box::new(Expression::Variable("n".to_string())),
            "hobbies".to_string(),
        )
    );
    assert_eq!(uc.variable, "h");
}

#[test]
fn unwind_empty_list() {
    let (tokens, input) = make_parser("UNWIND [] AS x");
    let mut p = Parser::new(&tokens, &input);
    let uc = p.parse_unwind_clause().expect("should parse");

    assert_eq!(uc.expr, Expression::ListLiteral(vec![]));
    assert_eq!(uc.variable, "x");
}

#[test]
fn merge_repeated_actions_accumulate() {
    let (tokens, input) = make_parser(
        "MERGE (n:Person) ON MATCH SET n.a = 1 ON CREATE SET n.b = 2 ON MATCH SET n.c = 3, n.d = 4",
    );
    let mut p = Parser::new(&tokens, &input);
    let mc = p.parse_merge_clause().expect("should parse");
    assert_eq!(mc.on_match.len(), 3);
    assert_eq!(mc.on_create.len(), 1);
    assert!(p.at_end());
}

#[test]
fn merge_on_without_set_is_error() {
    let (tokens, input) = make_parser("MERGE (n:Person) ON MATCH n.a = 1");
    let mut p = Parser::new(&tokens, &input);
    assert!(p.parse_merge_clause().is_err());
}

#[test]
fn set_nested_property_target() {
    let result = parse_query("MATCH (n) SET n.a.b = 1").expect("should parse");
    match &result.clauses[1] {
        Clause::SetProperties(sc) => match &sc.items[0] {
            SetItem::Property { target, value } => {
                assert_eq!(
                    *target,
                    Expression::Property(
                        Box::new(Expression::Property(
                            Box::new(Expression::Variable("n".to_string())),
                            "a".to_string()
                        )),
                        "b".to_string()
                    )
                );
                assert_eq!(*value, Expression::Literal(Literal::Integer(1)));
            }
        },
        other => panic!("expected SET, got {:?}", other),
    }
}

#[test]
fn query_with_trailing_clause_keyword_fails() {
    assert!(parse_query("MATCH (n) RETURN n WHERE n.x = 1").is_err());
    assert!(parse_query("MATCH (n) DETACH n").is_err());
    assert!(parse_query("OPTIONAL RETURN n").is_err());
}

#[test]
fn return_order_skip_limit_all_read() {
    let q = parse_query("MATCH (n) RETURN DISTINCT n.name AS name ORDER BY n.age DESC, name SKIP 1 LIMIT 2")
        .expect("should parse");
    match &q.clauses[1] {
        Clause::Return(rc) => {
            assert!(rc.distinct);
            assert_eq!(rc.items[0].alias, Some("name".to_string()));
            let order = rc.order_by.as_ref().expect("order");
            assert_eq!(order.len(), 2);
            assert!(!order[0].ascending);
            assert!(order[1].ascending);
            assert_eq!(rc.skip, Some(Expression::Literal(Literal::Integer(1))));
            assert_eq!(rc.limit, Some(Expression::Literal(Literal::Integer(2))));
        }
        other => panic!("expected RETURN, got {:?}", other),
    }
}
