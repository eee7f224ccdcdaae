#![allow(unused_imports)]

use cypherlite_query::lexer::{lex, LexError, Span, Token};
use cypherlite_query::parser::{parse_query, ParseError, Parser};
use cypherlite_query::parser::ast::{
    BinaryOp, Clause, CreateClause, CreateIndexClause, DeleteClause, DropIndexClause, Expression,
    IndexTarget, Literal, MapLiteral, MatchClause, MergeClause, NodePattern, OrderItem, Pattern,
    PatternChain, PatternElement, Query, RelDirection, RelationshipPattern, RemoveClause,
    RemoveItem, ReturnClause, ReturnItem, SetClause, SetItem, TemporalPredicate, UnaryOp,
    UnwindClause, WithClause,
};
use cypherlite_query::planner::{AggregateFunc, LogicalPlan, LogicalPlanner, PlanError, TemporalFilterPlan};
use cypherlite_query::planner::catalog::Catalog;
use cypherlite_query::planner::optimize::optimize;

#[test]
fn parser_peek_and_advance() {
    let tokens = lex("MATCH").expect("should lex");
    let mut p = Parser::new(&tokens, "MATCH");
    assert_eq!(p.peek(), Some(&Token::Match));
    let tok = p.advance();
    assert!(tok.is_some());
    assert_eq!(p.peek(), None);
}

#[test]
fn parser_expect_success() {
    let tokens = lex("(").expect("should lex");
    let mut p = Parser::new(&tokens, "(");
    let span = p.expect(&Token::LParen);
    assert!(span.is_ok());
    assert_eq!(span.expect("checked above"), Span { start: 0, end: 1 });
}

#[test]
fn parser_expect_failure() {
    let tokens = lex("(").expect("should lex");
    let mut p = Parser::new(&tokens, "(");
    let result = p.expect(&Token::RParen);
    assert!(result.is_err());
}

#[test]
fn parser_offset_to_line_col() {
    let input = "line1\nline2\nline3";
    let tokens = lex(input).expect("should lex");
    let p = Parser::new(&tokens, input);
    assert_eq!(p.offset_to_line_col(0), (1, 1));
    assert_eq!(p.offset_to_line_col(6), (2, 1));
    assert_eq!(p.offset_to_line_col(12), (3, 1));
}

#[test]
fn parser_eat_and_check() {
    let tokens = lex("( )").expect("should lex");
    let mut p = Parser::new(&tokens, "( )");
    assert!(p.check(&Token::LParen));
    assert!(!p.check(&Token::RParen));
    assert!(p.eat(&Token::LParen));
    assert!(!p.eat(&Token::LParen));
    assert!(p.eat(&Token::RParen));
    assert!(p.at_end());
}

#[test]
fn parser_expect_ident() {
    let tokens = lex("foo").expect("should lex");
    let mut p = Parser::new(&tokens, "foo");
    let name = p.expect_ident();
    assert_eq!(name.expect("should be ident"), "foo");
}

#[test]
fn parser_expect_ident_backtick() {
    let tokens = lex("`my var`").expect("should lex");
    let mut p = Parser::new(&tokens, "`my var`");
    let name = p.expect_ident();
    assert_eq!(name.expect("should be ident"), "my var");
}

#[test]
fn parse_error_display() {
    let err = ParseError {
        line: 1,
        column: 5,
        message: "unexpected token".to_string(),
    };
    assert_eq!(err.to_string(), "Parse error at 1:5: unexpected token");
}

// ======================================================================
// TASK-035: Integration tests -- full query round-trip
// ======================================================================

#[test]
fn query_match_return() {
    let q = parse_query("MATCH (n:Person) RETURN n").expect("should parse");
    assert_eq!(q.clauses.len(), 2);
    assert!(matches!(&q.clauses[0], Clause::Match(_)));
    assert!(matches!(&q.clauses[1], Clause::Return(_)));

    if let Clause::Match(mc) = &q.clauses[0] {
        assert!(!mc.optional);
        let node = match &mc.pattern.chains[0].elements[0] {
            PatternElement::Node(n) => n,
            _ => panic!("expected node"),
        };
        assert_eq!(node.labels, vec!["Person".to_string()]);
    }
}

#[test]
fn query_create_with_properties() {
    let q = parse_query("CREATE (n:Person {name: 'Alice'})").expect("should parse");
    assert_eq!(q.clauses.len(), 1);
    assert!(matches!(&q.clauses[0], Clause::Create(_)));

    if let Clause::Create(cc) = &q.clauses[0] {
        let node = match &cc.pattern.chains[0].elements[0] {
            PatternElement::Node(n) => n,
            _ => panic!("expected node"),
        };
        assert_eq!(node.labels, vec!["Person".to_string()]);
        assert!(node.properties.is_some());
    }
}

#[test]
fn query_match_relationship_return() {
    let q = parse_query("MATCH (a)-[:KNOWS]->(b) RETURN b.name").expect("should parse");
    assert_eq!(q.clauses.len(), 2);

    if let Clause::Match(mc) = &q.clauses[0] {
        assert_eq!(mc.pattern.chains[0].elements.len(), 3);
    } else {
        panic!("expected MATCH clause");
    }

    if let Clause::Return(rc) = &q.clauses[1] {
        assert_eq!(
            rc.items[0].expr,
            Expression::Property(
                Box::new(Expression::Variable("b".to_string())),
                "name".to_string(),
            )
        );
    } else {
        panic!("expected RETURN clause");
    }
}

#[test]
fn query_match_where_return() {
    let q =
        parse_query("MATCH (n:Person) WHERE n.age > 30 RETURN n.name").expect("should parse");
    assert_eq!(q.clauses.len(), 2);

    if let Clause::Match(mc) = &q.clauses[0] {
        assert!(mc.where_clause.is_some());
    } else {
        panic!("expected MATCH clause");
    }
}

#[test]
fn query_return_order_limit() {
    let q = parse_query("MATCH (n:Person) RETURN n.name ORDER BY n.name ASC LIMIT 10")
        .expect("should parse");
    assert_eq!(q.clauses.len(), 2);

    if let Clause::Return(rc) = &q.clauses[1] {
        let order = rc.order_by.as_ref().expect("should have ORDER BY");
        assert_eq!(order.len(), 1);
        assert!(order[0].ascending);
        assert_eq!(
            rc.limit.as_ref().expect("should have LIMIT"),
            &Expression::Literal(Literal::Integer(10))
        );
    } else {
        panic!("expected RETURN clause");
    }
}

#[test]
fn query_match_set() {
    let q = parse_query("MATCH (n:Person) SET n.age = 30").expect("should parse");
    assert_eq!(q.clauses.len(), 2);
    assert!(matches!(&q.clauses[0], Clause::Match(_)));
    assert!(matches!(&q.clauses[1], Clause::SetProperties(_)));
}

#[test]
fn query_detach_delete() {
    let q = parse_query("DETACH DELETE n").expect("should parse");
    assert_eq!(q.clauses.len(), 1);

    if let Clause::Delete(dc) = &q.clauses[0] {
        assert!(dc.detach);
        assert_eq!(dc.exprs[0], Expression::Variable("n".to_string()));
    } else {
        panic!("expected DELETE clause");
    }
}

#[test]
fn query_optional_match() {
    let q = parse_query("MATCH (n:Person) OPTIONAL MATCH (n)-[:KNOWS]->(m) RETURN n, m")
        .expect("should parse");
    assert_eq!(q.clauses.len(), 3);

    if let Clause::Match(mc) = &q.clauses[0] {
        assert!(!mc.optional);
    } else {
        panic!("expected MATCH clause");
    }

    if let Clause::Match(mc) = &q.clauses[1] {
        assert!(mc.optional);
    } else {
        panic!("expected OPTIONAL MATCH clause");
    }
}

#[test]
fn query_count_star() {
    let q = parse_query("MATCH (n) RETURN count(*)").expect("should parse");
    assert_eq!(q.clauses.len(), 2);

    if let Clause::Return(rc) = &q.clauses[1] {
        assert_eq!(rc.items[0].expr, Expression::CountStar);
    } else {
        panic!("expected RETURN clause");
    }
}

#[test]
fn query_count_distinct() {
    let q = parse_query("MATCH (n) RETURN count(DISTINCT n.name)").expect("should parse");

    if let Clause::Return(rc) = &q.clauses[1] {
        assert_eq!(
            rc.items[0].expr,
            Expression::FunctionCall {
                name: "count".to_string(),
                distinct: true,
                args: vec![Expression::Property(
                    Box::new(Expression::Variable("n".to_string())),
                    "name".to_string(),
                )],
            }
        );
    } else {
        panic!("expected RETURN clause");
    }
}

#[test]
fn query_create_relationship() {
    let q = parse_query("CREATE (a:Person {name: 'Alice'})-[:KNOWS]->(b:Person {name: 'Bob'})")
        .expect("should parse");
    assert_eq!(q.clauses.len(), 1);

    if let Clause::Create(cc) = &q.clauses[0] {
        assert_eq!(cc.pattern.chains[0].elements.len(), 3);
        // Verify node a
        if let PatternElement::Node(n) = &cc.pattern.chains[0].elements[0] {
            assert_eq!(n.variable, Some("a".to_string()));
            assert_eq!(n.labels, vec!["Person".to_string()]);
        }
        // Verify relationship
        if let PatternElement::Relationship(r) = &cc.pattern.chains[0].elements[1] {
            assert_eq!(r.rel_types, vec!["KNOWS".to_string()]);
            assert_eq!(r.direction, RelDirection::Outgoing);
        }
        // Verify node b
        if let PatternElement::Node(n) = &cc.pattern.chains[0].elements[2] {
            assert_eq!(n.variable, Some("b".to_string()));
        }
    } else {
        panic!("expected CREATE clause");
    }
}

// -- Error cases --

#[test]
fn query_error_empty() {
    let result = parse_query("");
    assert!(result.is_err());
    assert!(result
        .expect_err("should fail")
        .message
        .contains("empty query"));
}

#[test]
fn query_error_where_without_match() {
    let result = parse_query("WHERE n.age > 30");
    assert!(result.is_err());
    assert!(result.expect_err("should fail").message.contains("WHERE"));
}

#[test]
fn query_error_order_without_return() {
    let result = parse_query("ORDER BY n.name");
    assert!(result.is_err());
}

#[test]
fn query_error_unexpected_token() {
    let result = parse_query("42");
    assert!(result.is_err());
}

#[test]
fn query_error_lex_error() {
    let result = parse_query("MATCH @");
    assert!(result.is_err());
}

#[test]
fn query_with_clause() {
    let q = parse_query("MATCH (n) WITH n WHERE n.age > 30 RETURN n").expect("should parse");
    assert_eq!(q.clauses.len(), 3);
    assert!(matches!(&q.clauses[0], Clause::Match(_)));
    assert!(matches!(&q.clauses[1], Clause::With(_)));
    assert!(matches!(&q.clauses[2], Clause::Return(_)));

    if let Clause::With(wc) = &q.clauses[1] {
        assert!(wc.where_clause.is_some());
    }
}

#[test]
fn query_merge() {
    let q = parse_query("MERGE (n:Person {name: 'Alice'})").expect("should parse");
    assert_eq!(q.clauses.len(), 1);
    assert!(matches!(&q.clauses[0], Clause::Merge(_)));
}

#[test]
fn query_match_remove() {
    let q = parse_query("MATCH (n:Person) REMOVE n.email, n:Temp").expect("should parse");
    assert_eq!(q.clauses.len(), 2);
    assert!(matches!(&q.clauses[1], Clause::Remove(_)));
}

#[test]
fn query_match_delete() {
    let q = parse_query("MATCH (n:Person) DELETE n").expect("should parse");
    assert_eq!(q.clauses.len(), 2);

    if let Clause::Delete(dc) = &q.clauses[1] {
        assert!(!dc.detach);
    }
}

#[test]
fn query_return_skip_limit() {
    let q = parse_query("MATCH (n) RETURN n SKIP 5 LIMIT 10").expect("should parse");

    if let Clause::Return(rc) = &q.clauses[1] {
        assert_eq!(
            rc.skip.as_ref().expect("should have SKIP"),
            &Expression::Literal(Literal::Integer(5))
        );
        assert_eq!(
            rc.limit.as_ref().expect("should have LIMIT"),
            &Expression::Literal(Literal::Integer(10))
        );
    }
}

#[test]
fn query_case_insensitive() {
    let q = parse_query("match (n:Person) return n").expect("should parse");
    assert_eq!(q.clauses.len(), 2);
}

// ======================================================================
// TASK-098: CREATE INDEX / DROP INDEX parsing
// ======================================================================

#[test]
fn query_create_index_with_name() {
    let q = parse_query("CREATE INDEX idx_person_name ON :Person(name)").expect("should parse");
    assert_eq!(q.clauses.len(), 1);

    if let Clause::CreateIndex(ci) = &q.clauses[0] {
        assert_eq!(ci.name, Some("idx_person_name".to_string()));
        assert_eq!(ci.target, IndexTarget::NodeLabel("Person".to_string()));
        assert_eq!(ci.property, "name");
    } else {
        panic!("expected CreateIndex clause");
    }
}

#[test]
fn query_create_index_without_name() {
    let q = parse_query("CREATE INDEX ON :Person(name)").expect("should parse");
    assert_eq!(q.clauses.len(), 1);

    if let Clause::CreateIndex(ci) = &q.clauses[0] {
        assert_eq!(ci.name, None);
        assert_eq!(ci.target, IndexTarget::NodeLabel("Person".to_string()));
        assert_eq!(ci.property, "name");
    } else {
        panic!("expected CreateIndex clause");
    }
}

#[test]
fn query_drop_index() {
    let q = parse_query("DROP INDEX idx_person_name").expect("should parse");
    assert_eq!(q.clauses.len(), 1);

    if let Clause::DropIndex(di) = &q.clauses[0] {
        assert_eq!(di.name, "idx_person_name");
    } else {
        panic!("expected DropIndex clause");
    }
}

// ======================================================================
// TASK-068: UNWIND clause integration tests
// ======================================================================

#[test]
fn query_unwind_list_return() {
    let q = parse_query("UNWIND [1, 2, 3] AS x RETURN x").expect("should parse");
    assert_eq!(q.clauses.len(), 2);
    assert!(matches!(&q.clauses[0], Clause::Unwind(_)));
    assert!(matches!(&q.clauses[1], Clause::Return(_)));

    if let Clause::Unwind(uc) = &q.clauses[0] {
        assert_eq!(uc.variable, "x");
        assert!(matches!(&uc.expr, Expression::ListLiteral(_)));
    }
}

#[test]
fn query_match_unwind_return() {
    let q = parse_query("MATCH (n:Person) UNWIND n.hobbies AS h RETURN h")
        .expect("should parse");
    assert_eq!(q.clauses.len(), 3);
    assert!(matches!(&q.clauses[0], Clause::Match(_)));
    assert!(matches!(&q.clauses[1], Clause::Unwind(_)));
    assert!(matches!(&q.clauses[2], Clause::Return(_)));
}
