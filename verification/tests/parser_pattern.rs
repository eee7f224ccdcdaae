#![allow(unused_imports)]

use cypherlite_query::lexer::{lex, LexError, Span, Token};
use cypherlite_query::parser::{parse_query, ParseError, Parser};
use cypherlite_query::parser::ast::{
    BinaryOp, Clause, CreateClause, CreateIndexClause, DeleteClause, DropIndexClause, Expression,
    IndexTarget, Literal, MapLiteral, MatchClause, MergeClause, NodePattern, OrderItem, Pattern,
    PatternChain, PatternElement, Query, RelDirection, RelationshipPattern, RemoveClause,
    RemoveItem, ReturnClause, ReturnItem, SetClause, SetItem, TemporalPredicate, UnaryOp,
    UnwindClause, WithClause,
};
use cypherlite_query::planner::{AggregateFunc, LogicalPlan, LogicalPlanner, PlanError, TemporalFilterPlan};
use cypherlite_query::planner::catalog::Catalog;
use cypherlite_query::planner::optimize::optimize;

/// Helper: parse a pattern from a string.
fn parse_pattern_str(input: &str) -> Result<Pattern, ParseError> {
    let tokens = lex(input).expect("lexing should succeed");
    let mut parser = Parser::new(&tokens, input);
    parser.parse_pattern()
}

/// Helper: parse a node pattern from a string.
fn parse_node(input: &str) -> Result<NodePattern, ParseError> {
    let tokens = lex(input).expect("lexing should succeed");
    let mut parser = Parser::new(&tokens, input);
    parser.parse_node_pattern()
}

// -- TASK-027: Pattern parser tests --

// Single node: (n:Person)
#[test]
fn pattern_single_node_with_label() {
    let node = parse_node("(n:Person)").expect("should parse");
    assert_eq!(
        node,
        NodePattern {
            variable: Some("n".to_string()),
            labels: vec!["Person".to_string()],
            properties: None,
        }
    );
}

// Node with no label: (n)
#[test]
fn pattern_node_no_label() {
    let node = parse_node("(n)").expect("should parse");
    assert_eq!(
        node,
        NodePattern {
            variable: Some("n".to_string()),
            labels: vec![],
            properties: None,
        }
    );
}

// Empty node: ()
#[test]
fn pattern_empty_node() {
    let node = parse_node("()").expect("should parse");
    assert_eq!(
        node,
        NodePattern {
            variable: None,
            labels: vec![],
            properties: None,
        }
    );
}

// Node with properties: (n:Person {name: 'Alice'})
#[test]
fn pattern_node_with_properties() {
    let node = parse_node("(n:Person {name: 'Alice'})").expect("should parse");
    assert_eq!(
        node,
        NodePattern {
            variable: Some("n".to_string()),
            labels: vec!["Person".to_string()],
            properties: Some(vec![(
                "name".to_string(),
                Expression::Literal(Literal::String("Alice".to_string())),
            )]),
        }
    );
}

// Node with multiple labels: (n:Person:Employee)
#[test]
fn pattern_node_multiple_labels() {
    let node = parse_node("(n:Person:Employee)").expect("should parse");
    assert_eq!(
        node,
        NodePattern {
            variable: Some("n".to_string()),
            labels: vec!["Person".to_string(), "Employee".to_string()],
            properties: None,
        }
    );
}

// Node with multiple properties
#[test]
fn pattern_node_multiple_properties() {
    let node = parse_node("(n:Person {name: 'Alice', age: 30})").expect("should parse");
    assert_eq!(
        node,
        NodePattern {
            variable: Some("n".to_string()),
            labels: vec!["Person".to_string()],
            properties: Some(vec![
                (
                    "name".to_string(),
                    Expression::Literal(Literal::String("Alice".to_string())),
                ),
                ("age".to_string(), Expression::Literal(Literal::Integer(30)),),
            ]),
        }
    );
}

// Label without variable: (:Person)
#[test]
fn pattern_node_label_no_variable() {
    let node = parse_node("(:Person)").expect("should parse");
    assert_eq!(
        node,
        NodePattern {
            variable: None,
            labels: vec!["Person".to_string()],
            properties: None,
        }
    );
}

// Outgoing relationship: (a)-[:KNOWS]->(b)
#[test]
fn pattern_outgoing_relationship() {
    let pattern = parse_pattern_str("(a)-[:KNOWS]->(b)").expect("should parse");
    assert_eq!(pattern.chains.len(), 1);
    let chain = &pattern.chains[0];
    assert_eq!(chain.elements.len(), 3);

    assert_eq!(
        chain.elements[0],
        PatternElement::Node(NodePattern {
            variable: Some("a".to_string()),
            labels: vec![],
            properties: None,
        })
    );
    assert_eq!(
        chain.elements[1],
        PatternElement::Relationship(RelationshipPattern {
            variable: None,
            rel_types: vec!["KNOWS".to_string()],
            direction: RelDirection::Outgoing,
            properties: None,
            min_hops: None,
            max_hops: None,
        })
    );
    assert_eq!(
        chain.elements[2],
        PatternElement::Node(NodePattern {
            variable: Some("b".to_string()),
            labels: vec![],
            properties: None,
        })
    );
}

// Incoming: (a)<-[:KNOWS]-(b)
#[test]
fn pattern_incoming_relationship() {
    let pattern = parse_pattern_str("(a)<-[:KNOWS]-(b)").expect("should parse");
    let chain = &pattern.chains[0];
    assert_eq!(
        chain.elements[1],
        PatternElement::Relationship(RelationshipPattern {
            variable: None,
            rel_types: vec!["KNOWS".to_string()],
            direction: RelDirection::Incoming,
            properties: None,
            min_hops: None,
            max_hops: None,
        })
    );
}

// Undirected with brackets: (a)-[:KNOWS]-(b)
#[test]
fn pattern_undirected_relationship() {
    let pattern = parse_pattern_str("(a)-[:KNOWS]-(b)").expect("should parse");
    let chain = &pattern.chains[0];
    assert_eq!(
        chain.elements[1],
        PatternElement::Relationship(RelationshipPattern {
            variable: None,
            rel_types: vec!["KNOWS".to_string()],
            direction: RelDirection::Undirected,
            properties: None,
            min_hops: None,
            max_hops: None,
        })
    );
}

// Undirected without brackets: (a)--(b)
#[test]
fn pattern_undirected_no_brackets() {
    let pattern = parse_pattern_str("(a)--(b)").expect("should parse");
    let chain = &pattern.chains[0];
    assert_eq!(
        chain.elements[1],
        PatternElement::Relationship(RelationshipPattern {
            variable: None,
            rel_types: vec![],
            direction: RelDirection::Undirected,
            properties: None,
            min_hops: None,
            max_hops: None,
        })
    );
}

// Relationship with variable: (a)-[r:KNOWS]->(b)
#[test]
fn pattern_relationship_with_variable() {
    let pattern = parse_pattern_str("(a)-[r:KNOWS]->(b)").expect("should parse");
    let chain = &pattern.chains[0];
    assert_eq!(
        chain.elements[1],
        PatternElement::Relationship(RelationshipPattern {
            variable: Some("r".to_string()),
            rel_types: vec!["KNOWS".to_string()],
            direction: RelDirection::Outgoing,
            properties: None,
            min_hops: None,
            max_hops: None,
        })
    );
}

// Relationship with properties: (a)-[r:KNOWS {since: 2020}]->(b)
#[test]
fn pattern_relationship_with_properties() {
    let pattern = parse_pattern_str("(a)-[r:KNOWS {since: 2020}]->(b)").expect("should parse");
    let chain = &pattern.chains[0];
    assert_eq!(
        chain.elements[1],
        PatternElement::Relationship(RelationshipPattern {
            variable: Some("r".to_string()),
            rel_types: vec!["KNOWS".to_string()],
            direction: RelDirection::Outgoing,
            properties: Some(vec![(
                "since".to_string(),
                Expression::Literal(Literal::Integer(2020)),
            )]),
            min_hops: None,
            max_hops: None,
        })
    );
}

// Multiple relationship types: (a)-[:KNOWS|LIKES]->(b)
#[test]
fn pattern_multiple_rel_types() {
    let pattern = parse_pattern_str("(a)-[:KNOWS|LIKES]->(b)").expect("should parse");
    let chain = &pattern.chains[0];
    assert_eq!(
        chain.elements[1],
        PatternElement::Relationship(RelationshipPattern {
            variable: None,
            rel_types: vec!["KNOWS".to_string(), "LIKES".to_string()],
            direction: RelDirection::Outgoing,
            properties: None,
            min_hops: None,
            max_hops: None,
        })
    );
}

// Multi-hop: (a)-[:KNOWS]->(b)-[:KNOWS]->(c)
#[test]
fn pattern_multi_hop() {
    let pattern = parse_pattern_str("(a)-[:KNOWS]->(b)-[:KNOWS]->(c)").expect("should parse");
    let chain = &pattern.chains[0];
    assert_eq!(chain.elements.len(), 5);
    // a, KNOWS->, b, KNOWS->, c
    assert!(matches!(&chain.elements[0], PatternElement::Node(_)));
    assert!(matches!(
        &chain.elements[1],
        PatternElement::Relationship(_)
    ));
    assert!(matches!(&chain.elements[2], PatternElement::Node(_)));
    assert!(matches!(
        &chain.elements[3],
        PatternElement::Relationship(_)
    ));
    assert!(matches!(&chain.elements[4], PatternElement::Node(_)));
}

// Multiple chains: (a)-[:KNOWS]->(b), (c)-[:LIKES]->(d)
#[test]
fn pattern_multiple_chains() {
    let pattern =
        parse_pattern_str("(a)-[:KNOWS]->(b), (c)-[:LIKES]->(d)").expect("should parse");
    assert_eq!(pattern.chains.len(), 2);
    assert_eq!(pattern.chains[0].elements.len(), 3);
    assert_eq!(pattern.chains[1].elements.len(), 3);
}

// -- TASK-102: Variable-length path parsing --

// [*] -> min=1, max=None (unbounded)
#[test]
fn pattern_var_length_star_only() {
    let pattern = parse_pattern_str("(a)-[*]->(b)").expect("should parse");
    let chain = &pattern.chains[0];
    if let PatternElement::Relationship(rel) = &chain.elements[1] {
        assert_eq!(rel.min_hops, Some(1));
        assert_eq!(rel.max_hops, None);
    } else {
        panic!("expected relationship");
    }
}

// [*N] -> min=N, max=N (exact hop)
#[test]
fn pattern_var_length_exact_hop() {
    let pattern = parse_pattern_str("(a)-[*3]->(b)").expect("should parse");
    let chain = &pattern.chains[0];
    if let PatternElement::Relationship(rel) = &chain.elements[1] {
        assert_eq!(rel.min_hops, Some(3));
        assert_eq!(rel.max_hops, Some(3));
    } else {
        panic!("expected relationship");
    }
}

// [*N..M] -> min=N, max=M
#[test]
fn pattern_var_length_range() {
    let pattern = parse_pattern_str("(a)-[*1..3]->(b)").expect("should parse");
    let chain = &pattern.chains[0];
    if let PatternElement::Relationship(rel) = &chain.elements[1] {
        assert_eq!(rel.min_hops, Some(1));
        assert_eq!(rel.max_hops, Some(3));
    } else {
        panic!("expected relationship");
    }
}

// [*N..] -> min=N, max=None
#[test]
fn pattern_var_length_open_end() {
    let pattern = parse_pattern_str("(a)-[*2..]->(b)").expect("should parse");
    let chain = &pattern.chains[0];
    if let PatternElement::Relationship(rel) = &chain.elements[1] {
        assert_eq!(rel.min_hops, Some(2));
        assert_eq!(rel.max_hops, None);
    } else {
        panic!("expected relationship");
    }
}

// [*..M] -> min=1, max=M
#[test]
fn pattern_var_length_open_start() {
    let pattern = parse_pattern_str("(a)-[*..5]->(b)").expect("should parse");
    let chain = &pattern.chains[0];
    if let PatternElement::Relationship(rel) = &chain.elements[1] {
        assert_eq!(rel.min_hops, Some(1));
        assert_eq!(rel.max_hops, Some(5));
    } else {
        panic!("expected relationship");
    }
}

// [:TYPE*N..M] -> typed + bounded
#[test]
fn pattern_var_length_typed_bounded() {
    let pattern = parse_pattern_str("(a)-[:KNOWS*2..4]->(b)").expect("should parse");
    let chain = &pattern.chains[0];
    if let PatternElement::Relationship(rel) = &chain.elements[1] {
        assert_eq!(rel.rel_types, vec!["KNOWS".to_string()]);
        assert_eq!(rel.min_hops, Some(2));
        assert_eq!(rel.max_hops, Some(4));
    } else {
        panic!("expected relationship");
    }
}

// [r:TYPE*2..5] -> variable + typed + bounded
#[test]
fn pattern_var_length_variable_typed_bounded() {
    let pattern = parse_pattern_str("(a)-[r:KNOWS*2..5]->(b)").expect("should parse");
    let chain = &pattern.chains[0];
    if let PatternElement::Relationship(rel) = &chain.elements[1] {
        assert_eq!(rel.variable, Some("r".to_string()));
        assert_eq!(rel.rel_types, vec!["KNOWS".to_string()]);
        assert_eq!(rel.min_hops, Some(2));
        assert_eq!(rel.max_hops, Some(5));
    } else {
        panic!("expected relationship");
    }
}

// Incoming variable-length: (a)<-[*1..3]-(b)
#[test]
fn pattern_var_length_incoming() {
    let pattern = parse_pattern_str("(a)<-[*1..3]-(b)").expect("should parse");
    let chain = &pattern.chains[0];
    if let PatternElement::Relationship(rel) = &chain.elements[1] {
        assert_eq!(rel.direction, RelDirection::Incoming);
        assert_eq!(rel.min_hops, Some(1));
        assert_eq!(rel.max_hops, Some(3));
    } else {
        panic!("expected relationship");
    }
}

// [*0..1] zero-length path
#[test]
fn pattern_var_length_zero() {
    let pattern = parse_pattern_str("(a)-[*0..1]->(b)").expect("should parse");
    let chain = &pattern.chains[0];
    if let PatternElement::Relationship(rel) = &chain.elements[1] {
        assert_eq!(rel.min_hops, Some(0));
        assert_eq!(rel.max_hops, Some(1));
    } else {
        panic!("expected relationship");
    }
}

// Variable-length with variable only (no type): [r*2..5]
#[test]
fn pattern_var_length_variable_no_type() {
    let pattern = parse_pattern_str("(a)-[r*2..5]->(b)").expect("should parse");
    let chain = &pattern.chains[0];
    if let PatternElement::Relationship(rel) = &chain.elements[1] {
        assert_eq!(rel.variable, Some("r".to_string()));
        assert_eq!(rel.rel_types, Vec::<String>::new());
        assert_eq!(rel.min_hops, Some(2));
        assert_eq!(rel.max_hops, Some(5));
    } else {
        panic!("expected relationship");
    }
}

// Regular rel (no *) still has None/None
#[test]
fn pattern_regular_rel_no_hops() {
    let pattern = parse_pattern_str("(a)-[:KNOWS]->(b)").expect("should parse");
    let chain = &pattern.chains[0];
    if let PatternElement::Relationship(rel) = &chain.elements[1] {
        assert_eq!(rel.min_hops, None);
        assert_eq!(rel.max_hops, None);
    } else {
        panic!("expected relationship");
    }
}

// Relationship with only variable, no type: (a)-[r]->(b)
#[test]
fn pattern_rel_variable_only() {
    let pattern = parse_pattern_str("(a)-[r]->(b)").expect("should parse");
    let chain = &pattern.chains[0];
    assert_eq!(
        chain.elements[1],
        PatternElement::Relationship(RelationshipPattern {
            variable: Some("r".to_string()),
            rel_types: vec![],
            direction: RelDirection::Outgoing,
            properties: None,
            min_hops: None,
            max_hops: None,
        })
    );
}

// Empty relationship brackets: (a)-[]->(b)
#[test]
fn pattern_empty_rel_brackets() {
    let pattern = parse_pattern_str("(a)-[]->(b)").expect("should parse");
    let chain = &pattern.chains[0];
    assert_eq!(
        chain.elements[1],
        PatternElement::Relationship(RelationshipPattern {
            variable: None,
            rel_types: vec![],
            direction: RelDirection::Outgoing,
            properties: None,
            min_hops: None,
            max_hops: None,
        })
    );
}
