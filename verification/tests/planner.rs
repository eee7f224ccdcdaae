#![allow(unused_imports)]

use cypherlite_query::lexer::{lex, LexError, Span, Token};
use cypherlite_query::parser::{parse_query, ParseError, Parser};
use cypherlite_query::parser::ast::{
    BinaryOp, Clause, CreateClause, CreateIndexClause, DeleteClause, DropIndexClause, Expression,
    IndexTarget, Literal, MapLiteral, MatchClause, MergeClause, NodePattern, OrderItem, Pattern,
    PatternChain, PatternElement, Query, RelDirection, RelationshipPattern, RemoveClause,
    RemoveItem, ReturnClause, ReturnItem, SetClause, SetItem, TemporalPredicate, UnaryOp,
    UnwindClause, WithClause,
};
use cypherlite_query::planner::{
    AggregateFunc, LogicalPlan, LogicalPlanner, PlanError, TemporalFilterPlan, DEFAULT_MAX_HOPS,
};
use cypherlite_query::planner::catalog::Catalog;
use cypherlite_query::planner::optimize::optimize;

// Helper: parse + plan a query using a fresh Catalog.
fn plan_query(input: &str) -> LogicalPlan {
    let query = parse_query(input).expect("should parse");
    let mut planner = LogicalPlanner::new(Catalog::default());
    planner.plan(&query).expect("should plan")
}

// Helper: parse + plan, returning catalog for ID inspection.
fn plan_query_with_catalog(input: &str) -> (LogicalPlan, Catalog) {
    let query = parse_query(input).expect("should parse");
    let mut planner = LogicalPlanner::new(Catalog::default());
    let plan = planner.plan(&query).expect("should plan");
    (plan, planner.into_registry())
}

// ======================================================================
// TASK-043: Planner unit tests
// ======================================================================

/// MATCH (n:Person) RETURN n -> NodeScan + Project
#[test]
fn test_plan_single_node_match_return() {
    let (plan, catalog) = plan_query_with_catalog("MATCH (n:Person) RETURN n");
    let person_id = catalog.label_id("Person").expect("Person label exists");

    // Outermost should be Project wrapping NodeScan.
    match &plan {
        LogicalPlan::Project {
            source, distinct, ..
        } => {
            assert!(!distinct);
            match source.as_ref() {
                LogicalPlan::NodeScan {
                    variable, label_id, ..
                } => {
                    assert_eq!(variable, "n");
                    assert_eq!(*label_id, Some(person_id));
                }
                other => panic!("expected NodeScan, got {:?}", other),
            }
        }
        other => panic!("expected Project, got {:?}", other),
    }
}

/// MATCH (a)-[:KNOWS]->(b)-[:KNOWS]->(c) RETURN c
/// -> NodeScan(a) + Expand(KNOWS, b) + Expand(KNOWS, c) + Project
#[test]
fn test_plan_2hop_match() {
    let (plan, catalog) =
        plan_query_with_catalog("MATCH (a)-[:KNOWS]->(b)-[:KNOWS]->(c) RETURN c");
    let knows_id = catalog.rel_type_id("KNOWS").expect("KNOWS rel type exists");

    // Outermost: Project
    let project_source = match &plan {
        LogicalPlan::Project { source, .. } => source.as_ref(),
        other => panic!("expected Project, got {:?}", other),
    };

    // Second Expand (b -> c)
    let expand1_source = match project_source {
        LogicalPlan::Expand {
            src_var,
            target_var,
            rel_type_id,
            direction,
            source,
            ..
        } => {
            assert_eq!(src_var, "b");
            assert_eq!(target_var, "c");
            assert_eq!(*rel_type_id, Some(knows_id));
            assert_eq!(*direction, RelDirection::Outgoing);
            source.as_ref()
        }
        other => panic!("expected Expand, got {:?}", other),
    };

    // First Expand (a -> b)
    let scan = match expand1_source {
        LogicalPlan::Expand {
            src_var,
            target_var,
            rel_type_id,
            direction,
            source,
            ..
        } => {
            assert_eq!(src_var, "a");
            assert_eq!(target_var, "b");
            assert_eq!(*rel_type_id, Some(knows_id));
            assert_eq!(*direction, RelDirection::Outgoing);
            source.as_ref()
        }
        other => panic!("expected Expand, got {:?}", other),
    };

    // NodeScan(a)
    match scan {
        LogicalPlan::NodeScan {
            variable, label_id, ..
        } => {
            assert_eq!(variable, "a");
            assert_eq!(*label_id, None); // no label on (a)
        }
        other => panic!("expected NodeScan, got {:?}", other),
    }
}

/// MATCH (n:Person) WHERE n.age > 30 RETURN n -> NodeScan + Filter + Project
#[test]
fn test_plan_match_where_return() {
    let plan = plan_query("MATCH (n:Person) WHERE n.age > 30 RETURN n");

    // Outermost: Project
    let project_source = match &plan {
        LogicalPlan::Project { source, .. } => source.as_ref(),
        other => panic!("expected Project, got {:?}", other),
    };

    // Filter
    let filter_source = match project_source {
        LogicalPlan::Filter {
            source, predicate, ..
        } => {
            // Verify predicate is n.age > 30
            match predicate {
                Expression::BinaryOp(BinaryOp::Gt, lhs, rhs) => {
                    assert_eq!(
                        **lhs,
                        Expression::Property(
                            Box::new(Expression::Variable("n".to_string())),
                            "age".to_string()
                        )
                    );
                    assert_eq!(**rhs, Expression::Literal(Literal::Integer(30)));
                }
                other => panic!("expected BinaryOp Gt, got {:?}", other),
            }
            source.as_ref()
        }
        other => panic!("expected Filter, got {:?}", other),
    };

    // NodeScan
    match filter_source {
        LogicalPlan::NodeScan {
            variable, label_id, ..
        } => {
            assert_eq!(variable, "n");
            assert!(label_id.is_some());
        }
        other => panic!("expected NodeScan, got {:?}", other),
    }
}

/// MATCH (n) CREATE (m:Person {name: "Alice"}) -> NodeScan + CreateOp
#[test]
fn test_plan_match_create() {
    let plan = plan_query("MATCH (n) CREATE (m:Person {name: 'Alice'})");

    match &plan {
        LogicalPlan::CreateOp {
            source, pattern, ..
        } => {
            // Source should be NodeScan(n)
            let src = source.as_ref().expect("should have source");
            match src.as_ref() {
                LogicalPlan::NodeScan {
                    variable, label_id, ..
                } => {
                    assert_eq!(variable, "n");
                    assert_eq!(*label_id, None);
                }
                other => panic!("expected NodeScan, got {:?}", other),
            }
            // Pattern should have the Person node
            assert!(!pattern.chains.is_empty());
        }
        other => panic!("expected CreateOp, got {:?}", other),
    }
}

/// CREATE (n:Person) -> CreateOp with no source
#[test]
fn test_plan_create_only() {
    let plan = plan_query("CREATE (n:Person)");

    match &plan {
        LogicalPlan::CreateOp { source, pattern } => {
            assert!(source.is_none());
            assert!(!pattern.chains.is_empty());
        }
        other => panic!("expected CreateOp, got {:?}", other),
    }
}

/// MATCH (n:Person) SET n.name = "Bob" RETURN n
/// -> NodeScan + SetOp + Project
#[test]
fn test_plan_match_set_return() {
    let plan = plan_query("MATCH (n:Person) SET n.name = 'Bob' RETURN n");

    // Outermost: Project
    let project_source = match &plan {
        LogicalPlan::Project { source, .. } => source.as_ref(),
        other => panic!("expected Project, got {:?}", other),
    };

    // SetOp
    let set_source = match project_source {
        LogicalPlan::SetOp { source, items } => {
            assert_eq!(items.len(), 1);
            source.as_ref()
        }
        other => panic!("expected SetOp, got {:?}", other),
    };

    // NodeScan
    match set_source {
        LogicalPlan::NodeScan { variable, .. } => {
            assert_eq!(variable, "n");
        }
        other => panic!("expected NodeScan, got {:?}", other),
    }
}

/// MATCH (n) DELETE n -> NodeScan + DeleteOp
#[test]
fn test_plan_match_delete() {
    let plan = plan_query("MATCH (n) DELETE n");

    match &plan {
        LogicalPlan::DeleteOp {
            source,
            exprs,
            detach,
        } => {
            assert!(!detach);
            assert_eq!(exprs.len(), 1);
            assert_eq!(exprs[0], Expression::Variable("n".to_string()));
            match source.as_ref() {
                LogicalPlan::NodeScan { variable, .. } => {
                    assert_eq!(variable, "n");
                }
                other => panic!("expected NodeScan, got {:?}", other),
            }
        }
        other => panic!("expected DeleteOp, got {:?}", other),
    }
}

/// MATCH (n) RETURN n ORDER BY n.name SKIP 5 LIMIT 10
/// -> NodeScan + Project + Sort + Skip + Limit
#[test]
fn test_plan_return_with_order_skip_limit() {
    let plan = plan_query("MATCH (n) RETURN n ORDER BY n.name SKIP 5 LIMIT 10");

    // Outermost: Limit
    let limit_source = match &plan {
        LogicalPlan::Limit { source, count } => {
            assert_eq!(*count, Expression::Literal(Literal::Integer(10)));
            source.as_ref()
        }
        other => panic!("expected Limit, got {:?}", other),
    };

    // Skip
    let skip_source = match limit_source {
        LogicalPlan::Skip { source, count } => {
            assert_eq!(*count, Expression::Literal(Literal::Integer(5)));
            source.as_ref()
        }
        other => panic!("expected Skip, got {:?}", other),
    };

    // Sort
    let sort_source = match skip_source {
        LogicalPlan::Sort { source, items } => {
            assert_eq!(items.len(), 1);
            source.as_ref()
        }
        other => panic!("expected Sort, got {:?}", other),
    };

    // Project
    match sort_source {
        LogicalPlan::Project { source, .. } => match source.as_ref() {
            LogicalPlan::NodeScan { variable, .. } => {
                assert_eq!(variable, "n");
            }
            other => panic!("expected NodeScan, got {:?}", other),
        },
        other => panic!("expected Project, got {:?}", other),
    }
}

/// MATCH (n:Person) REMOVE n.email, n:Temp
/// -> NodeScan + RemoveOp
#[test]
fn test_plan_match_remove() {
    let plan = plan_query("MATCH (n:Person) REMOVE n.email, n:Temp");

    match &plan {
        LogicalPlan::RemoveOp { source, items } => {
            assert_eq!(items.len(), 2);
            match source.as_ref() {
                LogicalPlan::NodeScan { variable, .. } => {
                    assert_eq!(variable, "n");
                }
                other => panic!("expected NodeScan, got {:?}", other),
            }
        }
        other => panic!("expected RemoveOp, got {:?}", other),
    }
}

/// PlanError display formatting.
#[test]
fn test_plan_error_display() {
    let err = PlanError {
        message: "test error".to_string(),
    };
    assert_eq!(err.to_string(), "Plan error: test error");
}

/// RETURN without MATCH should fail.
#[test]
fn test_plan_return_without_source_fails() {
    let query = parse_query("MATCH (n) RETURN n").expect("should parse");
    // Manually construct a RETURN-only query to test error.
    let return_only = Query {
        clauses: vec![query.clauses.into_iter().nth(1).expect("has RETURN")],
    };
    let mut planner = LogicalPlanner::new(Catalog::default());
    let result = planner.plan(&return_only);
    assert!(result.is_err());
    assert!(result
        .expect_err("should fail")
        .message
        .contains("requires a preceding data source"));
}

// ======================================================================
// TASK-061: Planner WITH clause tests
// ======================================================================

/// MATCH (n:Person) WITH n RETURN n -> NodeScan + With + Project
#[test]
fn test_plan_with_simple() {
    let plan = plan_query("MATCH (n:Person) WITH n RETURN n");

    // Outermost: Project
    let project_source = match &plan {
        LogicalPlan::Project { source, .. } => source.as_ref(),
        other => panic!("expected Project, got {:?}", other),
    };

    // With
    let with_source = match project_source {
        LogicalPlan::With {
            source,
            items,
            where_clause,
            distinct,
        } => {
            assert_eq!(items.len(), 1);
            assert!(where_clause.is_none());
            assert!(!distinct);
            source.as_ref()
        }
        other => panic!("expected With, got {:?}", other),
    };

    // NodeScan
    match with_source {
        LogicalPlan::NodeScan { variable, .. } => {
            assert_eq!(variable, "n");
        }
        other => panic!("expected NodeScan, got {:?}", other),
    }
}

/// MATCH (n:Person) WITH n WHERE n.age > 30 RETURN n
#[test]
fn test_plan_with_where() {
    let plan = plan_query("MATCH (n:Person) WITH n WHERE n.age > 30 RETURN n");

    let project_source = match &plan {
        LogicalPlan::Project { source, .. } => source.as_ref(),
        other => panic!("expected Project, got {:?}", other),
    };

    match project_source {
        LogicalPlan::With {
            where_clause,
            items,
            ..
        } => {
            assert_eq!(items.len(), 1);
            assert!(where_clause.is_some());
        }
        other => panic!("expected With, got {:?}", other),
    }
}

/// WITH without source should fail
#[test]
fn test_plan_with_without_source_fails() {
    let query = parse_query("MATCH (n) WITH n RETURN n").expect("should parse");
    // Build a WITH-only query
    let with_only = Query {
        clauses: vec![query.clauses.into_iter().nth(1).expect("has WITH")],
    };
    let mut planner = LogicalPlanner::new(Catalog::default());
    let result = planner.plan(&with_only);
    assert!(result.is_err());
    assert!(result
        .expect_err("should fail")
        .message
        .contains("requires a preceding data source"));
}

// ======================================================================
// TASK-064: WITH DISTINCT planner test
// ======================================================================

/// MATCH (n:Person) WITH DISTINCT n.name AS name RETURN name
#[test]
fn test_plan_with_distinct() {
    let plan = plan_query("MATCH (n:Person) WITH DISTINCT n.name AS name RETURN name");

    let project_source = match &plan {
        LogicalPlan::Project { source, .. } => source.as_ref(),
        other => panic!("expected Project, got {:?}", other),
    };

    match project_source {
        LogicalPlan::With {
            distinct, items, ..
        } => {
            assert!(distinct);
            assert_eq!(items.len(), 1);
            assert_eq!(items[0].alias, Some("name".to_string()));
        }
        other => panic!("expected With, got {:?}", other),
    }
}

// ======================================================================
// TASK-063: WITH + aggregation planner tests
// ======================================================================

/// MATCH (n:Person) WITH n, count(*) AS cnt RETURN n, cnt
/// -> NodeScan + Aggregate(group_keys=[n], aggs=[count(*) AS cnt]) + Project
#[test]
fn test_plan_with_count_star_aggregation() {
    let plan = plan_query("MATCH (n:Person) WITH n, count(*) AS cnt RETURN n, cnt");

    // Outermost: Project
    let project_source = match &plan {
        LogicalPlan::Project { source, .. } => source.as_ref(),
        other => panic!("expected Project, got {:?}", other),
    };

    // Should be Aggregate (not With), because count(*) was detected
    match project_source {
        LogicalPlan::Aggregate {
            group_keys,
            aggregates,
            source,
            ..
        } => {
            // group key: n
            assert_eq!(group_keys.len(), 1);
            assert_eq!(group_keys[0], Expression::Variable("n".to_string()));
            // aggregate: count(*) AS cnt
            assert_eq!(aggregates.len(), 1);
            assert_eq!(aggregates[0].0, "cnt");
            assert_eq!(aggregates[0].1, AggregateFunc::CountStar);
            // source: NodeScan
            match source.as_ref() {
                LogicalPlan::NodeScan { variable, .. } => {
                    assert_eq!(variable, "n");
                }
                other => panic!("expected NodeScan, got {:?}", other),
            }
        }
        other => panic!("expected Aggregate, got {:?}", other),
    }
}

/// MATCH (n:Person) WITH count(*) AS total RETURN total
/// -> NodeScan + Aggregate(group_keys=[], aggs=[count(*) AS total]) + Project
#[test]
fn test_plan_with_count_star_no_group_key() {
    let plan = plan_query("MATCH (n:Person) WITH count(*) AS total RETURN total");

    let project_source = match &plan {
        LogicalPlan::Project { source, .. } => source.as_ref(),
        other => panic!("expected Project, got {:?}", other),
    };

    match project_source {
        LogicalPlan::Aggregate {
            group_keys,
            aggregates,
            ..
        } => {
            assert!(group_keys.is_empty());
            assert_eq!(aggregates.len(), 1);
            assert_eq!(aggregates[0].0, "total");
            assert_eq!(aggregates[0].1, AggregateFunc::CountStar);
        }
        other => panic!("expected Aggregate, got {:?}", other),
    }
}

/// Optimizer pass-through test.
#[test]
fn test_optimizer_passthrough() {
    let plan = plan_query("MATCH (n:Person) WHERE n.age > 30 RETURN n");
    let optimized = optimize(plan.clone());
    assert_eq!(plan, optimized);
}

// ======================================================================
// TASK-070: Planner UNWIND clause tests
// ======================================================================

/// UNWIND [1,2,3] AS x RETURN x -> EmptySource + Unwind + Project
#[test]
fn test_plan_unwind_list_literal() {
    let plan = plan_query("UNWIND [1, 2, 3] AS x RETURN x");

    // Outermost: Project
    let project_source = match &plan {
        LogicalPlan::Project { source, .. } => source.as_ref(),
        other => panic!("expected Project, got {:?}", other),
    };

    // Unwind
    match project_source {
        LogicalPlan::Unwind {
            source,
            expr,
            variable,
        } => {
            assert_eq!(variable, "x");
            assert!(matches!(expr, Expression::ListLiteral(_)));
            // Source should be EmptySource
            match source.as_ref() {
                LogicalPlan::EmptySource => {}
                other => panic!("expected EmptySource, got {:?}", other),
            }
        }
        other => panic!("expected Unwind, got {:?}", other),
    }
}

/// MATCH (n:Person) UNWIND n.hobbies AS h RETURN h
/// -> NodeScan + Unwind + Project
#[test]
fn test_plan_match_unwind() {
    let plan = plan_query("MATCH (n:Person) UNWIND n.hobbies AS h RETURN h");

    let project_source = match &plan {
        LogicalPlan::Project { source, .. } => source.as_ref(),
        other => panic!("expected Project, got {:?}", other),
    };

    match project_source {
        LogicalPlan::Unwind {
            source,
            variable,
            expr,
        } => {
            assert_eq!(variable, "h");
            assert_eq!(
                *expr,
                Expression::Property(
                    Box::new(Expression::Variable("n".to_string())),
                    "hobbies".to_string(),
                )
            );
            match source.as_ref() {
                LogicalPlan::NodeScan { variable, .. } => {
                    assert_eq!(variable, "n");
                }
                other => panic!("expected NodeScan, got {:?}", other),
            }
        }
        other => panic!("expected Unwind, got {:?}", other),
    }
}

// ======================================================================
// TASK-075: Planner OPTIONAL MATCH tests
// ======================================================================

/// MATCH (a:Person) OPTIONAL MATCH (a)-[:KNOWS]->(b) RETURN a, b
/// -> NodeScan(a) + OptionalExpand(KNOWS, b) + Project
#[test]
fn test_plan_optional_match_basic() {
    let (plan, catalog) = plan_query_with_catalog(
        "MATCH (a:Person) OPTIONAL MATCH (a)-[:KNOWS]->(b) RETURN a, b",
    );
    let knows_id = catalog.rel_type_id("KNOWS").expect("KNOWS rel type");

    // Outermost: Project
    let project_source = match &plan {
        LogicalPlan::Project { source, .. } => source.as_ref(),
        other => panic!("expected Project, got {:?}", other),
    };

    // OptionalExpand
    let opt_source = match project_source {
        LogicalPlan::OptionalExpand {
            src_var,
            rel_var,
            target_var,
            rel_type_id,
            direction,
            source,
        } => {
            assert_eq!(src_var, "a");
            assert!(rel_var.is_none());
            assert_eq!(target_var, "b");
            assert_eq!(*rel_type_id, Some(knows_id));
            assert_eq!(*direction, RelDirection::Outgoing);
            source.as_ref()
        }
        other => panic!("expected OptionalExpand, got {:?}", other),
    };

    // NodeScan(a:Person)
    match opt_source {
        LogicalPlan::NodeScan {
            variable, label_id, ..
        } => {
            assert_eq!(variable, "a");
            assert!(label_id.is_some());
        }
        other => panic!("expected NodeScan, got {:?}", other),
    }
}

/// OPTIONAL MATCH without preceding MATCH should fail
#[test]
fn test_plan_optional_match_without_source_fails() {
    let query =
        parse_query("OPTIONAL MATCH (a)-[:KNOWS]->(b) RETURN a, b").expect("should parse");
    let mut planner = LogicalPlanner::new(Catalog::default());
    let result = planner.plan(&query);
    assert!(result.is_err());
    assert!(result
        .expect_err("should fail")
        .message
        .contains("requires a preceding MATCH"));
}

/// MATCH (a:Person) OPTIONAL MATCH (a)-[:KNOWS]->(b) WHERE b.age > 20 RETURN a, b
/// -> NodeScan + OptionalExpand + Filter + Project
#[test]
fn test_plan_optional_match_with_where() {
    let plan = plan_query(
        "MATCH (a:Person) OPTIONAL MATCH (a)-[:KNOWS]->(b) WHERE b.age > 20 RETURN a, b",
    );

    // Outermost: Project
    let project_source = match &plan {
        LogicalPlan::Project { source, .. } => source.as_ref(),
        other => panic!("expected Project, got {:?}", other),
    };

    // Filter from OPTIONAL MATCH WHERE
    let filter_source = match project_source {
        LogicalPlan::Filter { source, .. } => source.as_ref(),
        other => panic!("expected Filter, got {:?}", other),
    };

    // OptionalExpand
    match filter_source {
        LogicalPlan::OptionalExpand { target_var, .. } => {
            assert_eq!(target_var, "b");
        }
        other => panic!("expected OptionalExpand, got {:?}", other),
    }
}

/// MATCH (a:Person) OPTIONAL MATCH (a)-[r:KNOWS]->(b) RETURN a, r, b
/// -> OptionalExpand with rel_var
#[test]
fn test_plan_optional_match_with_rel_var() {
    let plan = plan_query("MATCH (a:Person) OPTIONAL MATCH (a)-[r:KNOWS]->(b) RETURN a, r, b");

    let project_source = match &plan {
        LogicalPlan::Project { source, .. } => source.as_ref(),
        other => panic!("expected Project, got {:?}", other),
    };

    match project_source {
        LogicalPlan::OptionalExpand {
            rel_var,
            target_var,
            ..
        } => {
            assert_eq!(*rel_var, Some("r".to_string()));
            assert_eq!(target_var, "b");
        }
        other => panic!("expected OptionalExpand, got {:?}", other),
    }
}

// -- TASK-104/105: VarLengthExpand planner tests --

#[test]
fn test_plan_var_length_bounded() {
    let plan = plan_query("MATCH (a)-[*1..3]->(b) RETURN b");
    // Outermost: Project wrapping VarLengthExpand
    match &plan {
        LogicalPlan::Project { source, .. } => match source.as_ref() {
            LogicalPlan::VarLengthExpand {
                src_var,
                target_var,
                min_hops,
                max_hops,
                ..
            } => {
                assert_eq!(src_var, "a");
                assert_eq!(target_var, "b");
                assert_eq!(*min_hops, 1);
                assert_eq!(*max_hops, 3);
            }
            other => panic!("expected VarLengthExpand, got {:?}", other),
        },
        other => panic!("expected Project, got {:?}", other),
    }
}

#[test]
fn test_plan_var_length_unbounded_gets_default_max() {
    let plan = plan_query("MATCH (a)-[*]->(b) RETURN b");
    match &plan {
        LogicalPlan::Project { source, .. } => match source.as_ref() {
            LogicalPlan::VarLengthExpand {
                min_hops, max_hops, ..
            } => {
                assert_eq!(*min_hops, 1);
                assert_eq!(*max_hops, DEFAULT_MAX_HOPS);
            }
            other => panic!("expected VarLengthExpand, got {:?}", other),
        },
        other => panic!("expected Project, got {:?}", other),
    }
}

#[test]
fn test_plan_var_length_typed() {
    let (plan, catalog) = plan_query_with_catalog("MATCH (a)-[:KNOWS*2..4]->(b) RETURN b");
    let knows_id = catalog.rel_type_id("KNOWS").expect("KNOWS exists");
    match &plan {
        LogicalPlan::Project { source, .. } => match source.as_ref() {
            LogicalPlan::VarLengthExpand {
                rel_type_id,
                min_hops,
                max_hops,
                ..
            } => {
                assert_eq!(*rel_type_id, Some(knows_id));
                assert_eq!(*min_hops, 2);
                assert_eq!(*max_hops, 4);
            }
            other => panic!("expected VarLengthExpand, got {:?}", other),
        },
        other => panic!("expected Project, got {:?}", other),
    }
}

#[test]
fn test_plan_regular_expand_unchanged() {
    let plan = plan_query("MATCH (a)-[:KNOWS]->(b) RETURN b");
    match &plan {
        LogicalPlan::Project { source, .. } => match source.as_ref() {
            LogicalPlan::Expand { .. } => {} // Regular expand, not VarLengthExpand
            other => panic!("expected Expand, got {:?}", other),
        },
        other => panic!("expected Project, got {:?}", other),
    }
}

#[test]
fn test_plan_var_length_exact_hop() {
    let plan = plan_query("MATCH (a)-[*2]->(b) RETURN b");
    match &plan {
        LogicalPlan::Project { source, .. } => match source.as_ref() {
            LogicalPlan::VarLengthExpand {
                min_hops, max_hops, ..
            } => {
                assert_eq!(*min_hops, 2);
                assert_eq!(*max_hops, 2);
            }
            other => panic!("expected VarLengthExpand, got {:?}", other),
        },
        other => panic!("expected Project, got {:?}", other),
    }
}

#[test]
fn test_plan_var_length_open_end_gets_default() {
    let plan = plan_query("MATCH (a)-[*3..]->(b) RETURN b");
    match &plan {
        LogicalPlan::Project { source, .. } => match source.as_ref() {
            LogicalPlan::VarLengthExpand {
                min_hops, max_hops, ..
            } => {
                assert_eq!(*min_hops, 3);
                assert_eq!(*max_hops, DEFAULT_MAX_HOPS);
            }
            other => panic!("expected VarLengthExpand, got {:?}", other),
        },
        other => panic!("expected Project, got {:?}", other),
    }
}

#[test]
fn test_plan_var_length_with_variable() {
    let plan = plan_query("MATCH (a)-[r:KNOWS*1..2]->(b) RETURN b");
    match &plan {
        LogicalPlan::Project { source, .. } => match source.as_ref() {
            LogicalPlan::VarLengthExpand {
                rel_var,
                min_hops,
                max_hops,
                ..
            } => {
                assert_eq!(*rel_var, Some("r".to_string()));
                assert_eq!(*min_hops, 1);
                assert_eq!(*max_hops, 2);
            }
            other => panic!("expected VarLengthExpand, got {:?}", other),
        },
        other => panic!("expected Project, got {:?}", other),
    }
}



#[test]
fn optional_match_without_source_registers_nothing() {
    let query =
        parse_query("OPTIONAL MATCH (a:Person)-[:KNOWS]->(b) RETURN a, b").expect("should parse");
    let mut planner = LogicalPlanner::new(Catalog::default());
    assert!(planner.plan(&query).is_err());
    let catalog = planner.into_registry();
    assert_eq!(catalog.label_count(), 0);
    assert_eq!(catalog.rel_type_count(), 0);
}
