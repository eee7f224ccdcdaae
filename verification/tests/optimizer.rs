#![allow(unused_imports)]

use cypherlite_query::lexer::{lex, LexError, Span, Token};
use cypherlite_query::parser::{parse_query, ParseError, Parser};
use cypherlite_query::parser::ast::{
    BinaryOp, Clause, CreateClause, CreateIndexClause, DeleteClause, DropIndexClause, Expression,
    IndexTarget, Literal, MapLiteral, MatchClause, MergeClause, NodePattern, OrderItem, Pattern,
    PatternChain, PatternElement, Query, RelDirection, RelationshipPattern, RemoveClause,
    RemoveItem, ReturnClause, ReturnItem, SetClause, SetItem, TemporalPredicate, UnaryOp,
    UnwindClause, WithClause,
};
use cypherlite_query::planner::{AggregateFunc, LogicalPlan, LogicalPlanner, PlanError, TemporalFilterPlan};
use cypherlite_query::planner::catalog::Catalog;
use cypherlite_query::planner::optimize::{fold_expr, optimize};

// ========================================================================
// TASK-112: Index scan selection tests
// ========================================================================

#[test]
fn test_index_scan_simple_eq() {
    // Filter(NodeScan(n, label=1), n.name == 'Alice')
    // -> IndexScan(n, label=1, prop_key='name', lookup='Alice')
    let plan = LogicalPlan::Filter {
        source: Box::new(LogicalPlan::NodeScan {
            variable: "n".into(),
            label_id: Some(1),
            limit: None,
        }),
        predicate: Expression::BinaryOp(
            BinaryOp::Eq,
            Box::new(Expression::Property(
                Box::new(Expression::Variable("n".into())),
                "name".into(),
            )),
            Box::new(Expression::Literal(Literal::String("Alice".into()))),
        ),
    };

    let optimized = optimize(plan);
    assert_eq!(
        optimized,
        LogicalPlan::IndexScan {
            variable: "n".into(),
            label_id: 1,
            prop_key: "name".into(),
            lookup_value: Expression::Literal(Literal::String("Alice".into())),
        }
    );
}

#[test]
fn test_index_scan_reversed_eq() {
    // Filter(NodeScan(n, label=1), 'Alice' == n.name)
    // -> IndexScan(n, label=1, prop_key='name', lookup='Alice')
    let plan = LogicalPlan::Filter {
        source: Box::new(LogicalPlan::NodeScan {
            variable: "n".into(),
            label_id: Some(1),
            limit: None,
        }),
        predicate: Expression::BinaryOp(
            BinaryOp::Eq,
            Box::new(Expression::Literal(Literal::String("Alice".into()))),
            Box::new(Expression::Property(
                Box::new(Expression::Variable("n".into())),
                "name".into(),
            )),
        ),
    };

    let optimized = optimize(plan);
    assert_eq!(
        optimized,
        LogicalPlan::IndexScan {
            variable: "n".into(),
            label_id: 1,
            prop_key: "name".into(),
            lookup_value: Expression::Literal(Literal::String("Alice".into())),
        }
    );
}

#[test]
fn test_index_scan_integer_literal() {
    // Filter(NodeScan(n, label=2), n.age == 30)
    let plan = LogicalPlan::Filter {
        source: Box::new(LogicalPlan::NodeScan {
            variable: "n".into(),
            label_id: Some(2),
            limit: None,
        }),
        predicate: Expression::BinaryOp(
            BinaryOp::Eq,
            Box::new(Expression::Property(
                Box::new(Expression::Variable("n".into())),
                "age".into(),
            )),
            Box::new(Expression::Literal(Literal::Integer(30))),
        ),
    };

    let optimized = optimize(plan);
    assert_eq!(
        optimized,
        LogicalPlan::IndexScan {
            variable: "n".into(),
            label_id: 2,
            prop_key: "age".into(),
            lookup_value: Expression::Literal(Literal::Integer(30)),
        }
    );
}

#[test]
fn test_index_scan_no_label() {
    // Filter(NodeScan(n, label=None), n.name == 'Alice')
    // -> NOT converted (no label_id)
    let plan = LogicalPlan::Filter {
        source: Box::new(LogicalPlan::NodeScan {
            variable: "n".into(),
            label_id: None,
            limit: None,
        }),
        predicate: Expression::BinaryOp(
            BinaryOp::Eq,
            Box::new(Expression::Property(
                Box::new(Expression::Variable("n".into())),
                "name".into(),
            )),
            Box::new(Expression::Literal(Literal::String("Alice".into()))),
        ),
    };

    let optimized = optimize(plan);
    // Should remain a Filter over NodeScan
    assert!(matches!(optimized, LogicalPlan::Filter { .. }));
}

#[test]
fn test_index_scan_non_eq_predicate() {
    // Filter(NodeScan(n, label=1), n.age > 30)
    // -> NOT converted (not an equality predicate)
    let plan = LogicalPlan::Filter {
        source: Box::new(LogicalPlan::NodeScan {
            variable: "n".into(),
            label_id: Some(1),
            limit: None,
        }),
        predicate: Expression::BinaryOp(
            BinaryOp::Gt,
            Box::new(Expression::Property(
                Box::new(Expression::Variable("n".into())),
                "age".into(),
            )),
            Box::new(Expression::Literal(Literal::Integer(30))),
        ),
    };

    let optimized = optimize(plan);
    assert!(matches!(optimized, LogicalPlan::Filter { .. }));
}

#[test]
fn test_index_scan_wrong_variable() {
    // Filter(NodeScan(n, label=1), m.name == 'Alice')
    // -> NOT converted (variable doesn't match)
    let plan = LogicalPlan::Filter {
        source: Box::new(LogicalPlan::NodeScan {
            variable: "n".into(),
            label_id: Some(1),
            limit: None,
        }),
        predicate: Expression::BinaryOp(
            BinaryOp::Eq,
            Box::new(Expression::Property(
                Box::new(Expression::Variable("m".into())),
                "name".into(),
            )),
            Box::new(Expression::Literal(Literal::String("Alice".into()))),
        ),
    };

    let optimized = optimize(plan);
    assert!(matches!(optimized, LogicalPlan::Filter { .. }));
}

#[test]
fn test_index_scan_non_literal_value() {
    // Filter(NodeScan(n, label=1), n.name == m.name)
    // -> NOT converted (RHS is not a literal)
    let plan = LogicalPlan::Filter {
        source: Box::new(LogicalPlan::NodeScan {
            variable: "n".into(),
            label_id: Some(1),
            limit: None,
        }),
        predicate: Expression::BinaryOp(
            BinaryOp::Eq,
            Box::new(Expression::Property(
                Box::new(Expression::Variable("n".into())),
                "name".into(),
            )),
            Box::new(Expression::Property(
                Box::new(Expression::Variable("m".into())),
                "name".into(),
            )),
        ),
    };

    let optimized = optimize(plan);
    assert!(matches!(optimized, LogicalPlan::Filter { .. }));
}

#[test]
fn test_index_scan_and_predicate_extracts_one() {
    // Filter(NodeScan(n, label=1), n.name == 'Alice' AND n.age > 25)
    // -> Filter(IndexScan(n, name='Alice'), n.age > 25)
    let plan = LogicalPlan::Filter {
        source: Box::new(LogicalPlan::NodeScan {
            variable: "n".into(),
            label_id: Some(1),
            limit: None,
        }),
        predicate: Expression::BinaryOp(
            BinaryOp::And,
            Box::new(Expression::BinaryOp(
                BinaryOp::Eq,
                Box::new(Expression::Property(
                    Box::new(Expression::Variable("n".into())),
                    "name".into(),
                )),
                Box::new(Expression::Literal(Literal::String("Alice".into()))),
            )),
            Box::new(Expression::BinaryOp(
                BinaryOp::Gt,
                Box::new(Expression::Property(
                    Box::new(Expression::Variable("n".into())),
                    "age".into(),
                )),
                Box::new(Expression::Literal(Literal::Integer(25))),
            )),
        ),
    };

    let optimized = optimize(plan);
    match optimized {
        LogicalPlan::Filter {
            source, predicate, ..
        } => {
            assert!(matches!(*source, LogicalPlan::IndexScan { .. }));
            // Remaining predicate should be n.age > 25
            assert!(matches!(predicate, Expression::BinaryOp(BinaryOp::Gt, ..)));
        }
        _ => panic!("expected Filter(IndexScan, ...)"),
    }
}

#[test]
fn test_index_scan_and_reversed_extracts_right() {
    // Filter(NodeScan(n, label=1), n.age > 25 AND n.name == 'Bob')
    // -> Filter(IndexScan(n, name='Bob'), n.age > 25)
    let plan = LogicalPlan::Filter {
        source: Box::new(LogicalPlan::NodeScan {
            variable: "n".into(),
            label_id: Some(1),
            limit: None,
        }),
        predicate: Expression::BinaryOp(
            BinaryOp::And,
            Box::new(Expression::BinaryOp(
                BinaryOp::Gt,
                Box::new(Expression::Property(
                    Box::new(Expression::Variable("n".into())),
                    "age".into(),
                )),
                Box::new(Expression::Literal(Literal::Integer(25))),
            )),
            Box::new(Expression::BinaryOp(
                BinaryOp::Eq,
                Box::new(Expression::Property(
                    Box::new(Expression::Variable("n".into())),
                    "name".into(),
                )),
                Box::new(Expression::Literal(Literal::String("Bob".into()))),
            )),
        ),
    };

    let optimized = optimize(plan);
    match optimized {
        LogicalPlan::Filter { source, .. } => {
            assert!(matches!(*source, LogicalPlan::IndexScan { .. }));
        }
        _ => panic!("expected Filter(IndexScan, ...)"),
    }
}

#[test]
fn test_index_scan_source_not_nodescan() {
    // Filter(Expand(...), n.name == 'Alice')
    // -> NOT converted (source is not NodeScan)
    let plan = LogicalPlan::Filter {
        source: Box::new(LogicalPlan::Expand {
            source: Box::new(LogicalPlan::NodeScan {
                variable: "m".into(),
                label_id: Some(1),
            limit: None,
            }),
            src_var: "m".into(),
            rel_var: None,
            target_var: "n".into(),
            rel_type_id: None,
            direction: RelDirection::Outgoing,
            temporal_filter: None,
        }),
        predicate: Expression::BinaryOp(
            BinaryOp::Eq,
            Box::new(Expression::Property(
                Box::new(Expression::Variable("n".into())),
                "name".into(),
            )),
            Box::new(Expression::Literal(Literal::String("Alice".into()))),
        ),
    };

    let optimized = optimize(plan);
    assert!(matches!(optimized, LogicalPlan::Filter { .. }));
}

// ========================================================================
// ========================================================================
// TASK-114: LIMIT pushdown tests
// ========================================================================

#[test]
fn test_limit_pushdown_into_nodescan() {
    // Limit(NodeScan(n, label=1), 5) -> NodeScan(n, label=1, limit=5)
    let plan = LogicalPlan::Limit {
        source: Box::new(LogicalPlan::NodeScan {
            variable: "n".into(),
            label_id: Some(1),
            limit: None,
        }),
        count: Expression::Literal(Literal::Integer(5)),
    };
    let optimized = optimize(plan);
    assert_eq!(
        optimized,
        LogicalPlan::NodeScan {
            variable: "n".into(),
            label_id: Some(1),
            limit: Some(5),
        }
    );
}

#[test]
fn test_limit_pushdown_no_label() {
    // Limit(NodeScan(n, None), 3) -> NodeScan(n, None, limit=3)
    let plan = LogicalPlan::Limit {
        source: Box::new(LogicalPlan::NodeScan {
            variable: "n".into(),
            label_id: None,
            limit: None,
        }),
        count: Expression::Literal(Literal::Integer(3)),
    };
    let optimized = optimize(plan);
    assert_eq!(
        optimized,
        LogicalPlan::NodeScan {
            variable: "n".into(),
            label_id: None,
            limit: Some(3),
        }
    );
}

#[test]
fn test_limit_not_pushed_through_sort() {
    // Limit(Sort(NodeScan, items), 5) -> Limit(Sort(NodeScan, items), 5)
    let plan = LogicalPlan::Limit {
        source: Box::new(LogicalPlan::Sort {
            source: Box::new(LogicalPlan::NodeScan {
                variable: "n".into(),
                label_id: Some(1),
                limit: None,
            }),
            items: vec![OrderItem {
                expr: Expression::Variable("n".into()),
                ascending: true,
            }],
        }),
        count: Expression::Literal(Literal::Integer(5)),
    };
    let optimized = optimize(plan);
    // Should remain Limit(Sort(...))
    assert!(matches!(optimized, LogicalPlan::Limit { .. }));
}

#[test]
fn test_limit_pushdown_non_literal() {
    // Limit(NodeScan, $param) -> no pushdown
    let plan = LogicalPlan::Limit {
        source: Box::new(LogicalPlan::NodeScan {
            variable: "n".into(),
            label_id: Some(1),
            limit: None,
        }),
        count: Expression::Parameter("count".into()),
    };
    let optimized = optimize(plan);
    assert!(matches!(optimized, LogicalPlan::Limit { .. }));
}

#[test]
fn test_limit_pushdown_merges_existing() {
    // Limit(NodeScan(n, label=1, limit=10), 5) -> NodeScan(n, limit=5)
    let plan = LogicalPlan::Limit {
        source: Box::new(LogicalPlan::NodeScan {
            variable: "n".into(),
            label_id: Some(1),
            limit: Some(10),
        }),
        count: Expression::Literal(Literal::Integer(5)),
    };
    let optimized = optimize(plan);
    assert_eq!(
        optimized,
        LogicalPlan::NodeScan {
            variable: "n".into(),
            label_id: Some(1),
            limit: Some(5),
        }
    );
}

#[test]
fn test_limit_pushdown_keeps_smaller_existing() {
    // Limit(NodeScan(n, label=1, limit=3), 10) -> NodeScan(n, limit=3)
    let plan = LogicalPlan::Limit {
        source: Box::new(LogicalPlan::NodeScan {
            variable: "n".into(),
            label_id: Some(1),
            limit: Some(3),
        }),
        count: Expression::Literal(Literal::Integer(10)),
    };
    let optimized = optimize(plan);
    assert_eq!(
        optimized,
        LogicalPlan::NodeScan {
            variable: "n".into(),
            label_id: Some(1),
            limit: Some(3),
        }
    );
}

#[test]
fn test_limit_pushdown_nested_in_project() {
    // Project(Limit(NodeScan, 2), [n]) -> after optimization, limit pushes into NodeScan
    let plan = LogicalPlan::Project {
        source: Box::new(LogicalPlan::Limit {
            source: Box::new(LogicalPlan::NodeScan {
                variable: "n".into(),
                label_id: Some(1),
                limit: None,
            }),
            count: Expression::Literal(Literal::Integer(2)),
        }),
        items: vec![ReturnItem {
            expr: Expression::Variable("n".into()),
            alias: None,
        }],
        distinct: false,
    };
    let optimized = optimize(plan);
    match optimized {
        LogicalPlan::Project { source, .. } => {
            assert_eq!(
                *source,
                LogicalPlan::NodeScan {
                    variable: "n".into(),
                    label_id: Some(1),
                    limit: Some(2),
                }
            );
        }
        _ => panic!("expected Project"),
    }
}

#[test]
fn test_limit_pushdown_zero() {
    // Limit(NodeScan, 0) -> NodeScan(limit=0)
    let plan = LogicalPlan::Limit {
        source: Box::new(LogicalPlan::NodeScan {
            variable: "n".into(),
            label_id: Some(1),
            limit: None,
        }),
        count: Expression::Literal(Literal::Integer(0)),
    };
    let optimized = optimize(plan);
    assert_eq!(
        optimized,
        LogicalPlan::NodeScan {
            variable: "n".into(),
            label_id: Some(1),
            limit: Some(0),
        }
    );
}

// ========================================================================
// TASK-115: Constant folding tests
// ========================================================================

#[test]
fn test_fold_int_add() {
    let expr = Expression::BinaryOp(
        BinaryOp::Add,
        Box::new(Expression::Literal(Literal::Integer(1))),
        Box::new(Expression::Literal(Literal::Integer(2))),
    );
    assert_eq!(fold_expr(expr), Expression::Literal(Literal::Integer(3)));
}

#[test]
fn test_fold_int_sub() {
    let expr = Expression::BinaryOp(
        BinaryOp::Sub,
        Box::new(Expression::Literal(Literal::Integer(10))),
        Box::new(Expression::Literal(Literal::Integer(3))),
    );
    assert_eq!(fold_expr(expr), Expression::Literal(Literal::Integer(7)));
}

#[test]
fn test_fold_int_mul() {
    let expr = Expression::BinaryOp(
        BinaryOp::Mul,
        Box::new(Expression::Literal(Literal::Integer(4))),
        Box::new(Expression::Literal(Literal::Integer(5))),
    );
    assert_eq!(fold_expr(expr), Expression::Literal(Literal::Integer(20)));
}

#[test]
fn test_fold_int_div() {
    let expr = Expression::BinaryOp(
        BinaryOp::Div,
        Box::new(Expression::Literal(Literal::Integer(10))),
        Box::new(Expression::Literal(Literal::Integer(3))),
    );
    assert_eq!(fold_expr(expr), Expression::Literal(Literal::Integer(3)));
}

#[test]
fn test_fold_int_div_by_zero_no_fold() {
    let expr = Expression::BinaryOp(
        BinaryOp::Div,
        Box::new(Expression::Literal(Literal::Integer(10))),
        Box::new(Expression::Literal(Literal::Integer(0))),
    );
    // Should not fold (would cause runtime error)
    assert!(matches!(expr, Expression::BinaryOp(BinaryOp::Div, ..)));
}

#[test]
fn test_fold_and_true_x() {
    let expr = Expression::BinaryOp(
        BinaryOp::And,
        Box::new(Expression::Literal(Literal::Bool(true))),
        Box::new(Expression::Variable("x".into())),
    );
    assert_eq!(fold_expr(expr), Expression::Variable("x".into()));
}

#[test]
fn test_fold_and_false_x() {
    let expr = Expression::BinaryOp(
        BinaryOp::And,
        Box::new(Expression::Literal(Literal::Bool(false))),
        Box::new(Expression::Variable("x".into())),
    );
    assert_eq!(
        fold_expr(expr),
        Expression::Literal(Literal::Bool(false))
    );
}

#[test]
fn test_fold_or_true_x() {
    let expr = Expression::BinaryOp(
        BinaryOp::Or,
        Box::new(Expression::Literal(Literal::Bool(true))),
        Box::new(Expression::Variable("x".into())),
    );
    assert_eq!(fold_expr(expr), Expression::Literal(Literal::Bool(true)));
}

#[test]
fn test_fold_or_false_x() {
    let expr = Expression::BinaryOp(
        BinaryOp::Or,
        Box::new(Expression::Literal(Literal::Bool(false))),
        Box::new(Expression::Variable("x".into())),
    );
    assert_eq!(fold_expr(expr), Expression::Variable("x".into()));
}

#[test]
fn test_fold_not_true() {
    let expr = Expression::UnaryOp(
        UnaryOp::Not,
        Box::new(Expression::Literal(Literal::Bool(true))),
    );
    assert_eq!(
        fold_expr(expr),
        Expression::Literal(Literal::Bool(false))
    );
}

#[test]
fn test_fold_not_false() {
    let expr = Expression::UnaryOp(
        UnaryOp::Not,
        Box::new(Expression::Literal(Literal::Bool(false))),
    );
    assert_eq!(fold_expr(expr), Expression::Literal(Literal::Bool(true)));
}

#[test]
fn test_fold_nested() {
    // (1 + 2) * 3 -> 9
    let expr = Expression::BinaryOp(
        BinaryOp::Mul,
        Box::new(Expression::BinaryOp(
            BinaryOp::Add,
            Box::new(Expression::Literal(Literal::Integer(1))),
            Box::new(Expression::Literal(Literal::Integer(2))),
        )),
        Box::new(Expression::Literal(Literal::Integer(3))),
    );
    assert_eq!(fold_expr(expr), Expression::Literal(Literal::Integer(9)));
}

#[test]
fn test_fold_filter_true_eliminates() {
    // Filter(source, true) -> source
    let source = LogicalPlan::NodeScan {
        variable: "n".into(),
        label_id: Some(1),
            limit: None,
    };
    let plan = LogicalPlan::Filter {
        source: Box::new(source.clone()),
        predicate: Expression::Literal(Literal::Bool(true)),
    };
    let optimized = optimize(plan);
    assert_eq!(optimized, source);
}

#[test]
fn test_fold_in_filter_predicate() {
    // Filter(source, 1 + 2 == 3) -> after folding predicate becomes 3 == 3
    // The fold doesn't evaluate comparison, but folds the arithmetic
    let plan = LogicalPlan::Filter {
        source: Box::new(LogicalPlan::NodeScan {
            variable: "n".into(),
            label_id: Some(1),
            limit: None,
        }),
        predicate: Expression::BinaryOp(
            BinaryOp::Add,
            Box::new(Expression::Literal(Literal::Integer(1))),
            Box::new(Expression::Literal(Literal::Integer(2))),
        ),
    };
    let optimized = optimize(plan);
    // The predicate should be folded to 3
    match optimized {
        LogicalPlan::Filter { predicate, .. } => {
            assert_eq!(predicate, Expression::Literal(Literal::Integer(3)));
        }
        _ => panic!("expected Filter"),
    }
}

// ========================================================================
// TASK-116: Projection pruning tests
// ========================================================================

#[test]
fn test_prune_consecutive_projects() {
    // Project(Project(source, inner), outer) -> Project(source, outer)
    let source = LogicalPlan::NodeScan {
        variable: "n".into(),
        label_id: Some(1),
            limit: None,
    };
    let inner_items = vec![
        ReturnItem {
            expr: Expression::Variable("n".into()),
            alias: None,
        },
        ReturnItem {
            expr: Expression::Property(
                Box::new(Expression::Variable("n".into())),
                "name".into(),
            ),
            alias: Some("name".into()),
        },
    ];
    let outer_items = vec![ReturnItem {
        expr: Expression::Variable("name".into()),
        alias: None,
    }];

    let plan = LogicalPlan::Project {
        source: Box::new(LogicalPlan::Project {
            source: Box::new(source.clone()),
            items: inner_items,
            distinct: false,
        }),
        items: outer_items.clone(),
        distinct: false,
    };

    let optimized = optimize(plan);
    match optimized {
        LogicalPlan::Project {
            source: inner_source,
            items,
            ..
        } => {
            // Should be Project(source, outer_items) - inner project eliminated
            assert_eq!(*inner_source, source);
            assert_eq!(items, outer_items);
        }
        _ => panic!("expected Project"),
    }
}

#[test]
fn test_no_prune_single_project() {
    let source = LogicalPlan::NodeScan {
        variable: "n".into(),
        label_id: Some(1),
            limit: None,
    };
    let items = vec![ReturnItem {
        expr: Expression::Variable("n".into()),
        alias: None,
    }];
    let plan = LogicalPlan::Project {
        source: Box::new(source.clone()),
        items: items.clone(),
        distinct: false,
    };

    let optimized = optimize(plan);
    match optimized {
        LogicalPlan::Project {
            source: s, items: i, ..
        } => {
            assert_eq!(*s, source);
            assert_eq!(i, items);
        }
        _ => panic!("expected Project"),
    }
}

#[test]
fn test_prune_three_consecutive_projects() {
    // Project(Project(Project(source, a), b), c) -> Project(source, c)
    let source = LogicalPlan::NodeScan {
        variable: "n".into(),
        label_id: Some(1),
            limit: None,
    };
    let items_a = vec![ReturnItem {
        expr: Expression::Variable("a".into()),
        alias: None,
    }];
    let items_b = vec![ReturnItem {
        expr: Expression::Variable("b".into()),
        alias: None,
    }];
    let items_c = vec![ReturnItem {
        expr: Expression::Variable("c".into()),
        alias: None,
    }];

    let plan = LogicalPlan::Project {
        source: Box::new(LogicalPlan::Project {
            source: Box::new(LogicalPlan::Project {
                source: Box::new(source.clone()),
                items: items_a,
                distinct: false,
            }),
            items: items_b,
            distinct: false,
        }),
        items: items_c.clone(),
        distinct: false,
    };

    let optimized = optimize(plan);
    match optimized {
        LogicalPlan::Project {
            source: s, items, ..
        } => {
            // After bottom-up optimization, all three should collapse
            assert_eq!(*s, source);
            assert_eq!(items, items_c);
        }
        _ => panic!("expected Project"),
    }
}

#[test]
fn test_prune_project_with_distinct_preserved() {
    let source = LogicalPlan::NodeScan {
        variable: "n".into(),
        label_id: Some(1),
            limit: None,
    };
    let items = vec![ReturnItem {
        expr: Expression::Variable("n".into()),
        alias: None,
    }];

    let plan = LogicalPlan::Project {
        source: Box::new(LogicalPlan::Project {
            source: Box::new(source.clone()),
            items: items.clone(),
            distinct: false,
        }),
        items: items.clone(),
        distinct: true, // outer has distinct
    };

    let optimized = optimize(plan);
    match optimized {
        LogicalPlan::Project { distinct, .. } => {
            assert!(distinct); // outer's distinct is preserved
        }
        _ => panic!("expected Project"),
    }
}

// ========================================================================
// Passthrough tests
// ========================================================================

#[test]
fn test_optimize_passthrough_nodescan() {
    let plan = LogicalPlan::NodeScan {
        variable: "n".into(),
        label_id: Some(1),
            limit: None,
    };
    assert_eq!(optimize(plan.clone()), plan);
}

#[test]
fn test_optimize_passthrough_empty_source() {
    let plan = LogicalPlan::EmptySource;
    assert_eq!(optimize(plan.clone()), plan);
}

#[test]
fn test_optimize_nested_filter_in_project() {
    // Project(Filter(NodeScan(n, label=1), n.name == 'Alice'), [n])
    // -> Project(IndexScan(n, name='Alice'), [n])
    let plan = LogicalPlan::Project {
        source: Box::new(LogicalPlan::Filter {
            source: Box::new(LogicalPlan::NodeScan {
                variable: "n".into(),
                label_id: Some(1),
            limit: None,
            }),
            predicate: Expression::BinaryOp(
                BinaryOp::Eq,
                Box::new(Expression::Property(
                    Box::new(Expression::Variable("n".into())),
                    "name".into(),
                )),
                Box::new(Expression::Literal(Literal::String("Alice".into()))),
            ),
        }),
        items: vec![ReturnItem {
            expr: Expression::Variable("n".into()),
            alias: None,
        }],
        distinct: false,
    };

    let optimized = optimize(plan);
    match optimized {
        LogicalPlan::Project { source, .. } => {
            assert!(matches!(*source, LogicalPlan::IndexScan { .. }));
        }
        _ => panic!("expected Project(IndexScan)"),
    }
}
