//! Rule-based optimization: index scan selection, LIMIT pushdown, constant
//! folding and projection pruning, applied bottom-up.

use vstd::prelude::*;
use crate::parser::ast::{
    clone_expr, clone_opt_string, expr_view, BinaryOp, Expression, Literal, OrderItem, ReturnItem,
    SpecExpr, SpecLiteral, SpecOrderItem, SpecReturnItem, UnaryOp,
};
use crate::text::{char_to_string, str_equals};
use super::{order_items_view, ret_items_view, LogicalPlan, SpecPlan};

verus! {

// ---------------------------------------------------------------------------
// The model of each rule
// ---------------------------------------------------------------------------

/// `var.prop` against a literal: the property name and the literal.
pub open spec fn prop_eq_lit(prop_side: SpecExpr, val_side: SpecExpr, var: Seq<char>) -> Option<
    (Seq<char>, SpecExpr),
> {
    match prop_side {
        SpecExpr::Property(target, name) => match *target {
            SpecExpr::Variable(v) => if v == var && val_side is Literal {
                Some((name, val_side))
            } else {
                None
            },
            _ => None,
        },
        _ => None,
    }
}

/// An equality `var.prop = literal` or `literal = var.prop`.
pub open spec fn eq_pred(e: SpecExpr, var: Seq<char>) -> Option<(Seq<char>, SpecExpr)> {
    match e {
        SpecExpr::BinaryOp(BinaryOp::Eq, l, r) => match prop_eq_lit(*l, *r, var) {
            Some(x) => Some(x),
            None => prop_eq_lit(*r, *l, var),
        },
        _ => None,
    }
}

/// The index lookup a predicate offers for `var`: the property, the value,
/// and what remains of the predicate (the other side of a conjunction).
pub open spec fn index_pred(e: SpecExpr, var: Seq<char>) -> Option<(Seq<char>, SpecExpr, Option<SpecExpr>)> {
    match eq_pred(e, var) {
        Some((k, v)) => Some((k, v, None)),
        None => match e {
            SpecExpr::BinaryOp(BinaryOp::And, l, r) => match eq_pred(*l, var) {
                Some((k, v)) => Some((k, v, Some(*r))),
                None => match eq_pred(*r, var) {
                    Some((k, v)) => Some((k, v, Some(*l))),
                    None => None,
                },
            },
            _ => None,
        },
    }
}

/// The equality `var.prop = value`, written either way round.
pub open spec fn is_lookup(q: SpecExpr, var: Seq<char>, prop: Seq<char>, value: SpecExpr) -> bool {
    let access = SpecExpr::Property(Box::new(SpecExpr::Variable(var)), prop);
    ||| q == SpecExpr::BinaryOp(BinaryOp::Eq, Box::new(access), Box::new(value))
    ||| q == SpecExpr::BinaryOp(BinaryOp::Eq, Box::new(value), Box::new(access))
}

/// Index scan selection keeps the whole predicate: the lookup it offers,
/// `var.prop = value` with a literal value, is the predicate itself when
/// nothing remains, and otherwise one side of the predicate's AND, whose
/// other side is exactly what remains to filter: the lookup conjoined with
/// the remaining filter is the predicate.
pub proof fn lemma_index_pred_keeps_predicate(e: SpecExpr, var: Seq<char>)
    ensures
        match index_pred(e, var) {
            Some((k, v, None)) => v is Literal && is_lookup(e, var, k, v),
            Some((k, v, Some(rest))) => v is Literal && (e matches SpecExpr::BinaryOp(
                BinaryOp::And,
                l,
                r,
            ) && ((is_lookup(*l, var, k, v) && rest == *r) || (is_lookup(*r, var, k, v) && rest
                == *l))),
            None => true,
        },
{
    lemma_eq_pred_is_lookup(e, var);
    if eq_pred(e, var) is None {
        if let SpecExpr::BinaryOp(BinaryOp::And, l, r) = e {
            lemma_eq_pred_is_lookup(*l, var);
            lemma_eq_pred_is_lookup(*r, var);
            if let Some((k, v)) = eq_pred(*l, var) {
                assert(is_lookup(*l, var, k, v));
                assert(e == SpecExpr::BinaryOp(BinaryOp::And, Box::new(*l), Box::new(*r)));
            } else if let Some((k, v)) = eq_pred(*r, var) {
                assert(is_lookup(*r, var, k, v));
                assert(e == SpecExpr::BinaryOp(BinaryOp::And, Box::new(*l), Box::new(*r)));
            }
        }
    }
}

/// The equality a predicate offers for a lookup is the predicate itself.
proof fn lemma_eq_pred_is_lookup(e: SpecExpr, var: Seq<char>)
    ensures
        eq_pred(e, var) matches Some((k, v)) ==> v is Literal && is_lookup(e, var, k, v),
{
    if let SpecExpr::BinaryOp(BinaryOp::Eq, l, r) = e {
        if let SpecExpr::Property(t, _) = *l {
            if let SpecExpr::Variable(_) = *t {
            }
        }
        if let SpecExpr::Property(t, _) = *r {
            if let SpecExpr::Variable(_) = *t {
            }
        }
    }
}

/// Index scan selection: a filter over a labelled node scan whose predicate
/// offers a property lookup becomes an index scan (under the rest of the
/// predicate, if any).
pub open spec fn index_rule(p: SpecPlan) -> SpecPlan {
    match p {
        SpecPlan::Filter { source, predicate } => match *source {
            SpecPlan::NodeScan { variable, label_id: Some(lid), .. } => match index_pred(
                predicate,
                variable,
            ) {
                Some((k, v, rest)) => {
                    let scan = SpecPlan::IndexScan {
                        variable,
                        label_id: lid,
                        prop_key: k,
                        lookup_value: v,
                    };
                    match rest {
                        Some(r) => SpecPlan::Filter { source: Box::new(scan), predicate: r },
                        None => scan,
                    }
                },
                None => p,
            },
            _ => p,
        },
        _ => p,
    }
}

/// The row count a LIMIT expression gives at planning time: a non-negative
/// integer literal.
pub open spec fn limit_count(e: SpecExpr) -> Option<usize> {
    match e {
        SpecExpr::Literal(SpecLiteral::Integer(n)) => if n >= 0 {
            Some(n as usize)
        } else {
            None
        },
        _ => None,
    }
}

/// LIMIT pushdown: a LIMIT with a known count directly over a node scan
/// becomes a cap on the scan (the smaller of two caps).
pub open spec fn limit_rule(p: SpecPlan) -> SpecPlan {
    match p {
        SpecPlan::Limit { source, count } => match limit_count(count) {
            Some(n) => match *source {
                SpecPlan::NodeScan { variable, label_id, limit } => SpecPlan::NodeScan {
                    variable,
                    label_id,
                    limit: Some(
                        match limit {
                            Some(m) => if m <= n {
                                m
                            } else {
                                n
                            },
                            None => n,
                        },
                    ),
                },
                _ => p,
            },
            None => p,
        },
        _ => p,
    }
}

/// LIMIT pushdown over a node scan caps the scan at the LIMIT's count
/// (a non-negative integer literal) and at its earlier cap, whichever is
/// smaller: the new cap is at most each of them and is one of them; the
/// scanned variable and label stay as they were (for a count that fits the
/// platform's sizes). A negative count is not pushed down.
pub proof fn lemma_limit_pushdown(
    variable: Seq<char>,
    label_id: Option<u32>,
    cap: Option<usize>,
    n: i64,
)
    ensures
        ({
            let scan = SpecPlan::NodeScan { variable, label_id, limit: cap };
            let lim = SpecPlan::Limit {
                source: Box::new(scan),
                count: SpecExpr::Literal(SpecLiteral::Integer(n)),
            };
            &&& n < 0 ==> limit_rule(lim) == lim
            &&& 0 <= n <= usize::MAX ==> (limit_rule(lim) matches SpecPlan::NodeScan {
                variable: v2,
                label_id: l2,
                limit: Some(c),
            } && v2 == variable && l2 == label_id && c <= n && (cap matches Some(m) ==> c <= m) && (
            c == n || cap == Some(c)))
        }),
{
}

/// An integer operation folded at planning time; `None` when the operator is
/// not arithmetic or the result does not fit (division by zero, overflow).
pub open spec fn int_fold(op: BinaryOp, a: i64, b: i64) -> Option<i64> {
    match op {
        BinaryOp::Add => a.checked_add(b),
        BinaryOp::Sub => a.checked_sub(b),
        BinaryOp::Mul => a.checked_mul(b),
        BinaryOp::Div => a.checked_div(b),
        BinaryOp::Mod => a.checked_rem(b),
        _ => None,
    }
}

/// The boolean literal `b`.
pub open spec fn bool_lit(b: bool) -> SpecExpr {
    SpecExpr::Literal(SpecLiteral::Bool(b))
}

/// A binary operation on already folded operands: integer arithmetic on two
/// literals is computed; AND/OR with a known boolean side short-circuit.
pub open spec fn fold_binary(op: BinaryOp, l: SpecExpr, r: SpecExpr) -> SpecExpr {
    let arith = match (l, r) {
        (SpecExpr::Literal(SpecLiteral::Integer(a)), SpecExpr::Literal(SpecLiteral::Integer(b))) =>
            int_fold(op, a, b),
        _ => None,
    };
    match arith {
        Some(v) => SpecExpr::Literal(SpecLiteral::Integer(v)),
        None => match op {
            BinaryOp::And => if l == bool_lit(false) || r == bool_lit(false) {
                bool_lit(false)
            } else if l == bool_lit(true) {
                r
            } else if r == bool_lit(true) {
                l
            } else {
                SpecExpr::BinaryOp(op, Box::new(l), Box::new(r))
            },
            BinaryOp::Or => if l == bool_lit(true) || r == bool_lit(true) {
                bool_lit(true)
            } else if l == bool_lit(false) {
                r
            } else if r == bool_lit(false) {
                l
            } else {
                SpecExpr::BinaryOp(op, Box::new(l), Box::new(r))
            },
            _ => SpecExpr::BinaryOp(op, Box::new(l), Box::new(r)),
        },
    }
}

/// Constant folding computes what an operation means: the sum, difference
/// and product of two integer literals (when it fits), `NOT` of a boolean
/// literal its negation, `-` of an integer its opposite (when it fits);
/// `false AND e` is false and `true OR e` true for any `e`, while
/// `true AND e` and `false OR e` are `e`.
pub proof fn lemma_fold_meaning(a: i64, b: i64, c: bool, e: SpecExpr)
    ensures
        ({
            let la = SpecExpr::Literal(SpecLiteral::Integer(a));
            let lb = SpecExpr::Literal(SpecLiteral::Integer(b));
            let int_lit = |v: int| SpecExpr::Literal(SpecLiteral::Integer(v as i64));
            &&& i64::MIN <= a + b <= i64::MAX ==> fold_binary(BinaryOp::Add, la, lb) == int_lit(a + b)
            &&& i64::MIN <= a - b <= i64::MAX ==> fold_binary(BinaryOp::Sub, la, lb) == int_lit(a - b)
            &&& i64::MIN <= a * b <= i64::MAX ==> fold_binary(BinaryOp::Mul, la, lb) == int_lit(a * b)
            &&& fold_unary(UnaryOp::Not, bool_lit(c)) == bool_lit(!c)
            &&& a > i64::MIN ==> fold_unary(UnaryOp::Neg, la) == int_lit(-a)
            &&& fold_binary(BinaryOp::And, bool_lit(false), e) == bool_lit(false)
            &&& fold_binary(BinaryOp::Or, bool_lit(true), e) == bool_lit(true)
            &&& fold_binary(BinaryOp::And, bool_lit(true), e) == e
            &&& fold_binary(BinaryOp::Or, bool_lit(false), e) == e
        }),
{
}

/// The decimal text of a number with its sign flipped.
pub open spec fn negated_text(t: Seq<char>) -> Seq<char> {
    if t.len() > 0 && t[0] == '-' {
        t.skip(1)
    } else {
        seq!['-'] + t
    }
}

/// A unary operation on an already folded operand.
pub open spec fn fold_unary(op: UnaryOp, i: SpecExpr) -> SpecExpr {
    match (op, i) {
        (UnaryOp::Not, SpecExpr::Literal(SpecLiteral::Bool(b))) => bool_lit(!b),
        (UnaryOp::Neg, SpecExpr::Literal(SpecLiteral::Integer(n))) => if n > i64::MIN {
            SpecExpr::Literal(SpecLiteral::Integer((-n) as i64))
        } else {
            SpecExpr::UnaryOp(op, Box::new(i))
        },
        (UnaryOp::Neg, SpecExpr::Literal(SpecLiteral::Float(t))) => SpecExpr::Literal(
            SpecLiteral::Float(negated_text(t)),
        ),
        _ => SpecExpr::UnaryOp(op, Box::new(i)),
    }
}

/// Constant folding of an expression, operands first.
pub open spec fn folded(e: SpecExpr) -> SpecExpr
    decreases e,
{
    match e {
        SpecExpr::BinaryOp(op, l, r) => fold_binary(op, folded(*l), folded(*r)),
        SpecExpr::UnaryOp(op, i) => fold_unary(op, folded(*i)),
        other => other,
    }
}

/// Folding a folded expression changes nothing.
pub proof fn lemma_folded_idempotent(e: SpecExpr)
    ensures
        folded(folded(e)) == folded(e),
    decreases e,
{
    match e {
        SpecExpr::BinaryOp(op, l, r) => {
            lemma_folded_idempotent(*l);
            lemma_folded_idempotent(*r);
            let fl = folded(*l);
            let fr = folded(*r);
            lemma_fold_binary_stable(op, fl, fr);
        },
        SpecExpr::UnaryOp(op, i) => {
            lemma_folded_idempotent(*i);
            lemma_fold_unary_stable(op, folded(*i));
        },
        _ => {},
    }
}

/// Folding the result of a binary fold on folded operands changes nothing.
proof fn lemma_fold_binary_stable(op: BinaryOp, l: SpecExpr, r: SpecExpr)
    requires
        folded(l) == l,
        folded(r) == r,
    ensures
        folded(fold_binary(op, l, r)) == fold_binary(op, l, r),
{
}

/// Folding the result of a unary fold on a folded operand changes nothing.
proof fn lemma_fold_unary_stable(op: UnaryOp, i: SpecExpr)
    requires
        folded(i) == i,
    ensures
        folded(fold_unary(op, i)) == fold_unary(op, i),
{
}

/// Return items with their expressions folded.
pub open spec fn folded_ret_items(s: Seq<SpecReturnItem>) -> Seq<SpecReturnItem> {
    s.map_values(|it: SpecReturnItem| SpecReturnItem { expr: folded(it.expr), alias: it.alias })
}

/// Order items with their expressions folded.
pub open spec fn folded_order_items(s: Seq<SpecOrderItem>) -> Seq<SpecOrderItem> {
    s.map_values(|it: SpecOrderItem| SpecOrderItem { expr: folded(it.expr), ascending: it.ascending })
}

/// Constant folding in a plan node: a filter whose predicate folds to
/// `true` disappears; projections and sort keys are folded.
pub open spec fn fold_rule(p: SpecPlan) -> SpecPlan {
    match p {
        SpecPlan::Filter { source, predicate } => if folded(predicate) == bool_lit(true) {
            *source
        } else {
            SpecPlan::Filter { source, predicate: folded(predicate) }
        },
        SpecPlan::Project { source, items, distinct } => SpecPlan::Project {
            source,
            items: folded_ret_items(items),
            distinct,
        },
        SpecPlan::Sort { source, items } => SpecPlan::Sort { source, items: folded_order_items(items) },
        _ => p,
    }
}

/// Projection pruning: of two projections in a row the outer one decides
/// the columns, so the inner one is dropped.
pub open spec fn prune_rule(p: SpecPlan) -> SpecPlan {
    match p {
        SpecPlan::Project { source, items, distinct } => match *source {
            SpecPlan::Project { source: inner, .. } => SpecPlan::Project { source: inner, items, distinct },
            _ => p,
        },
        _ => p,
    }
}

/// The rules applied at one node, in order.
pub open spec fn rules(p: SpecPlan) -> SpecPlan {
    prune_rule(fold_rule(limit_rule(index_rule(p))))
}

/// The optimized plan: children first, then the rules at the node.
pub open spec fn optimized(p: SpecPlan) -> SpecPlan
    decreases p, 1nat,
{
    rules(children_optimized(p))
}

/// `p` with its source (if any) optimized.
pub open spec fn children_optimized(p: SpecPlan) -> SpecPlan
    decreases p, 0nat,
{
    match p {
        SpecPlan::Filter { source, predicate } => SpecPlan::Filter {
            source: Box::new(optimized(*source)),
            predicate,
        },
        SpecPlan::Project { source, items, distinct } => SpecPlan::Project {
            source: Box::new(optimized(*source)),
            items,
            distinct,
        },
        SpecPlan::Sort { source, items } => SpecPlan::Sort { source: Box::new(optimized(*source)), items },
        SpecPlan::Skip { source, count } => SpecPlan::Skip { source: Box::new(optimized(*source)), count },
        SpecPlan::Limit { source, count } => SpecPlan::Limit {
            source: Box::new(optimized(*source)),
            count,
        },
        SpecPlan::Aggregate { source, group_keys, aggregates } => SpecPlan::Aggregate {
            source: Box::new(optimized(*source)),
            group_keys,
            aggregates,
        },
        SpecPlan::Expand {
            source,
            src_var,
            rel_var,
            target_var,
            rel_type_id,
            direction,
            temporal_filter,
        } => SpecPlan::Expand {
            source: Box::new(optimized(*source)),
            src_var,
            rel_var,
            target_var,
            rel_type_id,
            direction,
            temporal_filter,
        },
        SpecPlan::CreateOp { source, pattern } => SpecPlan::CreateOp {
            source: match source {
                Some(s) => Some(Box::new(optimized(*s))),
                None => None,
            },
            pattern,
        },
        SpecPlan::DeleteOp { source, exprs, detach } => SpecPlan::DeleteOp {
            source: Box::new(optimized(*source)),
            exprs,
            detach,
        },
        SpecPlan::SetOp { source, items } => SpecPlan::SetOp { source: Box::new(optimized(*source)), items },
        SpecPlan::RemoveOp { source, items } => SpecPlan::RemoveOp {
            source: Box::new(optimized(*source)),
            items,
        },
        SpecPlan::With { source, items, where_clause, distinct } => SpecPlan::With {
            source: Box::new(optimized(*source)),
            items,
            where_clause,
            distinct,
        },
        SpecPlan::Unwind { source, expr, variable } => SpecPlan::Unwind {
            source: Box::new(optimized(*source)),
            expr,
            variable,
        },
        SpecPlan::MergeOp { source, pattern, on_match, on_create } => SpecPlan::MergeOp {
            source: match source {
                Some(s) => Some(Box::new(optimized(*s))),
                None => None,
            },
            pattern,
            on_match,
            on_create,
        },
        SpecPlan::VarLengthExpand {
            source,
            src_var,
            rel_var,
            target_var,
            rel_type_id,
            direction,
            min_hops,
            max_hops,
            temporal_filter,
        } => SpecPlan::VarLengthExpand {
            source: Box::new(optimized(*source)),
            src_var,
            rel_var,
            target_var,
            rel_type_id,
            direction,
            min_hops,
            max_hops,
            temporal_filter,
        },
        SpecPlan::OptionalExpand { source, src_var, rel_var, target_var, rel_type_id, direction } =>
            SpecPlan::OptionalExpand {
            source: Box::new(optimized(*source)),
            src_var,
            rel_var,
            target_var,
            rel_type_id,
            direction,
        },
        SpecPlan::AsOfScan { source, timestamp_expr } => SpecPlan::AsOfScan {
            source: Box::new(optimized(*source)),
            timestamp_expr,
        },
        SpecPlan::TemporalRangeScan { source, start_expr, end_expr } => SpecPlan::TemporalRangeScan {
            source: Box::new(optimized(*source)),
            start_expr,
            end_expr,
        },
        other => other,
    }
}

// ---------------------------------------------------------------------------
// Shape of optimized plans
// ---------------------------------------------------------------------------

/// The source of a plan node, if it has one.
pub open spec fn child(p: SpecPlan) -> Option<SpecPlan> {
    match p {
        SpecPlan::Filter { source, .. } => Some(*source),
        SpecPlan::Project { source, .. } => Some(*source),
        SpecPlan::Sort { source, .. } => Some(*source),
        SpecPlan::Skip { source, .. } => Some(*source),
        SpecPlan::Limit { source, .. } => Some(*source),
        SpecPlan::Aggregate { source, .. } => Some(*source),
        SpecPlan::Expand { source, .. } => Some(*source),
        SpecPlan::CreateOp { source, .. } => match source {
            Some(s) => Some(*s),
            None => None,
        },
        SpecPlan::DeleteOp { source, .. } => Some(*source),
        SpecPlan::SetOp { source, .. } => Some(*source),
        SpecPlan::RemoveOp { source, .. } => Some(*source),
        SpecPlan::With { source, .. } => Some(*source),
        SpecPlan::Unwind { source, .. } => Some(*source),
        SpecPlan::MergeOp { source, .. } => match source {
            Some(s) => Some(*s),
            None => None,
        },
        SpecPlan::VarLengthExpand { source, .. } => Some(*source),
        SpecPlan::OptionalExpand { source, .. } => Some(*source),
        SpecPlan::AsOfScan { source, .. } => Some(*source),
        SpecPlan::TemporalRangeScan { source, .. } => Some(*source),
        _ => None,
    }
}

/// `f` holds of the node and of every node below it.
pub open spec fn throughout(p: SpecPlan, f: spec_fn(SpecPlan) -> bool) -> bool
    decreases p,
{
    f(p) && match p {
        SpecPlan::Filter { source, .. } => throughout(*source, f),
        SpecPlan::Project { source, .. } => throughout(*source, f),
        SpecPlan::Sort { source, .. } => throughout(*source, f),
        SpecPlan::Skip { source, .. } => throughout(*source, f),
        SpecPlan::Limit { source, .. } => throughout(*source, f),
        SpecPlan::Aggregate { source, .. } => throughout(*source, f),
        SpecPlan::Expand { source, .. } => throughout(*source, f),
        SpecPlan::CreateOp { source, .. } => match source {
            Some(s) => throughout(*s, f),
            None => true,
        },
        SpecPlan::DeleteOp { source, .. } => throughout(*source, f),
        SpecPlan::SetOp { source, .. } => throughout(*source, f),
        SpecPlan::RemoveOp { source, .. } => throughout(*source, f),
        SpecPlan::With { source, .. } => throughout(*source, f),
        SpecPlan::Unwind { source, .. } => throughout(*source, f),
        SpecPlan::MergeOp { source, .. } => match source {
            Some(s) => throughout(*s, f),
            None => true,
        },
        SpecPlan::VarLengthExpand { source, .. } => throughout(*source, f),
        SpecPlan::OptionalExpand { source, .. } => throughout(*source, f),
        SpecPlan::AsOfScan { source, .. } => throughout(*source, f),
        SpecPlan::TemporalRangeScan { source, .. } => throughout(*source, f),
        _ => true,
    }
}

/// A projection directly over another projection.
pub open spec fn stacked_projects(p: SpecPlan) -> bool {
    p matches SpecPlan::Project { source, .. } && *source is Project
}

/// A LIMIT with a count known at planning time directly over a node scan.
pub open spec fn limit_on_scan(p: SpecPlan) -> bool {
    p matches SpecPlan::Limit { source, count } && *source is NodeScan && limit_count(count) is Some
}

/// The shape every optimized plan node has: no two projections in a row and
/// no pushable LIMIT left above a node scan.
pub open spec fn pruned_shape(p: SpecPlan) -> bool {
    !stacked_projects(p) && !limit_on_scan(p)
}

/// [`throughout`] unfolded one level through [`child`].
proof fn lemma_throughout_child(p: SpecPlan, f: spec_fn(SpecPlan) -> bool)
    ensures
        throughout(p, f) == (f(p) && match child(p) {
            Some(c) => throughout(c, f),
            None => true,
        }),
{
}

/// Optimizing the children keeps the node and optimizes its source.
proof fn lemma_children_child(p: SpecPlan)
    ensures
        child(children_optimized(p)) == match child(p) {
            Some(s) => Some(optimized(s)),
            None => None,
        },
        children_optimized(p) is Project <==> p is Project,
        children_optimized(p) is Limit <==> p is Limit,
        children_optimized(p) is Filter <==> p is Filter,
{
}

/// Every node of an optimized plan has the pruned shape: no projection sits
/// directly on another, and no LIMIT with a literal non-negative count sits
/// directly on a node scan.
pub proof fn lemma_optimized_shape(p: SpecPlan)
    ensures
        throughout(optimized(p), |q: SpecPlan| pruned_shape(q)),
    decreases p,
{
    let f = |q: SpecPlan| pruned_shape(q);
    let c = children_optimized(p);
    lemma_children_child(p);
    match child(p) {
        Some(s) => {
            lemma_optimized_shape(s);
            let x = optimized(s);
            lemma_throughout_child(x, f);
        },
        None => {},
    }
    let t1 = index_rule(c);
    let t2 = limit_rule(t1);
    let t3 = fold_rule(t2);
    let t4 = prune_rule(t3);
    lemma_throughout_child(t4, f);
    lemma_throughout_child(t3, f);
    assert(throughout(t4, f));
}

// ---------------------------------------------------------------------------
// Rules on plans
// ---------------------------------------------------------------------------

/// The model of an optional (property, value) pair.
pub open spec fn kv_view(r: Option<(String, Expression)>) -> Option<(Seq<char>, SpecExpr)> {
    match r {
        Some((k, v)) => Some((k@, v@)),
        None => None,
    }
}

/// The model of an optional (property, value, rest) triple.
pub open spec fn kvr_view(r: Option<(String, Expression, Option<Expression>)>) -> Option<
    (Seq<char>, SpecExpr, Option<SpecExpr>),
> {
    match r {
        Some((k, v, rest)) => Some(
            (
                k@,
                v@,
                match rest {
                    Some(e) => Some(e@),
                    None => None,
                },
            ),
        ),
        None => None,
    }
}

/// True when the expression is a literal value (suitable for index lookup).
fn is_literal(expr: &Expression) -> (r: bool)
    ensures
        r == (expr@ is Literal),
{
    match expr {
        Expression::Literal(_) => true,
        _ => false,
    }
}

/// True when the expression is the boolean literal `b`.
fn is_bool(e: &Expression, b: bool) -> (r: bool)
    ensures
        r == (e@ == bool_lit(b)),
{
    match e {
        Expression::Literal(Literal::Bool(x)) => *x == b,
        Expression::Literal(_) => false,
        _ => false,
    }
}

/// `variable.property` on one side and a literal on the other.
fn match_property_eq_literal(prop_side: &Expression, val_side: &Expression, variable: &str) -> (r:
    Option<(String, Expression)>)
    ensures
        kv_view(r) == prop_eq_lit(prop_side@, val_side@, variable@),
{
    proof {
        reveal_with_fuel(expr_view, 2);
    }
    match prop_side {
        Expression::Property(var_expr, prop_name) => match &**var_expr {
            Expression::Variable(var_name) => {
                if str_equals(var_name.as_str(), variable) && is_literal(val_side) {
                    Some((prop_name.clone(), clone_expr(val_side)))
                } else {
                    None
                }
            },
            _ => None,
        },
        _ => None,
    }
}

/// `variable.property = literal` or `literal = variable.property`.
fn try_extract_eq_predicate(expr: &Expression, variable: &str) -> (r: Option<(String, Expression)>)
    ensures
        kv_view(r) == eq_pred(expr@, variable@),
{
    match expr {
        Expression::BinaryOp(BinaryOp::Eq, left, right) => {
            match match_property_eq_literal(left, right, variable) {
                Some(x) => Some(x),
                None => match_property_eq_literal(right, left, variable),
            }
        },
        _ => None,
    }
}

/// An index-suitable equality in the predicate, directly or as one side of
/// an AND, with the other side as what remains.
fn try_extract_index_predicate(expr: &Expression, variable: &str) -> (r: Option<
    (String, Expression, Option<Expression>),
>)
    ensures
        kvr_view(r) == index_pred(expr@, variable@),
{
    match try_extract_eq_predicate(expr, variable) {
        Some((prop, val)) => {
            return Some((prop, val, None));
        },
        None => {},
    }
    match expr {
        Expression::BinaryOp(BinaryOp::And, left, right) => {
            match try_extract_eq_predicate(left, variable) {
                Some((prop, val)) => {
                    return Some((prop, val, Some(clone_expr(right))));
                },
                None => {},
            }
            match try_extract_eq_predicate(right, variable) {
                Some((prop, val)) => Some((prop, val, Some(clone_expr(left)))),
                None => None,
            }
        },
        _ => None,
    }
}

/// Index scan selection at one node.
fn push_index_scan(plan: LogicalPlan) -> (r: LogicalPlan)
    ensures
        r@ == index_rule(plan@),
{
    proof {
        reveal_with_fuel(super::plan_view, 2);
    }
    match plan {
        LogicalPlan::Filter { source, predicate } => {
            let found = match &*source {
                LogicalPlan::NodeScan { variable, label_id: Some(lid), .. } => {
                    match try_extract_index_predicate(&predicate, variable.as_str()) {
                        Some((k, v, rest)) => Some((variable.clone(), *lid, k, v, rest)),
                        None => None,
                    }
                },
                _ => None,
            };
            match found {
                Some((variable, lid, prop_key, lookup_value, rest)) => {
                    let scan = LogicalPlan::IndexScan { variable, label_id: lid, prop_key, lookup_value };
                    match rest {
                        Some(r) => LogicalPlan::Filter { source: Box::new(scan), predicate: r },
                        None => scan,
                    }
                },
                None => LogicalPlan::Filter { source, predicate },
            }
        },
        other => other,
    }
}

/// The LIMIT count when it is a non-negative integer literal.
fn try_eval_limit_count(expr: &Expression) -> (r: Option<usize>)
    ensures
        r == limit_count(expr@),
{
    match expr {
        Expression::Literal(Literal::Integer(n)) => if *n >= 0 {
            Some(*n as usize)
        } else {
            None
        },
        _ => None,
    }
}

/// LIMIT pushdown at one node; a LIMIT is never pushed through anything
/// but directly onto a node scan (a sort, for one, needs all its rows).
fn push_limit_down(plan: LogicalPlan) -> (r: LogicalPlan)
    ensures
        r@ == limit_rule(plan@),
{
    proof {
        reveal_with_fuel(super::plan_view, 2);
    }
    match plan {
        LogicalPlan::Limit { source, count } => match try_eval_limit_count(&count) {
            Some(n) => match *source {
                LogicalPlan::NodeScan { variable, label_id, limit } => {
                    let new_limit = match limit {
                        Some(m) => if m <= n {
                            m
                        } else {
                            n
                        },
                        None => n,
                    };
                    LogicalPlan::NodeScan { variable, label_id, limit: Some(new_limit) }
                },
                other => LogicalPlan::Limit { source: Box::new(other), count },
            },
            None => LogicalPlan::Limit { source, count },
        },
        other => other,
    }
}

/// The decimal text `t` with its sign flipped.
fn negate_text(t: &String) -> (r: String)
    ensures
        r@ == negated_text(t@),
{
    let cs = crate::text::chars_of(t.as_str());
    if cs.len() > 0 && cs[0] == '-' {
        let mut s = String::new();
        let mut i: usize = 1;
        while i < cs.len()
            invariant
                cs@ == t@,
                1 <= i <= cs.len(),
                s@ == cs@.subrange(1, i as int),
            decreases cs.len() - i,
        {
            s.append(char_to_string(cs[i]).as_str());
            i = i + 1;
            assert(s@ =~= cs@.subrange(1, i as int));
        }
        assert(cs@.subrange(1, cs@.len() as int) =~= t@.skip(1));
        s
    } else {
        let mut s = char_to_string('-');
        s.append(t.as_str());
        s
    }
}

/// Folds a binary operation on folded operands.
fn fold_binary_op(op: BinaryOp, left: Expression, right: Expression) -> (r: Expression)
    ensures
        r@ == fold_binary(op, left@, right@),
{
    let arith: Option<i64> = match &left {
        Expression::Literal(Literal::Integer(a)) => match &right {
            Expression::Literal(Literal::Integer(b)) => match op {
                BinaryOp::Add => a.checked_add(*b),
                BinaryOp::Sub => a.checked_sub(*b),
                BinaryOp::Mul => a.checked_mul(*b),
                BinaryOp::Div => a.checked_div(*b),
                BinaryOp::Mod => a.checked_rem(*b),
                _ => None,
            },
            _ => None,
        },
        _ => None,
    };
    match arith {
        Some(v) => {
            return Expression::Literal(Literal::Integer(v));
        },
        None => {},
    }
    match op {
        BinaryOp::And => {
            if is_bool(&left, false) || is_bool(&right, false) {
                return Expression::Literal(Literal::Bool(false));
            }
            if is_bool(&left, true) {
                return right;
            }
            if is_bool(&right, true) {
                return left;
            }
        },
        BinaryOp::Or => {
            if is_bool(&left, true) || is_bool(&right, true) {
                return Expression::Literal(Literal::Bool(true));
            }
            if is_bool(&left, false) {
                return right;
            }
            if is_bool(&right, false) {
                return left;
            }
        },
        _ => {},
    }
    Expression::BinaryOp(op, Box::new(left), Box::new(right))
}

/// Folds a unary operation on a folded operand.
fn fold_unary_op(op: UnaryOp, inner: Expression) -> (r: Expression)
    ensures
        r@ == fold_unary(op, inner@),
{
    let folded_lit: Option<Literal> = match op {
        UnaryOp::Not => match &inner {
            Expression::Literal(Literal::Bool(b)) => Some(Literal::Bool(!*b)),
            _ => None,
        },
        UnaryOp::Neg => match &inner {
            Expression::Literal(Literal::Integer(n)) => if *n > i64::MIN {
                Some(Literal::Integer(-*n))
            } else {
                None
            },
            Expression::Literal(Literal::Float(t)) => Some(Literal::Float(negate_text(t))),
            _ => None,
        },
    };
    match folded_lit {
        Some(l) => Expression::Literal(l),
        None => Expression::UnaryOp(op, Box::new(inner)),
    }
}

/// Constant folding of an expression, operands first.
pub fn fold_expr(expr: Expression) -> (r: Expression)
    ensures
        r@ == folded(expr@),
    decreases expr,
{
    match expr {
        Expression::BinaryOp(op, left, right) => {
            let l = fold_expr(*left);
            let r = fold_expr(*right);
            fold_binary_op(op, l, r)
        },
        Expression::UnaryOp(op, inner) => {
            let i = fold_expr(*inner);
            fold_unary_op(op, i)
        },
        other => other,
    }
}

/// Return items with their expressions folded.
fn fold_return_items(items: &Vec<ReturnItem>) -> (r: Vec<ReturnItem>)
    ensures
        ret_items_view(r@) == folded_ret_items(ret_items_view(items@)),
{
    let mut out: Vec<ReturnItem> = Vec::new();
    let mut i: usize = 0;
    while i < items.len()
        invariant
            i <= items.len(),
            out@.len() == i,
            forall|k: int|
                0 <= k < i ==> (#[trigger] out@[k])@ == (SpecReturnItem {
                    expr: folded(items@[k]@.expr),
                    alias: items@[k]@.alias,
                }),
        decreases items.len() - i,
    {
        let it = ReturnItem { expr: fold_expr(clone_expr(&items[i].expr)), alias: clone_opt_string(&items[i].alias) };
        out.push(it);
        i = i + 1;
    }
    assert(ret_items_view(out@) =~= folded_ret_items(ret_items_view(items@)));
    out
}

/// Sort keys with their expressions folded.
fn fold_order_items(items: &Vec<OrderItem>) -> (r: Vec<OrderItem>)
    ensures
        order_items_view(r@) == folded_order_items(order_items_view(items@)),
{
    let mut out: Vec<OrderItem> = Vec::new();
    let mut i: usize = 0;
    while i < items.len()
        invariant
            i <= items.len(),
            out@.len() == i,
            forall|k: int|
                0 <= k < i ==> (#[trigger] out@[k])@ == (SpecOrderItem {
                    expr: folded(items@[k]@.expr),
                    ascending: items@[k]@.ascending,
                }),
        decreases items.len() - i,
    {
        let it = OrderItem { expr: fold_expr(clone_expr(&items[i].expr)), ascending: items[i].ascending };
        out.push(it);
        i = i + 1;
    }
    assert(order_items_view(out@) =~= folded_order_items(order_items_view(items@)));
    out
}

/// Constant folding at one node.
fn fold_constants_in_plan(plan: LogicalPlan) -> (r: LogicalPlan)
    ensures
        r@ == fold_rule(plan@),
{
    match plan {
        LogicalPlan::Filter { source, predicate } => {
            let f = fold_expr(predicate);
            if is_bool(&f, true) {
                return *source;
            }
            LogicalPlan::Filter { source, predicate: f }
        },
        LogicalPlan::Project { source, items, distinct } => LogicalPlan::Project {
            source,
            items: fold_return_items(&items),
            distinct,
        },
        LogicalPlan::Sort { source, items } => LogicalPlan::Sort { source, items: fold_order_items(&items) },
        other => other,
    }
}

/// Projection pruning at one node.
fn prune_projections(plan: LogicalPlan) -> (r: LogicalPlan)
    ensures
        r@ == prune_rule(plan@),
{
    proof {
        reveal_with_fuel(super::plan_view, 2);
    }
    match plan {
        LogicalPlan::Project { source, items, distinct } => match *source {
            LogicalPlan::Project { source: inner, .. } => LogicalPlan::Project { source: inner, items, distinct },
            other => LogicalPlan::Project { source: Box::new(other), items, distinct },
        },
        other => other,
    }
}

// ---------------------------------------------------------------------------
// Driver
// ---------------------------------------------------------------------------

/// Optimizes the children, then applies the rules at the node.
fn apply_rules(plan: LogicalPlan) -> (r: LogicalPlan)
    ensures
        r@ == optimized(plan@),
    decreases plan, 1nat,
{
    let p = optimize_children(plan);
    let p = push_index_scan(p);
    let p = push_limit_down(p);
    let p = fold_constants_in_plan(p);
    prune_projections(p)
}

/// Optimizes the source of a node, if it has one.
fn optimize_children(plan: LogicalPlan) -> (r: LogicalPlan)
    ensures
        r@ == children_optimized(plan@),
    decreases plan, 0nat,
{
    match plan {
        LogicalPlan::Filter { source, predicate } => LogicalPlan::Filter {
            source: Box::new(apply_rules(*source)),
            predicate,
        },
        LogicalPlan::Project { source, items, distinct } => LogicalPlan::Project {
            source: Box::new(apply_rules(*source)),
            items,
            distinct,
        },
        LogicalPlan::Sort { source, items } => LogicalPlan::Sort { source: Box::new(apply_rules(*source)), items },
        LogicalPlan::Skip { source, count } => LogicalPlan::Skip { source: Box::new(apply_rules(*source)), count },
        LogicalPlan::Limit { source, count } => LogicalPlan::Limit {
            source: Box::new(apply_rules(*source)),
            count,
        },
        LogicalPlan::Aggregate { source, group_keys, aggregates } => LogicalPlan::Aggregate {
            source: Box::new(apply_rules(*source)),
            group_keys,
            aggregates,
        },
        LogicalPlan::Expand {
            source,
            src_var,
            rel_var,
            target_var,
            rel_type_id,
            direction,
            temporal_filter,
        } => LogicalPlan::Expand {
            source: Box::new(apply_rules(*source)),
            src_var,
            rel_var,
            target_var,
            rel_type_id,
            direction,
            temporal_filter,
        },
        LogicalPlan::CreateOp { source, pattern } => LogicalPlan::CreateOp {
            source: match source {
                Some(s) => Some(Box::new(apply_rules(*s))),
                None => None,
            },
            pattern,
        },
        LogicalPlan::DeleteOp { source, exprs, detach } => LogicalPlan::DeleteOp {
            source: Box::new(apply_rules(*source)),
            exprs,
            detach,
        },
        LogicalPlan::SetOp { source, items } => LogicalPlan::SetOp { source: Box::new(apply_rules(*source)), items },
        LogicalPlan::RemoveOp { source, items } => LogicalPlan::RemoveOp {
            source: Box::new(apply_rules(*source)),
            items,
        },
        LogicalPlan::With { source, items, where_clause, distinct } => LogicalPlan::With {
            source: Box::new(apply_rules(*source)),
            items,
            where_clause,
            distinct,
        },
        LogicalPlan::Unwind { source, expr, variable } => LogicalPlan::Unwind {
            source: Box::new(apply_rules(*source)),
            expr,
            variable,
        },
        LogicalPlan::MergeOp { source, pattern, on_match, on_create } => LogicalPlan::MergeOp {
            source: match source {
                Some(s) => Some(Box::new(apply_rules(*s))),
                None => None,
            },
            pattern,
            on_match,
            on_create,
        },
        LogicalPlan::VarLengthExpand {
            source,
            src_var,
            rel_var,
            target_var,
            rel_type_id,
            direction,
            min_hops,
            max_hops,
            temporal_filter,
        } => LogicalPlan::VarLengthExpand {
            source: Box::new(apply_rules(*source)),
            src_var,
            rel_var,
            target_var,
            rel_type_id,
            direction,
            min_hops,
            max_hops,
            temporal_filter,
        },
        LogicalPlan::OptionalExpand { source, src_var, rel_var, target_var, rel_type_id, direction } =>
            LogicalPlan::OptionalExpand {
            source: Box::new(apply_rules(*source)),
            src_var,
            rel_var,
            target_var,
            rel_type_id,
            direction,
        },
        LogicalPlan::AsOfScan { source, timestamp_expr } => LogicalPlan::AsOfScan {
            source: Box::new(apply_rules(*source)),
            timestamp_expr,
        },
        LogicalPlan::TemporalRangeScan { source, start_expr, end_expr } => LogicalPlan::TemporalRangeScan {
            source: Box::new(apply_rules(*source)),
            start_expr,
            end_expr,
        },
        other => other,
    }
}

/// Applies the optimization rules to a plan, bottom-up (children first):
/// index scan selection, LIMIT pushdown, constant folding, projection
/// pruning. Integer arithmetic that would overflow or divide by zero is left
/// for execution; decimal arithmetic is too (only the sign of a decimal
/// literal is folded).
pub fn optimize(plan: LogicalPlan) -> (r: LogicalPlan)
    ensures
        r@ == optimized(plan@),
        throughout(r@, |q: SpecPlan| pruned_shape(q)),
{
    proof {
        lemma_optimized_shape(plan@);
    }
    apply_rules(plan)
}

} // verus!
