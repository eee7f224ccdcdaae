//! Logical planner: turns a parsed query into a tree of plan operators.

pub mod catalog;
pub mod logical;
pub mod optimize;
pub mod semantics;

use vstd::prelude::*;
use crate::lexer::lower_seq;
use crate::parser::ast::{
    clone_expr, clone_exprs, clone_opt_expr, clone_opt_string, clone_vec, exprs_view,
    opt_expr, opt_map, opt_str, BinaryOp, Clause, CreateClause, DeleteClause, DeepClone,
    Expression, IndexTarget, MatchClause, MergeClause, OrderItem, Pattern, PatternChain,
    PatternElement, Query, RelDirection, RemoveClause, RemoveItem, ReturnClause, ReturnItem,
    SetClause, SetItem, SpecExpr, SpecOrderItem, SpecPatternElement, SpecRemoveItem,
    SpecReturnItem, SpecSetItem, TemporalPredicate, UnwindClause, WithClause, MapLiteral,
    map_view,
};
use crate::text::owned;
use self::catalog::{index_of, Catalog};
pub use self::logical::LogicalPlanner;

verus! {

/// A logical plan node representing a query execution strategy.
#[derive(Debug, PartialEq)]
pub enum LogicalPlan {
    /// Scan all nodes, optionally filtered by label id; `limit` caps the
    /// number of nodes produced (set by LIMIT pushdown).
    NodeScan { variable: String, label_id: Option<u32>, limit: Option<usize> },
    /// Expand from a source variable along edges of a given type.
    Expand {
        source: Box<LogicalPlan>,
        src_var: String,
        rel_var: Option<String>,
        target_var: String,
        rel_type_id: Option<u32>,
        direction: RelDirection,
        temporal_filter: Option<TemporalFilterPlan>,
    },
    /// Filter rows by a predicate expression.
    Filter { source: Box<LogicalPlan>, predicate: Expression },
    /// Project specific expressions (RETURN clause).
    Project { source: Box<LogicalPlan>, items: Vec<ReturnItem>, distinct: bool },
    /// Sort rows (ORDER BY).
    Sort { source: Box<LogicalPlan>, items: Vec<OrderItem> },
    /// Skip N rows.
    Skip { source: Box<LogicalPlan>, count: Expression },
    /// Limit to N rows.
    Limit { source: Box<LogicalPlan>, count: Expression },
    /// Aggregate (GROUP BY equivalent via aggregate function calls).
    Aggregate {
        source: Box<LogicalPlan>,
        group_keys: Vec<Expression>,
        aggregates: Vec<(String, AggregateFunc)>,
    },
    /// Create nodes/edges.
    CreateOp { source: Option<Box<LogicalPlan>>, pattern: Pattern },
    /// Delete nodes/edges.
    DeleteOp { source: Box<LogicalPlan>, exprs: Vec<Expression>, detach: bool },
    /// Set properties.
    SetOp { source: Box<LogicalPlan>, items: Vec<SetItem> },
    /// Remove properties/labels.
    RemoveOp { source: Box<LogicalPlan>, items: Vec<RemoveItem> },
    /// WITH clause: intermediate projection (scope reset).
    With {
        source: Box<LogicalPlan>,
        items: Vec<ReturnItem>,
        where_clause: Option<Expression>,
        distinct: bool,
    },
    /// UNWIND clause: flatten a list into rows.
    Unwind { source: Box<LogicalPlan>, expr: Expression, variable: String },
    /// OPTIONAL MATCH expand: left join semantics.
    OptionalExpand {
        source: Box<LogicalPlan>,
        src_var: String,
        rel_var: Option<String>,
        target_var: String,
        rel_type_id: Option<u32>,
        direction: RelDirection,
    },
    /// MERGE: match-or-create pattern with optional ON MATCH/ON CREATE SET.
    MergeOp {
        source: Option<Box<LogicalPlan>>,
        pattern: Pattern,
        on_match: Vec<SetItem>,
        on_create: Vec<SetItem>,
    },
    /// Empty source (produces one empty row).
    EmptySource,
    /// CREATE INDEX DDL operation (node label index).
    CreateIndex { name: Option<String>, label: String, property: String },
    /// CREATE EDGE INDEX DDL operation (relationship type index).
    CreateEdgeIndex { name: Option<String>, rel_type: String, property: String },
    /// DROP INDEX DDL operation.
    DropIndex { name: String },
    /// Variable-length path expansion with depth bounds.
    VarLengthExpand {
        source: Box<LogicalPlan>,
        src_var: String,
        rel_var: Option<String>,
        target_var: String,
        rel_type_id: Option<u32>,
        direction: RelDirection,
        min_hops: u32,
        max_hops: u32,
        temporal_filter: Option<TemporalFilterPlan>,
    },
    /// Index-based scan: nodes by label + property value.
    IndexScan { variable: String, label_id: u32, prop_key: String, lookup_value: Expression },
    /// AT TIME query: node/edge versions at a point in time.
    AsOfScan { source: Box<LogicalPlan>, timestamp_expr: Expression },
    /// BETWEEN TIME query: all versions within a time range.
    TemporalRangeScan { source: Box<LogicalPlan>, start_expr: Expression, end_expr: Expression },
}

/// Temporal filter plan for edge validity during AT TIME / BETWEEN TIME queries.
#[derive(Debug, PartialEq)]
pub enum TemporalFilterPlan {
    /// Filter edges valid at a specific timestamp.
    AsOf(Expression),
    /// Filter edges with validity overlapping [start, end].
    Between(Expression, Expression),
}

/// Supported aggregate functions.
#[derive(Debug, Clone, Copy, PartialEq, Eq, Structural)]
pub enum AggregateFunc {
    /// `count(x)` or `count(DISTINCT x)`.
    Count { distinct: bool },
    /// `count(*)`.
    CountStar,
}

/// Error type for plan construction failures.
#[derive(Debug, Clone, PartialEq)]
pub struct PlanError {
    /// Human-readable description.
    pub message: String,
}

impl PlanError {
    /// The message of this error, as `Display` would render it.
    pub fn to_string(&self) -> (r: String)
        ensures
            r@ == "Plan error: "@ + self.message@,
    {
        let mut s = owned("Plan error: ");
        s.append(self.message.as_str());
        s
    }
}

/// Default maximum hops for unbounded variable-length paths.
pub const DEFAULT_MAX_HOPS: u32 = 10;

// ---------------------------------------------------------------------------
// Model of plans
// ---------------------------------------------------------------------------

/// Model of a [`TemporalFilterPlan`].
pub enum SpecTemporal {
    AsOf(SpecExpr),
    Between(SpecExpr, SpecExpr),
}

impl View for TemporalFilterPlan {
    type V = SpecTemporal;

    open spec fn view(&self) -> SpecTemporal {
        match self {
            TemporalFilterPlan::AsOf(e) => SpecTemporal::AsOf(e@),
            TemporalFilterPlan::Between(a, b) => SpecTemporal::Between(a@, b@),
        }
    }
}

/// Model of an optional temporal filter.
pub open spec fn opt_temporal(t: Option<TemporalFilterPlan>) -> Option<SpecTemporal> {
    match t {
        Some(x) => Some(x@),
        None => None,
    }
}

/// Model of a [`LogicalPlan`].
pub enum SpecPlan {
    NodeScan { variable: Seq<char>, label_id: Option<u32>, limit: Option<usize> },
    Expand {
        source: Box<SpecPlan>,
        src_var: Seq<char>,
        rel_var: Option<Seq<char>>,
        target_var: Seq<char>,
        rel_type_id: Option<u32>,
        direction: RelDirection,
        temporal_filter: Option<SpecTemporal>,
    },
    Filter { source: Box<SpecPlan>, predicate: SpecExpr },
    Project { source: Box<SpecPlan>, items: Seq<SpecReturnItem>, distinct: bool },
    Sort { source: Box<SpecPlan>, items: Seq<SpecOrderItem> },
    Skip { source: Box<SpecPlan>, count: SpecExpr },
    Limit { source: Box<SpecPlan>, count: SpecExpr },
    Aggregate {
        source: Box<SpecPlan>,
        group_keys: Seq<SpecExpr>,
        aggregates: Seq<(Seq<char>, AggregateFunc)>,
    },
    CreateOp { source: Option<Box<SpecPlan>>, pattern: Seq<Seq<SpecPatternElement>> },
    DeleteOp { source: Box<SpecPlan>, exprs: Seq<SpecExpr>, detach: bool },
    SetOp { source: Box<SpecPlan>, items: Seq<SpecSetItem> },
    RemoveOp { source: Box<SpecPlan>, items: Seq<SpecRemoveItem> },
    With {
        source: Box<SpecPlan>,
        items: Seq<SpecReturnItem>,
        where_clause: Option<SpecExpr>,
        distinct: bool,
    },
    Unwind { source: Box<SpecPlan>, expr: SpecExpr, variable: Seq<char> },
    OptionalExpand {
        source: Box<SpecPlan>,
        src_var: Seq<char>,
        rel_var: Option<Seq<char>>,
        target_var: Seq<char>,
        rel_type_id: Option<u32>,
        direction: RelDirection,
    },
    MergeOp {
        source: Option<Box<SpecPlan>>,
        pattern: Seq<Seq<SpecPatternElement>>,
        on_match: Seq<SpecSetItem>,
        on_create: Seq<SpecSetItem>,
    },
    EmptySource,
    CreateIndex { name: Option<Seq<char>>, label: Seq<char>, property: Seq<char> },
    CreateEdgeIndex { name: Option<Seq<char>>, rel_type: Seq<char>, property: Seq<char> },
    DropIndex { name: Seq<char> },
    VarLengthExpand {
        source: Box<SpecPlan>,
        src_var: Seq<char>,
        rel_var: Option<Seq<char>>,
        target_var: Seq<char>,
        rel_type_id: Option<u32>,
        direction: RelDirection,
        min_hops: u32,
        max_hops: u32,
        temporal_filter: Option<SpecTemporal>,
    },
    IndexScan { variable: Seq<char>, label_id: u32, prop_key: Seq<char>, lookup_value: SpecExpr },
    AsOfScan { source: Box<SpecPlan>, timestamp_expr: SpecExpr },
    TemporalRangeScan { source: Box<SpecPlan>, start_expr: SpecExpr, end_expr: SpecExpr },
}

/// Models of return items.
pub open spec fn ret_items_view(s: Seq<ReturnItem>) -> Seq<SpecReturnItem> {
    s.map_values(|x: ReturnItem| x@)
}

/// Models of order items.
pub open spec fn order_items_view(s: Seq<OrderItem>) -> Seq<SpecOrderItem> {
    s.map_values(|x: OrderItem| x@)
}

/// Models of SET items.
pub open spec fn set_items_view(s: Seq<SetItem>) -> Seq<SpecSetItem> {
    s.map_values(|x: SetItem| x@)
}

/// Models of REMOVE items.
pub open spec fn remove_items_view(s: Seq<RemoveItem>) -> Seq<SpecRemoveItem> {
    s.map_values(|x: RemoveItem| x@)
}

/// Models of named aggregates.
pub open spec fn aggs_view(s: Seq<(String, AggregateFunc)>) -> Seq<(Seq<char>, AggregateFunc)> {
    s.map_values(|x: (String, AggregateFunc)| (x.0@, x.1))
}

/// The model of a plan.
pub open spec fn plan_view(p: LogicalPlan) -> SpecPlan
    decreases p,
{
    match p {
        LogicalPlan::NodeScan { variable, label_id, limit } => SpecPlan::NodeScan {
            variable: variable@,
            label_id,
            limit,
        },
        LogicalPlan::Expand {
            source,
            src_var,
            rel_var,
            target_var,
            rel_type_id,
            direction,
            temporal_filter,
        } => SpecPlan::Expand {
            source: Box::new(plan_view(*source)),
            src_var: src_var@,
            rel_var: opt_str(rel_var),
            target_var: target_var@,
            rel_type_id,
            direction,
            temporal_filter: opt_temporal(temporal_filter),
        },
        LogicalPlan::Filter { source, predicate } => SpecPlan::Filter {
            source: Box::new(plan_view(*source)),
            predicate: predicate@,
        },
        LogicalPlan::Project { source, items, distinct } => SpecPlan::Project {
            source: Box::new(plan_view(*source)),
            items: ret_items_view(items@),
            distinct,
        },
        LogicalPlan::Sort { source, items } => SpecPlan::Sort {
            source: Box::new(plan_view(*source)),
            items: order_items_view(items@),
        },
        LogicalPlan::Skip { source, count } => SpecPlan::Skip {
            source: Box::new(plan_view(*source)),
            count: count@,
        },
        LogicalPlan::Limit { source, count } => SpecPlan::Limit {
            source: Box::new(plan_view(*source)),
            count: count@,
        },
        LogicalPlan::Aggregate { source, group_keys, aggregates } => SpecPlan::Aggregate {
            source: Box::new(plan_view(*source)),
            group_keys: exprs_view(group_keys@),
            aggregates: aggs_view(aggregates@),
        },
        LogicalPlan::CreateOp { source, pattern } => SpecPlan::CreateOp {
            source: match source {
                Some(s) => Some(Box::new(plan_view(*s))),
                None => None,
            },
            pattern: pattern@,
        },
        LogicalPlan::DeleteOp { source, exprs, detach } => SpecPlan::DeleteOp {
            source: Box::new(plan_view(*source)),
            exprs: exprs_view(exprs@),
            detach,
        },
        LogicalPlan::SetOp { source, items } => SpecPlan::SetOp {
            source: Box::new(plan_view(*source)),
            items: set_items_view(items@),
        },
        LogicalPlan::RemoveOp { source, items } => SpecPlan::RemoveOp {
            source: Box::new(plan_view(*source)),
            items: remove_items_view(items@),
        },
        LogicalPlan::With { source, items, where_clause, distinct } => SpecPlan::With {
            source: Box::new(plan_view(*source)),
            items: ret_items_view(items@),
            where_clause: opt_expr(where_clause),
            distinct,
        },
        LogicalPlan::Unwind { source, expr, variable } => SpecPlan::Unwind {
            source: Box::new(plan_view(*source)),
            expr: expr@,
            variable: variable@,
        },
        LogicalPlan::OptionalExpand {
            source,
            src_var,
            rel_var,
            target_var,
            rel_type_id,
            direction,
        } => SpecPlan::OptionalExpand {
            source: Box::new(plan_view(*source)),
            src_var: src_var@,
            rel_var: opt_str(rel_var),
            target_var: target_var@,
            rel_type_id,
            direction,
        },
        LogicalPlan::MergeOp { source, pattern, on_match, on_create } => SpecPlan::MergeOp {
            source: match source {
                Some(s) => Some(Box::new(plan_view(*s))),
                None => None,
            },
            pattern: pattern@,
            on_match: set_items_view(on_match@),
            on_create: set_items_view(on_create@),
        },
        LogicalPlan::EmptySource => SpecPlan::EmptySource,
        LogicalPlan::CreateIndex { name, label, property } => SpecPlan::CreateIndex {
            name: opt_str(name),
            label: label@,
            property: property@,
        },
        LogicalPlan::CreateEdgeIndex { name, rel_type, property } => SpecPlan::CreateEdgeIndex {
            name: opt_str(name),
            rel_type: rel_type@,
            property: property@,
        },
        LogicalPlan::DropIndex { name } => SpecPlan::DropIndex { name: name@ },
        LogicalPlan::VarLengthExpand {
            source,
            src_var,
            rel_var,
            target_var,
            rel_type_id,
            direction,
            min_hops,
            max_hops,
            temporal_filter,
        } => SpecPlan::VarLengthExpand {
            source: Box::new(plan_view(*source)),
            src_var: src_var@,
            rel_var: opt_str(rel_var),
            target_var: target_var@,
            rel_type_id,
            direction,
            min_hops,
            max_hops,
            temporal_filter: opt_temporal(temporal_filter),
        },
        LogicalPlan::IndexScan { variable, label_id, prop_key, lookup_value } => SpecPlan::IndexScan {
            variable: variable@,
            label_id,
            prop_key: prop_key@,
            lookup_value: lookup_value@,
        },
        LogicalPlan::AsOfScan { source, timestamp_expr } => SpecPlan::AsOfScan {
            source: Box::new(plan_view(*source)),
            timestamp_expr: timestamp_expr@,
        },
        LogicalPlan::TemporalRangeScan { source, start_expr, end_expr } => SpecPlan::TemporalRangeScan {
            source: Box::new(plan_view(*source)),
            start_expr: start_expr@,
            end_expr: end_expr@,
        },
    }
}

impl View for LogicalPlan {
    type V = SpecPlan;

    open spec fn view(&self) -> SpecPlan {
        plan_view(*self)
    }
}

/// The model of an optional plan.
pub open spec fn opt_plan(p: Option<LogicalPlan>) -> Option<SpecPlan> {
    match p {
        Some(x) => Some(x@),
        None => None,
    }
}

/// The boxed model of an optional plan.
pub open spec fn opt_box_plan(p: Option<LogicalPlan>) -> Option<Box<SpecPlan>> {
    match p {
        Some(x) => Some(Box::new(x@)),
        None => None,
    }
}

// ---------------------------------------------------------------------------
// Temporal annotation
// ---------------------------------------------------------------------------

/// `p` with `t` set as the temporal filter of every Expand and
/// VarLengthExpand reachable through source links.
pub open spec fn annotated(p: SpecPlan, t: SpecTemporal) -> SpecPlan
    decreases p,
{
    match p {
        SpecPlan::Expand { source, src_var, rel_var, target_var, rel_type_id, direction, .. } =>
            SpecPlan::Expand {
            source: Box::new(annotated(*source, t)),
            src_var,
            rel_var,
            target_var,
            rel_type_id,
            direction,
            temporal_filter: Some(t),
        },
        SpecPlan::VarLengthExpand {
            source,
            src_var,
            rel_var,
            target_var,
            rel_type_id,
            direction,
            min_hops,
            max_hops,
            ..
        } => SpecPlan::VarLengthExpand {
            source: Box::new(annotated(*source, t)),
            src_var,
            rel_var,
            target_var,
            rel_type_id,
            direction,
            min_hops,
            max_hops,
            temporal_filter: Some(t),
        },
        SpecPlan::Filter { source, predicate } => SpecPlan::Filter {
            source: Box::new(annotated(*source, t)),
            predicate,
        },
        SpecPlan::Project { source, items, distinct } => SpecPlan::Project {
            source: Box::new(annotated(*source, t)),
            items,
            distinct,
        },
        SpecPlan::Sort { source, items } => SpecPlan::Sort {
            source: Box::new(annotated(*source, t)),
            items,
        },
        SpecPlan::Skip { source, count } => SpecPlan::Skip {
            source: Box::new(annotated(*source, t)),
            count,
        },
        SpecPlan::Limit { source, count } => SpecPlan::Limit {
            source: Box::new(annotated(*source, t)),
            count,
        },
        SpecPlan::Aggregate { source, group_keys, aggregates } => SpecPlan::Aggregate {
            source: Box::new(annotated(*source, t)),
            group_keys,
            aggregates,
        },
        SpecPlan::SetOp { source, items } => SpecPlan::SetOp {
            source: Box::new(annotated(*source, t)),
            items,
        },
        SpecPlan::RemoveOp { source, items } => SpecPlan::RemoveOp {
            source: Box::new(annotated(*source, t)),
            items,
        },
        SpecPlan::With { source, items, where_clause, distinct } => SpecPlan::With {
            source: Box::new(annotated(*source, t)),
            items,
            where_clause,
            distinct,
        },
        SpecPlan::Unwind { source, expr, variable } => SpecPlan::Unwind {
            source: Box::new(annotated(*source, t)),
            expr,
            variable,
        },
        SpecPlan::DeleteOp { source, exprs, detach } => SpecPlan::DeleteOp {
            source: Box::new(annotated(*source, t)),
            exprs,
            detach,
        },
        SpecPlan::OptionalExpand {
            source,
            src_var,
            rel_var,
            target_var,
            rel_type_id,
            direction,
        } => SpecPlan::OptionalExpand {
            source: Box::new(annotated(*source, t)),
            src_var,
            rel_var,
            target_var,
            rel_type_id,
            direction,
        },
        SpecPlan::AsOfScan { source, timestamp_expr } => SpecPlan::AsOfScan {
            source: Box::new(annotated(*source, t)),
            timestamp_expr,
        },
        SpecPlan::TemporalRangeScan { source, start_expr, end_expr } => SpecPlan::TemporalRangeScan {
            source: Box::new(annotated(*source, t)),
            start_expr,
            end_expr,
        },
        SpecPlan::CreateOp { source, pattern } => SpecPlan::CreateOp {
            source: match source {
                Some(s) => Some(Box::new(annotated(*s, t))),
                None => None,
            },
            pattern,
        },
        SpecPlan::MergeOp { source, pattern, on_match, on_create } => SpecPlan::MergeOp {
            source: match source {
                Some(s) => Some(Box::new(annotated(*s, t))),
                None => None,
            },
            pattern,
            on_match,
            on_create,
        },
        other => other,
    }
}

/// Annotating keeps the variable a plan produces and its bottom scan, and a
/// second annotation with the same filter changes nothing.
pub proof fn lemma_annotated(p: SpecPlan, t: SpecTemporal)
    ensures
        src_var_of(annotated(p, t)) == src_var_of(p),
        scan_of(annotated(p, t)) == annotated(scan_of(p), t),
        annotated(annotated(p, t), t) == annotated(p, t),
    decreases p,
{
    match p {
        SpecPlan::Expand { source, .. } => lemma_annotated(*source, t),
        SpecPlan::VarLengthExpand { source, .. } => lemma_annotated(*source, t),
        SpecPlan::Filter { source, .. } => lemma_annotated(*source, t),
        SpecPlan::Project { source, .. } => lemma_annotated(*source, t),
        SpecPlan::Sort { source, .. } => lemma_annotated(*source, t),
        SpecPlan::Skip { source, .. } => lemma_annotated(*source, t),
        SpecPlan::Limit { source, .. } => lemma_annotated(*source, t),
        SpecPlan::Aggregate { source, .. } => lemma_annotated(*source, t),
        SpecPlan::SetOp { source, .. } => lemma_annotated(*source, t),
        SpecPlan::RemoveOp { source, .. } => lemma_annotated(*source, t),
        SpecPlan::With { source, .. } => lemma_annotated(*source, t),
        SpecPlan::Unwind { source, .. } => lemma_annotated(*source, t),
        SpecPlan::DeleteOp { source, .. } => lemma_annotated(*source, t),
        SpecPlan::OptionalExpand { source, .. } => lemma_annotated(*source, t),
        SpecPlan::AsOfScan { source, .. } => lemma_annotated(*source, t),
        SpecPlan::TemporalRangeScan { source, .. } => lemma_annotated(*source, t),
        SpecPlan::CreateOp { source, .. } => match source {
            Some(s) => lemma_annotated(*s, t),
            None => {},
        },
        SpecPlan::MergeOp { source, .. } => match source {
            Some(s) => lemma_annotated(*s, t),
            None => {},
        },
        _ => {},
    }
}

/// A copy of a temporal filter plan with the same model.
pub fn clone_temporal(t: &TemporalFilterPlan) -> (r: TemporalFilterPlan)
    ensures
        r@ == t@,
{
    match t {
        TemporalFilterPlan::AsOf(e) => TemporalFilterPlan::AsOf(clone_expr(e)),
        TemporalFilterPlan::Between(a, b) => TemporalFilterPlan::Between(clone_expr(a), clone_expr(b)),
    }
}

/// Sets `tfp` as the temporal filter of every Expand and VarLengthExpand in
/// the plan, so that edges are also filtered temporally during traversal.
fn annotate_temporal_filter(plan: LogicalPlan, tfp: &TemporalFilterPlan) -> (r: LogicalPlan)
    ensures
        r@ == annotated(plan@, tfp@),
    decreases plan,
{
    match plan {
        LogicalPlan::Expand { source, src_var, rel_var, target_var, rel_type_id, direction, .. } =>
            LogicalPlan::Expand {
            source: Box::new(annotate_temporal_filter(*source, tfp)),
            src_var,
            rel_var,
            target_var,
            rel_type_id,
            direction,
            temporal_filter: Some(clone_temporal(tfp)),
        },
        LogicalPlan::VarLengthExpand {
            source,
            src_var,
            rel_var,
            target_var,
            rel_type_id,
            direction,
            min_hops,
            max_hops,
            ..
        } => LogicalPlan::VarLengthExpand {
            source: Box::new(annotate_temporal_filter(*source, tfp)),
            src_var,
            rel_var,
            target_var,
            rel_type_id,
            direction,
            min_hops,
            max_hops,
            temporal_filter: Some(clone_temporal(tfp)),
        },
        LogicalPlan::Filter { source, predicate } => LogicalPlan::Filter {
            source: Box::new(annotate_temporal_filter(*source, tfp)),
            predicate,
        },
        LogicalPlan::Project { source, items, distinct } => LogicalPlan::Project {
            source: Box::new(annotate_temporal_filter(*source, tfp)),
            items,
            distinct,
        },
        LogicalPlan::Sort { source, items } => LogicalPlan::Sort {
            source: Box::new(annotate_temporal_filter(*source, tfp)),
            items,
        },
        LogicalPlan::Skip { source, count } => LogicalPlan::Skip {
            source: Box::new(annotate_temporal_filter(*source, tfp)),
            count,
        },
        LogicalPlan::Limit { source, count } => LogicalPlan::Limit {
            source: Box::new(annotate_temporal_filter(*source, tfp)),
            count,
        },
        LogicalPlan::Aggregate { source, group_keys, aggregates } => LogicalPlan::Aggregate {
            source: Box::new(annotate_temporal_filter(*source, tfp)),
            group_keys,
            aggregates,
        },
        LogicalPlan::SetOp { source, items } => LogicalPlan::SetOp {
            source: Box::new(annotate_temporal_filter(*source, tfp)),
            items,
        },
        LogicalPlan::RemoveOp { source, items } => LogicalPlan::RemoveOp {
            source: Box::new(annotate_temporal_filter(*source, tfp)),
            items,
        },
        LogicalPlan::With { source, items, where_clause, distinct } => LogicalPlan::With {
            source: Box::new(annotate_temporal_filter(*source, tfp)),
            items,
            where_clause,
            distinct,
        },
        LogicalPlan::Unwind { source, expr, variable } => LogicalPlan::Unwind {
            source: Box::new(annotate_temporal_filter(*source, tfp)),
            expr,
            variable,
        },
        LogicalPlan::DeleteOp { source, exprs, detach } => LogicalPlan::DeleteOp {
            source: Box::new(annotate_temporal_filter(*source, tfp)),
            exprs,
            detach,
        },
        LogicalPlan::OptionalExpand {
            source,
            src_var,
            rel_var,
            target_var,
            rel_type_id,
            direction,
        } => LogicalPlan::OptionalExpand {
            source: Box::new(annotate_temporal_filter(*source, tfp)),
            src_var,
            rel_var,
            target_var,
            rel_type_id,
            direction,
        },
        LogicalPlan::AsOfScan { source, timestamp_expr } => LogicalPlan::AsOfScan {
            source: Box::new(annotate_temporal_filter(*source, tfp)),
            timestamp_expr,
        },
        LogicalPlan::TemporalRangeScan { source, start_expr, end_expr } =>
            LogicalPlan::TemporalRangeScan {
            source: Box::new(annotate_temporal_filter(*source, tfp)),
            start_expr,
            end_expr,
        },
        LogicalPlan::CreateOp { source, pattern } => LogicalPlan::CreateOp {
            source: match source {
                Some(s) => Some(Box::new(annotate_temporal_filter(*s, tfp))),
                None => None,
            },
            pattern,
        },
        LogicalPlan::MergeOp { source, pattern, on_match, on_create } => LogicalPlan::MergeOp {
            source: match source {
                Some(s) => Some(Box::new(annotate_temporal_filter(*s, tfp))),
                None => None,
            },
            pattern,
            on_match,
            on_create,
        },
        other => other,
    }
}

// ---------------------------------------------------------------------------
// Aggregates
// ---------------------------------------------------------------------------

/// Lower-cased names of the aggregate functions.
pub open spec fn is_agg_name(l: Seq<char>) -> bool {
    l == "count"@ || l == "sum"@ || l == "avg"@ || l == "min"@ || l == "max"@ || l == "collect"@
}

/// The expression is an aggregate function call (`count(*)` or a call of an
/// aggregate function, in any letter case).
pub open spec fn is_agg(e: SpecExpr) -> bool {
    match e {
        SpecExpr::CountStar => true,
        SpecExpr::FunctionCall { name, .. } => is_agg_name(lower_seq(name)),
        _ => false,
    }
}

/// The aggregate an expression computes, when supported (only `count`).
pub open spec fn agg_func(e: SpecExpr) -> Option<AggregateFunc> {
    match e {
        SpecExpr::CountStar => Some(AggregateFunc::CountStar),
        SpecExpr::FunctionCall { name, distinct, .. } => if lower_seq(name) == "count"@ {
            Some(AggregateFunc::Count { distinct })
        } else {
            None
        },
        _ => None,
    }
}

/// The count aggregate planned for a call of `count` (in any letter case)
/// keeps the call's DISTINCT flag, whatever its arguments: `count(DISTINCT e)`
/// counts distinct values and `count(e)` all of them. Conversely, a planned
/// count aggregate comes from a call with the same flag. In a RETURN list,
/// such a call as the last item adds that aggregate last.
pub proof fn lemma_count_keeps_distinct(
    name: Seq<char>,
    d: bool,
    args: Seq<SpecExpr>,
    e: SpecExpr,
    items: Seq<SpecReturnItem>,
)
    requires
        lower_seq(name) == "count"@,
    ensures
        agg_func(SpecExpr::FunctionCall { name, distinct: d, args }) == Some(
            AggregateFunc::Count { distinct: d },
        ),
        match agg_func(e) {
            Some(AggregateFunc::Count { distinct: x }) => e matches SpecExpr::FunctionCall {
                distinct: y,
                ..
            } && x == y,
            _ => true,
        },
        items.len() > 0 && items.last().expr == (SpecExpr::FunctionCall { name, distinct: d, args })
            && aggregates_of(items.drop_last()) is Some ==> (aggregates_of(items) matches Some(aggs)
            && aggs.len() > 0 && aggs.last().1 == (AggregateFunc::Count { distinct: d })),
{
    reveal_strlit("count");
    reveal_strlit("sum");
    reveal_strlit("avg");
    reveal_strlit("min");
    reveal_strlit("max");
    reveal_strlit("collect");
    assert(is_agg_name("count"@));
}

/// Default column name of an aggregate expression.
pub open spec fn agg_name(e: SpecExpr) -> Seq<char> {
    match e {
        SpecExpr::CountStar => "count(*)"@,
        SpecExpr::FunctionCall { name, .. } => name + "(..)"@,
        _ => "agg"@,
    }
}

/// The non-aggregate expressions of `items`, in order: the grouping keys.
pub open spec fn group_keys_of(items: Seq<SpecReturnItem>) -> Seq<SpecExpr>
    decreases items.len(),
{
    if items.len() == 0 {
        Seq::empty()
    } else {
        let prev = group_keys_of(items.drop_last());
        if is_agg(items.last().expr) {
            prev
        } else {
            prev.push(items.last().expr)
        }
    }
}

/// The named aggregates of `items`, in order; `None` when one of them is not supported.
pub open spec fn aggregates_of(items: Seq<SpecReturnItem>) -> Option<
    Seq<(Seq<char>, AggregateFunc)>,
>
    decreases items.len(),
{
    if items.len() == 0 {
        Some(Seq::empty())
    } else {
        match aggregates_of(items.drop_last()) {
            None => None,
            Some(prev) => {
                let it = items.last();
                if is_agg(it.expr) {
                    match agg_func(it.expr) {
                        Some(f) => Some(
                            prev.push(
                                (
                                    match it.alias {
                                        Some(a) => a,
                                        None => agg_name(it.expr),
                                    },
                                    f,
                                ),
                            ),
                        ),
                        None => None,
                    }
                } else {
                    Some(prev)
                }
            },
        }
    }
}

/// Some item of `items` is an aggregate.
pub open spec fn has_agg(items: Seq<SpecReturnItem>) -> bool {
    exists|i: int| 0 <= i < items.len() && #[trigger] is_agg(items[i].expr)
}

/// The projection a RETURN or WITH list makes of `src`: an aggregation when
/// some item aggregates, else a plain projection; `None` for an unsupported aggregate.
pub open spec fn projection_of(items: Seq<SpecReturnItem>, distinct: bool, src: SpecPlan) -> Option<
    SpecPlan,
> {
    if has_agg(items) {
        match aggregates_of(items) {
            Some(a) => Some(
                SpecPlan::Aggregate {
                    source: Box::new(src),
                    group_keys: group_keys_of(items),
                    aggregates: a,
                },
            ),
            None => None,
        }
    } else {
        Some(SpecPlan::Project { source: Box::new(src), items, distinct })
    }
}

/// `inner` with ORDER BY, SKIP and LIMIT applied, innermost first.
pub open spec fn wrap_return(
    inner: SpecPlan,
    order: Option<Seq<SpecOrderItem>>,
    skip: Option<SpecExpr>,
    limit: Option<SpecExpr>,
) -> SpecPlan {
    let a = match order {
        Some(o) => SpecPlan::Sort { source: Box::new(inner), items: o },
        None => inner,
    };
    let b = match skip {
        Some(s) => SpecPlan::Skip { source: Box::new(a), count: s },
        None => a,
    };
    match limit {
        Some(l) => SpecPlan::Limit { source: Box::new(b), count: l },
        None => b,
    }
}

/// The clauses of a RETURN apply in the order Cypher gives them: rows are
/// sorted first, then skipped, then limited; so with all three the LIMIT is
/// outermost, over the SKIP, over the ORDER BY, over the projection; and a
/// clause that is absent adds no layer.
pub proof fn lemma_return_layers(
    inner: SpecPlan,
    order: Seq<SpecOrderItem>,
    skip: SpecExpr,
    limit: SpecExpr,
)
    ensures
        wrap_return(inner, Some(order), Some(skip), Some(limit)) == (SpecPlan::Limit {
            source: Box::new(
                SpecPlan::Skip {
                    source: Box::new(SpecPlan::Sort { source: Box::new(inner), items: order }),
                    count: skip,
                },
            ),
            count: limit,
        }),
        wrap_return(inner, None, None, None) == inner,
        wrap_return(inner, None, Some(skip), None) == (SpecPlan::Skip {
            source: Box::new(inner),
            count: skip,
        }),
        wrap_return(inner, None, None, Some(limit)) == (SpecPlan::Limit {
            source: Box::new(inner),
            count: limit,
        }),
{
}

/// The model of an optional list of order items.
pub open spec fn opt_order(o: Option<Vec<OrderItem>>) -> Option<Seq<SpecOrderItem>> {
    match o {
        Some(v) => Some(order_items_view(v@)),
        None => None,
    }
}

/// The variable a plan produces rows for, used as the source of the next expansion.
pub open spec fn src_var_of(p: SpecPlan) -> Seq<char>
    decreases p,
{
    match p {
        SpecPlan::NodeScan { variable, .. } => variable,
        SpecPlan::Expand { target_var, .. } => target_var,
        SpecPlan::VarLengthExpand { target_var, .. } => target_var,
        SpecPlan::OptionalExpand { target_var, .. } => target_var,
        SpecPlan::Filter { source, .. } => src_var_of(*source),
        SpecPlan::AsOfScan { source, .. } => src_var_of(*source),
        SpecPlan::TemporalRangeScan { source, .. } => src_var_of(*source),
        _ => Seq::empty(),
    }
}

/// The scan at the bottom of a chain of expansions and filters.
pub open spec fn scan_of(p: SpecPlan) -> SpecPlan
    decreases p,
{
    match p {
        SpecPlan::Expand { source, .. } => scan_of(*source),
        SpecPlan::VarLengthExpand { source, .. } => scan_of(*source),
        SpecPlan::Filter { source, .. } => scan_of(*source),
        other => other,
    }
}

/// The equality predicate `var.key = value` for one inline property.
pub open spec fn prop_eq(var: Seq<char>, kv: (Seq<char>, SpecExpr)) -> SpecExpr {
    SpecExpr::BinaryOp(
        BinaryOp::Eq,
        Box::new(SpecExpr::Property(Box::new(SpecExpr::Variable(var)), kv.0)),
        Box::new(kv.1),
    )
}

/// The conjunction, left to right, of the equality predicates of inline
/// properties; `None` for no properties.
pub open spec fn inline_predicate(var: Seq<char>, props: Seq<(Seq<char>, SpecExpr)>) -> Option<
    SpecExpr,
>
    decreases props.len(),
{
    if props.len() == 0 {
        None
    } else {
        match inline_predicate(var, props.drop_last()) {
            Some(acc) => Some(
                SpecExpr::BinaryOp(
                    BinaryOp::And,
                    Box::new(acc),
                    Box::new(prop_eq(var, props.last())),
                ),
            ),
            None => Some(prop_eq(var, props.last())),
        }
    }
}

/// `var.key = value`, written out.
pub open spec fn equality_on(var: Seq<char>, key: Seq<char>, value: SpecExpr) -> SpecExpr {
    SpecExpr::BinaryOp(
        BinaryOp::Eq,
        Box::new(SpecExpr::Property(Box::new(SpecExpr::Variable(var)), key)),
        Box::new(value),
    )
}

/// `q` is one of the conjuncts of `e` (an operand, at any depth, of its ANDs).
pub open spec fn has_conjunct(e: SpecExpr, q: SpecExpr) -> bool
    decreases e,
{
    e == q || match e {
        SpecExpr::BinaryOp(BinaryOp::And, l, r) => has_conjunct(*l, q) || has_conjunct(*r, q),
        _ => false,
    }
}

/// Every conjunct of `e` that is not itself an AND is the equality of `var`
/// with one of the properties `props`.
pub open spec fn conjuncts_among(e: SpecExpr, var: Seq<char>, props: Seq<(Seq<char>, SpecExpr)>) -> bool
    decreases e,
{
    match e {
        SpecExpr::BinaryOp(BinaryOp::And, l, r) => conjuncts_among(*l, var, props) && conjuncts_among(
            *r,
            var,
            props,
        ),
        _ => exists|i: int|
            0 <= i < props.len() && e == equality_on(var, (#[trigger] props[i]).0, props[i].1),
    }
}

/// Conjuncts among some properties are among any longer list of them.
proof fn lemma_conjuncts_among_grow(
    e: SpecExpr,
    var: Seq<char>,
    props: Seq<(Seq<char>, SpecExpr)>,
    more: Seq<(Seq<char>, SpecExpr)>,
)
    requires
        conjuncts_among(e, var, props),
        props.len() <= more.len(),
        forall|i: int| 0 <= i < props.len() ==> #[trigger] props[i] == more[i],
    ensures
        conjuncts_among(e, var, more),
    decreases e,
{
    match e {
        SpecExpr::BinaryOp(BinaryOp::And, l, r) => {
            lemma_conjuncts_among_grow(*l, var, props, more);
            lemma_conjuncts_among_grow(*r, var, props, more);
        },
        _ => {
            let i = choose|i: int|
                0 <= i < props.len() && e == equality_on(var, (#[trigger] props[i]).0, props[i].1);
            assert(more[i] == props[i]);
        },
    }
}

/// The filter of inline properties `{k1: v1, ...}` on `var` requires each
/// of them and nothing else: there is a filter exactly when there are
/// properties, each equality `var.ki = vi` is one of its conjuncts, and each
/// of its conjuncts is one of these equalities.
pub proof fn lemma_inline_predicate(var: Seq<char>, props: Seq<(Seq<char>, SpecExpr)>)
    ensures
        inline_predicate(var, props) is Some <==> props.len() > 0,
        inline_predicate(var, props) matches Some(pred) ==> {
            &&& forall|i: int|
                0 <= i < props.len() ==> has_conjunct(
                    pred,
                    equality_on(var, (#[trigger] props[i]).0, props[i].1),
                )
            &&& conjuncts_among(pred, var, props)
        },
    decreases props.len(),
{
    if props.len() > 0 {
        let pre = props.drop_last();
        lemma_inline_predicate(var, pre);
        let last = props.last();
        let eq_last = equality_on(var, last.0, last.1);
        assert(prop_eq(var, last) == eq_last);
        let pred = inline_predicate(var, props)->0;
        assert(props[props.len() - 1] == last);
        assert(conjuncts_among(eq_last, var, props)) by {
            assert(eq_last == equality_on(var, props[props.len() - 1].0, props[props.len() - 1].1));
        }
        match inline_predicate(var, pre) {
            Some(acc) => {
                assert(pred == SpecExpr::BinaryOp(BinaryOp::And, Box::new(acc), Box::new(eq_last)));
                lemma_conjuncts_among_grow(acc, var, pre, props);
                assert forall|i: int| 0 <= i < props.len() implies has_conjunct(
                    pred,
                    equality_on(var, (#[trigger] props[i]).0, props[i].1),
                ) by {
                    if i < pre.len() {
                        assert(pre[i] == props[i]);
                        assert(has_conjunct(acc, equality_on(var, pre[i].0, pre[i].1)));
                    } else {
                        assert(props[i] == last);
                        assert(has_conjunct(eq_last, eq_last));
                    }
                }
            },
            None => {
                assert(pre.len() == 0);
                assert(pred == eq_last);
            },
        }
    }
}

/// The variable name of an optional variable, or the empty name.
pub open spec fn var_or_empty(v: Option<Seq<char>>) -> Seq<char> {
    match v {
        Some(x) => x,
        None => Seq::empty(),
    }
}

/// The number of pattern elements in the first chain of a MATCH clause:
/// an upper bound on the names planning the clause can register.
pub open spec fn clause_elements(c: Clause) -> nat {
    match c {
        Clause::Match(mc) => if mc.pattern.chains@.len() > 0 {
            mc.pattern.chains@[0].elements@.len()
        } else {
            0
        },
        _ => 0,
    }
}

/// The sum of [`clause_elements`] over a list of clauses.
pub open spec fn match_elements(clauses: Seq<Clause>) -> nat
    decreases clauses.len(),
{
    if clauses.len() == 0 {
        0
    } else {
        clause_elements(clauses[0]) + match_elements(clauses.skip(1))
    }
}

/// Room left in `c` for `n` more names of each kind.
pub open spec fn has_room(c: Catalog, n: nat) -> bool {
    c.label_names().len() + n < u32::MAX && c.rel_type_names().len() + n < u32::MAX
}

/// `after` keeps every name of `before`, in place.
pub open spec fn extends(before: Catalog, after: Catalog) -> bool {
    &&& before.label_names().len() <= after.label_names().len()
    &&& before.rel_type_names().len() <= after.rel_type_names().len()
    &&& after.label_names().subrange(0, before.label_names().len() as int) == before.label_names()
    &&& after.rel_type_names().subrange(0, before.rel_type_names().len() as int)
        == before.rel_type_names()
}

/// ASCII lower-casing of a string (the aggregate names are ASCII, so this
/// recognizes them exactly as full Unicode lower-casing does).
fn lowercase(s: &str) -> (r: Vec<char>)
    ensures
        r@ == lower_seq(s@),
{
    let cs = crate::text::chars_of(s);
    let mut out: Vec<char> = Vec::new();
    let mut i: usize = 0;
    while i < cs.len()
        invariant
            cs@ == s@,
            i <= cs.len(),
            out@ == lower_seq(cs@.subrange(0, i as int)),
        decreases cs.len() - i,
    {
        let c = cs[i];
        let l = if c >= 'A' && c <= 'Z' {
            ((c as u8) + 32) as char
        } else {
            c
        };
        out.push(l);
        i = i + 1;
        assert(out@ =~= lower_seq(cs@.subrange(0, i as int)));
    }
    assert(cs@.subrange(0, cs@.len() as int) =~= cs@);
    out
}

/// True when `v` holds exactly the characters of `w`.
fn chars_are(v: &Vec<char>, w: &str) -> (r: bool)
    ensures
        r == (v@ == w@),
{
    let n = w.unicode_len();
    if v.len() != n {
        return false;
    }
    let mut i: usize = 0;
    while i < n
        invariant
            n == w@.len(),
            v@.len() == n,
            i <= n,
            forall|k: int| 0 <= k < i ==> v@[k] == w@[k],
        decreases n - i,
    {
        if v[i] != w.get_char(i) {
            return false;
        }
        i = i + 1;
    }
    assert(v@ =~= w@);
    true
}

/// A copy of a plan with the same model.
pub fn clone_plan(p: &LogicalPlan) -> (r: LogicalPlan)
    ensures
        r@ == p@,
    decreases p,
{
    match p {
        LogicalPlan::NodeScan { variable, label_id, limit } => LogicalPlan::NodeScan {
            variable: variable.clone(),
            label_id: *label_id,
            limit: *limit,
        },
        LogicalPlan::Expand {
            source,
            src_var,
            rel_var,
            target_var,
            rel_type_id,
            direction,
            temporal_filter,
        } => LogicalPlan::Expand {
            source: Box::new(clone_plan(source)),
            src_var: src_var.clone(),
            rel_var: clone_opt_string(rel_var),
            target_var: target_var.clone(),
            rel_type_id: *rel_type_id,
            direction: *direction,
            temporal_filter: match temporal_filter {
                Some(t) => Some(clone_temporal(t)),
                None => None,
            },
        },
        LogicalPlan::Filter { source, predicate } => LogicalPlan::Filter {
            source: Box::new(clone_plan(source)),
            predicate: clone_expr(predicate),
        },
        LogicalPlan::Project { source, items, distinct } => {
            let it = clone_vec(items);
            assert(ret_items_view(it@) =~= ret_items_view(items@));
            LogicalPlan::Project { source: Box::new(clone_plan(source)), items: it, distinct: *distinct }
        },
        LogicalPlan::Sort { source, items } => {
            let it = clone_vec(items);
            assert(order_items_view(it@) =~= order_items_view(items@));
            LogicalPlan::Sort { source: Box::new(clone_plan(source)), items: it }
        },
        LogicalPlan::Skip { source, count } => LogicalPlan::Skip {
            source: Box::new(clone_plan(source)),
            count: clone_expr(count),
        },
        LogicalPlan::Limit { source, count } => LogicalPlan::Limit {
            source: Box::new(clone_plan(source)),
            count: clone_expr(count),
        },
        LogicalPlan::Aggregate { source, group_keys, aggregates } => {
            let mut aggs: Vec<(String, AggregateFunc)> = Vec::new();
            let mut i: usize = 0;
            while i < aggregates.len()
                invariant
                    i <= aggregates.len(),
                    aggs@.len() == i,
                    forall|k: int|
                        0 <= k < i ==> (#[trigger] aggs@[k]).0@ == aggregates@[k].0@ && aggs@[k].1
                            == aggregates@[k].1,
                decreases aggregates.len() - i,
            {
                aggs.push((aggregates[i].0.clone(), aggregates[i].1));
                i = i + 1;
            }
            assert(aggs_view(aggs@) =~= aggs_view(aggregates@));
            LogicalPlan::Aggregate {
                source: Box::new(clone_plan(source)),
                group_keys: clone_exprs(group_keys),
                aggregates: aggs,
            }
        },
        LogicalPlan::CreateOp { source, pattern } => LogicalPlan::CreateOp {
            source: match source {
                Some(s) => Some(Box::new(clone_plan(s))),
                None => None,
            },
            pattern: pattern.deep_clone(),
        },
        LogicalPlan::DeleteOp { source, exprs, detach } => LogicalPlan::DeleteOp {
            source: Box::new(clone_plan(source)),
            exprs: clone_exprs(exprs),
            detach: *detach,
        },
        LogicalPlan::SetOp { source, items } => {
            let it = clone_vec(items);
            assert(set_items_view(it@) =~= set_items_view(items@));
            LogicalPlan::SetOp { source: Box::new(clone_plan(source)), items: it }
        },
        LogicalPlan::RemoveOp { source, items } => {
            let it = clone_vec(items);
            assert(remove_items_view(it@) =~= remove_items_view(items@));
            LogicalPlan::RemoveOp { source: Box::new(clone_plan(source)), items: it }
        },
        LogicalPlan::With { source, items, where_clause, distinct } => {
            let it = clone_vec(items);
            assert(ret_items_view(it@) =~= ret_items_view(items@));
            LogicalPlan::With {
                source: Box::new(clone_plan(source)),
                items: it,
                where_clause: clone_opt_expr(where_clause),
                distinct: *distinct,
            }
        },
        LogicalPlan::Unwind { source, expr, variable } => LogicalPlan::Unwind {
            source: Box::new(clone_plan(source)),
            expr: clone_expr(expr),
            variable: variable.clone(),
        },
        LogicalPlan::OptionalExpand {
            source,
            src_var,
            rel_var,
            target_var,
            rel_type_id,
            direction,
        } => LogicalPlan::OptionalExpand {
            source: Box::new(clone_plan(source)),
            src_var: src_var.clone(),
            rel_var: clone_opt_string(rel_var),
            target_var: target_var.clone(),
            rel_type_id: *rel_type_id,
            direction: *direction,
        },
        LogicalPlan::MergeOp { source, pattern, on_match, on_create } => {
            let m = clone_vec(on_match);
            let c = clone_vec(on_create);
            assert(set_items_view(m@) =~= set_items_view(on_match@));
            assert(set_items_view(c@) =~= set_items_view(on_create@));
            LogicalPlan::MergeOp {
                source: match source {
                    Some(s) => Some(Box::new(clone_plan(s))),
                    None => None,
                },
                pattern: pattern.deep_clone(),
                on_match: m,
                on_create: c,
            }
        },
        LogicalPlan::EmptySource => LogicalPlan::EmptySource,
        LogicalPlan::CreateIndex { name, label, property } => LogicalPlan::CreateIndex {
            name: clone_opt_string(name),
            label: label.clone(),
            property: property.clone(),
        },
        LogicalPlan::CreateEdgeIndex { name, rel_type, property } => LogicalPlan::CreateEdgeIndex {
            name: clone_opt_string(name),
            rel_type: rel_type.clone(),
            property: property.clone(),
        },
        LogicalPlan::DropIndex { name } => LogicalPlan::DropIndex { name: name.clone() },
        LogicalPlan::VarLengthExpand {
            source,
            src_var,
            rel_var,
            target_var,
            rel_type_id,
            direction,
            min_hops,
            max_hops,
            temporal_filter,
        } => LogicalPlan::VarLengthExpand {
            source: Box::new(clone_plan(source)),
            src_var: src_var.clone(),
            rel_var: clone_opt_string(rel_var),
            target_var: target_var.clone(),
            rel_type_id: *rel_type_id,
            direction: *direction,
            min_hops: *min_hops,
            max_hops: *max_hops,
            temporal_filter: match temporal_filter {
                Some(t) => Some(clone_temporal(t)),
                None => None,
            },
        },
        LogicalPlan::IndexScan { variable, label_id, prop_key, lookup_value } => LogicalPlan::IndexScan {
            variable: variable.clone(),
            label_id: *label_id,
            prop_key: prop_key.clone(),
            lookup_value: clone_expr(lookup_value),
        },
        LogicalPlan::AsOfScan { source, timestamp_expr } => LogicalPlan::AsOfScan {
            source: Box::new(clone_plan(source)),
            timestamp_expr: clone_expr(timestamp_expr),
        },
        LogicalPlan::TemporalRangeScan { source, start_expr, end_expr } => LogicalPlan::TemporalRangeScan {
            source: Box::new(clone_plan(source)),
            start_expr: clone_expr(start_expr),
            end_expr: clone_expr(end_expr),
        },
    }
}

impl Clone for LogicalPlan {
    fn clone(&self) -> (r: Self)
        ensures
            r@ == self@,
    {
        clone_plan(self)
    }
}

} // verus!
