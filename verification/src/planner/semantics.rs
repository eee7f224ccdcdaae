//! What planning a query yields, clause by clause, as functions of the
//! parsed clauses, the plan so far and the names registered so far.

use vstd::prelude::*;
use crate::lexer::lower_seq;
use crate::parser::ast::{
    exprs_view, map_view, opt_expr, opt_str, Clause, Expression, IndexTarget, MapLiteral,
    MatchClause, NodePattern, PatternElement, RelationshipPattern, SpecExpr, SpecReturnItem,
    TemporalPredicate,
};
use super::catalog::index_of;
use super::{
    aggregates_of, agg_func, annotated, group_keys_of, has_agg, inline_predicate, is_agg,
    opt_order, projection_of, remove_items_view, ret_items_view, set_items_view, src_var_of,
    var_or_empty, wrap_return, SpecPlan, SpecTemporal, DEFAULT_MAX_HOPS,
};

verus! {

/// Names of one kind, in registration order (a name's id is its position).
pub type Names = Seq<Seq<char>>;

// ---------------------------------------------------------------------------
// Registering names
// ---------------------------------------------------------------------------

/// `names` after `name` is looked up or registered: kept when present,
/// appended otherwise.
pub open spec fn registered(names: Names, name: Seq<char>) -> Names {
    match index_of(names, name) {
        Some(_) => names,
        None => names.push(name),
    }
}

/// The id `name` has once looked up or registered.
pub open spec fn reg_id(names: Names, name: Seq<char>) -> u32 {
    match index_of(registered(names, name), name) {
        Some(i) => i as u32,
        None => 0,
    }
}

/// The id of the first name of `list`, registered in `names`, and the names
/// after; no id and no change for an empty list.
pub open spec fn first_registered(names: Names, list: Seq<String>) -> (Option<u32>, Names) {
    if list.len() > 0 {
        (Some(reg_id(names, list[0]@)), registered(names, list[0]@))
    } else {
        (None, names)
    }
}

// ---------------------------------------------------------------------------
// Pattern chains
// ---------------------------------------------------------------------------

/// `p` under the inline property filter on `var`, when there are properties
/// and a variable to filter.
pub open spec fn filtered(p: SpecPlan, var: Option<Seq<char>>, props: Option<MapLiteral>) -> SpecPlan {
    match props {
        Some(m) => match var {
            Some(v) => match inline_predicate(v, map_view(m@)) {
                Some(pred) => SpecPlan::Filter { source: Box::new(p), predicate: pred },
                None => p,
            },
            None => p,
        },
        None => p,
    }
}

/// The scan a chain starts with (its first node's variable and first label,
/// under the node's inline filter), and the label names after.
pub open spec fn scan_spec(n: NodePattern, labels: Names) -> (SpecPlan, Names) {
    let v = var_or_empty(opt_str(n.variable));
    let (id, after) = first_registered(labels, n.labels@);
    (
        filtered(SpecPlan::NodeScan { variable: v, label_id: id, limit: None }, Some(v), n.properties),
        after,
    )
}

/// The relationship variable an expansion binds: the pattern's own, or an
/// internal one when the relationship has inline properties to filter on.
pub open spec fn rel_var_of(rel: RelationshipPattern) -> Option<Seq<char>> {
    match rel.variable {
        Some(v) => Some(v@),
        None => match rel.properties {
            Some(m) => if m@.len() > 0 {
                Some("_anon_rel"@)
            } else {
                None
            },
            None => None,
        },
    }
}

/// The expansion from `p` along `rel` to `target`: a variable-length one when
/// the relationship has hop bounds (at most the default when unbounded).
pub open spec fn expansion(p: SpecPlan, rel: RelationshipPattern, target: Seq<char>, id: Option<u32>) -> SpecPlan {
    match rel.min_hops {
        Some(min) => SpecPlan::VarLengthExpand {
            source: Box::new(p),
            src_var: src_var_of(p),
            rel_var: rel_var_of(rel),
            target_var: target,
            rel_type_id: id,
            direction: rel.direction,
            min_hops: min,
            max_hops: match rel.max_hops {
                Some(m) => m,
                None => DEFAULT_MAX_HOPS,
            },
            temporal_filter: None,
        },
        None => SpecPlan::Expand {
            source: Box::new(p),
            src_var: src_var_of(p),
            rel_var: rel_var_of(rel),
            target_var: target,
            rel_type_id: id,
            direction: rel.direction,
            temporal_filter: None,
        },
    }
}

/// An expansion goes from the variable of the plan below it to the target,
/// along the relationship's direction and the requested type; it is a
/// variable-length one exactly when the relationship has hop bounds, with
/// those bounds (10 hops at most when no upper bound is written).
pub proof fn lemma_expansion_follows(p: SpecPlan, rel: RelationshipPattern, t: Seq<char>, id: Option<u32>)
    ensures
        match expansion(p, rel, t, id) {
            SpecPlan::Expand { source, src_var, rel_var, target_var, rel_type_id, direction, .. } => {
                &&& rel.min_hops is None
                &&& *source == p && src_var == src_var_of(p) && target_var == t
                &&& rel_var == rel_var_of(rel) && rel_type_id == id && direction == rel.direction
            },
            SpecPlan::VarLengthExpand {
                source,
                src_var,
                rel_var,
                target_var,
                rel_type_id,
                direction,
                min_hops,
                max_hops,
                ..
            } => {
                &&& rel.min_hops == Some(min_hops)
                &&& max_hops == match rel.max_hops {
                    Some(m) => m,
                    None => 10u32,
                }
                &&& *source == p && src_var == src_var_of(p) && target_var == t
                &&& rel_var == rel_var_of(rel) && rel_type_id == id && direction == rel.direction
            },
            _ => false,
        },
{
}

/// One relationship and target node of a chain planned over `p`: the
/// expansion under the relationship's and then the node's inline filters,
/// and the relationship-type names after.
pub open spec fn expand_spec(p: SpecPlan, rel: RelationshipPattern, node: NodePattern, rels: Names) -> (
    SpecPlan,
    Names,
) {
    let t = var_or_empty(opt_str(node.variable));
    let (id, after) = first_registered(rels, rel.rel_types@);
    (filtered(filtered(expansion(p, rel, t, id), rel_var_of(rel), rel.properties), Some(t), node.properties), after)
}

/// The plan after the first `k` relationship steps of chain `e` over
/// `start`, and the relationship-type names after.
pub open spec fn chain_steps(e: Seq<PatternElement>, k: nat, start: SpecPlan, rels: Names) -> (
    SpecPlan,
    Names,
)
    decreases k,
{
    if k == 0 {
        (start, rels)
    } else {
        let prev = chain_steps(e, (k - 1) as nat, start, rels);
        match e[2 * k - 1] {
            PatternElement::Relationship(rel) => match e[2 * k as int] {
                PatternElement::Node(n) => expand_spec(prev.0, rel, n, prev.1),
                _ => prev,
            },
            _ => prev,
        }
    }
}

/// The plan of a well-formed chain, with the label and relationship-type
/// names after.
pub open spec fn chain_spec(e: Seq<PatternElement>, labels: Names, rels: Names) -> (SpecPlan, Names, Names) {
    match e[0] {
        PatternElement::Node(n) => {
            let s = scan_spec(n, labels);
            let c = chain_steps(e, ((e.len() - 1) / 2) as nat, s.0, rels);
            (c.0, s.1, c.1)
        },
        _ => (SpecPlan::EmptySource, labels, rels),
    }
}

/// The first shape error of a chain from position `k` on (a relationship is
/// expected at odd positions, a node after it).
pub open spec fn steps_error(e: Seq<PatternElement>, k: int) -> Option<Seq<char>>
    decreases e.len() - k,
{
    if k >= e.len() || k < 0 {
        None
    } else if !(e[k] is Relationship) {
        Some("expected relationship after node in pattern"@)
    } else if k + 1 >= e.len() || !(e[k + 1] is Node) {
        Some("expected node after relationship in pattern"@)
    } else {
        steps_error(e, k + 2)
    }
}

/// The error planning a chain gives, if it is malformed.
pub open spec fn chain_error(e: Seq<PatternElement>) -> Option<Seq<char>> {
    if e.len() == 0 || !(e[0] is Node) {
        Some("pattern chain must start with a node"@)
    } else {
        steps_error(e, 1)
    }
}

/// The error planning an OPTIONAL MATCH chain gives, if it is malformed.
pub open spec fn optional_chain_error(e: Seq<PatternElement>) -> Option<Seq<char>> {
    if e.len() == 0 || !(e[0] is Node) {
        Some("OPTIONAL MATCH pattern must start with a node"@)
    } else {
        steps_error(e, 1)
    }
}

/// One relationship and target node of an OPTIONAL MATCH chain over `p`
/// (left-join semantics), and the relationship-type names after.
pub open spec fn optional_step(p: SpecPlan, rel: RelationshipPattern, node: NodePattern, rels: Names) -> (
    SpecPlan,
    Names,
) {
    let (id, after) = first_registered(rels, rel.rel_types@);
    (
        SpecPlan::OptionalExpand {
            source: Box::new(p),
            src_var: src_var_of(p),
            rel_var: opt_str(rel.variable),
            target_var: var_or_empty(opt_str(node.variable)),
            rel_type_id: id,
            direction: rel.direction,
        },
        after,
    )
}

/// The plan after the first `k` steps of an OPTIONAL MATCH chain over `base`.
pub open spec fn optional_steps(e: Seq<PatternElement>, k: nat, base: SpecPlan, rels: Names) -> (
    SpecPlan,
    Names,
)
    decreases k,
{
    if k == 0 {
        (base, rels)
    } else {
        let prev = optional_steps(e, (k - 1) as nat, base, rels);
        match e[2 * k - 1] {
            PatternElement::Relationship(rel) => match e[2 * k as int] {
                PatternElement::Node(n) => optional_step(prev.0, rel, n, prev.1),
                _ => prev,
            },
            _ => prev,
        }
    }
}

// ---------------------------------------------------------------------------
// Clauses
// ---------------------------------------------------------------------------

/// `p` under the WHERE filter, if any.
pub open spec fn with_where(p: SpecPlan, w: Option<Expression>) -> SpecPlan {
    match w {
        Some(e) => SpecPlan::Filter { source: Box::new(p), predicate: e@ },
        None => p,
    }
}

/// The temporal filter a MATCH clause's predicate sets on expansions.
pub open spec fn temporal_of(tp: TemporalPredicate) -> SpecTemporal {
    match tp {
        TemporalPredicate::AsOf(e) => SpecTemporal::AsOf(e@),
        TemporalPredicate::Between(a, b) => SpecTemporal::Between(a@, b@),
    }
}

/// `p` with its expansions filtered in time and under the temporal scan,
/// for a MATCH clause with a temporal predicate.
pub open spec fn temporal_layer(p: SpecPlan, tp: Option<TemporalPredicate>) -> SpecPlan {
    match tp {
        None => p,
        Some(t) => match t {
            TemporalPredicate::AsOf(e) => SpecPlan::AsOfScan {
                source: Box::new(annotated(p, temporal_of(t))),
                timestamp_expr: e@,
            },
            TemporalPredicate::Between(a, b) => SpecPlan::TemporalRangeScan {
                source: Box::new(annotated(p, temporal_of(t))),
                start_expr: a@,
                end_expr: b@,
            },
        },
    }
}

/// A plan result: the plan and the label and relationship-type names after,
/// or an error message.
pub type Planned = Result<(SpecPlan, Names, Names), Seq<char>>;

/// Planning a MATCH clause. A plain MATCH plans its first chain (an earlier
/// plan is replaced), then the temporal predicate, then the WHERE filter. An
/// OPTIONAL MATCH extends the earlier plan with its first chain, then
/// applies the WHERE filter.
pub open spec fn match_plan(mc: MatchClause, current: Option<SpecPlan>, labels: Names, rels: Names) -> Planned {
    if mc.optional {
        match current {
            None => Err("OPTIONAL MATCH requires a preceding MATCH clause"@),
            Some(base) => if mc.pattern.chains@.len() == 0 {
                Err("OPTIONAL MATCH clause has no pattern chains"@)
            } else {
                let e = mc.pattern.chains@[0].elements@;
                match optional_chain_error(e) {
                    Some(m) => Err(m),
                    None => {
                        let o = optional_steps(e, ((e.len() - 1) / 2) as nat, base, rels);
                        Ok((with_where(o.0, mc.where_clause), labels, o.1))
                    },
                }
            },
        }
    } else if mc.pattern.chains@.len() == 0 {
        Err("MATCH clause has no pattern chains"@)
    } else {
        let e = mc.pattern.chains@[0].elements@;
        match chain_error(e) {
            Some(m) => Err(m),
            None => {
                let c = chain_spec(e, labels, rels);
                Ok((with_where(temporal_layer(c.0, mc.temporal_predicate), mc.where_clause), c.1, c.2))
            },
        }
    }
}

/// The error of a clause that needs the rows of the clauses before it.
pub open spec fn needs_source_message(clause_name: Seq<char>) -> Seq<char> {
    clause_name + " clause requires a preceding data source"@
}

/// The error an aggregate expression that cannot be computed gives.
pub open spec fn unsupported_message(e: SpecExpr) -> Seq<char> {
    match e {
        SpecExpr::FunctionCall { name, .. } => "unsupported aggregate function: "@ + lower_seq(name),
        _ => "not an aggregate expression"@,
    }
}

/// The error of the first item that aggregates with an unsupported function.
pub open spec fn agg_failure(items: Seq<SpecReturnItem>) -> Option<Seq<char>>
    decreases items.len(),
{
    if items.len() == 0 {
        None
    } else {
        match agg_failure(items.drop_last()) {
            Some(m) => Some(m),
            None => if is_agg(items.last().expr) && agg_func(items.last().expr) is None {
                Some(unsupported_message(items.last().expr))
            } else {
                None
            },
        }
    }
}

/// Items aggregate successfully exactly when no item fails.
pub proof fn lemma_agg_failure(items: Seq<SpecReturnItem>)
    ensures
        aggregates_of(items) is None <==> agg_failure(items) is Some,
    decreases items.len(),
{
    if items.len() > 0 {
        lemma_agg_failure(items.drop_last());
    }
}

/// Planning one clause over the plan of the clauses before it, if any.
#[verifier::opaque]
pub open spec fn clause_plan(clause: Clause, current: Option<SpecPlan>, labels: Names, rels: Names) -> Planned {
    match clause {
        Clause::Match(mc) => match_plan(mc, current, labels, rels),
        Clause::Return(rc) => match current {
            None => Err(needs_source_message("RETURN"@)),
            Some(c) => {
                let items = ret_items_view(rc.items@);
                match projection_of(items, rc.distinct, c) {
                    Some(p) => Ok(
                        (
                            wrap_return(p, opt_order(rc.order_by), opt_expr(rc.skip), opt_expr(rc.limit)),
                            labels,
                            rels,
                        ),
                    ),
                    None => Err(agg_failure(items)->0),
                }
            },
        },
        Clause::With(wc) => match current {
            None => Err(needs_source_message("WITH"@)),
            Some(c) => {
                let items = ret_items_view(wc.items@);
                if has_agg(items) {
                    match aggregates_of(items) {
                        Some(a) => Ok(
                            (
                                with_where(
                                    SpecPlan::Aggregate {
                                        source: Box::new(c),
                                        group_keys: group_keys_of(items),
                                        aggregates: a,
                                    },
                                    wc.where_clause,
                                ),
                                labels,
                                rels,
                            ),
                        ),
                        None => Err(agg_failure(items)->0),
                    }
                } else {
                    Ok(
                        (
                            SpecPlan::With {
                                source: Box::new(c),
                                items,
                                where_clause: opt_expr(wc.where_clause),
                                distinct: wc.distinct,
                            },
                            labels,
                            rels,
                        ),
                    )
                }
            },
        },
        Clause::Create(cc) => Ok(
            (
                SpecPlan::CreateOp {
                    source: match current {
                        Some(c) => Some(Box::new(c)),
                        None => None,
                    },
                    pattern: cc.pattern@,
                },
                labels,
                rels,
            ),
        ),
        Clause::Merge(mc) => Ok(
            (
                SpecPlan::MergeOp {
                    source: match current {
                        Some(c) => Some(Box::new(c)),
                        None => None,
                    },
                    pattern: mc.pattern@,
                    on_match: set_items_view(mc.on_match@),
                    on_create: set_items_view(mc.on_create@),
                },
                labels,
                rels,
            ),
        ),
        Clause::SetProperties(sc) => match current {
            None => Err(needs_source_message("SET"@)),
            Some(c) => Ok(
                (SpecPlan::SetOp { source: Box::new(c), items: set_items_view(sc.items@) }, labels, rels),
            ),
        },
        Clause::Delete(dc) => match current {
            None => Err(needs_source_message("DELETE"@)),
            Some(c) => Ok(
                (
                    SpecPlan::DeleteOp {
                        source: Box::new(c),
                        exprs: exprs_view(dc.exprs@),
                        detach: dc.detach,
                    },
                    labels,
                    rels,
                ),
            ),
        },
        Clause::Remove(rc) => match current {
            None => Err(needs_source_message("REMOVE"@)),
            Some(c) => Ok(
                (SpecPlan::RemoveOp { source: Box::new(c), items: remove_items_view(rc.items@) }, labels, rels),
            ),
        },
        Clause::Unwind(uc) => Ok(
            (
                SpecPlan::Unwind {
                    source: Box::new(
                        match current {
                            Some(c) => c,
                            None => SpecPlan::EmptySource,
                        },
                    ),
                    expr: uc.expr@,
                    variable: uc.variable@,
                },
                labels,
                rels,
            ),
        ),
        Clause::CreateIndex(ci) => Ok(
            (
                match ci.target {
                    IndexTarget::NodeLabel(l) => SpecPlan::CreateIndex {
                        name: opt_str(ci.name),
                        label: l@,
                        property: ci.property@,
                    },
                    IndexTarget::RelationshipType(t) => SpecPlan::CreateEdgeIndex {
                        name: opt_str(ci.name),
                        rel_type: t@,
                        property: ci.property@,
                    },
                },
                labels,
                rels,
            ),
        ),
        Clause::DropIndex(di) => Ok((SpecPlan::DropIndex { name: di.name@ }, labels, rels)),
    }
}

/// Planning the first `k` clauses of a query, each over the plan of the
/// ones before it; the first error stops planning.
pub open spec fn plan_spec(clauses: Seq<Clause>, k: nat, labels: Names, rels: Names) -> Planned
    decreases k,
{
    if k == 0 {
        Err("empty query produces no plan"@)
    } else if k == 1 {
        clause_plan(clauses[0], None, labels, rels)
    } else {
        match plan_spec(clauses, (k - 1) as nat, labels, rels) {
            Ok((p, l, r)) => clause_plan(clauses[k - 1], Some(p), l, r),
            Err(m) => Err(m),
        }
    }
}

/// Once planning a prefix of the clauses fails, planning any longer prefix
/// fails with the same message.
pub proof fn lemma_plan_error_sticks(clauses: Seq<Clause>, k: nat, j: nat, labels: Names, rels: Names)
    requires
        1 <= k <= j,
        plan_spec(clauses, k, labels, rels) is Err,
    ensures
        plan_spec(clauses, j, labels, rels) == plan_spec(clauses, k, labels, rels),
    decreases j - k,
{
    if k < j {
        lemma_plan_error_sticks(clauses, k, (j - 1) as nat, labels, rels);
    }
}

} // verus!
