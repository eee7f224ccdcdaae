//! The logical planner proper: clause by clause, from a parsed query to a plan tree.

use vstd::prelude::*;
use crate::parser::ast::{
    clone_expr, clone_exprs, clone_opt_expr, clone_opt_string, clone_vec, exprs_view,
    lemma_exprs_view, map_view, opt_expr, opt_str, BinaryOp, Clause, CreateClause, DeepClone,
    DeleteClause, Expression, IndexTarget, MatchClause, MergeClause, PatternChain,
    PatternElement, Query, RemoveClause, ReturnClause, ReturnItem, SetClause, SpecExpr,
    SpecReturnItem, TemporalPredicate, UnwindClause, WithClause, expr_view,
};
use crate::text::{char_to_string, owned};
use super::catalog::Catalog;
use super::semantics::{
    agg_failure, chain_error, chain_spec, chain_steps, clause_plan, expand_spec, expansion,
    filtered, first_registered, lemma_agg_failure, lemma_plan_error_sticks, match_plan,
    needs_source_message, optional_chain_error, optional_step, optional_steps, plan_spec,
    rel_var_of, scan_spec, steps_error, temporal_layer, temporal_of, unsupported_message,
    with_where, Planned,
};
use super::{
    aggregates_of, agg_func, agg_name, annotate_temporal_filter, annotated, clause_elements,
    extends, group_keys_of, has_agg, has_room, inline_predicate, is_agg, lemma_annotated,
    match_elements, opt_box_plan, opt_order, opt_plan, order_items_view, projection_of, remove_items_view,
    ret_items_view, set_items_view, src_var_of, var_or_empty, wrap_return, AggregateFunc,
    LogicalPlan, PlanError, SpecPlan, TemporalFilterPlan, DEFAULT_MAX_HOPS, prop_eq,
};

verus! {

/// `r` is what `expected` says planning gives, with catalog `c` after.
pub open spec fn planned_as(r: Result<LogicalPlan, PlanError>, expected: Planned, c: Catalog) -> bool {
    match expected {
        Ok((p, labels, rels)) => r matches Ok(x) && x@ == p && c.label_names() == labels
            && c.rel_type_names() == rels,
        Err(m) => r matches Err(e) && e.message@ == m,
    }
}

/// Names registered by planning stay within `n` new names of each kind.
pub open spec fn grew_by_at_most(before: Catalog, after: Catalog, n: nat) -> bool {
    &&& extends(before, after)
    &&& after.label_names().len() <= before.label_names().len() + n
    &&& after.rel_type_names().len() <= before.rel_type_names().len() + n
}

/// A catalog has grown by at most any bound over itself.
proof fn lemma_grew_refl(c: Catalog)
    ensures
        forall|n: nat| #[trigger] grew_by_at_most(c, c, n),
{
    assert(c.label_names().subrange(0, c.label_names().len() as int) =~= c.label_names());
    assert(c.rel_type_names().subrange(0, c.rel_type_names().len() as int) =~= c.rel_type_names());
}

/// One lookup-or-register call grows a catalog by at most one name.
proof fn lemma_grew_step(b: Catalog, c: Catalog, name: Seq<char>)
    requires
        c.label_names() == b.label_names() || c.label_names() == b.label_names().push(name),
        c.rel_type_names() == b.rel_type_names() || c.rel_type_names() == b.rel_type_names().push(
            name,
        ),
    ensures
        grew_by_at_most(b, c, 1),
{
    assert(b.label_names().push(name).subrange(0, b.label_names().len() as int) =~= b.label_names());
    assert(b.label_names().subrange(0, b.label_names().len() as int) =~= b.label_names());
    assert(b.rel_type_names().push(name).subrange(0, b.rel_type_names().len() as int)
        =~= b.rel_type_names());
    assert(b.rel_type_names().subrange(0, b.rel_type_names().len() as int) =~= b.rel_type_names());
}

/// Growth bounds add up along two planning steps.
proof fn lemma_grew_trans(a: Catalog, b: Catalog, c: Catalog, n: nat, m: nat, k: nat)
    requires
        grew_by_at_most(a, b, n),
        grew_by_at_most(b, c, m),
        n + m <= k,
    ensures
        grew_by_at_most(a, c, k),
{
    assert(c.label_names().subrange(0, a.label_names().len() as int) =~= c.label_names().subrange(
        0,
        b.label_names().len() as int,
    ).subrange(0, a.label_names().len() as int));
    assert(c.rel_type_names().subrange(0, a.rel_type_names().len() as int)
        =~= c.rel_type_names().subrange(0, b.rel_type_names().len() as int).subrange(
        0,
        a.rel_type_names().len() as int,
    ));
}

/// Logical planner that converts a parsed query into a plan tree, registering
/// label and relationship-type names in its catalog.
pub struct LogicalPlanner {
    registry: Catalog,
}

/// A `String` holding the characters of `v`.
fn string_of_chars(v: &Vec<char>) -> (r: String)
    ensures
        r@ == v@,
{
    let mut s = String::new();
    let mut i: usize = 0;
    while i < v.len()
        invariant
            i <= v.len(),
            s@ == v@.subrange(0, i as int),
        decreases v.len() - i,
    {
        s.append(char_to_string(v[i]).as_str());
        i = i + 1;
        assert(s@ =~= v@.subrange(0, i as int));
    }
    assert(v@.subrange(0, v@.len() as int) =~= v@);
    s
}

/// Error for a clause that needs rows from the clauses before it.
fn needs_source(clause_name: &str) -> (e: PlanError)
    ensures
        e.message@ == needs_source_message(clause_name@),
{
    let mut m = owned(clause_name);
    m.append(" clause requires a preceding data source");
    PlanError { message: m }
}

impl LogicalPlanner {
    /// The catalog the planner registers names in.
    pub closed spec fn catalog(&self) -> Catalog {
        self.registry
    }

    /// A planner registering names in `registry`.
    pub fn new(registry: Catalog) -> (p: Self)
        ensures
            p.catalog() == registry,
    {
        LogicalPlanner { registry }
    }

    /// The catalog of registered names.
    pub fn registry(&self) -> (c: &Catalog)
        ensures
            *c == self.catalog(),
    {
        &self.registry
    }

    /// Gives the catalog back.
    pub fn into_registry(self) -> (c: Catalog)
        ensures
            c == self.catalog(),
    {
        self.registry
    }

    /// Converts a parsed query into a plan, clause by clause, each clause
    /// planned on top of the plan of the clauses before it; the first error
    /// stops planning.
    pub fn plan(&mut self, query: &Query) -> (r: Result<LogicalPlan, PlanError>)
        requires
            has_room(old(self).catalog(), match_elements(query.clauses@)),
        ensures
            planned_as(
                r,
                plan_spec(
                    query.clauses@,
                    query.clauses@.len(),
                    old(self).catalog().label_names(),
                    old(self).catalog().rel_type_names(),
                ),
                final(self).catalog(),
            ),
            grew_by_at_most(old(self).catalog(), final(self).catalog(), match_elements(query.clauses@)),
            query.clauses@.len() > 0 && (query.clauses@[0] matches Clause::Match(mc) && mc.optional)
                ==> final(self).catalog() == old(self).catalog(),
    {
        let mut current: Option<LogicalPlan> = None;
        let mut i: usize = 0;
        let ghost start = self.catalog();
        let ghost labels0 = start.label_names();
        let ghost rels0 = start.rel_type_names();
        proof {
            lemma_grew_refl(start);
        }
        assert(query.clauses@.skip(0) =~= query.clauses@);
        while i < query.clauses.len()
            invariant
                i <= query.clauses@.len(),
                current is Some <==> i > 0,
                i == 0 ==> self.catalog() == start,
                i > 0 ==> plan_spec(query.clauses@, i as nat, labels0, rels0) == Ok::<
                    (SpecPlan, Seq<Seq<char>>, Seq<Seq<char>>),
                    Seq<char>,
                >((current->0@, self.catalog().label_names(), self.catalog().rel_type_names())),
                has_room(self.catalog(), match_elements(query.clauses@.skip(i as int))),
                grew_by_at_most(
                    start,
                    self.catalog(),
                    (match_elements(query.clauses@) - match_elements(query.clauses@.skip(i as int))) as nat,
                ),
                match_elements(query.clauses@.skip(i as int)) <= match_elements(query.clauses@),
                start == old(self).catalog(),
                labels0 == start.label_names(),
                rels0 == start.rel_type_names(),
                query.clauses@.len() > 0 && (query.clauses@[0] matches Clause::Match(mc)
                    && mc.optional) ==> i == 0,
            decreases query.clauses@.len() - i,
        {
            let ghost before = self.catalog();
            let ghost cur = opt_plan(current);
            proof {
                let rest = query.clauses@.skip(i as int);
                assert(rest.skip(1) =~= query.clauses@.skip(i + 1));
                assert(rest[0] == query.clauses@[i as int]);
            }
            let p = match self.plan_clause(&query.clauses[i], current) {
                Ok(p) => p,
                Err(e) => {
                    proof {
                        lemma_grew_trans(
                            start,
                            before,
                            self.catalog(),
                            (match_elements(query.clauses@) - match_elements(
                                query.clauses@.skip(i as int),
                            )) as nat,
                            clause_elements(query.clauses@[i as int]),
                            match_elements(query.clauses@),
                        );
                        assert(plan_spec(query.clauses@, (i + 1) as nat, labels0, rels0) == clause_plan(
                            query.clauses@[i as int],
                            cur,
                            before.label_names(),
                            before.rel_type_names(),
                        ));
                        lemma_plan_error_sticks(
                            query.clauses@,
                            (i + 1) as nat,
                            query.clauses@.len(),
                            labels0,
                            rels0,
                        );
                    }
                    return Err(e);
                },
            };
            proof {
                lemma_grew_trans(
                    start,
                    before,
                    self.catalog(),
                    (match_elements(query.clauses@) - match_elements(query.clauses@.skip(i as int))) as nat,
                    clause_elements(query.clauses@[i as int]),
                    (match_elements(query.clauses@) - match_elements(query.clauses@.skip(i + 1))) as nat,
                );
                assert(plan_spec(query.clauses@, (i + 1) as nat, labels0, rels0) == clause_plan(
                    query.clauses@[i as int],
                    cur,
                    before.label_names(),
                    before.rel_type_names(),
                ));
            }
            current = Some(p);
            i = i + 1;
        }
        assert(query.clauses@.skip(i as int) =~= Seq::<Clause>::empty());
        match current {
            Some(p) => Ok(p),
            None => {
                proof {
                    reveal_strlit("empty query produces no plan");
                }
                Err(PlanError { message: owned("empty query produces no plan") })
            },
        }
    }

    /// Plans one clause on top of `current`.
    pub fn plan_clause(&mut self, clause: &Clause, current: Option<LogicalPlan>) -> (r: Result<
        LogicalPlan,
        PlanError,
    >)
        requires
            has_room(old(self).catalog(), clause_elements(*clause)),
        ensures
            planned_as(
                r,
                clause_plan(
                    *clause,
                    opt_plan(current),
                    old(self).catalog().label_names(),
                    old(self).catalog().rel_type_names(),
                ),
                final(self).catalog(),
            ),
            grew_by_at_most(old(self).catalog(), final(self).catalog(), clause_elements(*clause)),
            current is None && (*clause matches Clause::Match(mc) && mc.optional) ==> r is Err
                && final(self).catalog() == old(self).catalog(),
    {
        reveal(clause_plan);
        proof {
            lemma_grew_refl(self.catalog());
        }
        match clause {
            Clause::Match(mc) => self.plan_match(mc, current),
            Clause::Return(rc) => self.plan_return(rc, current),
            Clause::Create(cc) => Ok(self.plan_create(cc, current)),
            Clause::SetProperties(sc) => self.plan_set(sc, current),
            Clause::Delete(dc) => self.plan_delete(dc, current),
            Clause::Remove(rc) => self.plan_remove(rc, current),
            Clause::With(wc) => self.plan_with(wc, current),
            Clause::Unwind(uc) => self.plan_unwind(uc, current),
            Clause::Merge(mc) => Ok(self.plan_merge(mc, current)),
            Clause::CreateIndex(ci) => match &ci.target {
                IndexTarget::NodeLabel(label) => Ok(
                    LogicalPlan::CreateIndex {
                        name: clone_opt_string(&ci.name),
                        label: label.clone(),
                        property: ci.property.clone(),
                    },
                ),
                IndexTarget::RelationshipType(rel_type) => Ok(
                    LogicalPlan::CreateEdgeIndex {
                        name: clone_opt_string(&ci.name),
                        rel_type: rel_type.clone(),
                        property: ci.property.clone(),
                    },
                ),
            },
            Clause::DropIndex(di) => Ok(LogicalPlan::DropIndex { name: di.name.clone() }),
        }
    }

    /// Plans a MATCH clause: the first pattern chain (any earlier plan is
    /// replaced), the temporal predicate, then the WHERE filter; an OPTIONAL
    /// MATCH extends the earlier plan instead.
    fn plan_match(&mut self, mc: &MatchClause, current: Option<LogicalPlan>) -> (r: Result<
        LogicalPlan,
        PlanError,
    >)
        requires
            has_room(old(self).catalog(), clause_elements(Clause::Match(*mc))),
        ensures
            planned_as(
                r,
                match_plan(
                    *mc,
                    opt_plan(current),
                    old(self).catalog().label_names(),
                    old(self).catalog().rel_type_names(),
                ),
                final(self).catalog(),
            ),
            grew_by_at_most(
                old(self).catalog(),
                final(self).catalog(),
                clause_elements(Clause::Match(*mc)),
            ),
            mc.optional && current is None ==> r is Err && final(self).catalog() == old(
                self,
            ).catalog(),
    {
        proof {
            lemma_grew_refl(self.catalog());
        }
        if mc.optional {
            return self.plan_optional_match(mc, current);
        }
        if mc.pattern.chains.len() == 0 {
            return Err(PlanError { message: owned("MATCH clause has no pattern chains") });
        }
        let chain = &mc.pattern.chains[0];
        let mut plan = match self.plan_pattern_chain(chain) {
            Ok(p) => p,
            Err(e) => return Err(e),
        };
        let ghost core = plan@;
        match &mc.temporal_predicate {
            Some(tp) => {
                let tfp = match tp {
                    TemporalPredicate::AsOf(e) => TemporalFilterPlan::AsOf(clone_expr(e)),
                    TemporalPredicate::Between(a, b) => TemporalFilterPlan::Between(
                        clone_expr(a),
                        clone_expr(b),
                    ),
                };
                assert(tfp@ == temporal_of(*tp));
                plan = annotate_temporal_filter(plan, &tfp);
                let ghost q = plan@;
                match tp {
                    TemporalPredicate::AsOf(e) => {
                        plan = LogicalPlan::AsOfScan { source: Box::new(plan), timestamp_expr: clone_expr(e) };
                        assert(plan@ == (SpecPlan::AsOfScan { source: Box::new(q), timestamp_expr: e@ }));
                    },
                    TemporalPredicate::Between(a, b) => {
                        plan = LogicalPlan::TemporalRangeScan {
                            source: Box::new(plan),
                            start_expr: clone_expr(a),
                            end_expr: clone_expr(b),
                        };
                        assert(plan@ == (SpecPlan::TemporalRangeScan {
                            source: Box::new(q),
                            start_expr: a@,
                            end_expr: b@,
                        }));
                    },
                }
            },
            None => {},
        }
        assert(plan@ == temporal_layer(core, mc.temporal_predicate));
        let ghost layered = plan@;
        match &mc.where_clause {
            Some(w) => {
                plan = LogicalPlan::Filter { source: Box::new(plan), predicate: clone_expr(w) };
                assert(plan@ == (SpecPlan::Filter { source: Box::new(layered), predicate: w@ }));
            },
            None => {},
        }
        Ok(plan)
    }

    /// Plans an OPTIONAL MATCH clause: each relationship and target node of
    /// the first chain becomes an OptionalExpand over the earlier plan (left
    /// join semantics), then the WHERE filter applies.
    fn plan_optional_match(&mut self, mc: &MatchClause, current: Option<LogicalPlan>) -> (r: Result<
        LogicalPlan,
        PlanError,
    >)
        requires
            mc.optional,
            has_room(old(self).catalog(), clause_elements(Clause::Match(*mc))),
        ensures
            planned_as(
                r,
                match_plan(
                    *mc,
                    opt_plan(current),
                    old(self).catalog().label_names(),
                    old(self).catalog().rel_type_names(),
                ),
                final(self).catalog(),
            ),
            grew_by_at_most(
                old(self).catalog(),
                final(self).catalog(),
                clause_elements(Clause::Match(*mc)),
            ),
            current is None ==> r is Err && final(self).catalog() == old(self).catalog(),
    {
        proof {
            lemma_grew_refl(self.catalog());
        }
        let source = match current {
            Some(s) => s,
            None => {
                return Err(
                    PlanError { message: owned("OPTIONAL MATCH requires a preceding MATCH clause") },
                )
            },
        };
        let ghost base = source@;
        if mc.pattern.chains.len() == 0 {
            return Err(PlanError { message: owned("OPTIONAL MATCH clause has no pattern chains") });
        }
        let chain = &mc.pattern.chains[0];
        let elements = &chain.elements;
        let n = elements.len();
        if n == 0 {
            return Err(PlanError { message: owned("OPTIONAL MATCH pattern must start with a node") });
        }
        match &elements[0] {
            PatternElement::Node(_) => {},
            _ => {
                return Err(
                    PlanError { message: owned("OPTIONAL MATCH pattern must start with a node") },
                )
            },
        }
        let ghost start = self.catalog();
        let ghost rels0 = start.rel_type_names();
        let mut plan = source;
        let mut i: usize = 1;
        while i < n
            invariant
                n == elements@.len(),
                elements == &mc.pattern.chains@[0].elements,
                mc.pattern.chains@.len() > 0,
                mc.optional,
                opt_plan(current) == Some(base),
                1 <= i <= n,
                i % 2 == 1,
                elements@[0] is Node,
                steps_error(elements@, 1) == steps_error(elements@, i as int),
                (plan@, self.catalog().rel_type_names()) == optional_steps(
                    elements@,
                    ((i - 1) / 2) as nat,
                    base,
                    rels0,
                ),
                self.catalog().label_names() == start.label_names(),
                grew_by_at_most(start, self.catalog(), (i - 1) as nat),
                start == old(self).catalog(),
                rels0 == start.rel_type_names(),
                has_room(start, n as nat),
            decreases n - i,
        {
            let rel = match &elements[i] {
                PatternElement::Relationship(rp) => rp,
                _ => {
                    return Err(
                        PlanError { message: owned("expected relationship after node in pattern") },
                    )
                },
            };
            if i + 1 >= n {
                return Err(PlanError { message: owned("expected node after relationship in pattern") });
            }
            let target_node = match &elements[i + 1] {
                PatternElement::Node(np) => np,
                _ => {
                    return Err(
                        PlanError { message: owned("expected node after relationship in pattern") },
                    )
                },
            };
            let ghost prev = plan@;
            let ghost prev_rels = self.catalog().rel_type_names();
            let src_var = Self::extract_src_var(&plan);
            let rel_var = clone_opt_string(&rel.variable);
            let target_var = match &target_node.variable {
                Some(v) => v.clone(),
                None => String::new(),
            };
            let ghost before = self.catalog();
            let rel_type_id = if rel.rel_types.len() > 0 {
                let id = self.registry.get_or_create_rel_type(rel.rel_types[0].as_str());
                proof {
                    lemma_grew_step(before, self.catalog(), rel.rel_types@[0]@);
                }
                Some(id)
            } else {
                None
            };
            assert((rel_type_id, self.catalog().rel_type_names()) == first_registered(
                prev_rels,
                rel.rel_types@,
            ));
            proof {
                lemma_grew_refl(before);
                lemma_grew_trans(start, before, self.catalog(), (i - 1) as nat, 1, (i + 1) as nat);
            }
            plan = LogicalPlan::OptionalExpand {
                source: Box::new(plan),
                src_var,
                rel_var,
                target_var,
                rel_type_id,
                direction: rel.direction,
            };
            proof {
                assert(elements@[i as int] == PatternElement::Relationship(*rel));
                assert(elements@[i + 1] == PatternElement::Node(*target_node));
                assert((plan@, self.catalog().rel_type_names()) == optional_step(
                    prev,
                    *rel,
                    *target_node,
                    prev_rels,
                ));
                assert(((i + 2 - 1) / 2) as nat == (((i - 1) / 2) + 1) as nat);
            }
            i = i + 2;
        }
        let ghost core = plan@;
        match &mc.where_clause {
            Some(w) => {
                plan = LogicalPlan::Filter { source: Box::new(plan), predicate: clone_expr(w) };
                assert(plan@ == (SpecPlan::Filter { source: Box::new(core), predicate: w@ }));
            },
            None => {},
        }
        Ok(plan)
    }

    /// Builds the conjunction `var.k1 = v1 AND var.k2 = v2 ...` of inline
    /// property filters; `None` for no properties.
    fn build_inline_property_predicate(variable: &str, properties: &Vec<(String, Expression)>) -> (r:
        Option<Expression>)
        ensures
            opt_expr(r) == inline_predicate(variable@, map_view(properties@)),
    {
        let ghost m = map_view(properties@);
        let mut acc: Option<Expression> = None;
        let mut i: usize = 0;
        while i < properties.len()
            invariant
                i <= properties.len(),
                m == map_view(properties@),
                opt_expr(acc) == inline_predicate(variable@, m.subrange(0, i as int)),
            decreases properties.len() - i,
        {
            let key = properties[i].0.clone();
            let val = clone_expr(&properties[i].1);
            let eq = Expression::BinaryOp(
                BinaryOp::Eq,
                Box::new(Expression::Property(Box::new(Expression::Variable(owned(variable))), key)),
                Box::new(val),
            );
            proof {
                reveal_with_fuel(expr_view, 3);
                assert(eq@ == prop_eq(variable@, m[i as int]));
                assert(m.subrange(0, i + 1).drop_last() =~= m.subrange(0, i as int));
            }
            acc = match acc {
                Some(a) => Some(Expression::BinaryOp(BinaryOp::And, Box::new(a), Box::new(eq))),
                None => Some(eq),
            };
            i = i + 1;
        }
        proof {
            assert(m.subrange(0, m.len() as int) =~= m);
        }
        acc
    }

    /// Plans a pattern chain: a scan of the first node (with its label and
    /// inline properties), then an expansion per relationship and target node.
    fn plan_pattern_chain(&mut self, chain: &PatternChain) -> (r: Result<LogicalPlan, PlanError>)
        requires
            has_room(old(self).catalog(), chain.elements@.len()),
        ensures
            grew_by_at_most(old(self).catalog(), final(self).catalog(), chain.elements@.len()),
            match chain_error(chain.elements@) {
                Some(m) => r matches Err(e) && e.message@ == m,
                None => r matches Ok(p) && (
                    p@,
                    final(self).catalog().label_names(),
                    final(self).catalog().rel_type_names(),
                ) == chain_spec(
                    chain.elements@,
                    old(self).catalog().label_names(),
                    old(self).catalog().rel_type_names(),
                ),
            },
    {
        proof {
            lemma_grew_refl(self.catalog());
        }
        let elements = &chain.elements;
        let n = elements.len();
        if n == 0 {
            return Err(PlanError { message: owned("pattern chain must start with a node") });
        }
        let first_node = match &elements[0] {
            PatternElement::Node(np) => np,
            _ => return Err(PlanError { message: owned("pattern chain must start with a node") }),
        };
        let variable = match &first_node.variable {
            Some(v) => v.clone(),
            None => String::new(),
        };
        assert(variable@ == var_or_empty(opt_str(first_node.variable)));
        let ghost start = old(self).catalog();
        let ghost rels0 = start.rel_type_names();
        let label_id = if first_node.labels.len() > 0 {
            let id = self.registry.get_or_create_label(first_node.labels[0].as_str());
            proof {
                lemma_grew_step(start, self.catalog(), first_node.labels@[0]@);
            }
            Some(id)
        } else {
            None
        };
        assert((label_id, self.catalog().label_names()) == first_registered(
            start.label_names(),
            first_node.labels@,
        ));
        let ghost after_label = self.catalog();
        proof {
            lemma_grew_refl(after_label);
        }
        let mut plan = LogicalPlan::NodeScan { variable: variable.clone(), label_id, limit: None };
        let ghost scan = plan@;
        match &first_node.properties {
            Some(props) => match Self::build_inline_property_predicate(variable.as_str(), props) {
                Some(pred) => {
                    plan = LogicalPlan::Filter { source: Box::new(plan), predicate: pred };
                    assert(plan@ == (SpecPlan::Filter { source: Box::new(scan), predicate: pred@ }));
                },
                None => {},
            },
            None => {},
        }
        let ghost start_plan = plan@;
        assert((start_plan, after_label.label_names()) == scan_spec(*first_node, start.label_names()));
        let mut i: usize = 1;
        while i < n
            invariant
                n == elements@.len(),
                elements == &chain.elements,
                1 <= i <= n,
                i % 2 == 1,
                elements@[0] == PatternElement::Node(*first_node),
                steps_error(elements@, 1) == steps_error(elements@, i as int),
                (plan@, self.catalog().rel_type_names()) == chain_steps(
                    elements@,
                    ((i - 1) / 2) as nat,
                    start_plan,
                    rels0,
                ),
                (start_plan, after_label.label_names()) == scan_spec(*first_node, start.label_names()),
                self.catalog().label_names() == after_label.label_names(),
                grew_by_at_most(start, self.catalog(), i as nat),
                start == old(self).catalog(),
                rels0 == start.rel_type_names(),
                rels0 == after_label.rel_type_names(),
                has_room(start, n as nat),
            decreases n - i,
        {
            let rel = match &elements[i] {
                PatternElement::Relationship(rp) => rp,
                _ => {
                    return Err(
                        PlanError { message: owned("expected relationship after node in pattern") },
                    )
                },
            };
            if i + 1 >= n {
                return Err(PlanError { message: owned("expected node after relationship in pattern") });
            }
            let target_node = match &elements[i + 1] {
                PatternElement::Node(np) => np,
                _ => {
                    return Err(
                        PlanError { message: owned("expected node after relationship in pattern") },
                    )
                },
            };
            let ghost prev = plan@;
            let ghost prev_rels = self.catalog().rel_type_names();
            let src_var = Self::extract_src_var(&plan);
            let target_var = match &target_node.variable {
                Some(v) => v.clone(),
                None => String::new(),
            };
            assert(target_var@ == var_or_empty(opt_str(target_node.variable)));
            let ghost before = self.catalog();
            let rel_type_id = if rel.rel_types.len() > 0 {
                let id = self.registry.get_or_create_rel_type(rel.rel_types[0].as_str());
                proof {
                    lemma_grew_step(before, self.catalog(), rel.rel_types@[0]@);
                }
                Some(id)
            } else {
                None
            };
            assert((rel_type_id, self.catalog().rel_type_names()) == first_registered(
                prev_rels,
                rel.rel_types@,
            ));
            proof {
                lemma_grew_refl(before);
                lemma_grew_trans(start, before, self.catalog(), i as nat, 1, (i + 2) as nat);
            }
            let has_rel_props = match &rel.properties {
                Some(p) => p.len() > 0,
                None => false,
            };
            let rel_var = match &rel.variable {
                Some(v) => Some(v.clone()),
                None => if has_rel_props {
                    Some(owned("_anon_rel"))
                } else {
                    None
                },
            };
            assert(opt_str(rel_var) == rel_var_of(*rel));
            if rel.min_hops.is_some() {
                let min = match rel.min_hops {
                    Some(m) => m,
                    None => 1,
                };
                let max = match rel.max_hops {
                    Some(m) => m,
                    None => DEFAULT_MAX_HOPS,
                };
                plan = LogicalPlan::VarLengthExpand {
                    source: Box::new(plan),
                    src_var,
                    rel_var: clone_opt_string(&rel_var),
                    target_var: target_var.clone(),
                    rel_type_id,
                    direction: rel.direction,
                    min_hops: min,
                    max_hops: max,
                    temporal_filter: None,
                };
            } else {
                plan = LogicalPlan::Expand {
                    source: Box::new(plan),
                    src_var,
                    rel_var: clone_opt_string(&rel_var),
                    target_var: target_var.clone(),
                    rel_type_id,
                    direction: rel.direction,
                    temporal_filter: None,
                };
            }
            let ghost e1 = plan@;
            assert(e1 == expansion(prev, *rel, target_var@, rel_type_id));
            match &rel.properties {
                Some(props) => match &rel_var {
                    Some(rv) => match Self::build_inline_property_predicate(rv.as_str(), props) {
                        Some(pred) => {
                            plan = LogicalPlan::Filter { source: Box::new(plan), predicate: pred };
                            assert(plan@ == (SpecPlan::Filter { source: Box::new(e1), predicate: pred@ }));
                        },
                        None => {},
                    },
                    None => {},
                },
                None => {},
            }
            let ghost e2 = plan@;
            assert(e2 == filtered(e1, rel_var_of(*rel), rel.properties));
            match &target_node.properties {
                Some(props) => match Self::build_inline_property_predicate(target_var.as_str(), props) {
                    Some(pred) => {
                        plan = LogicalPlan::Filter { source: Box::new(plan), predicate: pred };
                        assert(plan@ == (SpecPlan::Filter { source: Box::new(e2), predicate: pred@ }));
                    },
                    None => {},
                },
                None => {},
            }
            proof {
                assert(plan@ == filtered(e2, Some(target_var@), target_node.properties));
                assert(elements@[i as int] == PatternElement::Relationship(*rel));
                assert(elements@[i + 1] == PatternElement::Node(*target_node));
                assert((plan@, self.catalog().rel_type_names()) == expand_spec(
                    prev,
                    *rel,
                    *target_node,
                    prev_rels,
                ));
                assert(((i + 2 - 1) / 2) as nat == (((i - 1) / 2) + 1) as nat);
            }
            i = i + 2;
        }
        Ok(plan)
    }

    /// The output variable of a plan node, used as the source of the next expansion.
    fn extract_src_var(plan: &LogicalPlan) -> (r: String)
        ensures
            r@ == src_var_of(plan@),
        decreases plan,
    {
        match plan {
            LogicalPlan::NodeScan { variable, .. } => variable.clone(),
            LogicalPlan::Expand { target_var, .. } => target_var.clone(),
            LogicalPlan::VarLengthExpand { target_var, .. } => target_var.clone(),
            LogicalPlan::OptionalExpand { target_var, .. } => target_var.clone(),
            LogicalPlan::Filter { source, .. } => Self::extract_src_var(source),
            LogicalPlan::AsOfScan { source, .. } => Self::extract_src_var(source),
            LogicalPlan::TemporalRangeScan { source, .. } => Self::extract_src_var(source),
            _ => String::new(),
        }
    }

    /// Splits projection items into grouping keys and named aggregates.
    fn split_aggregates(items: &Vec<ReturnItem>) -> (r: Result<
        (Vec<Expression>, Vec<(String, AggregateFunc)>),
        PlanError,
    >)
        ensures
            match aggregates_of(ret_items_view(items@)) {
                Some(a) => r matches Ok((g, ag)) && exprs_view(g@) == group_keys_of(
                    ret_items_view(items@),
                ) && super::aggs_view(ag@) == a,
                None => r matches Err(e) && Some(e.message@) == agg_failure(ret_items_view(items@)),
            },
    {
        let ghost v = ret_items_view(items@);
        let mut group_keys: Vec<Expression> = Vec::new();
        let mut aggregates: Vec<(String, AggregateFunc)> = Vec::new();
        let mut i: usize = 0;
        while i < items.len()
            invariant
                i <= items.len(),
                v == ret_items_view(items@),
                exprs_view(group_keys@) == group_keys_of(v.subrange(0, i as int)),
                aggregates_of(v.subrange(0, i as int)) == Some(super::aggs_view(aggregates@)),
            decreases items.len() - i,
        {
            proof {
                assert(v.subrange(0, i + 1).drop_last() =~= v.subrange(0, i as int));
                assert(v[i as int] == items@[i as int]@);
            }
            let item = &items[i];
            if Self::is_aggregate_expr(&item.expr) {
                let alias = match &item.alias {
                    Some(a) => a.clone(),
                    None => Self::default_agg_name(&item.expr),
                };
                let func = match Self::extract_aggregate_func(&item.expr) {
                    Ok(f) => f,
                    Err(e) => {
                        proof {
                            lemma_aggregates_none(v, i as int);
                            lemma_agg_failure(v.subrange(0, i as int));
                            lemma_agg_failure_prefix(v, (i + 1) as int);
                        }
                        return Err(e);
                    },
                };
                let ghost before = aggregates@;
                aggregates.push((alias, func));
                proof {
                    assert(super::aggs_view(aggregates@) =~= super::aggs_view(before).push(
                        (items@[i as int].alias_or_name(), func),
                    ));
                }
            } else {
                let ghost before = group_keys@;
                group_keys.push(clone_expr(&item.expr));
                proof {
                    lemma_exprs_view(before);
                    lemma_exprs_view(group_keys@);
                    assert(group_keys@.drop_last() =~= before);
                }
            }
            i = i + 1;
        }
        proof {
            assert(v.subrange(0, v.len() as int) =~= v);
        }
        Ok((group_keys, aggregates))
    }

    /// Plans a RETURN clause: a projection (or an aggregation, when an item
    /// aggregates), then ORDER BY, SKIP and LIMIT.
    fn plan_return(&self, rc: &ReturnClause, current: Option<LogicalPlan>) -> (r: Result<
        LogicalPlan,
        PlanError,
    >)
        ensures
            planned_as(
                r,
                clause_plan(
                    Clause::Return(*rc),
                    opt_plan(current),
                    self.catalog().label_names(),
                    self.catalog().rel_type_names(),
                ),
                self.catalog(),
            ),
    {
        reveal(clause_plan);
        let source = match current {
            Some(s) => s,
            None => {
                proof {
                    reveal_strlit("RETURN");
                }
                return Err(needs_source("RETURN"));
            },
        };
        proof {
            lemma_agg_failure(ret_items_view(rc.items@));
        }
        let mut plan = match Self::project(&rc.items, rc.distinct, source) {
            Ok(p) => p,
            Err(e) => return Err(e),
        };
        let ghost inner = plan@;
        match &rc.order_by {
            Some(o) => {
                let it = clone_vec(o);
                assert(order_items_view(it@) =~= order_items_view(o@));
                plan = LogicalPlan::Sort { source: Box::new(plan), items: it };
                assert(plan@ == (SpecPlan::Sort { source: Box::new(inner), items: order_items_view(o@) }));
            },
            None => {},
        }
        let ghost a = plan@;
        match &rc.skip {
            Some(s) => {
                plan = LogicalPlan::Skip { source: Box::new(plan), count: clone_expr(s) };
                assert(plan@ == (SpecPlan::Skip { source: Box::new(a), count: s@ }));
            },
            None => {},
        }
        let ghost b = plan@;
        match &rc.limit {
            Some(l) => {
                plan = LogicalPlan::Limit { source: Box::new(plan), count: clone_expr(l) };
                assert(plan@ == (SpecPlan::Limit { source: Box::new(b), count: l@ }));
            },
            None => {},
        }
        Ok(plan)
    }

    /// The projection of `items` over `source`: an aggregation when some item
    /// aggregates, a plain projection otherwise.
    fn project(items: &Vec<ReturnItem>, distinct: bool, source: LogicalPlan) -> (r: Result<
        LogicalPlan,
        PlanError,
    >)
        ensures
            match projection_of(ret_items_view(items@), distinct, source@) {
                Some(p) => r matches Ok(q) && q@ == p,
                None => r matches Err(e) && Some(e.message@) == agg_failure(ret_items_view(items@)),
            },
    {
        if Self::any_aggregate(items) {
            match Self::split_aggregates(items) {
                Ok((group_keys, aggregates)) => Ok(
                    LogicalPlan::Aggregate { source: Box::new(source), group_keys, aggregates },
                ),
                Err(e) => Err(e),
            }
        } else {
            let it = clone_vec(items);
            assert(ret_items_view(it@) =~= ret_items_view(items@));
            Ok(LogicalPlan::Project { source: Box::new(source), items: it, distinct })
        }
    }

    /// True when some item is an aggregate.
    fn any_aggregate(items: &Vec<ReturnItem>) -> (r: bool)
        ensures
            r == has_agg(ret_items_view(items@)),
    {
        let ghost v = ret_items_view(items@);
        let mut i: usize = 0;
        while i < items.len()
            invariant
                i <= items.len(),
                v == ret_items_view(items@),
                forall|k: int| 0 <= k < i ==> !is_agg(#[trigger] v[k].expr),
            decreases items.len() - i,
        {
            if Self::is_aggregate_expr(&items[i].expr) {
                assert(is_agg(v[i as int].expr));
                return true;
            }
            i = i + 1;
        }
        false
    }

    /// Plans a CREATE clause over the earlier plan, if any.
    fn plan_create(&self, cc: &CreateClause, current: Option<LogicalPlan>) -> (r: LogicalPlan)
        ensures
            r@ == (SpecPlan::CreateOp { source: opt_box_plan(current), pattern: cc.pattern@ }),
    {
        LogicalPlan::CreateOp {
            source: match current {
                Some(c) => Some(Box::new(c)),
                None => None,
            },
            pattern: cc.pattern.deep_clone(),
        }
    }

    /// Plans a MERGE clause over the earlier plan, if any.
    fn plan_merge(&self, mc: &MergeClause, current: Option<LogicalPlan>) -> (r: LogicalPlan)
        ensures
            r@ == (SpecPlan::MergeOp {
                source: opt_box_plan(current),
                pattern: mc.pattern@,
                on_match: set_items_view(mc.on_match@),
                on_create: set_items_view(mc.on_create@),
            }),
    {
        let m = clone_vec(&mc.on_match);
        let c = clone_vec(&mc.on_create);
        assert(set_items_view(m@) =~= set_items_view(mc.on_match@));
        assert(set_items_view(c@) =~= set_items_view(mc.on_create@));
        LogicalPlan::MergeOp {
            source: match current {
                Some(c) => Some(Box::new(c)),
                None => None,
            },
            pattern: mc.pattern.deep_clone(),
            on_match: m,
            on_create: c,
        }
    }

    /// Plans a SET clause; it needs an earlier plan.
    fn plan_set(&self, sc: &SetClause, current: Option<LogicalPlan>) -> (r: Result<
        LogicalPlan,
        PlanError,
    >)
        ensures
            planned_as(
                r,
                clause_plan(
                    Clause::SetProperties(*sc),
                    opt_plan(current),
                    self.catalog().label_names(),
                    self.catalog().rel_type_names(),
                ),
                self.catalog(),
            ),
    {
        reveal(clause_plan);
        match current {
            None => {
                proof {
                    reveal_strlit("SET");
                }
                Err(needs_source("SET"))
            },
            Some(source) => {
                let it = clone_vec(&sc.items);
                assert(set_items_view(it@) =~= set_items_view(sc.items@));
                Ok(LogicalPlan::SetOp { source: Box::new(source), items: it })
            },
        }
    }

    /// Plans a DELETE clause; it needs an earlier plan.
    fn plan_delete(&self, dc: &DeleteClause, current: Option<LogicalPlan>) -> (r: Result<
        LogicalPlan,
        PlanError,
    >)
        ensures
            planned_as(
                r,
                clause_plan(
                    Clause::Delete(*dc),
                    opt_plan(current),
                    self.catalog().label_names(),
                    self.catalog().rel_type_names(),
                ),
                self.catalog(),
            ),
    {
        reveal(clause_plan);
        match current {
            None => {
                proof {
                    reveal_strlit("DELETE");
                }
                Err(needs_source("DELETE"))
            },
            Some(source) => Ok(
                LogicalPlan::DeleteOp {
                    source: Box::new(source),
                    exprs: clone_exprs(&dc.exprs),
                    detach: dc.detach,
                },
            ),
        }
    }

    /// Plans a WITH clause: an aggregation (then the WHERE filter) when an
    /// item aggregates, an intermediate projection otherwise.
    fn plan_with(&self, wc: &WithClause, current: Option<LogicalPlan>) -> (r: Result<
        LogicalPlan,
        PlanError,
    >)
        ensures
            planned_as(
                r,
                clause_plan(
                    Clause::With(*wc),
                    opt_plan(current),
                    self.catalog().label_names(),
                    self.catalog().rel_type_names(),
                ),
                self.catalog(),
            ),
    {
        reveal(clause_plan);
        let source = match current {
            Some(s) => s,
            None => {
                proof {
                    reveal_strlit("WITH");
                }
                return Err(needs_source("WITH"));
            },
        };
        proof {
            lemma_agg_failure(ret_items_view(wc.items@));
        }
        if Self::any_aggregate(&wc.items) {
            let (group_keys, aggregates) = match Self::split_aggregates(&wc.items) {
                Ok(x) => x,
                Err(e) => return Err(e),
            };
            let mut plan = LogicalPlan::Aggregate { source: Box::new(source), group_keys, aggregates };
            let ghost agg = plan@;
            match &wc.where_clause {
                Some(w) => {
                    plan = LogicalPlan::Filter { source: Box::new(plan), predicate: clone_expr(w) };
                    assert(plan@ == (SpecPlan::Filter { source: Box::new(agg), predicate: w@ }));
                },
                None => {},
            }
            Ok(plan)
        } else {
            let it = clone_vec(&wc.items);
            assert(ret_items_view(it@) =~= ret_items_view(wc.items@));
            Ok(
                LogicalPlan::With {
                    source: Box::new(source),
                    items: it,
                    where_clause: clone_opt_expr(&wc.where_clause),
                    distinct: wc.distinct,
                },
            )
        }
    }

    /// True when the expression is an aggregate function call.
    fn is_aggregate_expr(expr: &Expression) -> (r: bool)
        ensures
            r == is_agg(expr@),
    {
        match expr {
            Expression::CountStar => true,
            Expression::FunctionCall { name, .. } => {
                let l = super::lowercase(name.as_str());
                super::chars_are(&l, "count") || super::chars_are(&l, "sum") || super::chars_are(
                    &l,
                    "avg",
                ) || super::chars_are(&l, "min") || super::chars_are(&l, "max") || super::chars_are(
                    &l,
                    "collect",
                )
            },
            _ => false,
        }
    }

    /// The aggregate an aggregate expression computes; only `count` is supported.
    fn extract_aggregate_func(expr: &Expression) -> (r: Result<AggregateFunc, PlanError>)
        ensures
            match agg_func(expr@) {
                Some(f) => r == Ok::<AggregateFunc, PlanError>(f),
                None => r matches Err(e) && e.message@ == unsupported_message(expr@),
            },
    {
        match expr {
            Expression::CountStar => Ok(AggregateFunc::CountStar),
            Expression::FunctionCall { name, distinct, .. } => {
                let l = super::lowercase(name.as_str());
                if super::chars_are(&l, "count") {
                    Ok(AggregateFunc::Count { distinct: *distinct })
                } else {
                    let mut m = owned("unsupported aggregate function: ");
                    m.append(string_of_chars(&l).as_str());
                    Err(PlanError { message: m })
                }
            },
            _ => Err(PlanError { message: owned("not an aggregate expression") }),
        }
    }

    /// Default display name of an aggregate expression.
    fn default_agg_name(expr: &Expression) -> (r: String)
        ensures
            r@ == agg_name(expr@),
    {
        match expr {
            Expression::CountStar => {
                proof {
                    reveal_strlit("count(*)");
                }
                owned("count(*)")
            },
            Expression::FunctionCall { name, .. } => {
                let mut s = name.clone();
                s.append("(..)");
                s
            },
            _ => owned("agg"),
        }
    }

    /// Plans an UNWIND clause over the earlier plan, or over one empty row.
    fn plan_unwind(&self, uc: &UnwindClause, current: Option<LogicalPlan>) -> (r: Result<
        LogicalPlan,
        PlanError,
    >)
        ensures
            planned_as(
                r,
                clause_plan(
                    Clause::Unwind(*uc),
                    opt_plan(current),
                    self.catalog().label_names(),
                    self.catalog().rel_type_names(),
                ),
                self.catalog(),
            ),
    {
        reveal(clause_plan);
        let source = match current {
            Some(c) => c,
            None => {
                assert(LogicalPlan::EmptySource@ == SpecPlan::EmptySource);
                LogicalPlan::EmptySource
            },
        };
        Ok(
            LogicalPlan::Unwind {
                source: Box::new(source),
                expr: clone_expr(&uc.expr),
                variable: uc.variable.clone(),
            },
        )
    }

    /// Plans a REMOVE clause; it needs an earlier plan.
    fn plan_remove(&self, rc: &RemoveClause, current: Option<LogicalPlan>) -> (r: Result<
        LogicalPlan,
        PlanError,
    >)
        ensures
            planned_as(
                r,
                clause_plan(
                    Clause::Remove(*rc),
                    opt_plan(current),
                    self.catalog().label_names(),
                    self.catalog().rel_type_names(),
                ),
                self.catalog(),
            ),
    {
        reveal(clause_plan);
        match current {
            None => {
                proof {
                    reveal_strlit("REMOVE");
                }
                Err(needs_source("REMOVE"))
            },
            Some(source) => {
                let it = clone_vec(&rc.items);
                assert(remove_items_view(it@) =~= remove_items_view(rc.items@));
                Ok(LogicalPlan::RemoveOp { source: Box::new(source), items: it })
            },
        }
    }
}

impl ReturnItem {
    /// The column name of an aggregate item: its alias, or the default name.
    pub open spec fn alias_or_name(self) -> Seq<char> {
        match opt_str(self.alias) {
            Some(a) => a,
            None => agg_name(self.expr@),
        }
    }
}

proof fn lemma_aggregates_none(v: Seq<SpecReturnItem>, i: int)
    requires
        0 <= i < v.len(),
        is_agg(v[i].expr),
        agg_func(v[i].expr) is None,
    ensures
        aggregates_of(v) is None,
    decreases v.len(),
{
    if i < v.len() - 1 {
        lemma_aggregates_none(v.drop_last(), i);
    }
}

/// The first failing aggregate of a prefix is the first of the whole list.
proof fn lemma_agg_failure_prefix(v: Seq<SpecReturnItem>, j: int)
    requires
        0 <= j <= v.len(),
        agg_failure(v.subrange(0, j)) is Some,
    ensures
        agg_failure(v) == agg_failure(v.subrange(0, j)),
    decreases v.len(),
{
    if j < v.len() {
        assert(v.drop_last().subrange(0, j) =~= v.subrange(0, j));
        lemma_agg_failure_prefix(v.drop_last(), j);
    } else {
        assert(v.subrange(0, j) =~= v);
    }
}

} // verus!
