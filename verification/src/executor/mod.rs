//! The parts of query execution that are decisions on plain values: errors,
//! property-name rules, edge validity in time, LIMIT/SKIP, comparisons,
//! column names and date-time literals; edge traversal (`traverse`), a
//! node's history in time (`temporal`), property lists (`props`) and DELETE
//! (`delete`). What they decide on is read from storage by the caller.

pub mod compare;
pub mod datetime;
pub mod delete;
pub mod logic;
pub mod props;
pub mod temporal;
pub mod traverse;

use vstd::prelude::*;
use crate::parser::ast::{Expression, Literal, MapLiteral, SpecExpr, SpecLiteral};
use crate::text::{owned, str_equals};

verus! {

/// Execution error.
#[derive(Debug, Clone, PartialEq)]
pub struct ExecutionError {
    /// Human-readable description.
    pub message: String,
}

impl ExecutionError {
    /// The message of this error, as `Display` would render it.
    pub fn to_string(&self) -> (r: String)
        ensures
            r@ == "Execution error: "@ + self.message@,
    {
        let mut s = owned("Execution error: ");
        s.append(self.message.as_str());
        s
    }
}

/// System property name for the creation timestamp.
pub const SYSTEM_PROP_CREATED_AT: &'static str = "_created_at";

/// System property name for the last-updated timestamp.
pub const SYSTEM_PROP_UPDATED_AT: &'static str = "_updated_at";

/// Temporal edge property: validity start timestamp.
pub const TEMPORAL_PROP_VALID_FROM: &'static str = "_valid_from";

/// Temporal edge property: validity end timestamp.
pub const TEMPORAL_PROP_VALID_TO: &'static str = "_valid_to";

/// A system-managed (read-only) property name.
pub open spec fn system_property(name: Seq<char>) -> bool {
    name == "_created_at"@ || name == "_updated_at"@
}

/// A temporal edge property name (user-settable).
pub open spec fn temporal_edge_property(name: Seq<char>) -> bool {
    name == "_valid_from"@ || name == "_valid_to"@
}

/// Checks if a property name is a system-managed (read-only) property.
/// `_valid_from` and `_valid_to` are temporal but user-settable, so they are
/// not system properties.
pub fn is_system_property(name: &str) -> (r: bool)
    ensures
        r == system_property(name@),
{
    proof {
        reveal_strlit("_created_at");
        reveal_strlit("_updated_at");
    }
    str_equals(name, SYSTEM_PROP_CREATED_AT) || str_equals(name, SYSTEM_PROP_UPDATED_AT)
}

/// Checks if a property name is a temporal edge property (user-settable).
pub fn is_temporal_edge_property(name: &str) -> (r: bool)
    ensures
        r == temporal_edge_property(name@),
{
    proof {
        reveal_strlit("_valid_from");
        reveal_strlit("_valid_to");
    }
    str_equals(name, TEMPORAL_PROP_VALID_FROM) || str_equals(name, TEMPORAL_PROP_VALID_TO)
}

/// The position of the first system property key of a map literal.
fn first_system_key(map: &MapLiteral) -> (r: Option<usize>)
    ensures
        match r {
            Some(i) => i < map@.len() && system_property(map@[i as int].0@) && forall|j: int|
                0 <= j < i ==> !system_property(#[trigger] map@[j].0@),
            None => forall|j: int| 0 <= j < map@.len() ==> !system_property(#[trigger] map@[j].0@),
        },
{
    let mut i: usize = 0;
    while i < map.len()
        invariant
            i <= map@.len(),
            forall|j: int| 0 <= j < i ==> !system_property(#[trigger] map@[j].0@),
        decreases map.len() - i,
    {
        if is_system_property(map[i].0.as_str()) {
            return Some(i);
        }
        i = i + 1;
    }
    None
}

/// Validates that no system property is set by the user in a map literal:
/// the first system key met is reported.
pub fn validate_no_system_properties(props: &Option<MapLiteral>) -> (r: Result<(), ExecutionError>)
    ensures
        props is None ==> r is Ok,
        props matches Some(m) ==> (r is Ok <==> forall|i: int|
            0 <= i < m@.len() ==> !system_property(#[trigger] m@[i].0@)),
        props matches Some(m) ==> (r matches Err(e) ==> exists|i: int|
            0 <= i < m@.len() && system_property(#[trigger] m@[i].0@) && (forall|j: int|
                0 <= j < i ==> !system_property(#[trigger] m@[j].0@)) && e.message@
                == "System property is read-only: "@ + m@[i].0@),
{
    match props {
        None => Ok(()),
        Some(map) => match first_system_key(map) {
            None => Ok(()),
            Some(i) => {
                let mut m = owned("System property is read-only: ");
                m.append(map[i].0.as_str());
                assert(system_property(map@[i as int].0@));
                Err(ExecutionError { message: m })
            },
        },
    }
}

/// Temporal filter applied to edges during traversal.
#[derive(Debug, Clone, PartialEq, Eq, Structural)]
pub enum TemporalFilter {
    /// Edge must be valid at a specific timestamp.
    AsOf(i64),
    /// Edge validity must overlap with [start, end].
    Between(i64, i64),
}

/// Whether an edge with the given validity bounds passes the filter. An
/// edge without `_valid_from` is always valid; for `AsOf(t)` it is valid
/// when `_valid_from <= t` and `_valid_to` is absent or after `t`; for
/// `Between(start, end)` when `_valid_from <= end` and `_valid_to` is absent
/// or after `start`.
pub open spec fn temporally_valid(valid_from: Option<i64>, valid_to: Option<i64>, filter: TemporalFilter) -> bool {
    match valid_from {
        None => true,
        Some(vf) => match filter {
            TemporalFilter::AsOf(t) => vf <= t && (valid_to matches Some(vt) ==> vt > t),
            TemporalFilter::Between(start, end) => vf <= end && (valid_to matches Some(vt) ==> vt
                > start),
        },
    }
}

/// A point-in-time filter is the range filter over the one-point range:
/// `AsOf(t)` admits exactly the edges `Between(t, t)` admits.
pub proof fn lemma_as_of_is_point_range(valid_from: Option<i64>, valid_to: Option<i64>, t: i64)
    ensures
        temporally_valid(valid_from, valid_to, TemporalFilter::AsOf(t)) == temporally_valid(
            valid_from,
            valid_to,
            TemporalFilter::Between(t, t),
        ),
{
}

/// An edge with validity bounds is valid at an instant exactly within the
/// half-open interval `[_valid_from, _valid_to)` (open-ended without
/// `_valid_to`); and it passes a range filter `[start, end]` exactly when it
/// is valid at some instant of that range (for bounds with
/// `_valid_from < _valid_to`, the edges that exist at some instant).
pub proof fn lemma_validity_interval(vf: i64, valid_to: Option<i64>, t: i64, start: i64, end: i64)
    ensures
        temporally_valid(Some(vf), valid_to, TemporalFilter::AsOf(t)) == (vf <= t && match valid_to {
            Some(vt) => t < vt,
            None => true,
        }),
        temporally_valid(None, valid_to, TemporalFilter::AsOf(t)),
        start <= end && (valid_to matches Some(vt) ==> vf < vt) ==> (temporally_valid(
            Some(vf),
            valid_to,
            TemporalFilter::Between(start, end),
        ) <==> exists|u: i64|
            start <= u <= end && #[trigger] temporally_valid(
                Some(vf),
                valid_to,
                TemporalFilter::AsOf(u),
            )),
{
    if start <= end && (valid_to matches Some(vt) ==> vf < vt) {
        if temporally_valid(Some(vf), valid_to, TemporalFilter::Between(start, end)) {
            let u = if vf < start {
                start
            } else {
                vf
            };
            assert(temporally_valid(Some(vf), valid_to, TemporalFilter::AsOf(u)));
        }
    }
}

/// Checks an edge's validity against a temporal filter, given the edge's
/// `_valid_from` and `_valid_to` timestamps as read from storage.
pub fn is_edge_temporally_valid(valid_from: Option<i64>, valid_to: Option<i64>, filter: &TemporalFilter) -> (r: bool)
    ensures
        r == temporally_valid(valid_from, valid_to, *filter),
{
    let vf = match valid_from {
        Some(vf) => vf,
        None => {
            return true;
        },
    };
    match filter {
        TemporalFilter::AsOf(t) => vf <= *t && match valid_to {
            Some(vt) => vt > *t,
            None => true,
        },
        TemporalFilter::Between(start, end) => vf <= *end && match valid_to {
            Some(vt) => vt > *start,
            None => true,
        },
    }
}

/// Limits output to at most `count` records.
pub fn execute_limit<T>(records: Vec<T>, count: usize) -> (r: Vec<T>)
    ensures
        r@ == records@.take(if count < records@.len() { count as int } else { records@.len() as int }),
{
    let mut records = records;
    let ghost all = records@;
    if count < records.len() {
        records.truncate(count);
    }
    proof {
        assert(all.take(all.len() as int) =~= all);
    }
    records
}

/// Skips the first `count` records.
pub fn execute_skip<T>(records: Vec<T>, count: usize) -> (r: Vec<T>)
    ensures
        r@ == records@.skip(if count < records@.len() { count as int } else { records@.len() as int }),
{
    let mut records = records;
    let ghost all = records@;
    let n = if count < records.len() { count } else { records.len() };
    let mut out: Vec<T> = records.split_off(n);
    proof {
        assert(out@ =~= all.skip(n as int));
    }
    out
}

/// LIMIT and SKIP with the same count split the rows: the rows LIMIT keeps,
/// followed by the rows SKIP keeps, are all the rows, in order.
pub proof fn lemma_limit_skip_split<T>(records: Seq<T>, count: usize)
    ensures
        ({
            let k = if count < records.len() {
                count as int
            } else {
                records.len() as int
            };
            records.take(k) + records.skip(k) == records
        }),
{
    let k = if count < records.len() {
        count as int
    } else {
        records.len() as int
    };
    assert(records.take(k) + records.skip(k) =~= records);
}

/// The row count given to SKIP or LIMIT: the value of a non-negative integer
/// literal; anything else is an error.
pub fn eval_count_expr(expr: &Expression) -> (r: Result<usize, ExecutionError>)
    ensures
        match expr@ {
            SpecExpr::Literal(SpecLiteral::Integer(n)) => if n < 0 {
                r is Err && r->Err_0.message@ == "SKIP/LIMIT count must be non-negative"@
            } else {
                r == Ok::<usize, ExecutionError>(n as usize)
            },
            _ => r is Err && r->Err_0.message@ == "SKIP/LIMIT count must be a literal integer"@,
        },
{
    match expr {
        Expression::Literal(Literal::Integer(n)) => {
            if *n < 0 {
                return Err(ExecutionError { message: owned("SKIP/LIMIT count must be non-negative") });
            }
            Ok(*n as usize)
        },
        _ => Err(ExecutionError { message: owned("SKIP/LIMIT count must be a literal integer") }),
    }
}

/// The display name of an expression, used as a column name when no alias
/// is given.
pub open spec fn display_name(e: SpecExpr) -> Seq<char>
    decreases e,
{
    match e {
        SpecExpr::Variable(name) => name,
        SpecExpr::Property(inner, prop) => display_name(*inner) + "."@ + prop,
        SpecExpr::CountStar => "count(*)"@,
        _ => "expr"@,
    }
}

/// Generates a display name for an expression (used when no alias is
/// provided).
pub fn expr_display_name(expr: &Expression) -> (r: String)
    ensures
        r@ == display_name(expr@),
    decreases expr,
{
    proof {
        reveal_strlit(".");
        reveal_strlit("count(*)");
        reveal_strlit("expr");
    }
    match expr {
        Expression::Variable(name) => name.clone(),
        Expression::Property(inner, prop) => {
            let mut s = expr_display_name(inner);
            s.append(".");
            s.append(prop.as_str());
            s
        },
        Expression::CountStar => owned("count(*)"),
        _ => owned("expr"),
    }
}

/// A column named after a property access reads as written: `n.name` for
/// `n.name`, `a.b.c` for a chain of accesses, `n` for a variable; a grouping
/// key is named after its property alone.
pub proof fn lemma_display_names(v: Seq<char>, p: Seq<char>, q: Seq<char>)
    ensures
        display_name(SpecExpr::Variable(v)) == v,
        display_name(SpecExpr::Property(Box::new(SpecExpr::Variable(v)), p)) == v + seq!['.'] + p,
        display_name(
            SpecExpr::Property(
                Box::new(SpecExpr::Property(Box::new(SpecExpr::Variable(v)), p)),
                q,
            ),
        ) == v + seq!['.'] + p + seq!['.'] + q,
        key_name(SpecExpr::Property(Box::new(SpecExpr::Variable(v)), p)) == p,
        key_name(SpecExpr::Variable(v)) == v,
{
    reveal_strlit(".");
    let dot = "."@;
    assert(dot =~= seq!['.']);
    let a = SpecExpr::Property(Box::new(SpecExpr::Variable(v)), p);
    assert(display_name(SpecExpr::Variable(v)) == v);
    assert(display_name(a) == v + dot + p);
    assert(v + dot + p =~= v + seq!['.'] + p);
    let b = SpecExpr::Property(Box::new(a), q);
    assert(display_name(b) == display_name(a) + dot + q);
    assert((v + seq!['.'] + p) + dot + q =~= v + seq!['.'] + p + seq!['.'] + q);
}

/// The name of a grouping key: the variable, the property name, or `key`.
pub open spec fn key_name(e: SpecExpr) -> Seq<char> {
    match e {
        SpecExpr::Variable(name) => name,
        SpecExpr::Property(_, prop) => prop,
        _ => "key"@,
    }
}

/// Extracts a display name from a group key expression.
pub fn group_key_name(expr: &Expression) -> (r: String)
    ensures
        r@ == key_name(expr@),
{
    match expr {
        Expression::Variable(name) => name.clone(),
        Expression::Property(_, prop) => prop.clone(),
        _ => owned("key"),
    }
}

} // verus!
