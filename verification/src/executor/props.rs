//! Property lists of nodes and edges, as `(property key, value)` entries:
//! setting, removing and reading a property, and the checks SET and REMOVE
//! make on a property name before they write.

use vstd::prelude::*;
use super::{
    is_system_property, is_temporal_edge_property, system_property, temporal_edge_property,
    ExecutionError,
};
use crate::parser::ast::{Expression, SpecExpr};
use crate::text::owned;

verus! {

/// The index of the first entry for `key` among the entries of `p` from `i` on.
pub open spec fn first_index<V>(p: Seq<(u32, V)>, key: u32, i: int) -> Option<int>
    decreases p.len() - i,
{
    if i < 0 || i >= p.len() {
        None
    } else if p[i].0 == key {
        Some(i)
    } else {
        first_index(p, key, i + 1)
    }
}

/// The value of property `key` in `p`: that of its first entry.
pub open spec fn prop_value<V>(p: Seq<(u32, V)>, key: u32) -> Option<V> {
    match first_index(p, key, 0) {
        Some(i) => Some(p[i].1),
        None => None,
    }
}

/// `p` with property `key` set to `v`: its first entry takes the new value,
/// or, when it has none, a new entry is added at the end.
pub open spec fn with_prop<V>(p: Seq<(u32, V)>, key: u32, v: V) -> Seq<(u32, V)> {
    match first_index(p, key, 0) {
        Some(i) => p.update(i, (key, v)),
        None => p.push((key, v)),
    }
}

/// The entries of `p` for keys other than `key`, in order.
pub open spec fn without_prop<V>(p: Seq<(u32, V)>, key: u32) -> Seq<(u32, V)>
    decreases p.len(),
{
    if p.len() == 0 {
        p
    } else {
        let before = without_prop(p.drop_last(), key);
        if p.last().0 != key {
            before.push(p.last())
        } else {
            before
        }
    }
}

/// `first_index` finds the first entry for `key` from `i` on, if any.
proof fn lemma_first_index<V>(p: Seq<(u32, V)>, key: u32, i: int)
    requires
        0 <= i,
    ensures
        first_index(p, key, i) matches Some(j) ==> i <= j < p.len() && p[j].0 == key && forall|m: int|
            i <= m < j ==> (#[trigger] p[m]).0 != key,
        first_index(p, key, i) is None ==> forall|m: int| i <= m < p.len() ==> (#[trigger] p[m]).0 != key,
    decreases p.len() - i,
{
    if i < p.len() && p[i].0 != key {
        lemma_first_index(p, key, i + 1);
    }
}

/// The first entry for `key` is the one the characterization names.
proof fn lemma_first_index_is<V>(p: Seq<(u32, V)>, key: u32, j: Option<int>)
    requires
        j matches Some(n) ==> 0 <= n < p.len() && p[n].0 == key && forall|m: int|
            0 <= m < n ==> (#[trigger] p[m]).0 != key,
        j is None ==> forall|m: int| 0 <= m < p.len() ==> (#[trigger] p[m]).0 != key,
    ensures
        first_index(p, key, 0) == j,
{
    lemma_first_index(p, key, 0);
    match first_index(p, key, 0) {
        Some(a) => {
            match j {
                Some(b) => {
                    if a < b {
                        assert(p[a].0 != key);
                    } else if b < a {
                        assert(p[b].0 != key);
                    }
                },
                None => {
                    assert(p[a].0 != key);
                },
            }
        },
        None => {
            if let Some(b) = j {
                assert(p[b].0 != key);
            }
        },
    }
}

/// Adding an entry at the end changes a property's value only when the
/// property had none and the entry is for it.
proof fn lemma_prop_value_push<V>(q: Seq<(u32, V)>, x: (u32, V), key: u32)
    ensures
        prop_value(q.push(x), key) == match prop_value(q, key) {
            Some(v) => Some(v),
            None => if x.0 == key {
                Some(x.1)
            } else {
                None
            },
        },
{
    let p = q.push(x);
    lemma_first_index(q, key, 0);
    match first_index(q, key, 0) {
        Some(j) => {
            assert forall|m: int| 0 <= m < j implies (#[trigger] p[m]).0 != key by {
                assert(p[m] == q[m]);
            }
            lemma_first_index_is(p, key, Some(j));
        },
        None => {
            if x.0 == key {
                assert forall|m: int| 0 <= m < q.len() implies (#[trigger] p[m]).0 != key by {
                    assert(p[m] == q[m]);
                }
                lemma_first_index_is(p, key, Some(q.len() as int));
            } else {
                assert forall|m: int| 0 <= m < p.len() implies (#[trigger] p[m]).0 != key by {
                    if m < q.len() {
                        assert(p[m] == q[m]);
                    }
                }
                lemma_first_index_is(p, key, None);
            }
        },
    }
}

/// After a property is set, reading it gives the value written, and
/// every other property reads as before.
pub proof fn lemma_read_after_set<V>(p: Seq<(u32, V)>, key: u32, v: V, other: u32)
    requires
        other != key,
    ensures
        prop_value(with_prop(p, key, v), key) == Some(v),
        prop_value(with_prop(p, key, v), other) == prop_value(p, other),
{
    lemma_first_index(p, key, 0);
    lemma_first_index(p, other, 0);
    match first_index(p, key, 0) {
        Some(i) => {
            let q = p.update(i, (key, v));
            assert forall|m: int| 0 <= m < i implies (#[trigger] q[m]).0 != key by {
                assert(q[m] == p[m]);
            }
            lemma_first_index_is(q, key, Some(i));
            match first_index(p, other, 0) {
                Some(j) => {
                    assert(j != i);
                    assert forall|m: int| 0 <= m < j implies (#[trigger] q[m]).0 != other by {
                        if m != i {
                            assert(q[m] == p[m]);
                        }
                    }
                    lemma_first_index_is(q, other, Some(j));
                },
                None => {
                    assert forall|m: int| 0 <= m < q.len() implies (#[trigger] q[m]).0 != other by {
                        if m != i {
                            assert(q[m] == p[m]);
                        }
                    }
                    lemma_first_index_is(q, other, None);
                },
            }
        },
        None => {
            lemma_prop_value_push(p, (key, v), key);
            lemma_prop_value_push(p, (key, v), other);
        },
    }
}

/// After a property is removed it reads as absent, and every other
/// property reads as before.
pub proof fn lemma_read_after_remove<V>(p: Seq<(u32, V)>, key: u32, other: u32)
    requires
        other != key,
    ensures
        prop_value(without_prop(p, key), key) is None,
        prop_value(without_prop(p, key), other) == prop_value(p, other),
    decreases p.len(),
{
    if p.len() == 0 {
        lemma_first_index(p, key, 0);
        lemma_first_index(p, other, 0);
    } else {
        let dl = p.drop_last();
        let x = p.last();
        lemma_read_after_remove(dl, key, other);
        assert(p == dl.push(x));
        lemma_prop_value_push(dl, x, other);
        if x.0 != key {
            lemma_prop_value_push(without_prop(dl, key), x, key);
            lemma_prop_value_push(without_prop(dl, key), x, other);
        }
    }
}

/// Of two writes to the same property, the later one wins.
pub proof fn lemma_set_twice<V>(p: Seq<(u32, V)>, key: u32, v1: V, v2: V)
    ensures
        with_prop(with_prop(p, key, v1), key, v2) == with_prop(p, key, v2),
{
    lemma_first_index(p, key, 0);
    match first_index(p, key, 0) {
        Some(i) => {
            let q = p.update(i, (key, v1));
            assert forall|m: int| 0 <= m < i implies (#[trigger] q[m]).0 != key by {
                assert(q[m] == p[m]);
            }
            lemma_first_index_is(q, key, Some(i));
            assert(q.update(i, (key, v2)) =~= p.update(i, (key, v2)));
        },
        None => {
            let q = p.push((key, v1));
            assert forall|m: int| 0 <= m < p.len() implies (#[trigger] q[m]).0 != key by {
                assert(q[m] == p[m]);
            }
            lemma_first_index_is(q, key, Some(p.len() as int));
            assert(q.update(p.len() as int, (key, v2)) =~= p.push((key, v2)));
        },
    }
}

/// Sets property `key` to `value`: updates its first entry, or adds an
/// entry at the end when there is none.
pub fn set_property<V>(props: &mut Vec<(u32, V)>, key: u32, value: V)
    ensures
        final(props)@ == with_prop(old(props)@, key, value),
{
    let mut i: usize = 0;
    while i < props.len()
        invariant
            i <= props@.len(),
            props@ == old(props)@,
            first_index(props@, key, 0) == first_index(props@, key, i as int),
        decreases props.len() - i,
    {
        if props[i].0 == key {
            props[i] = (key, value);
            return;
        }
        i = i + 1;
    }
    props.push((key, value));
}

/// Adds property `key` with `value` at the end unless `props` already has
/// an entry for it (as when `_valid_from` is stamped on a new edge the user
/// gave none).
pub fn add_property_if_absent<V>(props: &mut Vec<(u32, V)>, key: u32, value: V)
    ensures
        final(props)@ == if first_index(old(props)@, key, 0) is Some {
            old(props)@
        } else {
            old(props)@.push((key, value))
        },
        prop_value(final(props)@, key) == match prop_value(old(props)@, key) {
            Some(v) => Some(v),
            None => Some(value),
        },
{
    let ghost before = props@;
    let mut i: usize = 0;
    while i < props.len()
        invariant
            i <= props@.len(),
            props@ == before,
            first_index(props@, key, 0) == first_index(props@, key, i as int),
        decreases props.len() - i,
    {
        if props[i].0 == key {
            return;
        }
        i = i + 1;
    }
    props.push((key, value));
    proof {
        lemma_prop_value_push(before, (key, value), key);
    }
}

/// Removes every entry of property `key`, keeping the others in order.
pub fn remove_property<V>(props: Vec<(u32, V)>, key: u32) -> (r: Vec<(u32, V)>)
    ensures
        r@ == without_prop(props@, key),
{
    let ghost all = props@;
    let mut rest = props;
    let mut kept: Vec<(u32, V)> = Vec::new();
    let ghost mut taken: Seq<(u32, V)> = Seq::empty();
    while rest.len() > 0
        invariant
            taken + rest@ == all,
            kept@ == without_prop(taken, key),
        decreases rest.len(),
    {
        let ghost before = taken;
        let ghost r0 = rest@;
        let e = rest.remove(0);
        proof {
            taken = taken.push(e);
            assert(taken + rest@ =~= before + r0);
            assert(taken.drop_last() =~= before);
        }
        if e.0 != key {
            kept.push(e);
        }
    }
    proof {
        assert(taken =~= all);
    }
    kept
}

/// Checks that SET or REMOVE may write property `prop_name`: the system
/// properties are read-only.
pub fn check_writable(prop_name: &str) -> (r: Result<(), ExecutionError>)
    ensures
        r is Err <==> system_property(prop_name@),
        r matches Err(e) ==> e.message@ == "System property is read-only: "@ + prop_name@,
{
    if is_system_property(prop_name) {
        let mut m = owned("System property is read-only: ");
        m.append(prop_name);
        return Err(ExecutionError { message: m });
    }
    Ok(())
}

/// Checks that SET may write property `prop_name` on a node: the temporal
/// validity properties belong to edges only.
pub fn check_node_property(prop_name: &str) -> (r: Result<(), ExecutionError>)
    ensures
        r is Err <==> temporal_edge_property(prop_name@),
        r matches Err(e) ==> e.message@ == "Property '"@ + prop_name@
            + "' is only valid on edges, not nodes"@,
{
    if is_temporal_edge_property(prop_name) {
        let mut m = owned("Property '");
        m.append(prop_name);
        m.append("' is only valid on edges, not nodes");
        return Err(ExecutionError { message: m });
    }
    Ok(())
}

/// What the entity of a SET or REMOVE target evaluated to.
#[derive(Debug, Clone, Copy, PartialEq, Eq, Structural)]
pub enum EntityKind {
    Node,
    Edge,
    Null,
    Other,
}

/// Where a SET or REMOVE writes: the properties of a node, of an edge, or
/// nowhere (a null entity).
#[derive(Debug, Clone, Copy, PartialEq, Eq, Structural)]
pub enum PropertyWrite {
    Node,
    Edge,
    Nothing,
}

/// The entity expression and property name of a SET or REMOVE target
/// `e.name`, once the target is known to be a property access of a
/// writable property.
pub open spec fn target_parts(target: SpecExpr) -> Option<(SpecExpr, Seq<char>)> {
    match target {
        SpecExpr::Property(e, name) => Some((*e, name)),
        _ => None,
    }
}

/// Splits the target of a SET item into the expression of its entity and
/// the property name: the target must be a property access, of a property
/// that is not a system property.
pub fn set_target(target: &Expression) -> (r: Result<(&Expression, &String), ExecutionError>)
    ensures
        match target_parts(target@) {
            None => r matches Err(e) && e.message@ == "SET target must be a property access expression"@,
            Some((ent, name)) => if system_property(name) {
                r matches Err(e) && e.message@ == "System property is read-only: "@ + name
            } else {
                r matches Ok((x, n)) && x@ == ent && n@ == name
            },
        },
{
    match target {
        Expression::Property(var_expr, prop_name) => {
            match check_writable(prop_name.as_str()) {
                Ok(()) => Ok((&**var_expr, prop_name)),
                Err(e) => Err(e),
            }
        },
        _ => Err(ExecutionError { message: owned("SET target must be a property access expression") }),
    }
}

/// Splits the property of a REMOVE item into the expression of its entity
/// and the property name: it must be a property access, of a property that
/// is not a system property.
pub fn remove_target(target: &Expression) -> (r: Result<(&Expression, &String), ExecutionError>)
    ensures
        match target_parts(target@) {
            None => r matches Err(e) && e.message@
                == "REMOVE property must be a property access expression"@,
            Some((ent, name)) => if system_property(name) {
                r matches Err(e) && e.message@ == "System property is read-only: "@ + name
            } else {
                r matches Ok((x, n)) && x@ == ent && n@ == name
            },
        },
{
    match target {
        Expression::Property(var_expr, prop_name) => {
            match check_writable(prop_name.as_str()) {
                Ok(()) => Ok((&**var_expr, prop_name)),
                Err(e) => Err(e),
            }
        },
        _ => Err(
            ExecutionError { message: owned("REMOVE property must be a property access expression") },
        ),
    }
}

/// Where SET writes property `prop_name` of an entity of kind `entity`: a
/// node (unless the property belongs to edges only), an edge, or nowhere
/// for a null entity; any other value is refused.
pub fn set_write(entity: EntityKind, prop_name: &str) -> (r: Result<PropertyWrite, ExecutionError>)
    ensures
        match entity {
            EntityKind::Node => if temporal_edge_property(prop_name@) {
                r matches Err(e) && e.message@ == "Property '"@ + prop_name@
                    + "' is only valid on edges, not nodes"@
            } else {
                r == Ok::<PropertyWrite, ExecutionError>(PropertyWrite::Node)
            },
            EntityKind::Edge => r == Ok::<PropertyWrite, ExecutionError>(PropertyWrite::Edge),
            EntityKind::Null => r == Ok::<PropertyWrite, ExecutionError>(PropertyWrite::Nothing),
            EntityKind::Other => r matches Err(e) && e.message@
                == "SET target must be a node or edge property"@,
        },
{
    match entity {
        EntityKind::Node => match check_node_property(prop_name) {
            Ok(()) => Ok(PropertyWrite::Node),
            Err(e) => Err(e),
        },
        EntityKind::Edge => Ok(PropertyWrite::Edge),
        EntityKind::Null => Ok(PropertyWrite::Nothing),
        EntityKind::Other => Err(ExecutionError { message: owned("SET target must be a node or edge property") }),
    }
}

/// Where REMOVE removes a property of an entity of kind `entity`: a node,
/// an edge, or nowhere for a null entity; any other value is refused.
pub fn remove_write(entity: EntityKind) -> (r: Result<PropertyWrite, ExecutionError>)
    ensures
        match entity {
            EntityKind::Node => r == Ok::<PropertyWrite, ExecutionError>(PropertyWrite::Node),
            EntityKind::Edge => r == Ok::<PropertyWrite, ExecutionError>(PropertyWrite::Edge),
            EntityKind::Null => r == Ok::<PropertyWrite, ExecutionError>(PropertyWrite::Nothing),
            EntityKind::Other => r matches Err(e) && e.message@
                == "REMOVE target must be a node or edge property"@,
        },
{
    match entity {
        EntityKind::Node => Ok(PropertyWrite::Node),
        EntityKind::Edge => Ok(PropertyWrite::Edge),
        EntityKind::Null => Ok(PropertyWrite::Nothing),
        EntityKind::Other => Err(
            ExecutionError { message: owned("REMOVE target must be a node or edge property") },
        ),
    }
}

} // verus!
