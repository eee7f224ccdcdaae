//! DELETE decisions: which nodes and edges a DELETE removes, each once, and
//! when a plain (non-DETACH) DELETE must refuse a node.

use vstd::prelude::*;
use super::ExecutionError;
use crate::text::{decimal, owned, push_decimal};

verus! {

/// What one DELETE expression evaluated to.
#[derive(Debug, Clone, Copy, PartialEq, Eq)]
pub enum DeleteTarget {
    /// A node, by id.
    Node(u64),
    /// An edge, by id.
    Edge(u64),
    /// Null: nothing to delete.
    Null,
    /// Any other value, which cannot be deleted.
    Other,
}

/// `ids` with `x` added at the end, unless it is already there.
pub open spec fn add_new(ids: Seq<u64>, x: u64) -> Seq<u64> {
    if ids.contains(x) {
        ids
    } else {
        ids.push(x)
    }
}

/// The nodes and the edges named by `targets`, each once, in the order of
/// their first mention; `None` when a target is neither a node, an edge nor
/// null.
pub open spec fn delete_sets(targets: Seq<DeleteTarget>) -> Option<(Seq<u64>, Seq<u64>)>
    decreases targets.len(),
{
    if targets.len() == 0 {
        Some((Seq::empty(), Seq::empty()))
    } else {
        match delete_sets(targets.drop_last()) {
            None => None,
            Some((nodes, edges)) => match targets.last() {
                DeleteTarget::Node(n) => Some((add_new(nodes, n), edges)),
                DeleteTarget::Edge(e) => Some((nodes, add_new(edges, e))),
                DeleteTarget::Null => Some((nodes, edges)),
                DeleteTarget::Other => None,
            },
        }
    }
}

/// Whether `ids` holds `x`.
fn holds(ids: &Vec<u64>, x: u64) -> (r: bool)
    ensures
        r == ids@.contains(x),
{
    let mut i: usize = 0;
    while i < ids.len()
        invariant
            i <= ids@.len(),
            forall|j: int| 0 <= j < i ==> ids@[j] != x,
        decreases ids.len() - i,
    {
        if ids[i] == x {
            return true;
        }
        i = i + 1;
    }
    false
}

/// Collects the nodes and the edges a DELETE removes from what its
/// expressions evaluated to: each once, in the order of first mention;
/// null targets are skipped, and any other value is an error.
pub fn collect_delete_targets(targets: &Vec<DeleteTarget>) -> (r: Result<
    (Vec<u64>, Vec<u64>),
    ExecutionError,
>)
    ensures
        match delete_sets(targets@) {
            Some((nodes, edges)) => r matches Ok((n, e)) && n@ == nodes && e@ == edges,
            None => r matches Err(e) && e.message@ == "DELETE requires a node or edge value"@,
        },
{
    let mut nodes: Vec<u64> = Vec::new();
    let mut edges: Vec<u64> = Vec::new();
    let mut i: usize = 0;
    while i < targets.len()
        invariant
            i <= targets@.len(),
            delete_sets(targets@.take(i as int)) == Some((nodes@, edges@)),
        decreases targets.len() - i,
    {
        proof {
            assert(targets@.take(i + 1).drop_last() =~= targets@.take(i as int));
        }
        match targets[i] {
            DeleteTarget::Node(n) => {
                if !holds(&nodes, n) {
                    nodes.push(n);
                }
            },
            DeleteTarget::Edge(e) => {
                if !holds(&edges, e) {
                    edges.push(e);
                }
            },
            DeleteTarget::Null => {},
            DeleteTarget::Other => {
                proof {
                    lemma_delete_error_sticks(targets@, i as int + 1);
                    assert(targets@.take(targets@.len() as int) =~= targets@);
                }
                return Err(ExecutionError { message: owned("DELETE requires a node or edge value") });
            },
        }
        i = i + 1;
    }
    proof {
        assert(targets@.take(targets@.len() as int) =~= targets@);
    }
    Ok((nodes, edges))
}

/// Once a prefix of the targets holds a value that cannot be deleted, so
/// does every longer prefix.
proof fn lemma_delete_error_sticks(targets: Seq<DeleteTarget>, k: int)
    requires
        0 < k <= targets.len(),
        delete_sets(targets.take(k)) is None,
    ensures
        delete_sets(targets.take(targets.len() as int)) is None,
    decreases targets.len() - k,
{
    if k < targets.len() {
        assert(targets.take(k + 1).drop_last() =~= targets.take(k));
        lemma_delete_error_sticks(targets, k + 1);
    }
}

/// `add_new` keeps a sequence free of repeats and adds exactly `x`.
proof fn lemma_add_new(ids: Seq<u64>, x: u64)
    requires
        ids.no_duplicates(),
    ensures
        add_new(ids, x).no_duplicates(),
        forall|y: u64| add_new(ids, x).contains(y) <==> (ids.contains(y) || y == x),
{
    if !ids.contains(x) {
        let r = ids.push(x);
        assert forall|a: int, b: int| 0 <= a < r.len() && 0 <= b < r.len() && a != b implies r[a]
            != r[b] by {
            if a < ids.len() && b < ids.len() {
                assert(r[a] == ids[a] && r[b] == ids[b]);
            } else if a < ids.len() {
                assert(r[a] == ids[a]);
            } else {
                assert(r[b] == ids[b]);
            }
        }
        assert forall|y: u64| r.contains(y) implies ids.contains(y) || y == x by {
            let j = choose|j: int| 0 <= j < r.len() && r[j] == y;
            if j < ids.len() {
                assert(ids[j] == y);
            }
        }
        assert forall|y: u64| ids.contains(y) || y == x implies r.contains(y) by {
            if ids.contains(y) {
                let j = choose|j: int| 0 <= j < ids.len() && ids[j] == y;
                assert(r[j] == y);
            } else {
                assert(r[ids.len() as int] == y);
            }
        }
    }
}

/// A DELETE removes each node and each edge at most once, and removes
/// exactly the nodes and the edges its targets name.
pub proof fn lemma_delete_each_once(targets: Seq<DeleteTarget>)
    ensures
        delete_sets(targets) matches Some((nodes, edges)) ==> {
            &&& nodes.no_duplicates()
            &&& edges.no_duplicates()
            &&& forall|n: u64|
                nodes.contains(n) <==> exists|i: int|
                    0 <= i < targets.len() && #[trigger] targets[i] == DeleteTarget::Node(n)
            &&& forall|e: u64|
                edges.contains(e) <==> exists|i: int|
                    0 <= i < targets.len() && #[trigger] targets[i] == DeleteTarget::Edge(e)
        },
    decreases targets.len(),
{
    if targets.len() > 0 {
        let dl = targets.drop_last();
        lemma_delete_each_once(dl);
        if let Some((nodes0, edges0)) = delete_sets(dl) {
            let last = targets.last();
            assert(targets[targets.len() - 1] == last);
            if let Some((nodes, edges)) = delete_sets(targets) {
                match last {
                    DeleteTarget::Node(x) => {
                        lemma_add_new(nodes0, x);
                        assert(nodes == add_new(nodes0, x) && edges == edges0);
                    },
                    DeleteTarget::Edge(x) => {
                        lemma_add_new(edges0, x);
                        assert(nodes == nodes0 && edges == add_new(edges0, x));
                    },
                    DeleteTarget::Null => {
                        assert(nodes == nodes0 && edges == edges0);
                    },
                    DeleteTarget::Other => {
                        assert(false);
                    },
                }
                assert forall|n: u64| nodes.contains(n) implies exists|i: int|
                    0 <= i < targets.len() && #[trigger] targets[i] == DeleteTarget::Node(n) by {
                    if nodes0.contains(n) {
                        let i = choose|i: int|
                            0 <= i < dl.len() && #[trigger] dl[i] == DeleteTarget::Node(n);
                        assert(targets[i] == dl[i]);
                    } else {
                        assert(targets[targets.len() - 1] == DeleteTarget::Node(n));
                    }
                }
                assert forall|n: u64|
                    (exists|i: int| 0 <= i < targets.len() && #[trigger] targets[i] == DeleteTarget::Node(n))
                    implies nodes.contains(n) by {
                    let i = choose|i: int|
                        0 <= i < targets.len() && #[trigger] targets[i] == DeleteTarget::Node(n);
                    if i < dl.len() {
                        assert(dl[i] == targets[i]);
                        assert(nodes0.contains(n));
                    }
                }
                assert forall|e: u64| edges.contains(e) implies exists|i: int|
                    0 <= i < targets.len() && #[trigger] targets[i] == DeleteTarget::Edge(e) by {
                    if edges0.contains(e) {
                        let i = choose|i: int|
                            0 <= i < dl.len() && #[trigger] dl[i] == DeleteTarget::Edge(e);
                        assert(targets[i] == dl[i]);
                    } else {
                        assert(targets[targets.len() - 1] == DeleteTarget::Edge(e));
                    }
                }
                assert forall|e: u64|
                    (exists|i: int| 0 <= i < targets.len() && #[trigger] targets[i] == DeleteTarget::Edge(e))
                    implies edges.contains(e) by {
                    let i = choose|i: int|
                        0 <= i < targets.len() && #[trigger] targets[i] == DeleteTarget::Edge(e);
                    if i < dl.len() {
                        assert(dl[i] == targets[i]);
                        assert(edges0.contains(e));
                    }
                }
            }
        }
    }
}

/// Checks that a node may be deleted: a plain DELETE refuses a node that
/// still has relationships; DETACH DELETE removes them with it.
pub fn check_node_deletable(node_id: u64, edge_count: usize, detach: bool) -> (r: Result<
    (),
    ExecutionError,
>)
    ensures
        r is Err <==> !detach && edge_count > 0,
        r matches Err(e) ==> e.message@ == "cannot delete node "@ + decimal(node_id as nat)
            + " because it still has "@ + decimal(edge_count as nat)
            + " relationship(s). Use DETACH DELETE"@,
{
    if !detach && edge_count > 0 {
        let mut m = owned("cannot delete node ");
        push_decimal(&mut m, node_id);
        m.append(" because it still has ");
        push_decimal(&mut m, edge_count as u64);
        m.append(" relationship(s). Use DETACH DELETE");
        return Err(ExecutionError { message: m });
    }
    Ok(())
}

} // verus!
