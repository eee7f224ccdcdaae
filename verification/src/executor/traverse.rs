//! Edge traversal decisions: which edges of a node an expansion follows, the
//! OPTIONAL MATCH left join, and the bounded depth-first search of
//! variable-length relationships. The edges of a node are handed in as the
//! storage engine lists them.

use vstd::prelude::*;
use std::collections::HashSet;
use crate::parser::ast::RelDirection;
use super::{is_edge_temporally_valid, temporally_valid, TemporalFilter};

verus! {

broadcast use vstd::std_specs::hash::group_hash_axioms;

/// An edge as traversal reads it: its id, its two end nodes, its type, and
/// the `_valid_from` / `_valid_to` timestamps read from its properties.
#[derive(Debug, Clone, Copy, PartialEq, Eq)]
pub struct EdgeRef {
    /// Edge id.
    pub edge_id: u64,
    /// Node the edge starts at.
    pub start_node: u64,
    /// Node the edge ends at.
    pub end_node: u64,
    /// Relationship type id.
    pub rel_type_id: u32,
    /// Validity start, when the edge carries one.
    pub valid_from: Option<i64>,
    /// Validity end, when the edge carries one.
    pub valid_to: Option<i64>,
}

/// The edges of each node, as `(node, edges touching it)` entries.
pub type Adjacency = Vec<(u64, Vec<EdgeRef>)>;

/// The node an edge leads to from `cur` when followed in direction `dir`.
pub open spec fn far_end(e: EdgeRef, cur: u64, dir: RelDirection) -> Option<u64> {
    match dir {
        RelDirection::Outgoing => if e.start_node == cur {
            Some(e.end_node)
        } else {
            None
        },
        RelDirection::Incoming => if e.end_node == cur {
            Some(e.start_node)
        } else {
            None
        },
        RelDirection::Undirected => if e.start_node == cur {
            Some(e.end_node)
        } else if e.end_node == cur {
            Some(e.start_node)
        } else {
            None
        },
    }
}

/// The edge has the requested relationship type, if one is requested.
pub open spec fn type_ok(e: EdgeRef, rel_type_id: Option<u32>) -> bool {
    match rel_type_id {
        Some(t) => e.rel_type_id == t,
        None => true,
    }
}

/// The edge passes the temporal filter, if there is one.
pub open spec fn time_ok(e: EdgeRef, filter: Option<TemporalFilter>) -> bool {
    match filter {
        Some(f) => temporally_valid(e.valid_from, e.valid_to, f),
        None => true,
    }
}

/// The `(edge, target)` matches of expanding node `src` over its edges `es`,
/// in the order of the edges: each edge of the requested type that passes
/// the temporal filter and leads somewhere from `src` in direction `dir`.
pub open spec fn expand_matches(
    es: Seq<EdgeRef>,
    src: u64,
    rel_type_id: Option<u32>,
    dir: RelDirection,
    filter: Option<TemporalFilter>,
) -> Seq<(u64, u64)>
    decreases es.len(),
{
    if es.len() == 0 {
        Seq::empty()
    } else {
        let e = es.last();
        let before = expand_matches(es.drop_last(), src, rel_type_id, dir, filter);
        if type_ok(e, rel_type_id) && time_ok(e, filter) && far_end(e, src, dir) is Some {
            before.push((e.edge_id, far_end(e, src, dir)->0))
        } else {
            before
        }
    }
}

/// Edge `e` connects `src` to `t` in direction `dir`: an outgoing edge
/// starts at `src` and ends at `t`, an incoming one the other way round, and
/// an undirected step may take the edge either way.
pub open spec fn connects(e: EdgeRef, src: u64, dir: RelDirection, t: u64) -> bool {
    let out = e.start_node == src && e.end_node == t;
    let inc = e.end_node == src && e.start_node == t;
    match dir {
        RelDirection::Outgoing => out,
        RelDirection::Incoming => inc,
        RelDirection::Undirected => out || inc,
    }
}

/// The match `m` (edge id, target) comes from an edge of `es` of the
/// requested type, passing the temporal filter, that connects `src` to the
/// target in direction `dir`.
pub open spec fn from_edge(
    es: Seq<EdgeRef>,
    src: u64,
    rel_type_id: Option<u32>,
    dir: RelDirection,
    filter: Option<TemporalFilter>,
    m: (u64, u64),
) -> bool {
    exists|i: int|
        #![trigger es[i]]
        0 <= i < es.len() && es[i].edge_id == m.0 && type_ok(es[i], rel_type_id) && time_ok(
            es[i],
            filter,
        ) && connects(es[i], src, dir, m.1)
}

/// The matches `ms` include edge `e`, with some target it connects `src` to.
pub open spec fn edge_found(ms: Seq<(u64, u64)>, e: EdgeRef, src: u64, dir: RelDirection) -> bool {
    exists|t: u64| #[trigger] connects(e, src, dir, t) && ms.contains((e.edge_id, t))
}

/// Edge `e` leaves `src` in direction `dir`: it starts there (outgoing),
/// ends there (incoming), or touches it (undirected).
pub open spec fn leaves(e: EdgeRef, src: u64, dir: RelDirection) -> bool {
    match dir {
        RelDirection::Outgoing => e.start_node == src,
        RelDirection::Incoming => e.end_node == src,
        RelDirection::Undirected => e.start_node == src || e.end_node == src,
    }
}

/// Expanding a node finds exactly its connections: every match is an edge
/// of the node, of the requested type, passing the temporal filter, that
/// connects the node to the match's target in the requested direction; and
/// every such edge that leaves the node in that direction gives a match.
pub proof fn lemma_expand_connects(
    es: Seq<EdgeRef>,
    src: u64,
    rel_type_id: Option<u32>,
    dir: RelDirection,
    filter: Option<TemporalFilter>,
)
    ensures
        forall|k: int|
            0 <= k < expand_matches(es, src, rel_type_id, dir, filter).len() ==> from_edge(
                es,
                src,
                rel_type_id,
                dir,
                filter,
                #[trigger] expand_matches(es, src, rel_type_id, dir, filter)[k],
            ),
        forall|i: int|
            0 <= i < es.len() && type_ok(#[trigger] es[i], rel_type_id) && time_ok(es[i], filter)
                && leaves(es[i], src, dir) ==> edge_found(
                expand_matches(es, src, rel_type_id, dir, filter),
                es[i],
                src,
                dir,
            ),
    decreases es.len(),
{
    if es.len() > 0 {
        let pre = es.drop_last();
        lemma_expand_connects(pre, src, rel_type_id, dir, filter);
        let e = es.last();
        let mp = expand_matches(pre, src, rel_type_id, dir, filter);
        let m = expand_matches(es, src, rel_type_id, dir, filter);
        let hit = type_ok(e, rel_type_id) && time_ok(e, filter) && far_end(e, src, dir) is Some;
        if hit {
            assert(m == mp.push((e.edge_id, far_end(e, src, dir)->0)));
        } else {
            assert(m == mp);
        }
        assert forall|k: int| 0 <= k < m.len() implies from_edge(
            es,
            src,
            rel_type_id,
            dir,
            filter,
            #[trigger] m[k],
        ) by {
            if k < mp.len() {
                assert(m[k] == mp[k]);
                assert(from_edge(pre, src, rel_type_id, dir, filter, mp[k]));
                let i = choose|i: int|
                    #![trigger pre[i]]
                    0 <= i < pre.len() && pre[i].edge_id == mp[k].0 && type_ok(pre[i], rel_type_id)
                        && time_ok(pre[i], filter) && connects(pre[i], src, dir, mp[k].1);
                assert(es[i] == pre[i]);
            } else {
                assert(es[es.len() - 1] == e);
            }
        }
        assert forall|i: int|
            0 <= i < es.len() && type_ok(#[trigger] es[i], rel_type_id) && time_ok(es[i], filter)
                && leaves(es[i], src, dir) implies edge_found(m, es[i], src, dir) by {
            if i < pre.len() {
                assert(es[i] == pre[i]);
                assert(edge_found(mp, pre[i], src, dir));
                let t = choose|t: u64|
                    #[trigger] connects(pre[i], src, dir, t) && mp.contains((pre[i].edge_id, t));
                let j = choose|j: int| 0 <= j < mp.len() && mp[j] == (pre[i].edge_id, t);
                assert(m[j] == mp[j]);
                assert(m.contains((es[i].edge_id, t)));
            } else {
                assert(es[i] == e);
                assert(hit);
                let t = far_end(e, src, dir)->0;
                assert(m[m.len() - 1] == (e.edge_id, t));
                assert(connects(e, src, dir, t));
                assert(m.contains((es[i].edge_id, t)));
            }
        }
    }
}

/// The node reached by following `edge` from `current` in `direction`, if
/// the edge leads anywhere from there.
pub fn edge_target(edge: &EdgeRef, current: u64, direction: &RelDirection) -> (r: Option<u64>)
    ensures
        r == far_end(*edge, current, *direction),
{
    match direction {
        RelDirection::Outgoing => {
            if edge.start_node == current {
                Some(edge.end_node)
            } else {
                None
            }
        },
        RelDirection::Incoming => {
            if edge.end_node == current {
                Some(edge.start_node)
            } else {
                None
            }
        },
        RelDirection::Undirected => {
            if edge.start_node == current {
                Some(edge.end_node)
            } else if edge.end_node == current {
                Some(edge.start_node)
            } else {
                None
            }
        },
    }
}

/// Expands node `src` along its edges: for each edge of the requested type
/// that passes the temporal filter and leads somewhere in `direction`, the
/// edge id and the node it leads to, in the order of `edges`.
pub fn expand_from_node(
    edges: &Vec<EdgeRef>,
    src: u64,
    rel_type_id: Option<u32>,
    direction: &RelDirection,
    temporal_filter: Option<&TemporalFilter>,
) -> (r: Vec<(u64, u64)>)
    ensures
        r@ == expand_matches(
            edges@,
            src,
            rel_type_id,
            *direction,
            match temporal_filter {
                Some(f) => Some(*f),
                None => None,
            },
        ),
{
    let ghost filter = match temporal_filter {
        Some(f) => Some(*f),
        None => None::<TemporalFilter>,
    };
    let mut results: Vec<(u64, u64)> = Vec::new();
    let mut i: usize = 0;
    while i < edges.len()
        invariant
            i <= edges@.len(),
            filter == match temporal_filter {
                Some(f) => Some(*f),
                None => None,
            },
            results@ == expand_matches(edges@.take(i as int), src, rel_type_id, *direction, filter),
        decreases edges.len() - i,
    {
        let edge = edges[i];
        proof {
            assert(edges@.take(i + 1).drop_last() =~= edges@.take(i as int));
        }
        i = i + 1;
        if let Some(tid) = rel_type_id {
            if edge.rel_type_id != tid {
                continue;
            }
        }
        if let Some(tf) = temporal_filter {
            if !is_edge_temporally_valid(edge.valid_from, edge.valid_to, tf) {
                continue;
            }
        }
        if let Some(target) = edge_target(&edge, src, direction) {
            results.push((edge.edge_id, target));
        }
    }
    proof {
        assert(edges@.take(edges@.len() as int) =~= edges@);
    }
    results
}

/// Expands node `src` with left-join semantics (OPTIONAL MATCH): the
/// matches of a plain expansion, each as `(Some(edge), Some(target))`, or a
/// single `(None, None)` row when there is no match.
pub fn optional_expand_from_node(
    edges: &Vec<EdgeRef>,
    src: u64,
    rel_type_id: Option<u32>,
    direction: &RelDirection,
) -> (r: Vec<(Option<u64>, Option<u64>)>)
    ensures
        ({
            let m = expand_matches(edges@, src, rel_type_id, *direction, None);
            if m.len() == 0 {
                r@ == seq![(None::<u64>, None::<u64>)]
            } else {
                r@ == m.map_values(|p: (u64, u64)| (Some(p.0), Some(p.1)))
            }
        }),
{
    let matches = expand_from_node(edges, src, rel_type_id, direction, None);
    let mut results: Vec<(Option<u64>, Option<u64>)> = Vec::new();
    let mut i: usize = 0;
    while i < matches.len()
        invariant
            i <= matches@.len(),
            results@ == matches@.take(i as int).map_values(
                |p: (u64, u64)| (Some(p.0), Some(p.1)),
            ),
        decreases matches.len() - i,
    {
        let (e, t) = matches[i];
        results.push((Some(e), Some(t)));
        proof {
            assert(matches@.take(i + 1) =~= matches@.take(i as int).push((e, t)));
        }
        i = i + 1;
        assert(results@ =~= matches@.take(i as int).map_values(
            |p: (u64, u64)| (Some(p.0), Some(p.1)),
        ));
    }
    if results.len() == 0 {
        results.push((None, None));
    }
    proof {
        assert(matches@.take(matches@.len() as int) =~= matches@);
    }
    results
}

/// The rows of an OPTIONAL expansion of one node: its matches as
/// `(Some(edge), Some(target))`, or a single `(None, None)` row when there
/// are none.
pub open spec fn optional_rows(m: Seq<(u64, u64)>) -> Seq<(Option<u64>, Option<u64>)> {
    if m.len() == 0 {
        seq![(None::<u64>, None::<u64>)]
    } else {
        m.map_values(|p: (u64, u64)| (Some(p.0), Some(p.1)))
    }
}

/// The rows of one source record of an OPTIONAL expansion, whose source
/// variable is bound to node `src` (`None` when it holds no node).
pub open spec fn optional_record_rows(
    adj: Seq<(u64, Vec<EdgeRef>)>,
    src: Option<u64>,
    rel_type_id: Option<u32>,
    dir: RelDirection,
) -> Seq<(Option<u64>, Option<u64>)> {
    match src {
        Some(n) => optional_rows(expand_matches(edges_of(adj, n), n, rel_type_id, dir, None)),
        None => seq![(None::<u64>, None::<u64>)],
    }
}

/// The rows of an OPTIONAL expansion of the source records `srcs`, each
/// tagged with the index of its record: the rows of the first record, then
/// those of the next, and so on.
pub open spec fn optional_expand_all(
    adj: Seq<(u64, Vec<EdgeRef>)>,
    srcs: Seq<Option<u64>>,
    rel_type_id: Option<u32>,
    dir: RelDirection,
) -> Seq<(int, Option<u64>, Option<u64>)>
    decreases srcs.len(),
{
    if srcs.len() == 0 {
        Seq::empty()
    } else {
        let i = srcs.len() - 1;
        optional_expand_all(adj, srcs.drop_last(), rel_type_id, dir) + optional_record_rows(
            adj,
            srcs.last(),
            rel_type_id,
            dir,
        ).map_values(|p: (Option<u64>, Option<u64>)| (i, p.0, p.1))
    }
}

/// A row tagged with the index of its record, with the index as an integer.
pub open spec fn tagged_row(x: (usize, Option<u64>, Option<u64>)) -> (int, Option<u64>, Option<u64>) {
    (x.0 as int, x.1, x.2)
}

/// Every source record gives at least one row.
pub proof fn lemma_optional_expand_keeps_records(
    adj: Seq<(u64, Vec<EdgeRef>)>,
    srcs: Seq<Option<u64>>,
    rel_type_id: Option<u32>,
    dir: RelDirection,
)
    ensures
        optional_expand_all(adj, srcs, rel_type_id, dir).len() >= srcs.len(),
    decreases srcs.len(),
{
    if srcs.len() > 0 {
        lemma_optional_expand_keeps_records(adj, srcs.drop_last(), rel_type_id, dir);
    }
}

/// Expands each source record with left-join semantics (OPTIONAL MATCH).
/// `sources` holds, for each record in order, the node its source variable
/// is bound to (`None` when it holds no node). The result lists, record by
/// record, the index of the record with each `(edge, target)` match, or with
/// `(None, None)` when the record has none; so no record is lost.
pub fn optional_expand_records(
    adj: &Adjacency,
    sources: &Vec<Option<u64>>,
    rel_type_id: Option<u32>,
    direction: &RelDirection,
) -> (r: Vec<(usize, Option<u64>, Option<u64>)>)
    ensures
        r@.map_values(|x: (usize, Option<u64>, Option<u64>)| tagged_row(x)) == optional_expand_all(adj@, sources@, rel_type_id, *direction),
        r@.len() >= sources@.len(),
{
    let mut out: Vec<(usize, Option<u64>, Option<u64>)> = Vec::new();
    let mut i: usize = 0;
    let empty: Vec<EdgeRef> = Vec::new();
    while i < sources.len()
        invariant
            i <= sources@.len(),
            empty@.len() == 0,
            out@.map_values(|x: (usize, Option<u64>, Option<u64>)| tagged_row(x))
                == optional_expand_all(
                adj@,
                sources@.take(i as int),
                rel_type_id,
                *direction,
            ),
        decreases sources.len() - i,
    {
        let ghost before = out@;
        let rows: Vec<(Option<u64>, Option<u64>)> = match sources[i] {
            Some(n) => {
                let es = match find_edges(adj, n) {
                    Some(k) => &adj[k].1,
                    None => &empty,
                };
                optional_expand_from_node(es, n, rel_type_id, direction)
            },
            None => vec![(None, None)],
        };
        proof {
            assert(rows@ == optional_record_rows(adj@, sources@[i as int], rel_type_id, *direction));
        }
        let mut j: usize = 0;
        while j < rows.len()
            invariant
                j <= rows@.len(),
                out@ == before + rows@.take(j as int).map_values(
                    |p: (Option<u64>, Option<u64>)| (i, p.0, p.1),
                ),
            decreases rows.len() - j,
        {
            let (e, t) = rows[j];
            out.push((i, e, t));
            proof {
                assert(rows@.take(j + 1) =~= rows@.take(j as int).push((e, t)));
            }
            j = j + 1;
            assert(out@ =~= before + rows@.take(j as int).map_values(
                |p: (Option<u64>, Option<u64>)| (i, p.0, p.1),
            ));
        }
        proof {
            let srcs = sources@.take(i + 1);
            assert(srcs.drop_last() =~= sources@.take(i as int));
            assert(srcs.last() == sources@[i as int]);
            assert(rows@.take(rows@.len() as int) =~= rows@);
            let tagged = rows@.map_values(|p: (Option<u64>, Option<u64>)| (i, p.0, p.1));
            let g = |x: (usize, Option<u64>, Option<u64>)| tagged_row(x);
            assert(out@ == before + tagged);
            assert(out@.map_values(g) =~= before.map_values(g) + tagged.map_values(g));
            assert forall|k: int| 0 <= k < tagged.len() implies #[trigger] tagged.map_values(g)[k]
                == (i as int, rows@[k].0, rows@[k].1) by {
                assert(tagged[k] == (i, rows@[k].0, rows@[k].1));
            }
            assert(tagged.map_values(g) =~= rows@.map_values(
                |p: (Option<u64>, Option<u64>)| (i as int, p.0, p.1),
            ));
        }
        i = i + 1;
    }
    proof {
        assert(sources@.take(sources@.len() as int) =~= sources@);
        lemma_optional_expand_keeps_records(adj@, sources@, rel_type_id, *direction);
    }
    out
}

/// The edges listed for node `n` in the entries of `adj` from `i` on: those
/// of the first entry for `n`, or none when `n` has no entry.
pub open spec fn edges_listed(adj: Seq<(u64, Vec<EdgeRef>)>, n: u64, i: int) -> Seq<EdgeRef>
    decreases adj.len() - i,
{
    if i < 0 || i >= adj.len() {
        Seq::empty()
    } else if adj[i].0 == n {
        adj[i].1@
    } else {
        edges_listed(adj, n, i + 1)
    }
}

/// The edges of node `n`.
pub open spec fn edges_of(adj: Seq<(u64, Vec<EdgeRef>)>, n: u64) -> Seq<EdgeRef> {
    edges_listed(adj, n, 0)
}

/// What a variable-length expansion walks over: the edges of each node, the
/// relationship type to follow (if any), the direction, and the hop bounds.
pub struct Walk {
    pub adj: Seq<(u64, Vec<EdgeRef>)>,
    pub rel_type_id: Option<u32>,
    pub dir: RelDirection,
    pub min_hops: int,
    pub max_hops: int,
}

/// The matches of a depth-first walk that stands at `cur` after
/// `depth - 1` hops, with the nodes of the current path in `visited`:
/// following each edge of `cur` in turn, a step to a node not on the path
/// is a match when `depth` is at least the minimum, and the walk goes on
/// from that node while `depth` is below the maximum.
pub open spec fn walk_from(w: Walk, cur: u64, depth: int, visited: Set<u64>) -> Seq<(Option<u64>, u64)>
    decreases w.max_hops + 1 - depth, 1int, 0int,
{
    if depth > w.max_hops {
        Seq::empty()
    } else {
        walk_edges(w, cur, edges_of(w.adj, cur), 0, depth, visited)
    }
}

/// The matches of the walk over the edges `es[i..]` of `cur`, at `depth`.
pub open spec fn walk_edges(
    w: Walk,
    cur: u64,
    es: Seq<EdgeRef>,
    i: int,
    depth: int,
    visited: Set<u64>,
) -> Seq<(Option<u64>, u64)>
    decreases w.max_hops + 1 - depth, 0int, es.len() - i,
{
    if i < 0 || i >= es.len() || depth > w.max_hops {
        Seq::empty()
    } else {
        let e = es[i];
        let rest = walk_edges(w, cur, es, i + 1, depth, visited);
        if !type_ok(e, w.rel_type_id) {
            rest
        } else {
            match far_end(e, cur, w.dir) {
                Some(t) => if visited.contains(t) {
                    rest
                } else {
                    (if depth >= w.min_hops {
                        seq![(Some(e.edge_id), t)]
                    } else {
                        Seq::empty()
                    }) + (if depth < w.max_hops {
                        walk_from(w, t, depth + 1, visited.insert(t))
                    } else {
                        Seq::empty()
                    }) + rest
                },
                None => rest,
            }
        }
    }
}

/// The walk of a variable-length expansion with these parameters.
pub open spec fn walk_of(
    adj: Seq<(u64, Vec<EdgeRef>)>,
    rel_type_id: Option<u32>,
    dir: RelDirection,
    min_hops: u32,
    max_hops: u32,
) -> Walk {
    Walk { adj, rel_type_id, dir, min_hops: min_hops as int, max_hops: max_hops as int }
}

/// The matches of a variable-length expansion from `src`: the source itself
/// (with no edge) when zero hops are allowed, then every node reached by a
/// path without repeated nodes whose length lies within the bounds, with the
/// last edge of that path, in depth-first order.
pub open spec fn var_length_matches(w: Walk, src: u64) -> Seq<(Option<u64>, u64)> {
    (if w.min_hops == 0 {
        seq![(None::<u64>, src)]
    } else {
        Seq::empty()
    }) + walk_from(w, src, 1, set![src])
}

/// Every match of a walk is reached over an edge, at a node off the path it
/// started from; and a walk whose minimum exceeds its maximum matches nothing.
proof fn lemma_walk_facts(w: Walk, cur: u64, depth: int, visited: Set<u64>)
    ensures
        forall|k: int|
            0 <= k < walk_from(w, cur, depth, visited).len() ==> {
                &&& !visited.contains(#[trigger] walk_from(w, cur, depth, visited)[k].1)
                &&& walk_from(w, cur, depth, visited)[k].0 is Some
            },
        w.min_hops > w.max_hops ==> walk_from(w, cur, depth, visited).len() == 0,
    decreases w.max_hops + 1 - depth, 1int, 0int,
{
    if depth <= w.max_hops {
        lemma_walk_edges_facts(w, cur, edges_of(w.adj, cur), 0, depth, visited);
        assert(walk_from(w, cur, depth, visited) == walk_edges(
            w,
            cur,
            edges_of(w.adj, cur),
            0,
            depth,
            visited,
        ));
    }
}

/// The facts of `lemma_walk_facts`, for the walk over the edges `es[i..]`.
proof fn lemma_walk_edges_facts(
    w: Walk,
    cur: u64,
    es: Seq<EdgeRef>,
    i: int,
    depth: int,
    visited: Set<u64>,
)
    ensures
        forall|k: int|
            0 <= k < walk_edges(w, cur, es, i, depth, visited).len() ==> {
                &&& !visited.contains(#[trigger] walk_edges(w, cur, es, i, depth, visited)[k].1)
                &&& walk_edges(w, cur, es, i, depth, visited)[k].0 is Some
            },
        w.min_hops > w.max_hops ==> walk_edges(w, cur, es, i, depth, visited).len() == 0,
    decreases w.max_hops + 1 - depth, 0int, es.len() - i,
{
    if 0 <= i < es.len() && depth <= w.max_hops {
        lemma_walk_edges_facts(w, cur, es, i + 1, depth, visited);
        let e = es[i];
        let rest = walk_edges(w, cur, es, i + 1, depth, visited);
        let skips = !type_ok(e, w.rel_type_id) || far_end(e, cur, w.dir) is None || visited.contains(
            far_end(e, cur, w.dir)->0,
        );
        if skips {
            assert(walk_edges(w, cur, es, i, depth, visited) == rest);
        }
        if type_ok(e, w.rel_type_id) {
            if let Some(t) = far_end(e, cur, w.dir) {
                if !visited.contains(t) {
                    let here: Seq<(Option<u64>, u64)> = if depth >= w.min_hops {
                        seq![(Some(e.edge_id), t)]
                    } else {
                        Seq::empty()
                    };
                    let below: Seq<(Option<u64>, u64)> = if depth < w.max_hops {
                        walk_from(w, t, depth + 1, visited.insert(t))
                    } else {
                        Seq::empty()
                    };
                    if depth < w.max_hops {
                        lemma_walk_facts(w, t, depth + 1, visited.insert(t));
                    }
                    let all = walk_edges(w, cur, es, i, depth, visited);
                    assert(all == here + below + rest);
                    assert forall|k: int| 0 <= k < all.len() implies {
                        &&& !visited.contains(#[trigger] all[k].1)
                        &&& all[k].0 is Some
                    } by {
                        if k < here.len() {
                            assert(all[k] == here[k]);
                        } else if k < here.len() + below.len() {
                            assert(all[k] == below[k - here.len()]);
                        } else {
                            assert(all[k] == rest[k - here.len() - below.len()]);
                        }
                    }
                }
            }
        }
    }
}

/// A variable-length expansion never follows a path back to the node
/// it started from; every match with an edge ends at another node, and only
/// the zero-hop match (with no edge) is the start node itself.
pub proof fn lemma_var_length_never_returns(w: Walk, src: u64)
    ensures
        forall|k: int|
            0 <= k < var_length_matches(w, src).len() ==> (#[trigger] var_length_matches(w, src)[k]).0
                is Some ==> var_length_matches(w, src)[k].1 != src,
{
    lemma_walk_facts(w, src, 1, set![src]);
    let z: Seq<(Option<u64>, u64)> = if w.min_hops == 0 {
        seq![(None::<u64>, src)]
    } else {
        Seq::empty()
    };
    let walk = walk_from(w, src, 1, set![src]);
    assert forall|k: int|
        0 <= k < var_length_matches(w, src).len() && (#[trigger] var_length_matches(w, src)[k]).0
            is Some implies var_length_matches(w, src)[k].1 != src by {
        if k >= z.len() {
            assert(var_length_matches(w, src)[k] == walk[k - z.len()]);
            assert(set![src].contains(src));
        }
    }
}

/// When the minimum hop count exceeds the maximum, a variable-length
/// expansion has no matches.
pub proof fn lemma_var_length_empty_bounds(w: Walk, src: u64)
    requires
        0 <= w.max_hops < w.min_hops,
    ensures
        var_length_matches(w, src).len() == 0,
{
    lemma_walk_facts(w, src, 1, set![src]);
}

/// The node a path of `steps` from `src` stands at after `i` steps.
pub open spec fn node_after(src: u64, steps: Seq<(EdgeRef, u64)>, i: int) -> u64 {
    if i <= 0 {
        src
    } else {
        steps[i - 1].1
    }
}

/// `steps` is a path from `src` over the edges a walk follows that passes
/// no node twice: each step takes an edge listed for the node it leaves, of
/// the walk's relationship type, to the node that edge leads to in the
/// walk's direction.
pub open spec fn simple_path(w: Walk, src: u64, steps: Seq<(EdgeRef, u64)>) -> bool {
    &&& forall|i: int|
        0 <= i < steps.len() ==> {
            &&& edges_of(w.adj, node_after(src, steps, i)).contains(#[trigger] steps[i].0)
            &&& type_ok(steps[i].0, w.rel_type_id)
            &&& far_end(steps[i].0, node_after(src, steps, i), w.dir) == Some(steps[i].1)
        }
    &&& forall|i: int, j: int|
        #![trigger node_after(src, steps, i), node_after(src, steps, j)]
        0 <= i < j <= steps.len() ==> node_after(src, steps, i) != node_after(src, steps, j)
}

/// The match `m` of a variable-length expansion from `src` is the end of
/// the simple path `steps`, whose length lies within the hop bounds: `m`
/// holds the last edge of the path and the node it reaches.
pub open spec fn reached_by(w: Walk, src: u64, steps: Seq<(EdgeRef, u64)>, m: (Option<u64>, u64)) -> bool {
    &&& simple_path(w, src, steps)
    &&& steps.len() >= 1
    &&& w.min_hops <= steps.len() <= w.max_hops
    &&& m == path_end(steps)
}

/// The match `m` of a variable-length expansion from `src` ends some simple
/// path within the hop bounds.
pub open spec fn reached(w: Walk, src: u64, m: (Option<u64>, u64)) -> bool {
    exists|p: Seq<(EdgeRef, u64)>| #[trigger] reached_by(w, src, p, m)
}

/// The nodes of a path: `visited` holds exactly the nodes the path `pre`
/// from `src` passes.
pub open spec fn nodes_of(visited: Set<u64>, src: u64, pre: Seq<(EdgeRef, u64)>) -> bool {
    forall|n: u64|
        #[trigger] visited.contains(n) <==> exists|i: int|
            0 <= i <= pre.len() && #[trigger] node_after(src, pre, i) == n
}

/// Extending a simple path by a step from its end to a node it does not
/// pass gives a simple path, whose nodes are those of the first with the
/// new node.
proof fn lemma_path_push(
    w: Walk,
    src: u64,
    pre: Seq<(EdgeRef, u64)>,
    visited: Set<u64>,
    e: EdgeRef,
    t: u64,
)
    requires
        simple_path(w, src, pre),
        nodes_of(visited, src, pre),
        edges_of(w.adj, node_after(src, pre, pre.len() as int)).contains(e),
        type_ok(e, w.rel_type_id),
        far_end(e, node_after(src, pre, pre.len() as int), w.dir) == Some(t),
        !visited.contains(t),
    ensures
        simple_path(w, src, pre.push((e, t))),
        nodes_of(visited.insert(t), src, pre.push((e, t))),
        node_after(src, pre.push((e, t)), pre.len() as int + 1) == t,
{
    let p = pre.push((e, t));
    assert forall|i: int| 0 <= i <= pre.len() implies node_after(src, p, i) == node_after(src, pre, i) by {
        if i > 0 {
            assert(p[i - 1] == pre[i - 1]);
        }
    }
    assert forall|i: int| 0 <= i < p.len() implies {
        &&& edges_of(w.adj, node_after(src, p, i)).contains(#[trigger] p[i].0)
        &&& type_ok(p[i].0, w.rel_type_id)
        &&& far_end(p[i].0, node_after(src, p, i), w.dir) == Some(p[i].1)
    } by {
        assert(node_after(src, p, i) == node_after(src, pre, i));
        if i < pre.len() {
            assert(p[i] == pre[i]);
        }
    }
    assert forall|i: int, j: int| 0 <= i < j <= p.len() implies node_after(src, p, i) != node_after(
        src,
        p,
        j,
    ) by {
        assert(node_after(src, p, i) == node_after(src, pre, i));
        if j <= pre.len() {
            assert(node_after(src, p, j) == node_after(src, pre, j));
        } else {
            assert(node_after(src, p, j) == t);
            assert(visited.contains(node_after(src, pre, i)));
        }
    }
    assert forall|n: u64| #[trigger] visited.insert(t).contains(n) <==> exists|i: int|
        0 <= i <= p.len() && #[trigger] node_after(src, p, i) == n by {
        if visited.insert(t).contains(n) {
            if n == t {
                assert(node_after(src, p, p.len() as int) == n);
            } else {
                assert(visited.contains(n));
                let i = choose|i: int| 0 <= i <= pre.len() && #[trigger] node_after(src, pre, i) == n;
                assert(node_after(src, p, i) == n);
            }
        }
        if exists|i: int| 0 <= i <= p.len() && #[trigger] node_after(src, p, i) == n {
            let i = choose|i: int| 0 <= i <= p.len() && #[trigger] node_after(src, p, i) == n;
            if i <= pre.len() {
                assert(node_after(src, pre, i) == n);
                assert(visited.contains(n));
            }
        }
    }
    assert(node_after(src, p, pre.len() as int + 1) == t);
}

/// Every match of a walk that stands at the end of the simple path `pre`
/// (with the nodes of `pre` in `visited`) ends a simple path within the
/// hop bounds.
proof fn lemma_walk_paths(
    w: Walk,
    src: u64,
    pre: Seq<(EdgeRef, u64)>,
    cur: u64,
    depth: int,
    visited: Set<u64>,
)
    requires
        simple_path(w, src, pre),
        pre.len() == depth - 1,
        cur == node_after(src, pre, pre.len() as int),
        nodes_of(visited, src, pre),
    ensures
        forall|k: int|
            #![trigger walk_from(w, cur, depth, visited)[k]]
            0 <= k < walk_from(w, cur, depth, visited).len() ==> reached(
                w,
                src,
                walk_from(w, cur, depth, visited)[k],
            ),
    decreases w.max_hops + 1 - depth, 1int, 0int,
{
    if depth <= w.max_hops {
        let es = edges_of(w.adj, cur);
        lemma_walk_edges_paths(w, src, pre, cur, es, 0, depth, visited);
        let all = walk_from(w, cur, depth, visited);
        assert(all == walk_edges(w, cur, es, 0, depth, visited));
        assert forall|k: int| #![trigger all[k]] 0 <= k < all.len() implies reached(w, src, all[k]) by {
            let m = walk_edges(w, cur, es, 0, depth, visited)[k];
            let p = choose|p: Seq<(EdgeRef, u64)>| reached_by(w, src, p, m);
            assert(reached_by(w, src, p, all[k]));
        }
    }
}

/// The facts of `lemma_walk_paths`, for the walk over the edges `es[i..]`
/// of `cur`.
proof fn lemma_walk_edges_paths(
    w: Walk,
    src: u64,
    pre: Seq<(EdgeRef, u64)>,
    cur: u64,
    es: Seq<EdgeRef>,
    i: int,
    depth: int,
    visited: Set<u64>,
)
    requires
        simple_path(w, src, pre),
        pre.len() == depth - 1,
        cur == node_after(src, pre, pre.len() as int),
        nodes_of(visited, src, pre),
        es == edges_of(w.adj, cur),
    ensures
        forall|k: int|
            #![trigger walk_edges(w, cur, es, i, depth, visited)[k]]
            0 <= k < walk_edges(w, cur, es, i, depth, visited).len() ==> reached(
                w,
                src,
                walk_edges(w, cur, es, i, depth, visited)[k],
            ),
    decreases w.max_hops + 1 - depth, 0int, es.len() - i,
{
    if 0 <= i < es.len() && depth <= w.max_hops {
        lemma_walk_edges_paths(w, src, pre, cur, es, i + 1, depth, visited);
        let e = es[i];
        let rest = walk_edges(w, cur, es, i + 1, depth, visited);
        let all = walk_edges(w, cur, es, i, depth, visited);
        let skips = !type_ok(e, w.rel_type_id) || far_end(e, cur, w.dir) is None || visited.contains(
            far_end(e, cur, w.dir)->0,
        );
        if skips {
            assert(all == rest);
            assert forall|k: int| #![trigger all[k]] 0 <= k < all.len() implies reached(w, src, all[k]) by {
                let p = choose|p: Seq<(EdgeRef, u64)>| reached_by(w, src, p, rest[k]);
                assert(reached_by(w, src, p, all[k]));
            }
        } else {
            let t = far_end(e, cur, w.dir)->0;
            assert(es[i] == e);
            assert(es.contains(e));
            lemma_path_push(w, src, pre, visited, e, t);
            let p1 = pre.push((e, t));
            let here: Seq<(Option<u64>, u64)> = if depth >= w.min_hops {
                seq![(Some(e.edge_id), t)]
            } else {
                Seq::empty()
            };
            let below: Seq<(Option<u64>, u64)> = if depth < w.max_hops {
                walk_from(w, t, depth + 1, visited.insert(t))
            } else {
                Seq::empty()
            };
            if depth < w.max_hops {
                lemma_walk_paths(w, src, p1, t, depth + 1, visited.insert(t));
            }
            assert(all == here + below + rest);
            assert forall|k: int| #![trigger all[k]] 0 <= k < all.len() implies reached(w, src, all[k]) by {
                if k < here.len() {
                    assert(all[k] == here[k]);
                    assert(p1.last() == (e, t));
                    assert(reached_by(w, src, p1, all[k]));
                } else if k < here.len() + below.len() {
                    assert(all[k] == below[k - here.len()]);
                    let mb = below[k - here.len()];
                    let p = choose|p: Seq<(EdgeRef, u64)>| reached_by(w, src, p, mb);
                    assert(reached_by(w, src, p, all[k]));
                } else {
                    assert(all[k] == rest[k - here.len() - below.len()]);
                    let mr = rest[k - here.len() - below.len()];
                    let p = choose|p: Seq<(EdgeRef, u64)>| reached_by(w, src, p, mr);
                    assert(reached_by(w, src, p, all[k]));
                }
            }
        }
    }
}

/// Every match of a variable-length expansion is either the source itself
/// with no edge (first, when zero hops are allowed), or the end of a path
/// from the source that passes no node twice, whose length lies within the
/// hop bounds, with the last edge of that path.
pub proof fn lemma_var_length_paths(w: Walk, src: u64)
    ensures
        forall|k: int|
            #![trigger var_length_matches(w, src)[k]]
            0 <= k < var_length_matches(w, src).len() ==> {
                ||| (k == 0 && w.min_hops == 0 && var_length_matches(w, src)[k] == (None::<u64>, src))
                ||| reached(w, src, var_length_matches(w, src)[k])
            },
{
    let empty = Seq::<(EdgeRef, u64)>::empty();
    assert forall|n: u64| #[trigger] set![src].contains(n) <==> exists|i: int|
        0 <= i <= empty.len() && #[trigger] node_after(src, empty, i) == n by {
        if n == src {
            assert(node_after(src, empty, 0) == n);
        }
    }
    lemma_walk_paths(w, src, empty, src, 1, set![src]);
    let z: Seq<(Option<u64>, u64)> = if w.min_hops == 0 {
        seq![(None::<u64>, src)]
    } else {
        Seq::empty()
    };
    let walk = walk_from(w, src, 1, set![src]);
    assert(var_length_matches(w, src) == z + walk);
    assert forall|k: int|
        #![trigger var_length_matches(w, src)[k]]
        0 <= k < var_length_matches(w, src).len() implies {
        ||| (k == 0 && w.min_hops == 0 && var_length_matches(w, src)[k] == (None::<u64>, src))
        ||| reached(w, src, var_length_matches(w, src)[k])
    } by {
        if k >= z.len() {
            assert(var_length_matches(w, src)[k] == walk[k - z.len()]);
            let mw = walk[k - z.len()];
            let p = choose|p: Seq<(EdgeRef, u64)>| reached_by(w, src, p, mw);
            assert(reached_by(w, src, p, var_length_matches(w, src)[k]));
        }
    }
}

/// The match a path ends with: its last edge and the node it reaches.
pub open spec fn path_end(p: Seq<(EdgeRef, u64)>) -> (Option<u64>, u64) {
    (Some(p.last().0.edge_id), p.last().1)
}

/// The first `j` steps of a simple path form a simple path through the
/// same nodes.
proof fn lemma_prefix_simple(w: Walk, src: u64, p: Seq<(EdgeRef, u64)>, j: int)
    requires
        simple_path(w, src, p),
        0 <= j <= p.len(),
    ensures
        simple_path(w, src, p.take(j)),
        forall|i: int| 0 <= i <= j ==> #[trigger] node_after(src, p.take(j), i) == node_after(src, p, i),
{
    let q = p.take(j);
    assert forall|i: int| 0 <= i <= j implies #[trigger] node_after(src, q, i) == node_after(src, p, i) by {
        if i > 0 {
            assert(q[i - 1] == p[i - 1]);
        }
    }
    assert forall|i: int| 0 <= i < q.len() implies {
        &&& edges_of(w.adj, node_after(src, q, i)).contains(#[trigger] q[i].0)
        &&& type_ok(q[i].0, w.rel_type_id)
        &&& far_end(q[i].0, node_after(src, q, i), w.dir) == Some(q[i].1)
    } by {
        assert(q[i] == p[i]);
        assert(node_after(src, q, i) == node_after(src, p, i));
    }
    assert forall|i: int, k: int| 0 <= i < k <= q.len() implies node_after(src, q, i) != node_after(
        src,
        q,
        k,
    ) by {
        assert(node_after(src, q, i) == node_after(src, p, i));
        assert(node_after(src, q, k) == node_after(src, p, k));
    }
}

/// A walk standing after the first `d - 1` steps of a simple path `p`
/// within the hop bounds (with the nodes of those steps in `visited`)
/// finds the end of `p`.
proof fn lemma_walk_complete(w: Walk, src: u64, p: Seq<(EdgeRef, u64)>, d: int, visited: Set<u64>)
    requires
        simple_path(w, src, p),
        1 <= d <= p.len(),
        w.min_hops <= p.len() <= w.max_hops,
        nodes_of(visited, src, p.take(d - 1)),
    ensures
        walk_from(w, node_after(src, p, d - 1), d, visited).contains(path_end(p)),
    decreases p.len() - d, 1int, 0int,
{
    let cur = node_after(src, p, d - 1);
    let es = edges_of(w.adj, cur);
    let e = p[d - 1].0;
    assert(es.contains(e));
    let i0 = choose|i0: int| 0 <= i0 < es.len() && es[i0] == e;
    lemma_edges_complete(w, src, p, d, visited, es, 0, i0);
}

/// The walk over the edges `es[i..]` of the node after `d - 1` steps of `p`
/// finds the end of `p`, whose next step takes the edge `es[i0]`.
proof fn lemma_edges_complete(
    w: Walk,
    src: u64,
    p: Seq<(EdgeRef, u64)>,
    d: int,
    visited: Set<u64>,
    es: Seq<EdgeRef>,
    i: int,
    i0: int,
)
    requires
        simple_path(w, src, p),
        1 <= d <= p.len(),
        w.min_hops <= p.len() <= w.max_hops,
        nodes_of(visited, src, p.take(d - 1)),
        es == edges_of(w.adj, node_after(src, p, d - 1)),
        0 <= i <= i0 < es.len(),
        es[i0] == p[d - 1].0,
    ensures
        walk_edges(w, node_after(src, p, d - 1), es, i, d, visited).contains(path_end(p)),
    decreases p.len() - d, 0int, i0 - i,
{
    let cur = node_after(src, p, d - 1);
    let e = es[i];
    let all = walk_edges(w, cur, es, i, d, visited);
    let rest = walk_edges(w, cur, es, i + 1, d, visited);
    if i < i0 {
        lemma_edges_complete(w, src, p, d, visited, es, i + 1, i0);
        let k = choose|k: int| 0 <= k < rest.len() && rest[k] == path_end(p);
        let skips = !type_ok(e, w.rel_type_id) || far_end(e, cur, w.dir) is None || visited.contains(
            far_end(e, cur, w.dir)->0,
        );
        if skips {
            assert(all == rest);
            assert(all[k] == path_end(p));
        } else {
            let t = far_end(e, cur, w.dir)->0;
            let here: Seq<(Option<u64>, u64)> = if d >= w.min_hops {
                seq![(Some(e.edge_id), t)]
            } else {
                Seq::empty()
            };
            let below: Seq<(Option<u64>, u64)> = if d < w.max_hops {
                walk_from(w, t, d + 1, visited.insert(t))
            } else {
                Seq::empty()
            };
            assert(all == here + below + rest);
            assert(all[here.len() + below.len() + k] == path_end(p));
        }
    } else {
        let pre = p.take(d - 1);
        let t = p[d - 1].1;
        lemma_prefix_simple(w, src, p, d - 1);
        lemma_prefix_simple(w, src, p, d);
        assert(node_after(src, pre, pre.len() as int) == cur);
        assert(far_end(e, cur, w.dir) == Some(t));
        assert(node_after(src, p, d) == t);
        assert(!visited.contains(t)) by {
            if visited.contains(t) {
                let j = choose|j: int| 0 <= j <= pre.len() && #[trigger] node_after(src, pre, j) == t;
                assert(node_after(src, p, j) == t);
            }
        }
        let here: Seq<(Option<u64>, u64)> = if d >= w.min_hops {
            seq![(Some(e.edge_id), t)]
        } else {
            Seq::empty()
        };
        let below: Seq<(Option<u64>, u64)> = if d < w.max_hops {
            walk_from(w, t, d + 1, visited.insert(t))
        } else {
            Seq::empty()
        };
        assert(all == here + below + rest);
        if d == p.len() {
            assert(p.last() == p[d - 1]);
            assert(all[0] == path_end(p));
        } else {
            assert(edges_of(w.adj, cur).contains(e));
            lemma_path_push(w, src, pre, visited, e, t);
            assert(pre.push((e, t)) =~= p.take(d));
            assert(p[d - 1] == (e, t));
            lemma_walk_complete(w, src, p, d + 1, visited.insert(t));
            assert(node_after(src, p, d) == t);
            let k = choose|k: int| 0 <= k < below.len() && below[k] == path_end(p);
            assert(all[here.len() + k] == path_end(p));
        }
    }
}

/// Every path from the source that passes no node twice and whose length
/// lies within the hop bounds is found by a variable-length expansion, with
/// its last edge and the node it reaches.
pub proof fn lemma_var_length_complete(w: Walk, src: u64, p: Seq<(EdgeRef, u64)>)
    requires
        simple_path(w, src, p),
        p.len() >= 1,
        w.min_hops <= p.len() <= w.max_hops,
    ensures
        var_length_matches(w, src).contains(path_end(p)),
{
    let empty = p.take(0);
    assert(empty =~= Seq::<(EdgeRef, u64)>::empty());
    assert forall|n: u64| #[trigger] set![src].contains(n) <==> exists|i: int|
        0 <= i <= empty.len() && #[trigger] node_after(src, empty, i) == n by {
        if n == src {
            assert(node_after(src, empty, 0) == n);
        }
    }
    lemma_walk_complete(w, src, p, 1, set![src]);
    let z: Seq<(Option<u64>, u64)> = if w.min_hops == 0 {
        seq![(None::<u64>, src)]
    } else {
        Seq::empty()
    };
    let walk = walk_from(w, src, 1, set![src]);
    assert(node_after(src, p, 0) == src);
    assert(var_length_matches(w, src) == z + walk);
    let k = choose|k: int| 0 <= k < walk.len() && walk[k] == path_end(p);
    assert(var_length_matches(w, src)[z.len() + k] == path_end(p));
}

/// The matches `ms` of a plain expansion from `src` that lead to a node
/// other than `src`, each with its edge marked present.
pub open spec fn off_start(ms: Seq<(u64, u64)>, src: u64) -> Seq<(Option<u64>, u64)>
    decreases ms.len(),
{
    if ms.len() == 0 {
        Seq::empty()
    } else {
        let before = off_start(ms.drop_last(), src);
        if ms.last().1 != src {
            before.push((Some(ms.last().0), ms.last().1))
        } else {
            before
        }
    }
}

/// What the last edge of `es` adds to a one-hop walk from `src`.
spec fn last_step(w: Walk, src: u64, es: Seq<EdgeRef>) -> Seq<(Option<u64>, u64)> {
    let e = es.last();
    if type_ok(e, w.rel_type_id) && far_end(e, src, w.dir) is Some && far_end(e, src, w.dir)->0
        != src {
        seq![(Some(e.edge_id), far_end(e, src, w.dir)->0)]
    } else {
        Seq::empty()
    }
}

/// A one-hop walk over `es[i..]` is the walk over the same edges but the last,
/// then what the last edge adds.
proof fn lemma_one_hop_split(w: Walk, src: u64, es: Seq<EdgeRef>, i: int)
    requires
        w.min_hops == 1,
        w.max_hops == 1,
        0 <= i < es.len(),
    ensures
        walk_edges(w, src, es, i, 1, set![src]) == walk_edges(w, src, es.drop_last(), i, 1, set![src])
            + last_step(w, src, es),
    decreases es.len() - i,
{
    let v = set![src];
    let dl = es.drop_last();
    if i + 1 < es.len() {
        lemma_one_hop_split(w, src, es, i + 1);
        assert(dl[i] == es[i]);
        let e = es[i];
        let here: Seq<(Option<u64>, u64)> = if type_ok(e, w.rel_type_id) && far_end(e, src, w.dir) is Some
            && !v.contains(far_end(e, src, w.dir)->0) {
            seq![(Some(e.edge_id), far_end(e, src, w.dir)->0)]
        } else {
            Seq::empty()
        };
        assert(walk_edges(w, src, es, i, 1, v) =~= here + walk_edges(w, src, es, i + 1, 1, v));
        assert(walk_edges(w, src, dl, i, 1, v) =~= here + walk_edges(w, src, dl, i + 1, 1, v));
        assert(here + (walk_edges(w, src, dl, i + 1, 1, v) + last_step(w, src, es)) =~= (here
            + walk_edges(w, src, dl, i + 1, 1, v)) + last_step(w, src, es));
    } else {
        assert(walk_edges(w, src, es, i + 1, 1, v) =~= Seq::<(Option<u64>, u64)>::empty());
        assert(walk_edges(w, src, dl, i, 1, v) =~= Seq::<(Option<u64>, u64)>::empty());
        assert(walk_edges(w, src, es, i, 1, v) =~= last_step(w, src, es));
    }
}

/// A one-hop walk over the edges `es` of `src` is the plain expansion over
/// them, less the steps back to `src`.
proof fn lemma_one_hop_edges(w: Walk, src: u64, es: Seq<EdgeRef>)
    requires
        w.min_hops == 1,
        w.max_hops == 1,
    ensures
        walk_edges(w, src, es, 0, 1, set![src]) == off_start(
            expand_matches(es, src, w.rel_type_id, w.dir, None),
            src,
        ),
    decreases es.len(),
{
    if es.len() > 0 {
        lemma_one_hop_edges(w, src, es.drop_last());
        lemma_one_hop_split(w, src, es, 0);
        let ms = expand_matches(es, src, w.rel_type_id, w.dir, None);
        let before = expand_matches(es.drop_last(), src, w.rel_type_id, w.dir, None);
        if type_ok(es.last(), w.rel_type_id) && far_end(es.last(), src, w.dir) is Some {
            assert(ms.drop_last() =~= before);
            if far_end(es.last(), src, w.dir)->0 != src {
                assert(off_start(ms, src) =~= off_start(before, src) + last_step(w, src, es));
            } else {
                assert(off_start(ms, src) =~= off_start(before, src) + last_step(w, src, es));
            }
        } else {
            assert(off_start(ms, src) =~= off_start(before, src) + last_step(w, src, es));
        }
    } else {
        assert(walk_edges(w, src, es, 0, 1, set![src]) =~= Seq::<(Option<u64>, u64)>::empty());
    }
}

/// A variable-length expansion of exactly one hop matches what a plain
/// expansion over the same edges matches, in the same order, less the edges
/// that lead back to the start node.
pub proof fn lemma_one_hop_is_expand(
    adj: Seq<(u64, Vec<EdgeRef>)>,
    src: u64,
    rel_type_id: Option<u32>,
    dir: RelDirection,
)
    ensures
        var_length_matches(walk_of(adj, rel_type_id, dir, 1, 1), src) == off_start(
            expand_matches(edges_of(adj, src), src, rel_type_id, dir, None),
            src,
        ),
{
    let w = walk_of(adj, rel_type_id, dir, 1, 1);
    lemma_one_hop_edges(w, src, edges_of(adj, src));
    assert(var_length_matches(w, src) =~= walk_from(w, src, 1, set![src]));
}

/// Finds the entry of `adj` that lists the edges of node `n`.
fn find_edges(adj: &Adjacency, n: u64) -> (r: Option<usize>)
    ensures
        match r {
            Some(i) => i < adj@.len() && adj@[i as int].0 == n && edges_of(adj@, n) == adj@[i as int].1@,
            None => edges_of(adj@, n) == Seq::<EdgeRef>::empty(),
        },
{
    let mut i: usize = 0;
    while i < adj.len()
        invariant
            i <= adj@.len(),
            edges_listed(adj@, n, 0) == edges_listed(adj@, n, i as int),
        decreases adj.len() - i,
    {
        if adj[i].0 == n {
            return Some(i);
        }
        i = i + 1;
    }
    None
}

/// Depth-first search with backtracking from `current_node`, reached after
/// `depth - 1` hops along a path whose nodes are in `visited`; appends the
/// matches to `results` and leaves `visited` as it found it.
fn dfs(
    adj: &Adjacency,
    current_node: u64,
    depth: u32,
    min_hops: u32,
    max_hops: u32,
    visited: &mut HashSet<u64>,
    rel_type_id: Option<u32>,
    direction: &RelDirection,
    results: &mut Vec<(Option<u64>, u64)>,
)
    requires
        1 <= depth,
    ensures
        final(visited)@ == old(visited)@,
        final(results)@ == old(results)@ + walk_from(
            walk_of(adj@, rel_type_id, *direction, min_hops, max_hops),
            current_node,
            depth as int,
            old(visited)@,
        ),
    decreases max_hops + 1 - depth,
{
    let ghost w = walk_of(adj@, rel_type_id, *direction, min_hops, max_hops);
    if depth > max_hops {
        assert(results@ =~= results@ + Seq::<(Option<u64>, u64)>::empty());
        return;
    }
    let idx = match find_edges(adj, current_node) {
        Some(i) => i,
        None => {
            assert(results@ =~= results@ + Seq::<(Option<u64>, u64)>::empty());
            return;
        },
    };
    let edges = &adj[idx].1;
    let ghost es = edges@;
    let ghost v0 = visited@;
    let ghost r0 = results@;
    let mut i: usize = 0;
    while i < edges.len()
        invariant
            i <= es.len(),
            es == edges@,
            es == edges_of(adj@, current_node),
            w == walk_of(adj@, rel_type_id, *direction, min_hops, max_hops),
            1 <= depth <= max_hops,
            visited@ == v0,
            results@ + walk_edges(w, current_node, es, i as int, depth as int, v0) == r0
                + walk_edges(w, current_node, es, 0, depth as int, v0),
        decreases edges.len() - i,
    {
        let edge = edges[i];
        let ghost k = i as int;
        let ghost rs = results@;
        let ghost rest = walk_edges(w, current_node, es, k + 1, depth as int, v0);
        assert(es[k] == edge);
        i = i + 1;
        if let Some(tid) = rel_type_id {
            if edge.rel_type_id != tid {
                continue;
            }
        }
        match edge_target(&edge, current_node, direction) {
            Some(target) => {
                if visited.contains(&target) {
                    continue;
                }
                let ghost here: Seq<(Option<u64>, u64)> = if depth >= min_hops {
                    seq![(Some(edge.edge_id), target)]
                } else {
                    Seq::empty()
                };
                if depth >= min_hops {
                    results.push((Some(edge.edge_id), target));
                }
                assert(results@ =~= rs + here);
                let ghost below: Seq<(Option<u64>, u64)> = if depth < max_hops {
                    walk_from(w, target, depth + 1, v0.insert(target))
                } else {
                    Seq::empty()
                };
                if depth < max_hops {
                    visited.insert(target);
                    dfs(
                        adj,
                        target,
                        depth + 1,
                        min_hops,
                        max_hops,
                        visited,
                        rel_type_id,
                        direction,
                        results,
                    );
                    visited.remove(&target);
                    assert(visited@ =~= v0);
                } else {
                    assert(results@ =~= rs + here + below);
                }
                assert(results@ + rest =~= rs + (here + below + rest));
            },
            None => {},
        }
    }
}

/// Expands node `src` over variable-length relationships: the source itself
/// with no edge when `min_hops` is 0, then, in depth-first order, every node
/// reached by a path of `min_hops` to `max_hops` edges that repeats no node,
/// with the last edge of the path.
pub fn var_length_expand_from_node(
    adj: &Adjacency,
    src: u64,
    rel_type_id: Option<u32>,
    direction: &RelDirection,
    min_hops: u32,
    max_hops: u32,
) -> (r: Vec<(Option<u64>, u64)>)
    ensures
        r@ == var_length_matches(walk_of(adj@, rel_type_id, *direction, min_hops, max_hops), src),
{
    let mut results: Vec<(Option<u64>, u64)> = Vec::new();
    if min_hops == 0 {
        results.push((None, src));
    }
    let mut visited: HashSet<u64> = HashSet::new();
    visited.insert(src);
    assert(visited@ =~= set![src]);
    dfs(adj, src, 1, min_hops, max_hops, &mut visited, rel_type_id, direction, &mut results);
    results
}

} // verus!
