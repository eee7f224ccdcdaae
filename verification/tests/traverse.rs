use cypherlite_query::executor::traverse::{
    edge_target, expand_from_node, optional_expand_from_node, optional_expand_records,
    var_length_expand_from_node,
    Adjacency, EdgeRef,
};
use cypherlite_query::executor::TemporalFilter;
use cypherlite_query::parser::ast::RelDirection;

const KNOWS: u32 = 1;
const LIKES: u32 = 2;

fn edge(edge_id: u64, start_node: u64, end_node: u64, rel_type_id: u32) -> EdgeRef {
    EdgeRef { edge_id, start_node, end_node, rel_type_id, valid_from: None, valid_to: None }
}

/// The edges touching each node, in the order the edges were made.
fn adjacency(node_count: u64, edges: &[EdgeRef]) -> Adjacency {
    (0..node_count)
        .map(|n| {
            let touching: Vec<EdgeRef> = edges
                .iter()
                .filter(|e| e.start_node == n || e.end_node == n)
                .copied()
                .collect();
            (n, touching)
        })
        .collect()
}

/// A chain 0 -> 1 -> ... -> count-1 of KNOWS edges, edge `i` with id `100 + i`.
fn chain(count: u64) -> Adjacency {
    let edges: Vec<EdgeRef> = (0..count - 1).map(|i| edge(100 + i, i, i + 1, KNOWS)).collect();
    adjacency(count, &edges)
}

fn targets(r: &[(Option<u64>, u64)]) -> Vec<u64> {
    r.iter().map(|p| p.1).collect()
}

#[test]
fn var_length_one_hop_on_chain() {
    let adj = chain(3);
    let r = var_length_expand_from_node(&adj, 0, Some(KNOWS), &RelDirection::Outgoing, 1, 1);
    assert_eq!(r, vec![(Some(100), 1)]);
}

#[test]
fn var_length_one_to_two_hops() {
    let adj = chain(4);
    let r = var_length_expand_from_node(&adj, 0, Some(KNOWS), &RelDirection::Outgoing, 1, 2);
    assert_eq!(targets(&r), vec![1, 2]);
}

#[test]
fn var_length_one_to_three_hops_linear() {
    let adj = chain(5);
    let r = var_length_expand_from_node(&adj, 0, Some(KNOWS), &RelDirection::Outgoing, 1, 3);
    assert_eq!(targets(&r), vec![1, 2, 3]);
}

#[test]
fn var_length_without_type_filter_follows_all_types() {
    let adj = adjacency(3, &[edge(10, 0, 1, KNOWS), edge(11, 1, 2, LIKES)]);
    let r = var_length_expand_from_node(&adj, 0, None, &RelDirection::Outgoing, 1, 2);
    assert_eq!(r, vec![(Some(10), 1), (Some(11), 2)]);
}

#[test]
fn var_length_type_filter_stops_at_other_types() {
    let adj = adjacency(3, &[edge(10, 0, 1, KNOWS), edge(11, 1, 2, LIKES)]);
    let r = var_length_expand_from_node(&adj, 0, Some(KNOWS), &RelDirection::Outgoing, 1, 3);
    assert_eq!(r, vec![(Some(10), 1)]);
}

#[test]
fn var_length_incoming() {
    let adj = chain(4);
    let r = var_length_expand_from_node(&adj, 3, Some(KNOWS), &RelDirection::Incoming, 1, 2);
    assert_eq!(r, vec![(Some(102), 2), (Some(101), 1)]);
}

#[test]
fn var_length_isolated_node_has_no_matches() {
    let adj = adjacency(1, &[]);
    let r = var_length_expand_from_node(&adj, 0, None, &RelDirection::Outgoing, 1, 3);
    assert!(r.is_empty());
}

#[test]
fn var_length_node_without_entry_has_no_matches() {
    let adj = chain(3);
    let r = var_length_expand_from_node(&adj, 42, None, &RelDirection::Outgoing, 1, 3);
    assert!(r.is_empty());
}

#[test]
fn var_length_every_hop_match_has_an_edge() {
    let adj = chain(3);
    let r = var_length_expand_from_node(&adj, 0, Some(KNOWS), &RelDirection::Outgoing, 1, 2);
    assert_eq!(r.len(), 2);
    assert!(r.iter().all(|p| p.0.is_some()));
}

#[test]
fn var_length_branching() {
    let adj = adjacency(
        4,
        &[edge(10, 0, 1, KNOWS), edge(11, 0, 2, KNOWS), edge(12, 1, 3, KNOWS), edge(13, 2, 3, KNOWS)],
    );
    let r = var_length_expand_from_node(&adj, 0, Some(KNOWS), &RelDirection::Outgoing, 1, 2);
    // depth first: 1, then 3 through 1, then 2, then 3 through 2
    assert_eq!(r, vec![(Some(10), 1), (Some(12), 3), (Some(11), 2), (Some(13), 3)]);
}

#[test]
fn var_length_cycle_is_not_closed() {
    let adj = adjacency(3, &[edge(10, 0, 1, KNOWS), edge(11, 1, 2, KNOWS), edge(12, 2, 0, KNOWS)]);
    let r = var_length_expand_from_node(&adj, 0, Some(KNOWS), &RelDirection::Outgoing, 1, 10);
    assert_eq!(targets(&r), vec![1, 2]);
}

#[test]
fn var_length_self_loop_is_skipped() {
    let adj = adjacency(2, &[edge(10, 0, 1, KNOWS), edge(11, 1, 1, KNOWS)]);
    let r = var_length_expand_from_node(&adj, 0, Some(KNOWS), &RelDirection::Outgoing, 1, 5);
    assert_eq!(r, vec![(Some(10), 1)]);
}

#[test]
fn var_length_same_node_by_different_paths() {
    let adj = adjacency(
        4,
        &[edge(10, 0, 1, KNOWS), edge(11, 0, 2, KNOWS), edge(12, 1, 3, KNOWS), edge(13, 2, 3, KNOWS)],
    );
    let r = var_length_expand_from_node(&adj, 0, Some(KNOWS), &RelDirection::Outgoing, 2, 2);
    assert_eq!(r, vec![(Some(12), 3), (Some(13), 3)]);
}

#[test]
fn var_length_undirected_does_not_bounce_back() {
    let adj = adjacency(2, &[edge(10, 0, 1, KNOWS)]);
    let r = var_length_expand_from_node(&adj, 0, Some(KNOWS), &RelDirection::Undirected, 1, 5);
    assert_eq!(r, vec![(Some(10), 1)]);
}

#[test]
fn var_length_exact_two_hops() {
    let adj = chain(4);
    let r = var_length_expand_from_node(&adj, 0, Some(KNOWS), &RelDirection::Outgoing, 2, 2);
    assert_eq!(r, vec![(Some(101), 2)]);
}

#[test]
fn var_length_zero_min_hops_includes_source() {
    let adj = adjacency(2, &[edge(10, 0, 1, KNOWS)]);
    let r = var_length_expand_from_node(&adj, 0, Some(KNOWS), &RelDirection::Outgoing, 0, 1);
    assert_eq!(r, vec![(None, 0), (Some(10), 1)]);
}

#[test]
fn var_length_zero_min_hops_without_edges() {
    let adj = adjacency(1, &[]);
    let r = var_length_expand_from_node(&adj, 0, None, &RelDirection::Outgoing, 0, 1);
    assert_eq!(r, vec![(None, 0)]);
}

#[test]
fn var_length_two_sources_one_hop_each() {
    let adj = adjacency(3, &[edge(10, 0, 1, KNOWS), edge(11, 2, 1, KNOWS)]);
    let a = var_length_expand_from_node(&adj, 0, Some(KNOWS), &RelDirection::Outgoing, 1, 1);
    let b = var_length_expand_from_node(&adj, 2, Some(KNOWS), &RelDirection::Outgoing, 1, 1);
    assert_eq!(a.len() + b.len(), 2);
}

#[test]
fn var_length_min_above_max_matches_nothing() {
    let adj = chain(5);
    let r = var_length_expand_from_node(&adj, 0, Some(KNOWS), &RelDirection::Outgoing, 3, 2);
    assert!(r.is_empty());
}

#[test]
fn var_length_max_zero_is_only_the_source() {
    let adj = chain(3);
    let r = var_length_expand_from_node(&adj, 0, Some(KNOWS), &RelDirection::Outgoing, 0, 0);
    assert_eq!(r, vec![(None, 0)]);
}

#[test]
fn one_hop_walk_is_expand_without_returns() {
    // a self loop on 0, and 0 -> 1
    let adj = adjacency(2, &[edge(10, 0, 0, KNOWS), edge(11, 0, 1, KNOWS)]);
    let plain = expand_from_node(&adj[0].1, 0, Some(KNOWS), &RelDirection::Outgoing, None);
    assert_eq!(plain, vec![(10, 0), (11, 1)]);
    let walk = var_length_expand_from_node(&adj, 0, Some(KNOWS), &RelDirection::Outgoing, 1, 1);
    assert_eq!(walk, vec![(Some(11), 1)]);
}

#[test]
fn expand_directions() {
    let edges = vec![edge(10, 0, 1, KNOWS), edge(11, 2, 0, KNOWS), edge(12, 3, 4, KNOWS)];
    assert_eq!(expand_from_node(&edges, 0, None, &RelDirection::Outgoing, None), vec![(10, 1)]);
    assert_eq!(expand_from_node(&edges, 0, None, &RelDirection::Incoming, None), vec![(11, 2)]);
    assert_eq!(
        expand_from_node(&edges, 0, None, &RelDirection::Undirected, None),
        vec![(10, 1), (11, 2)]
    );
}

#[test]
fn expand_type_filter() {
    let edges = vec![edge(10, 0, 1, KNOWS), edge(11, 0, 2, LIKES)];
    assert_eq!(expand_from_node(&edges, 0, Some(LIKES), &RelDirection::Outgoing, None), vec![(11, 2)]);
    assert!(expand_from_node(&edges, 0, Some(7), &RelDirection::Outgoing, None).is_empty());
}

#[test]
fn expand_temporal_filter() {
    let mut old = edge(10, 0, 1, KNOWS);
    old.valid_from = Some(100);
    old.valid_to = Some(200);
    let mut current = edge(11, 0, 2, KNOWS);
    current.valid_from = Some(150);
    let timeless = edge(12, 0, 3, KNOWS);
    let edges = vec![old, current, timeless];
    let at_120 = TemporalFilter::AsOf(120);
    assert_eq!(
        expand_from_node(&edges, 0, None, &RelDirection::Outgoing, Some(&at_120)),
        vec![(10, 1), (12, 3)]
    );
    let at_250 = TemporalFilter::AsOf(250);
    assert_eq!(
        expand_from_node(&edges, 0, None, &RelDirection::Outgoing, Some(&at_250)),
        vec![(11, 2), (12, 3)]
    );
    let range = TemporalFilter::Between(160, 300);
    assert_eq!(
        expand_from_node(&edges, 0, None, &RelDirection::Outgoing, Some(&range)),
        vec![(10, 1), (11, 2), (12, 3)]
    );
    assert_eq!(
        expand_from_node(&edges, 0, None, &RelDirection::Outgoing, None),
        vec![(10, 1), (11, 2), (12, 3)]
    );
}

#[test]
fn optional_expand_pads_missing_match() {
    let edges = vec![edge(10, 0, 1, KNOWS)];
    assert_eq!(
        optional_expand_from_node(&edges, 0, Some(LIKES), &RelDirection::Outgoing),
        vec![(None, None)]
    );
    assert_eq!(
        optional_expand_from_node(&edges, 0, Some(KNOWS), &RelDirection::Outgoing),
        vec![(Some(10), Some(1))]
    );
    assert_eq!(optional_expand_from_node(&vec![], 5, None, &RelDirection::Incoming), vec![(None, None)]);
}

#[test]
fn optional_expand_over_records_keeps_every_record() {
    // 0 -KNOWS-> 1, 0 -KNOWS-> 2, 1 -LIKES-> 2
    let edges = [edge(10, 0, 1, KNOWS), edge(11, 0, 2, KNOWS), edge(12, 1, 2, LIKES)];
    let adj = adjacency(3, &edges);
    let sources = vec![Some(0), Some(2), None, Some(1), Some(7)];
    let rows = optional_expand_records(&adj, &sources, Some(KNOWS), &RelDirection::Outgoing);
    assert_eq!(
        rows,
        vec![
            (0, Some(10), Some(1)),
            (0, Some(11), Some(2)),
            (1, None, None),
            (2, None, None),
            (3, None, None),
            (4, None, None),
        ]
    );
    assert!(rows.len() >= sources.len());
    assert_eq!(optional_expand_records(&adj, &vec![], None, &RelDirection::Outgoing), vec![]);
}

#[test]
fn edge_target_by_direction() {
    let e = edge(10, 0, 1, KNOWS);
    assert_eq!(edge_target(&e, 0, &RelDirection::Outgoing), Some(1));
    assert_eq!(edge_target(&e, 1, &RelDirection::Outgoing), None);
    assert_eq!(edge_target(&e, 1, &RelDirection::Incoming), Some(0));
    assert_eq!(edge_target(&e, 1, &RelDirection::Undirected), Some(0));
    assert_eq!(edge_target(&e, 7, &RelDirection::Undirected), None);
}

#[test]
fn var_length_finds_every_simple_path_within_bounds() {
    // Two paths of two hops from 0 to 3: 0 -> 1 -> 3 and 0 -> 2 -> 3.
    let edges = [
        edge(10, 0, 1, KNOWS),
        edge(11, 0, 2, KNOWS),
        edge(12, 1, 3, KNOWS),
        edge(13, 2, 3, KNOWS),
    ];
    let adj = adjacency(4, &edges);
    assert_eq!(
        var_length_expand_from_node(&adj, 0, Some(KNOWS), &RelDirection::Outgoing, 2, 2),
        vec![(Some(12), 3), (Some(13), 3)]
    );
    // Undirected, no node repeated, up to three hops from 1: 1-0, 1-0-2,
    // 1-0-2-3, then 1-3, 1-3-2, 1-3-2-0.
    let all = var_length_expand_from_node(&adj, 1, Some(KNOWS), &RelDirection::Undirected, 1, 3);
    assert_eq!(
        all,
        vec![
            (Some(10), 0),
            (Some(11), 2),
            (Some(13), 3),
            (Some(12), 3),
            (Some(13), 2),
            (Some(11), 0),
        ]
    );
}
