use cypherlite_query::executor::temporal::{
    find_node_state_at, find_node_versions_in_range, NodeStatePick, StateStamps,
};

fn stamps(created_at: Option<i64>, updated_at: Option<i64>) -> StateStamps {
    StateStamps { created_at, updated_at }
}

#[test]
fn state_at_missing_node() {
    assert_eq!(find_node_state_at(None, &vec![], 100), None);
}

#[test]
fn state_at_node_without_creation_stamp() {
    assert_eq!(find_node_state_at(Some(stamps(None, Some(10))), &vec![], 100), None);
}

#[test]
fn state_at_before_creation() {
    assert_eq!(find_node_state_at(Some(stamps(Some(200), None)), &vec![], 100), None);
}

#[test]
fn state_at_current_when_last_written_before() {
    let cur = Some(stamps(Some(50), Some(90)));
    assert_eq!(find_node_state_at(cur, &vec![], 100), Some(NodeStatePick::Current));
    let never_updated = Some(stamps(Some(50), None));
    assert_eq!(find_node_state_at(never_updated, &vec![], 50), Some(NodeStatePick::Current));
}

#[test]
fn state_at_picks_latest_version_written_by_then() {
    let cur = Some(stamps(Some(100), Some(400)));
    let versions = vec![
        Some(stamps(Some(100), None)),
        Some(stamps(Some(100), Some(200))),
        Some(stamps(Some(100), Some(300))),
    ];
    assert_eq!(find_node_state_at(cur, &versions, 250), Some(NodeStatePick::Version(1)));
    assert_eq!(find_node_state_at(cur, &versions, 300), Some(NodeStatePick::Version(2)));
    assert_eq!(find_node_state_at(cur, &versions, 150), Some(NodeStatePick::Version(0)));
    assert_eq!(find_node_state_at(cur, &versions, 400), Some(NodeStatePick::Current));
}

#[test]
fn state_at_falls_back_to_oldest_version_created_by_then() {
    let cur = Some(stamps(Some(100), Some(400)));
    let versions = vec![Some(stamps(Some(100), Some(150)))];
    assert_eq!(find_node_state_at(cur, &versions, 120), Some(NodeStatePick::Version(0)));
}

#[test]
fn state_at_skips_entries_that_are_not_node_states() {
    let cur = Some(stamps(Some(100), Some(400)));
    let versions = vec![Some(stamps(Some(100), Some(200))), None];
    assert_eq!(find_node_state_at(cur, &versions, 250), Some(NodeStatePick::Version(0)));
    let only_other = vec![None];
    assert_eq!(find_node_state_at(cur, &only_other, 250), None);
}

#[test]
fn versions_in_range_in_chain_order_then_current() {
    let cur = Some(stamps(Some(100), Some(400)));
    let versions = vec![
        Some(stamps(Some(100), None)),
        Some(stamps(Some(100), Some(200))),
        None,
        Some(stamps(Some(100), Some(300))),
    ];
    assert_eq!(
        find_node_versions_in_range(cur, &versions, 150, 400),
        vec![NodeStatePick::Version(1), NodeStatePick::Version(3), NodeStatePick::Current]
    );
    assert_eq!(
        find_node_versions_in_range(cur, &versions, 100, 100),
        vec![NodeStatePick::Version(0)]
    );
    assert!(find_node_versions_in_range(None, &vec![], 0, 1000).is_empty());
    assert!(find_node_versions_in_range(cur, &versions, 500, 100).is_empty());
}
