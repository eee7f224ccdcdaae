//! Time-travel decisions over a node's history: which of its states was
//! current at a point in time (AT TIME), and which of its states were written
//! within a range (BETWEEN TIME). A node's states are its live state and its
//! version chain, oldest first, each described by its date-time stamps.

use vstd::prelude::*;

verus! {

/// The `_created_at` and `_updated_at` date-time properties of one state of
/// a node, when it carries them.
#[derive(Debug, Clone, Copy, PartialEq, Eq)]
pub struct StateStamps {
    /// `_created_at`, when present as a date-time.
    pub created_at: Option<i64>,
    /// `_updated_at`, when present as a date-time.
    pub updated_at: Option<i64>,
}

/// A state of a node picked from its history.
#[derive(Debug, Clone, Copy, PartialEq, Eq)]
pub enum NodeStatePick {
    /// The live state.
    Current,
    /// The version at this index of the version chain.
    Version(usize),
}

/// When a state was written: its `_updated_at`, else its `_created_at`.
pub open spec fn written_at(s: StateStamps) -> Option<i64> {
    match s.updated_at {
        Some(u) => Some(u),
        None => s.created_at,
    }
}

/// The version at index `i` is a node state written at or before `t`.
pub open spec fn written_by(versions: Seq<Option<StateStamps>>, i: int, t: i64) -> bool {
    versions[i] matches Some(s) && (written_at(s) matches Some(w) && w <= t)
}

/// The latest of the first `n` versions written at or before `t`.
pub open spec fn latest_written_by(versions: Seq<Option<StateStamps>>, n: int, t: i64) -> Option<int>
    decreases n,
{
    if n <= 0 {
        None
    } else if written_by(versions, n - 1, t) {
        Some(n - 1)
    } else {
        latest_written_by(versions, n - 1, t)
    }
}

/// The state of a node current at time `t`, given its live state
/// (`None` when the node does not exist) and its version chain (`None` for
/// a version that is not a node state): none when the node was not created
/// by `t`; the live state when it was last written by `t`; else the latest
/// version written by `t`; else the oldest version, when it was created by
/// `t`; else none.
pub open spec fn state_at(
    current: Option<StateStamps>,
    versions: Seq<Option<StateStamps>>,
    t: i64,
) -> Option<NodeStatePick> {
    match current {
        None => None,
        Some(c) => match c.created_at {
            None => None,
            Some(created) => if created > t {
                None
            } else if (match c.updated_at {
                Some(u) => u,
                None => created,
            }) <= t {
                Some(NodeStatePick::Current)
            } else {
                match latest_written_by(versions, versions.len() as int, t) {
                    Some(i) => Some(NodeStatePick::Version(i as usize)),
                    None => if versions.len() > 0 && (versions[0] matches Some(s) && (
                    s.created_at matches Some(c0) && c0 <= t)) {
                        Some(NodeStatePick::Version(0))
                    } else {
                        None
                    },
                }
            },
        },
    }
}

/// The versions among the first `n` written within `[start, end]`, in chain order.
pub open spec fn versions_in_range(
    versions: Seq<Option<StateStamps>>,
    n: int,
    start: i64,
    end: i64,
) -> Seq<NodeStatePick>
    decreases n,
{
    if n <= 0 {
        Seq::empty()
    } else {
        let before = versions_in_range(versions, n - 1, start, end);
        if versions[n - 1] matches Some(s) && (written_at(s) matches Some(w) && start <= w
            <= end) {
            before.push(NodeStatePick::Version((n - 1) as usize))
        } else {
            before
        }
    }
}

/// The states of a node written within `[start, end]`: the versions of the
/// chain in order, then the live state.
pub open spec fn states_in_range(
    current: Option<StateStamps>,
    versions: Seq<Option<StateStamps>>,
    start: i64,
    end: i64,
) -> Seq<NodeStatePick> {
    let vs = versions_in_range(versions, versions.len() as int, start, end);
    if current matches Some(c) && (written_at(c) matches Some(w) && start <= w <= end) {
        vs.push(NodeStatePick::Current)
    } else {
        vs
    }
}

/// The latest version written by `t` among the first `n` is one of them,
/// written by `t`, and none after it among them is.
proof fn lemma_latest_written_by(versions: Seq<Option<StateStamps>>, n: int, t: i64)
    requires
        n <= versions.len(),
    ensures
        latest_written_by(versions, n, t) matches Some(i) ==> 0 <= i < n && written_by(
            versions,
            i,
            t,
        ) && forall|j: int| i < j < n ==> !#[trigger] written_by(versions, j, t),
        latest_written_by(versions, n, t) is None ==> forall|j: int|
            0 <= j < n ==> !#[trigger] written_by(versions, j, t),
    decreases n,
{
    if n > 0 {
        lemma_latest_written_by(versions, n - 1, t);
    }
}

/// A node is found at time `t` only when it exists and was created by `t`.
pub proof fn lemma_state_at_after_creation(
    current: Option<StateStamps>,
    versions: Seq<Option<StateStamps>>,
    t: i64,
)
    ensures
        state_at(current, versions, t) is Some ==> current is Some && current->0.created_at is Some
            && current->0.created_at->0 <= t,
{
}

/// The state `o` exists and was created by `t`.
pub open spec fn created_by(o: Option<StateStamps>, t: i64) -> bool {
    o matches Some(s) && (s.created_at matches Some(c) && c <= t)
}

/// The version found at time `t` is the latest version written by `t`,
/// or, when no version was written by `t`, the oldest version, created by
/// `t`; either way no later version was written by `t`.
pub proof fn lemma_state_at_latest(
    current: Option<StateStamps>,
    versions: Seq<Option<StateStamps>>,
    t: i64,
    i: usize,
)
    requires
        versions.len() <= usize::MAX,
        state_at(current, versions, t) == Some(NodeStatePick::Version(i)),
    ensures
        i < versions.len(),
        written_by(versions, i as int, t) || (i == 0 && created_by(versions[0], t)),
        forall|j: int| i < j < versions.len() ==> !#[trigger] written_by(versions, j, t),
{
    lemma_latest_written_by(versions, versions.len() as int, t);
    match latest_written_by(versions, versions.len() as int, t) {
        Some(l) => {
            assert(i as int == l);
        },
        None => {
            assert(i == 0);
        },
    }
}

/// The state `o` exists and was written within `[start, end]`.
pub open spec fn written_within(o: Option<StateStamps>, start: i64, end: i64) -> bool {
    o matches Some(s) && (written_at(s) matches Some(w) && start <= w <= end)
}

/// Every version picked among the first `n` was written within the range,
/// and the picks come in increasing chain order.
proof fn lemma_versions_in_range(versions: Seq<Option<StateStamps>>, n: int, start: i64, end: i64)
    requires
        n <= versions.len() <= usize::MAX,
    ensures
        forall|k: int|
            0 <= k < versions_in_range(versions, n, start, end).len() ==> {
                let p = #[trigger] versions_in_range(versions, n, start, end)[k];
                &&& p is Version
                &&& 0 <= p->0 < n
                &&& written_within(versions[p->0 as int], start, end)
            },
        forall|k1: int, k2: int|
            0 <= k1 < k2 < versions_in_range(versions, n, start, end).len() ==> (
            #[trigger] versions_in_range(versions, n, start, end)[k1])->0 < (
            #[trigger] versions_in_range(versions, n, start, end)[k2])->0,
    decreases n,
{
    if n > 0 {
        lemma_versions_in_range(versions, n - 1, start, end);
        let before = versions_in_range(versions, n - 1, start, end);
        let after = versions_in_range(versions, n, start, end);
        if written_within(versions[n - 1], start, end) {
            let p = NodeStatePick::Version((n - 1) as usize);
            assert(after == before.push(p));
            assert(p->0 == n - 1);
            assert forall|k: int| 0 <= k < after.len() implies {
                let q = #[trigger] after[k];
                &&& q is Version
                &&& 0 <= q->0 < n
                &&& written_within(versions[q->0 as int], start, end)
            } by {
                if k < before.len() {
                    assert(after[k] == before[k]);
                }
            }
            assert forall|k1: int, k2: int| 0 <= k1 < k2 < after.len() implies (#[trigger] after[k1])->0
                < (#[trigger] after[k2])->0 by {
                assert(after[k1] == before[k1]);
                if k2 < before.len() {
                    assert(after[k2] == before[k2]);
                }
            }
        } else {
            assert(after == before);
        }
    }
}

/// Every state found within `[start, end]` was written within it; the
/// versions come in chain order, and the live state, when found, comes last.
pub proof fn lemma_states_in_range_within(
    current: Option<StateStamps>,
    versions: Seq<Option<StateStamps>>,
    start: i64,
    end: i64,
)
    requires
        versions.len() <= usize::MAX,
    ensures
        forall|k: int|
            0 <= k < states_in_range(current, versions, start, end).len() ==> {
                let p = #[trigger] states_in_range(current, versions, start, end)[k];
                if p is Version {
                    p->0 < versions.len() && written_within(versions[p->0 as int], start, end)
                } else {
                    k == states_in_range(current, versions, start, end).len() - 1
                        && written_within(current, start, end)
                }
            },
        forall|k1: int, k2: int|
            0 <= k1 < k2 < states_in_range(current, versions, start, end).len()
                && states_in_range(current, versions, start, end)[k2] is Version ==> (
            #[trigger] states_in_range(current, versions, start, end)[k1])->0 < (
            #[trigger] states_in_range(current, versions, start, end)[k2])->0,
{
    let n = versions.len() as int;
    lemma_versions_in_range(versions, n, start, end);
    let vs = versions_in_range(versions, n, start, end);
    let all = states_in_range(current, versions, start, end);
    assert forall|k: int| 0 <= k < vs.len() implies #[trigger] all[k] == vs[k] by {}
}

/// When a state was written: its `_updated_at`, else its `_created_at`.
fn state_written_at(s: &StateStamps) -> (r: Option<i64>)
    ensures
        r == written_at(*s),
{
    match s.updated_at {
        Some(u) => Some(u),
        None => s.created_at,
    }
}

/// Finds the state of a node that was current at `target_ms`, from its live
/// state (`None` when the node does not exist) and its version chain, oldest
/// first (`None` for a version that is not a node state).
pub fn find_node_state_at(
    current: Option<StateStamps>,
    versions: &Vec<Option<StateStamps>>,
    target_ms: i64,
) -> (r: Option<NodeStatePick>)
    ensures
        r == state_at(current, versions@, target_ms),
{
    let cur = match current {
        Some(c) => c,
        None => return None,
    };
    let current_created = match cur.created_at {
        Some(c) => c,
        None => return None,
    };
    if current_created > target_ms {
        return None;
    }
    let current_updated = match cur.updated_at {
        Some(u) => u,
        None => current_created,
    };
    if current_updated <= target_ms {
        return Some(NodeStatePick::Current);
    }
    let mut i: usize = versions.len();
    while i > 0
        invariant
            i <= versions@.len(),
            current == Some(cur),
            cur.created_at == Some(current_created),
            current_created <= target_ms < current_updated,
            current_updated == match cur.updated_at {
                Some(u) => u,
                None => current_created,
            },
            latest_written_by(versions@, versions@.len() as int, target_ms) == latest_written_by(
                versions@,
                i as int,
                target_ms,
            ),
        decreases i,
    {
        if let Some(s) = versions[i - 1] {
            if let Some(ts) = state_written_at(&s) {
                if ts <= target_ms {
                    return Some(NodeStatePick::Version(i - 1));
                }
            }
        }
        i = i - 1;
    }
    if versions.len() > 0 {
        if let Some(first) = versions[0] {
            if let Some(ts) = first.created_at {
                if ts <= target_ms {
                    return Some(NodeStatePick::Version(0));
                }
            }
        }
    }
    None
}

/// Finds the states of a node written within `[start_ms, end_ms]`: the
/// versions of its chain in order, then its live state.
pub fn find_node_versions_in_range(
    current: Option<StateStamps>,
    versions: &Vec<Option<StateStamps>>,
    start_ms: i64,
    end_ms: i64,
) -> (r: Vec<NodeStatePick>)
    ensures
        r@ == states_in_range(current, versions@, start_ms, end_ms),
{
    let mut results: Vec<NodeStatePick> = Vec::new();
    let mut i: usize = 0;
    while i < versions.len()
        invariant
            i <= versions@.len(),
            results@ == versions_in_range(versions@, i as int, start_ms, end_ms),
        decreases versions.len() - i,
    {
        if let Some(s) = versions[i] {
            if let Some(ts) = state_written_at(&s) {
                if ts >= start_ms && ts <= end_ms {
                    results.push(NodeStatePick::Version(i));
                }
            }
        }
        i = i + 1;
    }
    if let Some(c) = current {
        if let Some(ts) = state_written_at(&c) {
            if ts >= start_ms && ts <= end_ms {
                results.push(NodeStatePick::Current);
            }
        }
    }
    results
}

} // verus!
