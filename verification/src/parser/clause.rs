//! Clause parsing: MATCH, RETURN, CREATE, SET, DELETE, REMOVE, WITH, MERGE,
//! UNWIND, and the index DDL clauses.

use vstd::prelude::*;
use crate::lexer::{SpecToken, Token};
use super::ast::{
    exprs_view, order_items_view, remove_items_view, return_items_view, set_items_view,
    Clause, CreateClause, CreateIndexClause, DeleteClause, DropIndexClause, Expression, IndexTarget,
    MatchClause, MergeClause, OrderItem, RemoveClause, RemoveItem, ReturnClause, ReturnItem,
    SetClause, SetItem, SpecClause, SpecDeleteClause, SpecExpr, SpecIndexClause, SpecMatchClause,
    SpecMergeClause, SpecOrderItem, SpecPatternElement, SpecRemoveItem, SpecReturnClause,
    SpecReturnItem, SpecSetItem, SpecTemporal, SpecUnwindClause, SpecWithClause,
    TemporalPredicate, UnwindClause, WithClause,
};
use super::expression::{expr_at, expr_list_at, Toks};
use super::pattern::{pattern_at, Read};
use super::{ident_at, tok_is, ParseError, Parser};
use crate::text::owned;

verus! {

/// The model of a parse result, with the position after it.
pub open spec fn outcome<T: View>(r: Result<T, ParseError>, pos: int) -> Read<T::V> {
    match r {
        Ok(v) => Some((v@, pos)),
        Err(_) => None,
    }
}

/// An expression after the keyword `kw` at `k`, when that keyword is there.
pub open spec fn opt_after(ts: Toks, k: int, kw: SpecToken) -> Read<Option<SpecExpr>> {
    if tok_is(ts, k, kw) {
        match expr_at(ts, k + 1, 0) {
            Some((e, j)) => Some((Some(e), j)),
            None => None,
        }
    } else {
        Some((None, k))
    }
}

/// A return item `expression [AS alias]` from `k`.
pub open spec fn return_item_at(ts: Toks, k: int) -> Read<SpecReturnItem> {
    match expr_at(ts, k, 0) {
        Some((e, j)) => if tok_is(ts, j, SpecToken::As) {
            match ident_at(ts, j + 1) {
                Some(a) => Some((SpecReturnItem { expr: e, alias: Some(a) }, j + 2)),
                None => None,
            }
        } else {
            Some((SpecReturnItem { expr: e, alias: None }, j))
        },
        None => None,
    }
}

/// One or more return items separated by commas, from `k`.
pub open spec fn return_items_at(ts: Toks, k: int) -> Read<Seq<SpecReturnItem>>
    decreases ts.len() - k,
{
    if k < 0 || k > ts.len() {
        None
    } else {
        match return_item_at(ts, k) {
            Some((it, j)) => if k < j <= ts.len() {
                if tok_is(ts, j, SpecToken::Comma) {
                    match return_items_at(ts, j + 1) {
                        Some((rest, m)) => Some((seq![it] + rest, m)),
                        None => None,
                    }
                } else {
                    Some((seq![it], j))
                }
            } else {
                None
            },
            None => None,
        }
    }
}

/// The rest of a return-item list whose first items `pre` end at `j`.
pub open spec fn return_items_tail(ts: Toks, pre: Seq<SpecReturnItem>, j: int) -> Read<
    Seq<SpecReturnItem>,
> {
    if tok_is(ts, j, SpecToken::Comma) {
        match return_items_at(ts, j + 1) {
            Some((rest, m)) => Some((pre + rest, m)),
            None => None,
        }
    } else {
        Some((pre, j))
    }
}

/// Reading one more return item after a comma moves it into the list.
proof fn lemma_return_items_step(ts: Toks, pre: Seq<SpecReturnItem>, j: int, it: SpecReturnItem, m: int)
    requires
        tok_is(ts, j, SpecToken::Comma),
        return_item_at(ts, j + 1) == Some((it, m)),
        j + 1 < m <= ts.len(),
    ensures
        return_items_tail(ts, pre, j) == return_items_tail(ts, pre.push(it), m),
{
    if tok_is(ts, m, SpecToken::Comma) {
        match return_items_at(ts, m + 1) {
            Some((rest, m2)) => {
                assert(pre + (seq![it] + rest) =~= pre.push(it) + rest);
            },
            None => {},
        }
    } else {
        assert(pre + seq![it] =~= pre.push(it));
    }
}

/// An order item `expression [ASC|DESC]` from `k`: ascending unless DESC.
pub open spec fn order_item_at(ts: Toks, k: int) -> Read<SpecOrderItem> {
    match expr_at(ts, k, 0) {
        Some((e, j)) => if tok_is(ts, j, SpecToken::Desc) {
            Some((SpecOrderItem { expr: e, ascending: false }, j + 1))
        } else if tok_is(ts, j, SpecToken::Asc) {
            Some((SpecOrderItem { expr: e, ascending: true }, j + 1))
        } else {
            Some((SpecOrderItem { expr: e, ascending: true }, j))
        },
        None => None,
    }
}

/// One or more order items separated by commas, from `k`.
pub open spec fn order_items_at(ts: Toks, k: int) -> Read<Seq<SpecOrderItem>>
    decreases ts.len() - k,
{
    if k < 0 || k > ts.len() {
        None
    } else {
        match order_item_at(ts, k) {
            Some((it, j)) => if k < j <= ts.len() {
                if tok_is(ts, j, SpecToken::Comma) {
                    match order_items_at(ts, j + 1) {
                        Some((rest, m)) => Some((seq![it] + rest, m)),
                        None => None,
                    }
                } else {
                    Some((seq![it], j))
                }
            } else {
                None
            },
            None => None,
        }
    }
}

/// The rest of an order-item list whose first items `pre` end at `j`.
pub open spec fn order_items_tail(ts: Toks, pre: Seq<SpecOrderItem>, j: int) -> Read<
    Seq<SpecOrderItem>,
> {
    if tok_is(ts, j, SpecToken::Comma) {
        match order_items_at(ts, j + 1) {
            Some((rest, m)) => Some((pre + rest, m)),
            None => None,
        }
    } else {
        Some((pre, j))
    }
}

/// Reading one more order item after a comma moves it into the list.
proof fn lemma_order_items_step(ts: Toks, pre: Seq<SpecOrderItem>, j: int, it: SpecOrderItem, m: int)
    requires
        tok_is(ts, j, SpecToken::Comma),
        order_item_at(ts, j + 1) == Some((it, m)),
        j + 1 < m <= ts.len(),
    ensures
        order_items_tail(ts, pre, j) == order_items_tail(ts, pre.push(it), m),
{
    if tok_is(ts, m, SpecToken::Comma) {
        match order_items_at(ts, m + 1) {
            Some((rest, m2)) => {
                assert(pre + (seq![it] + rest) =~= pre.push(it) + rest);
            },
            None => {},
        }
    } else {
        assert(pre + seq![it] =~= pre.push(it));
    }
}

/// `ORDER BY items` from `k`.
pub open spec fn order_by_at(ts: Toks, k: int) -> Read<Seq<SpecOrderItem>> {
    if tok_is(ts, k, SpecToken::Order) && tok_is(ts, k + 1, SpecToken::By) {
        order_items_at(ts, k + 2)
    } else {
        None
    }
}

/// An ORDER BY list at `k`, read when ORDER is there.
pub open spec fn opt_order_at(ts: Toks, k: int) -> Read<Option<Seq<SpecOrderItem>>> {
    if tok_is(ts, k, SpecToken::Order) {
        match order_by_at(ts, k) {
            Some((o, j)) => Some((Some(o), j)),
            None => None,
        }
    } else {
        Some((None, k))
    }
}

/// Property accesses `.name` applied to a SET target `t` read up to `j`.
pub open spec fn set_target_from(ts: Toks, t: SpecExpr, j: int) -> Read<SpecExpr>
    decreases ts.len() - j,
{
    if tok_is(ts, j, SpecToken::Dot) {
        match ident_at(ts, j + 1) {
            Some(p) => set_target_from(ts, SpecExpr::Property(Box::new(t), p), j + 2),
            None => None,
        }
    } else {
        Some((t, j))
    }
}

/// A SET item `variable(.property)* = expression` from `k`.
pub open spec fn set_item_at(ts: Toks, k: int) -> Read<SpecSetItem> {
    match ident_at(ts, k) {
        Some(n) => match set_target_from(ts, SpecExpr::Variable(n), k + 1) {
            Some((t, j)) => if tok_is(ts, j, SpecToken::Eq) {
                match expr_at(ts, j + 1, 0) {
                    Some((v, m)) => Some((SpecSetItem::Property { target: t, value: v }, m)),
                    None => None,
                }
            } else {
                None
            },
            None => None,
        },
        None => None,
    }
}

/// One or more SET items separated by commas, from `k`.
pub open spec fn set_items_at(ts: Toks, k: int) -> Read<Seq<SpecSetItem>>
    decreases ts.len() - k,
{
    if k < 0 || k > ts.len() {
        None
    } else {
        match set_item_at(ts, k) {
            Some((it, j)) => if k < j <= ts.len() {
                if tok_is(ts, j, SpecToken::Comma) {
                    match set_items_at(ts, j + 1) {
                        Some((rest, m)) => Some((seq![it] + rest, m)),
                        None => None,
                    }
                } else {
                    Some((seq![it], j))
                }
            } else {
                None
            },
            None => None,
        }
    }
}

/// The rest of a SET-item list whose first items `pre` end at `j`.
pub open spec fn set_items_tail(ts: Toks, pre: Seq<SpecSetItem>, j: int) -> Read<Seq<SpecSetItem>> {
    if tok_is(ts, j, SpecToken::Comma) {
        match set_items_at(ts, j + 1) {
            Some((rest, m)) => Some((pre + rest, m)),
            None => None,
        }
    } else {
        Some((pre, j))
    }
}

/// Reading one more SET item after a comma moves it into the list.
proof fn lemma_set_items_step(ts: Toks, pre: Seq<SpecSetItem>, j: int, it: SpecSetItem, m: int)
    requires
        tok_is(ts, j, SpecToken::Comma),
        set_item_at(ts, j + 1) == Some((it, m)),
        j + 1 < m <= ts.len(),
    ensures
        set_items_tail(ts, pre, j) == set_items_tail(ts, pre.push(it), m),
{
    if tok_is(ts, m, SpecToken::Comma) {
        match set_items_at(ts, m + 1) {
            Some((rest, m2)) => {
                assert(pre + (seq![it] + rest) =~= pre.push(it) + rest);
            },
            None => {},
        }
    } else {
        assert(pre + seq![it] =~= pre.push(it));
    }
}

/// A REMOVE item `variable.property` or `variable:Label` from `k`.
pub open spec fn remove_item_at(ts: Toks, k: int) -> Read<SpecRemoveItem> {
    match ident_at(ts, k) {
        Some(v) => match ident_at(ts, k + 2) {
            Some(x) => if tok_is(ts, k + 1, SpecToken::Colon) {
                Some((SpecRemoveItem::Label { variable: v, label: x }, k + 3))
            } else if tok_is(ts, k + 1, SpecToken::Dot) {
                Some(
                    (
                        SpecRemoveItem::Property(
                            SpecExpr::Property(Box::new(SpecExpr::Variable(v)), x),
                        ),
                        k + 3,
                    ),
                )
            } else {
                None
            },
            None => None,
        },
        None => None,
    }
}

/// One or more REMOVE items separated by commas, from `k`.
pub open spec fn remove_items_at(ts: Toks, k: int) -> Read<Seq<SpecRemoveItem>>
    decreases ts.len() - k,
{
    if k < 0 || k > ts.len() {
        None
    } else {
        match remove_item_at(ts, k) {
            Some((it, j)) => if k < j <= ts.len() {
                if tok_is(ts, j, SpecToken::Comma) {
                    match remove_items_at(ts, j + 1) {
                        Some((rest, m)) => Some((seq![it] + rest, m)),
                        None => None,
                    }
                } else {
                    Some((seq![it], j))
                }
            } else {
                None
            },
            None => None,
        }
    }
}

/// The rest of a REMOVE-item list whose first items `pre` end at `j`.
pub open spec fn remove_items_tail(ts: Toks, pre: Seq<SpecRemoveItem>, j: int) -> Read<
    Seq<SpecRemoveItem>,
> {
    if tok_is(ts, j, SpecToken::Comma) {
        match remove_items_at(ts, j + 1) {
            Some((rest, m)) => Some((pre + rest, m)),
            None => None,
        }
    } else {
        Some((pre, j))
    }
}

/// Reading one more REMOVE item after a comma moves it into the list.
proof fn lemma_remove_items_step(ts: Toks, pre: Seq<SpecRemoveItem>, j: int, it: SpecRemoveItem, m: int)
    requires
        tok_is(ts, j, SpecToken::Comma),
        remove_item_at(ts, j + 1) == Some((it, m)),
        j + 1 < m <= ts.len(),
    ensures
        remove_items_tail(ts, pre, j) == remove_items_tail(ts, pre.push(it), m),
{
    if tok_is(ts, m, SpecToken::Comma) {
        match remove_items_at(ts, m + 1) {
            Some((rest, m2)) => {
                assert(pre + (seq![it] + rest) =~= pre.push(it) + rest);
            },
            None => {},
        }
    } else {
        assert(pre + seq![it] =~= pre.push(it));
    }
}

/// A temporal predicate after a MATCH pattern, from `k`: `AT TIME e`,
/// `BETWEEN TIME a AND b` (each bound read below AND), or nothing.
pub open spec fn temporal_at(ts: Toks, k: int) -> Read<Option<SpecTemporal>> {
    if tok_is(ts, k, SpecToken::At) {
        if tok_is(ts, k + 1, SpecToken::Time) {
            match expr_at(ts, k + 2, 0) {
                Some((e, j)) => Some((Some(SpecTemporal::AsOf(e)), j)),
                None => None,
            }
        } else {
            None
        }
    } else if tok_is(ts, k, SpecToken::Between) {
        if tok_is(ts, k + 1, SpecToken::Time) {
            match expr_at(ts, k + 2, 4) {
                Some((a, j)) => if tok_is(ts, j, SpecToken::And) {
                    match expr_at(ts, j + 1, 4) {
                        Some((b, m)) => Some((Some(SpecTemporal::Between(a, b)), m)),
                        None => None,
                    }
                } else {
                    None
                },
                None => None,
            }
        } else {
            None
        }
    } else {
        Some((None, k))
    }
}

/// `MATCH pattern [temporal] [WHERE e]` from `k` (the MATCH keyword).
pub open spec fn match_at(ts: Toks, k: int, optional: bool) -> Read<SpecMatchClause> {
    if !tok_is(ts, k, SpecToken::Match) {
        None
    } else {
        match pattern_at(ts, k + 1) {
            Some((p, j)) => match temporal_at(ts, j) {
                Some((t, j2)) => match opt_after(ts, j2, SpecToken::Where) {
                    Some((w, j3)) => Some(
                        (
                            SpecMatchClause {
                                optional,
                                pattern: p,
                                temporal: t,
                                where_clause: w,
                            },
                            j3,
                        ),
                    ),
                    None => None,
                },
                None => None,
            },
            None => None,
        }
    }
}

/// `RETURN [DISTINCT] items [ORDER BY ...] [SKIP e] [LIMIT e]` from `k`.
pub open spec fn return_at(ts: Toks, k: int) -> Read<SpecReturnClause> {
    if !tok_is(ts, k, SpecToken::Return) {
        None
    } else {
        let d = tok_is(ts, k + 1, SpecToken::Distinct);
        let s = if d {
            k + 2
        } else {
            k + 1
        };
        match return_items_at(ts, s) {
            Some((items, j)) => match opt_order_at(ts, j) {
                Some((o, j2)) => match opt_after(ts, j2, SpecToken::Skip) {
                    Some((sk, j3)) => match opt_after(ts, j3, SpecToken::Limit) {
                        Some((li, j4)) => Some(
                            (
                                SpecReturnClause {
                                    distinct: d,
                                    items,
                                    order_by: o,
                                    skip: sk,
                                    limit: li,
                                },
                                j4,
                            ),
                        ),
                        None => None,
                    },
                    None => None,
                },
                None => None,
            },
            None => None,
        }
    }
}

/// `WITH [DISTINCT] items [WHERE e]` from `k`.
pub open spec fn with_at(ts: Toks, k: int) -> Read<SpecWithClause> {
    if !tok_is(ts, k, SpecToken::With) {
        None
    } else {
        let d = tok_is(ts, k + 1, SpecToken::Distinct);
        let s = if d {
            k + 2
        } else {
            k + 1
        };
        match return_items_at(ts, s) {
            Some((items, j)) => match opt_after(ts, j, SpecToken::Where) {
                Some((w, m)) => Some(
                    (SpecWithClause { distinct: d, items, where_clause: w }, m),
                ),
                None => None,
            },
            None => None,
        }
    }
}

/// `CREATE pattern` from `k`.
pub open spec fn create_at(ts: Toks, k: int) -> Read<Seq<Seq<SpecPatternElement>>> {
    if tok_is(ts, k, SpecToken::Create) {
        pattern_at(ts, k + 1)
    } else {
        None
    }
}

/// `SET items` from `k`.
pub open spec fn set_at(ts: Toks, k: int) -> Read<Seq<SpecSetItem>> {
    if tok_is(ts, k, SpecToken::SetKw) {
        set_items_at(ts, k + 1)
    } else {
        None
    }
}

/// `REMOVE items` from `k`.
pub open spec fn remove_at(ts: Toks, k: int) -> Read<Seq<SpecRemoveItem>> {
    if tok_is(ts, k, SpecToken::Remove) {
        remove_items_at(ts, k + 1)
    } else {
        None
    }
}

/// `DELETE e, ...` from `k`, flagged DETACH by `detach`.
pub open spec fn delete_at(ts: Toks, k: int, detach: bool) -> Read<SpecDeleteClause> {
    if tok_is(ts, k, SpecToken::Delete) {
        match expr_list_at(ts, k + 1) {
            Some((es, j)) => Some((SpecDeleteClause { detach, exprs: es }, j)),
            None => None,
        }
    } else {
        None
    }
}

/// `UNWIND e AS variable` from `k`.
pub open spec fn unwind_at(ts: Toks, k: int) -> Read<SpecUnwindClause> {
    if !tok_is(ts, k, SpecToken::Unwind) {
        None
    } else {
        match expr_at(ts, k + 1, 0) {
            Some((e, j)) => if tok_is(ts, j, SpecToken::As) {
                match ident_at(ts, j + 1) {
                    Some(v) => Some((SpecUnwindClause { expr: e, variable: v }, j + 2)),
                    None => None,
                }
            } else {
                None
            },
            None => None,
        }
    }
}

/// The `ON MATCH SET` and `ON CREATE SET` actions of a MERGE from `j`, in
/// any order and each possibly repeated, added to the items read so far.
pub open spec fn merge_actions(
    ts: Toks,
    j: int,
    on_match: Seq<SpecSetItem>,
    on_create: Seq<SpecSetItem>,
) -> Read<(Seq<SpecSetItem>, Seq<SpecSetItem>)>
    decreases ts.len() - j,
{
    if tok_is(ts, j, SpecToken::On) && (tok_is(ts, j + 1, SpecToken::Match) || tok_is(
        ts,
        j + 1,
        SpecToken::Create,
    )) {
        if tok_is(ts, j + 2, SpecToken::SetKw) {
            match set_items_at(ts, j + 3) {
                Some((items, m)) => if j < m <= ts.len() {
                    if tok_is(ts, j + 1, SpecToken::Match) {
                        merge_actions(ts, m, on_match + items, on_create)
                    } else {
                        merge_actions(ts, m, on_match, on_create + items)
                    }
                } else {
                    None
                },
                None => None,
            }
        } else {
            None
        }
    } else {
        Some(((on_match, on_create), j))
    }
}

/// `MERGE pattern actions` from `k`.
pub open spec fn merge_at(ts: Toks, k: int) -> Read<SpecMergeClause> {
    if !tok_is(ts, k, SpecToken::Merge) {
        None
    } else {
        match pattern_at(ts, k + 1) {
            Some((p, j)) => match merge_actions(ts, j, Seq::empty(), Seq::empty()) {
                Some(((om, oc), m)) => Some(
                    (SpecMergeClause { pattern: p, on_match: om, on_create: oc }, m),
                ),
                None => None,
            },
            None => None,
        }
    }
}

/// `INDEX [name] ON :Target(property)` from `k` (the INDEX keyword), for a
/// relationship-type index when `on_edges`, else a node-label index.
pub open spec fn index_def_at(ts: Toks, k: int, on_edges: bool) -> Read<SpecIndexClause> {
    if !tok_is(ts, k, SpecToken::Index) {
        None
    } else {
        let named = !tok_is(ts, k + 1, SpecToken::On);
        let j = if named {
            k + 2
        } else {
            k + 1
        };
        if (named && ident_at(ts, k + 1) is None) || !tok_is(ts, j, SpecToken::On) || !tok_is(
            ts,
            j + 1,
            SpecToken::Colon,
        ) || ident_at(ts, j + 2) is None || !tok_is(ts, j + 3, SpecToken::LParen) || ident_at(
            ts,
            j + 4,
        ) is None || !tok_is(ts, j + 5, SpecToken::RParen) {
            None
        } else {
            Some(
                (
                    SpecIndexClause {
                        name: if named {
                            ident_at(ts, k + 1)
                        } else {
                            None
                        },
                        on_edges,
                        target: ident_at(ts, j + 2)->0,
                        property: ident_at(ts, j + 4)->0,
                    },
                    j + 6,
                ),
            )
        }
    }
}

/// `DROP INDEX name` from `k`.
pub open spec fn drop_index_at(ts: Toks, k: int) -> Read<Seq<char>> {
    if tok_is(ts, k, SpecToken::Drop) && tok_is(ts, k + 1, SpecToken::Index) {
        match ident_at(ts, k + 2) {
            Some(n) => Some((n, k + 3)),
            None => None,
        }
    } else {
        None
    }
}

/// The clause read from `k`, chosen by its leading keyword.
#[verifier::opaque]
pub open spec fn clause_at(ts: Toks, k: int) -> Read<SpecClause> {
    if !(0 <= k < ts.len()) {
        None
    } else {
        match ts[k].0@ {
            SpecToken::Optional => if tok_is(ts, k + 1, SpecToken::Match) {
                match match_at(ts, k + 1, true) {
                    Some((m, j)) => Some((SpecClause::Match(m), j)),
                    None => None,
                }
            } else {
                None
            },
            SpecToken::Match => match match_at(ts, k, false) {
                Some((m, j)) => Some((SpecClause::Match(m), j)),
                None => None,
            },
            SpecToken::Return => match return_at(ts, k) {
                Some((c, j)) => Some((SpecClause::Return(c), j)),
                None => None,
            },
            SpecToken::Create => if tok_is(ts, k + 1, SpecToken::Index) {
                match index_def_at(ts, k + 1, false) {
                    Some((c, j)) => Some((SpecClause::CreateIndex(c), j)),
                    None => None,
                }
            } else {
                match create_at(ts, k) {
                    Some((p, j)) => Some((SpecClause::Create(p), j)),
                    None => None,
                }
            },
            SpecToken::SetKw => match set_at(ts, k) {
                Some((c, j)) => Some((SpecClause::SetProperties(c), j)),
                None => None,
            },
            SpecToken::Remove => match remove_at(ts, k) {
                Some((c, j)) => Some((SpecClause::Remove(c), j)),
                None => None,
            },
            SpecToken::Delete => match delete_at(ts, k, false) {
                Some((c, j)) => Some((SpecClause::Delete(c), j)),
                None => None,
            },
            SpecToken::Detach => if tok_is(ts, k + 1, SpecToken::Delete) {
                match delete_at(ts, k + 1, true) {
                    Some((c, j)) => Some((SpecClause::Delete(c), j)),
                    None => None,
                }
            } else {
                None
            },
            SpecToken::With => match with_at(ts, k) {
                Some((c, j)) => Some((SpecClause::With(c), j)),
                None => None,
            },
            SpecToken::Merge => match merge_at(ts, k) {
                Some((c, j)) => Some((SpecClause::Merge(c), j)),
                None => None,
            },
            SpecToken::Unwind => match unwind_at(ts, k) {
                Some((c, j)) => Some((SpecClause::Unwind(c), j)),
                None => None,
            },
            SpecToken::Drop => match drop_index_at(ts, k) {
                Some((n, j)) => Some((SpecClause::DropIndex(n), j)),
                None => None,
            },
            _ => None,
        }
    }
}

/// Clauses read one after another from `k` to the end of the tokens.
pub open spec fn clauses_from(ts: Toks, k: int) -> Option<Seq<SpecClause>>
    decreases ts.len() - k,
{
    if k < 0 {
        None
    } else if k >= ts.len() {
        Some(Seq::empty())
    } else {
        match clause_at(ts, k) {
            Some((c, j)) => if k < j <= ts.len() {
                match clauses_from(ts, j) {
                    Some(cs) => Some(seq![c] + cs),
                    None => None,
                }
            } else {
                None
            },
            None => None,
        }
    }
}

/// The clauses of a whole token list, when they form a query: at least one
/// clause, and nothing left over.
pub open spec fn query_at(ts: Toks) -> Option<Seq<SpecClause>> {
    match clauses_from(ts, 0) {
        Some(cs) => if cs.len() > 0 {
            Some(cs)
        } else {
            None
        },
        None => None,
    }
}

/// The clauses `pre` already read, followed by those from `j` on.
pub open spec fn clauses_tail(ts: Toks, pre: Seq<SpecClause>, j: int) -> Option<Seq<SpecClause>> {
    match clauses_from(ts, j) {
        Some(cs) => Some(pre + cs),
        None => None,
    }
}

/// Reading one more clause moves it into the clauses already read.
pub(crate) proof fn lemma_clauses_step(ts: Toks, pre: Seq<SpecClause>, j: int, c: SpecClause, m: int)
    requires
        0 <= j < ts.len(),
        clause_at(ts, j) == Some((c, m)),
        j < m <= ts.len(),
    ensures
        clauses_tail(ts, pre, j) == clauses_tail(ts, pre.push(c), m),
{
    match clauses_from(ts, m) {
        Some(cs) => {
            assert(pre + (seq![c] + cs) =~= pre.push(c) + cs);
        },
        None => {},
    }
}

impl<'a> Parser<'a> {
    /// Parses the clause at the cursor, chosen by its leading keyword.
    #[verifier::rlimit(60)]
    pub(crate) fn parse_clause(&mut self) -> (r: Result<Clause, ParseError>)
        requires
            old(self).wf(),
            old(self).pos < old(self).tokens@.len(),
        ensures
            super::reported(r),
            final(self).moved_from(old(self)),
            outcome(r, final(self).pos as int) == clause_at(old(self).tokens@, old(self).pos as int),
            r is Ok ==> final(self).pos > old(self).pos,
            old(self).at(old(self).pos as int, SpecToken::Where) ==> (r matches Err(e) && e.message@
                == "WHERE clause must follow a MATCH clause"@ && old(self).error_at(
                e,
                old(self).current_offset(),
            )),
            old(self).at(old(self).pos as int, SpecToken::Order) || old(self).at(
                old(self).pos as int,
                SpecToken::Skip,
            ) || old(self).at(old(self).pos as int, SpecToken::Limit) ==> (r matches Err(e)
                && e.message@ == "ORDER BY / SKIP / LIMIT must be part of a RETURN clause"@ && old(
                self,
            ).error_at(e, old(self).current_offset())),
            old(self).at(old(self).pos as int, SpecToken::Optional) && !old(self).at(
                old(self).pos + 1,
                SpecToken::Match,
            ) ==> (r matches Err(e) && e.message@ == "expected MATCH after OPTIONAL"@),
            old(self).at(old(self).pos as int, SpecToken::Detach) && !old(self).at(
                old(self).pos + 1,
                SpecToken::Delete,
            ) ==> (r matches Err(e) && e.message@ == "expected DELETE after DETACH"@),
    {
        proof {
            reveal_strlit("expected MATCH after OPTIONAL");
            reveal_strlit("expected DELETE after DETACH");
            reveal_strlit("WHERE clause must follow a MATCH clause");
            reveal_strlit("ORDER BY / SKIP / LIMIT must be part of a RETURN clause");
            reveal_strlit("unexpected token at top level: ");
        }
        reveal(clause_at);
        let k = self.pos;
        match &self.tokens[k].0 {
            Token::Optional => {
                self.advance();
                if !self.check(&Token::Match) {
                    return Err(self.error("expected MATCH after OPTIONAL"));
                }
                match self.parse_match_clause(true) {
                    Ok(m) => Ok(Clause::Match(m)),
                    Err(e) => Err(e),
                }
            },
            Token::Match => match self.parse_match_clause(false) {
                Ok(m) => Ok(Clause::Match(m)),
                Err(e) => Err(e),
            },
            Token::Return => match self.parse_return_clause() {
                Ok(c) => Ok(Clause::Return(c)),
                Err(e) => Err(e),
            },
            Token::Create => {
                if self.check_ahead(1, &Token::Index) {
                    self.advance();
                    match self.parse_create_index_clause() {
                        Ok(c) => Ok(Clause::CreateIndex(c)),
                        Err(e) => Err(e),
                    }
                } else {
                    match self.parse_create_clause() {
                        Ok(c) => Ok(Clause::Create(c)),
                        Err(e) => Err(e),
                    }
                }
            },
            Token::SetKw => match self.parse_set_clause() {
                Ok(c) => Ok(Clause::SetProperties(c)),
                Err(e) => Err(e),
            },
            Token::Remove => match self.parse_remove_clause() {
                Ok(c) => Ok(Clause::Remove(c)),
                Err(e) => Err(e),
            },
            Token::Delete => match self.parse_delete_clause(false) {
                Ok(c) => Ok(Clause::Delete(c)),
                Err(e) => Err(e),
            },
            Token::Detach => {
                self.advance();
                if !self.check(&Token::Delete) {
                    return Err(self.error("expected DELETE after DETACH"));
                }
                match self.parse_delete_clause(true) {
                    Ok(c) => Ok(Clause::Delete(c)),
                    Err(e) => Err(e),
                }
            },
            Token::With => match self.parse_with_clause() {
                Ok(c) => Ok(Clause::With(c)),
                Err(e) => Err(e),
            },
            Token::Merge => match self.parse_merge_clause() {
                Ok(c) => Ok(Clause::Merge(c)),
                Err(e) => Err(e),
            },
            Token::Unwind => match self.parse_unwind_clause() {
                Ok(c) => Ok(Clause::Unwind(c)),
                Err(e) => Err(e),
            },
            Token::Drop => match self.parse_drop_index_clause() {
                Ok(c) => Ok(Clause::DropIndex(c)),
                Err(e) => Err(e),
            },
            Token::Where => Err(self.error("WHERE clause must follow a MATCH clause")),
            Token::Order | Token::Limit | Token::Skip => Err(
                self.error("ORDER BY / SKIP / LIMIT must be part of a RETURN clause"),
            ),
            tok => {
                let mut m = owned("unexpected token at top level: ");
                m.append(tok.debug_string().as_str());
                Err(self.error(m.as_str()))
            },
        }
    }


    /// Parses a MATCH clause, `MATCH pattern [AT TIME e | BETWEEN TIME e AND e] [WHERE e]`;
    /// `optional` records whether OPTIONAL was already consumed.
    pub fn parse_match_clause(&mut self, optional: bool) -> (r: Result<MatchClause, ParseError>)
        requires
            old(self).wf(),
        ensures
            super::reported(r),
            final(self).moved_from(old(self)),
            outcome(r, final(self).pos as int) == match_at(
                old(self).tokens@,
                old(self).pos as int,
                optional,
            ),
            r is Ok ==> final(self).pos > old(self).pos,
    {
        match self.expect(&Token::Match) {
            Ok(_) => {},
            Err(e) => return Err(e),
        }
        let pattern = match self.parse_pattern() {
            Ok(p) => p,
            Err(e) => return Err(e),
        };
        let temporal_predicate = match self.parse_optional_temporal_predicate() {
            Ok(t) => t,
            Err(e) => return Err(e),
        };
        let where_clause = if self.eat(&Token::Where) {
            match self.parse_expression() {
                Ok(e) => Some(e),
                Err(e) => return Err(e),
            }
        } else {
            None
        };
        Ok(MatchClause { optional, pattern, temporal_predicate, where_clause })
    }

    /// Parses a RETURN clause:
    /// `RETURN [DISTINCT] items [ORDER BY order_items] [SKIP expr] [LIMIT expr]`.
    pub fn parse_return_clause(&mut self) -> (r: Result<ReturnClause, ParseError>)
        requires
            old(self).wf(),
        ensures
            super::reported(r),
            final(self).moved_from(old(self)),
            outcome(r, final(self).pos as int) == return_at(old(self).tokens@, old(self).pos as int),
            r is Ok ==> final(self).pos > old(self).pos,
    {
        match self.expect(&Token::Return) {
            Ok(_) => {},
            Err(e) => return Err(e),
        }
        let distinct = self.eat(&Token::Distinct);
        let items = match self.parse_return_items() {
            Ok(i) => i,
            Err(e) => return Err(e),
        };
        let order_by = if self.check(&Token::Order) {
            match self.parse_order_by() {
                Ok(o) => Some(o),
                Err(e) => return Err(e),
            }
        } else {
            None
        };
        let skip = if self.eat(&Token::Skip) {
            match self.parse_expression() {
                Ok(e) => Some(e),
                Err(e) => return Err(e),
            }
        } else {
            None
        };
        let limit = if self.eat(&Token::Limit) {
            match self.parse_expression() {
                Ok(e) => Some(e),
                Err(e) => return Err(e),
            }
        } else {
            None
        };
        Ok(ReturnClause { distinct, items, order_by, skip, limit })
    }

    /// Parses a CREATE clause: `CREATE pattern`.
    pub fn parse_create_clause(&mut self) -> (r: Result<CreateClause, ParseError>)
        requires
            old(self).wf(),
        ensures
            super::reported(r),
            final(self).moved_from(old(self)),
            match r {
                Ok(c) => create_at(old(self).tokens@, old(self).pos as int) == Some(
                    (c.pattern@, final(self).pos as int),
                ),
                Err(_) => create_at(old(self).tokens@, old(self).pos as int) is None,
            },
            r is Ok ==> final(self).pos > old(self).pos,
    {
        match self.expect(&Token::Create) {
            Ok(_) => {},
            Err(e) => return Err(e),
        }
        match self.parse_pattern() {
            Ok(pattern) => Ok(CreateClause { pattern }),
            Err(e) => Err(e),
        }
    }

    /// Parses a SET clause: `SET property = expression [, property = expression]*`.
    pub fn parse_set_clause(&mut self) -> (r: Result<SetClause, ParseError>)
        requires
            old(self).wf(),
        ensures
            super::reported(r),
            final(self).moved_from(old(self)),
            match r {
                Ok(c) => set_at(old(self).tokens@, old(self).pos as int) == Some(
                    (set_items_view(c.items@), final(self).pos as int),
                ),
                Err(_) => set_at(old(self).tokens@, old(self).pos as int) is None,
            },
            r is Ok ==> final(self).pos > old(self).pos,
    {
        match self.expect(&Token::SetKw) {
            Ok(_) => {},
            Err(e) => return Err(e),
        }
        let items = match self.parse_set_items() {
            Ok(i) => i,
            Err(e) => return Err(e),
        };
        Ok(SetClause { items })
    }

    /// Parses a REMOVE clause: `REMOVE (n.prop | n:Label) [, ...]*`.
    pub fn parse_remove_clause(&mut self) -> (r: Result<RemoveClause, ParseError>)
        requires
            old(self).wf(),
        ensures
            super::reported(r),
            final(self).moved_from(old(self)),
            match r {
                Ok(c) => remove_at(old(self).tokens@, old(self).pos as int) == Some(
                    (remove_items_view(c.items@), final(self).pos as int),
                ),
                Err(_) => remove_at(old(self).tokens@, old(self).pos as int) is None,
            },
            r is Ok ==> final(self).pos > old(self).pos,
    {
        let ghost ts = self.tokens@;
        match self.expect(&Token::Remove) {
            Ok(_) => {},
            Err(e) => return Err(e),
        }
        let ghost k0 = self.pos as int;
        let mut items: Vec<RemoveItem> = Vec::new();
        match self.parse_remove_item() {
            Ok(i) => items.push(i),
            Err(e) => return Err(e),
        }
        assert(remove_items_view(items@) =~= seq![items@[0]@]);
        while self.eat(&Token::Comma)
            invariant
                self.moved_from(old(self)),
                self.pos > old(self).pos,
                ts == old(self).tokens@,
                k0 == old(self).pos + 1,
                remove_items_at(ts, k0) == remove_items_tail(
                    ts,
                    remove_items_view(items@),
                    self.pos as int,
                ),
            decreases self.tokens@.len() - self.pos,
        {
            let ghost j = self.pos - 1;
            let ghost before = items@;
            match self.parse_remove_item() {
                Ok(i) => {
                    proof {
                        lemma_remove_items_step(ts, remove_items_view(before), j, i@, self.pos as int);
                    }
                    items.push(i);
                    assert(remove_items_view(items@) =~= remove_items_view(before).push(i@));
                },
                Err(e) => return Err(e),
            }
        }
        Ok(RemoveClause { items })
    }

    /// Parses a DELETE clause: `DELETE expression [, expression]*`; `detach`
    /// records whether DETACH was already consumed.
    pub fn parse_delete_clause(&mut self, detach: bool) -> (r: Result<DeleteClause, ParseError>)
        requires
            old(self).wf(),
        ensures
            super::reported(r),
            final(self).moved_from(old(self)),
            outcome(r, final(self).pos as int) == delete_at(
                old(self).tokens@,
                old(self).pos as int,
                detach,
            ),
            r is Ok ==> final(self).pos > old(self).pos,
    {
        match self.expect(&Token::Delete) {
            Ok(_) => {},
            Err(e) => return Err(e),
        }
        match self.parse_expr_list() {
            Ok(exprs) => Ok(DeleteClause { detach, exprs }),
            Err(e) => Err(e),
        }
    }

    /// Parses a WITH clause: `WITH [DISTINCT] items [WHERE expression]`.
    pub fn parse_with_clause(&mut self) -> (r: Result<WithClause, ParseError>)
        requires
            old(self).wf(),
        ensures
            super::reported(r),
            final(self).moved_from(old(self)),
            outcome(r, final(self).pos as int) == with_at(old(self).tokens@, old(self).pos as int),
            r is Ok ==> final(self).pos > old(self).pos,
    {
        match self.expect(&Token::With) {
            Ok(_) => {},
            Err(e) => return Err(e),
        }
        let distinct = self.eat(&Token::Distinct);
        let items = match self.parse_return_items() {
            Ok(i) => i,
            Err(e) => return Err(e),
        };
        let where_clause = if self.eat(&Token::Where) {
            match self.parse_expression() {
                Ok(e) => Some(e),
                Err(e) => return Err(e),
            }
        } else {
            None
        };
        Ok(WithClause { distinct, items, where_clause })
    }

    /// Parses an UNWIND clause: `UNWIND expression AS variable`.
    pub fn parse_unwind_clause(&mut self) -> (r: Result<UnwindClause, ParseError>)
        requires
            old(self).wf(),
        ensures
            super::reported(r),
            final(self).moved_from(old(self)),
            outcome(r, final(self).pos as int) == unwind_at(old(self).tokens@, old(self).pos as int),
            r is Ok ==> final(self).pos > old(self).pos,
    {
        match self.expect(&Token::Unwind) {
            Ok(_) => {},
            Err(e) => return Err(e),
        }
        let expr = match self.parse_expression() {
            Ok(e) => e,
            Err(e) => return Err(e),
        };
        match self.expect(&Token::As) {
            Ok(_) => {},
            Err(e) => return Err(e),
        }
        match self.expect_ident() {
            Ok(variable) => Ok(UnwindClause { expr, variable }),
            Err(e) => Err(e),
        }
    }

    /// Parses a MERGE clause: `MERGE pattern [ON MATCH SET items] [ON CREATE SET items]`,
    /// the two actions in any order and each possibly repeated.
    pub fn parse_merge_clause(&mut self) -> (r: Result<MergeClause, ParseError>)
        requires
            old(self).wf(),
        ensures
            super::reported(r),
            final(self).moved_from(old(self)),
            outcome(r, final(self).pos as int) == merge_at(old(self).tokens@, old(self).pos as int),
            r is Ok ==> final(self).pos > old(self).pos,
    {
        let ghost ts = self.tokens@;
        match self.expect(&Token::Merge) {
            Ok(_) => {},
            Err(e) => return Err(e),
        }
        let pattern = match self.parse_pattern() {
            Ok(p) => p,
            Err(e) => return Err(e),
        };
        let ghost j0 = self.pos as int;
        let mut on_match: Vec<SetItem> = Vec::new();
        let mut on_create: Vec<SetItem> = Vec::new();
        assert(set_items_view(on_match@) =~= Seq::<SpecSetItem>::empty());
        assert(set_items_view(on_create@) =~= Seq::<SpecSetItem>::empty());
        loop
            invariant
                self.moved_from(old(self)),
                self.pos > old(self).pos,
                ts == old(self).tokens@,
                j0 <= self.pos,
                tok_is(ts, old(self).pos as int, SpecToken::Merge),
                pattern_at(ts, old(self).pos + 1) == Some((pattern@, j0)),
                merge_actions(ts, j0, Seq::empty(), Seq::empty()) == merge_actions(
                    ts,
                    self.pos as int,
                    set_items_view(on_match@),
                    set_items_view(on_create@),
                ),
            ensures
                self.moved_from(old(self)),
                self.pos > old(self).pos,
                merge_actions(ts, j0, Seq::empty(), Seq::empty()) == Some(
                    ((set_items_view(on_match@), set_items_view(on_create@)), self.pos as int),
                ),
            decreases self.tokens@.len() - self.pos,
        {
            let ghost j = self.pos as int;
            let ghost om = on_match@;
            let ghost oc = on_create@;
            if !self.check(&Token::On) {
                break;
            }
            if self.check_ahead(1, &Token::Match) {
                self.advance();
                self.advance();
                match self.expect(&Token::SetKw) {
                    Ok(_) => {},
                    Err(e) => return Err(e),
                }
                match self.parse_set_items() {
                    Ok(items) => {
                        let mut items = items;
                        let ghost added = items@;
                        on_match.append(&mut items);
                        assert(set_items_view(on_match@) =~= set_items_view(om) + set_items_view(
                            added,
                        ));
                    },
                    Err(e) => return Err(e),
                }
            } else if self.check_ahead(1, &Token::Create) {
                self.advance();
                self.advance();
                match self.expect(&Token::SetKw) {
                    Ok(_) => {},
                    Err(e) => return Err(e),
                }
                match self.parse_set_items() {
                    Ok(items) => {
                        let mut items = items;
                        let ghost added = items@;
                        on_create.append(&mut items);
                        assert(set_items_view(on_create@) =~= set_items_view(oc) + set_items_view(
                            added,
                        ));
                    },
                    Err(e) => return Err(e),
                }
            } else {
                break;
            }
        }
        Ok(MergeClause { pattern, on_match, on_create })
    }

    /// Parses `INDEX [name] ON :Label(property)`; CREATE has been consumed.
    pub fn parse_create_index_clause(&mut self) -> (r: Result<CreateIndexClause, ParseError>)
        requires
            old(self).wf(),
        ensures
            super::reported(r),
            final(self).moved_from(old(self)),
            outcome(r, final(self).pos as int) == index_def_at(
                old(self).tokens@,
                old(self).pos as int,
                false,
            ),
    {
        self.parse_index_definition(false)
    }

    /// Parses `EDGE INDEX [name] ON :RelType(property)`; CREATE has been consumed.
    pub fn parse_create_edge_index_clause(&mut self) -> (r: Result<CreateIndexClause, ParseError>)
        requires
            old(self).wf(),
        ensures
            super::reported(r),
            final(self).moved_from(old(self)),
            outcome(r, final(self).pos as int) == if old(self).at(
                old(self).pos as int,
                SpecToken::Edge,
            ) {
                index_def_at(old(self).tokens@, old(self).pos + 1, true)
            } else {
                None
            },
    {
        match self.expect(&Token::Edge) {
            Ok(_) => {},
            Err(e) => return Err(e),
        }
        self.parse_index_definition(true)
    }

    /// Reads `INDEX [name] ON :Name(property)` for a node-label or
    /// relationship-type index.
    fn parse_index_definition(&mut self, on_edges: bool) -> (r: Result<CreateIndexClause, ParseError>)
        requires
            old(self).wf(),
        ensures
            super::reported(r),
            final(self).moved_from(old(self)),
            outcome(r, final(self).pos as int) == index_def_at(
                old(self).tokens@,
                old(self).pos as int,
                on_edges,
            ),
    {
        match self.expect(&Token::Index) {
            Ok(_) => {},
            Err(e) => return Err(e),
        }
        let name = if !self.check(&Token::On) {
            match self.expect_ident() {
                Ok(n) => Some(n),
                Err(e) => return Err(e),
            }
        } else {
            None
        };
        match self.expect(&Token::On) {
            Ok(_) => {},
            Err(e) => return Err(e),
        }
        match self.expect(&Token::Colon) {
            Ok(_) => {},
            Err(e) => return Err(e),
        }
        let target_name = match self.expect_ident() {
            Ok(n) => n,
            Err(e) => return Err(e),
        };
        match self.expect(&Token::LParen) {
            Ok(_) => {},
            Err(e) => return Err(e),
        }
        let property = match self.expect_ident() {
            Ok(n) => n,
            Err(e) => return Err(e),
        };
        match self.expect(&Token::RParen) {
            Ok(_) => {},
            Err(e) => return Err(e),
        }
        let target = if on_edges {
            IndexTarget::RelationshipType(target_name)
        } else {
            IndexTarget::NodeLabel(target_name)
        };
        Ok(CreateIndexClause { name, target, property })
    }

    /// Parses a DROP INDEX clause: `DROP INDEX name`.
    pub fn parse_drop_index_clause(&mut self) -> (r: Result<DropIndexClause, ParseError>)
        requires
            old(self).wf(),
        ensures
            super::reported(r),
            final(self).moved_from(old(self)),
            match r {
                Ok(d) => drop_index_at(old(self).tokens@, old(self).pos as int) == Some(
                    (d.name@, final(self).pos as int),
                ),
                Err(_) => drop_index_at(old(self).tokens@, old(self).pos as int) is None,
            },
    {
        match self.expect(&Token::Drop) {
            Ok(_) => {},
            Err(e) => return Err(e),
        }
        match self.expect(&Token::Index) {
            Ok(_) => {},
            Err(e) => return Err(e),
        }
        match self.expect_ident() {
            Ok(name) => Ok(DropIndexClause { name }),
            Err(e) => Err(e),
        }
    }

    /// Parses an optional temporal predicate after a MATCH pattern:
    /// `AT TIME e` or `BETWEEN TIME e AND e`.
    fn parse_optional_temporal_predicate(&mut self) -> (r: Result<
        Option<TemporalPredicate>,
        ParseError,
    >)
        requires
            old(self).wf(),
        ensures
            super::reported(r),
            final(self).moved_from(old(self)),
            match r {
                Ok(t) => temporal_at(old(self).tokens@, old(self).pos as int) == Some(
                    (super::ast::opt_temporal(t), final(self).pos as int),
                ),
                Err(_) => temporal_at(old(self).tokens@, old(self).pos as int) is None,
            },
    {
        if self.check(&Token::At) {
            self.advance();
            match self.expect(&Token::Time) {
                Ok(_) => {},
                Err(e) => return Err(e),
            }
            match self.parse_expression() {
                Ok(e) => Ok(Some(TemporalPredicate::AsOf(e))),
                Err(e) => Err(e),
            }
        } else if self.check(&Token::Between) {
            self.advance();
            match self.expect(&Token::Time) {
                Ok(_) => {},
                Err(e) => return Err(e),
            }
            let start = match self.parse_expression_no_and() {
                Ok(e) => e,
                Err(e) => return Err(e),
            };
            match self.expect(&Token::And) {
                Ok(_) => {},
                Err(e) => return Err(e),
            }
            match self.parse_expression_no_and() {
                Ok(end) => Ok(Some(TemporalPredicate::Between(start, end))),
                Err(e) => Err(e),
            }
        } else {
            Ok(None)
        }
    }

    /// Parses comma-separated return items: `expression [AS alias] [, ...]`.
    fn parse_return_items(&mut self) -> (r: Result<Vec<ReturnItem>, ParseError>)
        requires
            old(self).wf(),
        ensures
            super::reported(r),
            final(self).moved_from(old(self)),
            match r {
                Ok(v) => return_items_at(old(self).tokens@, old(self).pos as int) == Some(
                    (return_items_view(v@), final(self).pos as int),
                ),
                Err(_) => return_items_at(old(self).tokens@, old(self).pos as int) is None,
            },
            r is Ok ==> final(self).pos > old(self).pos,
    {
        let ghost ts = self.tokens@;
        let ghost k0 = self.pos as int;
        let mut items: Vec<ReturnItem> = Vec::new();
        match self.parse_return_item() {
            Ok(i) => items.push(i),
            Err(e) => return Err(e),
        }
        assert(return_items_view(items@) =~= seq![items@[0]@]);
        while self.eat(&Token::Comma)
            invariant
                self.moved_from(old(self)),
                self.pos > old(self).pos,
                ts == old(self).tokens@,
                k0 == old(self).pos,
                return_items_at(ts, k0) == return_items_tail(
                    ts,
                    return_items_view(items@),
                    self.pos as int,
                ),
            decreases self.tokens@.len() - self.pos,
        {
            let ghost j = self.pos - 1;
            let ghost before = items@;
            match self.parse_return_item() {
                Ok(i) => {
                    proof {
                        lemma_return_items_step(ts, return_items_view(before), j, i@, self.pos as int);
                    }
                    items.push(i);
                    assert(return_items_view(items@) =~= return_items_view(before).push(i@));
                },
                Err(e) => return Err(e),
            }
        }
        Ok(items)
    }

    /// Parses a single return item: `expression [AS alias]`.
    fn parse_return_item(&mut self) -> (r: Result<ReturnItem, ParseError>)
        requires
            old(self).wf(),
        ensures
            super::reported(r),
            final(self).moved_from(old(self)),
            outcome(r, final(self).pos as int) == return_item_at(old(self).tokens@, old(self).pos as int),
            r is Ok ==> final(self).pos > old(self).pos,
    {
        let expr = match self.parse_expression() {
            Ok(e) => e,
            Err(e) => return Err(e),
        };
        let alias = if self.eat(&Token::As) {
            match self.expect_ident() {
                Ok(a) => Some(a),
                Err(e) => return Err(e),
            }
        } else {
            None
        };
        Ok(ReturnItem { expr, alias })
    }

    /// Parses ORDER BY: `ORDER BY expression [ASC|DESC] [, ...]`.
    fn parse_order_by(&mut self) -> (r: Result<Vec<OrderItem>, ParseError>)
        requires
            old(self).wf(),
        ensures
            super::reported(r),
            final(self).moved_from(old(self)),
            match r {
                Ok(v) => order_by_at(old(self).tokens@, old(self).pos as int) == Some(
                    (order_items_view(v@), final(self).pos as int),
                ),
                Err(_) => order_by_at(old(self).tokens@, old(self).pos as int) is None,
            },
            r is Ok ==> final(self).pos > old(self).pos,
    {
        let ghost ts = self.tokens@;
        match self.expect(&Token::Order) {
            Ok(_) => {},
            Err(e) => return Err(e),
        }
        match self.expect(&Token::By) {
            Ok(_) => {},
            Err(e) => return Err(e),
        }
        let ghost k0 = self.pos as int;
        let mut items: Vec<OrderItem> = Vec::new();
        match self.parse_order_item() {
            Ok(i) => items.push(i),
            Err(e) => return Err(e),
        }
        assert(order_items_view(items@) =~= seq![items@[0]@]);
        while self.eat(&Token::Comma)
            invariant
                self.moved_from(old(self)),
                self.pos > old(self).pos,
                ts == old(self).tokens@,
                k0 == old(self).pos + 2,
                order_items_at(ts, k0) == order_items_tail(
                    ts,
                    order_items_view(items@),
                    self.pos as int,
                ),
            decreases self.tokens@.len() - self.pos,
        {
            let ghost j = self.pos - 1;
            let ghost before = items@;
            match self.parse_order_item() {
                Ok(i) => {
                    proof {
                        lemma_order_items_step(ts, order_items_view(before), j, i@, self.pos as int);
                    }
                    items.push(i);
                    assert(order_items_view(items@) =~= order_items_view(before).push(i@));
                },
                Err(e) => return Err(e),
            }
        }
        Ok(items)
    }

    /// Parses a single order item: `expression [ASC|DESC]`, ascending unless DESC.
    fn parse_order_item(&mut self) -> (r: Result<OrderItem, ParseError>)
        requires
            old(self).wf(),
        ensures
            super::reported(r),
            final(self).moved_from(old(self)),
            outcome(r, final(self).pos as int) == order_item_at(old(self).tokens@, old(self).pos as int),
            r is Ok ==> final(self).pos > old(self).pos,
    {
        let expr = match self.parse_expression() {
            Ok(e) => e,
            Err(e) => return Err(e),
        };
        let ascending = if self.eat(&Token::Desc) {
            false
        } else {
            self.eat(&Token::Asc);
            true
        };
        Ok(OrderItem { expr, ascending })
    }

    /// Parses one or more comma-separated SET items.
    fn parse_set_items(&mut self) -> (r: Result<Vec<SetItem>, ParseError>)
        requires
            old(self).wf(),
        ensures
            super::reported(r),
            final(self).moved_from(old(self)),
            match r {
                Ok(v) => set_items_at(old(self).tokens@, old(self).pos as int) == Some(
                    (set_items_view(v@), final(self).pos as int),
                ),
                Err(_) => set_items_at(old(self).tokens@, old(self).pos as int) is None,
            },
            r is Ok ==> final(self).pos > old(self).pos,
    {
        let ghost ts = self.tokens@;
        let ghost k0 = self.pos as int;
        let mut items: Vec<SetItem> = Vec::new();
        match self.parse_set_item() {
            Ok(i) => items.push(i),
            Err(e) => return Err(e),
        }
        assert(set_items_view(items@) =~= seq![items@[0]@]);
        while self.eat(&Token::Comma)
            invariant
                self.moved_from(old(self)),
                self.pos > old(self).pos,
                ts == old(self).tokens@,
                k0 == old(self).pos,
                set_items_at(ts, k0) == set_items_tail(ts, set_items_view(items@), self.pos as int),
            decreases self.tokens@.len() - self.pos,
        {
            let ghost j = self.pos - 1;
            let ghost before = items@;
            match self.parse_set_item() {
                Ok(i) => {
                    proof {
                        lemma_set_items_step(ts, set_items_view(before), j, i@, self.pos as int);
                    }
                    items.push(i);
                    assert(set_items_view(items@) =~= set_items_view(before).push(i@));
                },
                Err(e) => return Err(e),
            }
        }
        Ok(items)
    }

    /// Parses a single SET item `variable(.property)* = expression`; the
    /// target is read as a property chain so that `=` is not taken as a
    /// comparison.
    fn parse_set_item(&mut self) -> (r: Result<SetItem, ParseError>)
        requires
            old(self).wf(),
        ensures
            super::reported(r),
            final(self).moved_from(old(self)),
            outcome(r, final(self).pos as int) == set_item_at(old(self).tokens@, old(self).pos as int),
            r is Ok ==> final(self).pos > old(self).pos,
    {
        let ghost ts = self.tokens@;
        let ghost k0 = self.pos as int;
        let name = match self.expect_ident() {
            Ok(n) => n,
            Err(e) => return Err(e),
        };
        let mut target = Expression::Variable(name);
        while self.eat(&Token::Dot)
            invariant
                self.moved_from(old(self)),
                self.pos > old(self).pos,
                ts == old(self).tokens@,
                k0 == old(self).pos,
                ident_at(ts, k0) is Some,
                set_target_from(ts, SpecExpr::Variable(ident_at(ts, k0)->0), k0 + 1)
                    == set_target_from(ts, target@, self.pos as int),
            decreases self.tokens@.len() - self.pos,
        {
            let ghost prev = target@;
            match self.expect_ident() {
                Ok(prop) => {
                    target = Expression::Property(Box::new(target), prop);
                    assert(target@ == SpecExpr::Property(Box::new(prev), prop@));
                },
                Err(e) => return Err(e),
            }
        }
        match self.expect(&Token::Eq) {
            Ok(_) => {},
            Err(e) => return Err(e),
        }
        match self.parse_expression() {
            Ok(value) => Ok(SetItem::Property { target, value }),
            Err(e) => Err(e),
        }
    }

    /// Parses a single REMOVE item: `variable.property` or `variable:Label`.
    fn parse_remove_item(&mut self) -> (r: Result<RemoveItem, ParseError>)
        requires
            old(self).wf(),
        ensures
            super::reported(r),
            final(self).moved_from(old(self)),
            outcome(r, final(self).pos as int) == remove_item_at(old(self).tokens@, old(self).pos as int),
            r is Ok ==> final(self).pos == old(self).pos + 3,
    {
        proof {
            reveal_strlit("expected '.' or ':' after identifier in REMOVE item");
        }
        proof {
            reveal_with_fuel(super::ast::expr_view, 2);
        }
        let name = match self.expect_ident() {
            Ok(n) => n,
            Err(e) => return Err(e),
        };
        if self.eat(&Token::Colon) {
            match self.expect_ident() {
                Ok(label) => Ok(RemoveItem::Label { variable: name, label }),
                Err(e) => Err(e),
            }
        } else if self.eat(&Token::Dot) {
            match self.expect_ident() {
                Ok(prop) => Ok(
                    RemoveItem::Property(Expression::Property(Box::new(Expression::Variable(name)), prop)),
                ),
                Err(e) => Err(e),
            }
        } else {
            Err(self.error("expected '.' or ':' after identifier in REMOVE item"))
        }
    }
}

} // verus!
