//! The grammar reads tokens only through their models: two token lists
//! with the same token models read the same expressions, patterns and
//! clauses at every position.

use vstd::prelude::*;
use crate::lexer::SpecToken;
use super::ast::{SpecExpr, SpecPatternElement, SpecSetItem};
use super::expression::{
    call_args_at, expr_at, expr_list_at, infix_bp, infix_from, list_at, op_at, prefix_at, primary_at,
    Toks,
};
use super::pattern::{
    chain_at, chain_rest, entries_at, entry_at, map_at, names_after, node_at, opt_map_at, pattern_at,
    rel_at, rel_content_at, rel_starts, types_at, var_length_at,
};
use super::clause::{
    clause_at, clauses_from, create_at, delete_at, drop_index_at, index_def_at, match_at,
    merge_actions, merge_at, remove_at, return_at, set_at, unwind_at, with_at, opt_after, opt_order_at, order_item_at, order_items_at,
    query_at, remove_item_at, remove_items_at, return_item_at, return_items_at, set_item_at,
    set_items_at, set_target_from, temporal_at,
};
use super::{ident_at, tok_is};

verus! {

/// Two token lists of the same length whose tokens have the same models.
pub open spec fn same_views(t1: Toks, t2: Toks) -> bool {
    &&& t1.len() == t2.len()
    &&& forall|k: int| 0 <= k < t1.len() ==> (#[trigger] t1[k]).0@ == t2[k].0@
}

proof fn cong_expr(t1: Toks, t2: Toks, k: int, bp: int)
    requires
        same_views(t1, t2),
    ensures
        expr_at(t1, k, bp) == expr_at(t2, k, bp),
    decreases t1.len() - k, 2int,
{
    if 0 <= k <= t1.len() {
        cong_prefix(t1, t2, k);
        if let Some((lhs, j)) = prefix_at(t1, k) {
            if k < j <= t1.len() {
                cong_infix(t1, t2, lhs, j, bp);
            }
        }
    }
}

proof fn cong_infix(t1: Toks, t2: Toks, lhs: SpecExpr, j: int, bp: int)
    requires
        same_views(t1, t2),
    ensures
        infix_from(t1, lhs, j, bp) == infix_from(t2, lhs, j, bp),
    decreases t1.len() - j, 3int,
{
    if 0 <= j <= t1.len() {
        if tok_is(t1, j, SpecToken::Dot) {
            if let Some(name) = ident_at(t1, j + 1) {
                cong_infix(t1, t2, SpecExpr::Property(Box::new(lhs), name), j + 2, bp);
            }
        } else if tok_is(t1, j, SpecToken::Is) {
            if !(5 < bp) {
                let neg = tok_is(t1, j + 1, SpecToken::Not);
                let m = if neg {
                    j + 2
                } else {
                    j + 1
                };
                if tok_is(t1, m, SpecToken::Null) {
                    cong_infix(t1, t2, SpecExpr::IsNull(Box::new(lhs), neg), m + 1, bp);
                }
            }
        } else if let Some(op) = op_at(t1, j) {
            if !((infix_bp(op).0 as int) < bp) {
                cong_expr(t1, t2, j + 1, infix_bp(op).1 as int);
                if let Some((rhs, m)) = expr_at(t1, j + 1, infix_bp(op).1 as int) {
                    if j + 1 < m <= t1.len() {
                        cong_infix(
                            t1,
                            t2,
                            SpecExpr::BinaryOp(op, Box::new(lhs), Box::new(rhs)),
                            m,
                            bp,
                        );
                    }
                }
            }
        }
    }
}

proof fn cong_prefix(t1: Toks, t2: Toks, k: int)
    requires
        same_views(t1, t2),
    ensures
        prefix_at(t1, k) == prefix_at(t2, k),
    decreases t1.len() - k, 1int,
{
    if 0 <= k < t1.len() {
        if tok_is(t1, k, SpecToken::Not) {
            cong_expr(t1, t2, k + 1, 4);
        } else if tok_is(t1, k, SpecToken::Minus) {
            cong_expr(t1, t2, k + 1, 11);
        } else if tok_is(t1, k, SpecToken::LParen) {
            cong_expr(t1, t2, k + 1, 0);
        } else if tok_is(t1, k, SpecToken::LBracket) {
            cong_list(t1, t2, k);
        } else {
            cong_primary(t1, t2, k);
        }
    }
}

proof fn cong_expr_list(t1: Toks, t2: Toks, k: int)
    requires
        same_views(t1, t2),
    ensures
        expr_list_at(t1, k) == expr_list_at(t2, k),
    decreases t1.len() - k, 4int,
{
    if 0 <= k <= t1.len() {
        cong_expr(t1, t2, k, 0);
        if let Some((e, j)) = expr_at(t1, k, 0) {
            if k < j <= t1.len() && tok_is(t1, j, SpecToken::Comma) {
                cong_expr_list(t1, t2, j + 1);
            }
        }
    }
}

proof fn cong_list(t1: Toks, t2: Toks, k: int)
    requires
        same_views(t1, t2),
        0 <= k < t1.len(),
    ensures
        list_at(t1, k) == list_at(t2, k),
    decreases t1.len() - k, 0int,
{
    cong_expr_list(t1, t2, k + 1);
}

proof fn cong_call_args(t1: Toks, t2: Toks, k: int)
    requires
        same_views(t1, t2),
    ensures
        call_args_at(t1, k) == call_args_at(t2, k),
    decreases t1.len() - k, 5int,
{
    if 0 <= k <= t1.len() {
        cong_expr_list(t1, t2, k);
    }
}

proof fn cong_primary(t1: Toks, t2: Toks, k: int)
    requires
        same_views(t1, t2),
    ensures
        primary_at(t1, k) == primary_at(t2, k),
    decreases t1.len() - k, 0int,
{
    if 0 <= k < t1.len() {
        let d = tok_is(t1, k + 2, SpecToken::Distinct);
        let s = if d {
            k + 3
        } else {
            k + 2
        };
        if s <= t1.len() {
            cong_expr(t1, t2, s, 0);
            cong_call_args(t1, t2, s);
        }
    }
}

proof fn cong_names(t1: Toks, t2: Toks, k: int, sep: SpecToken)
    requires
        same_views(t1, t2),
    ensures
        names_after(t1, k, sep) == names_after(t2, k, sep),
    decreases t1.len() - k,
{
    if tok_is(t1, k, sep) && ident_at(t1, k + 1) is Some {
        cong_names(t1, t2, k + 2, sep);
    }
}

proof fn cong_entries(t1: Toks, t2: Toks, k: int)
    requires
        same_views(t1, t2),
    ensures
        entry_at(t1, k) == entry_at(t2, k),
        entries_at(t1, k) == entries_at(t2, k),
    decreases t1.len() - k,
{
    if 0 <= k <= t1.len() {
        if k + 2 <= t1.len() {
            cong_expr(t1, t2, k + 2, 0);
        }
        if let Some((kv, j)) = entry_at(t1, k) {
            if k < j <= t1.len() && tok_is(t1, j, SpecToken::Comma) {
                cong_entries(t1, t2, j + 1);
            }
        }
    } else if k > t1.len() {
        assert(entry_at(t1, k) is None && entry_at(t2, k) is None);
    }
}

proof fn cong_map(t1: Toks, t2: Toks, k: int)
    requires
        same_views(t1, t2),
    ensures
        map_at(t1, k) == map_at(t2, k),
        opt_map_at(t1, k) == opt_map_at(t2, k),
{
    if tok_is(t1, k, SpecToken::LBrace) {
        cong_entries(t1, t2, k + 1);
    }
}

proof fn cong_node(t1: Toks, t2: Toks, k: int)
    requires
        same_views(t1, t2),
    ensures
        node_at(t1, k) == node_at(t2, k),
{
    if tok_is(t1, k, SpecToken::LParen) {
        let a = if ident_at(t1, k + 1) is Some {
            k + 2
        } else {
            k + 1
        };
        cong_names(t1, t2, a, SpecToken::Colon);
        if let Some((labels, b)) = names_after(t1, a, SpecToken::Colon) {
            cong_map(t1, t2, b);
        }
    }
}

proof fn cong_rel_content(t1: Toks, t2: Toks, k: int)
    requires
        same_views(t1, t2),
    ensures
        rel_content_at(t1, k) == rel_content_at(t2, k),
{
    let v = ident_at(t1, k);
    let a = if v is Some {
        k + 1
    } else {
        k
    };
    if let Some((mn, mx, e)) = var_length_at(t1, k) {
        cong_map(t1, t2, e);
    }
    if let Some((mn, mx, e)) = var_length_at(t1, a) {
        cong_map(t1, t2, e);
    }
    cong_names(t1, t2, a + 2, SpecToken::Pipe);
    let types = if tok_is(t1, a, SpecToken::Colon) {
        types_at(t1, a)
    } else {
        Some((Seq::empty(), a))
    };
    if let Some((tys, b)) = types {
        if let Some((mn, mx, e)) = var_length_at(t1, b) {
            cong_map(t1, t2, e);
        }
        cong_map(t1, t2, b);
    }
}

proof fn cong_rel(t1: Toks, t2: Toks, k: int)
    requires
        same_views(t1, t2),
    ensures
        rel_at(t1, k) == rel_at(t2, k),
{
    cong_rel_content(t1, t2, k + 2);
}

proof fn cong_chain_rest(t1: Toks, t2: Toks, es: Seq<SpecPatternElement>, j: int)
    requires
        same_views(t1, t2),
    ensures
        chain_rest(t1, es, j) == chain_rest(t2, es, j),
    decreases t1.len() - j,
{
    if 0 <= j <= t1.len() && rel_starts(t1, j) {
        cong_rel(t1, t2, j);
        if let Some((r, m)) = rel_at(t1, j) {
            cong_node(t1, t2, m);
            if let Some((n, q)) = node_at(t1, m) {
                if j < q <= t1.len() {
                    cong_chain_rest(
                        t1,
                        t2,
                        es.push(SpecPatternElement::Relationship(r)).push(SpecPatternElement::Node(n)),
                        q,
                    );
                }
            }
        }
    }
}

proof fn cong_chain(t1: Toks, t2: Toks, k: int)
    requires
        same_views(t1, t2),
    ensures
        chain_at(t1, k) == chain_at(t2, k),
{
    cong_node(t1, t2, k);
    if let Some((n, j)) = node_at(t1, k) {
        cong_chain_rest(t1, t2, seq![SpecPatternElement::Node(n)], j);
    }
}

proof fn cong_pattern(t1: Toks, t2: Toks, k: int)
    requires
        same_views(t1, t2),
    ensures
        pattern_at(t1, k) == pattern_at(t2, k),
    decreases t1.len() - k,
{
    if 0 <= k <= t1.len() {
        cong_chain(t1, t2, k);
        if let Some((c, j)) = chain_at(t1, k) {
            if k < j <= t1.len() && tok_is(t1, j, SpecToken::Comma) {
                cong_pattern(t1, t2, j + 1);
            }
        }
    }
}

proof fn cong_return_items(t1: Toks, t2: Toks, k: int)
    requires
        same_views(t1, t2),
    ensures
        return_item_at(t1, k) == return_item_at(t2, k),
        return_items_at(t1, k) == return_items_at(t2, k),
    decreases t1.len() - k,
{
    if 0 <= k <= t1.len() {
        cong_expr(t1, t2, k, 0);
        if let Some((it, j)) = return_item_at(t1, k) {
            if k < j <= t1.len() && tok_is(t1, j, SpecToken::Comma) {
                cong_return_items(t1, t2, j + 1);
            }
        }
    }
}

proof fn cong_order_items(t1: Toks, t2: Toks, k: int)
    requires
        same_views(t1, t2),
    ensures
        order_items_at(t1, k) == order_items_at(t2, k),
    decreases t1.len() - k,
{
    if 0 <= k <= t1.len() {
        cong_expr(t1, t2, k, 0);
        if let Some((it, j)) = order_item_at(t1, k) {
            if k < j <= t1.len() && tok_is(t1, j, SpecToken::Comma) {
                cong_order_items(t1, t2, j + 1);
            }
        }
    }
}

proof fn cong_opt_after(t1: Toks, t2: Toks, k: int, kw: SpecToken)
    requires
        same_views(t1, t2),
    ensures
        opt_after(t1, k, kw) == opt_after(t2, k, kw),
{
    if tok_is(t1, k, kw) {
        cong_expr(t1, t2, k + 1, 0);
    }
}

proof fn cong_set_target(t1: Toks, t2: Toks, t: SpecExpr, j: int)
    requires
        same_views(t1, t2),
    ensures
        set_target_from(t1, t, j) == set_target_from(t2, t, j),
    decreases t1.len() - j,
{
    if tok_is(t1, j, SpecToken::Dot) {
        if let Some(p) = ident_at(t1, j + 1) {
            cong_set_target(t1, t2, SpecExpr::Property(Box::new(t), p), j + 2);
        }
    }
}

proof fn cong_set_items(t1: Toks, t2: Toks, k: int)
    requires
        same_views(t1, t2),
    ensures
        set_item_at(t1, k) == set_item_at(t2, k),
        set_items_at(t1, k) == set_items_at(t2, k),
    decreases t1.len() - k,
{
    if let Some(n) = ident_at(t1, k) {
        cong_set_target(t1, t2, SpecExpr::Variable(n), k + 1);
        if let Some((t, j)) = set_target_from(t1, SpecExpr::Variable(n), k + 1) {
            if 0 <= j + 1 <= t1.len() {
                cong_expr(t1, t2, j + 1, 0);
            }
        }
    }
    if 0 <= k <= t1.len() {
        if let Some((it, j)) = set_item_at(t1, k) {
            if k < j <= t1.len() && tok_is(t1, j, SpecToken::Comma) {
                cong_set_items(t1, t2, j + 1);
            }
        }
    }
}

proof fn cong_remove_items(t1: Toks, t2: Toks, k: int)
    requires
        same_views(t1, t2),
    ensures
        remove_items_at(t1, k) == remove_items_at(t2, k),
    decreases t1.len() - k,
{
    if 0 <= k <= t1.len() {
        if let Some((it, j)) = remove_item_at(t1, k) {
            if k < j <= t1.len() && tok_is(t1, j, SpecToken::Comma) {
                cong_remove_items(t1, t2, j + 1);
            }
        }
    }
}

proof fn cong_temporal(t1: Toks, t2: Toks, k: int)
    requires
        same_views(t1, t2),
    ensures
        temporal_at(t1, k) == temporal_at(t2, k),
{
    if tok_is(t1, k + 1, SpecToken::Time) {
        cong_expr(t1, t2, k + 2, 0);
        cong_expr(t1, t2, k + 2, 4);
        if let Some((a, j)) = expr_at(t1, k + 2, 4) {
            if tok_is(t1, j, SpecToken::And) {
                cong_expr(t1, t2, j + 1, 4);
            }
        }
    }
}

proof fn cong_merge_actions(
    t1: Toks,
    t2: Toks,
    j: int,
    on_match: Seq<SpecSetItem>,
    on_create: Seq<SpecSetItem>,
)
    requires
        same_views(t1, t2),
    ensures
        merge_actions(t1, j, on_match, on_create) == merge_actions(t2, j, on_match, on_create),
    decreases t1.len() - j,
{
    if tok_is(t1, j, SpecToken::On) && tok_is(t1, j + 2, SpecToken::SetKw) {
        cong_set_items(t1, t2, j + 3);
        if let Some((items, m)) = set_items_at(t1, j + 3) {
            if j < m <= t1.len() {
                cong_merge_actions(t1, t2, m, on_match + items, on_create);
                cong_merge_actions(t1, t2, m, on_match, on_create + items);
            }
        }
    }
}

proof fn cong_match(t1: Toks, t2: Toks, k: int, optional: bool)
    requires
        same_views(t1, t2),
    ensures
        match_at(t1, k, optional) == match_at(t2, k, optional),
{
    cong_pattern(t1, t2, k + 1);
    if let Some((p, j)) = pattern_at(t1, k + 1) {
        cong_temporal(t1, t2, j);
        if let Some((t, j2)) = temporal_at(t1, j) {
            cong_opt_after(t1, t2, j2, SpecToken::Where);
        }
    }
}

proof fn cong_return(t1: Toks, t2: Toks, k: int)
    requires
        same_views(t1, t2),
    ensures
        return_at(t1, k) == return_at(t2, k),
        with_at(t1, k) == with_at(t2, k),
{
    let s = if tok_is(t1, k + 1, SpecToken::Distinct) {
        k + 2
    } else {
        k + 1
    };
    cong_return_items(t1, t2, s);
    if let Some((items, j)) = return_items_at(t1, s) {
        cong_opt_after(t1, t2, j, SpecToken::Where);
        if tok_is(t1, j, SpecToken::Order) {
            cong_order_items(t1, t2, j + 2);
        }
        if let Some((o, j2)) = opt_order_at(t1, j) {
            cong_opt_after(t1, t2, j2, SpecToken::Skip);
            if let Some((sk, j3)) = opt_after(t1, j2, SpecToken::Skip) {
                cong_opt_after(t1, t2, j3, SpecToken::Limit);
            }
        }
    }
}

proof fn cong_updates(t1: Toks, t2: Toks, k: int)
    requires
        same_views(t1, t2),
    ensures
        create_at(t1, k) == create_at(t2, k),
        set_at(t1, k) == set_at(t2, k),
        remove_at(t1, k) == remove_at(t2, k),
        delete_at(t1, k, false) == delete_at(t2, k, false),
        delete_at(t1, k, true) == delete_at(t2, k, true),
        unwind_at(t1, k) == unwind_at(t2, k),
        merge_at(t1, k) == merge_at(t2, k),
        drop_index_at(t1, k) == drop_index_at(t2, k),
        index_def_at(t1, k, false) == index_def_at(t2, k, false),
{
    cong_pattern(t1, t2, k + 1);
    cong_set_items(t1, t2, k + 1);
    cong_remove_items(t1, t2, k + 1);
    cong_expr_list(t1, t2, k + 1);
    cong_expr(t1, t2, k + 1, 0);
    if let Some((p, j)) = pattern_at(t1, k + 1) {
        cong_merge_actions(t1, t2, j, Seq::empty(), Seq::empty());
    }
}

#[verifier::rlimit(80)]
proof fn cong_clause(t1: Toks, t2: Toks, k: int)
    requires
        same_views(t1, t2),
    ensures
        clause_at(t1, k) == clause_at(t2, k),
{
    cong_match(t1, t2, k, false);
    cong_match(t1, t2, k + 1, true);
    cong_return(t1, t2, k);
    cong_updates(t1, t2, k);
    cong_updates(t1, t2, k + 1);
    reveal(clause_at);
}

proof fn cong_clauses(t1: Toks, t2: Toks, k: int)
    requires
        same_views(t1, t2),
    ensures
        clauses_from(t1, k) == clauses_from(t2, k),
    decreases t1.len() - k,
{
    if 0 <= k < t1.len() {
        cong_clause(t1, t2, k);
        if let Some((c, j)) = clause_at(t1, k) {
            if k < j <= t1.len() {
                cong_clauses(t1, t2, j);
            }
        }
    }
}

/// Token lists with the same token models read the same query.
pub proof fn lemma_query_views(t1: Toks, t2: Toks)
    requires
        same_views(t1, t2),
    ensures
        query_at(t1) == query_at(t2),
{
    cong_clauses(t1, t2, 0);
}

/// Token lists with the same models read the same expression list at any
/// position.
pub proof fn lemma_expr_list_views(t1: Toks, t2: Toks, k: int)
    requires
        same_views(t1, t2),
    ensures
        expr_list_at(t1, k) == expr_list_at(t2, k),
        forall|bp: int| #[trigger] expr_at(t1, k, bp) == expr_at(t2, k, bp),
{
    cong_expr_list(t1, t2, k);
    assert forall|bp: int| #[trigger] expr_at(t1, k, bp) == expr_at(t2, k, bp) by {
        cong_expr(t1, t2, k, bp);
    }
}

} // verus!
