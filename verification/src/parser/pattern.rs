//! Pattern parsing: node patterns, relationship patterns, path chains.

use vstd::prelude::*;
use crate::lexer::{SpecToken, Token};
use super::ast::{
    map_view, opt_map, opt_str, strs_view, MapLiteral, NodePattern, Pattern, PatternChain, PatternElement, RelDirection,
    RelationshipPattern, Expression, SpecExpr, SpecNodePattern, SpecPatternElement,
    SpecRelPattern,
};
use super::expression::{expr_at, Toks};
use super::{ident_at, tok_is, ParseError, Parser};

verus! {

/// A chain alternates nodes and relationships, starting and ending with a node.
pub open spec fn chain_shape(elements: Seq<PatternElement>) -> bool {
    &&& elements.len() % 2 == 1
    &&& forall|k: int|
        0 <= k < elements.len() ==> ((#[trigger] elements[k] is Node) <==> k % 2 == 0)
}

/// The integer carried by token `k`, if it is an integer literal.
pub open spec fn int_at(ts: Toks, k: int) -> Option<i64> {
    if 0 <= k < ts.len() {
        match ts[k].0@ {
            SpecToken::Integer(n) => Some(n),
            _ => None,
        }
    } else {
        None
    }
}

/// The hop bounds read by a variable-length spec starting at token `k`
/// (a `*`), with the position after it; `None` when the spec is rejected
/// (a negative hop count).
pub open spec fn var_length_at(ts: Toks, k: int) -> Option<(u32, Option<u32>, int)> {
    if tok_is(ts, k + 1, SpecToken::DoubleDot) {
        match int_at(ts, k + 2) {
            Some(n) => if n < 0 {
                None
            } else {
                Some((1, Some(n as u32), k + 3))
            },
            None => Some((1, None, k + 2)),
        }
    } else {
        match int_at(ts, k + 1) {
            Some(n) => if n < 0 {
                None
            } else if tok_is(ts, k + 2, SpecToken::DoubleDot) {
                match int_at(ts, k + 3) {
                    Some(m) => if m < 0 {
                        None
                    } else {
                        Some((n as u32, Some(m as u32), k + 4))
                    },
                    None => Some((n as u32, None, k + 3)),
                }
            } else {
                Some((n as u32, Some(n as u32), k + 2))
            },
            None => Some((1, None, k + 1)),
        }
    }
}

/// A value read from a position, and the position after it.
pub type Read<T> = Option<(T, int)>;

/// Identifiers each after a `sep` token, from `k` (e.g. the labels `:A:B`).
pub open spec fn names_after(ts: Toks, k: int, sep: SpecToken) -> Read<Seq<Seq<char>>>
    decreases ts.len() - k,
{
    if tok_is(ts, k, sep) {
        match ident_at(ts, k + 1) {
            Some(n) => match names_after(ts, k + 2, sep) {
                Some((ns, m)) => Some((seq![n] + ns, m)),
                None => None,
            },
            None => None,
        }
    } else {
        Some((Seq::empty(), k))
    }
}

/// One `key: value` entry of a map literal from `k`.
pub open spec fn entry_at(ts: Toks, k: int) -> Read<(Seq<char>, SpecExpr)> {
    match ident_at(ts, k) {
        Some(key) => if tok_is(ts, k + 1, SpecToken::Colon) {
            match expr_at(ts, k + 2, 0) {
                Some((v, j)) => Some(((key, v), j)),
                None => None,
            }
        } else {
            None
        },
        None => None,
    }
}

/// One or more map entries separated by commas, from `k`.
pub open spec fn entries_at(ts: Toks, k: int) -> Read<Seq<(Seq<char>, SpecExpr)>>
    decreases ts.len() - k,
{
    if k < 0 || k > ts.len() {
        None
    } else {
        match entry_at(ts, k) {
            Some((kv, j)) => if k < j <= ts.len() {
                if tok_is(ts, j, SpecToken::Comma) {
                    match entries_at(ts, j + 1) {
                        Some((rest, m)) => Some((seq![kv] + rest, m)),
                        None => None,
                    }
                } else {
                    Some((seq![kv], j))
                }
            } else {
                None
            },
            None => None,
        }
    }
}

/// A map literal `{key: value, ...}` from `k`.
pub open spec fn map_at(ts: Toks, k: int) -> Read<Seq<(Seq<char>, SpecExpr)>> {
    if !tok_is(ts, k, SpecToken::LBrace) {
        None
    } else if tok_is(ts, k + 1, SpecToken::RBrace) {
        Some((Seq::empty(), k + 2))
    } else {
        match entries_at(ts, k + 1) {
            Some((es, j)) => if tok_is(ts, j, SpecToken::RBrace) {
                Some((es, j + 1))
            } else {
                None
            },
            None => None,
        }
    }
}

/// An optional map literal at `k` (read when a `{` is there).
pub open spec fn opt_map_at(ts: Toks, k: int) -> Read<Option<Seq<(Seq<char>, SpecExpr)>>> {
    if tok_is(ts, k, SpecToken::LBrace) {
        match map_at(ts, k) {
            Some((m, j)) => Some((Some(m), j)),
            None => None,
        }
    } else {
        Some((None, k))
    }
}

/// A node pattern `(variable:Label... {props})` from `k`.
pub open spec fn node_at(ts: Toks, k: int) -> Read<SpecNodePattern> {
    if !tok_is(ts, k, SpecToken::LParen) {
        None
    } else {
        let v = ident_at(ts, k + 1);
        let a = if v is Some {
            k + 2
        } else {
            k + 1
        };
        match names_after(ts, a, SpecToken::Colon) {
            Some((labels, b)) => match opt_map_at(ts, b) {
                Some((props, c)) => if tok_is(ts, c, SpecToken::RParen) {
                    Some((SpecNodePattern { variable: v, labels, properties: props }, c + 1))
                } else {
                    None
                },
                None => None,
            },
            None => None,
        }
    }
}

/// The relationship read inside brackets with the given parts (its
/// direction is set by the arrows around the brackets).
pub open spec fn rel_parts(
    variable: Option<Seq<char>>,
    rel_types: Seq<Seq<char>>,
    properties: Option<Seq<(Seq<char>, SpecExpr)>>,
    min_hops: Option<u32>,
    max_hops: Option<u32>,
) -> SpecRelPattern {
    SpecRelPattern {
        variable,
        rel_types,
        direction: RelDirection::Undirected,
        properties,
        min_hops,
        max_hops,
    }
}

/// A variable-length spec at `k` followed by optional properties, for a
/// relationship with the given variable and types.
pub open spec fn hops_then_props(ts: Toks, k: int, v: Option<Seq<char>>, types: Seq<Seq<char>>) -> Read<
    SpecRelPattern,
> {
    match var_length_at(ts, k) {
        Some((mn, mx, e)) => match opt_map_at(ts, e) {
            Some((props, f)) => Some((rel_parts(v, types, props, Some(mn), mx), f)),
            None => None,
        },
        None => None,
    }
}

/// Relationship types `:T1|T2|...` from the colon at `k`.
pub open spec fn types_at(ts: Toks, k: int) -> Read<Seq<Seq<char>>> {
    match ident_at(ts, k + 1) {
        Some(t) => match names_after(ts, k + 2, SpecToken::Pipe) {
            Some((more, b)) => Some((seq![t] + more, b)),
            None => None,
        },
        None => None,
    }
}

/// The content of relationship brackets from `k`:
/// `[variable :TYPE|TYPE2 *N..M {props}]`, each part optional; a
/// variable-length spec right after the start or the variable ends the
/// types (only properties may follow).
pub open spec fn rel_content_at(ts: Toks, k: int) -> Read<SpecRelPattern> {
    if tok_is(ts, k, SpecToken::Star) {
        hops_then_props(ts, k, None, Seq::empty())
    } else {
        let v = ident_at(ts, k);
        let a = if v is Some {
            k + 1
        } else {
            k
        };
        if tok_is(ts, a, SpecToken::Star) {
            hops_then_props(ts, a, v, Seq::empty())
        } else {
            let types = if tok_is(ts, a, SpecToken::Colon) {
                types_at(ts, a)
            } else {
                Some((Seq::empty(), a))
            };
            match types {
                Some((tys, b)) => {
                    let hops = if tok_is(ts, b, SpecToken::Star) {
                        match var_length_at(ts, b) {
                            Some((mn, mx, e)) => Some((Some(mn), mx, e)),
                            None => None,
                        }
                    } else {
                        Some((None, None, b))
                    };
                    match hops {
                        Some((mn, mx, c)) => match opt_map_at(ts, c) {
                            Some((props, d)) => Some((rel_parts(v, tys, props, mn, mx), d)),
                            None => None,
                        },
                        None => None,
                    }
                },
                None => None,
            }
        }
    }
}

/// `r` with direction `d`.
pub open spec fn directed(r: SpecRelPattern, d: RelDirection) -> SpecRelPattern {
    SpecRelPattern { direction: d, ..r }
}

/// A relationship pattern from `k`: `-[...]->`, `-[...]-`, `<-[...]-`, or a
/// bare `--`.
pub open spec fn rel_at(ts: Toks, k: int) -> Read<SpecRelPattern> {
    if tok_is(ts, k, SpecToken::Minus) {
        if !tok_is(ts, k + 1, SpecToken::LBracket) {
            None
        } else {
            match rel_content_at(ts, k + 2) {
                Some((c, j)) => if !tok_is(ts, j, SpecToken::RBracket) {
                    None
                } else if tok_is(ts, j + 1, SpecToken::ArrowRight) {
                    Some((directed(c, RelDirection::Outgoing), j + 2))
                } else if tok_is(ts, j + 1, SpecToken::Minus) {
                    Some((directed(c, RelDirection::Undirected), j + 2))
                } else {
                    None
                },
                None => None,
            }
        }
    } else if tok_is(ts, k, SpecToken::ArrowLeft) {
        if !tok_is(ts, k + 1, SpecToken::LBracket) {
            None
        } else {
            match rel_content_at(ts, k + 2) {
                Some((c, j)) => if tok_is(ts, j, SpecToken::RBracket) && tok_is(
                    ts,
                    j + 1,
                    SpecToken::Minus,
                ) {
                    Some((directed(c, RelDirection::Incoming), j + 2))
                } else {
                    None
                },
                None => None,
            }
        }
    } else if tok_is(ts, k, SpecToken::DoubleDash) {
        Some((rel_parts(None, Seq::empty(), None, None, None), k + 1))
    } else {
        None
    }
}

/// `r` is the bracket content `c` read with direction `d`: every other part
/// (variable, types, properties, hop bounds) is as written in the brackets.
pub open spec fn with_direction(r: SpecRelPattern, c: SpecRelPattern, d: RelDirection) -> bool {
    &&& r.direction == d
    &&& r.variable == c.variable
    &&& r.rel_types == c.rel_types
    &&& r.properties == c.properties
    &&& r.min_hops == c.min_hops
    &&& r.max_hops == c.max_hops
}

/// A relationship points the way its arrow is drawn: `-[...]->` is
/// outgoing, `<-[...]-` incoming and `-[...]-` undirected, keeping what is
/// written between the brackets, and the pattern ends after the closing
/// dash or arrow.
pub proof fn lemma_rel_direction(ts: Toks, k: int)
    requires
        0 <= k,
        tok_is(ts, k + 1, SpecToken::LBracket),
    ensures
        match rel_content_at(ts, k + 2) {
            Some((c, j)) => tok_is(ts, j, SpecToken::RBracket) ==> {
                &&& tok_is(ts, k, SpecToken::Minus) && tok_is(ts, j + 1, SpecToken::ArrowRight) ==> (
                rel_at(ts, k) matches Some((r, e)) && e == j + 2 && with_direction(
                    r,
                    c,
                    RelDirection::Outgoing,
                ))
                &&& tok_is(ts, k, SpecToken::Minus) && tok_is(ts, j + 1, SpecToken::Minus) ==> (
                rel_at(ts, k) matches Some((r, e)) && e == j + 2 && with_direction(
                    r,
                    c,
                    RelDirection::Undirected,
                ))
                &&& tok_is(ts, k, SpecToken::ArrowLeft) && tok_is(ts, j + 1, SpecToken::Minus) ==> (
                rel_at(ts, k) matches Some((r, e)) && e == j + 2 && with_direction(
                    r,
                    c,
                    RelDirection::Incoming,
                ))
            },
            None => true,
        },
{
}

/// A relationship begins at `k`.
pub open spec fn rel_starts(ts: Toks, k: int) -> bool {
    tok_is(ts, k, SpecToken::Minus) || tok_is(ts, k, SpecToken::ArrowLeft) || tok_is(
        ts,
        k,
        SpecToken::DoubleDash,
    )
}

/// The rest of a chain whose elements so far are `es`, ending at `j`: more
/// relationship and node pairs while a relationship begins.
pub open spec fn chain_rest(ts: Toks, es: Seq<SpecPatternElement>, j: int) -> Read<Seq<SpecPatternElement>>
    decreases ts.len() - j,
{
    if j < 0 || j > ts.len() {
        None
    } else if !rel_starts(ts, j) {
        Some((es, j))
    } else {
        match rel_at(ts, j) {
            Some((r, m)) => match node_at(ts, m) {
                Some((n, q)) => if j < q <= ts.len() {
                    chain_rest(
                        ts,
                        es.push(SpecPatternElement::Relationship(r)).push(SpecPatternElement::Node(n)),
                        q,
                    )
                } else {
                    None
                },
                None => None,
            },
            None => None,
        }
    }
}

/// A pattern chain `node (rel node)*` from `k`.
pub open spec fn chain_at(ts: Toks, k: int) -> Read<Seq<SpecPatternElement>> {
    match node_at(ts, k) {
        Some((n, j)) => chain_rest(ts, seq![SpecPatternElement::Node(n)], j),
        None => None,
    }
}

/// One or more chains separated by commas, from `k`.
pub open spec fn pattern_at(ts: Toks, k: int) -> Read<Seq<Seq<SpecPatternElement>>>
    decreases ts.len() - k,
{
    if k < 0 || k > ts.len() {
        None
    } else {
        match chain_at(ts, k) {
            Some((c, j)) => if k < j <= ts.len() {
                if tok_is(ts, j, SpecToken::Comma) {
                    match pattern_at(ts, j + 1) {
                        Some((rest, m)) => Some((seq![c] + rest, m)),
                        None => None,
                    }
                } else {
                    Some((seq![c], j))
                }
            } else {
                None
            },
            None => None,
        }
    }
}

/// `pre` followed by the names of `r`.
pub open spec fn prepend_names(pre: Seq<Seq<char>>, r: Read<Seq<Seq<char>>>) -> Read<Seq<Seq<char>>> {
    match r {
        Some((ns, m)) => Some((pre + ns, m)),
        None => None,
    }
}

/// Reading one more name after a separator moves it into the prefix.
proof fn lemma_names_step(ts: Toks, pre: Seq<Seq<char>>, j: int, sep: SpecToken, n: Seq<char>)
    requires
        tok_is(ts, j, sep),
        ident_at(ts, j + 1) == Some(n),
    ensures
        prepend_names(pre, names_after(ts, j, sep)) == prepend_names(pre.push(n), names_after(ts, j + 2, sep)),
{
    match names_after(ts, j + 2, sep) {
        Some((ns, m)) => {
            assert(pre + (seq![n] + ns) =~= pre.push(n) + ns);
        },
        None => {},
    }
}

/// The rest of a comma-separated entry list whose first entries `es` end at `j`.
pub open spec fn entries_tail(ts: Toks, es: Seq<(Seq<char>, SpecExpr)>, j: int) -> Read<
    Seq<(Seq<char>, SpecExpr)>,
> {
    if tok_is(ts, j, SpecToken::Comma) {
        match entries_at(ts, j + 1) {
            Some((rest, m)) => Some((es + rest, m)),
            None => None,
        }
    } else {
        Some((es, j))
    }
}

/// Reading one more entry after a comma moves it into the list.
proof fn lemma_entries_step(ts: Toks, es: Seq<(Seq<char>, SpecExpr)>, j: int, kv: (Seq<char>, SpecExpr), m: int)
    requires
        tok_is(ts, j, SpecToken::Comma),
        entry_at(ts, j + 1) == Some((kv, m)),
        j + 1 < m <= ts.len(),
    ensures
        entries_tail(ts, es, j) == entries_tail(ts, es.push(kv), m),
{
    if tok_is(ts, m, SpecToken::Comma) {
        match entries_at(ts, m + 1) {
            Some((rest, m2)) => {
                assert(es + (seq![kv] + rest) =~= es.push(kv) + rest);
            },
            None => {},
        }
    } else {
        assert(es + seq![kv] =~= es.push(kv));
    }
}

/// The rest of a comma-separated pattern whose first chains `cs` end at `j`.
pub open spec fn pattern_tail(ts: Toks, cs: Seq<Seq<SpecPatternElement>>, j: int) -> Read<
    Seq<Seq<SpecPatternElement>>,
> {
    if tok_is(ts, j, SpecToken::Comma) {
        match pattern_at(ts, j + 1) {
            Some((rest, m)) => Some((cs + rest, m)),
            None => None,
        }
    } else {
        Some((cs, j))
    }
}

/// Reading one more chain after a comma moves it into the pattern.
proof fn lemma_pattern_step(ts: Toks, cs: Seq<Seq<SpecPatternElement>>, j: int, c: Seq<SpecPatternElement>, m: int)
    requires
        tok_is(ts, j, SpecToken::Comma),
        chain_at(ts, j + 1) == Some((c, m)),
        j + 1 < m <= ts.len(),
    ensures
        pattern_tail(ts, cs, j) == pattern_tail(ts, cs.push(c), m),
{
    if tok_is(ts, m, SpecToken::Comma) {
        match pattern_at(ts, m + 1) {
            Some((rest, m2)) => {
                assert(cs + (seq![c] + rest) =~= cs.push(c) + rest);
            },
            None => {},
        }
    } else {
        assert(cs + seq![c] =~= cs.push(c));
    }
}

/// The models of pattern elements.
pub open spec fn elems_view(es: Seq<PatternElement>) -> Seq<SpecPatternElement> {
    es.map_values(|e: PatternElement| e@)
}

/// Intermediate result for relationship bracket content.
struct RelContentResult {
    variable: Option<String>,
    rel_types: Vec<String>,
    properties: Option<MapLiteral>,
    min_hops: Option<u32>,
    max_hops: Option<u32>,
}

/// The model of bracket content.
spec fn content_view(c: RelContentResult) -> SpecRelPattern {
    rel_parts(
        opt_str(c.variable),
        strs_view(c.rel_types@),
        opt_map(c.properties),
        c.min_hops,
        c.max_hops,
    )
}

impl<'a> Parser<'a> {
    /// Parses a full pattern: `node (rel node)* (, node (rel node)*)*`.
    pub fn parse_pattern(&mut self) -> (r: Result<Pattern, ParseError>)
        requires
            old(self).wf(),
        ensures
            super::reported(r),
            match r {
                Ok(pat) => pattern_at(old(self).tokens@, old(self).pos as int) == Some(
                    (pat@, final(self).pos as int),
                ),
                Err(_) => pattern_at(old(self).tokens@, old(self).pos as int) is None,
            },
            final(self).moved_from(old(self)),
            r matches Ok(pat) ==> final(self).pos > old(self).pos && pat.chains@.len() > 0
                && forall|k: int|
                0 <= k < pat.chains@.len() ==> chain_shape(#[trigger] pat.chains@[k].elements@),
            !old(self).at(old(self).pos as int, SpecToken::LParen) ==> r is Err,
    {
        let ghost ts = self.tokens@;
        let ghost k0 = self.pos as int;
        let mut chains: Vec<PatternChain> = Vec::new();
        match self.parse_pattern_chain() {
            Ok(c) => chains.push(c),
            Err(e) => return Err(e),
        }
        proof {
            assert((Pattern { chains })@ =~= seq![chains@[0]@]);
        }
        while self.eat(&Token::Comma)
            invariant
                self.moved_from(old(self)),
                self.pos > old(self).pos,
                ts == old(self).tokens@,
                k0 == old(self).pos,
                chains@.len() > 0,
                forall|k: int| 0 <= k < chains@.len() ==> chain_shape(#[trigger] chains@[k].elements@),
                pattern_at(ts, k0) == pattern_tail(ts, (Pattern { chains })@, self.pos as int),
            decreases self.tokens@.len() - self.pos,
        {
            let ghost j = self.pos - 1;
            let ghost before = chains@;
            match self.parse_pattern_chain() {
                Ok(c) => {
                    proof {
                        lemma_pattern_step(ts, (Pattern { chains })@, j, c@, self.pos as int);
                    }
                    chains.push(c);
                    proof {
                        assert((Pattern { chains })@ =~= before.map_values(|c: PatternChain| c@).push(
                            chains@[before.len() as int]@,
                        ));
                    }
                },
                Err(e) => return Err(e),
            }
        }
        proof {
            assert((Pattern { chains })@.add(Seq::empty()) =~= (Pattern { chains })@);
        }
        Ok(Pattern { chains })
    }

    /// Parses a single pattern chain: `node (rel node)*`.
    fn parse_pattern_chain(&mut self) -> (r: Result<PatternChain, ParseError>)
        requires
            old(self).wf(),
        ensures
            super::reported(r),
            match r {
                Ok(c) => chain_at(old(self).tokens@, old(self).pos as int) == Some(
                    (c@, final(self).pos as int),
                ),
                Err(_) => chain_at(old(self).tokens@, old(self).pos as int) is None,
            },
            final(self).moved_from(old(self)),
            r matches Ok(c) ==> final(self).pos > old(self).pos && chain_shape(c.elements@),
            !old(self).at(old(self).pos as int, SpecToken::LParen) ==> r is Err,
    {
        let ghost ts = self.tokens@;
        let mut elements: Vec<PatternElement> = Vec::new();
        match self.parse_node_pattern() {
            Ok(n) => elements.push(PatternElement::Node(n)),
            Err(e) => return Err(e),
        }
        proof {
            assert(elems_view(elements@) =~= seq![elements@[0]@]);
        }
        loop
            invariant
                self.moved_from(old(self)),
                self.pos > old(self).pos,
                ts == old(self).tokens@,
                chain_shape(elements@),
                chain_at(ts, old(self).pos as int) == chain_rest(ts, elems_view(elements@), self.pos as int),
            ensures
                self.moved_from(old(self)),
                self.pos > old(self).pos,
                chain_shape(elements@),
                chain_at(ts, old(self).pos as int) == Some((elems_view(elements@), self.pos as int)),
            decreases self.tokens@.len() - self.pos,
        {
            let ghost j = self.pos as int;
            let rel = match self.parse_relationship() {
                Ok(Some(r)) => r,
                Ok(None) => break,
                Err(e) => return Err(e),
            };
            let ghost before = elements@;
            elements.push(PatternElement::Relationship(rel));
            match self.parse_node_pattern() {
                Ok(n) => elements.push(PatternElement::Node(n)),
                Err(e) => return Err(e),
            }
            assert forall|k: int|
                0 <= k < elements@.len() implies ((#[trigger] elements@[k] is Node) <==> k % 2
                == 0) by {
                if k < before.len() {
                    assert(elements@[k] == before[k]);
                }
            }
            proof {
                assert(elems_view(elements@) =~= elems_view(before).push(
                    SpecPatternElement::Relationship(rel@),
                ).push(elements@[before.len() as int + 1]@));
            }
        }
        Ok(PatternChain { elements })
    }

    /// Parses the relationship beginning at the cursor, if one begins there.
    fn parse_relationship(&mut self) -> (r: Result<Option<RelationshipPattern>, ParseError>)
        requires
            old(self).wf(),
        ensures
            super::reported(r),
            final(self).moved_from(old(self)),
            !rel_starts(old(self).tokens@, old(self).pos as int) ==> (r matches Ok(None)
                && final(self).pos == old(self).pos),
            rel_starts(old(self).tokens@, old(self).pos as int) ==> match r {
                Ok(Some(rel)) => rel_at(old(self).tokens@, old(self).pos as int) == Some(
                    (rel@, final(self).pos as int),
                ) && final(self).pos > old(self).pos,
                Ok(None) => false,
                Err(_) => rel_at(old(self).tokens@, old(self).pos as int) is None,
            },
    {
        if self.check(&Token::Minus) {
            match self.parse_relationship_from_minus() {
                Ok(r) => Ok(Some(r)),
                Err(e) => Err(e),
            }
        } else if self.check(&Token::ArrowLeft) {
            match self.parse_relationship_incoming() {
                Ok(r) => Ok(Some(r)),
                Err(e) => Err(e),
            }
        } else if self.check(&Token::DoubleDash) {
            self.advance();
            let r = RelationshipPattern {
                variable: None,
                rel_types: Vec::new(),
                direction: RelDirection::Undirected,
                properties: None,
                min_hops: None,
                max_hops: None,
            };
            assert(strs_view(r.rel_types@) =~= Seq::<Seq<char>>::empty());
            assert(r@ == rel_parts(None, Seq::empty(), None, None, None));
            Ok(Some(r))
        } else {
            Ok(None)
        }
    }

    /// Parses a node pattern: `(variable:Label:Label2 {prop: value, ...})`;
    /// everything but the parentheses is optional.
    pub fn parse_node_pattern(&mut self) -> (r: Result<NodePattern, ParseError>)
        requires
            old(self).wf(),
        ensures
            super::reported(r),
            match r {
                Ok(n) => node_at(old(self).tokens@, old(self).pos as int) == Some(
                    (n@, final(self).pos as int),
                ),
                Err(_) => node_at(old(self).tokens@, old(self).pos as int) is None,
            },
            final(self).moved_from(old(self)),
            r is Ok ==> final(self).pos >= old(self).pos + 2 && old(self).at(
                old(self).pos as int,
                SpecToken::LParen,
            ) && final(self).at(final(self).pos - 1, SpecToken::RParen),
            r matches Ok(n) ==> (n.variable is Some <==> ident_at(
                old(self).tokens@,
                old(self).pos + 1,
            ) is Some) && (n.variable is Some ==> n.variable->0@ == ident_at(
                old(self).tokens@,
                old(self).pos + 1,
            )->0),
            !old(self).at(old(self).pos as int, SpecToken::LParen) ==> r is Err,
    {
        let ghost ts = self.tokens@;
        match self.expect(&Token::LParen) {
            Ok(_) => {},
            Err(e) => return Err(e),
        }
        let mut variable: Option<String> = None;
        let mut labels: Vec<String> = Vec::new();
        let mut properties: Option<MapLiteral> = None;
        let is_ident = self.pos < self.tokens.len() && match &self.tokens[self.pos].0 {
            Token::Ident(_) | Token::BacktickIdent(_) => true,
            _ => false,
        };
        if is_ident {
            match self.expect_ident() {
                Ok(v) => variable = Some(v),
                Err(e) => return Err(e),
            }
        }
        let ghost a = self.pos as int;
        assert(opt_str(variable) == ident_at(ts, old(self).pos + 1));
        proof {
            assert(strs_view(labels@) + Seq::<Seq<char>>::empty() =~= strs_view(labels@));
            assert(prepend_names(strs_view(labels@), names_after(ts, a, SpecToken::Colon))
                == names_after(ts, a, SpecToken::Colon)) by {
                match names_after(ts, a, SpecToken::Colon) {
                    Some((ns, m)) => {
                        assert(Seq::<Seq<char>>::empty() + ns =~= ns);
                    },
                    None => {},
                }
            }
        }
        while self.eat(&Token::Colon)
            invariant
                self.moved_from(old(self)),
                self.pos > old(self).pos,
                ts == old(self).tokens@,
                tok_is(ts, old(self).pos as int, SpecToken::LParen),
                a == if ident_at(ts, old(self).pos + 1) is Some {
                    old(self).pos + 2
                } else {
                    old(self).pos + 1
                },
                opt_str(variable) == ident_at(ts, old(self).pos + 1),
                names_after(ts, a, SpecToken::Colon) == prepend_names(
                    strs_view(labels@),
                    names_after(ts, self.pos as int, SpecToken::Colon),
                ),
            decreases self.tokens@.len() - self.pos,
        {
            let ghost j = self.pos - 1;
            let ghost before = labels@;
            match self.expect_ident() {
                Ok(l) => {
                    proof {
                        lemma_names_step(ts, strs_view(before), j, SpecToken::Colon, l@);
                    }
                    labels.push(l);
                    proof {
                        assert(strs_view(labels@) =~= strs_view(before).push(l@));
                    }
                },
                Err(e) => return Err(e),
            }
        }
        proof {
            assert(strs_view(labels@) + Seq::<Seq<char>>::empty() =~= strs_view(labels@));
        }
        let ghost b = self.pos as int;
        if self.check(&Token::LBrace) {
            match self.parse_map_literal() {
                Ok(m) => properties = Some(m),
                Err(e) => return Err(e),
            }
        }
        assert(opt_map_at(ts, b) == Some((opt_map(properties), self.pos as int)));
        match self.expect(&Token::RParen) {
            Ok(_) => {},
            Err(e) => return Err(e),
        }
        Ok(NodePattern { variable, labels, properties })
    }

    /// Parses a map literal: `{key: value, key: value, ...}`.
    pub fn parse_map_literal(&mut self) -> (r: Result<MapLiteral, ParseError>)
        requires
            old(self).wf(),
        ensures
            super::reported(r),
            match r {
                Ok(m) => map_at(old(self).tokens@, old(self).pos as int) == Some(
                    (map_view(m@), final(self).pos as int),
                ),
                Err(_) => map_at(old(self).tokens@, old(self).pos as int) is None,
            },
            final(self).moved_from(old(self)),
            r is Ok ==> final(self).pos >= old(self).pos + 2 && old(self).at(
                old(self).pos as int,
                SpecToken::LBrace,
            ) && final(self).at(final(self).pos - 1, SpecToken::RBrace),
            !old(self).at(old(self).pos as int, SpecToken::LBrace) ==> r is Err,
    {
        let ghost ts = self.tokens@;
        match self.expect(&Token::LBrace) {
            Ok(_) => {},
            Err(e) => return Err(e),
        }
        let ghost k1 = self.pos as int;
        let mut entries: MapLiteral = Vec::new();
        if !self.check(&Token::RBrace) {
            match self.parse_map_entry() {
                Ok(kv) => entries.push(kv),
                Err(e) => return Err(e),
            }
            proof {
                assert(map_view(entries@) =~= seq![(entries@[0].0@, entries@[0].1@)]);
            }
            while self.eat(&Token::Comma)
                invariant
                    self.moved_from(old(self)),
                    self.pos > old(self).pos,
                    ts == old(self).tokens@,
                    k1 == old(self).pos + 1,
                    self.pos > k1,
                    tok_is(ts, old(self).pos as int, SpecToken::LBrace),
                    !tok_is(ts, k1, SpecToken::RBrace),
                    entries_at(ts, k1) == entries_tail(ts, map_view(entries@), self.pos as int),
                decreases self.tokens@.len() - self.pos,
            {
                let ghost j = self.pos - 1;
                let ghost before = entries@;
                match self.parse_map_entry() {
                    Ok(kv) => {
                        proof {
                            lemma_entries_step(ts, map_view(before), j, (kv.0@, kv.1@), self.pos as int);
                        }
                        entries.push(kv);
                        proof {
                            assert(map_view(entries@) =~= map_view(before).push((kv.0@, kv.1@)));
                        }
                    },
                    Err(e) => return Err(e),
                }
            }
        }
        match self.expect(&Token::RBrace) {
            Ok(_) => Ok(entries),
            Err(e) => Err(e),
        }
    }

    /// Parses one `key: value` entry of a map literal.
    fn parse_map_entry(&mut self) -> (r: Result<(String, Expression), ParseError>)
        requires
            old(self).wf(),
        ensures
            super::reported(r),
            match r {
                Ok(kv) => entry_at(old(self).tokens@, old(self).pos as int) == Some(
                    ((kv.0@, kv.1@), final(self).pos as int),
                ),
                Err(_) => entry_at(old(self).tokens@, old(self).pos as int) is None,
            },
            final(self).moved_from(old(self)),
            r is Ok ==> final(self).pos > old(self).pos,
            r matches Ok(kv) ==> ident_at(old(self).tokens@, old(self).pos as int) == Some(kv.0@),
    {
        let key = match self.expect_ident() {
            Ok(k) => k,
            Err(e) => return Err(e),
        };
        match self.expect(&Token::Colon) {
            Ok(_) => {},
            Err(e) => return Err(e),
        }
        match self.parse_expression() {
            Ok(v) => Ok((key, v)),
            Err(e) => Err(e),
        }
    }

    /// Parses a relationship starting with `-`: outgoing `-[...]->` or
    /// undirected `-[...]-`.
    fn parse_relationship_from_minus(&mut self) -> (r: Result<RelationshipPattern, ParseError>)
        requires
            old(self).wf(),
        ensures
            super::reported(r),
            old(self).at(old(self).pos as int, SpecToken::Minus) ==> match r {
                Ok(rel) => rel_at(old(self).tokens@, old(self).pos as int) == Some(
                    (rel@, final(self).pos as int),
                ),
                Err(_) => rel_at(old(self).tokens@, old(self).pos as int) is None,
            },
            final(self).moved_from(old(self)),
            r is Ok ==> final(self).pos > old(self).pos,
            !old(self).at(old(self).pos as int, SpecToken::Minus) ==> r is Err,
    {
        proof {
            reveal_strlit("expected -> or - after relationship bracket");
        }
        match self.expect(&Token::Minus) {
            Ok(_) => {},
            Err(e) => return Err(e),
        }
        match self.expect(&Token::LBracket) {
            Ok(_) => {},
            Err(e) => return Err(e),
        }
        let content = match self.parse_relationship_content() {
            Ok(c) => c,
            Err(e) => return Err(e),
        };
        match self.expect(&Token::RBracket) {
            Ok(_) => {},
            Err(e) => return Err(e),
        }
        let direction = if self.eat(&Token::ArrowRight) {
            RelDirection::Outgoing
        } else if self.eat(&Token::Minus) {
            RelDirection::Undirected
        } else {
            return Err(self.error("expected -> or - after relationship bracket"));
        };
        let rel = RelationshipPattern {
            variable: content.variable,
            rel_types: content.rel_types,
            direction,
            properties: content.properties,
            min_hops: content.min_hops,
            max_hops: content.max_hops,
        };
        assert(rel@ == directed(content_view(content), direction));
        Ok(rel)
    }

    /// Parses an incoming relationship: `<-[...]-`.
    fn parse_relationship_incoming(&mut self) -> (r: Result<RelationshipPattern, ParseError>)
        requires
            old(self).wf(),
        ensures
            super::reported(r),
            old(self).at(old(self).pos as int, SpecToken::ArrowLeft) ==> match r {
                Ok(rel) => rel_at(old(self).tokens@, old(self).pos as int) == Some(
                    (rel@, final(self).pos as int),
                ),
                Err(_) => rel_at(old(self).tokens@, old(self).pos as int) is None,
            },
            final(self).moved_from(old(self)),
            r is Ok ==> final(self).pos > old(self).pos,
            r matches Ok(rel) ==> rel.direction == RelDirection::Incoming,
            !old(self).at(old(self).pos as int, SpecToken::ArrowLeft) ==> r is Err,
    {
        match self.expect(&Token::ArrowLeft) {
            Ok(_) => {},
            Err(e) => return Err(e),
        }
        match self.expect(&Token::LBracket) {
            Ok(_) => {},
            Err(e) => return Err(e),
        }
        let content = match self.parse_relationship_content() {
            Ok(c) => c,
            Err(e) => return Err(e),
        };
        match self.expect(&Token::RBracket) {
            Ok(_) => {},
            Err(e) => return Err(e),
        }
        match self.expect(&Token::Minus) {
            Ok(_) => {},
            Err(e) => return Err(e),
        }
        let rel = RelationshipPattern {
            variable: content.variable,
            rel_types: content.rel_types,
            direction: RelDirection::Incoming,
            properties: content.properties,
            min_hops: content.min_hops,
            max_hops: content.max_hops,
        };
        assert(rel@ == directed(content_view(content), RelDirection::Incoming));
        Ok(rel)
    }

    /// A variable-length spec followed by optional properties, for content
    /// with the given variable and no types.
    fn parse_hops_then_props(&mut self, variable: Option<String>) -> (r: Result<
        RelContentResult,
        ParseError,
    >)
        requires
            old(self).wf(),
            old(self).at(old(self).pos as int, SpecToken::Star),
        ensures
            super::reported(r),
            match r {
                Ok(c) => hops_then_props(
                    old(self).tokens@,
                    old(self).pos as int,
                    opt_str(variable),
                    Seq::empty(),
                ) == Some((content_view(c), final(self).pos as int)),
                Err(_) => hops_then_props(
                    old(self).tokens@,
                    old(self).pos as int,
                    opt_str(variable),
                    Seq::empty(),
                ) is None,
            },
            final(self).moved_from(old(self)),
    {
        let rel_types: Vec<String> = Vec::new();
        let mut properties: Option<MapLiteral> = None;
        let (mn, mx) = match self.parse_var_length_spec() {
            Ok(v) => v,
            Err(e) => return Err(e),
        };
        let ghost e = self.pos as int;
        if self.check(&Token::LBrace) {
            match self.parse_map_literal() {
                Ok(m) => properties = Some(m),
                Err(e) => return Err(e),
            }
        }
        assert(opt_map_at(old(self).tokens@, e) == Some((opt_map(properties), self.pos as int)));
        let c = RelContentResult { variable, rel_types, properties, min_hops: Some(mn), max_hops: mx };
        assert(strs_view(c.rel_types@) =~= Seq::<Seq<char>>::empty());
        Ok(c)
    }

    /// Parses relationship types `:T1|T2|...` from the colon.
    fn parse_rel_types(&mut self) -> (r: Result<Vec<String>, ParseError>)
        requires
            old(self).wf(),
            old(self).at(old(self).pos as int, SpecToken::Colon),
        ensures
            super::reported(r),
            match r {
                Ok(v) => types_at(old(self).tokens@, old(self).pos as int) == Some(
                    (strs_view(v@), final(self).pos as int),
                ),
                Err(_) => types_at(old(self).tokens@, old(self).pos as int) is None,
            },
            final(self).moved_from(old(self)),
    {
        let ghost ts = self.tokens@;
        let ghost a = self.pos as int;
        let mut rel_types: Vec<String> = Vec::new();
        self.advance();
        match self.expect_ident() {
            Ok(t) => rel_types.push(t),
            Err(e) => return Err(e),
        }
        let ghost a2 = self.pos as int;
        proof {
            assert(strs_view(rel_types@).skip(1) =~= Seq::<Seq<char>>::empty());
            assert(prepend_names(Seq::empty(), names_after(ts, a2, SpecToken::Pipe)) == names_after(
                ts,
                a2,
                SpecToken::Pipe,
            )) by {
                match names_after(ts, a2, SpecToken::Pipe) {
                    Some((ns, m)) => {
                        assert(Seq::<Seq<char>>::empty() + ns =~= ns);
                    },
                    None => {},
                }
            }
        }
        while self.eat(&Token::Pipe)
            invariant
                self.moved_from(old(self)),
                ts == old(self).tokens@,
                a == old(self).pos,
                a2 == a + 2,
                rel_types@.len() > 0,
                ident_at(ts, a + 1) == Some(strs_view(rel_types@)[0]),
                names_after(ts, a2, SpecToken::Pipe) == prepend_names(
                    strs_view(rel_types@).skip(1),
                    names_after(ts, self.pos as int, SpecToken::Pipe),
                ),
            decreases self.tokens@.len() - self.pos,
        {
            let ghost j = self.pos - 1;
            let ghost before = rel_types@;
            match self.expect_ident() {
                Ok(t) => {
                    proof {
                        lemma_names_step(ts, strs_view(before).skip(1), j, SpecToken::Pipe, t@);
                    }
                    rel_types.push(t);
                    proof {
                        assert(strs_view(rel_types@).skip(1) =~= strs_view(before).skip(1).push(t@));
                        assert(strs_view(rel_types@)[0] == strs_view(before)[0]);
                    }
                },
                Err(e) => return Err(e),
            }
        }
        proof {
            assert(seq![strs_view(rel_types@)[0]] + (strs_view(rel_types@).skip(1) + Seq::<
                Seq<char>,
            >::empty()) =~= strs_view(rel_types@));
        }
        Ok(rel_types)
    }

    /// Parses the content inside relationship brackets:
    /// `[variable :TYPE | TYPE2 *N..M {props}]`.
    fn parse_relationship_content(&mut self) -> (r: Result<RelContentResult, ParseError>)
        requires
            old(self).wf(),
        ensures
            super::reported(r),
            match r {
                Ok(c) => rel_content_at(old(self).tokens@, old(self).pos as int) == Some(
                    (content_view(c), final(self).pos as int),
                ),
                Err(_) => rel_content_at(old(self).tokens@, old(self).pos as int) is None,
            },
            final(self).moved_from(old(self)),
    {
        let ghost ts = self.tokens@;
        let mut variable: Option<String> = None;
        let mut rel_types: Vec<String> = Vec::new();
        assert(strs_view(rel_types@) =~= Seq::<Seq<char>>::empty());
        let mut properties: Option<MapLiteral> = None;
        let mut min_hops: Option<u32> = None;
        let mut max_hops: Option<u32> = None;
        if self.check(&Token::Star) {
            return self.parse_hops_then_props(None);
        }
        let is_ident = self.pos < self.tokens.len() && match &self.tokens[self.pos].0 {
            Token::Ident(_) | Token::BacktickIdent(_) => true,
            _ => false,
        };
        if is_ident {
            match self.expect_ident() {
                Ok(v) => variable = Some(v),
                Err(e) => return Err(e),
            }
        }
        assert(opt_str(variable) == ident_at(ts, old(self).pos as int));
        let ghost a = self.pos as int;
        if self.check(&Token::Star) {
            return self.parse_hops_then_props(variable);
        }
        if self.check(&Token::Colon) {
            rel_types = match self.parse_rel_types() {
                Ok(v) => v,
                Err(e) => return Err(e),
            };
        }
        let ghost b = self.pos as int;
        assert((if tok_is(ts, a, SpecToken::Colon) {
            types_at(ts, a)
        } else {
            Some((Seq::<Seq<char>>::empty(), a))
        }) == Some((strs_view(rel_types@), b)));
        if self.check(&Token::Star) {
            let (mn, mx) = match self.parse_var_length_spec() {
                Ok(v) => v,
                Err(e) => return Err(e),
            };
            min_hops = Some(mn);
            max_hops = mx;
        }
        let ghost c = self.pos as int;
        assert((if tok_is(ts, b, SpecToken::Star) {
            match var_length_at(ts, b) {
                Some((mn, mx, e)) => Some((Some(mn), mx, e)),
                None => None,
            }
        } else {
            Some((None, None, b))
        }) == Some((min_hops, max_hops, c)));
        if self.check(&Token::LBrace) {
            match self.parse_map_literal() {
                Ok(m) => properties = Some(m),
                Err(e) => return Err(e),
            }
        }
        assert(opt_map_at(ts, c) == Some((opt_map(properties), self.pos as int)));
        let res = RelContentResult { variable, rel_types, properties, min_hops, max_hops };
        assert(content_view(res) == rel_parts(opt_str(variable), strs_view(res.rel_types@), opt_map(properties), min_hops, max_hops));
        Ok(res)
    }

    /// Parses a variable-length spec after `*`: `*`, `*N`, `*N..M`, `*N..`, `*..M`;
    /// returns (min_hops, max_hops), where a missing minimum is 1 and a missing
    /// maximum is `None`.
    fn parse_var_length_spec(&mut self) -> (r: Result<(u32, Option<u32>), ParseError>)
        requires
            old(self).wf(),
        ensures
            super::reported(r),
            final(self).moved_from(old(self)),
            !old(self).at(old(self).pos as int, SpecToken::Star) ==> r is Err,
            old(self).at(old(self).pos as int, SpecToken::Star) ==> match var_length_at(
                old(self).tokens@,
                old(self).pos as int,
            ) {
                Some((mn, mx, end)) => r == Ok::<(u32, Option<u32>), ParseError>((mn, mx))
                    && final(self).pos == end,
                None => r is Err,
            },
    {
        match self.expect(&Token::Star) {
            Ok(_) => {},
            Err(e) => return Err(e),
        }
        if self.eat(&Token::DoubleDot) {
            if self.pos < self.tokens.len() {
                if let Token::Integer(n) = &self.tokens[self.pos].0 {
                    let max = match Self::int_to_u32(*n, self) {
                        Ok(m) => m,
                        Err(e) => return Err(e),
                    };
                    self.advance();
                    return Ok((1, Some(max)));
                }
            }
            return Ok((1, None));
        }
        if self.pos < self.tokens.len() {
            if let Token::Integer(n) = &self.tokens[self.pos].0 {
                let first = match Self::int_to_u32(*n, self) {
                    Ok(m) => m,
                    Err(e) => return Err(e),
                };
                self.advance();
                if self.eat(&Token::DoubleDot) {
                    if self.pos < self.tokens.len() {
                        if let Token::Integer(m) = &self.tokens[self.pos].0 {
                            let second = match Self::int_to_u32(*m, self) {
                                Ok(v) => v,
                                Err(e) => return Err(e),
                            };
                            self.advance();
                            return Ok((first, Some(second)));
                        }
                    }
                    return Ok((first, None));
                }
                return Ok((first, Some(first)));
            }
        }
        Ok((1, None))
    }

    /// Converts a hop count to `u32`, rejecting negative values; larger
    /// values wrap as an `as` conversion does.
    fn int_to_u32(n: i64, parser: &Self) -> (r: Result<u32, ParseError>)
        requires
            parser.wf(),
        ensures
            super::reported(r),
            n < 0 ==> r is Err,
            n >= 0 ==> r == Ok::<u32, ParseError>(n as u32),
    {
        proof {
            reveal_strlit("hop count must be non-negative");
        }
        if n < 0 {
            return Err(parser.error("hop count must be non-negative"));
        }
        Ok(n as u32)
    }
}

} // verus!
