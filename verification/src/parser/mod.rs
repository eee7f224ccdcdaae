//! Recursive-descent parser for the openCypher subset: the token cursor and
//! its primitives, and the query-level entry point.

pub mod ast;
pub mod clause;
pub mod congruence;
pub mod expression;
pub mod pattern;

use vstd::prelude::*;
use crate::lexer::{
    keywords_recased, lemma_lex_keyword_case, lex, lex_spec, lex_error_message, token_text,
    tokens_match, LexError, Span, SpecToken, Token,
};
use self::congruence::{lemma_query_views, same_views};
use crate::text::{byte_pos, char_width, chars_of, decimal, owned, push_decimal, lemma_byte_pos_monotone, byte_len};
use self::ast::{clauses_view, Clause, Query, SpecClause};
use self::clause::{clauses_from, clauses_tail, lemma_clauses_step, query_at};

verus! {

/// Error produced when the token stream does not form a valid query.
#[derive(Debug, Clone, PartialEq)]
pub struct ParseError {
    /// 1-based line of the offending position.
    pub line: usize,
    /// 1-based column (in characters) of the offending position.
    pub column: usize,
    /// Human-readable description.
    pub message: String,
}

impl ParseError {
    /// The message of this error, as `Display` would render it.
    pub fn to_string(&self) -> (r: String)
        ensures
            r@ == "Parse error at "@ + decimal(self.line as nat) + ":"@ + decimal(
                self.column as nat,
            ) + ": "@ + self.message@,
    {
        let mut s = owned("Parse error at ");
        push_decimal(&mut s, self.line as u64);
        s.append(":");
        push_decimal(&mut s, self.column as u64);
        s.append(": ");
        s.append(self.message.as_str());
        s
    }
}

/// (line, column) after reading the first `k` characters of `s`, both 1-based.
pub open spec fn line_col(s: Seq<char>, k: int) -> (int, int)
    decreases k,
{
    if k <= 0 {
        (1, 1)
    } else {
        let (l, c) = line_col(s, k - 1);
        if s[k - 1] == '\n' {
            (l + 1, 1)
        } else {
            (l, c + 1)
        }
    }
}

/// Number of characters of `s`, from position `k` on, that start before byte `offset`,
/// plus `k`: the first position at or after `k` whose byte offset reaches `offset`
/// (or the end).
pub open spec fn chars_before_from(s: Seq<char>, offset: int, k: int) -> int
    decreases s.len() - k,
{
    if k < 0 || k >= s.len() || byte_pos(s, k) >= offset {
        k
    } else {
        chars_before_from(s, offset, k + 1)
    }
}

/// (line, column) of byte offset `offset` in `s`.
pub open spec fn line_col_of_offset(s: Seq<char>, offset: int) -> (int, int) {
    line_col(s, chars_before_from(s, offset, 0))
}

proof fn lemma_line_col_bound(s: Seq<char>, k: int)
    requires
        0 <= k,
    ensures
        1 <= line_col(s, k).0 <= k + 1,
        1 <= line_col(s, k).1 <= k + 1,
    decreases k,
{
    if k > 0 {
        lemma_line_col_bound(s, k - 1);
    }
}

/// The first position at or after `k` whose byte offset reaches `offset`
/// is at least `k`.
proof fn lemma_chars_before_from(s: Seq<char>, offset: int, k: int)
    requires
        0 <= k,
    ensures
        chars_before_from(s, offset, k) >= k,
    decreases s.len() - k,
{
    if k < s.len() && byte_pos(s, k) < offset {
        lemma_chars_before_from(s, offset, k + 1);
    }
}

/// Lines and columns are counted from 1.
pub proof fn lemma_line_col_of_offset_bound(s: Seq<char>, offset: int)
    ensures
        line_col_of_offset(s, offset).0 >= 1,
        line_col_of_offset(s, offset).1 >= 1,
{
    lemma_chars_before_from(s, offset, 0);
    lemma_line_col_bound(s, chars_before_from(s, offset, 0));
}

/// Converts a byte offset of `input` into a 1-based (line, column) pair,
/// counting columns in characters.
pub fn line_col_at(input: &str, offset: usize) -> (r: (usize, usize))
    requires
        input@.len() < usize::MAX,
    ensures
        r.0 == line_col_of_offset(input@, offset as int).0,
        r.1 == line_col_of_offset(input@, offset as int).1,
        r.0 >= 1 && r.1 >= 1,
{
    proof {
        lemma_line_col_of_offset_bound(input@, offset as int);
    }
    let cs = chars_of(input);
    let total = byte_len(input);
    let mut line: usize = 1;
    let mut col: usize = 1;
    let mut i: usize = 0;
    let mut b: usize = 0;
    while i < cs.len() && b < offset
        invariant
            cs@ == input@,
            cs@.len() < usize::MAX,
            i <= cs.len(),
            b == byte_pos(cs@, i as int),
            total == byte_pos(cs@, cs@.len() as int),
            (line as int, col as int) == line_col(cs@, i as int),
            chars_before_from(cs@, offset as int, 0) == chars_before_from(
                cs@,
                offset as int,
                i as int,
            ),
        decreases cs.len() - i,
    {
        proof {
            lemma_line_col_bound(cs@, i as int);
            lemma_byte_pos_monotone(cs@, (i + 1) as int, cs@.len() as int);
        }
        if cs[i] == '\n' {
            line = line + 1;
            col = 1;
        } else {
            col = col + 1;
        }
        b = b + char_width(cs[i]);
        i = i + 1;
    }
    (line, col)
}

/// Parses a Cypher query string into a `Query`.
///
/// Lexes the input, then reads clauses one after another, each chosen by its
/// leading keyword, until the tokens run out.
pub fn parse_query(input: &str) -> (r: Result<Query, ParseError>)
    requires
        input@.len() < usize::MAX,
    ensures
        reported(r),
        lex_spec(input@) matches Err(p) ==> r is Err && r->Err_0.message@ == lex_error_message(
            LexError { position: byte_pos(input@, p) as usize, character: Some(input@[p]) },
        ) && (r->Err_0.line as int, r->Err_0.column as int) == line_col_of_offset(
            input@,
            byte_pos(input@, p) as int,
        ),
        parses_to(input@, query_outcome(r)),
        lex_spec(input@) is Ok && lex_spec(input@)->Ok_0.len() == 0 ==> r is Err && r->Err_0.message@
            == "empty query"@ && r->Err_0.line == 1 && r->Err_0.column == 1,
{
    let tokens = match lex(input) {
        Ok(t) => t,
        Err(e) => {
            let (line, column) = line_col_at(input, e.position);
            return Err(ParseError { line, column, message: e.to_string() });
        },
    };
    let ghost ts = tokens@;
    proof {
        assert(lex_spec(input@) is Ok && tokens_match(ts, lex_spec(input@)->Ok_0, input@));
    }
    let mut parser = Parser::new(tokens.as_slice(), input);
    let mut clauses: Vec<Clause> = Vec::new();
    assert(clauses_view(clauses@) =~= Seq::<SpecClause>::empty());
    while !parser.at_end()
        invariant
            parser.wf(),
            parser.tokens@ == ts,
            parser.input@ == input@,
            clauses@.len() > 0 ==> parser.pos > 0,
            lex_spec(input@) is Ok && tokens_match(ts, lex_spec(input@)->Ok_0, input@),
            clauses_from(ts, 0) == clauses_tail(ts, clauses_view(clauses@), parser.pos as int),
        decreases parser.tokens@.len() - parser.pos,
    {
        let ghost j = parser.pos as int;
        let ghost before = clauses@;
        let clause = match parser.parse_clause() {
            Ok(c) => c,
            Err(e) => {
                proof {
                    assert(clauses_from(ts, j) is None);
                    assert(query_at(ts) is None);
                    lemma_parses_to(input@, ts, None);
                }
                return Err(e);
            },
        };
        proof {
            lemma_clauses_step(ts, clauses_view(before), j, clause@, parser.pos as int);
        }
        clauses.push(clause);
        assert(clauses_view(clauses@) =~= clauses_view(before).push(clause@));
    }
    if clauses.len() == 0 {
        proof {
            reveal_strlit("empty query");
            assert(query_at(ts) is None);
            lemma_parses_to(input@, ts, None);
        }
        return Err(ParseError { line: 1, column: 1, message: owned("empty query") });
    }
    let q = Query { clauses };
    proof {
        assert(query_at(ts) == Some(q@));
        lemma_parses_to(input@, ts, Some(q@));
    }
    Ok(q)
}

/// What parsing text `s` gives, `q` (`None` for an error), when the text
/// lexes: there are token lists matching its lexing, and each of them reads
/// as `q`.
pub open spec fn parses_to(s: Seq<char>, q: Option<Seq<SpecClause>>) -> bool {
    lex_spec(s) matches Ok(lexed) ==> {
        &&& exists|v: Seq<(Token, Span)>| tokens_match(v, lexed, s)
        &&& forall|v: Seq<(Token, Span)>| tokens_match(v, lexed, s) ==> q == query_at(v)
    }
}

/// A token list matching a lexing shows what every token list matching it
/// reads.
proof fn lemma_parses_to(s: Seq<char>, ts: Seq<(Token, Span)>, q: Option<Seq<SpecClause>>)
    requires
        lex_spec(s) is Ok,
        tokens_match(ts, lex_spec(s)->Ok_0, s),
        query_at(ts) == q,
    ensures
        parses_to(s, q),
{
    let lexed = lex_spec(s)->Ok_0;
    assert forall|v: Seq<(Token, Span)>| tokens_match(v, lexed, s) implies q == query_at(v) by {
        assert(same_views(ts, v));
        lemma_query_views(ts, v);
    }
}

/// Parsing does not depend on the letter case of keywords: two texts that
/// differ only by the letter case within the keyword tokens of the first
/// parse to the same result.
pub proof fn lemma_parse_keyword_case(
    s1: Seq<char>,
    s2: Seq<char>,
    q1: Option<Seq<SpecClause>>,
    q2: Option<Seq<SpecClause>>,
)
    requires
        lex_spec(s1) is Ok,
        keywords_recased(s1, s2, lex_spec(s1)->Ok_0),
        parses_to(s1, q1),
        parses_to(s2, q2),
    ensures
        q1 == q2,
{
    lemma_lex_keyword_case(s1, s2);
    let lexed = lex_spec(s1)->Ok_0;
    assert(exists|v: Seq<(Token, Span)>| tokens_match(v, lexed, s1));
    let v = choose|v: Seq<(Token, Span)>| tokens_match(v, lexed, s1);
    assert(tokens_match(v, lexed, s2));
    assert(lex_spec(s2) == lex_spec(s1));
    assert(q1 == query_at(v));
    assert(q2 == query_at(v));
}

/// The model of a parsed query, when parsing succeeded.
pub open spec fn query_outcome(r: Result<Query, ParseError>) -> Option<Seq<SpecClause>> {
    match r {
        Ok(q) => Some(q@),
        Err(_) => None,
    }
}

/// A failed parse reports a position counted from 1 and a message.
pub open spec fn reported<T>(r: Result<T, ParseError>) -> bool {
    r matches Err(e) ==> e.line >= 1 && e.column >= 1 && e.message@.len() > 0
}

/// Recursive descent parser for the openCypher subset: a cursor over the
/// token list of one input.
pub struct Parser<'a> {
    /// The tokens being parsed.
    pub tokens: &'a [(Token, Span)],
    /// Index of the next token to read.
    pub pos: usize,
    /// The source text, for error positions.
    pub input: &'a str,
}

impl<'a> Parser<'a> {
    /// The cursor lies within the token list.
    pub open spec fn wf(&self) -> bool {
        &&& self.pos <= self.tokens@.len()
        &&& self.tokens@.len() <= usize::MAX
        &&& self.input@.len() < usize::MAX
    }

    /// `self` reads the same tokens and input as `before`, from a position at
    /// or after it.
    pub open spec fn moved_from(&self, before: &Self) -> bool {
        &&& self.tokens@ == before.tokens@
        &&& self.input@ == before.input@
        &&& before.pos <= self.pos
        &&& self.wf()
    }

    /// The model of token `k`.
    pub open spec fn tok(&self, k: int) -> SpecToken {
        self.tokens@[k].0@
    }

    /// The next token is `t`.
    pub open spec fn at(&self, k: int, t: SpecToken) -> bool {
        0 <= k < self.tokens@.len() && self.tok(k) == t
    }

    /// The (line, column) of an error reported at byte offset `offset`.
    pub open spec fn error_at(&self, e: ParseError, offset: int) -> bool {
        &&& e.line as int == line_col_of_offset(self.input@, offset).0
        &&& e.column as int == line_col_of_offset(self.input@, offset).1
    }

    /// Byte offset where an error at the cursor is reported.
    pub open spec fn current_offset(&self) -> int {
        if self.pos < self.tokens@.len() {
            self.tokens@[self.pos as int].1.start as int
        } else {
            0
        }
    }

    /// Creates a parser at the first token.
    pub fn new(tokens: &'a [(Token, Span)], input: &'a str) -> (p: Self)
        requires
            input@.len() < usize::MAX,
        ensures
            p.tokens@ == tokens@,
            p.input@ == input@,
            p.pos == 0,
            p.wf(),
    {
        let _n = tokens.len();
        Parser { tokens, pos: 0, input }
    }

    /// Peeks at the current token without consuming it.
    pub fn peek(&self) -> (r: Option<&Token>)
        requires
            self.wf(),
        ensures
            self.pos < self.tokens@.len() ==> r == Some(&self.tokens@[self.pos as int].0),
            self.pos >= self.tokens@.len() ==> r is None,
    {
        if self.pos < self.tokens.len() {
            Some(&self.tokens[self.pos].0)
        } else {
            None
        }
    }

    /// Advances by one token, returning the consumed token and span.
    pub fn advance(&mut self) -> (r: Option<&(Token, Span)>)
        requires
            old(self).wf(),
        ensures
            final(self).tokens@ == old(self).tokens@,
            final(self).input@ == old(self).input@,
            final(self).wf(),
            old(self).pos < old(self).tokens@.len() ==> r == Some(
                &old(self).tokens@[old(self).pos as int],
            ) && final(self).pos == old(self).pos + 1,
            old(self).pos >= old(self).tokens@.len() ==> r is None && final(self).pos == old(
                self,
            ).pos,
    {
        if self.pos < self.tokens.len() {
            let t = &self.tokens[self.pos];
            self.pos = self.pos + 1;
            Some(t)
        } else {
            None
        }
    }

    /// True when the token `n` places ahead of the cursor is `expected`.
    pub fn check_ahead(&self, n: usize, expected: &Token) -> (r: bool)
        requires
            self.wf(),
        ensures
            r == self.at(self.pos + n, expected@),
    {
        if n < self.tokens.len() - self.pos {
            self.tokens[self.pos + n].0 == *expected
        } else {
            false
        }
    }

    /// Expects a specific token, consuming it; returns its span.
    pub fn expect(&mut self, expected: &Token) -> (r: Result<Span, ParseError>)
        requires
            old(self).wf(),
        ensures
            reported(r),
            final(self).moved_from(old(self)),
            old(self).at(old(self).pos as int, expected@) ==> r == Ok::<Span, ParseError>(
                old(self).tokens@[old(self).pos as int].1,
            ) && final(self).pos == old(self).pos + 1,
            !old(self).at(old(self).pos as int, expected@) ==> r is Err && final(self).pos == old(
                self,
            ).pos,
            old(self).pos < old(self).tokens@.len() ==> (r matches Err(e) ==> old(self).error_at(
                e,
                old(self).current_offset(),
            ) && e.message@ == "expected "@ + token_text(expected@) + ", found "@ + token_text(
                old(self).tok(old(self).pos as int),
            )),
            old(self).pos >= old(self).tokens@.len() ==> (r matches Err(e) && e.message@
                == "expected "@ + token_text(expected@) + ", found end of input"@),
    {
        proof {
            reveal_strlit("expected ");
        }
        if self.pos < self.tokens.len() {
            if self.tokens[self.pos].0 == *expected {
                let s = self.tokens[self.pos].1;
                self.pos = self.pos + 1;
                Ok(s)
            } else {
                let (line, column) = self.offset_to_line_col(self.tokens[self.pos].1.start);
                let mut m = owned("expected ");
                m.append(expected.debug_string().as_str());
                m.append(", found ");
                m.append(self.tokens[self.pos].0.debug_string().as_str());
                Err(ParseError { line, column, message: m })
            }
        } else {
            let offset = if self.tokens.len() > 0 {
                self.tokens[self.tokens.len() - 1].1.end
            } else {
                0
            };
            let (line, column) = self.offset_to_line_col(offset);
            let mut m = owned("expected ");
            m.append(expected.debug_string().as_str());
            m.append(", found end of input");
            Err(ParseError { line, column, message: m })
        }
    }

    /// True when the current token is `expected`.
    pub fn check(&self, expected: &Token) -> (r: bool)
        requires
            self.wf(),
        ensures
            r == self.at(self.pos as int, expected@),
    {
        self.pos < self.tokens.len() && self.tokens[self.pos].0 == *expected
    }

    /// Consumes the current token when it is `expected`, returning true.
    pub fn eat(&mut self, expected: &Token) -> (r: bool)
        requires
            old(self).wf(),
        ensures
            final(self).moved_from(old(self)),
            r == old(self).at(old(self).pos as int, expected@),
            final(self).pos == if r {
                old(self).pos + 1
            } else {
                old(self).pos as int
            },
    {
        if self.check(expected) {
            self.pos = self.pos + 1;
            true
        } else {
            false
        }
    }

    /// The span of the current token, or an empty span at offset 0 past the end.
    pub fn current_span(&self) -> (r: Span)
        requires
            self.wf(),
        ensures
            self.pos < self.tokens@.len() ==> r == self.tokens@[self.pos as int].1,
            self.pos >= self.tokens@.len() ==> r == (Span { start: 0, end: 0 }),
    {
        if self.pos < self.tokens.len() {
            self.tokens[self.pos].1
        } else {
            Span { start: 0, end: 0 }
        }
    }

    /// Converts a byte offset of the input into a 1-based (line, column) pair.
    pub fn offset_to_line_col(&self, offset: usize) -> (r: (usize, usize))
        requires
            self.wf(),
        ensures
            r.0 == line_col_of_offset(self.input@, offset as int).0,
            r.1 == line_col_of_offset(self.input@, offset as int).1,
            r.0 >= 1 && r.1 >= 1,
    {
        line_col_at(self.input, offset)
    }

    /// A `ParseError` at the current position with the given message.
    pub fn error(&self, message: &str) -> (e: ParseError)
        requires
            self.wf(),
        ensures
            e.message@ == message@,
            self.error_at(e, self.current_offset()),
            e.line >= 1 && e.column >= 1,
    {
        let span = self.current_span();
        let (line, column) = self.offset_to_line_col(span.start);
        ParseError { line, column, message: owned(message) }
    }

    /// True when there are no more tokens.
    pub fn at_end(&self) -> (r: bool)
        ensures
            r == (self.pos >= self.tokens@.len()),
    {
        self.pos >= self.tokens.len()
    }

    /// Expects and consumes an identifier (plain or backtick-quoted),
    /// returning its name.
    pub fn expect_ident(&mut self) -> (r: Result<String, ParseError>)
        requires
            old(self).wf(),
        ensures
            reported(r),
            final(self).moved_from(old(self)),
            match ident_at(old(self).tokens@, old(self).pos as int) {
                Some(name) => r is Ok && r->Ok_0@ == name && final(self).pos == old(self).pos + 1,
                None => r is Err && final(self).pos == old(self).pos,
            },
            old(self).pos < old(self).tokens@.len() && ident_at(
                old(self).tokens@,
                old(self).pos as int,
            ) is None ==> (r matches Err(e) && e.message@ == "expected identifier, found "@
                + token_text(old(self).tok(old(self).pos as int)) && old(self).error_at(
                e,
                old(self).current_offset(),
            )),
            old(self).pos >= old(self).tokens@.len() ==> (r matches Err(e) && e.message@
                == "expected identifier, found end of input"@),
    {
        proof {
            reveal_strlit("expected identifier, found ");
            reveal_strlit("expected identifier, found end of input");
        }
        if self.pos < self.tokens.len() {
            match &self.tokens[self.pos].0 {
                Token::Ident(name) => {
                    let n = name.clone();
                    self.pos = self.pos + 1;
                    Ok(n)
                },
                Token::BacktickIdent(name) => {
                    let n = name.clone();
                    self.pos = self.pos + 1;
                    Ok(n)
                },
                tok => {
                    let (line, column) = self.offset_to_line_col(self.tokens[self.pos].1.start);
                    let mut m = owned("expected identifier, found ");
                    m.append(tok.debug_string().as_str());
                    Err(ParseError { line, column, message: m })
                },
            }
        } else {
            let offset = if self.tokens.len() > 0 {
                self.tokens[self.tokens.len() - 1].1.end
            } else {
                0
            };
            let (line, column) = self.offset_to_line_col(offset);
            Err(
                ParseError {
                    line,
                    column,
                    message: owned("expected identifier, found end of input"),
                },
            )
        }
    }
}

/// Token `k` is `t`.
pub open spec fn tok_is(tokens: Seq<(Token, Span)>, k: int, t: SpecToken) -> bool {
    0 <= k < tokens.len() && tokens[k].0@ == t
}

/// The name of the identifier token at `k` (plain or backtick-quoted), if any.
pub open spec fn ident_at(tokens: Seq<(Token, Span)>, k: int) -> Option<Seq<char>> {
    if 0 <= k < tokens.len() {
        match tokens[k].0@ {
            SpecToken::Ident(n) => Some(n),
            SpecToken::BacktickIdent(n) => Some(n),
            _ => None,
        }
    } else {
        None
    }
}

} // verus!
