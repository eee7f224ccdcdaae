//! Lexer for the openCypher subset: turns query text into tokens with byte
//! spans, by longest match at each position after skipping whitespace.

use vstd::prelude::*;
use crate::text::{utf8_width, byte_pos, char_width, chars_of, byte_len, substring, owned, char_to_string, push_decimal, decimal, digit_char, lemma_byte_pos_monotone};

verus! {

/// Byte-offset span in the source input.
#[derive(Debug, Clone, Copy, PartialEq, Eq, Structural)]
pub struct Span {
    /// Byte offset of the first byte.
    pub start: usize,
    /// Byte offset one past the last byte.
    pub end: usize,
}

/// Error produced when no token can be read at some position.
#[derive(Debug, Clone, PartialEq, Eq)]
pub struct LexError {
    /// Byte offset of the character where lexing failed.
    pub position: usize,
    /// The character found there (if available).
    pub character: Option<char>,
}

impl LexError {
    /// The message of this error, as `Display` would render it.
    pub fn to_string(&self) -> (r: String)
        ensures
            r@ == lex_error_message(*self),
    {
        match self.character {
            Some(ch) => {
                let mut s = owned("unexpected character '");
                s.append(char_to_string(ch).as_str());
                s.append("' at byte offset ");
                push_decimal(&mut s, self.position as u64);
                s
            },
            None => {
                let mut s = owned("unexpected token at byte offset ");
                push_decimal(&mut s, self.position as u64);
                s
            },
        }
    }
}

/// The character `c` as it appears inside a quoted string in debug text:
/// tab, carriage return, newline, NUL, backslash and double quote escaped
/// with a backslash, any other character as itself.
pub open spec fn escape_char(c: char) -> Seq<char> {
    if c == '\t' {
        "\\t"@
    } else if c == '\r' {
        "\\r"@
    } else if c == '\n' {
        "\\n"@
    } else if c == '\0' {
        "\\0"@
    } else if c == '\\' {
        "\\\\"@
    } else if c == '"' {
        "\\\""@
    } else {
        seq![c]
    }
}

/// The characters of `s`, each escaped as in debug text.
pub open spec fn escaped(s: Seq<char>) -> Seq<char>
    decreases s.len(),
{
    if s.len() == 0 {
        Seq::empty()
    } else {
        escaped(s.drop_last()) + escape_char(s.last())
    }
}

/// `s` in double quotes, escaped.
pub open spec fn quoted(s: Seq<char>) -> Seq<char> {
    "\""@ + escaped(s) + "\""@
}

/// Decimal rendering of an integer, with a leading `-` when negative.
pub open spec fn signed_decimal(n: int) -> Seq<char> {
    if n < 0 {
        "-"@ + decimal((-n) as nat)
    } else {
        decimal(n as nat)
    }
}

/// The debug text of a token, as used in error messages: the variant name,
/// followed by its payload in parentheses (text payloads quoted, a decimal
/// literal as written).
pub open spec fn token_text(t: SpecToken) -> Seq<char> {
    match t {
        SpecToken::Match => "Match"@,
        SpecToken::Return => "Return"@,
        SpecToken::Create => "Create"@,
        SpecToken::As => "As"@,
        SpecToken::Distinct => "Distinct"@,
        SpecToken::True => "True"@,
        SpecToken::False => "False"@,
        SpecToken::Null => "Null"@,
        SpecToken::And => "And"@,
        SpecToken::Or => "Or"@,
        SpecToken::Not => "Not"@,
        SpecToken::Is => "Is"@,
        SpecToken::Count => "Count"@,
        SpecToken::Where => "Where"@,
        SpecToken::SetKw => "SetKw"@,
        SpecToken::Remove => "Remove"@,
        SpecToken::Delete => "Delete"@,
        SpecToken::Detach => "Detach"@,
        SpecToken::Optional => "Optional"@,
        SpecToken::Merge => "Merge"@,
        SpecToken::With => "With"@,
        SpecToken::Order => "Order"@,
        SpecToken::By => "By"@,
        SpecToken::Limit => "Limit"@,
        SpecToken::Skip => "Skip"@,
        SpecToken::Asc => "Asc"@,
        SpecToken::Desc => "Desc"@,
        SpecToken::On => "On"@,
        SpecToken::Unwind => "Unwind"@,
        SpecToken::Index => "Index"@,
        SpecToken::Drop => "Drop"@,
        SpecToken::At => "At"@,
        SpecToken::Time => "Time"@,
        SpecToken::Between => "Between"@,
        SpecToken::Edge => "Edge"@,
        SpecToken::NotEqual => "NotEqual"@,
        SpecToken::BangEqual => "BangEqual"@,
        SpecToken::LessEqual => "LessEqual"@,
        SpecToken::GreaterEqual => "GreaterEqual"@,
        SpecToken::Eq => "Eq"@,
        SpecToken::Less => "Less"@,
        SpecToken::Greater => "Greater"@,
        SpecToken::Plus => "Plus"@,
        SpecToken::Minus => "Minus"@,
        SpecToken::Star => "Star"@,
        SpecToken::Slash => "Slash"@,
        SpecToken::Percent => "Percent"@,
        SpecToken::ArrowRight => "ArrowRight"@,
        SpecToken::ArrowLeft => "ArrowLeft"@,
        SpecToken::DoubleDash => "DoubleDash"@,
        SpecToken::DoubleDot => "DoubleDot"@,
        SpecToken::LParen => "LParen"@,
        SpecToken::RParen => "RParen"@,
        SpecToken::LBracket => "LBracket"@,
        SpecToken::RBracket => "RBracket"@,
        SpecToken::LBrace => "LBrace"@,
        SpecToken::RBrace => "RBrace"@,
        SpecToken::Colon => "Colon"@,
        SpecToken::Dot => "Dot"@,
        SpecToken::Comma => "Comma"@,
        SpecToken::Pipe => "Pipe"@,
        SpecToken::Float(x) => "Float("@ + x + ")"@,
        SpecToken::Integer(n) => "Integer("@ + signed_decimal(n as int) + ")"@,
        SpecToken::StringLiteral(x) => "StringLiteral("@ + quoted(x) + ")"@,
        SpecToken::BacktickIdent(x) => "BacktickIdent("@ + quoted(x) + ")"@,
        SpecToken::Ident(x) => "Ident("@ + quoted(x) + ")"@,
        SpecToken::Parameter(x) => "Parameter("@ + quoted(x) + ")"@,
    }
}

/// The text of `c` inside a quoted string.
fn escape_char_text(c: char) -> (r: String)
    ensures
        r@ == escape_char(c),
{
    if c == '\t' {
        owned("\\t")
    } else if c == '\r' {
        owned("\\r")
    } else if c == '\n' {
        owned("\\n")
    } else if c == '\0' {
        owned("\\0")
    } else if c == '\\' {
        owned("\\\\")
    } else if c == '"' {
        owned("\\\"")
    } else {
        char_to_string(c)
    }
}

/// Appends `s` in double quotes, escaped, to `out`.
fn push_quoted(out: &mut String, s: &str)
    ensures
        final(out)@ == old(out)@ + quoted(s@),
{
    let cs = chars_of(s);
    out.append("\"");
    let ghost start = out@;
    let mut i: usize = 0;
    while i < cs.len()
        invariant
            cs@ == s@,
            i <= cs@.len(),
            out@ == start + escaped(cs@.take(i as int)),
        decreases cs.len() - i,
    {
        let ghost before = out@;
        out.append(escape_char_text(cs[i]).as_str());
        proof {
            assert(cs@.take(i + 1).drop_last() =~= cs@.take(i as int));
            assert(out@ =~= start + escaped(cs@.take(i + 1)));
        }
        i = i + 1;
    }
    out.append("\"");
    proof {
        assert(cs@.take(cs@.len() as int) =~= s@);
    }
}

/// Appends the decimal rendering of `n`, with `-` when negative, to `out`.
fn push_signed_decimal(out: &mut String, n: i64)
    ensures
        final(out)@ == old(out)@ + signed_decimal(n as int),
{
    if n < 0 {
        out.append("-");
        let m: i128 = 0i128 - (n as i128);
        push_decimal(out, m as u64);
    } else {
        push_decimal(out, n as u64);
    }
}

impl Token {
    /// The debug text of this token, as used in error messages.
    pub fn debug_string(&self) -> (r: String)
        ensures
            r@ == token_text(self@),
    {
        match self {
            Token::Match => owned("Match"),
            Token::Return => owned("Return"),
            Token::Create => owned("Create"),
            Token::As => owned("As"),
            Token::Distinct => owned("Distinct"),
            Token::True => owned("True"),
            Token::False => owned("False"),
            Token::Null => owned("Null"),
            Token::And => owned("And"),
            Token::Or => owned("Or"),
            Token::Not => owned("Not"),
            Token::Is => owned("Is"),
            Token::Count => owned("Count"),
            Token::Where => owned("Where"),
            Token::SetKw => owned("SetKw"),
            Token::Remove => owned("Remove"),
            Token::Delete => owned("Delete"),
            Token::Detach => owned("Detach"),
            Token::Optional => owned("Optional"),
            Token::Merge => owned("Merge"),
            Token::With => owned("With"),
            Token::Order => owned("Order"),
            Token::By => owned("By"),
            Token::Limit => owned("Limit"),
            Token::Skip => owned("Skip"),
            Token::Asc => owned("Asc"),
            Token::Desc => owned("Desc"),
            Token::On => owned("On"),
            Token::Unwind => owned("Unwind"),
            Token::Index => owned("Index"),
            Token::Drop => owned("Drop"),
            Token::At => owned("At"),
            Token::Time => owned("Time"),
            Token::Between => owned("Between"),
            Token::Edge => owned("Edge"),
            Token::NotEqual => owned("NotEqual"),
            Token::BangEqual => owned("BangEqual"),
            Token::LessEqual => owned("LessEqual"),
            Token::GreaterEqual => owned("GreaterEqual"),
            Token::Eq => owned("Eq"),
            Token::Less => owned("Less"),
            Token::Greater => owned("Greater"),
            Token::Plus => owned("Plus"),
            Token::Minus => owned("Minus"),
            Token::Star => owned("Star"),
            Token::Slash => owned("Slash"),
            Token::Percent => owned("Percent"),
            Token::ArrowRight => owned("ArrowRight"),
            Token::ArrowLeft => owned("ArrowLeft"),
            Token::DoubleDash => owned("DoubleDash"),
            Token::DoubleDot => owned("DoubleDot"),
            Token::LParen => owned("LParen"),
            Token::RParen => owned("RParen"),
            Token::LBracket => owned("LBracket"),
            Token::RBracket => owned("RBracket"),
            Token::LBrace => owned("LBrace"),
            Token::RBrace => owned("RBrace"),
            Token::Colon => owned("Colon"),
            Token::Dot => owned("Dot"),
            Token::Comma => owned("Comma"),
            Token::Pipe => owned("Pipe"),
            Token::Float(x) => {
                let mut s = owned("Float(");
                s.append(x.as_str());
                s.append(")");
                s
            },
            Token::Integer(n) => {
                let mut s = owned("Integer(");
                push_signed_decimal(&mut s, *n);
                s.append(")");
                s
            },
            Token::StringLiteral(x) => {
                let mut s = owned("StringLiteral(");
                push_quoted(&mut s, x.as_str());
                s.append(")");
                s
            },
            Token::BacktickIdent(x) => {
                let mut s = owned("BacktickIdent(");
                push_quoted(&mut s, x.as_str());
                s.append(")");
                s
            },
            Token::Ident(x) => {
                let mut s = owned("Ident(");
                push_quoted(&mut s, x.as_str());
                s.append(")");
                s
            },
            Token::Parameter(x) => {
                let mut s = owned("Parameter(");
                push_quoted(&mut s, x.as_str());
                s.append(")");
                s
            },
        }
    }
}

/// The text of a lexing error message.
pub open spec fn lex_error_message(e: LexError) -> Seq<char> {
    match e.character {
        Some(ch) => "unexpected character '"@ + seq![ch] + "' at byte offset "@ + decimal(
            e.position as nat,
        ),
        None => "unexpected token at byte offset "@ + decimal(e.position as nat),
    }
}

/// Lexical token of the openCypher subset.
#[derive(Debug, Clone)]
pub enum Token {
    /// Keyword `MATCH` (any letter case).
    Match,
    /// Keyword `RETURN` (any letter case).
    Return,
    /// Keyword `CREATE` (any letter case).
    Create,
    /// Keyword `AS` (any letter case).
    As,
    /// Keyword `DISTINCT` (any letter case).
    Distinct,
    /// Keyword `TRUE` (any letter case).
    True,
    /// Keyword `FALSE` (any letter case).
    False,
    /// Keyword `NULL` (any letter case).
    Null,
    /// Keyword `AND` (any letter case).
    And,
    /// Keyword `OR` (any letter case).
    Or,
    /// Keyword `NOT` (any letter case).
    Not,
    /// Keyword `IS` (any letter case).
    Is,
    /// Keyword `COUNT` (any letter case).
    Count,
    /// Keyword `WHERE` (any letter case).
    Where,
    /// Keyword `SET` (any letter case).
    SetKw,
    /// Keyword `REMOVE` (any letter case).
    Remove,
    /// Keyword `DELETE` (any letter case).
    Delete,
    /// Keyword `DETACH` (any letter case).
    Detach,
    /// Keyword `OPTIONAL` (any letter case).
    Optional,
    /// Keyword `MERGE` (any letter case).
    Merge,
    /// Keyword `WITH` (any letter case).
    With,
    /// Keyword `ORDER` (any letter case).
    Order,
    /// Keyword `BY` (any letter case).
    By,
    /// Keyword `LIMIT` (any letter case).
    Limit,
    /// Keyword `SKIP` (any letter case).
    Skip,
    /// Keyword `ASC` (any letter case).
    Asc,
    /// Keyword `DESC` (any letter case).
    Desc,
    /// Keyword `ON` (any letter case).
    On,
    /// Keyword `UNWIND` (any letter case).
    Unwind,
    /// Keyword `INDEX` (any letter case).
    Index,
    /// Keyword `DROP` (any letter case).
    Drop,
    /// Keyword `AT` (any letter case).
    At,
    /// Keyword `TIME` (any letter case).
    Time,
    /// Keyword `BETWEEN` (any letter case).
    Between,
    /// Keyword `EDGE` (any letter case).
    Edge,
    /// The decimal literal text, such as `3.15`.
    Float(String),
    /// The integer literal.
    Integer(i64),
    /// The single-quoted string literal, escapes resolved.
    StringLiteral(String),
    /// The backtick-quoted identifier, without the backticks.
    BacktickIdent(String),
    /// The identifier.
    Ident(String),
    /// The parameter reference `$name`, without the `$`.
    Parameter(String),
    /// `<>`
    NotEqual,
    /// `!=`
    BangEqual,
    /// `<=`
    LessEqual,
    /// `>=`
    GreaterEqual,
    /// `=`
    Eq,
    /// `<`
    Less,
    /// `>`
    Greater,
    /// `+`
    Plus,
    /// `-`
    Minus,
    /// `*`
    Star,
    /// `/`
    Slash,
    /// `%`
    Percent,
    /// `->`
    ArrowRight,
    /// `<-`
    ArrowLeft,
    /// `--`
    DoubleDash,
    /// `..`
    DoubleDot,
    /// `(`
    LParen,
    /// `)`
    RParen,
    /// `[`
    LBracket,
    /// `]`
    RBracket,
    /// `{`
    LBrace,
    /// `}`
    RBrace,
    /// `:`
    Colon,
    /// `.`
    Dot,
    /// `,`
    Comma,
    /// `|`
    Pipe,
}

/// The mathematical model of a [`Token`]: text payloads as character sequences.
pub enum SpecToken {
    Match,
    Return,
    Create,
    As,
    Distinct,
    True,
    False,
    Null,
    And,
    Or,
    Not,
    Is,
    Count,
    Where,
    SetKw,
    Remove,
    Delete,
    Detach,
    Optional,
    Merge,
    With,
    Order,
    By,
    Limit,
    Skip,
    Asc,
    Desc,
    On,
    Unwind,
    Index,
    Drop,
    At,
    Time,
    Between,
    Edge,
    Float(Seq<char>),
    Integer(i64),
    StringLiteral(Seq<char>),
    BacktickIdent(Seq<char>),
    Ident(Seq<char>),
    Parameter(Seq<char>),
    NotEqual,
    BangEqual,
    LessEqual,
    GreaterEqual,
    Eq,
    Less,
    Greater,
    Plus,
    Minus,
    Star,
    Slash,
    Percent,
    ArrowRight,
    ArrowLeft,
    DoubleDash,
    DoubleDot,
    LParen,
    RParen,
    LBracket,
    RBracket,
    LBrace,
    RBrace,
    Colon,
    Dot,
    Comma,
    Pipe,
}

impl View for Token {
    type V = SpecToken;

    open spec fn view(&self) -> SpecToken {
        match self {
            Token::Match => SpecToken::Match,
            Token::Return => SpecToken::Return,
            Token::Create => SpecToken::Create,
            Token::As => SpecToken::As,
            Token::Distinct => SpecToken::Distinct,
            Token::True => SpecToken::True,
            Token::False => SpecToken::False,
            Token::Null => SpecToken::Null,
            Token::And => SpecToken::And,
            Token::Or => SpecToken::Or,
            Token::Not => SpecToken::Not,
            Token::Is => SpecToken::Is,
            Token::Count => SpecToken::Count,
            Token::Where => SpecToken::Where,
            Token::SetKw => SpecToken::SetKw,
            Token::Remove => SpecToken::Remove,
            Token::Delete => SpecToken::Delete,
            Token::Detach => SpecToken::Detach,
            Token::Optional => SpecToken::Optional,
            Token::Merge => SpecToken::Merge,
            Token::With => SpecToken::With,
            Token::Order => SpecToken::Order,
            Token::By => SpecToken::By,
            Token::Limit => SpecToken::Limit,
            Token::Skip => SpecToken::Skip,
            Token::Asc => SpecToken::Asc,
            Token::Desc => SpecToken::Desc,
            Token::On => SpecToken::On,
            Token::Unwind => SpecToken::Unwind,
            Token::Index => SpecToken::Index,
            Token::Drop => SpecToken::Drop,
            Token::At => SpecToken::At,
            Token::Time => SpecToken::Time,
            Token::Between => SpecToken::Between,
            Token::Edge => SpecToken::Edge,
            Token::Float(x) => SpecToken::Float(x@),
            Token::Integer(x) => SpecToken::Integer(*x),
            Token::StringLiteral(x) => SpecToken::StringLiteral(x@),
            Token::BacktickIdent(x) => SpecToken::BacktickIdent(x@),
            Token::Ident(x) => SpecToken::Ident(x@),
            Token::Parameter(x) => SpecToken::Parameter(x@),
            Token::NotEqual => SpecToken::NotEqual,
            Token::BangEqual => SpecToken::BangEqual,
            Token::LessEqual => SpecToken::LessEqual,
            Token::GreaterEqual => SpecToken::GreaterEqual,
            Token::Eq => SpecToken::Eq,
            Token::Less => SpecToken::Less,
            Token::Greater => SpecToken::Greater,
            Token::Plus => SpecToken::Plus,
            Token::Minus => SpecToken::Minus,
            Token::Star => SpecToken::Star,
            Token::Slash => SpecToken::Slash,
            Token::Percent => SpecToken::Percent,
            Token::ArrowRight => SpecToken::ArrowRight,
            Token::ArrowLeft => SpecToken::ArrowLeft,
            Token::DoubleDash => SpecToken::DoubleDash,
            Token::DoubleDot => SpecToken::DoubleDot,
            Token::LParen => SpecToken::LParen,
            Token::RParen => SpecToken::RParen,
            Token::LBracket => SpecToken::LBracket,
            Token::RBracket => SpecToken::RBracket,
            Token::LBrace => SpecToken::LBrace,
            Token::RBrace => SpecToken::RBrace,
            Token::Colon => SpecToken::Colon,
            Token::Dot => SpecToken::Dot,
            Token::Comma => SpecToken::Comma,
            Token::Pipe => SpecToken::Pipe,
        }
    }
}

impl PartialEq for Token {
    fn eq(&self, other: &Token) -> (r: bool) {
        match (self, other) {
            (Token::Match, Token::Match) => true,
            (Token::Return, Token::Return) => true,
            (Token::Create, Token::Create) => true,
            (Token::As, Token::As) => true,
            (Token::Distinct, Token::Distinct) => true,
            (Token::True, Token::True) => true,
            (Token::False, Token::False) => true,
            (Token::Null, Token::Null) => true,
            (Token::And, Token::And) => true,
            (Token::Or, Token::Or) => true,
            (Token::Not, Token::Not) => true,
            (Token::Is, Token::Is) => true,
            (Token::Count, Token::Count) => true,
            (Token::Where, Token::Where) => true,
            (Token::SetKw, Token::SetKw) => true,
            (Token::Remove, Token::Remove) => true,
            (Token::Delete, Token::Delete) => true,
            (Token::Detach, Token::Detach) => true,
            (Token::Optional, Token::Optional) => true,
            (Token::Merge, Token::Merge) => true,
            (Token::With, Token::With) => true,
            (Token::Order, Token::Order) => true,
            (Token::By, Token::By) => true,
            (Token::Limit, Token::Limit) => true,
            (Token::Skip, Token::Skip) => true,
            (Token::Asc, Token::Asc) => true,
            (Token::Desc, Token::Desc) => true,
            (Token::On, Token::On) => true,
            (Token::Unwind, Token::Unwind) => true,
            (Token::Index, Token::Index) => true,
            (Token::Drop, Token::Drop) => true,
            (Token::At, Token::At) => true,
            (Token::Time, Token::Time) => true,
            (Token::Between, Token::Between) => true,
            (Token::Edge, Token::Edge) => true,
            (Token::Float(a), Token::Float(b)) => a.eq(b),
            (Token::Integer(a), Token::Integer(b)) => *a == *b,
            (Token::StringLiteral(a), Token::StringLiteral(b)) => a.eq(b),
            (Token::BacktickIdent(a), Token::BacktickIdent(b)) => a.eq(b),
            (Token::Ident(a), Token::Ident(b)) => a.eq(b),
            (Token::Parameter(a), Token::Parameter(b)) => a.eq(b),
            (Token::NotEqual, Token::NotEqual) => true,
            (Token::BangEqual, Token::BangEqual) => true,
            (Token::LessEqual, Token::LessEqual) => true,
            (Token::GreaterEqual, Token::GreaterEqual) => true,
            (Token::Eq, Token::Eq) => true,
            (Token::Less, Token::Less) => true,
            (Token::Greater, Token::Greater) => true,
            (Token::Plus, Token::Plus) => true,
            (Token::Minus, Token::Minus) => true,
            (Token::Star, Token::Star) => true,
            (Token::Slash, Token::Slash) => true,
            (Token::Percent, Token::Percent) => true,
            (Token::ArrowRight, Token::ArrowRight) => true,
            (Token::ArrowLeft, Token::ArrowLeft) => true,
            (Token::DoubleDash, Token::DoubleDash) => true,
            (Token::DoubleDot, Token::DoubleDot) => true,
            (Token::LParen, Token::LParen) => true,
            (Token::RParen, Token::RParen) => true,
            (Token::LBracket, Token::LBracket) => true,
            (Token::RBracket, Token::RBracket) => true,
            (Token::LBrace, Token::LBrace) => true,
            (Token::RBrace, Token::RBrace) => true,
            (Token::Colon, Token::Colon) => true,
            (Token::Dot, Token::Dot) => true,
            (Token::Comma, Token::Comma) => true,
            (Token::Pipe, Token::Pipe) => true,
            _ => false,
        }
    }
}

impl vstd::std_specs::cmp::PartialEqSpecImpl for Token {
    open spec fn obeys_eq_spec() -> bool {
        true
    }

    open spec fn eq_spec(&self, other: &Token) -> bool {
        self@ == other@
    }
}

/// The keyword spelled by `w` once lower-cased, if any.
pub open spec fn keyword_of(w: Seq<char>) -> Option<SpecToken> {
    let l = lower_seq(w);
    if l == "match"@ {
        Some(SpecToken::Match)
    } else if l == "return"@ {
        Some(SpecToken::Return)
    } else if l == "create"@ {
        Some(SpecToken::Create)
    } else if l == "as"@ {
        Some(SpecToken::As)
    } else if l == "distinct"@ {
        Some(SpecToken::Distinct)
    } else if l == "true"@ {
        Some(SpecToken::True)
    } else if l == "false"@ {
        Some(SpecToken::False)
    } else if l == "null"@ {
        Some(SpecToken::Null)
    } else if l == "and"@ {
        Some(SpecToken::And)
    } else if l == "or"@ {
        Some(SpecToken::Or)
    } else if l == "not"@ {
        Some(SpecToken::Not)
    } else if l == "is"@ {
        Some(SpecToken::Is)
    } else if l == "count"@ {
        Some(SpecToken::Count)
    } else if l == "where"@ {
        Some(SpecToken::Where)
    } else if l == "set"@ {
        Some(SpecToken::SetKw)
    } else if l == "remove"@ {
        Some(SpecToken::Remove)
    } else if l == "delete"@ {
        Some(SpecToken::Delete)
    } else if l == "detach"@ {
        Some(SpecToken::Detach)
    } else if l == "optional"@ {
        Some(SpecToken::Optional)
    } else if l == "merge"@ {
        Some(SpecToken::Merge)
    } else if l == "with"@ {
        Some(SpecToken::With)
    } else if l == "order"@ {
        Some(SpecToken::Order)
    } else if l == "by"@ {
        Some(SpecToken::By)
    } else if l == "limit"@ {
        Some(SpecToken::Limit)
    } else if l == "skip"@ {
        Some(SpecToken::Skip)
    } else if l == "asc"@ {
        Some(SpecToken::Asc)
    } else if l == "desc"@ {
        Some(SpecToken::Desc)
    } else if l == "on"@ {
        Some(SpecToken::On)
    } else if l == "unwind"@ {
        Some(SpecToken::Unwind)
    } else if l == "index"@ {
        Some(SpecToken::Index)
    } else if l == "drop"@ {
        Some(SpecToken::Drop)
    } else if l == "at"@ {
        Some(SpecToken::At)
    } else if l == "time"@ {
        Some(SpecToken::Time)
    } else if l == "between"@ {
        Some(SpecToken::Between)
    } else if l == "edge"@ {
        Some(SpecToken::Edge)
    } else {
        None
    }
}

fn keyword_token(l: &Vec<char>) -> (r: Option<Token>)
    requires
        lower_seq(l@) == l@,
    ensures
        match keyword_of(l@) {
            Some(t) => r is Some && r->0@ == t,
            None => r is None,
        },
{
    if seq_is(l, "match") {
        Some(Token::Match)
    } else if seq_is(l, "return") {
        Some(Token::Return)
    } else if seq_is(l, "create") {
        Some(Token::Create)
    } else if seq_is(l, "as") {
        Some(Token::As)
    } else if seq_is(l, "distinct") {
        Some(Token::Distinct)
    } else if seq_is(l, "true") {
        Some(Token::True)
    } else if seq_is(l, "false") {
        Some(Token::False)
    } else if seq_is(l, "null") {
        Some(Token::Null)
    } else if seq_is(l, "and") {
        Some(Token::And)
    } else if seq_is(l, "or") {
        Some(Token::Or)
    } else if seq_is(l, "not") {
        Some(Token::Not)
    } else if seq_is(l, "is") {
        Some(Token::Is)
    } else if seq_is(l, "count") {
        Some(Token::Count)
    } else if seq_is(l, "where") {
        Some(Token::Where)
    } else if seq_is(l, "set") {
        Some(Token::SetKw)
    } else if seq_is(l, "remove") {
        Some(Token::Remove)
    } else if seq_is(l, "delete") {
        Some(Token::Delete)
    } else if seq_is(l, "detach") {
        Some(Token::Detach)
    } else if seq_is(l, "optional") {
        Some(Token::Optional)
    } else if seq_is(l, "merge") {
        Some(Token::Merge)
    } else if seq_is(l, "with") {
        Some(Token::With)
    } else if seq_is(l, "order") {
        Some(Token::Order)
    } else if seq_is(l, "by") {
        Some(Token::By)
    } else if seq_is(l, "limit") {
        Some(Token::Limit)
    } else if seq_is(l, "skip") {
        Some(Token::Skip)
    } else if seq_is(l, "asc") {
        Some(Token::Asc)
    } else if seq_is(l, "desc") {
        Some(Token::Desc)
    } else if seq_is(l, "on") {
        Some(Token::On)
    } else if seq_is(l, "unwind") {
        Some(Token::Unwind)
    } else if seq_is(l, "index") {
        Some(Token::Index)
    } else if seq_is(l, "drop") {
        Some(Token::Drop)
    } else if seq_is(l, "at") {
        Some(Token::At)
    } else if seq_is(l, "time") {
        Some(Token::Time)
    } else if seq_is(l, "between") {
        Some(Token::Between)
    } else if seq_is(l, "edge") {
        Some(Token::Edge)
    } else {
        None
    }
}

// ---------------------------------------------------------------------------
// Character classes
// ---------------------------------------------------------------------------

/// Whitespace skipped between tokens.
pub open spec fn is_ws(c: char) -> bool {
    c == ' ' || c == '\t' || c == '\r' || c == '\n'
}

/// First character of an identifier or keyword.
pub open spec fn is_word_start(c: char) -> bool {
    ('a' <= c && c <= 'z') || ('A' <= c && c <= 'Z') || c == '_'
}

/// Decimal digit.
pub open spec fn is_digit(c: char) -> bool {
    '0' <= c && c <= '9'
}

/// Later character of an identifier or keyword.
pub open spec fn is_word_char(c: char) -> bool {
    is_word_start(c) || is_digit(c)
}

/// ASCII lower-casing of one character.
pub open spec fn lower(c: char) -> char {
    if 'A' <= c && c <= 'Z' {
        ((c as u32) + 32) as char
    } else {
        c
    }
}

/// ASCII lower-casing of a character sequence.
pub open spec fn lower_seq(w: Seq<char>) -> Seq<char> {
    w.map_values(|c: char| lower(c))
}

/// Length of the run of characters satisfying `p` that starts at `i`.
pub open spec fn run(s: Seq<char>, i: int, p: spec_fn(char) -> bool) -> nat
    decreases s.len() - i,
{
    if 0 <= i < s.len() && p(s[i]) {
        1 + run(s, i + 1, p)
    } else {
        0
    }
}

/// Value of the decimal digits `s[i..j]`.
pub open spec fn dec_value(s: Seq<char>, i: int, j: int) -> nat
    decreases j - i,
{
    if j <= i {
        0
    } else {
        dec_value(s, i, j - 1) * 10 + ((s[j - 1] as u32) - ('0' as u32)) as nat
    }
}

/// The characters that a backslash followed by `c` stands for inside a string literal.
pub open spec fn escape_seq(c: char) -> Seq<char> {
    if c == 'n' {
        seq!['\n']
    } else if c == 't' {
        seq!['\t']
    } else if c == '\\' {
        seq!['\\']
    } else if c == '\'' {
        seq!['\'']
    } else {
        seq!['\\', c]
    }
}

/// Reading a string literal body from `j` (just after the opening quote):
/// the position just past the closing quote and the unescaped content, or
/// `None` when the literal is not closed.  A backslash escapes any character
/// but a line feed.
pub open spec fn string_tail(s: Seq<char>, j: int) -> Option<(int, Seq<char>)>
    decreases s.len() - j,
{
    if j < 0 || j >= s.len() {
        None
    } else if s[j] == '\'' {
        Some((j + 1, Seq::<char>::empty()))
    } else if s[j] == '\\' {
        if j + 1 < s.len() && s[j + 1] != '\n' {
            match string_tail(s, j + 2) {
                Some((e, c)) => Some((e, escape_seq(s[j + 1]) + c)),
                None => None,
            }
        } else {
            None
        }
    } else {
        match string_tail(s, j + 1) {
            Some((e, c)) => Some((e, seq![s[j]] + c)),
            None => None,
        }
    }
}

/// The punctuation or operator token at `i`, longest match first.
pub open spec fn punct(s: Seq<char>, i: int) -> Option<(SpecToken, int)> {
    let c = s[i];
    let has_next = i + 1 < s.len();
    let nx = s[i + 1];
    if c == '<' {
        if has_next && nx == '>' {
            Some((SpecToken::NotEqual, i + 2))
        } else if has_next && nx == '=' {
            Some((SpecToken::LessEqual, i + 2))
        } else if has_next && nx == '-' {
            Some((SpecToken::ArrowLeft, i + 2))
        } else {
            Some((SpecToken::Less, i + 1))
        }
    } else if c == '>' {
        if has_next && nx == '=' {
            Some((SpecToken::GreaterEqual, i + 2))
        } else {
            Some((SpecToken::Greater, i + 1))
        }
    } else if c == '!' {
        if has_next && nx == '=' {
            Some((SpecToken::BangEqual, i + 2))
        } else {
            None
        }
    } else if c == '-' {
        if has_next && nx == '>' {
            Some((SpecToken::ArrowRight, i + 2))
        } else if has_next && nx == '-' {
            Some((SpecToken::DoubleDash, i + 2))
        } else {
            Some((SpecToken::Minus, i + 1))
        }
    } else if c == '.' {
        if has_next && nx == '.' {
            Some((SpecToken::DoubleDot, i + 2))
        } else {
            Some((SpecToken::Dot, i + 1))
        }
    } else if c == '=' {
        Some((SpecToken::Eq, i + 1))
    } else if c == '+' {
        Some((SpecToken::Plus, i + 1))
    } else if c == '*' {
        Some((SpecToken::Star, i + 1))
    } else if c == '/' {
        Some((SpecToken::Slash, i + 1))
    } else if c == '%' {
        Some((SpecToken::Percent, i + 1))
    } else if c == '(' {
        Some((SpecToken::LParen, i + 1))
    } else if c == ')' {
        Some((SpecToken::RParen, i + 1))
    } else if c == '[' {
        Some((SpecToken::LBracket, i + 1))
    } else if c == ']' {
        Some((SpecToken::RBracket, i + 1))
    } else if c == '{' {
        Some((SpecToken::LBrace, i + 1))
    } else if c == '}' {
        Some((SpecToken::RBrace, i + 1))
    } else if c == ':' {
        Some((SpecToken::Colon, i + 1))
    } else if c == ',' {
        Some((SpecToken::Comma, i + 1))
    } else if c == '|' {
        Some((SpecToken::Pipe, i + 1))
    } else {
        None
    }
}

/// The token read at position `i` (a non-whitespace character) by longest
/// match, with the position just past it; `None` when nothing matches there
/// or when an integer literal does not fit in `i64`.
pub open spec fn scan(s: Seq<char>, i: int) -> Option<(SpecToken, int)> {
    let c = s[i];
    if is_word_start(c) {
        let e = i + run(s, i, |x: char| is_word_char(x));
        let w = s.subrange(i, e);
        match keyword_of(w) {
            Some(t) => Some((t, e)),
            None => Some((SpecToken::Ident(w), e)),
        }
    } else if is_digit(c) {
        let d = i + run(s, i, |x: char| is_digit(x));
        if d + 1 < s.len() && s[d] == '.' && is_digit(s[d + 1]) {
            let e = d + 1 + run(s, d + 1, |x: char| is_digit(x));
            Some((SpecToken::Float(s.subrange(i, e)), e))
        } else if dec_value(s, i, d) <= i64::MAX {
            Some((SpecToken::Integer(dec_value(s, i, d) as i64), d))
        } else {
            None
        }
    } else if c == '\'' {
        match string_tail(s, i + 1) {
            Some((e, content)) => Some((SpecToken::StringLiteral(content), e)),
            None => None,
        }
    } else if c == '`' {
        let k = run(s, i + 1, |x: char| x != '`');
        if k >= 1 && i + 1 + k < s.len() {
            Some((SpecToken::BacktickIdent(s.subrange(i + 1, i + 1 + k)), i + 2 + k))
        } else {
            None
        }
    } else if c == '$' {
        if i + 1 < s.len() && is_word_start(s[i + 1]) {
            let e = i + 1 + run(s, i + 1, |x: char| is_word_char(x));
            Some((SpecToken::Parameter(s.subrange(i + 1, e)), e))
        } else {
            None
        }
    } else {
        punct(s, i)
    }
}

/// Tokens read from position `i` to the end: each with its start and end
/// character positions; `Err(p)` names the character position where no
/// token could be read.
pub open spec fn lex_from(s: Seq<char>, i: int) -> Result<Seq<(SpecToken, int, int)>, int>
    decreases s.len() - i,
{
    if i < 0 {
        Err(0)
    } else {
        let j = i + run(s, i, |x: char| is_ws(x));
        if j >= s.len() {
            Ok(Seq::empty())
        } else {
            match scan(s, j) {
                Some((t, e)) => if j < e <= s.len() {
                    match lex_from(s, e) {
                        Ok(rest) => Ok(seq![(t, j, e)] + rest),
                        Err(p) => Err(p),
                    }
                } else {
                    Err(j)
                },
                None => Err(j),
            }
        }
    }
}

/// Lexing a whole input.
pub open spec fn lex_spec(s: Seq<char>) -> Result<Seq<(SpecToken, int, int)>, int> {
    lex_from(s, 0)
}

/// `v` holds the tokens of `ts`, with character positions turned into byte offsets.
pub open spec fn tokens_match(
    v: Seq<(Token, Span)>,
    ts: Seq<(SpecToken, int, int)>,
    s: Seq<char>,
) -> bool {
    &&& v.len() == ts.len()
    &&& forall|k: int|
        0 <= k < v.len() ==> {
            &&& (#[trigger] v[k]).0@ == ts[k].0
            &&& v[k].1.start == byte_pos(s, ts[k].1)
            &&& v[k].1.end == byte_pos(s, ts[k].2)
        }
}

// ---------------------------------------------------------------------------
// Facts about the specification
// ---------------------------------------------------------------------------

proof fn lemma_run_bound(s: Seq<char>, i: int, p: spec_fn(char) -> bool)
    requires
        0 <= i,
    ensures
        i + run(s, i, p) <= if i <= s.len() { s.len() as int } else { i },
        forall|k: int| i <= k < i + run(s, i, p) ==> p(#[trigger] s[k]),
        i + run(s, i, p) < s.len() ==> !p(s[i + run(s, i, p)]),
    decreases s.len() - i,
{
    if 0 <= i < s.len() && p(s[i]) {
        lemma_run_bound(s, i + 1, p);
    }
}

proof fn lemma_string_tail_bound(s: Seq<char>, j: int)
    ensures
        string_tail(s, j) matches Some((e, c)) ==> j < e <= s.len(),
    decreases s.len() - j,
{
    if 0 <= j < s.len() && s[j] != '\'' {
        if s[j] == '\\' {
            if j + 1 < s.len() {
                lemma_string_tail_bound(s, j + 2);
            }
        } else {
            lemma_string_tail_bound(s, j + 1);
        }
    }
}

/// A token read at `i` ends after `i` and within the input.
pub proof fn lemma_scan_advances(s: Seq<char>, i: int)
    requires
        0 <= i < s.len(),
    ensures
        scan(s, i) matches Some((t, e)) ==> i < e <= s.len(),
{
    lemma_run_bound(s, i, |x: char| is_word_char(x));
    lemma_run_bound(s, i, |x: char| is_digit(x));
    lemma_run_bound(s, i + 1, |x: char| x != '`');
    lemma_run_bound(s, i + 1, |x: char| is_word_char(x));
    lemma_string_tail_bound(s, i + 1);
    let d = i + run(s, i, |x: char| is_digit(x));
    if d + 1 < s.len() {
        lemma_run_bound(s, d + 1, |x: char| is_digit(x));
    }
}

/// Runs of a character class read the same length over texts whose
/// characters agree on the class from `i` on.
proof fn lemma_run_agree(s1: Seq<char>, s2: Seq<char>, i: int, p: spec_fn(char) -> bool)
    requires
        s1.len() == s2.len(),
        0 <= i,
        forall|k: int| i <= k < s1.len() ==> p(#[trigger] s1[k]) == p(s2[k]),
    ensures
        run(s1, i, p) == run(s2, i, p),
    decreases s1.len() - i,
{
    if i < s1.len() && p(s1[i]) {
        lemma_run_agree(s1, s2, i + 1, p);
    }
}

/// A token read from a keyword.
pub open spec fn is_keyword_token(t: SpecToken) -> bool {
    ||| t is Match
        || t is Return
        || t is Create
        || t is As
        || t is Distinct
        || t is True
        || t is False
        || t is Null
        || t is And
        || t is Or
        || t is Not
        || t is Is
        || t is Count
        || t is Where
        || t is SetKw
        || t is Remove
        || t is Delete
        || t is Detach
        || t is Optional
        || t is Merge
        || t is With
        || t is Order
        || t is By
        || t is Limit
        || t is Skip
        || t is Asc
        || t is Desc
        || t is On
        || t is Unwind
        || t is Index
        || t is Drop
        || t is At
        || t is Time
        || t is Between
        || t is Edge
}

/// Two texts of the same length whose characters have the same lower-case
/// form, and differ only inside keyword tokens of `ts`.
pub open spec fn keywords_recased(s1: Seq<char>, s2: Seq<char>, ts: Seq<(SpecToken, int, int)>) -> bool {
    &&& s1.len() == s2.len()
    &&& forall|k: int| 0 <= k < s1.len() ==> lower(#[trigger] s1[k]) == lower(s2[k])
    &&& forall|k: int|
        0 <= k < s1.len() && s1[k] != s2[k] ==> exists|m: int|
            0 <= m < ts.len() && is_keyword_token(#[trigger] ts[m].0) && ts[m].1 <= k < ts[m].2
}

/// Characters with the same lower-case form that differ are both ASCII
/// letters.
proof fn lemma_lower_differ(c1: char, c2: char)
    requires
        lower(c1) == lower(c2),
        c1 != c2,
    ensures
        is_word_start(c1) && is_word_start(c2) && c1 != '_' && c2 != '_',
        utf8_width(c1) == 1 && utf8_width(c2) == 1,
{
}

/// A string literal body reads the same over texts that agree up to where
/// it ends.
proof fn lemma_string_tail_agree(s1: Seq<char>, s2: Seq<char>, j: int, e: int)
    requires
        s1.len() == s2.len(),
        0 <= j,
        string_tail(s1, j) matches Some((e1, c)) && e1 == e,
        forall|k: int| j <= k < e ==> #[trigger] s1[k] == s2[k],
    ensures
        string_tail(s2, j) == string_tail(s1, j),
    decreases s1.len() - j,
{
    lemma_string_tail_bound(s1, j);
    if 0 <= j < s1.len() && s1[j] != '\'' {
        if s1[j] == '\\' {
            lemma_string_tail_bound(s1, j + 2);
            lemma_string_tail_agree(s1, s2, j + 2, e);
        } else {
            lemma_string_tail_bound(s1, j + 1);
            lemma_string_tail_agree(s1, s2, j + 1, e);
        }
    }
}

/// The value of digits reads the same over texts that agree on them.
proof fn lemma_dec_value_agree(s1: Seq<char>, s2: Seq<char>, i: int, j: int)
    requires
        forall|k: int| i <= k < j ==> #[trigger] s1[k] == s2[k],
    ensures
        dec_value(s1, i, j) == dec_value(s2, i, j),
    decreases j - i,
{
    if j > i {
        lemma_dec_value_agree(s1, s2, i, j - 1);
    }
}

/// Where `s1` reads a token at `j`, a text that differs from it only by
/// letter case from `j` on, and not at all within that token unless it is a
/// keyword, reads the same token.
proof fn lemma_scan_recased(s1: Seq<char>, s2: Seq<char>, j: int)
    requires
        s1.len() == s2.len(),
        0 <= j < s1.len(),
        scan(s1, j) is Some,
        forall|k: int| j <= k < s1.len() ==> lower(#[trigger] s1[k]) == lower(s2[k]),
        !is_keyword_token((scan(s1, j)->0).0) ==> forall|k: int|
            j <= k < (scan(s1, j)->0).1 ==> #[trigger] s1[k] == s2[k],
    ensures
        scan(s2, j) == scan(s1, j),
{
    lemma_scan_advances(s1, j);
    let e = (scan(s1, j)->0).1;
    assert forall|k: int| j <= k < s1.len() implies (is_word_char(#[trigger] s1[k]) == is_word_char(s2[k])
        && is_digit(s1[k]) == is_digit(s2[k]) && is_ws(s1[k]) == is_ws(s2[k]) && (s1[k] == '`') == (
    s2[k] == '`') && (s1[k] == '.') == (s2[k] == '.')) by {
        if s1[k] != s2[k] {
            lemma_lower_differ(s1[k], s2[k]);
        }
    }
    let c = s1[j];
    if is_word_start(c) {
        let p = |x: char| is_word_char(x);
        lemma_run_bound(s1, j, p);
        lemma_run_agree(s1, s2, j, p);
        if is_keyword_token((scan(s1, j)->0).0) {
            let w1 = s1.subrange(j, e);
            let w2 = s2.subrange(j, e);
            assert(lower_seq(w1) =~= lower_seq(w2));
            if s1[j] != s2[j] {
                lemma_lower_differ(s1[j], s2[j]);
            }
        } else {
            assert(s1.subrange(j, e) =~= s2.subrange(j, e));
        }
    } else {
        assert(s1[j] == s2[j]);
        if is_digit(c) {
            let p = |x: char| is_digit(x);
            lemma_run_bound(s1, j, p);
            lemma_run_agree(s1, s2, j, p);
            let d = j + run(s1, j, p);
            lemma_dec_value_agree(s1, s2, j, d);
            if d + 1 < s1.len() && s1[d] == '.' && is_digit(s1[d + 1]) {
                lemma_run_bound(s1, d + 1, p);
                lemma_run_agree(s1, s2, d + 1, p);
                assert(s1.subrange(j, e) =~= s2.subrange(j, e));
            }
        } else if c == '\'' {
            lemma_string_tail_agree(s1, s2, j + 1, e);
        } else if c == '`' {
            let p = |x: char| x != '`';
            lemma_run_bound(s1, j + 1, p);
            lemma_run_agree(s1, s2, j + 1, p);
            assert(s1.subrange(j + 1, e - 1) =~= s2.subrange(j + 1, e - 1));
        } else if c == '$' {
            let p = |x: char| is_word_char(x);
            lemma_run_bound(s1, j + 1, p);
            lemma_run_agree(s1, s2, j + 1, p);
            assert(s1.subrange(j + 1, e) =~= s2.subrange(j + 1, e));
        } else {
            if j + 1 < s1.len() && s1[j + 1] != s2[j + 1] {
                lemma_lower_differ(s1[j + 1], s2[j + 1]);
            }
        }
    }
}

/// Lexing from `i` reads the same tokens over a text that differs only by
/// the letter case of keyword tokens read from `i` on.
proof fn lemma_lex_recased_from(s1: Seq<char>, s2: Seq<char>, i: int, ts: Seq<(SpecToken, int, int)>)
    requires
        s1.len() == s2.len(),
        0 <= i <= s1.len(),
        lex_from(s1, i) == Ok::<Seq<(SpecToken, int, int)>, int>(ts),
        forall|k: int| i <= k < s1.len() ==> lower(#[trigger] s1[k]) == lower(s2[k]),
        forall|k: int|
            i <= k < s1.len() && s1[k] != s2[k] ==> exists|m: int|
                0 <= m < ts.len() && is_keyword_token(#[trigger] ts[m].0) && ts[m].1 <= k < ts[m].2,
    ensures
        lex_from(s2, i) == lex_from(s1, i),
    decreases s1.len() - i,
{
    let p = |x: char| is_ws(x);
    lemma_run_bound(s1, i, p);
    assert forall|k: int| i <= k < s1.len() implies p(#[trigger] s1[k]) == p(s2[k]) by {
        if s1[k] != s2[k] {
            lemma_lower_differ(s1[k], s2[k]);
        }
    }
    lemma_run_agree(s1, s2, i, p);
    let j = i + run(s1, i, p);
    if j < s1.len() {
        lemma_scan_advances(s1, j);
        let t = (scan(s1, j)->0).0;
        let e = (scan(s1, j)->0).1;
        let rest = lex_from(s1, e)->Ok_0;
        assert(ts == seq![(t, j, e)] + rest);
        lemma_lex_layout(s1, e);
        assert forall|k: int| e <= k < s1.len() && s1[k] != s2[k] implies exists|m: int|
            0 <= m < rest.len() && is_keyword_token(#[trigger] rest[m].0) && rest[m].1 <= k
                < rest[m].2 by {
            let m = choose|m: int|
                0 <= m < ts.len() && is_keyword_token(#[trigger] ts[m].0) && ts[m].1 <= k < ts[m].2;
            assert(m != 0);
            assert(rest[m - 1] == ts[m]);
        }
        if !is_keyword_token(t) {
            assert forall|k: int| j <= k < e implies #[trigger] s1[k] == s2[k] by {
                if s1[k] != s2[k] {
                    let m = choose|m: int|
                        0 <= m < ts.len() && is_keyword_token(#[trigger] ts[m].0) && ts[m].1 <= k
                            < ts[m].2;
                    if m > 0 {
                        assert(rest[m - 1] == ts[m]);
                    }
                }
            }
        }
        lemma_scan_recased(s1, s2, j);
        lemma_lex_recased_from(s1, s2, e, rest);
    }
}

/// Byte offsets agree over texts whose differing characters are ASCII
/// letters of the same lower-case form.
proof fn lemma_byte_pos_agree(s1: Seq<char>, s2: Seq<char>, i: int)
    requires
        s1.len() == s2.len(),
        i <= s1.len(),
        forall|k: int| 0 <= k < s1.len() ==> lower(#[trigger] s1[k]) == lower(s2[k]),
    ensures
        byte_pos(s1, i) == byte_pos(s2, i),
    decreases i,
{
    if i > 0 {
        lemma_byte_pos_agree(s1, s2, i - 1);
        if s1[i - 1] != s2[i - 1] {
            lemma_lower_differ(s1[i - 1], s2[i - 1]);
        }
    }
}

/// Keywords are read whatever their letter case: a text that differs from
/// a lexed text only by the letter case within its keyword tokens lexes to
/// the same tokens at the same positions, and any token list matching the
/// lexing of one matches that of the other.
pub proof fn lemma_lex_keyword_case(s1: Seq<char>, s2: Seq<char>)
    requires
        lex_spec(s1) is Ok,
        keywords_recased(s1, s2, lex_spec(s1)->Ok_0),
    ensures
        lex_spec(s2) == lex_spec(s1),
        forall|v: Seq<(Token, Span)>|
            tokens_match(v, lex_spec(s1)->Ok_0, s1) <==> tokens_match(v, lex_spec(s2)->Ok_0, s2),
{
    let ts = lex_spec(s1)->Ok_0;
    lemma_lex_recased_from(s1, s2, 0, ts);
    lemma_lex_layout(s1, 0);
    assert forall|k: int| 0 <= k < ts.len() implies byte_pos(s1, #[trigger] ts[k].1) == byte_pos(
        s2,
        ts[k].1,
    ) && byte_pos(s1, ts[k].2) == byte_pos(s2, ts[k].2) by {
        lemma_byte_pos_agree(s1, s2, ts[k].1);
        lemma_byte_pos_agree(s1, s2, ts[k].2);
    }
}

/// The tokens of a successful lex lie in order within the input, each
/// non-empty, separated from the next only by whitespace, with only
/// whitespace before the first and after the last.
pub proof fn lemma_lex_layout(s: Seq<char>, i: int)
    requires
        0 <= i <= s.len(),
    ensures
        lex_from(s, i) matches Ok(ts) ==> {
            &&& forall|k: int| 0 <= k < ts.len() ==> i <= #[trigger] ts[k].1 < ts[k].2 <= s.len()
            &&& forall|k: int|
                0 <= k < ts.len() - 1 ==> #[trigger] ts[k].2 <= ts[k + 1].1
            &&& forall|k: int, q: int|
                #![trigger ts[k], s[q]]
                0 <= k < ts.len() - 1 && ts[k].2 <= q < ts[k + 1].1 ==> is_ws(s[q])
            &&& ts.len() > 0 ==> forall|q: int| i <= q < ts[0].1 ==> is_ws(#[trigger] s[q])
            &&& ts.len() > 0 ==> forall|q: int|
                ts[ts.len() - 1].2 <= q < s.len() ==> is_ws(#[trigger] s[q])
            &&& ts.len() == 0 ==> forall|q: int| i <= q < s.len() ==> is_ws(#[trigger] s[q])
        },
    decreases s.len() - i,
{
    lemma_run_bound(s, i, |x: char| is_ws(x));
    let j = i + run(s, i, |x: char| is_ws(x));
    assert(forall|q: int| i <= q < j ==> is_ws(#[trigger] s[q]));
    if j < s.len() {
        lemma_scan_advances(s, j);
        if let Some((t, e)) = scan(s, j) {
            lemma_lex_layout(s, e);
            if let Ok(rest) = lex_from(s, e) {
                let ts = lex_from(s, i)->Ok_0;
                assert(ts == seq![(t, j, e)] + rest);
                assert forall|k: int| 0 <= k < ts.len() - 1 implies #[trigger] ts[k].2 <= ts[k
                    + 1].1 by {
                    if k > 0 {
                        assert(ts[k] == rest[k - 1]);
                        assert(ts[k + 1] == rest[k]);
                    }
                }
                assert forall|k: int, q: int|
                    #![trigger ts[k], s[q]]
                    0 <= k < ts.len() - 1 && ts[k].2 <= q < ts[k + 1].1 implies is_ws(s[q]) by {
                    if k > 0 {
                        assert(ts[k] == rest[k - 1]);
                        assert(ts[k + 1] == rest[k]);
                    }
                }
                assert forall|k: int| 0 <= k < ts.len() implies i <= #[trigger] ts[k].1 < ts[k].2
                    <= s.len() by {
                    if k > 0 {
                        assert(ts[k] == rest[k - 1]);
                    }
                }
                if rest.len() > 0 {
                    assert(ts[ts.len() - 1] == rest[rest.len() - 1]);
                }
            }
        }
    }
}

// ---------------------------------------------------------------------------
// Executable lexer
// ---------------------------------------------------------------------------

/// True when `l` holds exactly the characters of `kw`.
fn seq_is(l: &Vec<char>, kw: &str) -> (r: bool)
    ensures
        r == (l@ == kw@),
{
    let n = kw.unicode_len();
    if l.len() != n {
        return false;
    }
    let mut i: usize = 0;
    while i < n
        invariant
            n == kw@.len(),
            l@.len() == n,
            i <= n,
            forall|k: int| 0 <= k < i ==> l@[k] == kw@[k],
        decreases n - i,
    {
        if l[i] != kw.get_char(i) {
            return false;
        }
        i = i + 1;
    }
    assert(l@ =~= kw@);
    true
}

fn lower_char(c: char) -> (r: char)
    ensures
        r == lower(c),
{
    if c >= 'A' && c <= 'Z' {
        let u = c as u32 + 32;
        let r = ((c as u8) + 32) as char;
        assert(r == ((c as u32) + 32) as char);
        r
    } else {
        c
    }
}

fn is_ws_char(c: char) -> (r: bool)
    ensures
        r == is_ws(c),
{
    c == ' ' || c == '\t' || c == '\r' || c == '\n'
}

fn is_word_start_char(c: char) -> (r: bool)
    ensures
        r == is_word_start(c),
{
    (c >= 'a' && c <= 'z') || (c >= 'A' && c <= 'Z') || c == '_'
}

fn is_digit_char(c: char) -> (r: bool)
    ensures
        r == is_digit(c),
{
    c >= '0' && c <= '9'
}

fn is_word_char_exec(c: char) -> (r: bool)
    ensures
        r == is_word_char(c),
{
    is_word_start_char(c) || is_digit_char(c)
}

/// End of the run of word characters starting at `i`.
fn word_end(cs: &Vec<char>, i: usize) -> (e: usize)
    requires
        i <= cs.len(),
    ensures
        e == i + run(cs@, i as int, |x: char| is_word_char(x)),
{
    let mut k = i;
    while k < cs.len() && is_word_char_exec(cs[k])
        invariant
            i <= k <= cs.len(),
            run(cs@, i as int, |x: char| is_word_char(x)) == (k - i) + run(
                cs@,
                k as int,
                |x: char| is_word_char(x),
            ),
        decreases cs.len() - k,
    {
        k = k + 1;
    }
    k
}

/// End of the run of digits starting at `i`.
fn digit_end(cs: &Vec<char>, i: usize) -> (e: usize)
    requires
        i <= cs.len(),
    ensures
        e == i + run(cs@, i as int, |x: char| is_digit(x)),
{
    let mut k = i;
    while k < cs.len() && is_digit_char(cs[k])
        invariant
            i <= k <= cs.len(),
            run(cs@, i as int, |x: char| is_digit(x)) == (k - i) + run(
                cs@,
                k as int,
                |x: char| is_digit(x),
            ),
        decreases cs.len() - k,
    {
        k = k + 1;
    }
    k
}

/// End of the run of whitespace starting at `i`.
fn ws_end(cs: &Vec<char>, i: usize) -> (e: usize)
    requires
        i <= cs.len(),
    ensures
        e == i + run(cs@, i as int, |x: char| is_ws(x)),
{
    let mut k = i;
    while k < cs.len() && is_ws_char(cs[k])
        invariant
            i <= k <= cs.len(),
            run(cs@, i as int, |x: char| is_ws(x)) == (k - i) + run(
                cs@,
                k as int,
                |x: char| is_ws(x),
            ),
        decreases cs.len() - k,
    {
        k = k + 1;
    }
    k
}

/// End of the run of non-backtick characters starting at `i`.
fn backtick_body_end(cs: &Vec<char>, i: usize) -> (e: usize)
    requires
        i <= cs.len(),
    ensures
        e == i + run(cs@, i as int, |x: char| x != '`'),
{
    let mut k = i;
    while k < cs.len() && cs[k] != '`'
        invariant
            i <= k <= cs.len(),
            run(cs@, i as int, |x: char| x != '`') == (k - i) + run(
                cs@,
                k as int,
                |x: char| x != '`',
            ),
        decreases cs.len() - k,
    {
        k = k + 1;
    }
    k
}

proof fn lemma_dec_value_monotone(s: Seq<char>, i: int, j: int, k: int)
    requires
        i <= j <= k,
        forall|q: int| i <= q < k ==> is_digit(#[trigger] s[q]),
    ensures
        dec_value(s, i, j) <= dec_value(s, i, k),
    decreases k - j,
{
    if j < k {
        lemma_dec_value_monotone(s, i, j, k - 1);
    }
}

/// Value of the digits `cs[i..d]` when it fits in `i64`.
fn lex_integer(cs: &Vec<char>, i: usize, d: usize) -> (r: Option<i64>)
    requires
        i <= d <= cs.len(),
        forall|q: int| i <= q < d ==> is_digit(#[trigger] cs@[q]),
    ensures
        dec_value(cs@, i as int, d as int) <= i64::MAX ==> r == Some(
            dec_value(cs@, i as int, d as int) as i64,
        ),
        dec_value(cs@, i as int, d as int) > i64::MAX ==> r is None,
{
    let mut v: i64 = 0;
    let mut k = i;
    while k < d
        invariant
            i <= k <= d,
            d <= cs.len(),
            forall|q: int| i <= q < d ==> is_digit(#[trigger] cs@[q]),
            v == dec_value(cs@, i as int, k as int),
        decreases d - k,
    {
        let dig = (cs[k] as u32 - '0' as u32) as i64;
        if v > (i64::MAX - dig) / 10 {
            proof {
                lemma_dec_value_monotone(cs@, i as int, (k + 1) as int, d as int);
            }
            return None;
        }
        v = v * 10 + dig;
        k = k + 1;
    }
    Some(v)
}

/// Reads a string literal body starting at `j` (just past the opening quote).
fn lex_string(cs: &Vec<char>, input: &str, j: usize) -> (r: Option<(String, usize)>)
    requires
        cs@ == input@,
        j <= cs.len(),
    ensures
        match string_tail(cs@, j as int) {
            Some((e, c)) => r is Some && (r->0).0@ == c && (r->0).1 == e,
            None => r is None,
        },
{
    let mut out = String::new();
    let mut k = j;
    while k < cs.len()
        invariant
            cs@ == input@,
            j <= k <= cs.len(),
            string_tail(cs@, j as int) == match string_tail(cs@, k as int) {
                Some((e, c)) => Some((e, out@ + c)),
                None => None::<(int, Seq<char>)>,
            },
        decreases cs.len() - k,
    {
        let c = cs[k];
        if c == '\'' {
            assert(out@ + Seq::<char>::empty() =~= out@);
            return Some((out, k + 1));
        } else if c == '\\' {
            if k + 1 < cs.len() && cs[k + 1] != '\n' {
                let e = cs[k + 1];
                let ghost before = out@;
                if e == 'n' {
                    out.append("\n");
                    proof { reveal_strlit("\n"); }
                } else if e == 't' {
                    out.append("\t");
                    proof { reveal_strlit("\t"); }
                } else if e == '\\' {
                    out.append("\\");
                    proof { reveal_strlit("\\"); }
                } else if e == '\'' {
                    out.append("'");
                    proof { reveal_strlit("'"); }
                } else {
                    out.append("\\");
                    out.append(char_to_string(e).as_str());
                    proof { reveal_strlit("\\"); }
                }
                assert(out@ =~= before + escape_seq(e));
                proof {
                    assert forall|x: Seq<char>| #[trigger] (before + escape_seq(e) + x) =~= before + (
                    escape_seq(e) + x) by {}
                }
                k = k + 2;
            } else {
                return None;
            }
        } else {
            let ghost before = out@;
            out.append(char_to_string(c).as_str());
            proof {
                assert forall|x: Seq<char>| #[trigger] (before + seq![c] + x) =~= before + (seq![c]
                    + x) by {}
            }
            k = k + 1;
        }
    }
    None
}

/// The punctuation or operator token at `i`.
fn punct_token(cs: &Vec<char>, i: usize) -> (r: Option<(Token, usize)>)
    requires
        i < cs.len(),
    ensures
        match punct(cs@, i as int) {
            Some((t, e)) => r is Some && (r->0).0@ == t && (r->0).1 == e,
            None => r is None,
        },
{
    let c = cs[i];
    let has_next = i + 1 < cs.len();
    let nx = if has_next { cs[i + 1] } else { ' ' };
    if c == '<' {
        if has_next && nx == '>' {
            Some((Token::NotEqual, i + 2))
        } else if has_next && nx == '=' {
            Some((Token::LessEqual, i + 2))
        } else if has_next && nx == '-' {
            Some((Token::ArrowLeft, i + 2))
        } else {
            Some((Token::Less, i + 1))
        }
    } else if c == '>' {
        if has_next && nx == '=' {
            Some((Token::GreaterEqual, i + 2))
        } else {
            Some((Token::Greater, i + 1))
        }
    } else if c == '!' {
        if has_next && nx == '=' {
            Some((Token::BangEqual, i + 2))
        } else {
            None
        }
    } else if c == '-' {
        if has_next && nx == '>' {
            Some((Token::ArrowRight, i + 2))
        } else if has_next && nx == '-' {
            Some((Token::DoubleDash, i + 2))
        } else {
            Some((Token::Minus, i + 1))
        }
    } else if c == '.' {
        if has_next && nx == '.' {
            Some((Token::DoubleDot, i + 2))
        } else {
            Some((Token::Dot, i + 1))
        }
    } else if c == '=' {
        Some((Token::Eq, i + 1))
    } else if c == '+' {
        Some((Token::Plus, i + 1))
    } else if c == '*' {
        Some((Token::Star, i + 1))
    } else if c == '/' {
        Some((Token::Slash, i + 1))
    } else if c == '%' {
        Some((Token::Percent, i + 1))
    } else if c == '(' {
        Some((Token::LParen, i + 1))
    } else if c == ')' {
        Some((Token::RParen, i + 1))
    } else if c == '[' {
        Some((Token::LBracket, i + 1))
    } else if c == ']' {
        Some((Token::RBracket, i + 1))
    } else if c == '{' {
        Some((Token::LBrace, i + 1))
    } else if c == '}' {
        Some((Token::RBrace, i + 1))
    } else if c == ':' {
        Some((Token::Colon, i + 1))
    } else if c == ',' {
        Some((Token::Comma, i + 1))
    } else if c == '|' {
        Some((Token::Pipe, i + 1))
    } else {
        None
    }
}

/// The lower-cased characters `cs[i..e]`.
fn lowered(cs: &Vec<char>, i: usize, e: usize) -> (l: Vec<char>)
    requires
        i <= e <= cs.len(),
    ensures
        l@ == lower_seq(cs@.subrange(i as int, e as int)),
        lower_seq(l@) == l@,
{
    let mut l: Vec<char> = Vec::new();
    let mut k = i;
    while k < e
        invariant
            i <= k <= e <= cs.len(),
            l@ == lower_seq(cs@.subrange(i as int, k as int)),
        decreases e - k,
    {
        l.push(lower_char(cs[k]));
        k = k + 1;
        assert(l@ =~= lower_seq(cs@.subrange(i as int, k as int)));
    }
    assert(lower_seq(l@) =~= l@);
    l
}

/// The token that starts at the non-whitespace position `i`.
fn scan_token(cs: &Vec<char>, input: &str, i: usize) -> (r: Option<(Token, usize)>)
    requires
        cs@ == input@,
        i < cs.len(),
    ensures
        match scan(cs@, i as int) {
            Some((t, e)) => r is Some && (r->0).0@ == t && (r->0).1 == e,
            None => r is None,
        },
{
    let c = cs[i];
    if is_word_start_char(c) {
        let e = word_end(cs, i);
        proof {
            lemma_run_bound(cs@, i as int, |x: char| is_word_char(x));
        }
        let l = lowered(cs, i, e);
        match keyword_token(&l) {
            Some(t) => Some((t, e)),
            None => Some((Token::Ident(substring(input, i, e)), e)),
        }
    } else if is_digit_char(c) {
        let d = digit_end(cs, i);
        proof {
            lemma_run_bound(cs@, i as int, |x: char| is_digit(x));
        }
        if d < cs.len() && d + 1 < cs.len() && cs[d] == '.' && is_digit_char(cs[d + 1]) {
            let e = digit_end(cs, d + 1);
            proof {
                lemma_run_bound(cs@, (d + 1) as int, |x: char| is_digit(x));
            }
            Some((Token::Float(substring(input, i, e)), e))
        } else {
            match lex_integer(cs, i, d) {
                Some(v) => Some((Token::Integer(v), d)),
                None => None,
            }
        }
    } else if c == '\'' {
        match lex_string(cs, input, i + 1) {
            Some((content, e)) => Some((Token::StringLiteral(content), e)),
            None => None,
        }
    } else if c == '`' {
        let b = backtick_body_end(cs, i + 1);
        proof {
            lemma_run_bound(cs@, (i + 1) as int, |x: char| x != '`');
        }
        if b > i + 1 && b < cs.len() {
            Some((Token::BacktickIdent(substring(input, i + 1, b)), b + 1))
        } else {
            None
        }
    } else if c == '$' {
        if i + 1 < cs.len() && is_word_start_char(cs[i + 1]) {
            let e = word_end(cs, i + 1);
            proof {
                lemma_run_bound(cs@, (i + 1) as int, |x: char| is_word_char(x));
            }
            Some((Token::Parameter(substring(input, i + 1, e)), e))
        } else {
            None
        }
    } else {
        punct_token(cs, i)
    }
}

/// Byte offset of character position `to`, given that of `from`.
fn advance_bytes(cs: &Vec<char>, from: usize, to: usize, b: usize, total: usize) -> (r: usize)
    requires
        from <= to <= cs.len(),
        b == byte_pos(cs@, from as int),
        total == byte_pos(cs@, cs@.len() as int),
    ensures
        r == byte_pos(cs@, to as int),
{
    let mut k = from;
    let mut bk = b;
    while k < to
        invariant
            from <= k <= to <= cs.len(),
            bk == byte_pos(cs@, k as int),
            total == byte_pos(cs@, cs@.len() as int),
        decreases to - k,
    {
        proof {
            lemma_byte_pos_monotone(cs@, (k + 1) as int, cs@.len() as int);
        }
        bk = bk + char_width(cs[k]);
        k = k + 1;
    }
    bk
}

/// Tokenizes `input`, returning each token with its byte span.
///
/// Returns `Err(LexError)` at the first position where no token can be read.
pub fn lex(input: &str) -> (r: Result<Vec<(Token, Span)>, LexError>)
    ensures
        match lex_spec(input@) {
            Ok(ts) => r is Ok && tokens_match(r->Ok_0@, ts, input@),
            Err(p) => r == Err::<Vec<(Token, Span)>, LexError>(
                LexError { position: byte_pos(input@, p) as usize, character: Some(input@[p]) },
            ) && 0 <= p < input@.len() && byte_pos(input@, p) <= usize::MAX,
        },
{
    let cs = chars_of(input);
    let total = byte_len(input);
    let mut tokens: Vec<(Token, Span)> = Vec::new();
    let ghost mut done: Seq<(SpecToken, int, int)> = Seq::empty();
    let mut i: usize = 0;
    let mut bi: usize = 0;
    loop
        invariant
            cs@ == input@,
            i <= cs.len(),
            bi == byte_pos(cs@, i as int),
            total == byte_pos(cs@, cs@.len() as int),
            tokens_match(tokens@, done, cs@),
            lex_spec(cs@) == match lex_from(cs@, i as int) {
                Ok(rest) => Ok(done + rest),
                Err(p) => Err::<Seq<(SpecToken, int, int)>, int>(p),
            },
        decreases cs.len() - i,
    {
        let j = ws_end(&cs, i);
        proof {
            lemma_run_bound(cs@, i as int, |x: char| is_ws(x));
        }
        if j >= cs.len() {
            assert(done + Seq::<(SpecToken, int, int)>::empty() =~= done);
            return Ok(tokens);
        }
        let bj = advance_bytes(&cs, i, j, bi, total);
        proof {
            lemma_scan_advances(cs@, j as int);
            lemma_byte_pos_monotone(cs@, j as int, cs@.len() as int);
        }
        match scan_token(&cs, input, j) {
            Some((tok, e)) => {
                let be = advance_bytes(&cs, j, e, bj, total);
                let ghost t = tok@;
                let ghost old_tokens = tokens@;
                tokens.push((tok, Span { start: bj, end: be }));
                proof {
                    let ghost old_done = done;
                    done = done.push((t, j as int, e as int));
                    assert forall|x: Seq<(SpecToken, int, int)>| #[trigger] (old_done + (seq![
                        (t, j as int, e as int),
                    ] + x)) =~= done + x by {}
                    assert(tokens_match(tokens@, done, cs@)) by {
                        assert forall|k: int| 0 <= k < tokens@.len() implies {
                            &&& (#[trigger] tokens@[k]).0@ == done[k].0
                            &&& tokens@[k].1.start == byte_pos(cs@, done[k].1)
                            &&& tokens@[k].1.end == byte_pos(cs@, done[k].2)
                        } by {
                            if k < tokens@.len() - 1 {
                                assert(tokens@[k] == old_tokens[k]);
                            }
                        }
                    }
                }
                i = e;
                bi = be;
            },
            None => {
                return Err(LexError { position: bj, character: Some(cs[j]) });
            },
        }
    }
}

/// The value of the digits `s[i..j]` depends on those characters alone.
proof fn lemma_dec_value_same(s: Seq<char>, t: Seq<char>, i: int, j: int)
    requires
        0 <= i <= j <= s.len(),
        j <= t.len(),
        forall|k: int| i <= k < j ==> s[k] == t[k],
    ensures
        dec_value(s, i, j) == dec_value(t, i, j),
    decreases j - i,
{
    if i < j {
        lemma_dec_value_same(s, t, i, j - 1);
    }
}

/// A decimal digit character is a digit of its own value.
proof fn lemma_digit_char_value(d: nat)
    requires
        d < 10,
    ensures
        is_digit(digit_char(d)),
        (digit_char(d) as u32) - ('0' as u32) == d,
{
}

/// The decimal rendering of a number is all digits, whose value is that
/// number.
proof fn lemma_decimal_value(n: nat)
    ensures
        decimal(n).len() >= 1,
        forall|k: int| 0 <= k < decimal(n).len() ==> is_digit(#[trigger] decimal(n)[k]),
        dec_value(decimal(n), 0, decimal(n).len() as int) == n,
    decreases n,
{
    if n < 10 {
        lemma_digit_char_value(n);
        assert(dec_value(decimal(n), 0, 0) == 0);
    } else {
        lemma_decimal_value(n / 10);
        lemma_digit_char_value(n % 10);
        let p = decimal(n / 10);
        let s = decimal(n);
        assert(s == p.push(digit_char(n % 10)));
        lemma_dec_value_same(s, p, 0, p.len() as int);
        assert(forall|k: int| 0 <= k < p.len() ==> s[k] == p[k]);
        assert(s[s.len() - 1] == digit_char(n % 10));
    }
}

/// A run of `m` characters satisfying `p` from `i`, followed by the end or a
/// character that does not, has length `m`.
proof fn lemma_run_exact(s: Seq<char>, i: int, m: int, p: spec_fn(char) -> bool)
    requires
        0 <= i,
        0 <= m,
        i + m <= s.len(),
        forall|k: int| i <= k < i + m ==> #[trigger] p(s[k]),
        i + m == s.len() || !p(s[i + m]),
    ensures
        run(s, i, p) == m,
    decreases m,
{
    if m > 0 {
        lemma_run_exact(s, i + 1, m - 1, p);
    }
}

/// The lexer reads numbers as they are written: the decimal digits of any
/// `n` that fits in `i64`, followed by the end of the text or by a
/// character that is neither a digit nor a `.`, are read as the integer
/// token of value `n`, spanning exactly those digits.
pub proof fn lemma_scan_integer(n: nat, rest: Seq<char>)
    requires
        n <= i64::MAX,
        rest.len() == 0 || (!is_digit(rest[0]) && rest[0] != '.'),
    ensures
        scan(decimal(n) + rest, 0) == Some((SpecToken::Integer(n as i64), decimal(n).len() as int)),
{
    let d = decimal(n);
    let s = d + rest;
    lemma_decimal_value(n);
    let digit = |x: char| is_digit(x);
    assert forall|k: int| 0 <= k < d.len() implies #[trigger] digit(s[k]) by {
        assert(s[k] == d[k]);
    }
    if rest.len() > 0 {
        assert(s[d.len() as int] == rest[0]);
    }
    lemma_run_exact(s, 0, d.len() as int, digit);
    lemma_dec_value_same(s, d, 0, d.len() as int);
    assert(s[0] == d[0]);
    assert(is_digit(s[0]));
}

/// A string literal reads its characters as they are written, up to the
/// closing quote: a body without quotes or backslashes followed by `'` is
/// read as exactly that body, and a backslash before `n`, `t`, `\\` or `'`
/// stands for a line feed, a tab, a backslash or a quote.
pub proof fn lemma_string_literal(x: Seq<char>, rest: Seq<char>, c: char)
    requires
        forall|k: int| 0 <= k < x.len() ==> #[trigger] x[k] != '\'' && x[k] != '\\',
    ensures
        string_tail(x + seq!['\''] + rest, 0) == Some((x.len() as int + 1, x)),
        c == 'n' ==> escape_seq(c) == seq!['\n'],
        c == 't' ==> escape_seq(c) == seq!['\t'],
        c == '\\' ==> escape_seq(c) == seq!['\\'],
        c == '\'' ==> escape_seq(c) == seq!['\''],
        string_tail(seq!['\\', '\''] + x + seq!['\''] + rest, 0) == Some((x.len() as int + 3, seq!['\''] + x)),
    decreases x.len(),
{
    let s = x + seq!['\''] + rest;
    if x.len() == 0 {
        assert(s[0] == '\'');
    } else {
        let y = x.drop_first();
        lemma_string_literal(y, rest, c);
        let t = y + seq!['\''] + rest;
        assert(s[0] == x[0]);
        assert forall|k: int| 0 <= k < s.len() - 1 implies #[trigger] s[k + 1] == t[k] by {
            if k < y.len() {
                assert(s[k + 1] == x[k + 1]);
            }
        }
        lemma_string_tail_shift(s, t, 0);
        assert(seq![x[0]] + y =~= x);
    }
    let u = seq!['\\', '\''] + x + seq!['\''] + rest;
    assert(u[0] == '\\' && u[1] == '\'');
    assert(u.subrange(2, u.len() as int) =~= s);
    lemma_string_tail_skip(u, s, 2);
}

/// Reading a string literal body one character later reads the same.
proof fn lemma_string_tail_shift(s: Seq<char>, t: Seq<char>, j: int)
    requires
        s.len() == t.len() + 1,
        0 <= j,
        forall|k: int| 0 <= k < s.len() - 1 ==> #[trigger] s[k + 1] == t[k],
    ensures
        string_tail(s, j + 1) == match string_tail(t, j) {
            Some((e, c)) => Some((e + 1, c)),
            None => None,
        },
    decreases t.len() - j,
{
    if j < t.len() {
        assert(s[j + 1] == t[j]);
        if t[j] == '\\' {
            if j + 1 < t.len() {
                assert(s[j + 2] == t[j + 1]);
                lemma_string_tail_shift(s, t, j + 2);
            }
        } else if t[j] != '\'' {
            lemma_string_tail_shift(s, t, j + 1);
        }
    }
}

/// Reading a string literal body from `j` in `u` reads as from 0 in its
/// suffix from `j` on, with positions shifted by `j`.
proof fn lemma_string_tail_skip(u: Seq<char>, s: Seq<char>, j: int)
    requires
        0 <= j <= u.len(),
        s == u.subrange(j, u.len() as int),
    ensures
        string_tail(u, j) == match string_tail(s, 0) {
            Some((e, c)) => Some((e + j, c)),
            None => None,
        },
{
    lemma_string_tail_offset(u, s, j, 0);
}

proof fn lemma_string_tail_offset(u: Seq<char>, s: Seq<char>, j: int, i: int)
    requires
        0 <= j <= u.len(),
        0 <= i,
        s == u.subrange(j, u.len() as int),
    ensures
        string_tail(u, j + i) == match string_tail(s, i) {
            Some((e, c)) => Some((e + j, c)),
            None => None,
        },
    decreases s.len() - i,
{
    if i < s.len() {
        assert(u[j + i] == s[i]);
        if s[i] == '\\' {
            if i + 1 < s.len() {
                assert(u[j + i + 1] == s[i + 1]);
                lemma_string_tail_offset(u, s, j, i + 2);
            }
        } else if s[i] != '\'' {
            lemma_string_tail_offset(u, s, j, i + 1);
        }
    }
}

/// How an operator token is written.
pub open spec fn operator_symbol(t: SpecToken) -> Seq<char> {
    match t {
        SpecToken::Eq => seq!['='],
        SpecToken::NotEqual => seq!['<', '>'],
        SpecToken::BangEqual => seq!['!', '='],
        SpecToken::Less => seq!['<'],
        SpecToken::LessEqual => seq!['<', '='],
        SpecToken::Greater => seq!['>'],
        SpecToken::GreaterEqual => seq!['>', '='],
        SpecToken::Plus => seq!['+'],
        SpecToken::Minus => seq!['-'],
        SpecToken::Star => seq!['*'],
        SpecToken::Slash => seq!['/'],
        SpecToken::Percent => seq!['%'],
        _ => Seq::empty(),
    }
}

/// The lexer reads each operator as written: its symbol, followed by the
/// end of the text or a space, is read as that operator token, spanning
/// exactly the symbol (so `<=` is read as less-or-equal, not as `<`).
pub proof fn lemma_scan_operator(t: SpecToken, rest: Seq<char>)
    requires
        operator_symbol(t).len() > 0,
        rest.len() == 0 || rest[0] == ' ',
    ensures
        scan(operator_symbol(t) + rest, 0) == Some((t, operator_symbol(t).len() as int)),
{
    let w = operator_symbol(t);
    let s = w + rest;
    assert(s[0] == w[0]);
    if w.len() == 2 {
        assert(s[1] == w[1]);
    } else if rest.len() > 0 {
        assert(s[1] == rest[0]);
    }
}

} // verus!
