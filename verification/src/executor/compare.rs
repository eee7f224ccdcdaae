//! Comparison of values by a comparison operator: integers (numbers and
//! timestamps) and strings.

use vstd::prelude::*;
use crate::parser::ast::BinaryOp;
use crate::text::{chars_of, str_equals};

verus! {

/// The truth of `a op b` for a comparison operator; false for any other
/// operator.
pub open spec fn compares(a: i64, b: i64, op: BinaryOp) -> bool {
    match op {
        BinaryOp::Eq => a == b,
        BinaryOp::Neq => a != b,
        BinaryOp::Lt => a < b,
        BinaryOp::Lte => a <= b,
        BinaryOp::Gt => a > b,
        BinaryOp::Gte => a >= b,
        _ => false,
    }
}

/// Compares two integer values (numbers and timestamps) with the given
/// operation.
pub fn cmp_ord(a: &i64, b: &i64, op: BinaryOp) -> (r: bool)
    ensures
        r == compares(*a, *b, op),
{
    match op {
        BinaryOp::Eq => *a == *b,
        BinaryOp::Neq => *a != *b,
        BinaryOp::Lt => *a < *b,
        BinaryOp::Lte => *a <= *b,
        BinaryOp::Gt => *a > *b,
        BinaryOp::Gte => *a >= *b,
        _ => false,
    }
}

/// `a` comes before `b` in the order of strings: at the first position
/// where they differ, `a` has the smaller character, or `a` is a proper
/// prefix of `b`. (Comparing UTF-8 bytes gives the same order, as UTF-8
/// keeps the order of code points.)
pub open spec fn text_before(a: Seq<char>, b: Seq<char>) -> bool
    decreases a.len(),
{
    if a.len() == 0 {
        b.len() > 0
    } else if b.len() == 0 {
        false
    } else if a[0] != b[0] {
        a[0] < b[0]
    } else {
        text_before(a.drop_first(), b.drop_first())
    }
}

/// The truth of `a op b` on strings for a comparison operator; false for
/// any other operator.
pub open spec fn compares_text(a: Seq<char>, b: Seq<char>, op: BinaryOp) -> bool {
    match op {
        BinaryOp::Eq => a == b,
        BinaryOp::Neq => a != b,
        BinaryOp::Lt => text_before(a, b),
        BinaryOp::Lte => text_before(a, b) || a == b,
        BinaryOp::Gt => text_before(b, a),
        BinaryOp::Gte => text_before(b, a) || a == b,
        _ => false,
    }
}

/// Whether the characters `a` come before the characters `b`.
fn chars_before(a: &Vec<char>, b: &Vec<char>) -> (r: bool)
    ensures
        r == text_before(a@, b@),
{
    let mut i: usize = 0;
    assert(a@.skip(0) =~= a@ && b@.skip(0) =~= b@);
    while i < a.len() && i < b.len() && a[i] == b[i]
        invariant
            i <= a@.len(),
            i <= b@.len(),
            text_before(a@, b@) == text_before(a@.skip(i as int), b@.skip(i as int)),
        decreases a.len() - i,
    {
        proof {
            assert(a@.skip(i as int).drop_first() =~= a@.skip(i + 1));
            assert(b@.skip(i as int).drop_first() =~= b@.skip(i + 1));
        }
        i = i + 1;
    }
    assert(a@.skip(i as int).len() == a@.len() - i && b@.skip(i as int).len() == b@.len() - i);
    assert(i < a@.len() ==> a@.skip(i as int)[0] == a@[i as int]);
    assert(i < b@.len() ==> b@.skip(i as int)[0] == b@[i as int]);
    if i == a.len() {
        i < b.len()
    } else if i == b.len() {
        false
    } else {
        a[i] < b[i]
    }
}

/// Compares two strings with the given operation.
pub fn cmp_str(a: &str, b: &str, op: BinaryOp) -> (r: bool)
    ensures
        r == compares_text(a@, b@, op),
{
    let ca = chars_of(a);
    let cb = chars_of(b);
    match op {
        BinaryOp::Eq => str_equals(a, b),
        BinaryOp::Neq => !str_equals(a, b),
        BinaryOp::Lt => chars_before(&ca, &cb),
        BinaryOp::Lte => chars_before(&ca, &cb) || str_equals(a, b),
        BinaryOp::Gt => chars_before(&cb, &ca),
        BinaryOp::Gte => chars_before(&cb, &ca) || str_equals(a, b),
        _ => false,
    }
}

/// The order of strings compares single characters by their code points,
/// puts a proper prefix first, and, past a common first character, goes by
/// the rest; it is a strict order that ranks any two different strings.
pub proof fn lemma_text_order(c: char, d: char, a: Seq<char>, b: Seq<char>)
    ensures
        text_before(seq![c], seq![d]) == (c < d),
        b.len() > 0 ==> text_before(a, a + b),
        !text_before(a, a),
        text_before(seq![c] + a, seq![c] + b) == text_before(a, b),
        a != b ==> text_before(a, b) || text_before(b, a),
        !(text_before(a, b) && text_before(b, a)),
    decreases a.len(),
{
    assert(seq![c].drop_first() =~= Seq::<char>::empty());
    assert(seq![d].drop_first() =~= Seq::<char>::empty());
    assert(!text_before(Seq::<char>::empty(), Seq::<char>::empty()));
    assert((seq![c] + a).drop_first() =~= a);
    assert((seq![c] + b).drop_first() =~= b);
    if a.len() > 0 {
        assert((a + b).drop_first() =~= a.drop_first() + b);
        assert((a + b)[0] == a[0]);
        lemma_text_order(c, d, a.drop_first(), b);
        if b.len() > 0 {
            lemma_text_order(c, d, a.drop_first(), b.drop_first());
            if a[0] == b[0] && a.drop_first() == b.drop_first() {
                assert forall|i: int| 0 <= i < a.len() implies a[i] == b[i] by {
                    if i > 0 {
                        assert(a[i] == a.drop_first()[i - 1]);
                        assert(b[i] == b.drop_first()[i - 1]);
                    }
                }
                assert(a =~= b);
            }
        }
    }
}

} // verus!
