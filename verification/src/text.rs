//! Character-level helpers shared by the lexer, the parser and the executor:
//! turning a `str` into its characters, UTF-8 byte offsets of character
//! positions, string equality and decimal rendering of numbers.

use vstd::prelude::*;

verus! {

broadcast use vstd::utf8::char_is_scalar;

/// Number of bytes in the UTF-8 encoding of `c`.
pub open spec fn utf8_width(c: char) -> nat {
    let u = c as u32;
    if u < 0x80 {
        1
    } else if u < 0x800 {
        2
    } else if u < 0x10000 {
        3
    } else {
        4
    }
}

/// UTF-8 byte offset of character position `i` in `s`.
pub open spec fn byte_pos(s: Seq<char>, i: int) -> nat
    decreases i,
{
    if i <= 0 {
        0
    } else {
        byte_pos(s, i - 1) + utf8_width(s[i - 1])
    }
}

/// Byte offsets never decrease along the character positions.
pub(crate) proof fn lemma_byte_pos_monotone(s: Seq<char>, i: int, j: int)
    requires
        i <= j,
    ensures
        byte_pos(s, i) <= byte_pos(s, j),
    decreases j - i,
{
    if i < j {
        lemma_byte_pos_monotone(s, i, j - 1);
    }
}

proof fn lemma_width_is_encoding_len(c: char)
    ensures
        utf8_width(c) == vstd::utf8::encode_scalar(c as u32).len(),
{
    assert(vstd::utf8::is_scalar(c as u32));
}

/// The byte offset of the end of `s` is the length of its UTF-8 encoding.
pub(crate) proof fn lemma_byte_pos_total(s: Seq<char>)
    ensures
        byte_pos(s, s.len() as int) == vstd::utf8::encode_utf8(s).len(),
{
    lemma_byte_pos_suffix(s, s.len() as int);
    assert(s.skip(s.len() as int) =~= Seq::<char>::empty());
}

proof fn lemma_byte_pos_suffix(s: Seq<char>, i: int)
    requires
        0 <= i <= s.len(),
    ensures
        byte_pos(s, i) + vstd::utf8::encode_utf8(s.skip(i)).len() == vstd::utf8::encode_utf8(
            s,
        ).len(),
    decreases i,
{
    if i == 0 {
        assert(s.skip(0) =~= s);
    } else {
        lemma_byte_pos_suffix(s, i - 1);
        let t = s.skip(i - 1);
        assert(t.drop_first() =~= s.skip(i));
        lemma_width_is_encoding_len(s[i - 1]);
    }
}

/// Byte width of one character.
pub(crate) fn char_width(c: char) -> (w: usize)
    ensures
        w == utf8_width(c),
        1 <= w <= 4,
{
    let u = c as u32;
    if u < 0x80 {
        1
    } else if u < 0x800 {
        2
    } else if u < 0x10000 {
        3
    } else {
        4
    }
}

/// The characters of `s`, in order.
pub(crate) fn chars_of(s: &str) -> (v: Vec<char>)
    ensures
        v@ == s@,
{
    let n = s.unicode_len();
    let mut v: Vec<char> = Vec::new();
    let mut i: usize = 0;
    while i < n
        invariant
            n == s@.len(),
            i <= n,
            v@ == s@.subrange(0, i as int),
        decreases n - i,
    {
        let c = s.get_char(i);
        v.push(c);
        i = i + 1;
        assert(v@ =~= s@.subrange(0, i as int));
    }
    assert(s@.subrange(0, n as int) =~= s@);
    v
}

/// The number of bytes of `s`, together with the fact that it is the byte
/// offset of the end of `s`.
pub(crate) fn byte_len(s: &str) -> (n: usize)
    ensures
        n == byte_pos(s@, s@.len() as int),
{
    let b = s.as_bytes();
    proof {
        lemma_byte_pos_total(s@);
    }
    b.len()
}

/// Characters `from..to` of `s` as an owned `String`.
pub(crate) fn substring(s: &str, from: usize, to: usize) -> (r: String)
    requires
        from <= to <= s@.len(),
    ensures
        r@ == s@.subrange(from as int, to as int),
{
    let sub = s.substring_char(from, to);
    sub.to_owned()
}

/// True when the two strings hold the same characters.
pub(crate) fn str_equals(a: &str, b: &str) -> (r: bool)
    ensures
        r == (a@ == b@),
{
    let n = a.unicode_len();
    let m = b.unicode_len();
    if n != m {
        return false;
    }
    let mut i: usize = 0;
    while i < n
        invariant
            n == a@.len(),
            m == b@.len(),
            n == m,
            i <= n,
            forall|k: int| 0 <= k < i ==> a@[k] == b@[k],
        decreases n - i,
    {
        if a.get_char(i) != b.get_char(i) {
            return false;
        }
        i = i + 1;
    }
    assert(a@ =~= b@);
    true
}

/// The one-character string holding `c`.
///
/// Trusted: calls std's `ToString::to_string` on a `char`, which std documents
/// as the string made of that single character.
#[verifier::external_body]
pub(crate) fn char_to_string(c: char) -> (r: String)
    ensures
        r@ == seq![c],
{
    c.to_string()
}

/// The decimal digit character for `d < 10`.
pub open spec fn digit_char(d: nat) -> char {
    if d == 0 {
        '0'
    } else if d == 1 {
        '1'
    } else if d == 2 {
        '2'
    } else if d == 3 {
        '3'
    } else if d == 4 {
        '4'
    } else if d == 5 {
        '5'
    } else if d == 6 {
        '6'
    } else if d == 7 {
        '7'
    } else if d == 8 {
        '8'
    } else {
        '9'
    }
}

/// Decimal rendering of a natural number, without leading zeros.
pub open spec fn decimal(n: nat) -> Seq<char>
    decreases n,
{
    if n < 10 {
        seq![digit_char(n)]
    } else {
        decimal(n / 10).push(digit_char(n % 10))
    }
}

fn digit_str(d: u64) -> (r: &'static str)
    requires
        d < 10,
    ensures
        r@ == seq![digit_char(d as nat)],
{
    proof {
        reveal_strlit("0");
        reveal_strlit("1");
        reveal_strlit("2");
        reveal_strlit("3");
        reveal_strlit("4");
        reveal_strlit("5");
        reveal_strlit("6");
        reveal_strlit("7");
        reveal_strlit("8");
        reveal_strlit("9");
    }
    if d == 0 {
        "0"
    } else if d == 1 {
        "1"
    } else if d == 2 {
        "2"
    } else if d == 3 {
        "3"
    } else if d == 4 {
        "4"
    } else if d == 5 {
        "5"
    } else if d == 6 {
        "6"
    } else if d == 7 {
        "7"
    } else if d == 8 {
        "8"
    } else {
        "9"
    }
}

/// Appends the decimal rendering of `n` to `out`.
pub(crate) fn push_decimal(out: &mut String, n: u64)
    ensures
        final(out)@ == old(out)@ + decimal(n as nat),
    decreases n,
{
    if n < 10 {
        out.append(digit_str(n));
    } else {
        push_decimal(out, n / 10);
        out.append(digit_str(n % 10));
        assert(decimal(n as nat) == decimal((n / 10) as nat).push(digit_char((n % 10) as nat)));
    }
}

/// Builds a `String` from a string literal.
pub(crate) fn owned(s: &str) -> (r: String)
    ensures
        r@ == s@,
{
    s.to_owned()
}

} // verus!
