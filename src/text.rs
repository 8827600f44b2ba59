//! Small verified helpers on text, shared by the record format and the
//! storage layer.

use vstd::prelude::*;
use vstd::std_specs::iter::IteratorSpec;
use vstd::utf8::{encode_scalar, encode_utf8};

verus! {

broadcast use vstd::string::group_string_axioms;

/// Relies on `String::push`: appends one character.
#[verifier::external_body]
pub(crate) fn push_char(s: &mut String, c: char)
    ensures
        final(s)@ == old(s)@.push(c),
{
    s.push(c)
}

/// Relies on `str`'s `==`: equal exactly when the characters are equal.
#[verifier::external_body]
pub(crate) fn str_eq(a: &str, b: &str) -> (r: bool)
    ensures
        r == (a@ == b@),
{
    a == b
}

/// The characters of `s`, in order.
pub(crate) fn chars_of(s: &str) -> (r: Vec<char>)
    ensures
        r@ == s@,
{
    let mut out: Vec<char> = Vec::new();
    let mut it = s.chars();
    loop
        invariant
            out@ + it.remaining() == s@,
            it.decrease() is Some,
        ensures
            out@ == s@,
        decreases it.decrease()->0,
    {
        match it.next() {
            Some(c) => {
                out.push(c);
            },
            None => {
                assert(out@ + it.remaining() == out@);
                break ;
            },
        }
    }
    out
}

/// A string holding the characters of `v`, in order.
pub(crate) fn string_of(v: &Vec<char>) -> (r: String)
    ensures
        r@ == v@,
{
    let mut s = String::new();
    let mut i: usize = 0;
    while i < v.len()
        invariant
            i <= v.len(),
            s@ == v@.take(i as int),
        decreases v.len() - i,
    {
        push_char(&mut s, v[i]);
        assert(v@.take(i + 1) == v@.take(i as int).push(v@[i as int]));
        i = i + 1;
    }
    assert(v@.take(v.len() as int) == v@);
    s
}

/// A string holding `v[from..to]`.
pub(crate) fn string_of_range(v: &Vec<char>, from: usize, to: usize) -> (r: String)
    requires
        from <= to <= v.len(),
    ensures
        r@ == v@.subrange(from as int, to as int),
{
    let mut s = String::new();
    let mut i: usize = from;
    while i < to
        invariant
            from <= i <= to <= v.len(),
            s@ == v@.subrange(from as int, i as int),
        decreases to - i,
    {
        push_char(&mut s, v[i]);
        assert(v@.subrange(from as int, i + 1) == v@.subrange(from as int, i as int).push(
            v@[i as int],
        ));
        i = i + 1;
    }
    s
}

/// UTF-8 encodes a concatenation piece by piece.
pub proof fn lemma_encode_concat(a: Seq<char>, b: Seq<char>)
    ensures
        encode_utf8(a + b) == encode_utf8(a) + encode_utf8(b),
    decreases a.len(),
{
    if a.len() == 0 {
        assert(a + b =~= b);
        assert(encode_utf8(a) + encode_utf8(b) =~= encode_utf8(b));
    } else {
        assert((a + b).drop_first() =~= a.drop_first() + b);
        assert((a + b)[0] == a[0]);
        lemma_encode_concat(a.drop_first(), b);
        assert(encode_utf8(a + b) =~= encode_utf8(a) + encode_utf8(b));
    }
}

/// Only a line break encodes to the line break byte: the UTF-8 of a text
/// without one has no byte 10.
pub proof fn lemma_encode_no_break(t: Seq<char>)
    requires
        !t.contains('\n'),
    ensures
        !encode_utf8(t).contains(10u8),
    decreases t.len(),
{
    if t.len() > 0 {
        let c = t[0];
        assert(c != '\n');
        assert(!t.drop_first().contains('\n')) by {
            if t.drop_first().contains('\n') {
                let k = choose|k: int| 0 <= k < t.drop_first().len() && t.drop_first()[k] == '\n';
                assert(t[k + 1] == '\n');
            }
        }
        lemma_encode_no_break(t.drop_first());
        let e = encode_scalar(c as u32);
        assert(forall|y: u8| (0x80u8 | y) != 10u8) by (bit_vector);
        assert(forall|y: u8| (0xC0u8 | y) != 10u8) by (bit_vector);
        assert(forall|y: u8| (0xE0u8 | y) != 10u8) by (bit_vector);
        assert(forall|y: u8| (0xF0u8 | y) != 10u8) by (bit_vector);
        assert(forall|u: u32| u <= 0x7F && u != 10 ==> ((u & 0x7F) as u8) != 10u8) by (bit_vector);
        let u = c as u32;
        vstd::utf8::char_is_scalar(c);
        vstd::utf8::char_u32_cast(c, u);
        vstd::utf8::char_u32_cast('\n', '\n' as u32);
        assert(u != 10u32);
        assert(forall|k: int| 0 <= k < e.len() ==> e[k] != 10u8) by {
            if vstd::utf8::has_width_1_encoding(u) {
                assert(e[0] == (u & 0x7F) as u8);
            }
        }
        assert(!e.contains(10u8));
        let whole = encode_utf8(t);
        assert(whole == e + encode_utf8(t.drop_first()));
        assert(!whole.contains(10u8)) by {
            if whole.contains(10u8) {
                let k = choose|k: int| 0 <= k < whole.len() && whole[k] == 10u8;
                if k < e.len() {
                    assert(e[k] == 10u8);
                } else {
                    assert(encode_utf8(t.drop_first())[k - e.len()] == 10u8);
                }
            }
        }
    }
}

} // verus!
