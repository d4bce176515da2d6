//! Character-level groundwork: turning text into character vectors, the
//! lexicographic order on character sequences used for path tie-breaks, and
//! the lossy decoding of raw file bytes.

use vstd::prelude::*;
use vstd::string::*;
use vstd::utf8::{decode_utf8, valid_utf8};

verus! {

broadcast use vstd::string::group_string_axioms, vstd::utf8::char_is_scalar, vstd::utf8::char_u32_cast;

/// What `String::from_utf8_lossy` returns: a decoding that depends on the
/// bytes alone, so the same bytes always decode to the same characters.
pub uninterp spec fn lossy_decoded(bytes: Seq<u8>) -> Seq<char>;

/// Relies on `String::from_utf8_lossy`: it decodes the bytes as UTF-8 and
/// replaces invalid sequences instead of failing, and its documentation
/// promises that valid UTF-8 input decodes exactly.
#[verifier::external_body]
pub(crate) fn lossy_decode(bytes: &Vec<u8>) -> (s: String)
    ensures
        s@ == lossy_decoded(bytes@),
        valid_utf8(bytes@) ==> s@ == decode_utf8(bytes@),
{
    String::from_utf8_lossy(bytes).into_owned()
}

/// Collects the characters of a string slice into a vector.
pub fn chars_to_vec(s: &str) -> (v: Vec<char>)
    ensures
        v@ == s@,
{
    let mut v: Vec<char> = Vec::new();
    for c in it: s.chars()
        invariant
            it.seq() == s@,
            v@ == it.seq().subrange(0, it.index() as int),
    {
        v.push(c);
    }
    proof {
        assert(v@ =~= s@);
    }
    v
}

/// Strict lexicographic order on character sequences, by code point.
pub open spec fn chars_lt(a: Seq<char>, b: Seq<char>) -> bool
    decreases a.len(),
{
    if b.len() == 0 {
        false
    } else if a.len() == 0 {
        true
    } else if a[0] != b[0] {
        (a[0] as u32) < (b[0] as u32)
    } else {
        chars_lt(a.drop_first(), b.drop_first())
    }
}

/// Reflexive closure of [`chars_lt`].
pub open spec fn chars_le(a: Seq<char>, b: Seq<char>) -> bool {
    chars_lt(a, b) || a == b
}

/// Of two distinct character sequences, exactly one precedes the other;
/// no sequence precedes itself.
pub proof fn lemma_chars_lt_trichotomy(a: Seq<char>, b: Seq<char>)
    ensures
        a == b ==> !chars_lt(a, b),
        a != b ==> (chars_lt(a, b) <==> !chars_lt(b, a)),
    decreases a.len(),
{
    if a == b {
        if a.len() != 0 {
            assert(a[0] == b[0]);
            assert(a.drop_first() == b.drop_first());
            lemma_chars_lt_trichotomy(a.drop_first(), b.drop_first());
        }
    } else {
        if a.len() == 0 || b.len() == 0 {
            if a.len() == 0 && b.len() == 0 {
                assert(a =~= b);
            }
        } else if a[0] != b[0] {
            assert((a[0] as u32) != (b[0] as u32)) by {
                vstd::utf8::char_u32_cast(a[0], a[0] as u32);
                vstd::utf8::char_u32_cast(b[0], b[0] as u32);
            }
        } else {
            assert(a.drop_first() != b.drop_first()) by {
                if a.drop_first() == b.drop_first() {
                    assert(a.drop_first().len() == b.drop_first().len());
                    assert(a.len() == b.len());
                    assert forall|i: int| 0 <= i < a.len() implies a[i] == b[i] by {
                        if i > 0 {
                            assert(a[i] == a.drop_first()[i - 1]);
                            assert(b[i] == b.drop_first()[i - 1]);
                        }
                    }
                    assert(a =~= b);
                }
            }
            lemma_chars_lt_trichotomy(a.drop_first(), b.drop_first());
        }
    }
}

/// The lexicographic order is transitive.
pub proof fn lemma_chars_lt_trans(a: Seq<char>, b: Seq<char>, c: Seq<char>)
    requires
        chars_lt(a, b),
        chars_lt(b, c),
    ensures
        chars_lt(a, c),
    decreases a.len(),
{
    if a.len() == 0 {
    } else {
        if a[0] == b[0] && b[0] == c[0] {
            lemma_chars_lt_trans(a.drop_first(), b.drop_first(), c.drop_first());
        }
    }
}

/// Compares two strings in the lexicographic character order.
pub fn str_lt(a: &str, b: &str) -> (r: bool)
    ensures
        r == chars_lt(a@, b@),
{
    let av = chars_to_vec(a);
    let bv = chars_to_vec(b);
    chars_vec_lt(&av, &bv)
}

/// Compares two character vectors in the lexicographic order.
pub fn chars_vec_lt(a: &Vec<char>, b: &Vec<char>) -> (r: bool)
    ensures
        r == chars_lt(a@, b@),
{
    let mut i: usize = 0;
    proof {
        assert(a@.skip(0) =~= a@);
        assert(b@.skip(0) =~= b@);
    }
    loop
        invariant
            i <= a@.len(),
            i <= b@.len(),
            chars_lt(a@, b@) == chars_lt(a@.skip(i as int), b@.skip(i as int)),
        decreases a@.len() - i,
    {
        if i == b.len() {
            proof {
                assert(b@.skip(i as int).len() == 0);
            }
            return false;
        }
        if i == a.len() {
            proof {
                assert(a@.skip(i as int).len() == 0);
                assert(b@.skip(i as int).len() > 0);
            }
            return true;
        }
        let ca = a[i];
        let cb = b[i];
        proof {
            assert(a@.skip(i as int)[0] == a@[i as int]);
            assert(b@.skip(i as int)[0] == b@[i as int]);
        }
        if ca != cb {
            return (ca as u32) < (cb as u32);
        }
        proof {
            assert(a@.skip(i as int).drop_first() =~= a@.skip(i + 1));
            assert(b@.skip(i as int).drop_first() =~= b@.skip(i + 1));
        }
        i = i + 1;
    }
}

} // verus!
