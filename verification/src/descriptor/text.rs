//! Text and its encoding in bytes.

use vstd::prelude::*;
use vstd::string::StringSliceAdditionalSpecFns;
use vstd::utf8::{
    decode_first_scalar, encode_utf8, encode_utf8_decode_utf8, encode_utf8_first_scalar,
    is_ascii_chars, is_leading_byte_width_1, length_of_first_scalar, pop_first_scalar,
};

verus! {

/// The characters below 128 are those of ASCII.
proof fn lemma_ascii_char(c: char)
    requires
        (c as u32) < 0x80,
    ensures
        '\0' <= c <= '\u{7f}',
{
}

/// A text whose encoding has no byte outside ASCII is ASCII.
pub(crate) proof fn lemma_ascii_bytes(s: Seq<char>)
    requires
        forall|i: int| 0 <= i < encode_utf8(s).len() ==> (#[trigger] encode_utf8(s)[i]) < 0x80,
    ensures
        is_ascii_chars(s),
    decreases s.len(),
{
    if s.len() > 0 {
        let bytes = encode_utf8(s);
        encode_utf8_first_scalar(s);
        let b = bytes[0];
        assert(b < 0x80 ==> (b & 0x7f) == b) by (bit_vector);
        assert(bytes.len() > 0);
        assert(encode_utf8(s)[0] < 0x80);
        assert(is_leading_byte_width_1(b));
        assert(decode_first_scalar(bytes) == (b & 0x7f) as u32);
        assert(decode_first_scalar(bytes) < 0x80);
        lemma_ascii_char(s[0]);
        let rest = s.drop_first();
        assert(pop_first_scalar(bytes) =~= encode_utf8(rest));
        assert forall|i: int| 0 <= i < encode_utf8(rest).len() implies (#[trigger] encode_utf8(
            rest,
        )[i]) < 0x80 by {
            assert(encode_utf8(rest)[i] == bytes[i + length_of_first_scalar(bytes)]);
        }
        lemma_ascii_bytes(rest);
        assert forall|i: int| 0 <= i < s.len() implies '\0' <= #[trigger] s[i] <= '\u{7f}' by {
            if i > 0 {
                assert(s[i] == rest[i - 1]);
            }
        }
    }
}

/// Texts are equal if their encodings are.
pub(crate) proof fn lemma_same_bytes(a: Seq<char>, b: Seq<char>)
    requires
        encode_utf8(a) == encode_utf8(b),
    ensures
        a == b,
{
    encode_utf8_decode_utf8(a);
    encode_utf8_decode_utf8(b);
}

/// Whether two texts are the same.
pub(crate) fn str_eq(a: &str, b: &str) -> (r: bool)
    ensures
        r == (a@ == b@),
{
    let x = a.as_bytes();
    let y = b.as_bytes();
    if x.len() != y.len() {
        return false;
    }
    let mut i: usize = 0;
    while i < x.len()
        invariant
            x@ == a.spec_bytes(),
            y@ == b.spec_bytes(),
            x@.len() == y@.len(),
            i <= x@.len(),
            forall|j: int| 0 <= j < i ==> x@[j] == y@[j],
        decreases x@.len() - i,
    {
        if x[i] != y[i] {
            return false;
        }
        i += 1;
    }
    proof {
        assert(x@ =~= y@);
        lemma_same_bytes(a@, b@);
    }
    true
}

} // verus!
