//! The checksum of a descriptor, and what becomes of a text with one.

use crate::descriptor::checksum::{
    absorb, absorb_zeros, char_values, checked_descriptor, checksum_charset, checksum_of,
    checksum_text, first_invalid_char, first_unprintable, input_charset, poly_step,
};
use crate::error::ErrorView;
use vstd::prelude::*;
use vstd::utf8::encode_utf8;

verus! {

/// The characters that descriptors and checksums are made of.
pub proof fn law_charsets()
    ensures
        input_charset()
            == "0123456789()[],'/*abcdefgh@:$%{}IJKLMNOPQRSTUVWXYZ&+-.;<=>?!^_|~ijklmnopqrstuvwxyzABCDEFGH`#\"\\ "@,
        checksum_charset() == "qpzry9x8gf2tvdw0s3jn54khce6mua7l"@,
{
}

/// The value of a character is its place among the characters that descriptors are made of.
pub proof fn law_char_values(s: Seq<char>, i: int, v: int)
    requires
        0 <= i < s.len(),
        0 <= v < input_charset().len(),
        input_charset()[v] == s[i],
        forall|j: int| 0 <= j < v ==> #[trigger] input_charset()[j] != s[i],
    ensures
        char_values(s).len() == s.len(),
        char_values(s)[i] == v,
{
    input_charset().index_of_first_ensures(s[i]);
    assert(input_charset().contains(s[i]));
}

/// A step of the code moves the low 35 bits up by five, adds the new value, and adds, for each of
/// the five bits above them, a constant of its own.
pub proof fn law_poly_step(c: u64, val: u64)
    ensures
        poly_step(c, val) == (c & 0x7_ffff_ffff) << 5 ^ val ^ (if c & 0x8_0000_0000 != 0 {
            0xf5_dee5_1989
        } else {
            0u64
        }) ^ (if c & 0x10_0000_0000 != 0 {
            0xa9_fdca_3312
        } else {
            0u64
        }) ^ (if c & 0x20_0000_0000 != 0 {
            0x1b_ab10_e32d
        } else {
            0u64
        }) ^ (if c & 0x40_0000_0000 != 0 {
            0x37_06b1_677a
        } else {
            0u64
        }) ^ (if c & 0x80_0000_0000 != 0 {
            0x64_4d62_6ffd
        } else {
            0u64
        }),
{
    assert((c >> 35) & 1 != 0 <==> c & 0x8_0000_0000 != 0) by (bit_vector);
    assert((c >> 35) & 2 != 0 <==> c & 0x10_0000_0000 != 0) by (bit_vector);
    assert((c >> 35) & 4 != 0 <==> c & 0x20_0000_0000 != 0) by (bit_vector);
    assert((c >> 35) & 8 != 0 <==> c & 0x40_0000_0000 != 0) by (bit_vector);
    assert((c >> 35) & 16 != 0 <==> c & 0x80_0000_0000 != 0) by (bit_vector);
    assert(forall|x: u64| #[trigger] (x ^ 0u64) == x) by (bit_vector);
}

/// Three characters are taken up by their low bits one by one, and by their high bits together.
/// One or two at the end of a text are taken up the same way, for want of more.
pub proof fn law_absorb(c: u64, x: nat, y: nat, z: nat, rest: Seq<nat>)
    ensures
        absorb(c, Seq::<nat>::empty()) == c,
        absorb(c, seq![x]) == poly_step(poly_step(c, (x % 32) as u64), (x / 32) as u64),
        absorb(c, seq![x, y]) == poly_step(
            poly_step(poly_step(c, (x % 32) as u64), (y % 32) as u64),
            (x / 32 * 3 + y / 32) as u64,
        ),
        absorb(c, seq![x, y, z] + rest) == absorb(
            poly_step(
                poly_step(
                    poly_step(poly_step(c, (x % 32) as u64), (y % 32) as u64),
                    (z % 32) as u64,
                ),
                ((x / 32 * 3 + y / 32) * 3 + z / 32) as u64,
            ),
            rest,
        ),
{
    let s = seq![x, y, z] + rest;
    assert(s[0] == x && s[1] == y && s[2] == z);
    assert(s.skip(3) =~= rest);
}

/// The checksum is eight characters of five bits each, the highest first, of what is left when
/// the text and then eight zeros have been taken up.
pub proof fn law_checksum_text(s: Seq<char>, j: int)
    ensures
        checksum_text(s).len() == 8,
        0 <= j < 8 ==> {
            let a = absorb(1, char_values(s));
            let b = poly_step(poly_step(poly_step(poly_step(a, 0), 0), 0), 0);
            let c = poly_step(poly_step(poly_step(poly_step(b, 0), 0), 0), 0);
            checksum_text(s)[j] == checksum_charset()[(((c ^ 1) >> ((35 - 5 * j) as u64))
                & 31) as int]
        },
{
    reveal_with_fuel(absorb_zeros, 9);
}

/// The first character that is not among the permitted ones is refused.
proof fn lemma_invalid_char(p: Seq<char>, c: char, rest: Seq<char>)
    requires
        forall|i: int| 0 <= i < p.len() ==> input_charset().contains(#[trigger] p[i]),
    ensures
        first_invalid_char(p) is None,
        !input_charset().contains(c) ==> first_invalid_char(p + seq![c] + rest) == Some(c),
    decreases p.len(),
{
    let s = p + seq![c] + rest;
    if p.len() > 0 {
        let q = p.skip(1);
        assert(input_charset().contains(p[0]));
        assert forall|i: int| 0 <= i < q.len() implies input_charset().contains(
            #[trigger] q[i],
        ) by {
            assert(q[i] == p[i + 1]);
        }
        lemma_invalid_char(q, c, rest);
        assert(s.skip(1) =~= q + seq![c] + rest);
        assert(s[0] == p[0]);
    } else {
        assert(s[0] == c);
    }
}

/// A text of permitted characters has a checksum. The first character that is not permitted is
/// what another text is refused for.
pub proof fn law_checksum_of(p: Seq<char>, c: char, rest: Seq<char>)
    requires
        forall|i: int| 0 <= i < p.len() ==> input_charset().contains(#[trigger] p[i]),
    ensures
        checksum_of(p) == Ok::<Seq<char>, ErrorView>(checksum_text(p)),
        !input_charset().contains(c) ==> checksum_of(p + seq![c] + rest) == Err::<
            Seq<char>,
            ErrorView,
        >(ErrorView::BadDescriptor("Invalid character in checksum: '"@ + seq![c] + "'"@)),
{
    lemma_invalid_char(p, c, rest);
}

/// The first byte out of range is found.
proof fn lemma_unprintable(p: Seq<u8>, b: u8, rest: Seq<u8>)
    requires
        forall|i: int| 0 <= i < p.len() ==> 20 <= #[trigger] p[i] <= 127,
    ensures
        first_unprintable(p) is None,
        b < 20 || b > 127 ==> first_unprintable(p + seq![b] + rest) == Some(b),
    decreases p.len(),
{
    let s = p + seq![b] + rest;
    if p.len() > 0 {
        let q = p.skip(1);
        assert(20 <= p[0] <= 127);
        assert forall|i: int| 0 <= i < q.len() implies 20 <= #[trigger] q[i] <= 127 by {
            assert(q[i] == p[i + 1]);
        }
        lemma_unprintable(q, b, rest);
        assert(s.skip(1) =~= q + seq![b] + rest);
        assert(s[0] == p[0]);
    } else {
        assert(s[0] == b);
    }
}

/// A text is refused for its first byte that is below 20 or above 127.
pub proof fn law_unprintable_byte(s: Seq<char>, p: Seq<u8>, b: u8, rest: Seq<u8>)
    requires
        encode_utf8(s) == p + seq![b] + rest,
        forall|i: int| 0 <= i < p.len() ==> 20 <= #[trigger] p[i] <= 127,
        b < 20 || b > 127,
    ensures
        checked_descriptor(s) == Err::<Seq<char>, ErrorView>(ErrorView::Unprintable(b)),
{
    lemma_unprintable(p, b, rest);
}

/// A text without a number sign is taken as it is. What stands behind the first number sign has
/// to be the checksum of what stands before it, which alone is then taken.
pub proof fn law_checked_text(desc: Seq<char>, sum: Seq<char>)
    requires
        !desc.contains('#'),
    ensures
        (forall|i: int|
            0 <= i < encode_utf8(desc).len() ==> 20 <= #[trigger] encode_utf8(desc)[i] <= 127)
            ==> checked_descriptor(desc) == Ok::<Seq<char>, ErrorView>(desc),
        (forall|i: int|
            0 <= i < encode_utf8(desc + seq!['#'] + sum).len() ==> 20 <= #[trigger] encode_utf8(
                desc + seq!['#'] + sum,
            )[i] <= 127) ==> checked_descriptor(desc + seq!['#'] + sum) == (match checksum_of(
            desc,
        ) {
            Ok(right) => if sum == right {
                Ok::<Seq<char>, ErrorView>(desc)
            } else {
                Err(
                    ErrorView::BadDescriptor(
                        "Invalid checksum '"@ + sum + "', expected '"@ + right + "'"@,
                    ),
                )
            },
            Err(e) => Err(e),
        }),
{
    let full = desc + seq!['#'] + sum;
    let n = desc.len() as int;
    desc.index_of_first_ensures('#');
    full.index_of_first_ensures('#');
    assert(full[n] == '#');
    assert(full.contains('#'));
    assert forall|i: int| 0 <= i < n implies full[i] != '#' by {
        assert(full[i] == desc[i]);
        assert(desc.contains(desc[i]));
    }
    assert(full.take(n) =~= desc);
    assert(full.skip(n + 1) =~= sum);
    if forall|i: int|
        0 <= i < encode_utf8(desc).len() ==> 20 <= #[trigger] encode_utf8(desc)[i] <= 127 {
        lemma_unprintable(encode_utf8(desc), 0, Seq::empty());
    }
    if forall|i: int|
        0 <= i < encode_utf8(full).len() ==> 20 <= #[trigger] encode_utf8(full)[i] <= 127 {
        lemma_unprintable(encode_utf8(full), 0, Seq::empty());
    }
}

} // verus!
