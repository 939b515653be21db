//! The checksum of a descriptor: eight characters behind a `#`.

use crate::descriptor::text::{lemma_ascii_bytes, str_eq};
use crate::error::{Error, ErrorView};
use vstd::prelude::*;
use vstd::std_specs::iter::IteratorSpec;
use vstd::string::{StrSliceExecFns, StringExecFns, StringSliceAdditionalSpecFns};
use vstd::utf8::encode_utf8;

verus! {

/// The characters that a descriptor can be made of, in the order of their values.
pub open spec fn input_charset() -> Seq<char> {
    "0123456789()[],'/*abcdefgh@:$%{}IJKLMNOPQRSTUVWXYZ&+-.;<=>?!^_|~ijklmnopqrstuvwxyzABCDEFGH`#\"\\ "@
}

/// The characters of a checksum, in the order of their values.
pub open spec fn checksum_charset() -> Seq<char> {
    "qpzry9x8gf2tvdw0s3jn54khce6mua7l"@
}

/// One step of the code over which the checksum is computed.
pub open spec fn poly_step(c: u64, val: u64) -> u64 {
    let c0 = c >> 35;
    let c1 = ((c & 0x7_ffff_ffff) << 5) ^ val;
    let c2 = if c0 & 1 != 0 { c1 ^ 0xf5_dee5_1989 } else { c1 };
    let c3 = if c0 & 2 != 0 { c2 ^ 0xa9_fdca_3312 } else { c2 };
    let c4 = if c0 & 4 != 0 { c3 ^ 0x1b_ab10_e32d } else { c3 };
    let c5 = if c0 & 8 != 0 { c4 ^ 0x37_06b1_677a } else { c4 };
    if c0 & 16 != 0 { c5 ^ 0x64_4d62_6ffd } else { c5 }
}

/// Takes up characters by their values: of each the low five bits, and of every three, and of
/// what is left at the end, the high bits together.
pub open spec fn absorb(c: u64, vals: Seq<nat>) -> u64
    decreases vals.len(),
{
    if vals.len() == 0 {
        c
    } else if vals.len() == 1 {
        poly_step(poly_step(c, (vals[0] % 32) as u64), (vals[0] / 32) as u64)
    } else if vals.len() == 2 {
        poly_step(
            poly_step(poly_step(c, (vals[0] % 32) as u64), (vals[1] % 32) as u64),
            (3 * (vals[0] / 32) + vals[1] / 32) as u64,
        )
    } else {
        absorb(
            poly_step(
                poly_step(
                    poly_step(poly_step(c, (vals[0] % 32) as u64), (vals[1] % 32) as u64),
                    (vals[2] % 32) as u64,
                ),
                (9 * (vals[0] / 32) + 3 * (vals[1] / 32) + vals[2] / 32) as u64,
            ),
            vals.skip(3),
        )
    }
}

/// Takes up `n` zeros.
pub open spec fn absorb_zeros(c: u64, n: nat) -> u64
    decreases n,
{
    if n == 0 {
        c
    } else {
        absorb_zeros(poly_step(c, 0), (n - 1) as nat)
    }
}

/// The values of characters.
pub open spec fn char_values(s: Seq<char>) -> Seq<nat> {
    s.map_values(|c: char| input_charset().index_of_first(c)->0 as nat)
}

/// The checksum of a text of permitted characters.
pub open spec fn checksum_text(s: Seq<char>) -> Seq<char> {
    let c = absorb_zeros(absorb(1, char_values(s)), 8) ^ 1;
    Seq::new(8, |j: int| checksum_charset()[((c >> ((5 * (7 - j)) as u64)) & 31) as int])
}

/// The error for a character that cannot stand in a descriptor.
pub open spec fn invalid_char(c: char) -> ErrorView {
    ErrorView::BadDescriptor("Invalid character in checksum: '"@ + seq![c] + "'"@)
}

/// The first character that cannot stand in a descriptor.
pub open spec fn first_invalid_char(s: Seq<char>) -> Option<char>
    decreases s.len(),
{
    if s.len() == 0 {
        None
    } else if !input_charset().contains(s[0]) {
        Some(s[0])
    } else {
        first_invalid_char(s.skip(1))
    }
}

/// The checksum of a text, or why it has none.
pub open spec fn checksum_of(s: Seq<char>) -> Result<Seq<char>, ErrorView> {
    match first_invalid_char(s) {
        Some(c) => Err(invalid_char(c)),
        None => Ok(checksum_text(s)),
    }
}

/// Computes one step of the code.
fn poly_mod(c: u64, val: u64) -> (r: u64)
    ensures
        r == poly_step(c, val),
{
    let c0: u64 = c >> 35;
    let mut x: u64 = ((c & 0x7_ffff_ffff) << 5) ^ val;
    if c0 & 1 != 0 {
        x = x ^ 0xf5_dee5_1989;
    }
    if c0 & 2 != 0 {
        x = x ^ 0xa9_fdca_3312;
    }
    if c0 & 4 != 0 {
        x = x ^ 0x1b_ab10_e32d;
    }
    if c0 & 8 != 0 {
        x = x ^ 0x37_06b1_677a;
    }
    if c0 & 16 != 0 {
        x = x ^ 0x64_4d62_6ffd;
    }
    x
}

/// Looks up the value of a character.
fn char_value(ch: char) -> (r: Option<usize>)
    ensures
        r is Some <==> input_charset().contains(ch),
        r matches Some(v) ==> input_charset().index_of_first(ch) == Some(v as int) && v < 95,
{
    proof {
        reveal_strlit(
            "0123456789()[],'/*abcdefgh@:$%{}IJKLMNOPQRSTUVWXYZ&+-.;<=>?!^_|~ijklmnopqrstuvwxyzABCDEFGH`#\"\\ ",
        );
        input_charset().index_of_first_ensures(ch);
    }
    let set =
        "0123456789()[],'/*abcdefgh@:$%{}IJKLMNOPQRSTUVWXYZ&+-.;<=>?!^_|~ijklmnopqrstuvwxyzABCDEFGH`#\"\\ ";
    let mut i: usize = 0;
    while i < 95
        invariant
            i <= 95,
            set@ == input_charset(),
            set@.len() == 95,
            set.is_ascii(),
            forall|j: int| 0 <= j < i ==> set@[j] != ch,
        decreases 95 - i,
    {
        if set.get_ascii(i) as char == ch {
            proof {
                set@.index_of_first_ensures(ch);
                assert(set@[i as int] == ch);
            }
            return Some(i);
        }
        i += 1;
    }
    None
}

/// The values of the characters that have been looked up.
spec fn values_view(vals: Seq<usize>) -> Seq<nat> {
    vals.map_values(|v: usize| v as nat)
}

/// Looks up the values of all characters of a text.
fn char_values_of(desc: &str) -> (r: Result<Vec<usize>, Error>)
    ensures
        r matches Ok(vals) ==> {
            &&& first_invalid_char(desc@) is None
            &&& values_view(vals@) == char_values(desc@)
            &&& forall|i: int| 0 <= i < vals@.len() ==> vals@[i] < 95
        },
        r matches Err(e) ==> first_invalid_char(desc@) is Some && e@ == invalid_char(
            first_invalid_char(desc@)->0,
        ),
{
    let count: usize = desc.unicode_len();
    let mut vals: Vec<usize> = Vec::new();
    let mut chars = desc.chars();
    assert(desc@.skip(0) =~= desc@);
    loop
        invariant
            count == desc@.len(),
            vals@.len() <= count,
            chars.remaining() == desc@.skip(vals@.len() as int),
            first_invalid_char(desc@) == first_invalid_char(desc@.skip(vals@.len() as int)),
            values_view(vals@) == char_values(desc@).take(vals@.len() as int),
            forall|i: int| 0 <= i < vals@.len() ==> vals@[i] < 95,
        decreases count - vals@.len(),
    {
        let ghost n = vals@.len() as int;
        let ghost before = vals@;
        match chars.next() {
            Some(ch) => {
                proof {
                    assert(desc@.skip(n)[0] == desc@[n]);
                    assert(desc@.skip(n).skip(1) =~= desc@.skip(n + 1));
                }
                match char_value(ch) {
                    Some(v) => {
                        vals.push(v);
                        assert(values_view(vals@) =~= char_values(desc@).take(n + 1)) by {
                            assert(values_view(before) =~= char_values(desc@).take(n));
                            assert forall|i: int| 0 <= i < n implies #[trigger] values_view(
                                vals@,
                            )[i] == char_values(desc@)[i] by {
                                assert(values_view(before)[i] == char_values(desc@).take(n)[i]);
                            }
                        }
                    },
                    None => {
                        let mut message = "Invalid character in checksum: '".to_owned();
                        message.append(desc.substring_char(vals.len(), vals.len() + 1));
                        message.append("'");
                        assert(desc@.subrange(n, n + 1) =~= seq![ch]);
                        return Err(Error::BadDescriptor(message));
                    },
                }
            },
            None => {
                assert(char_values(desc@).take(n) =~= char_values(desc@));
                return Ok(vals);
            },
        }
    }
}

/// Takes up characters by their values.
fn absorb_values(vals: &Vec<usize>) -> (r: u64)
    requires
        forall|i: int| 0 <= i < vals@.len() ==> vals@[i] < 95,
    ensures
        r == absorb(1, values_view(vals@)),
{
    let mut c: u64 = 1;
    let mut i: usize = 0;
    let ghost all = values_view(vals@);
    assert(all.skip(0) =~= all);
    while i < vals.len()
        invariant
            i <= vals@.len(),
            all == values_view(vals@),
            forall|i: int| 0 <= i < vals@.len() ==> vals@[i] < 95,
            absorb(1, all) == absorb(c, all.skip(i as int)),
        decreases vals@.len() - i,
    {
        let left: usize = vals.len() - i;
        let ghost rest = all.skip(i as int);
        let v0: usize = vals[i];
        assert(rest[0] == v0 as nat);
        c = poly_mod(c, (v0 % 32) as u64);
        if left == 1 {
            c = poly_mod(c, (v0 / 32) as u64);
            assert(all.skip(i + 1).len() == 0);
            i += 1;
        } else {
            let v1: usize = vals[i + 1];
            assert(rest[1] == v1 as nat);
            c = poly_mod(c, (v1 % 32) as u64);
            if left == 2 {
                c = poly_mod(c, (3 * (v0 / 32) + v1 / 32) as u64);
                assert(all.skip(i + 2).len() == 0);
                i += 2;
            } else {
                let v2: usize = vals[i + 2];
                assert(rest[2] == v2 as nat);
                c = poly_mod(c, (v2 % 32) as u64);
                c = poly_mod(c, (9 * (v0 / 32) + 3 * (v1 / 32) + v2 / 32) as u64);
                assert(rest.skip(3) =~= all.skip(i + 3));
                i += 3;
            }
        }
    }
    assert(all.skip(i as int).len() == 0);
    c
}

/// Computes the checksum of a descriptor. Whether it is a descriptor at all makes no difference.
pub fn desc_checksum(desc: &str) -> (r: Result<String, Error>)
    ensures
        r matches Ok(sum) ==> checksum_of(desc@) == Ok::<Seq<char>, ErrorView>(sum@),
        r matches Err(e) ==> checksum_of(desc@) == Err::<Seq<char>, ErrorView>(e@),
{
    let vals = match char_values_of(desc) {
        Ok(vals) => vals,
        Err(e) => return Err(e),
    };
    let mut c: u64 = absorb_values(&vals);
    let ghost start = c;
    let mut i: usize = 0;
    while i < 8
        invariant
            i <= 8,
            absorb_zeros(start, 8) == absorb_zeros(c, (8 - i) as nat),
        decreases 8 - i,
    {
        c = poly_mod(c, 0);
        i += 1;
    }
    c = c ^ 1;
    proof {
        reveal_strlit("qpzry9x8gf2tvdw0s3jn54khce6mua7l");
    }
    let set = "qpzry9x8gf2tvdw0s3jn54khce6mua7l";
    let ghost full = checksum_text(desc@);
    let mut sum = String::new();
    let mut j: u64 = 0;
    assert(full.take(0) =~= Seq::empty());
    while j < 8
        invariant
            j <= 8,
            set@ == checksum_charset(),
            set@.len() == 32,
            set.is_ascii(),
            c == absorb_zeros(absorb(1, char_values(desc@)), 8) ^ 1,
            full == checksum_text(desc@),
            sum@ == full.take(j as int),
        decreases 8 - j,
    {
        let shift: u64 = 5 * (7 - j);
        let v: u64 = (c >> shift) & 31;
        assert(v < 32) by (bit_vector)
            requires
                v == (c >> shift) & 31,
        ;
        sum.append(set.substring_ascii(v as usize, v as usize + 1));
        assert(full[j as int] == set@[v as int]);
        assert(sum@ =~= full.take(j + 1));
        j += 1;
    }
    assert(full.take(8) =~= full);
    Ok(sum)
}

/// The first byte that cannot stand in a descriptor.
pub open spec fn first_unprintable(bytes: Seq<u8>) -> Option<u8>
    decreases bytes.len(),
{
    if bytes.len() == 0 {
        None
    } else if bytes[0] < 20 || bytes[0] > 127 {
        Some(bytes[0])
    } else {
        first_unprintable(bytes.skip(1))
    }
}

/// The error for a checksum that is not the right one.
pub open spec fn wrong_checksum(found: Seq<char>, expected: Seq<char>) -> ErrorView {
    ErrorView::BadDescriptor(
        "Invalid checksum '"@ + found + "', expected '"@ + expected + "'"@,
    )
}

/// The descriptor without its checksum, provided that the checksum, where there is one, is right.
pub open spec fn checked_descriptor(s: Seq<char>) -> Result<Seq<char>, ErrorView> {
    match first_unprintable(encode_utf8(s)) {
        Some(b) => Err(ErrorView::Unprintable(b)),
        None => match s.index_of_first('#') {
            None => Ok(s),
            Some(i) => match checksum_of(s.take(i)) {
                Ok(sum) => if s.skip(i + 1) == sum {
                    Ok(s.take(i))
                } else {
                    Err(wrong_checksum(s.skip(i + 1), sum))
                },
                Err(e) => Err(e),
            },
        },
    }
}

/// Takes the checksum, where there is one, off a descriptor, provided that it is right.
pub fn verify_checksum(s: &str) -> (r: Result<&str, Error>)
    ensures
        r matches Ok(desc) ==> checked_descriptor(s@) == Ok::<Seq<char>, ErrorView>(desc@),
        r matches Err(e) ==> checked_descriptor(s@) == Err::<Seq<char>, ErrorView>(e@),
{
    let bytes = s.as_bytes();
    let mut i: usize = 0;
    assert(bytes@.skip(0) =~= bytes@);
    while i < bytes.len()
        invariant
            bytes@ == s.spec_bytes(),
            i <= bytes@.len(),
            forall|j: int| 0 <= j < i ==> bytes@[j] < 0x80,
            first_unprintable(bytes@) == first_unprintable(bytes@.skip(i as int)),
        decreases bytes@.len() - i,
    {
        let ch: u8 = bytes[i];
        proof {
            assert(bytes@.skip(i as int)[0] == ch);
            assert(bytes@.skip(i as int).skip(1) =~= bytes@.skip(i + 1));
        }
        if ch < 20 || ch > 127 {
            return Err(Error::Unprintable(ch));
        }
        i += 1;
    }
    proof {
        assert(bytes@.skip(i as int).len() == 0);
        lemma_ascii_bytes(s@);
        s@.index_of_first_ensures('#');
    }
    let len: usize = s.unicode_len();
    let mut n: usize = 0;
    while n < len && s.get_ascii(n) as char != '#'
        invariant
            s.is_ascii(),
            len == s@.len(),
            n <= len,
            forall|j: int| 0 <= j < n ==> s@[j] != '#',
        decreases len - n,
    {
        n += 1;
    }
    if n == len {
        return Ok(s);
    }
    let desc = s.substring_ascii(0, n);
    let found = s.substring_ascii(n + 1, len);
    proof {
        assert(s@[n as int] == '#');
        assert(desc@ =~= s@.take(n as int));
        assert(found@ =~= s@.skip(n + 1));
    }
    let expected = match desc_checksum(desc) {
        Ok(sum) => sum,
        Err(e) => return Err(e),
    };
    if str_eq(found, expected.as_str()) {
        Ok(desc)
    } else {
        let mut message = "Invalid checksum '".to_owned();
        message.append(found);
        message.append("', expected '");
        message.append(expected.as_str());
        message.append("'");
        Err(Error::BadDescriptor(message))
    }
}

} // verus!
