//! Sizes, numbers and orders.

use crate::order::{bytes_order, first_difference, reversed, text_order};
use crate::taproot::push_prefix;
use crate::util::{
    decimal_text, elements_size, hex_text, length_prefixes, serialized_size, stack_view,
    varint_size, WitnessSize,
};
use std::cmp::Ordering;
use vstd::prelude::*;
use vstd::utf8::encode_utf8;

verus! {

/// A variable-length integer takes one byte below 253, three up to two bytes' worth, five up to
/// four bytes' worth, and nine beyond.
pub proof fn law_varint_size(n: nat)
    ensures
        n < 253 ==> varint_size(n) == 1,
        253 <= n < 65536 ==> varint_size(n) == 3,
        65536 <= n < 4294967296 ==> varint_size(n) == 5,
        4294967296 <= n ==> varint_size(n) == 9,
{
}

/// A witness stack as a mathematical value has the same elements in the same order.
pub proof fn law_stack_view(wit: Seq<Vec<u8>>)
    ensures
        stack_view(wit).len() == wit.len(),
        forall|i: int| 0 <= i < wit.len() ==> #[trigger] stack_view(wit)[i] == wit[i]@,
{
}

/// An empty stack is serialised in one byte. One more element adds its bytes, its length, and
/// what the number of elements grows by.
pub proof fn law_serialized_size(wit: Seq<Seq<u8>>, element: Seq<u8>)
    ensures
        serialized_size(Seq::<Seq<u8>>::empty()) == 1,
        serialized_size(wit.push(element)) + varint_size(wit.len()) == serialized_size(wit)
            + varint_size(wit.len() + 1) + varint_size(element.len()) + element.len(),
        elements_size(Seq::<Seq<u8>>::empty()) == 0,
        elements_size(wit.push(element)) == elements_size(wit) + element.len(),
        length_prefixes(Seq::<Seq<u8>>::empty()) == 0,
        length_prefixes(wit.push(element)) == length_prefixes(wit) + varint_size(element.len()),
        serialized_size(wit) == varint_size(wit.len()) + length_prefixes(wit) + elements_size(wit),
{
    assert(wit.push(element).drop_last() =~= wit);
}

/// The two parts of a size make up the whole.
pub proof fn law_witness_size(size: WitnessSize)
    ensures
        size.total() == size.elements + size.integers,
{
}

/// A digit stands for itself, and a larger number is written as its tenth and the digit that is
/// left.
pub proof fn law_decimal_text(n: nat)
    ensures
        decimal_text(0) == seq!['0'],
        decimal_text(1) == seq!['1'],
        decimal_text(2) == seq!['2'],
        decimal_text(3) == seq!['3'],
        decimal_text(4) == seq!['4'],
        decimal_text(5) == seq!['5'],
        decimal_text(6) == seq!['6'],
        decimal_text(7) == seq!['7'],
        decimal_text(8) == seq!['8'],
        decimal_text(9) == seq!['9'],
        n >= 10 ==> decimal_text(n) == decimal_text(n / 10) + decimal_text(n % 10),
{
    reveal_strlit("0123456789");
    assert(n >= 10 ==> decimal_text(n) =~= decimal_text(n / 10) + decimal_text(n % 10));
}

/// Each byte is written as two digits, the high one first.
pub proof fn law_hex_text(bytes: Seq<u8>)
    ensures
        hex_text(bytes).len() == 2 * bytes.len(),
        forall|i: int|
            #![trigger bytes[i]]
            0 <= i < bytes.len() ==> {
                &&& (bytes[i] < 160 ==> hex_text(bytes)[2 * i] as int == 48 + bytes[i] / 16)
                &&& (bytes[i] >= 160 ==> hex_text(bytes)[2 * i] as int == 87 + bytes[i] / 16)
                &&& (bytes[i] % 16 < 10 ==> hex_text(bytes)[2 * i + 1] as int == 48 + bytes[i] % 16)
                &&& (bytes[i] % 16 >= 10 ==> hex_text(bytes)[2 * i + 1] as int == 87 + bytes[i]
                    % 16)
            },
    decreases bytes.len(),
{
    reveal_strlit("0123456789abcdef");
    if bytes.len() > 0 {
        let front = bytes.drop_last();
        law_hex_text(front);
        assert forall|i: int| #![trigger bytes[i]] 0 <= i < bytes.len() implies {
            &&& (bytes[i] < 160 ==> hex_text(bytes)[2 * i] as int == 48 + bytes[i] / 16)
            &&& (bytes[i] >= 160 ==> hex_text(bytes)[2 * i] as int == 87 + bytes[i] / 16)
            &&& (bytes[i] % 16 < 10 ==> hex_text(bytes)[2 * i + 1] as int == 48 + bytes[i] % 16)
            &&& (bytes[i] % 16 >= 10 ==> hex_text(bytes)[2 * i + 1] as int == 87 + bytes[i] % 16)
        } by {
            if i < front.len() {
                assert(front[i] == bytes[i]);
                assert(hex_text(bytes)[2 * i] == hex_text(front)[2 * i]);
                assert(hex_text(bytes)[2 * i + 1] == hex_text(front)[2 * i + 1]);
            }
        }
    }
}

/// The order of byte strings is decided by the first byte in which they differ. A string comes
/// behind every other with which it begins.
pub proof fn law_bytes_order(p: Seq<u8>, x: u8, a: Seq<u8>, y: u8, b: Seq<u8>)
    ensures
        bytes_order(p, p) == Ordering::Equal,
        x < y ==> bytes_order(p + seq![x] + a, p + seq![y] + b) == Ordering::Less,
        x > y ==> bytes_order(p + seq![x] + a, p + seq![y] + b) == Ordering::Greater,
        bytes_order(p, p + seq![x] + a) == Ordering::Less,
        bytes_order(p + seq![x] + a, p) == Ordering::Greater,
    decreases p.len(),
{
    let s = p + seq![x] + a;
    let t = p + seq![y] + b;
    if p.len() > 0 {
        let q = p.skip(1);
        law_bytes_order(q, x, a, y, b);
        assert(s.skip(1) =~= q + seq![x] + a);
        assert(t.skip(1) =~= q + seq![y] + b);
        assert(s[0] == p[0] && t[0] == p[0]);
    } else {
        assert(s[0] == x && t[0] == y);
    }
}

/// Texts are ordered as their bytes are.
pub proof fn law_text_order(a: Seq<char>, b: Seq<char>)
    ensures
        text_order(a, b) == bytes_order(encode_utf8(a), encode_utf8(b)),
{
}

/// Data that a script pushes stand behind their length: alone below 76, behind an opcode for one,
/// two or four bytes of it otherwise, the low byte first.
pub proof fn law_push_prefix(n: nat)
    ensures
        n < 76 ==> push_prefix(n) == seq![n as u8],
        76 <= n < 256 ==> push_prefix(n) == seq![76u8, n as u8],
        256 <= n < 65536 ==> push_prefix(n) == seq![77u8, (n % 256) as u8, (n / 256) as u8],
        n >= 65536 ==> push_prefix(n) == seq![
            78u8,
            (n % 256) as u8,
            (n / 256 % 256) as u8,
            (n / 65536 % 256) as u8,
            (n / 16777216) as u8,
        ],
{
}

/// What orders are made of others.
pub proof fn law_orders(order: Ordering)
    ensures
        reversed(Ordering::Less) == Ordering::Greater,
        reversed(Ordering::Greater) == Ordering::Less,
        reversed(Ordering::Equal) == Ordering::Equal,
        first_difference(Ordering::Less, order) == Ordering::Less,
        first_difference(Ordering::Greater, order) == Ordering::Greater,
        first_difference(Ordering::Equal, order) == order,
{
}

} // verus!
