//! Sizes of serialised data, numbers as text, and shared values.

use std::sync::{Arc, OnceLock};
use vstd::prelude::*;
use vstd::string::{StrSliceExecFns, StringExecFns};

verus! {

/// The length of the variable-length integer that encodes `n`.
pub open spec fn varint_size(n: nat) -> nat {
    if n < 0xfd {
        1
    } else if n <= 0xffff {
        3
    } else if n <= 0xffff_ffff {
        5
    } else {
        9
    }
}

/// Computes the length of the variable-length integer that encodes `n`.
pub fn varint_len(n: usize) -> (r: usize)
    ensures
        r == varint_size(n as nat),
{
    if n < 0xfd {
        1
    } else if n <= 0xffff {
        3
    } else if n <= 0xffff_ffff {
        5
    } else {
        9
    }
}

/// The elements of a witness stack as byte sequences.
pub open spec fn stack_view(wit: Seq<Vec<u8>>) -> Seq<Seq<u8>> {
    wit.map_values(|e: Vec<u8>| e@)
}

/// The total length of the elements of a witness stack.
pub open spec fn elements_size(wit: Seq<Seq<u8>>) -> nat
    decreases wit.len(),
{
    if wit.len() == 0 {
        0
    } else {
        elements_size(wit.drop_last()) + wit.last().len()
    }
}

/// The total length of the integers that tell the lengths of the elements of a witness stack.
pub open spec fn length_prefixes(wit: Seq<Seq<u8>>) -> nat
    decreases wit.len(),
{
    if wit.len() == 0 {
        0
    } else {
        length_prefixes(wit.drop_last()) + varint_size(wit.last().len())
    }
}

/// The size of a witness stack as it is serialised: the number of its elements, and each element
/// behind its length.
pub open spec fn serialized_size(wit: Seq<Seq<u8>>) -> nat {
    varint_size(wit.len()) + length_prefixes(wit) + elements_size(wit)
}

/// The elements of a witness stack together, and the integers that count and measure them, are
/// below what a `u128` can hold.
proof fn lemma_size_bounds(wit: Seq<Vec<u8>>)
    ensures
        elements_size(stack_view(wit)) <= wit.len() * usize::MAX,
        length_prefixes(stack_view(wit)) <= 9 * wit.len(),
        wit.len() <= usize::MAX ==> elements_size(stack_view(wit)) <= u128::MAX,
    decreases wit.len(),
{
    if wit.len() > 0 {
        lemma_size_bounds(wit.drop_last());
        assert(stack_view(wit).drop_last() =~= stack_view(wit.drop_last()));
        assert(wit.last()@.len() <= usize::MAX) by {
            let last = wit.last();
            assert(last@.len() == last.len());
        }
        assert(wit.len() * usize::MAX == (wit.len() - 1) * usize::MAX + usize::MAX)
            by (nonlinear_arith)
            requires
                wit.len() > 0,
        ;
    }
    assert(wit.len() <= usize::MAX ==> wit.len() * usize::MAX <= 0xffff_ffff_ffff_ffff
        * 0xffff_ffff_ffff_ffff) by (nonlinear_arith)
        requires
            usize::MAX <= 0xffff_ffff_ffff_ffff,
    ;
}

/// The size of a serialised witness stack in two parts, since no integer type is known to hold
/// their sum.
#[derive(Clone, Copy)]
pub struct WitnessSize {
    /// The elements.
    pub elements: u128,
    /// The integers that tell the number of the elements and the length of each.
    pub integers: u128,
}

impl WitnessSize {
    /// The whole size.
    pub open spec fn total(self) -> nat {
        self.elements as nat + self.integers as nat
    }

    /// Whether this size is larger than another.
    pub fn exceeds(&self, other: &WitnessSize) -> (r: bool)
        ensures
            r == (self.total() > other.total()),
    {
        if self.elements >= other.elements {
            let more: u128 = self.elements - other.elements;
            self.integers >= other.integers && (more > 0 || self.integers > other.integers)
                || self.integers < other.integers && more > other.integers - self.integers
        } else {
            let less: u128 = other.elements - self.elements;
            self.integers > other.integers && self.integers - other.integers > less
        }
    }
}

/// Computes the size of a witness stack as it is serialised.
pub fn witness_size(wit: &Vec<Vec<u8>>) -> (r: WitnessSize)
    ensures
        r.total() == serialized_size(stack_view(wit@)),
        r.elements == elements_size(stack_view(wit@)),
{
    let count: usize = wit.len();
    let mut elements: u128 = 0;
    let mut integers: u128 = varint_len(count) as u128;
    let mut i: usize = 0;
    let ghost view = stack_view(wit@);
    while i < wit.len()
        invariant
            i <= wit.len(),
            count == wit@.len(),
            view == stack_view(wit@),
            elements == elements_size(view.take(i as int)),
            integers == varint_size(count as nat) + length_prefixes(view.take(i as int)),
        decreases wit.len() - i,
    {
        proof {
            lemma_size_bounds(wit@.take(i + 1));
            assert(stack_view(wit@.take(i + 1)) =~= view.take(i + 1));
            assert(view.take(i + 1).drop_last() =~= view.take(i as int));
        }
        elements += wit[i].len() as u128;
        integers += varint_len(wit[i].len()) as u128;
        i += 1;
    }
    assert(view.take(i as int) =~= view);
    WitnessSize { elements, integers }
}

/// A number in decimal digits.
pub open spec fn decimal_text(n: nat) -> Seq<char>
    decreases n,
{
    if n < 10 {
        seq!["0123456789"@[n as int]]
    } else {
        decimal_text(n / 10).push("0123456789"@[(n % 10) as int])
    }
}

/// Writes a number in decimal digits.
pub fn decimal(n: usize) -> (r: String)
    ensures
        r@ == decimal_text(n as nat),
    decreases n,
{
    proof {
        reveal_strlit("0123456789");
    }
    let last: usize = n % 10;
    let digit = "0123456789".substring_ascii(last, last + 1);
    if n < 10 {
        let mut s = String::new();
        s.append(digit);
        assert(s@ =~= decimal_text(n as nat));
        s
    } else {
        let mut s = decimal(n / 10);
        s.append(digit);
        assert(s@ =~= decimal_text(n as nat));
        s
    }
}

/// Bytes in hexadecimal digits, two for each.
pub open spec fn hex_text(bytes: Seq<u8>) -> Seq<char>
    decreases bytes.len(),
{
    if bytes.len() == 0 {
        Seq::empty()
    } else {
        hex_text(bytes.drop_last()) + seq![
            "0123456789abcdef"@[(bytes.last() / 16) as int],
            "0123456789abcdef"@[(bytes.last() % 16) as int],
        ]
    }
}

/// Writes bytes in hexadecimal digits.
pub fn hex(bytes: &[u8]) -> (r: String)
    ensures
        r@ == hex_text(bytes@),
{
    proof {
        reveal_strlit("0123456789abcdef");
    }
    let digits = "0123456789abcdef";
    let mut s = String::new();
    let mut i: usize = 0;
    assert(s@ =~= hex_text(bytes@.take(0)));
    while i < bytes.len()
        invariant
            digits@ == "0123456789abcdef"@,
            digits@.len() == 16,
            digits.is_ascii(),
            i <= bytes@.len(),
            s@ == hex_text(bytes@.take(i as int)),
        decreases bytes@.len() - i,
    {
        let high: usize = (bytes[i] / 16) as usize;
        let low: usize = (bytes[i] % 16) as usize;
        s.append(digits.substring_ascii(high, high + 1));
        s.append(digits.substring_ascii(low, low + 1));
        assert(bytes@.take(i + 1).drop_last() =~= bytes@.take(i as int));
        assert(s@ =~= hex_text(bytes@.take(i + 1)));
        i += 1;
    }
    assert(bytes@.take(i as int) =~= bytes@);
    s
}

/// Copies bytes.
pub fn copy_bytes(bytes: &[u8]) -> (r: Vec<u8>)
    ensures
        r@ == bytes@,
{
    let mut copy: Vec<u8> = Vec::new();
    append_bytes(&mut copy, bytes);
    assert(copy@ =~= bytes@);
    copy
}

/// Appends bytes.
pub fn append_bytes(to: &mut Vec<u8>, bytes: &[u8])
    ensures
        final(to)@ == old(to)@ + bytes@,
{
    let ghost before = to@;
    let mut i: usize = 0;
    assert(to@ =~= before + bytes@.take(0));
    while i < bytes.len()
        invariant
            i <= bytes@.len(),
            to@ == before + bytes@.take(i as int),
        decreases bytes@.len() - i,
    {
        to.push(bytes[i]);
        assert(to@ =~= before + bytes@.take(i + 1));
        i += 1;
    }
    assert(bytes@.take(i as int) =~= bytes@);
}

/// Where a walk over a sequence stands after one more element.
pub(crate) proof fn lemma_skip_step<A>(all: Seq<A>, i: int, x: A, rest: Seq<A>)
    requires
        0 <= i <= all.len(),
        all.skip(i) == seq![x] + rest,
    ensures
        i < all.len(),
        all[i] == x,
        rest == all.skip(i + 1),
{
    let tail = all.skip(i);
    assert(tail.len() == all.len() - i);
    assert(tail[0] == x);
    assert(rest =~= tail.skip(1));
    assert(tail.skip(1) =~= all.skip(i + 1));
}

#[verifier::external_type_specification]
#[verifier::external_body]
#[verifier::reject_recursive_types(T)]
pub struct ExOnceLock<T>(OnceLock<T>);

/// `OnceLock::new` gives a cell without a value. What a cell holds is no part of what is known of
/// it, since it may change while the cell is shared.
pub assume_specification<T>[ OnceLock::<T>::new ]() -> (r: OnceLock<T>)
;

/// `OnceLock::get` gives the value of a cell, if it has one.
pub assume_specification<T>[ OnceLock::<T>::get ](cell: &OnceLock<T>) -> (r: Option<&T>)
;

/// `OnceLock::set` gives a cell its value, unless it has one already. Then it hands the new one
/// back.
pub assume_specification<T>[ OnceLock::<T>::set ](cell: &OnceLock<T>, value: T) -> (r: Result<
    (),
    T,
>)
    ensures
        r matches Err(v) ==> v == value,
;

/// Another reference to the same value: `Arc::clone`.
#[verifier::external_body]
pub(crate) fn share<T>(value: &Arc<T>) -> (r: Arc<T>)
    ensures
        r == *value,
{
    Arc::clone(value)
}

} // verus!
