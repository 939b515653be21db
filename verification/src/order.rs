//! The order of byte strings and of texts.

use std::cmp::Ordering;
use vstd::prelude::*;
use vstd::string::StringSliceAdditionalSpecFns;
use vstd::utf8::encode_utf8;

verus! {

/// The lexicographic order of byte strings.
pub open spec fn bytes_order(a: Seq<u8>, b: Seq<u8>) -> Ordering
    decreases a.len(),
{
    if a.len() == 0 && b.len() == 0 {
        Ordering::Equal
    } else if a.len() == 0 {
        Ordering::Less
    } else if b.len() == 0 {
        Ordering::Greater
    } else if a[0] < b[0] {
        Ordering::Less
    } else if a[0] > b[0] {
        Ordering::Greater
    } else {
        bytes_order(a.skip(1), b.skip(1))
    }
}

/// The order of texts: that of their bytes.
pub open spec fn text_order(a: Seq<char>, b: Seq<char>) -> Ordering {
    bytes_order(encode_utf8(a), encode_utf8(b))
}

/// The reverse of an order.
pub open spec fn reversed(order: Ordering) -> Ordering {
    match order {
        Ordering::Less => Ordering::Greater,
        Ordering::Equal => Ordering::Equal,
        Ordering::Greater => Ordering::Less,
    }
}

/// The order by one thing and, where that makes no difference, by another.
pub open spec fn first_difference(a: Ordering, b: Ordering) -> Ordering {
    match a {
        Ordering::Equal => b,
        _ => a,
    }
}

/// Compares two byte strings.
pub fn compare_bytes(x: &[u8], y: &[u8]) -> (r: Ordering)
    ensures
        r == bytes_order(x@, y@),
{
    let mut i: usize = 0;
    proof {
        assert(x@.skip(0) =~= x@);
        assert(y@.skip(0) =~= y@);
    }
    while i < x.len() && i < y.len()
        invariant
            i <= x@.len(),
            i <= y@.len(),
            bytes_order(x@, y@) == bytes_order(x@.skip(i + 0), y@.skip(i + 0)),
        decreases x@.len() - i,
    {
        proof {
            assert(x@.skip(i + 0).skip(1) =~= x@.skip(i + 1));
            assert(y@.skip(i + 0).skip(1) =~= y@.skip(i + 1));
        }
        if x[i] < y[i] {
            return Ordering::Less;
        }
        if x[i] > y[i] {
            return Ordering::Greater;
        }
        i += 1;
    }
    if x.len() == y.len() {
        Ordering::Equal
    } else if i == x.len() {
        Ordering::Less
    } else {
        Ordering::Greater
    }
}

/// Compares two texts.
pub fn compare_text(a: &str, b: &str) -> (r: Ordering)
    ensures
        r == text_order(a@, b@),
{
    compare_bytes(a.as_bytes(), b.as_bytes())
}

/// The order of byte strings is total.
pub proof fn lemma_bytes_order(a: Seq<u8>, b: Seq<u8>, c: Seq<u8>)
    ensures
        bytes_order(a, b) == Ordering::Equal <==> a == b,
        bytes_order(b, a) == reversed(bytes_order(a, b)),
        bytes_order(a, b) == Ordering::Less && bytes_order(b, c) == Ordering::Less
            ==> bytes_order(a, c) == Ordering::Less,
    decreases a.len() + b.len() + c.len(),
{
    if a.len() > 0 && b.len() > 0 {
        let rest = if c.len() > 0 {
            c.skip(1)
        } else {
            c
        };
        lemma_bytes_order(a.skip(1), b.skip(1), rest);
        assert(a[0] == b[0] && a.skip(1) == b.skip(1) ==> a == b) by {
            assert(a =~= seq![a[0]] + a.skip(1));
            assert(b =~= seq![b[0]] + b.skip(1));
        }
    } else if a.len() == 0 && b.len() == 0 {
        assert(a =~= b);
    }
}

} // verus!
