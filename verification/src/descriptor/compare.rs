//! Equality and order of trees and descriptors. A script counts by the text that it is written as
//! and by its encoding.

use crate::descriptor::tap_tree::TapTree;
use crate::descriptor::text::lemma_same_bytes;
use crate::descriptor::tr::Tr;
use crate::miniscript::{Miniscript, MiniscriptKey};
use crate::order::{
    bytes_order, compare_bytes, compare_text, first_difference, lemma_bytes_order, reversed,
    text_order,
};
use std::cmp::Ordering;
use vstd::prelude::*;
use vstd::std_specs::cmp::{PartialEqSpec, PartialEqSpecImpl, PartialOrdSpec, PartialOrdSpecImpl};
use vstd::utf8::encode_utf8;

verus! {

/// Whether two scripts are equal: written and encoded alike.
pub open spec fn script_eq<Pk: MiniscriptKey, Ext>(
    a: Miniscript<Pk, Ext>,
    b: Miniscript<Pk, Ext>,
) -> bool {
    a.text@ == b.text@ && a.script@ == b.script@
}

/// The order of scripts: by their texts and, where these are equal, by their encodings.
pub open spec fn script_order<Pk: MiniscriptKey, Ext>(
    a: Miniscript<Pk, Ext>,
    b: Miniscript<Pk, Ext>,
) -> Ordering {
    first_difference(text_order(a.text@, b.text@), bytes_order(a.script@, b.script@))
}

/// Whether two trees are equal: of the same shape, with scripts that are written and encoded alike.
pub open spec fn tree_eq<Pk: MiniscriptKey, Ext>(a: &TapTree<Pk, Ext>, b: &TapTree<Pk, Ext>) -> bool
    decreases a,
{
    match (a, b) {
        (TapTree::Tree(l1, r1), TapTree::Tree(l2, r2)) => tree_eq(&**l1, &**l2) && tree_eq(
            &**r1,
            &**r2,
        ),
        (TapTree::Leaf(x), TapTree::Leaf(y)) => script_eq(**x, **y),
        _ => false,
    }
}

/// The order of trees: branches come before scripts, branches are ordered by their left subtrees
/// first, scripts by their texts first and by their encodings then.
pub open spec fn tree_order<Pk: MiniscriptKey, Ext>(
    a: &TapTree<Pk, Ext>,
    b: &TapTree<Pk, Ext>,
) -> Ordering
    decreases a,
{
    match (a, b) {
        (TapTree::Tree(l1, r1), TapTree::Tree(l2, r2)) => match tree_order(&**l1, &**l2) {
            Ordering::Equal => tree_order(&**r1, &**r2),
            order => order,
        },
        (TapTree::Tree(_, _), TapTree::Leaf(_)) => Ordering::Less,
        (TapTree::Leaf(_), TapTree::Tree(_, _)) => Ordering::Greater,
        (TapTree::Leaf(x), TapTree::Leaf(y)) => script_order(**x, **y),
    }
}

/// Whether two trees that may be absent are equal.
pub open spec fn opt_tree_eq<Pk: MiniscriptKey, Ext>(
    a: Option<TapTree<Pk, Ext>>,
    b: Option<TapTree<Pk, Ext>>,
) -> bool {
    match (a, b) {
        (Some(x), Some(y)) => tree_eq(&x, &y),
        (None, None) => true,
        _ => false,
    }
}

/// The order of trees that may be absent: no tree comes first.
pub open spec fn opt_tree_order<Pk: MiniscriptKey, Ext>(
    a: Option<TapTree<Pk, Ext>>,
    b: Option<TapTree<Pk, Ext>>,
) -> Ordering {
    match (a, b) {
        (None, None) => Ordering::Equal,
        (None, Some(_)) => Ordering::Less,
        (Some(_), None) => Ordering::Greater,
        (Some(x), Some(y)) => tree_order(&x, &y),
    }
}

/// Compares two scripts.
fn compare_scripts<Pk: MiniscriptKey, Ext>(
    a: &Miniscript<Pk, Ext>,
    b: &Miniscript<Pk, Ext>,
) -> (r: Ordering)
    ensures
        r == script_order(*a, *b),
{
    match compare_text(a.text.as_str(), b.text.as_str()) {
        Ordering::Equal => compare_bytes(a.script.as_slice(), b.script.as_slice()),
        order => order,
    }
}

/// The order of scripts is total and agrees with their equality.
proof fn lemma_script_order<Pk: MiniscriptKey, Ext>(
    a: &Miniscript<Pk, Ext>,
    b: &Miniscript<Pk, Ext>,
    c: &Miniscript<Pk, Ext>,
)
    ensures
        script_order(*a, *b) == Ordering::Equal <==> script_eq(*a, *b),
        script_order(*b, *a) == reversed(script_order(*a, *b)),
        script_order(*a, *b) == Ordering::Less && script_order(*b, *c) == Ordering::Less
            ==> script_order(*a, *c) == Ordering::Less,
        script_eq(*a, *b) ==> script_order(*a, *c) == script_order(*b, *c),
{
    let (p, q, s) = (encode_utf8(a.text@), encode_utf8(b.text@), encode_utf8(c.text@));
    lemma_bytes_order(p, q, s);
    lemma_bytes_order(q, s, p);
    if p == q {
        lemma_same_bytes(a.text@, b.text@);
    }
    lemma_bytes_order(a.script@, b.script@, c.script@);
}

impl<Pk: MiniscriptKey, Ext> TapTree<Pk, Ext> {
    /// Whether two trees are equal.
    fn same(&self, other: &Self) -> (r: bool)
        ensures
            r == tree_eq(self, other),
        decreases self,
    {
        match (self, other) {
            (TapTree::Tree(l1, r1), TapTree::Tree(l2, r2)) => l1.same(l2) && r1.same(r2),
            (TapTree::Leaf(x), TapTree::Leaf(y)) => {
                proof {
                    lemma_script_order(&**x, &**y, &**y);
                }
                match compare_scripts(x, y) {
                    Ordering::Equal => true,
                    _ => false,
                }
            },
            _ => false,
        }
    }

    /// Compares two trees.
    pub fn cmp(&self, other: &Self) -> (r: Ordering)
        ensures
            r == tree_order(self, other),
        decreases self,
    {
        match (self, other) {
            (TapTree::Tree(l1, r1), TapTree::Tree(l2, r2)) => {
                let left: &TapTree<Pk, Ext> = l1;
                match left.cmp(l2) {
                    Ordering::Equal => {
                        let right: &TapTree<Pk, Ext> = r1;
                        right.cmp(r2)
                    },
                    order => order,
                }
            },
            (TapTree::Tree(_, _), TapTree::Leaf(_)) => Ordering::Less,
            (TapTree::Leaf(_), TapTree::Tree(_, _)) => Ordering::Greater,
            (TapTree::Leaf(x), TapTree::Leaf(y)) => compare_scripts(x, y),
        }
    }
}

impl<Pk: MiniscriptKey, Ext> PartialEqSpecImpl for TapTree<Pk, Ext> {
    open spec fn obeys_eq_spec() -> bool {
        true
    }

    open spec fn eq_spec(&self, other: &Self) -> bool {
        tree_eq(self, other)
    }
}

impl<Pk: MiniscriptKey, Ext> PartialEq for TapTree<Pk, Ext> {
    fn eq(&self, other: &Self) -> (r: bool) {
        self.same(other)
    }
}

impl<Pk: MiniscriptKey, Ext> Eq for TapTree<Pk, Ext> {

}

impl<Pk: MiniscriptKey, Ext> PartialOrdSpecImpl for TapTree<Pk, Ext> {
    open spec fn obeys_partial_cmp_spec() -> bool {
        true
    }

    open spec fn partial_cmp_spec(&self, other: &Self) -> Option<Ordering> {
        Some(tree_order(self, other))
    }
}

impl<Pk: MiniscriptKey, Ext> PartialOrd for TapTree<Pk, Ext> {
    fn partial_cmp(&self, other: &Self) -> (r: Option<Ordering>) {
        Some(self.cmp(other))
    }
}

/// Compares two trees that may be absent.
fn compare_trees<Pk: MiniscriptKey, Ext>(
    a: &Option<TapTree<Pk, Ext>>,
    b: &Option<TapTree<Pk, Ext>>,
) -> (r: Ordering)
    ensures
        r == opt_tree_order(*a, *b),
{
    match (a, b) {
        (None, None) => Ordering::Equal,
        (None, Some(_)) => Ordering::Less,
        (Some(_), None) => Ordering::Greater,
        (Some(x), Some(y)) => x.cmp(y),
    }
}

/// Whether two descriptors are equal: in their internal keys and in their trees.
pub open spec fn tr_eq<Pk: MiniscriptKey, Ext>(a: &Tr<Pk, Ext>, b: &Tr<Pk, Ext>) -> bool {
    a.key().same(&b.key()) && opt_tree_eq(a.script_tree(), b.script_tree())
}

/// The order of descriptors: by their internal keys and, where these are equal, by their trees.
pub open spec fn tr_order<Pk: MiniscriptKey, Ext>(a: &Tr<Pk, Ext>, b: &Tr<Pk, Ext>) -> Ordering {
    first_difference(
        a.key().order(&b.key()),
        opt_tree_order(a.script_tree(), b.script_tree()),
    )
}

impl<Pk: MiniscriptKey, Ext> PartialEqSpecImpl for Tr<Pk, Ext> {
    open spec fn obeys_eq_spec() -> bool {
        true
    }

    open spec fn eq_spec(&self, other: &Self) -> bool {
        tr_eq(self, other)
    }
}

impl<Pk: MiniscriptKey, Ext> PartialEq for Tr<Pk, Ext> {
    fn eq(&self, other: &Self) -> (r: bool) {
        self.internal_key().is_same(other.internal_key()) && match (
            self.taptree(),
            other.taptree(),
        ) {
            (Some(x), Some(y)) => x.same(y),
            (None, None) => true,
            _ => false,
        }
    }
}

impl<Pk: MiniscriptKey, Ext> Eq for Tr<Pk, Ext> {

}

impl<Pk: MiniscriptKey, Ext> PartialOrdSpecImpl for Tr<Pk, Ext> {
    open spec fn obeys_partial_cmp_spec() -> bool {
        true
    }

    open spec fn partial_cmp_spec(&self, other: &Self) -> Option<Ordering> {
        Some(tr_order(self, other))
    }
}

impl<Pk: MiniscriptKey, Ext> PartialOrd for Tr<Pk, Ext> {
    fn partial_cmp(&self, other: &Self) -> (r: Option<Ordering>) {
        Some(self.cmp(other))
    }
}

impl<Pk: MiniscriptKey, Ext> Tr<Pk, Ext> {
    /// Compares two descriptors: by their internal keys first, by their trees then.
    pub fn cmp(&self, other: &Self) -> (r: Ordering)
        ensures
            r == tr_order(self, other),
    {
        match self.internal_key().compare(other.internal_key()) {
            Ordering::Equal => compare_trees(self.taptree(), other.taptree()),
            order => order,
        }
    }
}

/// Every tree is equal to itself.
pub(crate) proof fn lemma_tree_eq_self<Pk: MiniscriptKey, Ext>(a: &TapTree<Pk, Ext>)
    ensures
        tree_eq(a, a),
    decreases a,
{
    if let TapTree::Tree(l, r) = a {
        lemma_tree_eq_self(&**l);
        lemma_tree_eq_self(&**r);
    }
}

/// The order of trees is total and agrees with their equality.
pub proof fn law_tree_order<Pk: MiniscriptKey, Ext>(
    a: &TapTree<Pk, Ext>,
    b: &TapTree<Pk, Ext>,
    c: &TapTree<Pk, Ext>,
)
    ensures
        tree_eq(a, a),
        tree_order(a, b) == Ordering::Equal <==> tree_eq(a, b),
        tree_order(b, a) == reversed(tree_order(a, b)),
        tree_eq(a, b) ==> tree_order(a, c) == tree_order(b, c),
        tree_order(a, b) == Ordering::Less && tree_order(b, c) == Ordering::Less ==> tree_order(
            a,
            c,
        ) == Ordering::Less,
    decreases a.nodes() + b.nodes() + c.nodes(),
{
    lemma_tree_eq_self(a);
    match (a, b, c) {
        (TapTree::Leaf(x), TapTree::Leaf(y), TapTree::Leaf(z)) => {
            lemma_script_order(&**x, &**y, &**z);
        },
        (TapTree::Leaf(x), TapTree::Leaf(y), TapTree::Tree(_, _)) => {
            lemma_script_order(&**x, &**y, &**y);
        },
        (TapTree::Tree(l1, r1), TapTree::Tree(l2, r2), TapTree::Tree(l3, r3)) => {
            law_tree_order(&**l1, &**l2, &**l3);
            law_tree_order(&**l2, &**l3, &**l1);
            law_tree_order(&**l3, &**l1, &**l2);
            law_tree_order(&**r1, &**r2, &**r3);
        },
        (TapTree::Tree(l1, r1), TapTree::Tree(l2, r2), TapTree::Leaf(_)) => {
            law_tree_order(&**l1, &**l2, c);
            law_tree_order(&**r1, &**r2, c);
        },
        _ => {},
    }
}

/// The order of trees that may be absent is total and agrees with their equality.
proof fn lemma_opt_tree_order<Pk: MiniscriptKey, Ext>(
    a: &Option<TapTree<Pk, Ext>>,
    b: &Option<TapTree<Pk, Ext>>,
    c: &Option<TapTree<Pk, Ext>>,
)
    ensures
        opt_tree_order(*a, *b) == Ordering::Equal <==> opt_tree_eq(*a, *b),
        opt_tree_order(*b, *a) == reversed(opt_tree_order(*a, *b)),
        opt_tree_eq(*a, *b) ==> opt_tree_order(*a, *c) == opt_tree_order(*b, *c),
        opt_tree_order(*a, *b) == Ordering::Less && opt_tree_order(*b, *c) == Ordering::Less
            ==> opt_tree_order(*a, *c) == Ordering::Less,
{
    if let (Some(x), Some(y)) = (a, b) {
        match c {
            Some(z) => law_tree_order(x, y, z),
            None => law_tree_order(x, y, y),
        }
    }
}

/// The order of descriptors is total: two of them are in neither order exactly if they are equal,
/// the order turns round when they are exchanged, and it is transitive. Equal descriptors have the
/// same order to every third, and `partial_cmp` always tells the same as `cmp`.
pub proof fn law_descriptor_order<Pk: MiniscriptKey, Ext>(
    a: &Tr<Pk, Ext>,
    b: &Tr<Pk, Ext>,
    c: &Tr<Pk, Ext>,
)
    ensures
        tr_eq(a, a),
        tr_order(a, b) == Ordering::Equal <==> tr_eq(a, b),
        tr_order(b, a) == reversed(tr_order(a, b)),
        tr_eq(a, b) ==> tr_order(a, c) == tr_order(b, c),
        tr_order(a, b) == Ordering::Less && tr_order(b, c) == Ordering::Less ==> tr_order(a, c)
            == Ordering::Less,
        PartialEqSpec::eq_spec(a, b) == tr_eq(a, b),
        PartialOrdSpec::partial_cmp_spec(a, b) == Some(tr_order(a, b)),
{
    let (k, l, m) = (a.key(), b.key(), c.key());
    Pk::lemma_order(&k, &l, &m);
    Pk::lemma_order(&l, &m, &k);
    Pk::lemma_order(&m, &k, &l);
    Pk::lemma_order(&k, &k, &k);
    let (s, t, u) = (a.script_tree(), b.script_tree(), c.script_tree());
    lemma_opt_tree_order(&s, &t, &u);
    lemma_opt_tree_order(&s, &s, &s);
}

} // verus!
