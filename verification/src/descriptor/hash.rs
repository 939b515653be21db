//! What equal trees and descriptors have in common: what is hashed of them, and their outputs.

use crate::descriptor::compare::{tr_eq, tree_eq};
use crate::descriptor::tap_tree::TapTree;
use crate::descriptor::tr::{descriptor_spend_data, script_leaves, Tr};
use crate::miniscript::{Miniscript, MiniscriptKey};
use crate::util::append_bytes;
use vstd::prelude::*;
use vstd::string::StringSliceAdditionalSpecFns;
use vstd::utf8::encode_utf8;

verus! {

/// What of a tree goes into a hash table's hash: its shape and the texts of its scripts.
pub open spec fn tree_hash_bytes<Pk: MiniscriptKey, Ext>(tree: &TapTree<Pk, Ext>) -> Seq<u8>
    decreases tree,
{
    match tree {
        TapTree::Tree(l, r) => seq![0u8] + tree_hash_bytes(&**l) + tree_hash_bytes(&**r),
        TapTree::Leaf(ms) => seq![1u8] + encode_utf8(ms.text@),
    }
}

/// What of a descriptor goes into a hash table's hash: its internal key and its tree.
pub open spec fn tr_hash_bytes<Pk: MiniscriptKey, Ext>(
    key: Pk,
    tree: Option<TapTree<Pk, Ext>>,
) -> Seq<u8> {
    match tree {
        Some(t) => key.hash_bytes() + tree_hash_bytes(&t),
        None => key.hash_bytes(),
    }
}

impl<Pk: MiniscriptKey, Ext> TapTree<Pk, Ext> {
    /// Gives what of the tree goes into a hash table's hash.
    pub fn to_hash_bytes(&self) -> (r: Vec<u8>)
        ensures
            r@ == tree_hash_bytes(self),
        decreases self,
    {
        let mut bytes: Vec<u8> = Vec::new();
        match self {
            TapTree::Tree(left, right) => {
                bytes.push(0);
                append_bytes(&mut bytes, left.to_hash_bytes().as_slice());
                append_bytes(&mut bytes, right.to_hash_bytes().as_slice());
            },
            TapTree::Leaf(script) => {
                bytes.push(1);
                append_bytes(&mut bytes, script.text.as_str().as_bytes());
            },
        }
        assert(bytes@ =~= tree_hash_bytes(self));
        bytes
    }
}

impl<Pk: MiniscriptKey, Ext> Tr<Pk, Ext> {
    /// Gives what of the descriptor goes into a hash table's hash.
    pub fn to_hash_bytes(&self) -> (r: Vec<u8>)
        ensures
            r@ == tr_hash_bytes(self.key(), self.script_tree()),
    {
        let mut bytes = self.internal_key().to_hash_bytes();
        if let Some(tree) = self.taptree() {
            append_bytes(&mut bytes, tree.to_hash_bytes().as_slice());
        }
        bytes
    }
}

/// Equal trees are hashed alike and have the same encoded scripts at the same depths.
pub(crate) proof fn lemma_equal_trees<Pk: MiniscriptKey, Ext>(
    a: &TapTree<Pk, Ext>,
    b: &TapTree<Pk, Ext>,
    d: nat,
)
    requires
        tree_eq(a, b),
    ensures
        tree_hash_bytes(a) == tree_hash_bytes(b),
        a.leaves(d).map_values(|l: (nat, Miniscript<Pk, Ext>)| (l.0, l.1.script@)) == b.leaves(
            d,
        ).map_values(|l: (nat, Miniscript<Pk, Ext>)| (l.0, l.1.script@)),
        a.height() == b.height(),
    decreases a,
{
    let encoded = |l: (nat, Miniscript<Pk, Ext>)| (l.0, l.1.script@);
    match (a, b) {
        (TapTree::Tree(l1, r1), TapTree::Tree(l2, r2)) => {
            lemma_equal_trees(&**l1, &**l2, d + 1);
            lemma_equal_trees(&**r1, &**r2, d + 1);
            assert(a.leaves(d).map_values(encoded) =~= l1.leaves(d + 1).map_values(encoded)
                + r1.leaves(d + 1).map_values(encoded));
            assert(b.leaves(d).map_values(encoded) =~= l2.leaves(d + 1).map_values(encoded)
                + r2.leaves(d + 1).map_values(encoded));
        },
        (TapTree::Leaf(_), TapTree::Leaf(_)) => {
            assert(a.leaves(d).map_values(encoded) =~= b.leaves(d).map_values(encoded));
        },
        _ => {},
    }
}

/// Equal descriptors are hashed alike.
pub proof fn law_equal_descriptors_hash_alike<Pk: MiniscriptKey, Ext>(
    a: &Tr<Pk, Ext>,
    b: &Tr<Pk, Ext>,
)
    requires
        tr_eq(a, b),
    ensures
        tr_hash_bytes(a.key(), a.script_tree()) == tr_hash_bytes(b.key(), b.script_tree()),
{
    let (k, l) = (a.key(), b.key());
    Pk::lemma_order(&k, &l, &l);
    if let (Some(t), Some(u)) = (a.script_tree(), b.script_tree()) {
        lemma_equal_trees(&t, &u, 0);
    }
}

/// Equal descriptors have the same spending data, and so the same output.
pub proof fn law_equal_descriptors_have_equal_outputs<Pk: MiniscriptKey, Ext>(
    a: &Tr<Pk, Ext>,
    b: &Tr<Pk, Ext>,
)
    requires
        tr_eq(a, b),
    ensures
        descriptor_spend_data(a.key(), a.script_tree()) == descriptor_spend_data(
            b.key(),
            b.script_tree(),
        ),
{
    let (k, l) = (a.key(), b.key());
    Pk::lemma_order(&k, &l, &l);
    if let (Some(t), Some(u)) = (a.script_tree(), b.script_tree()) {
        lemma_equal_trees(&t, &u, 0);
        assert(script_leaves(t) =~= script_leaves(u));
    }
}

} // verus!
