//! Trees of scripts, the walk over them, and what a descriptor commits to.

use crate::descriptor::compare::{
    opt_tree_eq, opt_tree_order, script_eq, script_order, tr_eq, tr_order, tree_eq, tree_order,
};
use crate::descriptor::display::{tr_text, with_checksum};
use crate::descriptor::hash::{tr_hash_bytes, tree_hash_bytes};
use crate::descriptor::tap_tree::TapTree;
use crate::descriptor::tr::{
    descriptor_spend_data, is_spend_data, permitted_tree, script_leaves, Tr,
};
use crate::miniscript::{Miniscript, MiniscriptKey, ToPublicKey};
use crate::order::{bytes_order, text_order};
use crate::taproot::{key_only_data, script_tree_data, Shape, SpendData};
use std::cmp::Ordering;
use std::sync::Arc;
use vstd::prelude::*;
use vstd::std_specs::cmp::{PartialEqSpec, PartialOrdSpec};
use vstd::utf8::encode_utf8;

verus! {

/// A script has no height. A branch is one higher than the higher of its subtrees.
pub proof fn law_height<Pk: MiniscriptKey, Ext>(
    ms: &Arc<Miniscript<Pk, Ext>>,
    l: &Arc<TapTree<Pk, Ext>>,
    r: &Arc<TapTree<Pk, Ext>>,
)
    ensures
        TapTree::Leaf(*ms).height() == 0,
        TapTree::Tree(*l, *r).height() > l.height(),
        TapTree::Tree(*l, *r).height() > r.height(),
        TapTree::Tree(*l, *r).height() == l.height() + 1 || TapTree::Tree(*l, *r).height()
            == r.height() + 1,
{
}

/// The walk over a script yields the script at the depth at which it stands. The walk over a
/// branch is that over its left subtree and then that over its right subtree, both one deeper.
pub proof fn law_walk<Pk: MiniscriptKey, Ext>(
    ms: &Arc<Miniscript<Pk, Ext>>,
    l: &Arc<TapTree<Pk, Ext>>,
    r: &Arc<TapTree<Pk, Ext>>,
    d: nat,
)
    ensures
        TapTree::Leaf(*ms).leaves(d).len() == 1,
        TapTree::Leaf(*ms).leaves(d)[0] == (d, **ms),
        TapTree::Tree(*l, *r).leaves(d) == l.leaves(d + 1) + r.leaves(d + 1),
{
    assert(TapTree::Tree(*l, *r).leaves(d) =~= l.leaves(d + 1) + r.leaves(d + 1));
}

/// Shape and scripts of a tree, as they are taken from its parts.
pub proof fn law_shape_and_scripts<Pk: MiniscriptKey, Ext>(
    ms: &Arc<Miniscript<Pk, Ext>>,
    l: &Arc<TapTree<Pk, Ext>>,
    r: &Arc<TapTree<Pk, Ext>>,
)
    ensures
        TapTree::Leaf(*ms).shape() == Shape::Leaf,
        TapTree::Tree(*l, *r).shape() == Shape::Node(Box::new(l.shape()), Box::new(r.shape())),
        TapTree::Leaf(*ms).scripts() == seq![**ms],
        TapTree::Tree(*l, *r).scripts() == l.scripts() + r.scripts(),
{
}

/// A descriptor has the scripts of its tree, from depth zero on, and none without a tree. It can
/// have any tree that is not higher than 128.
pub proof fn law_descriptor_scripts<Pk: MiniscriptKey, Ext>(
    desc: Tr<Pk, Ext>,
    tree: &TapTree<Pk, Ext>,
)
    ensures
        desc.script_tree() matches Some(t) ==> desc.scripts() == t.leaves(0),
        desc.script_tree() is None ==> desc.scripts().len() == 0,
        permitted_tree(Some(*tree)) <==> tree.height() <= 128,
        permitted_tree(None::<TapTree<Pk, Ext>>),
{
}

/// What a descriptor commits to is made of its internal key and of the leaves that the walk over
/// its tree yields: as many, and the i-th of them with the depth and the encoding of the i-th that
/// the walk yields.
pub proof fn law_commitment<Pk: MiniscriptKey, Ext>(
    key: Pk,
    tree: &TapTree<Pk, Ext>,
    data: SpendData,
)
    ensures
        descriptor_spend_data(key, Some(*tree)) == script_tree_data(
            key.x_only(),
            Seq::new(
                tree.leaves(0).len(),
                |i: int| (tree.leaves(0)[i].0, tree.leaves(0)[i].1.script@),
            ),
        ),
        descriptor_spend_data(key, None::<TapTree<Pk, Ext>>) == key_only_data(key.x_only()),
        is_spend_data(key, Some(*tree), data) ==> data == script_tree_data(
            key.x_only(),
            Seq::new(
                tree.leaves(0).len(),
                |i: int| (tree.leaves(0)[i].0, tree.leaves(0)[i].1.script@),
            ),
        ) && data.internal_key == key.x_only() && data.merkle_root is Some,
        is_spend_data(key, None::<TapTree<Pk, Ext>>, data) ==> data == key_only_data(key.x_only())
            && data.internal_key == key.x_only() && data.merkle_root is None,
{
    assert(script_leaves(*tree) =~= Seq::new(
        tree.leaves(0).len(),
        |i: int| (tree.leaves(0)[i].0, tree.leaves(0)[i].1.script@),
    ));
}

/// The leaves that a branch commits to are those of its left subtree and then those of its right
/// subtree, each one deeper than where that subtree stands alone.
pub proof fn law_commitment_of_branch<Pk: MiniscriptKey, Ext>(
    l: &Arc<TapTree<Pk, Ext>>,
    r: &Arc<TapTree<Pk, Ext>>,
    i: int,
)
    ensures
        ({
            let both = script_leaves(TapTree::Tree(*l, *r));
            let left = script_leaves(**l);
            let right = script_leaves(**r);
            &&& both.len() == left.len() + right.len()
            &&& 0 <= i < left.len() ==> both[i] == (left[i].0 + 1, left[i].1)
            &&& 0 <= i < right.len() ==> both[left.len() + i] == (right[i].0 + 1, right[i].1)
        }),
{
    lemma_deeper(&**l, 0, 1);
    lemma_deeper(&**r, 0, 1);
    let n = l.leaves(1).len() as int;
    assert(TapTree::Tree(*l, *r).leaves(0) =~= l.leaves(1) + r.leaves(1));
}

/// A walk that begins deeper yields the same scripts, deeper by as much.
proof fn lemma_deeper<Pk: MiniscriptKey, Ext>(tree: &TapTree<Pk, Ext>, d: nat, by: nat)
    ensures
        tree.leaves(d + by).len() == tree.leaves(d).len(),
        forall|i: int|
            0 <= i < tree.leaves(d).len() ==> {
                &&& (#[trigger] tree.leaves(d + by)[i]).0 == tree.leaves(d)[i].0 + by
                &&& tree.leaves(d + by)[i].1 == tree.leaves(d)[i].1
            },
    decreases tree,
{
    if let TapTree::Tree(l, r) = tree {
        lemma_deeper(&**l, d + 1, by);
        lemma_deeper(&**r, d + 1, by);
        assert(d + by + 1 == d + 1 + by);
        let n = l.leaves(d + 1).len() as int;
        assert forall|i: int| 0 <= i < tree.leaves(d).len() implies {
            &&& (#[trigger] tree.leaves(d + by)[i]).0 == tree.leaves(d)[i].0 + by
            &&& tree.leaves(d + by)[i].1 == tree.leaves(d)[i].1
        } by {
            if i < n {
                assert(tree.leaves(d + by)[i] == l.leaves(d + 1 + by)[i]);
                assert(tree.leaves(d)[i] == l.leaves(d + 1)[i]);
            } else {
                assert(tree.leaves(d + by)[i] == r.leaves(d + 1 + by)[i - n]);
                assert(tree.leaves(d)[i] == r.leaves(d + 1)[i - n]);
            }
        }
    }
}

/// The spending data of a tree have a control block for exactly its scripts. It is as long as some
/// leaf with its script asks, not longer than any asks, and holds the internal key behind its first
/// byte. Without a tree there is none.
pub proof fn law_control_blocks<Pk: MiniscriptKey, Ext>(
    key: Pk,
    tree: &TapTree<Pk, Ext>,
    data: SpendData,
    i: int,
    script: Seq<u8>,
)
    ensures
        is_spend_data(key, Some(*tree), data) ==> {
            &&& data.merkle_root->0.len() == 32
            &&& 0 <= i < tree.leaves(0).len() ==> data.control_blocks.contains_key(
                tree.leaves(0)[i].1.script@,
            ) && data.control_blocks[tree.leaves(0)[i].1.script@].len() <= 33 + 32 * tree.leaves(
                0,
            )[i].0
            &&& data.control_blocks.contains_key(script) ==> {
                &&& data.control_blocks[script].subrange(1, 33) == key.x_only()
                &&& exists|j: int|
                    0 <= j < tree.leaves(0).len() && (#[trigger] tree.leaves(0)[j]).1.script@
                        == script && data.control_blocks[script].len() == 33 + 32 * tree.leaves(
                        0,
                    )[j].0
            }
        },
        is_spend_data(key, None::<TapTree<Pk, Ext>>, data) ==> !data.control_blocks.contains_key(
            script,
        ),
{
    let leaves = script_leaves(*tree);
    assert forall|j: int| 0 <= j < leaves.len() implies #[trigger] leaves[j] == (
        tree.leaves(0)[j].0,
        tree.leaves(0)[j].1.script@,
    ) by {}
    if is_spend_data(key, Some(*tree), data) {
        if 0 <= i < tree.leaves(0).len() {
            assert(data.control_blocks.contains_key(leaves[i].1));
        }
        if data.control_blocks.contains_key(script) {
            let j = choose|j: int|
                0 <= j < leaves.len() && (#[trigger] leaves[j]).1 == script
                    && data.control_blocks[script].len() == 33 + 32 * leaves[j].0;
            assert(tree.leaves(0)[j].1.script@ == script);
        }
    }
    if is_spend_data(key, None::<TapTree<Pk, Ext>>, data) {
        assert(!data.control_blocks.dom().contains(script));
    }
}

/// The output key of a descriptor is that of its spending data.
pub proof fn law_output_key<Pk: ToPublicKey, Ext>(desc: Tr<Pk, Ext>)
    ensures
        desc.script_tree() matches Some(t) ==> desc.output_key() == script_tree_data(
            desc.key().x_only(),
            Seq::new(
                t.leaves(0).len(),
                |i: int| (t.leaves(0)[i].0, t.leaves(0)[i].1.script@),
            ),
        ).output_key,
        desc.script_tree() is None ==> desc.output_key() == key_only_data(
            desc.key().x_only(),
        ).output_key,
{
    if let Some(t) = desc.script_tree() {
        law_commitment(desc.key(), &t, descriptor_spend_data(desc.key(), desc.script_tree()));
    }
}

/// A script is written as its text, a branch as its subtrees in braces with a comma between them.
pub proof fn law_tree_text<Pk: MiniscriptKey, Ext>(
    ms: &Arc<Miniscript<Pk, Ext>>,
    l: &Arc<TapTree<Pk, Ext>>,
    r: &Arc<TapTree<Pk, Ext>>,
)
    ensures
        TapTree::Leaf(*ms).text() == ms.text@,
        TapTree::Tree(*l, *r).text() == seq!['{'] + l.text() + seq![','] + r.text() + seq!['}'],
{
}

/// A descriptor is written as `eltr` with its internal key and, if it has one, its tree, in
/// parentheses, and a checksum behind a number sign.
pub proof fn law_descriptor_text<Pk: MiniscriptKey, Ext>(
    desc: Tr<Pk, Ext>,
    key: Pk,
    tree: &TapTree<Pk, Ext>,
    sum: Seq<char>,
)
    ensures
        tr_text(key, Some(*tree)) == seq!['e', 'l', 't', 'r', '('] + key.text() + seq![',']
            + tree.text() + seq![')'],
        tr_text(key, None::<TapTree<Pk, Ext>>) == seq!['e', 'l', 't', 'r', '('] + key.text()
            + seq![')'],
        desc.text() == tr_text(desc.key(), desc.script_tree()),
        with_checksum(desc.text(), sum) == desc.text() + seq!['#'] + sum,
{
    reveal_strlit("eltr(");
    assert("eltr("@ =~= seq!['e', 'l', 't', 'r', '(']);
}

/// Scripts are equal if their texts and their encodings are, and ordered by their texts first.
pub proof fn law_script_comparison<Pk: MiniscriptKey, Ext>(
    x: Miniscript<Pk, Ext>,
    y: Miniscript<Pk, Ext>,
)
    ensures
        script_eq(x, y) <==> x.text@ == y.text@ && x.script@ == y.script@,
        text_order(x.text@, y.text@) == Ordering::Less ==> script_order(x, y) == Ordering::Less,
        text_order(x.text@, y.text@) == Ordering::Greater ==> script_order(x, y)
            == Ordering::Greater,
        text_order(x.text@, y.text@) == Ordering::Equal ==> script_order(x, y) == bytes_order(
            x.script@,
            y.script@,
        ),
{
}

/// Trees are equal if they are both scripts and these are equal, or both branches with equal
/// subtrees. Branches come before scripts and are ordered by their left subtrees first.
pub proof fn law_tree_comparison<Pk: MiniscriptKey, Ext>(
    x: &Arc<Miniscript<Pk, Ext>>,
    y: &Arc<Miniscript<Pk, Ext>>,
    l1: &Arc<TapTree<Pk, Ext>>,
    r1: &Arc<TapTree<Pk, Ext>>,
    l2: &Arc<TapTree<Pk, Ext>>,
    r2: &Arc<TapTree<Pk, Ext>>,
)
    ensures
        tree_eq(&TapTree::Leaf(*x), &TapTree::Leaf(*y)) == script_eq(**x, **y),
        tree_eq(&TapTree::Tree(*l1, *r1), &TapTree::Tree(*l2, *r2)) <==> tree_eq(&**l1, &**l2)
            && tree_eq(&**r1, &**r2),
        !tree_eq(&TapTree::Leaf(*x), &TapTree::Tree(*l2, *r2)),
        !tree_eq(&TapTree::Tree(*l1, *r1), &TapTree::Leaf(*y)),
        tree_order(&TapTree::Leaf(*x), &TapTree::Leaf(*y)) == script_order(**x, **y),
        tree_order(&TapTree::Leaf(*x), &TapTree::Tree(*l2, *r2)) == Ordering::Greater,
        tree_order(&TapTree::Tree(*l1, *r1), &TapTree::Leaf(*y)) == Ordering::Less,
        tree_order(&**l1, &**l2) == Ordering::Less ==> tree_order(
            &TapTree::Tree(*l1, *r1),
            &TapTree::Tree(*l2, *r2),
        ) == Ordering::Less,
        tree_order(&**l1, &**l2) == Ordering::Greater ==> tree_order(
            &TapTree::Tree(*l1, *r1),
            &TapTree::Tree(*l2, *r2),
        ) == Ordering::Greater,
        tree_order(&**l1, &**l2) == Ordering::Equal ==> tree_order(
            &TapTree::Tree(*l1, *r1),
            &TapTree::Tree(*l2, *r2),
        ) == tree_order(&**r1, &**r2),
{
}

/// Descriptors are equal if their internal keys are and they have equal trees or both none. They
/// are ordered by their internal keys first, and without a tree comes before with one.
pub proof fn law_descriptor_comparison<Pk: MiniscriptKey, Ext>(a: Tr<Pk, Ext>, b: Tr<Pk, Ext>)
    ensures
        tr_eq(&a, &b) ==> a.key().same(&b.key()),
        tr_eq(&a, &b) && a.script_tree() is None ==> b.script_tree() is None,
        tr_eq(&a, &b) && b.script_tree() is None ==> a.script_tree() is None,
        a.script_tree() is None && b.script_tree() is None ==> tr_eq(&a, &b) == a.key().same(
            &b.key(),
        ),
        (a.script_tree(), b.script_tree()) matches (Some(t), Some(u)) ==> (tr_eq(&a, &b)
            <==> a.key().same(&b.key()) && tree_eq(&t, &u)),
        a.key().order(&b.key()) != Ordering::Equal ==> tr_order(&a, &b) == a.key().order(&b.key()),
        a.key().order(&b.key()) == Ordering::Equal ==> {
            &&& a.script_tree() is None && b.script_tree() is None ==> tr_order(&a, &b)
                == Ordering::Equal
            &&& a.script_tree() is None && b.script_tree() is Some ==> tr_order(&a, &b)
                == Ordering::Less
            &&& a.script_tree() is Some && b.script_tree() is None ==> tr_order(&a, &b)
                == Ordering::Greater
            &&& (a.script_tree(), b.script_tree()) matches (Some(t), Some(u)) ==> tr_order(&a, &b)
                == tree_order(&t, &u)
        },
        opt_tree_eq(a.script_tree(), b.script_tree()) && a.key().same(&b.key()) ==> tr_eq(&a, &b),
        opt_tree_order(a.script_tree(), b.script_tree()) != Ordering::Equal && a.key().order(
            &b.key(),
        ) == Ordering::Equal ==> tr_order(&a, &b) == opt_tree_order(
            a.script_tree(),
            b.script_tree(),
        ),
        PartialEqSpec::eq_spec(&a, &b) == tr_eq(&a, &b),
        PartialOrdSpec::partial_cmp_spec(&a, &b) == Some(tr_order(&a, &b)),
{
}

/// What `==` and `<` tell of trees is their equality and their order, and those of descriptors tell
/// theirs.
pub proof fn law_operators<Pk: MiniscriptKey, Ext>(a: &TapTree<Pk, Ext>, b: &TapTree<Pk, Ext>)
    ensures
        TapTree::<Pk, Ext>::obeys_eq_spec(),
        TapTree::<Pk, Ext>::obeys_partial_cmp_spec(),
        Tr::<Pk, Ext>::obeys_eq_spec(),
        Tr::<Pk, Ext>::obeys_partial_cmp_spec(),
        PartialEqSpec::eq_spec(a, b) == tree_eq(a, b),
        PartialOrdSpec::partial_cmp_spec(a, b) == Some(tree_order(a, b)),
{
}

/// What is hashed of a tree tells branches from scripts and holds the texts of the scripts from
/// left to right; what is hashed of a descriptor is that behind what is hashed of its key.
pub proof fn law_hash_bytes<Pk: MiniscriptKey, Ext>(
    ms: &Arc<Miniscript<Pk, Ext>>,
    l: &Arc<TapTree<Pk, Ext>>,
    r: &Arc<TapTree<Pk, Ext>>,
    key: Pk,
    tree: &TapTree<Pk, Ext>,
)
    ensures
        tree_hash_bytes(&TapTree::Leaf(*ms)) == seq![1u8] + encode_utf8(ms.text@),
        tree_hash_bytes(&TapTree::Tree(*l, *r)) == seq![0u8] + tree_hash_bytes(&**l)
            + tree_hash_bytes(&**r),
        tr_hash_bytes(key, Some(*tree)) == key.hash_bytes() + tree_hash_bytes(tree),
        tr_hash_bytes(key, None::<TapTree<Pk, Ext>>) == key.hash_bytes(),
{
}

} // verus!
