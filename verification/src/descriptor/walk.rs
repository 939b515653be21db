//! Depth-first walks: the depths of its leaves tell the shape of a tree.

use crate::descriptor::tap_tree::TapTree;
use crate::descriptor::tr::script_leaves;
use crate::miniscript::{Miniscript, MiniscriptKey};
use crate::taproot::{dfs_complete, dfs_prefix, leaf_depths, max_depth, Shape};
use vstd::prelude::*;

verus! {

/// No leaf is above the root, and below an inner node every leaf is deeper than it.
proof fn lemma_depths_at_least(t: Shape, d: nat)
    ensures
        t.depths(d).len() > 0,
        forall|i: int|
            0 <= i < t.depths(d).len() ==> #[trigger] t.depths(d)[i] >= d + if t is Leaf {
                0nat
            } else {
                1nat
            },
    decreases t,
{
    match t {
        Shape::Leaf => {},
        Shape::Node(l, r) => {
            lemma_depths_at_least(*l, d + 1);
            lemma_depths_at_least(*r, d + 1);
            let left = l.depths(d + 1);
            assert forall|i: int| 0 <= i < t.depths(d).len() implies #[trigger] t.depths(d)[i] >= d
                + 1 by {
                if i < left.len() {
                    assert(t.depths(d)[i] == left[i]);
                } else {
                    assert(t.depths(d)[i] == r.depths(d + 1)[i - left.len()]);
                }
            }
        },
    }
}

/// The depths of the leaves, read from the front, determine the tree and where it ends.
pub proof fn lemma_depths_unique(t1: Shape, rest1: Seq<nat>, t2: Shape, rest2: Seq<nat>, d: nat)
    requires
        t1.depths(d) + rest1 == t2.depths(d) + rest2,
    ensures
        t1 == t2,
        rest1 == rest2,
    decreases t1,
{
    let all = t1.depths(d) + rest1;
    lemma_depths_at_least(t1, d);
    lemma_depths_at_least(t2, d);
    assert(all[0] == t1.depths(d)[0]);
    assert(all[0] == t2.depths(d)[0]);
    match (t1, t2) {
        (Shape::Leaf, Shape::Leaf) => {
            assert(rest1 =~= all.skip(1));
            assert(rest2 =~= all.skip(1));
        },
        (Shape::Node(l1, r1), Shape::Node(l2, r2)) => {
            assert(all =~= l1.depths(d + 1) + (r1.depths(d + 1) + rest1));
            assert(all =~= l2.depths(d + 1) + (r2.depths(d + 1) + rest2));
            lemma_depths_unique(
                *l1,
                r1.depths(d + 1) + rest1,
                *l2,
                r2.depths(d + 1) + rest2,
                d + 1,
            );
            lemma_depths_unique(*r1, rest1, *r2, rest2, d + 1);
        },
        _ => {},
    }
}

/// The depths before the end of a walk do not make up a walk of their own.
pub proof fn lemma_proper_prefix(t: Shape, i: int)
    requires
        0 <= i < t.depths(0).len(),
    ensures
        !dfs_complete(t.depths(0).take(i)),
{
    let depths = t.depths(0);
    if dfs_complete(depths.take(i)) {
        let s = choose|s: Shape|
            s.height() <= max_depth() && depths.take(i) == #[trigger] s.depths(0);
        assert(s.depths(0) + depths.skip(i) =~= depths + Seq::<nat>::empty());
        lemma_depths_unique(s, depths.skip(i), t, Seq::empty(), 0);
        assert(depths.skip(i).len() > 0);
    }
}

/// The first depths of a walk begin a walk.
pub proof fn lemma_prefix(t: Shape, i: int)
    requires
        t.height() <= max_depth(),
        0 <= i <= t.depths(0).len(),
    ensures
        dfs_prefix(t.depths(0).take(i)),
{
    assert(t.depths(0).take(i).is_prefix_of(t.depths(0)));
}

/// The depths of the leaves of a tree are those of its shape.
pub proof fn lemma_shape<Pk: MiniscriptKey, Ext>(tree: &TapTree<Pk, Ext>, d: nat)
    ensures
        tree.shape().height() == tree.height(),
        tree.leaves(d).map_values(|l: (nat, Miniscript<Pk, Ext>)| l.0) == tree.shape().depths(d),
    decreases tree,
{
    let depth = |l: (nat, Miniscript<Pk, Ext>)| l.0;
    match tree {
        TapTree::Tree(l, r) => {
            lemma_shape(&**l, d + 1);
            lemma_shape(&**r, d + 1);
            assert(tree.leaves(d).map_values(depth) =~= l.leaves(d + 1).map_values(depth)
                + r.leaves(d + 1).map_values(depth));
        },
        TapTree::Leaf(_) => {
            assert(tree.leaves(d).map_values(depth) =~= seq![d]);
        },
    }
}

/// No leaf is deeper than the tree is high, so that the limit on the height of a tree is one on the
/// depths of its leaves.
pub proof fn law_leaf_depths_within_height<Pk: MiniscriptKey, Ext>(tree: &TapTree<Pk, Ext>, d: nat)
    ensures
        forall|i: int|
            0 <= i < tree.leaves(d).len() ==> (#[trigger] tree.leaves(d)[i]).0 <= d + tree.height(),
    decreases tree,
{
    match tree {
        TapTree::Tree(l, r) => {
            law_leaf_depths_within_height(&**l, d + 1);
            law_leaf_depths_within_height(&**r, d + 1);
            let left = l.leaves(d + 1);
            assert forall|i: int| 0 <= i < tree.leaves(d).len() implies (#[trigger] tree.leaves(
                d,
            )[i]).0 <= d + tree.height() by {
                if i < left.len() {
                    assert(tree.leaves(d)[i] == left[i]);
                } else {
                    assert(tree.leaves(d)[i] == r.leaves(d + 1)[i - left.len()]);
                }
            }
        },
        TapTree::Leaf(_) => {},
    }
}

/// The depths of the encoded leaves of a tree are those of its shape.
pub proof fn lemma_leaf_depths<Pk: MiniscriptKey, Ext>(tree: &TapTree<Pk, Ext>)
    ensures
        tree.shape().height() == tree.height(),
        leaf_depths(script_leaves(*tree)) == tree.shape().depths(0),
{
    lemma_shape(tree, 0);
    assert(leaf_depths(script_leaves(*tree)) =~= tree.leaves(0).map_values(
        |l: (nat, Miniscript<Pk, Ext>)| l.0,
    ));
}

} // verus!
