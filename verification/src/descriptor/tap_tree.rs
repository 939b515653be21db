//! Trees of scripts, and the walk over their leaves.

use crate::miniscript::{Miniscript, MiniscriptKey, NoExt};
use crate::taproot::Shape;
use crate::util::share;
use std::sync::Arc;
use vstd::prelude::*;

verus! {

/// A tree of scripts, each a way to spend.
pub enum TapTree<Pk: MiniscriptKey, Ext = NoExt> {
    /// Two subtrees.
    Tree(Arc<TapTree<Pk, Ext>>, Arc<TapTree<Pk, Ext>>),
    /// A script.
    Leaf(Arc<Miniscript<Pk, Ext>>),
}

impl<Pk: MiniscriptKey, Ext> TapTree<Pk, Ext> {
    /// The length of the longest path from the root to a leaf.
    pub open spec fn height(&self) -> nat
        decreases self,
    {
        match self {
            TapTree::Tree(l, r) => 1 + if l.height() > r.height() {
                l.height()
            } else {
                r.height()
            },
            TapTree::Leaf(_) => 0,
        }
    }

    /// The leaves with their depths, in depth-first order, when the root is at depth `d`.
    pub open spec fn leaves(&self, d: nat) -> Seq<(nat, Miniscript<Pk, Ext>)>
        decreases self,
    {
        match self {
            TapTree::Tree(l, r) => l.leaves(d + 1) + r.leaves(d + 1),
            TapTree::Leaf(ms) => seq![(d, **ms)],
        }
    }

    /// The shape of the tree.
    pub open spec fn shape(&self) -> Shape
        decreases self,
    {
        match self {
            TapTree::Tree(l, r) => Shape::Node(Box::new(l.shape()), Box::new(r.shape())),
            TapTree::Leaf(_) => Shape::Leaf,
        }
    }

    /// The number of nodes, inner ones and leaves.
    pub open spec fn nodes(&self) -> nat
        decreases self,
    {
        match self {
            TapTree::Tree(l, r) => 1 + l.nodes() + r.nodes(),
            TapTree::Leaf(_) => 1,
        }
    }

    /// Computes the height. A height that no `usize` can hold comes out as `usize::MAX`.
    pub fn taptree_height(&self) -> (r: usize)
        ensures
            self.height() <= usize::MAX ==> r == self.height(),
            self.height() > usize::MAX ==> r == usize::MAX,
        decreases self,
    {
        match self {
            TapTree::Tree(left_tree, right_tree) => {
                let left: usize = left_tree.taptree_height();
                let right: usize = right_tree.taptree_height();
                if left > right {
                    left.saturating_add(1)
                } else {
                    right.saturating_add(1)
                }
            },
            TapTree::Leaf(_) => 0,
        }
    }

    /// Iterates over all scripts, with their depths, in depth-first order.
    pub fn iter(&self) -> (r: TapTreeIter<'_, Pk, Ext>)
        requires
            self.height() <= usize::MAX,
        ensures
            r.wf(),
            r.remaining() == self.leaves(0),
    {
        let mut stack: Vec<(usize, &TapTree<Pk, Ext>)> = Vec::new();
        stack.push((0, self));
        proof {
            reveal_with_fuel(remaining_leaves, 2);
            assert(stack@.drop_last() =~= Seq::empty());
            assert(remaining_leaves(stack@) =~= self.leaves(0));
        }
        TapTreeIter { stack }
    }
}

impl<Pk: MiniscriptKey, Ext> Clone for TapTree<Pk, Ext> {
    fn clone(&self) -> (r: Self)
        ensures
            r == *self,
    {
        match self {
            TapTree::Tree(l, r) => TapTree::Tree(share(l), share(r)),
            TapTree::Leaf(ms) => TapTree::Leaf(share(ms)),
        }
    }
}

/// An iterator over the scripts of a tree that yields pairs of depth and script in a depth-first
/// walk. For example, this tree:
///
/// ```text
///        - N0 -
///       /      \
///      N1       N2
///     /  \     /  \
///    A    B   C    N3
///                 /  \
///                D    E
/// ```
///
/// yields (2, A), (2, B), (2, C), (3, D), (3, E).
pub struct TapTreeIter<'a, Pk: MiniscriptKey, Ext> {
    /// The subtrees that are still to be walked, the next one last, each with its depth.
    stack: Vec<(usize, &'a TapTree<Pk, Ext>)>,
}

/// The leaves below the subtrees on a stack, from its end.
closed spec fn remaining_leaves<Pk: MiniscriptKey, Ext>(
    stack: Seq<(usize, &TapTree<Pk, Ext>)>,
) -> Seq<(nat, Miniscript<Pk, Ext>)>
    decreases stack.len(),
{
    if stack.len() == 0 {
        Seq::empty()
    } else {
        stack.last().1.leaves(stack.last().0 as nat) + remaining_leaves(stack.drop_last())
    }
}

/// The number of nodes below the subtrees on a stack.
closed spec fn remaining_nodes<Pk: MiniscriptKey, Ext>(
    stack: Seq<(usize, &TapTree<Pk, Ext>)>,
) -> nat
    decreases stack.len(),
{
    if stack.len() == 0 {
        0
    } else {
        stack.last().1.nodes() + remaining_nodes(stack.drop_last())
    }
}

impl<'a, Pk: MiniscriptKey, Ext> TapTreeIter<'a, Pk, Ext> {
    /// No depth on the way outgrows a `usize`.
    pub closed spec fn wf(&self) -> bool {
        forall|i: int|
            0 <= i < self.stack@.len() ==> (#[trigger] self.stack@[i]).0 + self.stack@[i].1.height()
                <= usize::MAX
    }

    /// What the iterator is still to yield.
    pub closed spec fn remaining(&self) -> Seq<(nat, Miniscript<Pk, Ext>)> {
        remaining_leaves(self.stack@)
    }

    /// An iterator that yields nothing.
    pub(crate) fn empty() -> (r: Self)
        ensures
            r.wf(),
            r.remaining().len() == 0,
    {
        TapTreeIter { stack: Vec::new() }
    }

    /// Yields the next script and its depth.
    pub fn next(&mut self) -> (r: Option<(usize, &'a Miniscript<Pk, Ext>)>)
        requires
            old(self).wf(),
        ensures
            final(self).wf(),
            r is None <==> old(self).remaining().len() == 0,
            r is None ==> final(self).remaining().len() == 0,
            r matches Some((depth, ms)) ==> old(self).remaining() == seq![(depth as nat, *ms)]
                + final(self).remaining(),
    {
        let ghost all = self.remaining();
        while !self.stack.is_empty()
            invariant
                self.wf(),
                self.remaining() == all,
                all == old(self).remaining(),
            decreases remaining_nodes(self.stack@),
        {
            let ghost before = self.stack@;
            let (depth, last) = self.stack.pop().unwrap();
            let ghost rest = self.stack@;
            proof {
                assert(rest =~= before.drop_last());
                assert(before[before.len() - 1] == before.last());
                assert forall|i: int| 0 <= i < rest.len() implies (#[trigger] rest[i]).0
                    + rest[i].1.height() <= usize::MAX by {
                    assert(rest[i] == before[i]);
                }
            }
            match last {
                TapTree::Tree(l, r) => {
                    let left: &'a TapTree<Pk, Ext> = l;
                    let right: &'a TapTree<Pk, Ext> = r;
                    self.stack.push((depth + 1, right));
                    let ghost middle = self.stack@;
                    self.stack.push((depth + 1, left));
                    proof {
                        reveal_with_fuel(remaining_leaves, 3);
                        reveal_with_fuel(remaining_nodes, 3);
                        assert(middle.drop_last() =~= rest);
                        assert(self.stack@.drop_last() =~= middle);
                        assert(remaining_leaves(self.stack@) =~= all);
                    }
                },
                TapTree::Leaf(ms) => {
                    return Some((depth, ms));
                },
            }
        }
        None
    }
}

impl<'a, Pk: MiniscriptKey, Ext> Clone for TapTreeIter<'a, Pk, Ext> {
    /// Clones the iterator. The clone yields what the iterator is still to yield.
    fn clone(&self) -> (r: Self)
        ensures
            self.wf() ==> r.wf(),
            r.remaining() == self.remaining(),
    {
        let mut stack: Vec<(usize, &'a TapTree<Pk, Ext>)> = Vec::new();
        let mut i: usize = 0;
        while i < self.stack.len()
            invariant
                i <= self.stack@.len(),
                stack@ == self.stack@.take(i as int),
            decreases self.stack@.len() - i,
        {
            stack.push(self.stack[i]);
            assert(stack@ =~= self.stack@.take(i + 1));
            i += 1;
        }
        assert(stack@ =~= self.stack@);
        TapTreeIter { stack }
    }
}

} // verus!
