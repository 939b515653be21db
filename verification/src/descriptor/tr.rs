//! Taproot descriptors: an internal key and, perhaps, a tree of scripts.

use crate::descriptor::compare::lemma_tree_eq_self;
use crate::descriptor::hash::lemma_equal_trees;
use crate::descriptor::tap_tree::{TapTree, TapTreeIter};
use crate::descriptor::walk::{lemma_leaf_depths, lemma_prefix, lemma_proper_prefix};
use crate::error::{Error, ErrorView};
use crate::miniscript::{Miniscript, MiniscriptKey, NoExt, ToPublicKey};
use crate::taproot::{
    add_leaf, address_parts, as_x_only, builder_leaves, control_blocks_fit, control_max_node_count,
    finalize, into_script, key_only_data, leaf_depths, max_depth, new_builder, new_key_spend,
    new_script_builder, output_key, p2tr_tweaked, push_opcode, push_slice, script_bytes,
    script_tree_data, serialize_x_only, spend_data, SpendData,
};
use crate::util::{lemma_skip_step, share};
use elements::secp256k1_zkp::PublicKey;
use elements::taproot::TaprootSpendInfo;
use elements::{Address, AddressParams, Script};
use std::sync::{Arc, OnceLock};
use vstd::prelude::*;

verus! {

/// The opcode that pushes the number 1.
pub const OP_PUSHNUM_1: u8 = 0x51;

/// The leaves of a tree by depth and encoded script, in depth-first order.
pub open spec fn script_leaves<Pk: MiniscriptKey, Ext>(tree: TapTree<Pk, Ext>) -> Seq<
    (nat, Seq<u8>),
> {
    tree.leaves(0).map_values(|l: (nat, Miniscript<Pk, Ext>)| (l.0, l.1.script@))
}

/// What is needed to spend the output of a descriptor with this internal key and tree.
pub open spec fn descriptor_spend_data<Pk: MiniscriptKey, Ext>(
    key: Pk,
    tree: Option<TapTree<Pk, Ext>>,
) -> SpendData {
    match tree {
        Some(t) => script_tree_data(key.x_only(), script_leaves(t)),
        None => key_only_data(key.x_only()),
    }
}

/// Whether this is the spending data of that descriptor: with its internal key, with a merkle root
/// exactly if it has a tree, and with control blocks for exactly its scripts.
pub open spec fn is_spend_data<Pk: MiniscriptKey, Ext>(
    key: Pk,
    tree: Option<TapTree<Pk, Ext>>,
    data: SpendData,
) -> bool {
    &&& data == descriptor_spend_data(key, tree)
    &&& data.internal_key == key.x_only()
    &&& match tree {
        Some(t) => {
            &&& data.merkle_root matches Some(root)
            &&& root.len() == 32
            &&& control_blocks_fit(data.control_blocks, key.x_only(), script_leaves(t))
        },
        None => data.merkle_root is None && data.control_blocks.dom().is_empty(),
    }
}

/// Spending data, with the internal key and the tree that they belong to.
struct Computed<Pk: MiniscriptKey, Ext> {
    /// The internal key.
    key: Pk,
    /// The tree of scripts, if there is one.
    tree: Option<TapTree<Pk, Ext>>,
    /// The spending data.
    info: Arc<TaprootSpendInfo>,
}

impl<Pk: MiniscriptKey, Ext> Computed<Pk, Ext> {
    #[verifier::type_invariant]
    spec fn inv(self) -> bool {
        is_spend_data(self.key, self.tree, spend_data(*self.info))
    }

    /// Tells whether the data belong to this internal key and this tree.
    fn belongs_to(&self, key: &Pk, tree: &Option<TapTree<Pk, Ext>>) -> (r: bool)
        ensures
            r ==> is_spend_data(*key, *tree, spend_data(*self.info)),
            self.key == *key && self.tree == *tree ==> r,
    {
        proof {
            use_type_invariant(self);
            Pk::lemma_order(&self.key, key, key);
            Pk::lemma_order(key, key, key);
        }
        if !self.key.is_same(key) {
            return false;
        }
        match (&self.tree, tree) {
            (Some(a), Some(b)) => {
                let equal = *a == *b;
                proof {
                    lemma_tree_eq_self(b);
                    if equal {
                        lemma_equal_trees(a, b, 0);
                        assert(script_leaves(*a) =~= script_leaves(*b));
                    }
                }
                equal
            },
            (None, None) => true,
            _ => false,
        }
    }
}

/// A taproot descriptor.
#[verifier::reject_recursive_types(Pk)]
#[verifier::reject_recursive_types(Ext)]
pub struct Tr<Pk: MiniscriptKey, Ext = NoExt> {
    /// The internal key.
    internal_key: Pk,
    /// The tree of scripts, if there is one.
    tree: Option<TapTree<Pk, Ext>>,
    /// The spending data, once it has been computed.
    spend_info: OnceLock<Computed<Pk, Ext>>,
}

impl<Pk: MiniscriptKey, Ext> Tr<Pk, Ext> {
    #[verifier::type_invariant]
    spec fn inv(self) -> bool {
        permitted_tree(self.tree)
    }

    /// The internal key.
    pub closed spec fn key(&self) -> Pk {
        self.internal_key
    }

    /// The tree of scripts.
    pub closed spec fn script_tree(&self) -> Option<TapTree<Pk, Ext>> {
        self.tree
    }

    /// All scripts with their depths, in depth-first order.
    pub open spec fn scripts(&self) -> Seq<(nat, Miniscript<Pk, Ext>)> {
        match self.script_tree() {
            Some(t) => t.leaves(0),
            None => Seq::empty(),
        }
    }

    /// A descriptor without a computed cache.
    pub(crate) fn uncached(internal_key: Pk, tree: Option<TapTree<Pk, Ext>>) -> (r: Self)
        requires
            permitted_tree(tree),
        ensures
            r.key() == internal_key,
            r.script_tree() == tree,
    {
        Tr { internal_key, tree, spend_info: OnceLock::new() }
    }

    /// Creates a descriptor from an internal key and a tree, unless the tree is too high.
    pub fn new(internal_key: Pk, tree: Option<TapTree<Pk, Ext>>) -> (r: Result<Self, Error>)
        ensures
            r is Ok <==> permitted_tree(tree),
            r matches Ok(d) ==> d.key() == internal_key && d.script_tree() == tree,
            r matches Err(e) ==> e@ == ErrorView::MaxRecursiveDepthExceeded,
    {
        let nodes: usize = match &tree {
            Some(t) => t.taptree_height(),
            None => 0,
        };
        if nodes <= control_max_node_count() {
            Ok(Self::uncached(internal_key, tree))
        } else {
            Err(Error::MaxRecursiveDepthExceeded)
        }
    }

    /// The internal key of the descriptor.
    pub fn internal_key(&self) -> (r: &Pk)
        ensures
            *r == self.key(),
    {
        &self.internal_key
    }

    /// The tree of the descriptor. It is never higher than the limit.
    pub fn taptree(&self) -> (r: &Option<TapTree<Pk, Ext>>)
        ensures
            *r == self.script_tree(),
            permitted_tree(*r),
    {
        proof {
            use_type_invariant(self);
        }
        &self.tree
    }

    /// Iterates over all scripts. Without a tree there is none.
    pub fn iter_scripts(&self) -> (r: TapTreeIter<'_, Pk, Ext>)
        ensures
            r.wf(),
            r.remaining() == self.scripts(),
            permitted_tree(self.script_tree()),
    {
        proof {
            use_type_invariant(self);
        }
        match &self.tree {
            Some(t) => t.iter(),
            None => TapTreeIter::empty(),
        }
    }

    /// The spending data of the descriptor. It is computed when it is first asked for, and
    /// kept.
    pub fn spend_info(&self) -> (r: Arc<TaprootSpendInfo>) where Pk: ToPublicKey
        ensures
            is_spend_data(self.key(), self.script_tree(), spend_data(*r)),
    {
        if let Some(computed) = self.spend_info.get() {
            if computed.belongs_to(&self.internal_key, &self.tree) {
                return share(&computed.info);
            }
        }
        let data = match &self.tree {
            None => new_key_spend(self.internal_key.to_x_only_pubkey()),
            Some(tree) => self.script_spend_info(tree),
        };
        let spend_info = Arc::new(data);
        let _ = self.spend_info.set(
            Computed {
                key: cloned_key(&self.internal_key),
                tree: cloned_tree(&self.tree),
                info: share(&spend_info),
            },
        );
        spend_info
    }

    /// Computes the spending data for a descriptor with a tree.
    fn script_spend_info(&self, tree: &TapTree<Pk, Ext>) -> (r: TaprootSpendInfo) where
        Pk: ToPublicKey,

        requires
            self.script_tree() == Some(*tree),
        ensures
            is_spend_data(self.key(), self.script_tree(), spend_data(r)),
    {
        let mut builder = new_builder();
        let mut scripts = self.iter_scripts();
        let ghost leaves = script_leaves(*tree);
        let ghost mut i: int = 0;
        proof {
            lemma_leaf_depths(tree);
            assert(builder_leaves(builder) =~= leaves.take(0));
            assert(tree.leaves(0).skip(0) =~= tree.leaves(0));
        }
        loop
            invariant
                0 <= i <= leaves.len(),
                leaves == script_leaves(*tree),
                scripts.wf(),
                scripts.remaining() == tree.leaves(0).skip(i),
                builder_leaves(builder) == leaves.take(i),
                leaf_depths(leaves) == tree.shape().depths(0),
                tree.shape().height() <= max_depth(),
            ensures
                builder_leaves(builder) == leaves,
            decreases leaves.len() - i,
        {
            match scripts.next() {
                Some((depth, ms)) => {
                    proof {
                        let depths = leaf_depths(leaves);
                        lemma_skip_step(
                            tree.leaves(0),
                            i,
                            (depth as nat, *ms),
                            scripts.remaining(),
                        );
                        assert(leaves[i] == (depth as nat, ms.script@));
                        assert(leaf_depths(leaves.take(i)) =~= depths.take(i));
                        assert(depths.take(i).push(depth as nat) =~= depths.take(i + 1));
                        lemma_proper_prefix(tree.shape(), i);
                        lemma_prefix(tree.shape(), i + 1);
                        assert(leaves.take(i).push(leaves[i]) =~= leaves.take(i + 1));
                    }
                    builder = add_leaf(builder, depth, ms.script.clone()).unwrap();
                    proof {
                        i = i + 1;
                    }
                },
                None => {
                    assert(leaves.take(i) =~= leaves);
                    break;
                },
            }
        }
        finalize(builder, self.internal_key.to_x_only_pubkey()).unwrap()
    }
}

impl<Pk: MiniscriptKey, Ext> Clone for Tr<Pk, Ext> {
    /// Clones the descriptor. The clone takes over the spending data, if they have been computed.
    fn clone(&self) -> (r: Self)
        ensures
            r.key() == self.key(),
            r.script_tree() == self.script_tree(),
    {
        proof {
            use_type_invariant(self);
        }
        let spend_info: OnceLock<Computed<Pk, Ext>> = OnceLock::new();
        if let Some(computed) = self.spend_info.get() {
            proof {
                use_type_invariant(computed);
            }
            let _ = spend_info.set(
                Computed {
                    key: cloned_key(&computed.key),
                    tree: cloned_tree(&computed.tree),
                    info: share(&computed.info),
                },
            );
        }
        Tr {
            internal_key: cloned_key(&self.internal_key),
            tree: cloned_tree(&self.tree),
            spend_info,
        }
    }
}

/// Clones a key.
pub(crate) fn cloned_key<Pk: MiniscriptKey>(key: &Pk) -> (r: Pk)
    ensures
        r == *key,
{
    let r = key.clone();
    proof {
        Pk::lemma_clone(*key, r);
    }
    r
}

/// Clones a tree that may be absent.
fn cloned_tree<Pk: MiniscriptKey, Ext>(tree: &Option<TapTree<Pk, Ext>>) -> (r: Option<
    TapTree<Pk, Ext>,
>)
    ensures
        r == *tree,
{
    match tree {
        Some(t) => Some(t.clone()),
        None => None,
    }
}

impl<Pk: ToPublicKey, Ext> Tr<Pk, Ext> {
    /// The output key that the descriptor commits to.
    pub open spec fn output_key(&self) -> Seq<u8> {
        descriptor_spend_data(self.key(), self.script_tree()).output_key
    }

    /// Obtains the script pubkey of the descriptor: witness version 1 and the output key.
    pub fn script_pubkey(&self) -> (r: Script)
        ensures
            script_bytes(r) == seq![0x51u8, 0x20u8] + self.output_key(),
            self.output_key().len() == 32,
    {
        let info = self.spend_info();
        let key = output_key(&info);
        let program = serialize_x_only(as_x_only(&key));
        let builder = push_opcode(new_script_builder(), OP_PUSHNUM_1);
        let builder = push_slice(builder, &program);
        let r = into_script(builder);
        assert(script_bytes(r) =~= seq![0x51u8, 0x20u8] + self.output_key());
        r
    }

    /// Obtains the address of the descriptor: witness version 1 and the output key.
    pub fn address(&self, blinder: Option<PublicKey>, params: &'static AddressParams) -> (r:
        Address)
        ensures
            address_parts(r).version == 1,
            address_parts(r).program == self.output_key(),
            address_parts(r).blinder == blinder,
            address_parts(r).params == *params,
    {
        let info = self.spend_info();
        p2tr_tweaked(output_key(&info), blinder, params)
    }
}

/// A tree that a descriptor can have.
pub open spec fn permitted_tree<Pk: MiniscriptKey, Ext>(tree: Option<TapTree<Pk, Ext>>) -> bool {
    tree matches Some(t) ==> t.height() <= max_depth()
}

} // verus!
