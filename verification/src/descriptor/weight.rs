//! The weights that are counted, and the witnesses that are made.

use crate::descriptor::spend::{
    control_block_size, is_max_weight, is_smallest, is_spend, key_candidate, leaf_candidates,
    leaf_weight, satisfiable, spend_candidates, weights_fit,
};
use crate::descriptor::tap_tree::TapTree;
use crate::descriptor::tr::Tr;
use crate::error::ErrorView;
use crate::miniscript::{Miniscript, MiniscriptKey};
use crate::util::{elements_size, length_prefixes, serialized_size, varint_size};
use elements::SchnorrSig;
use std::sync::Arc;
use vstd::prelude::*;

verus! {

/// The sizes of a stack with one more element.
proof fn lemma_one_more(wit: Seq<Seq<u8>>, element: Seq<u8>)
    ensures
        elements_size(wit.push(element)) == elements_size(wit) + element.len(),
        length_prefixes(wit.push(element)) == length_prefixes(wit) + varint_size(element.len()),
{
    assert(wit.push(element).drop_last() =~= wit);
}

/// Whether a witness keeps to the limits of its script: in the number of its elements, and in
/// their total size with their lengths.
pub open spec fn keeps_limits<Pk: MiniscriptKey, Ext>(
    ms: Miniscript<Pk, Ext>,
    wit: Seq<Seq<u8>>,
) -> bool {
    &&& satisfiable(ms)
    &&& wit.len() <= ms.max_witness_elements->0
    &&& length_prefixes(wit) + elements_size(wit) <= ms.max_witness_size->0
}

/// The largest weight bounds the weight of every stack that spends through a leaf with a witness
/// that keeps to the limits of its script. The length of the empty scriptSig weighs four.
pub proof fn law_max_weight_is_a_bound<Pk: MiniscriptKey, Ext>(
    leaves: Seq<(nat, Miniscript<Pk, Ext>)>,
    weight: nat,
    i: int,
    wit: Seq<Seq<u8>>,
    block: Seq<u8>,
)
    requires
        is_max_weight(leaves, weight),
        0 <= i < leaves.len(),
        keeps_limits(leaves[i].1, wit),
        block.len() <= control_block_size(leaves[i].0),
    ensures
        4 + serialized_size(wit.push(leaves[i].1.script@).push(block)) <= weight,
{
    assert(leaf_weight(leaves[i]) <= weight);
    lemma_one_more(wit, leaves[i].1.script@);
    lemma_one_more(wit.push(leaves[i].1.script@), block);
}

/// The largest weight bounds the weight of every stack that spends with the internal key.
pub proof fn law_max_weight_covers_key_spend<Pk: MiniscriptKey, Ext>(
    leaves: Seq<(nat, Miniscript<Pk, Ext>)>,
    weight: nat,
    sig: Seq<u8>,
)
    requires
        is_max_weight(leaves, weight),
        sig.len() <= 65,
    ensures
        4 + serialized_size(seq![sig]) <= weight,
{
    lemma_one_more(Seq::empty(), sig);
    assert(Seq::empty().push(sig) =~= seq![sig]);
}

/// What spends from a descriptor is one of the stacks that can be made of what is known, and none
/// of them is smaller. There is something that spends exactly if there is such a stack.
pub proof fn law_spend_is_smallest<Pk: MiniscriptKey, Ext>(
    desc: Tr<Pk, Ext>,
    sig: Option<SchnorrSig>,
    wits: Seq<Option<Seq<Seq<u8>>>>,
    r: Result<Seq<Seq<u8>>, ErrorView>,
)
    requires
        is_spend(desc, sig, wits, r),
    ensures
        ({
            let candidates = spend_candidates(desc, sig, wits);
            &&& r is Ok <==> exists|c: Seq<Seq<u8>>| candidates.contains(Some(c))
            &&& r matches Ok(stack) ==> candidates.contains(Some(stack)) && forall|c: Seq<Seq<u8>>|
                #[trigger] candidates.contains(Some(c)) ==> serialized_size(stack)
                    <= serialized_size(c)
        }),
{
    let candidates = spend_candidates(desc, sig, wits);
    if let Ok(stack) = r {
        let best = choose|best: int|
            #[trigger] is_smallest(candidates, best) && candidates[best] == Some(stack);
        assert(candidates[best] == Some(stack));
        assert(candidates.contains(Some(stack)));
        assert forall|c: Seq<Seq<u8>>| #[trigger] candidates.contains(Some(c)) implies
            serialized_size(stack) <= serialized_size(c) by {
            let i = choose|i: int| 0 <= i < candidates.len() && candidates[i] == Some(c);
            assert(candidates[i] is Some);
        }
    }
}

/// What spends from a descriptor never weighs more than the largest weight, provided that every
/// witness keeps to the limits of its script.
pub proof fn law_spend_within_max_weight<Pk: MiniscriptKey, Ext>(
    desc: Tr<Pk, Ext>,
    sig: Option<SchnorrSig>,
    wits: Seq<Option<Seq<Seq<u8>>>>,
    stack: Seq<Seq<u8>>,
    weight: nat,
)
    requires
        is_spend(desc, sig, wits, Ok(stack)),
        is_max_weight(desc.scripts(), weight),
        forall|i: int|
            0 <= i < wits.len() && (#[trigger] wits[i]) is Some ==> keeps_limits(
                desc.scripts()[i].1,
                wits[i]->0,
            ),
    ensures
        4 + serialized_size(stack) <= weight,
{
    let candidates = spend_candidates(desc, sig, wits);
    let best = choose|best: int|
        #[trigger] is_smallest(candidates, best) && candidates[best] == Some(stack);
    if best < wits.len() {
        assert(candidates[best] == leaf_candidates(desc, wits)[best]);
        assert(wits[best] is Some);
        let script = desc.scripts()[best].1.script@;
        law_max_weight_is_a_bound(desc.scripts(), weight, best, wits[best]->0, stack.last());
        assert(stack.drop_last() =~= wits[best]->0.push(script));
    } else {
        assert(candidates[best] == key_candidate(sig));
        law_max_weight_covers_key_spend(desc.scripts(), weight, stack[0]);
        assert(stack =~= seq![stack[0]]);
    }
}

/// The largest weight depends on which leaves there are, not on their order.
pub proof fn law_max_weight_ignores_order<Pk: MiniscriptKey, Ext>(
    a: Seq<(nat, Miniscript<Pk, Ext>)>,
    b: Seq<(nat, Miniscript<Pk, Ext>)>,
    weight: nat,
)
    requires
        forall|leaf: (nat, Miniscript<Pk, Ext>)| #[trigger] a.contains(leaf) <==> b.contains(leaf),
    ensures
        is_max_weight(a, weight) <==> is_max_weight(b, weight),
        weights_fit(a) <==> weights_fit(b),
{
    assert forall|i: int| 0 <= i < a.len() implies b.contains(#[trigger] a[i]) by {
        assert(a.contains(a[i]));
    }
    assert forall|i: int| 0 <= i < b.len() implies a.contains(#[trigger] b[i]) by {
        assert(b.contains(b[i]));
    }
}

/// There is only one largest weight.
proof fn lemma_max_weight_unique<Pk: MiniscriptKey, Ext>(
    leaves: Seq<(nat, Miniscript<Pk, Ext>)>,
    v: nat,
    w: nat,
)
    requires
        is_max_weight(leaves, v),
        is_max_weight(leaves, w),
    ensures
        v == w,
{
}

/// The largest weight stays when the subtrees of a tree are exchanged, and it is never below that
/// of a descriptor without scripts.
pub proof fn law_max_weight_of_exchanged_subtrees<Pk: MiniscriptKey, Ext>(
    l: &Arc<TapTree<Pk, Ext>>,
    r: &Arc<TapTree<Pk, Ext>>,
    weight: nat,
    exchanged: nat,
    bare: nat,
)
    requires
        is_max_weight(TapTree::Tree(*l, *r).leaves(0), weight),
        is_max_weight(TapTree::Tree(*r, *l).leaves(0), exchanged),
        is_max_weight(Seq::<(nat, Miniscript<Pk, Ext>)>::empty(), bare),
    ensures
        weight == exchanged,
        weight >= bare,
        weights_fit(TapTree::Tree(*l, *r).leaves(0)) <==> weights_fit(
            TapTree::Tree(*r, *l).leaves(0),
        ),
{
    let (x, y) = (l.leaves(1), r.leaves(1));
    let a = x + y;
    let b = y + x;
    assert(TapTree::Tree(*l, *r).leaves(0) =~= a);
    assert(TapTree::Tree(*r, *l).leaves(0) =~= b);
    assert forall|leaf: (nat, Miniscript<Pk, Ext>)| #[trigger]
        a.contains(leaf) <==> b.contains(leaf) by {
        lemma_concat_contains(x, y, leaf);
        lemma_concat_contains(y, x, leaf);
    }
    law_max_weight_ignores_order(a, b, weight);
    lemma_max_weight_unique(b, weight, exchanged);
}

/// Two sequences together hold what one of them holds.
proof fn lemma_concat_contains<A>(x: Seq<A>, y: Seq<A>, e: A)
    ensures
        (x + y).contains(e) <==> x.contains(e) || y.contains(e),
{
    let all = x + y;
    if x.contains(e) {
        let i = choose|i: int| 0 <= i < x.len() && x[i] == e;
        assert(all[i] == e);
    }
    if y.contains(e) {
        let i = choose|i: int| 0 <= i < y.len() && y[i] == e;
        assert(all[i + x.len()] == e);
    }
    if all.contains(e) {
        let i = choose|i: int| 0 <= i < all.len() && all[i] == e;
        if i < x.len() {
            assert(x[i] == e);
        } else {
            assert(y[i - x.len()] == e);
        }
    }
}

} // verus!
