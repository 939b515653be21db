//! What spends from a descriptor, and what it weighs at most.

use crate::descriptor::spend::{
    control_block_size, gives_witnesses, is_choice, is_max_weight, is_smallest, is_spend,
    is_tap_spend, key_candidate, leaf_candidates, leaf_stack, leaf_weight, satisfiable,
    spend_candidates, weights_fit, witnesses_view,
};
use crate::descriptor::tr::{descriptor_spend_data, Tr};
use crate::descriptor::weight::{keeps_limits, law_max_weight_is_a_bound};
use crate::error::ErrorView;
use crate::laws::trees::law_commitment;
use crate::miniscript::{Miniscript, MiniscriptKey, Satisfier};
use crate::taproot::{key_only_data, script_tree_data, signature_bytes};
use crate::util::{elements_size, length_prefixes, serialized_size, stack_view, varint_size};
use elements::SchnorrSig;
use vstd::prelude::*;

verus! {

/// The chosen stack is one of those there are. None of the others is smaller, and none behind it
/// is as small. Without any stack there is nothing to choose.
pub proof fn law_choice(
    candidates: Seq<Option<Seq<Seq<u8>>>>,
    r: Result<Seq<Seq<u8>>, ErrorView>,
)
    requires
        is_choice(candidates, r),
    ensures
        r is Err <==> forall|i: int|
            0 <= i < candidates.len() ==> (#[trigger] candidates[i]) is None,
        r matches Err(e) ==> e == ErrorView::CouldNotSatisfy,
        r matches Ok(stack) ==> exists|best: int|
            {
                &&& 0 <= best < candidates.len()
                &&& #[trigger] candidates[best] == Some(stack)
                &&& forall|i: int|
                    0 <= i < candidates.len() && i != best ==> (#[trigger] candidates[i]
                        matches Some(other) ==> serialized_size(stack) <= serialized_size(other)
                        && (i > best ==> serialized_size(stack) < serialized_size(other)))
            },
{
    if let Ok(stack) = r {
        let best = choose|best: int|
            #[trigger] is_smallest(candidates, best) && candidates[best] == Some(stack);
        assert(candidates[best] == Some(stack));
    }
}

/// Stacks that may be absent as mathematical values are absent where they are, and have the same
/// elements in the same order.
pub proof fn law_witnesses_view(wits: Seq<Option<Vec<Vec<u8>>>>, i: int, j: int)
    requires
        0 <= i < wits.len(),
    ensures
        witnesses_view(wits).len() == wits.len(),
        wits[i] is None <==> witnesses_view(wits)[i] is None,
        wits[i] matches Some(w) ==> {
            &&& witnesses_view(wits)[i]->0.len() == w@.len()
            &&& 0 <= j < w@.len() ==> witnesses_view(wits)[i]->0[j] == w@[j]@
        },
{
}

/// What spends is made of the signature or of one witness for a script: the signature alone, or
/// the witness, the script and the control block that the tree of the descriptor gives the script.
/// It is not larger than what could be made of the signature or of another witness. Of equally
/// small ones that of the signature is taken, or else that of the last script. There is something
/// that spends exactly if there is a signature or a witness.
pub proof fn law_spend<Pk: MiniscriptKey, Ext>(
    desc: Tr<Pk, Ext>,
    sig: Option<SchnorrSig>,
    wits: Seq<Option<Seq<Seq<u8>>>>,
    r: Result<Seq<Seq<u8>>, ErrorView>,
)
    requires
        is_spend(desc, sig, wits, r),
    ensures
        wits.len() == desc.scripts().len(),
        r is Err <==> sig is None && forall|i: int|
            0 <= i < wits.len() ==> (#[trigger] wits[i]) is None,
        r matches Err(e) ==> e == ErrorView::CouldNotSatisfy,
        sig matches Some(s) ==> 64 <= signature_bytes(s).len() <= 65,
        ({
            let t = desc.script_tree()->0;
            let blocks = script_tree_data(
                desc.key().x_only(),
                Seq::new(
                    t.leaves(0).len(),
                    |i: int| (t.leaves(0)[i].0, t.leaves(0)[i].1.script@),
                ),
            ).control_blocks;
            &&& forall|i: int|
                0 <= i < desc.scripts().len() ==> {
                    let script = (#[trigger] desc.scripts()[i]).1.script@;
                    blocks.contains_key(script) && blocks[script].len() <= 33 + 32
                        * desc.scripts()[i].0
                }
            &&& r matches Ok(stack) ==> {
                ||| sig matches Some(s) && stack == seq![signature_bytes(s)] && forall|i: int|
                    0 <= i < wits.len() ==> (#[trigger] wits[i] matches Some(w) ==> serialized_size(
                        stack,
                    ) <= serialized_size(
                        w + seq![
                            desc.scripts()[i].1.script@,
                            blocks[desc.scripts()[i].1.script@],
                        ],
                    ))
                ||| exists|b: int|
                    {
                        &&& 0 <= b < wits.len()
                        &&& #[trigger] wits[b] matches Some(w)
                        &&& stack == w + seq![
                            desc.scripts()[b].1.script@,
                            blocks[desc.scripts()[b].1.script@],
                        ]
                        &&& sig matches Some(s) ==> serialized_size(stack) < serialized_size(
                            seq![signature_bytes(s)],
                        )
                        &&& forall|i: int|
                            0 <= i < wits.len() && i != b ==> (#[trigger] wits[i] matches Some(
                                other,
                            ) ==> {
                                let rival = serialized_size(
                                    other + seq![
                                        desc.scripts()[i].1.script@,
                                        blocks[desc.scripts()[i].1.script@],
                                    ],
                                );
                                &&& serialized_size(stack) <= rival
                                &&& i > b ==> serialized_size(stack) < rival
                            })
                    }
            }
        }),
{
    let candidates = spend_candidates(desc, sig, wits);
    let n = wits.len() as int;
    law_choice(candidates, r);
    assert(candidates[n] == key_candidate(sig));
    if let Some(t) = desc.script_tree() {
        let data = descriptor_spend_data(desc.key(), desc.script_tree());
        law_commitment(desc.key(), &t, data);
    }
    let t = desc.script_tree()->0;
    let blocks = script_tree_data(
        desc.key().x_only(),
        Seq::new(t.leaves(0).len(), |i: int| (t.leaves(0)[i].0, t.leaves(0)[i].1.script@)),
    ).control_blocks;
    assert forall|i: int| 0 <= i < n implies #[trigger] candidates[i] == (match wits[i] {
        Some(w) => Some(
            w + seq![desc.scripts()[i].1.script@, blocks[desc.scripts()[i].1.script@]],
        ),
        None => None,
    }) by {
        assert(candidates[i] == leaf_candidates(desc, wits)[i]);
        if let Some(w) = wits[i] {
            assert(leaf_stack(desc, i, w) =~= w + seq![
                desc.scripts()[i].1.script@,
                blocks[desc.scripts()[i].1.script@],
            ]);
        }
    }
    assert forall|i: int| 0 <= i < n implies (#[trigger] wits[i] is Some <==> candidates[i]
        is Some) by {
        assert(candidates[i] is Some <==> wits[i] is Some);
    }
    if r is Err && sig is None {
        assert forall|i: int| 0 <= i < wits.len() implies (#[trigger] wits[i]) is None by {
            assert(candidates[i] is None);
        }
    }
    if let Ok(stack) = r {
        let best = choose|best: int|
            {
                &&& 0 <= best < candidates.len()
                &&& #[trigger] candidates[best] == Some(stack)
                &&& forall|i: int|
                    0 <= i < candidates.len() && i != best ==> (#[trigger] candidates[i]
                        matches Some(other) ==> serialized_size(stack) <= serialized_size(other)
                        && (i > best ==> serialized_size(stack) < serialized_size(other)))
            };
        if best < n {
            assert(wits[best] is Some);
        }
        assert forall|i: int| 0 <= i < n && i != best implies (#[trigger] wits[i] matches Some(w)
            ==> {
            let rival = serialized_size(
                w + seq![desc.scripts()[i].1.script@, blocks[desc.scripts()[i].1.script@]],
            );
            &&& serialized_size(stack) <= rival
            &&& i > best ==> serialized_size(stack) < rival
        }) by {
            assert(candidates[i] is Some <==> wits[i] is Some);
        }
    }
}

/// What spends with what a satisfier knows is what spends with the signature that it has and a
/// witness for each script that it may give.
pub proof fn law_tap_spend<Pk: MiniscriptKey, Ext, S: Satisfier<Pk, Ext>>(
    desc: Tr<Pk, Ext>,
    satisfier: S,
    allow_mall: bool,
    r: Result<Seq<Seq<u8>>, ErrorView>,
)
    ensures
        is_tap_spend(desc, satisfier, allow_mall, r) <==> exists|wits: Seq<Option<Vec<Vec<u8>>>>|
            {
                &&& #[trigger] wits.len() == desc.scripts().len()
                &&& forall|i: int|
                    0 <= i < desc.scripts().len() ==> satisfier.gives(
                        (#[trigger] desc.scripts()[i]).1,
                        allow_mall,
                        wits[i],
                    )
                &&& is_spend(
                    desc,
                    satisfier.key_spend_sig(),
                    Seq::new(
                        wits.len(),
                        |i: int|
                            match wits[i] {
                                Some(w) => Some(Seq::new(w@.len(), |j: int| w@[j]@)),
                                None => None,
                            },
                    ),
                    r,
                )
            },
{
    assert forall|wits: Seq<Option<Vec<Vec<u8>>>>| #[trigger]
        wits.len() >= 0 implies witnesses_view(wits) == Seq::new(
        wits.len(),
        |i: int|
            match wits[i] {
                Some(w) => Some(Seq::new(w@.len(), |j: int| w@[j]@)),
                None => None,
            },
    ) by {
        assert(witnesses_view(wits) =~= Seq::new(
            wits.len(),
            |i: int|
                match wits[i] {
                    Some(w) => Some(Seq::new(w@.len(), |j: int| w@[j]@)),
                    None => None,
                },
        )) by {
            assert forall|i: int| 0 <= i < wits.len() implies #[trigger] witnesses_view(
                wits,
            )[i] == (match wits[i] {
                Some(w) => Some(Seq::new(w@.len(), |j: int| w@[j]@)),
                None => None,
            }) by {
                if let Some(w) = wits[i] {
                    assert(stack_view(w@) =~= Seq::new(w@.len(), |j: int| w@[j]@));
                }
            }
        }
    }
    if is_tap_spend(desc, satisfier, allow_mall, r) {
        let wits = choose|wits: Seq<Option<Vec<Vec<u8>>>>|
            #[trigger] gives_witnesses(satisfier, desc.scripts(), allow_mall, wits) && is_spend(
                desc,
                satisfier.key_spend_sig(),
                witnesses_view(wits),
                r,
            );
        assert(wits.len() == desc.scripts().len());
    }
    if exists|wits: Seq<Option<Vec<Vec<u8>>>>|
        {
            &&& #[trigger] wits.len() == desc.scripts().len()
            &&& forall|i: int|
                0 <= i < desc.scripts().len() ==> satisfier.gives(
                    (#[trigger] desc.scripts()[i]).1,
                    allow_mall,
                    wits[i],
                )
            &&& is_spend(desc, satisfier.key_spend_sig(), witnesses_view(wits), r)
        } {
        let wits = choose|wits: Seq<Option<Vec<Vec<u8>>>>|
            {
                &&& #[trigger] wits.len() == desc.scripts().len()
                &&& forall|i: int|
                    0 <= i < desc.scripts().len() ==> satisfier.gives(
                        (#[trigger] desc.scripts()[i]).1,
                        allow_mall,
                        wits[i],
                    )
                &&& is_spend(desc, satisfier.key_spend_sig(), witnesses_view(wits), r)
            };
        assert(gives_witnesses(satisfier, desc.scripts(), allow_mall, wits));
    }
}

/// A satisfaction is the signature that the satisfier knows, alone, or a witness that the satisfier
/// may give for some script, followed by that script and then by its control block: the one that
/// the internal key and the tree of the descriptor give it.
pub proof fn law_satisfaction<Pk: MiniscriptKey, Ext, S: Satisfier<Pk, Ext>>(
    desc: Tr<Pk, Ext>,
    satisfier: S,
    allow_mall: bool,
    stack: Seq<Seq<u8>>,
)
    requires
        is_tap_spend(desc, satisfier, allow_mall, Ok(stack)),
    ensures
        ({
            ||| satisfier.key_spend_sig() matches Some(sig) && stack.len() == 1 && stack[0]
                == signature_bytes(sig)
            ||| exists|i: int, wit: Vec<Vec<u8>>|
                {
                    let t = desc.script_tree()->0;
                    let n = wit@.len() as int;
                    &&& 0 <= i < desc.scripts().len()
                    &&& #[trigger] satisfier.gives(desc.scripts()[i].1, allow_mall, Some(wit))
                    &&& desc.script_tree() is Some
                    &&& stack.len() == n + 2
                    &&& forall|j: int| 0 <= j < n ==> #[trigger] stack[j] == wit@[j]@
                    &&& stack[n] == desc.scripts()[i].1.script@
                    &&& stack[n + 1] == script_tree_data(
                        desc.key().x_only(),
                        Seq::new(
                            t.leaves(0).len(),
                            |k: int| (t.leaves(0)[k].0, t.leaves(0)[k].1.script@),
                        ),
                    ).control_blocks[desc.scripts()[i].1.script@]
                }
        }),
{
    let wits = choose|wits: Seq<Option<Vec<Vec<u8>>>>|
        #[trigger] gives_witnesses(satisfier, desc.scripts(), allow_mall, wits) && is_spend(
            desc,
            satisfier.key_spend_sig(),
            witnesses_view(wits),
            Ok(stack),
        );
    let views = witnesses_view(wits);
    let sig = satisfier.key_spend_sig();
    law_spend(desc, sig, views, Ok(stack));
    let t = desc.script_tree()->0;
    let blocks = script_tree_data(
        desc.key().x_only(),
        Seq::new(t.leaves(0).len(), |k: int| (t.leaves(0)[k].0, t.leaves(0)[k].1.script@)),
    ).control_blocks;
    if !(sig matches Some(s) && stack == seq![signature_bytes(s)]) {
        let b = choose|b: int|
            {
                &&& 0 <= b < views.len()
                &&& #[trigger] views[b] matches Some(w)
                &&& stack == w + seq![
                    desc.scripts()[b].1.script@,
                    blocks[desc.scripts()[b].1.script@],
                ]
            };
        assert(views[b] is Some);
        assert(wits[b] is Some);
        let wit = wits[b]->0;
        assert(satisfier.gives(desc.scripts()[b].1, allow_mall, Some(wit)));
        assert(views[b] == Some(stack_view(wit@)));
    }
}

/// Spending succeeds if the satisfier knows the signature, or if there is a script for which it
/// gives nothing but witnesses. It fails if it knows no signature and never gives a witness.
pub proof fn law_satisfaction_exists<Pk: MiniscriptKey, Ext, S: Satisfier<Pk, Ext>>(
    desc: Tr<Pk, Ext>,
    satisfier: S,
    allow_mall: bool,
    r: Result<Seq<Seq<u8>>, ErrorView>,
    i: int,
)
    requires
        is_tap_spend(desc, satisfier, allow_mall, r),
    ensures
        satisfier.key_spend_sig() is Some ==> r is Ok,
        0 <= i < desc.scripts().len() && (forall|wit: Option<Vec<Vec<u8>>>| #[trigger]
            satisfier.gives(desc.scripts()[i].1, allow_mall, wit) ==> wit is Some) ==> r is Ok,
        satisfier.key_spend_sig() is None && (forall|i: int, wit: Option<Vec<Vec<u8>>>|
            0 <= i < desc.scripts().len() && #[trigger] satisfier.gives(
                desc.scripts()[i].1,
                allow_mall,
                wit,
            ) ==> wit is None) ==> r == Err::<Seq<Seq<u8>>, ErrorView>(ErrorView::CouldNotSatisfy),
{
    let all = desc.scripts();
    let wits = choose|wits: Seq<Option<Vec<Vec<u8>>>>|
        #[trigger] gives_witnesses(satisfier, all, allow_mall, wits) && is_spend(
            desc,
            satisfier.key_spend_sig(),
            witnesses_view(wits),
            r,
        );
    law_spend(desc, satisfier.key_spend_sig(), witnesses_view(wits), r);
    assert forall|i: int| 0 <= i < all.len() implies satisfier.gives(
        (#[trigger] all[i]).1,
        allow_mall,
        wits[i],
    ) && (witnesses_view(wits)[i] is Some <==> wits[i] is Some) by {}
    if 0 <= i < all.len() {
        assert(satisfier.gives(all[i].1, allow_mall, wits[i]));
        assert(witnesses_view(wits)[i] is Some <==> wits[i] is Some);
    }
}

/// The largest weight is not below that of any stack that spends through a script with a witness
/// within the script's two limits, whatever else is true of the script. The length of the empty
/// scriptSig weighs four.
pub proof fn law_max_weight_bounds_every_witness<Pk: MiniscriptKey, Ext>(
    leaves: Seq<(nat, Miniscript<Pk, Ext>)>,
    weight: nat,
    i: int,
    wit: Seq<Seq<u8>>,
    block: Seq<u8>,
)
    requires
        is_max_weight(leaves, weight),
        0 <= i < leaves.len(),
        leaves[i].1.max_witness_elements is Some,
        leaves[i].1.max_witness_size is Some,
        wit.len() <= leaves[i].1.max_witness_elements->0,
        length_prefixes(wit) + elements_size(wit) <= leaves[i].1.max_witness_size->0,
        block.len() <= 33 + 32 * leaves[i].0,
    ensures
        4 + serialized_size(wit + seq![leaves[i].1.script@, block]) <= weight,
{
    law_max_weight_is_a_bound(leaves, weight, i, wit, block);
    assert(wit + seq![leaves[i].1.script@, block] =~= wit.push(leaves[i].1.script@).push(block));
}

/// The largest weight is that of the signature, which is 71, or that of the heaviest script with
/// both limits.
pub proof fn law_max_weight<Pk: MiniscriptKey, Ext>(
    leaves: Seq<(nat, Miniscript<Pk, Ext>)>,
    weight: nat,
)
    ensures
        is_max_weight(leaves, weight) <==> {
            &&& weight >= 71
            &&& forall|i: int|
                0 <= i < leaves.len() && (#[trigger] leaves[i]).1.max_witness_elements is Some
                    && leaves[i].1.max_witness_size is Some ==> 4 + varint_size(
                    (leaves[i].1.max_witness_elements->0 + 2) as nat,
                ) + leaves[i].1.max_witness_size->0 + varint_size(leaves[i].1.script@.len())
                    + leaves[i].1.script@.len() + varint_size(33 + 32 * leaves[i].0) + 33 + 32
                    * leaves[i].0 <= weight
            &&& weight == 71 || exists|i: int|
                0 <= i < leaves.len() && (#[trigger] leaves[i]).1.max_witness_elements is Some
                    && leaves[i].1.max_witness_size is Some && 4 + varint_size(
                    (leaves[i].1.max_witness_elements->0 + 2) as nat,
                ) + leaves[i].1.max_witness_size->0 + varint_size(leaves[i].1.script@.len())
                    + leaves[i].1.script@.len() + varint_size(33 + 32 * leaves[i].0) + 33 + 32
                    * leaves[i].0 == weight
        },
{
    assert forall|i: int| 0 <= i < leaves.len() implies (satisfiable((#[trigger] leaves[i]).1)
        <==> leaves[i].1.max_witness_elements is Some && leaves[i].1.max_witness_size is Some) && (
    satisfiable(leaves[i].1) ==> leaf_weight(leaves[i]) == 4 + varint_size(
        (leaves[i].1.max_witness_elements->0 + 2) as nat,
    ) + leaves[i].1.max_witness_size->0 + varint_size(leaves[i].1.script@.len())
        + leaves[i].1.script@.len() + varint_size(33 + 32 * leaves[i].0) + 33 + 32
        * leaves[i].0) by {}
}

/// Weights can be counted as long as they, and the number of elements on the stack, fit into a
/// `usize`, for every script with both limits. A witness keeps to limits that both exist and that
/// it does not exceed.
pub proof fn law_weights_fit<Pk: MiniscriptKey, Ext>(
    leaves: Seq<(nat, Miniscript<Pk, Ext>)>,
    ms: Miniscript<Pk, Ext>,
    wit: Seq<Seq<u8>>,
    depth: nat,
)
    ensures
        weights_fit(leaves) <==> forall|i: int|
            0 <= i < leaves.len() && (#[trigger] leaves[i]).1.max_witness_elements is Some
                && leaves[i].1.max_witness_size is Some ==> {
                &&& leaves[i].1.max_witness_elements->0 + 2 <= usize::MAX
                &&& 4 + varint_size((leaves[i].1.max_witness_elements->0 + 2) as nat)
                    + leaves[i].1.max_witness_size->0 + varint_size(leaves[i].1.script@.len())
                    + leaves[i].1.script@.len() + varint_size(33 + 32 * leaves[i].0) + 33 + 32
                    * leaves[i].0 <= usize::MAX
            },
        keeps_limits(ms, wit) <==> (ms.max_witness_elements matches Some(n) && wit.len() <= n) && (
        ms.max_witness_size matches Some(n) && length_prefixes(wit) + elements_size(wit) <= n),
        control_block_size(depth) == 33 + 32 * depth,
{
}

} // verus!
