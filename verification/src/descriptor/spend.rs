//! What a witness that spends from a descriptor weighs, and the one of minimum weight.

use crate::descriptor::tr::{descriptor_spend_data, script_leaves, Tr};
use crate::error::{Error, ErrorView};
use crate::miniscript::{Miniscript, MiniscriptKey, Satisfier, ToPublicKey};
use crate::taproot::{
    control_base_size, control_block, control_node_size, empty_script, script_bytes,
    serialize_control_block, serialize_signature, signature_bytes, spend_data,
};
use crate::util::{
    lemma_skip_step, serialized_size, stack_view, varint_len, varint_size, witness_size,
    WitnessSize,
};
use elements::{SchnorrSig, Script};
use vstd::prelude::*;

verus! {

/// The length of a control block for a leaf at this depth.
pub open spec fn control_block_size(depth: nat) -> nat {
    33 + 32 * depth
}

/// Computes the length of a control block for a leaf at this depth.
pub fn control_block_len(depth: usize) -> (r: usize)
    requires
        control_block_size(depth as nat) <= usize::MAX,
    ensures
        r == control_block_size(depth as nat),
{
    control_base_size() + depth * control_node_size()
}

/// Whether some witness satisfies this script.
pub open spec fn satisfiable<Pk: MiniscriptKey, Ext>(ms: Miniscript<Pk, Ext>) -> bool {
    ms.max_witness_elements is Some && ms.max_witness_size is Some
}

/// The largest weight of a witness that spends through this leaf: the length of the empty
/// scriptSig, which weighs four, the number of elements on the stack, the witness of the script,
/// and the script and the control block, each behind its length.
pub open spec fn leaf_weight<Pk: MiniscriptKey, Ext>(leaf: (nat, Miniscript<Pk, Ext>)) -> nat {
    4 + varint_size((leaf.1.max_witness_elements->0 + 2) as nat) + (
    leaf.1.max_witness_size->0 as nat) + varint_size(leaf.1.script@.len()) + leaf.1.script@.len()
        + varint_size(control_block_size(leaf.0)) + control_block_size(leaf.0)
}

/// The largest weight of a witness that spends with the internal key: the length of the empty
/// scriptSig, the number of elements on the stack, and a signature with its hash type behind its
/// length.
pub open spec fn key_spend_weight() -> nat {
    4 + varint_size(1) + varint_size(65) + 65
}

/// A weight that some way of spending has and none of them exceeds.
pub open spec fn is_max_weight<Pk: MiniscriptKey, Ext>(
    leaves: Seq<(nat, Miniscript<Pk, Ext>)>,
    weight: nat,
) -> bool {
    &&& key_spend_weight() <= weight
    &&& forall|i: int|
        0 <= i < leaves.len() && satisfiable((#[trigger] leaves[i]).1) ==> leaf_weight(leaves[i])
            <= weight
    &&& weight == key_spend_weight() || exists|i: int|
        0 <= i < leaves.len() && satisfiable((#[trigger] leaves[i]).1) && leaf_weight(leaves[i])
            == weight
}

/// Whether the stacks and the weights of all leaves can be counted.
pub open spec fn weights_fit<Pk: MiniscriptKey, Ext>(
    leaves: Seq<(nat, Miniscript<Pk, Ext>)>,
) -> bool {
    forall|i: int|
        0 <= i < leaves.len() && satisfiable((#[trigger] leaves[i]).1) ==> leaf_weight(leaves[i])
            <= usize::MAX && leaves[i].1.max_witness_elements->0 + 2 <= usize::MAX
}

/// One more leaf raises the largest weight to its own, if that is larger.
proof fn lemma_max_weight_step<Pk: MiniscriptKey, Ext>(
    leaves: Seq<(nat, Miniscript<Pk, Ext>)>,
    i: int,
    weight: nat,
)
    requires
        0 <= i < leaves.len(),
        is_max_weight(leaves.take(i), weight),
    ensures
        !satisfiable(leaves[i].1) ==> is_max_weight(leaves.take(i + 1), weight),
        satisfiable(leaves[i].1) ==> is_max_weight(
            leaves.take(i + 1),
            if weight > leaf_weight(leaves[i]) {
                weight
            } else {
                leaf_weight(leaves[i])
            },
        ),
{
    let before = leaves.take(i);
    let after = leaves.take(i + 1);
    assert(after[i] == leaves[i]);
    assert forall|j: int| 0 <= j < i implies before[j] == #[trigger] after[j] by {}
    if weight != key_spend_weight() {
        let j = choose|j: int|
            0 <= j < before.len() && satisfiable((#[trigger] before[j]).1) && leaf_weight(before[j])
                == weight;
        assert(after[j] == before[j]);
    }
}

impl<Pk: MiniscriptKey, Ext> Tr<Pk, Ext> {
    /// Checks whether every script of the descriptor is safe to use. The first one that is not,
    /// in depth-first order, decides the error.
    pub fn sanity_check(&self) -> (r: Result<(), Error>)
        ensures
            r is Ok <==> forall|i: int|
                0 <= i < self.scripts().len() ==> (#[trigger] self.scripts()[i]).1.sanity is Ok,
            r matches Err(e) ==> exists|i: int|
                {
                    &&& 0 <= i < self.scripts().len()
                    &&& (#[trigger] self.scripts()[i]).1.sanity is Err
                    &&& e@ == ErrorView::AnalysisError(self.scripts()[i].1.sanity->Err_0)
                    &&& forall|j: int|
                        0 <= j < i ==> (#[trigger] self.scripts()[j]).1.sanity is Ok
                },
    {
        let mut scripts = self.iter_scripts();
        let ghost all = self.scripts();
        let ghost mut i: int = 0;
        assert(all.skip(0) =~= all);
        loop
            invariant
                0 <= i <= all.len(),
                all == self.scripts(),
                scripts.wf(),
                scripts.remaining() == all.skip(i),
                forall|j: int| 0 <= j < i ==> (#[trigger] all[j]).1.sanity is Ok,
            decreases all.len() - i,
        {
            match scripts.next() {
                Some((depth, ms)) => {
                    proof {
                        lemma_skip_step(all, i, (depth as nat, *ms), scripts.remaining());
                    }
                    if let Err(e) = ms.sanity {
                        assert(all[i].1.sanity is Err);
                        return Err(Error::AnalysisError(e));
                    }
                    proof {
                        i = i + 1;
                    }
                },
                None => {
                    return Ok(());
                },
            }
        }
    }

    /// Computes an upper bound on the weight of a witness that spends from the descriptor: that
    /// of the key, or that of the heaviest script that can be satisfied at all.
    ///
    /// The integers that tell the lengths of the scriptSig, of the witness stack and of each of
    /// its elements are part of the weight.
    pub fn max_satisfaction_weight(&self) -> (r: Result<usize, Error>)
        requires
            weights_fit(self.scripts()),
        ensures
            r matches Ok(weight) && is_max_weight(self.scripts(), weight as nat),
    {
        let mut max_weight: Option<usize> = Some(71);
        let mut scripts = self.iter_scripts();
        let ghost all = self.scripts();
        let ghost mut i: int = 0;
        assert(all.skip(0) =~= all);
        loop
            invariant
                0 <= i <= all.len(),
                all == self.scripts(),
                weights_fit(all),
                scripts.wf(),
                scripts.remaining() == all.skip(i),
                max_weight is Some,
                is_max_weight(all.take(i), max_weight->0 as nat),
            ensures
                max_weight is Some,
                is_max_weight(all, max_weight->0 as nat),
            decreases all.len() - i,
        {
            match scripts.next() {
                Some((depth, ms)) => {
                    proof {
                        lemma_skip_step(all, i, (depth as nat, *ms), scripts.remaining());
                        lemma_max_weight_step(all, i, max_weight->0 as nat);
                        i = i + 1;
                    }
                    let script_size: usize = ms.script.len();
                    let max_sat_elems: usize = match ms.max_witness_elements {
                        Some(n) => n,
                        None => continue,
                    };
                    let max_sat_size: usize = match ms.max_witness_size {
                        Some(n) => n,
                        None => continue,
                    };
                    let control_block_sz: usize = control_block_len(depth);
                    let wit_size: usize = 4  // length of the empty scriptSig
                     + varint_len(max_sat_elems + 2)  // number of elements on the stack
                     + max_sat_size  // witness of the script
                     + varint_len(script_size) + script_size  // script
                     + varint_len(control_block_sz) + control_block_sz;  // control block
                    let heaviest: usize = match max_weight {
                        Some(w) => if w > wit_size {
                            w
                        } else {
                            wit_size
                        },
                        None => wit_size,
                    };
                    max_weight = Some(heaviest);
                },
                None => {
                    assert(all.take(i) =~= all);
                    break;
                },
            }
        }
        match max_weight {
            Some(weight) => Ok(weight),
            None => Err(Error::ImpossibleSatisfaction),
        }
    }
}

/// The stack that spends through a leaf with this witness for its script: the witness, the script
/// and the control block.
pub open spec fn leaf_stack<Pk: MiniscriptKey, Ext>(
    desc: Tr<Pk, Ext>,
    i: int,
    wit: Seq<Seq<u8>>,
) -> Seq<Seq<u8>> {
    let script = desc.scripts()[i].1.script@;
    let blocks = descriptor_spend_data(desc.key(), desc.script_tree()).control_blocks;
    wit.push(script).push(blocks[script])
}

/// The stacks that spend through the leaves, given the witness there is for each of their scripts.
pub open spec fn leaf_candidates<Pk: MiniscriptKey, Ext>(
    desc: Tr<Pk, Ext>,
    wits: Seq<Option<Seq<Seq<u8>>>>,
) -> Seq<Option<Seq<Seq<u8>>>> {
    Seq::new(
        wits.len(),
        |i: int|
            match wits[i] {
                Some(wit) => Some(leaf_stack(desc, i, wit)),
                None => None,
            },
    )
}

/// The stack that spends with the internal key, given the signature with the output key.
pub open spec fn key_candidate(sig: Option<SchnorrSig>) -> Option<Seq<Seq<u8>>> {
    match sig {
        Some(sig) => Some(seq![signature_bytes(sig)]),
        None => None,
    }
}

/// All stacks that spend from a descriptor: those of its leaves, and that of its key.
pub open spec fn spend_candidates<Pk: MiniscriptKey, Ext>(
    desc: Tr<Pk, Ext>,
    sig: Option<SchnorrSig>,
    wits: Seq<Option<Seq<Seq<u8>>>>,
) -> Seq<Option<Seq<Seq<u8>>>> {
    leaf_candidates(desc, wits).push(key_candidate(sig))
}

/// The stack to take: no other is smaller, and none behind it is as small.
pub open spec fn is_smallest(candidates: Seq<Option<Seq<Seq<u8>>>>, best: int) -> bool {
    &&& 0 <= best < candidates.len()
    &&& candidates[best] is Some
    &&& forall|i: int|
        0 <= i < candidates.len() && (#[trigger] candidates[i]) is Some ==> {
            &&& serialized_size(candidates[best]->0) <= serialized_size(candidates[i]->0)
            &&& i > best ==> serialized_size(candidates[best]->0) < serialized_size(
                candidates[i]->0,
            )
        }
}

/// What is chosen among stacks: the smallest, if there is one at all.
pub open spec fn is_choice(
    candidates: Seq<Option<Seq<Seq<u8>>>>,
    r: Result<Seq<Seq<u8>>, ErrorView>,
) -> bool {
    match r {
        Ok(stack) => exists|best: int|
            #[trigger] is_smallest(candidates, best) && candidates[best] == Some(stack),
        Err(e) => {
            &&& forall|i: int| 0 <= i < candidates.len() ==> (#[trigger] candidates[i]) is None
            &&& e == ErrorView::CouldNotSatisfy
        },
    }
}

/// Stacks that may be absent as mathematical values.
pub open spec fn witnesses_view(wits: Seq<Option<Vec<Vec<u8>>>>) -> Seq<Option<Seq<Seq<u8>>>> {
    wits.map_values(
        |w: Option<Vec<Vec<u8>>>|
            match w {
                Some(w) => Some(stack_view(w@)),
                None => None,
            },
    )
}

/// Whether there is a control block for every leaf, not longer than one for its depth.
pub open spec fn control_blocks_as_counted<Pk: MiniscriptKey, Ext>(desc: Tr<Pk, Ext>) -> bool {
    let blocks = descriptor_spend_data(desc.key(), desc.script_tree()).control_blocks;
    forall|i: int|
        0 <= i < desc.scripts().len() ==> {
            let script = (#[trigger] desc.scripts()[i]).1.script@;
            blocks.contains_key(script) && blocks[script].len() <= control_block_size(
                desc.scripts()[i].0,
            )
        }
}

/// What spends from a descriptor, given the signature with its output key, if there is one, and
/// the witness there is for each of its scripts: the smallest of all stacks that do.
pub open spec fn is_spend<Pk: MiniscriptKey, Ext>(
    desc: Tr<Pk, Ext>,
    sig: Option<SchnorrSig>,
    wits: Seq<Option<Seq<Seq<u8>>>>,
    r: Result<Seq<Seq<u8>>, ErrorView>,
) -> bool {
    &&& wits.len() == desc.scripts().len()
    &&& control_blocks_as_counted(desc)
    &&& sig matches Some(sig) ==> signature_bytes(sig).len() == 64 || signature_bytes(sig).len()
        == 65
    &&& is_choice(spend_candidates(desc, sig, wits), r)
}

/// One more stack is the smallest so far if it is not larger than the one before.
proof fn lemma_smallest_step(candidates: Seq<Option<Seq<Seq<u8>>>>, i: int)
    requires
        0 <= i < candidates.len(),
    ensures
        forall|best: int|
            (#[trigger] is_smallest(candidates.take(i), best)) && (candidates[i] is None
                || serialized_size(candidates[i]->0) > serialized_size(candidates[best]->0))
                ==> is_smallest(candidates.take(i + 1), best),
        candidates[i] is Some && ((forall|j: int|
            0 <= j < i ==> (#[trigger] candidates[j]) is None) || exists|best: int|
            (#[trigger] is_smallest(candidates.take(i), best)) && serialized_size(
                candidates[i]->0,
            ) <= serialized_size(candidates[best]->0)) ==> is_smallest(candidates.take(i + 1), i),
{
    let before = candidates.take(i);
    let after = candidates.take(i + 1);
    assert forall|j: int| 0 <= j < i implies before[j] == #[trigger] after[j] && before[j]
        == candidates[j] by {}
    assert(after[i] == candidates[i]);
}

/// Chooses the smallest among stacks, as they are serialised, and the last of those that are
/// equally small.
pub fn choose_smallest(candidates: Vec<Option<Vec<Vec<u8>>>>) -> (r: Result<Vec<Vec<u8>>, Error>)
    ensures
        r matches Ok(stack) ==> is_choice(witnesses_view(candidates@), Ok(stack_view(stack@))),
        r matches Err(e) ==> is_choice(witnesses_view(candidates@), Err(e@)),
        r is Ok <==> exists|i: int|
            0 <= i < candidates@.len() && (#[trigger] candidates@[i]) is Some,
{
    let ghost given = candidates@;
    let ghost views = witnesses_view(given);
    let mut best: Option<(usize, WitnessSize)> = None;
    let mut i: usize = 0;
    while i < candidates.len()
        invariant
            i <= candidates@.len(),
            views == witnesses_view(candidates@),
            best is None ==> forall|j: int| 0 <= j < i ==> (#[trigger] views[j]) is None,
            best matches Some((b, size)) ==> {
                &&& is_smallest(views.take(i as int), b as int)
                &&& size.total() == serialized_size(views[b as int]->0)
            },
        decreases candidates@.len() - i,
    {
        proof {
            lemma_smallest_step(views, i as int);
        }
        if let Some(stack) = &candidates[i] {
            let size: WitnessSize = witness_size(stack);
            let larger: bool = match best {
                Some((_, min_size)) => size.exceeds(&min_size),
                None => false,
            };
            if !larger {
                best = Some((i, size));
            }
        }
        i += 1;
    }
    assert(views.take(i as int) =~= views);
    match best {
        Some((b, _)) => {
            let mut rest = candidates;
            let stack = rest.remove(b).unwrap();
            assert(views[b as int] == Some(stack_view(stack@)));
            assert(given[b as int] is Some);
            Ok(stack)
        },
        None => {
            assert forall|i: int| 0 <= i < given.len() implies (#[trigger] given[i]) is None by {
                assert(views[i] is None);
            }
            Err(Error::CouldNotSatisfy)
        },
    }
}

impl<Pk: ToPublicKey, Ext> Tr<Pk, Ext> {
    /// Chooses the smallest stack that spends from the descriptor, given the signature with its
    /// output key, if there is one, and a witness for each script in depth-first order, or none.
    /// Of equally small stacks that of the key is taken, or else that of the last script.
    pub fn smallest_spend(
        &self,
        sig: Option<SchnorrSig>,
        wits: Vec<Option<Vec<Vec<u8>>>>,
    ) -> (r: Result<Vec<Vec<u8>>, Error>)
        requires
            wits@.len() == self.scripts().len(),
        ensures
            r matches Ok(stack) ==> is_spend(
                *self,
                sig,
                witnesses_view(wits@),
                Ok(stack_view(stack@)),
            ),
            r matches Err(e) ==> is_spend(*self, sig, witnesses_view(wits@), Err(e@)),
            r is Ok <==> sig is Some || exists|i: int|
                0 <= i < wits@.len() && (#[trigger] wits@[i]) is Some,
    {
        let spend_info = self.spend_info();
        let ghost all = self.scripts();
        let ghost given = wits@;
        let ghost views = witnesses_view(given);
        let ghost leaves = leaf_candidates(*self, views);
        let ghost blocks = descriptor_spend_data(self.key(), self.script_tree()).control_blocks;
        let mut scripts = self.iter_scripts();
        let mut candidates: Vec<Option<Vec<Vec<u8>>>> = Vec::new();
        proof {
            assert(all.skip(0) =~= all);
            assert forall|i: int| 0 <= i < all.len() implies {
                let script = (#[trigger] all[i]).1.script@;
                blocks.contains_key(script) && blocks[script].len() <= control_block_size(all[i].0)
            } by {
                let encoded = script_leaves(self.script_tree()->0);
                assert(encoded[i] == (all[i].0, all[i].1.script@));
            }
        }
        for wit in rest: wits.into_iter()
            invariant
                rest.seq() == given,
                given.len() == all.len(),
                views == witnesses_view(given),
                leaves == leaf_candidates(*self, views),
                all == self.scripts(),
                blocks == descriptor_spend_data(self.key(), self.script_tree()).control_blocks,
                blocks == spend_data(*spend_info).control_blocks,
                control_blocks_as_counted(*self),
                scripts.wf(),
                scripts.remaining() == all.skip(rest.index()),
                candidates@.len() == rest.index(),
                witnesses_view(candidates@) == leaves.take(rest.index()),
        {
            let ghost i = rest.index();
            let ghost before = witnesses_view(candidates@);
            assert(all.skip(i).len() > 0);
            let (depth, ms) = scripts.next().unwrap();
            proof {
                lemma_skip_step(all, i, (depth as nat, *ms), scripts.remaining());
                assert(views[i] == match wit {
                    Some(w) => Some(stack_view(w@)),
                    None => None,
                });
            }
            match wit {
                Some(w) => {
                    let mut stack = w;
                    let block = serialize_control_block(
                        &control_block(&spend_info, &ms.script).unwrap(),
                    );
                    let ghost witness = stack_view(stack@);
                    stack.push(ms.script.clone());
                    stack.push(block);
                    assert(stack_view(stack@) =~= leaf_stack(*self, i, witness));
                    candidates.push(Some(stack));
                },
                None => {
                    candidates.push(None);
                },
            }
            assert(witnesses_view(candidates@).drop_last() =~= before);
            assert(witnesses_view(candidates@).last() == leaves[i]);
            assert(witnesses_view(candidates@) =~= leaves.take(i + 1));
        }
        assert(leaves.take(given.len() as int) =~= leaves);
        let key_stack: Option<Vec<Vec<u8>>> = match &sig {
            Some(sig) => {
                let mut stack: Vec<Vec<u8>> = Vec::new();
                stack.push(serialize_signature(sig));
                assert(stack_view(stack@) =~= seq![signature_bytes(*sig)]);
                Some(stack)
            },
            None => None,
        };
        candidates.push(key_stack);
        proof {
            assert(witnesses_view(candidates@) =~= spend_candidates(*self, sig, views));
            let n = given.len() as int;
            assert(candidates@[n] is Some <==> sig is Some);
            assert forall|i: int| 0 <= i < n implies ((#[trigger] candidates@[i]) is Some
                <==> given[i] is Some) by {
                assert(witnesses_view(candidates@)[i] == leaves[i]);
                assert(views[i] is Some <==> given[i] is Some);
            }
            if sig is None && exists|i: int| 0 <= i < n && (#[trigger] given[i]) is Some {
                let i = choose|i: int| 0 <= i < n && (#[trigger] given[i]) is Some;
                assert(candidates@[i] is Some);
            }
        }
        choose_smallest(candidates)
    }
}

/// Whether a satisfier may give these witnesses for the leaves.
pub open spec fn gives_witnesses<Pk: MiniscriptKey, Ext, S: Satisfier<Pk, Ext>>(
    satisfier: S,
    leaves: Seq<(nat, Miniscript<Pk, Ext>)>,
    allow_mall: bool,
    wits: Seq<Option<Vec<Vec<u8>>>>,
) -> bool {
    &&& wits.len() == leaves.len()
    &&& forall|i: int|
        0 <= i < leaves.len() ==> satisfier.gives(
            (#[trigger] leaves[i]).1,
            allow_mall,
            wits[i],
        )
}

/// What spends from a descriptor with what a satisfier knows: the smallest of the stacks that are
/// made of the signature with the output key and of the witnesses that the satisfier gives.
pub open spec fn is_tap_spend<Pk: MiniscriptKey, Ext, S: Satisfier<Pk, Ext>>(
    desc: Tr<Pk, Ext>,
    satisfier: S,
    allow_mall: bool,
    r: Result<Seq<Seq<u8>>, ErrorView>,
) -> bool {
    exists|wits: Seq<Option<Vec<Vec<u8>>>>|
        #[trigger] gives_witnesses(satisfier, desc.scripts(), allow_mall, wits) && is_spend(
            desc,
            satisfier.key_spend_sig(),
            witnesses_view(wits),
            r,
        )
}

/// Makes the witness of minimum weight that spends from a descriptor with what a satisfier knows.
/// The scriptSig that goes with it is empty.
pub fn best_tap_spend<Pk: ToPublicKey, Ext, S: Satisfier<Pk, Ext>>(
    desc: &Tr<Pk, Ext>,
    satisfier: S,
    allow_mall: bool,
) -> (r: Result<(Vec<Vec<u8>>, Script), Error>)
    ensures
        r matches Ok((stack, script_sig)) ==> is_tap_spend(
            *desc,
            satisfier,
            allow_mall,
            Ok(stack_view(stack@)),
        ) && script_bytes(script_sig).len() == 0,
        r matches Err(e) ==> is_tap_spend(*desc, satisfier, allow_mall, Err(e@)),
{
    let sig = satisfier.lookup_tap_key_spend_sig();
    let ghost all = desc.scripts();
    let mut wits: Vec<Option<Vec<Vec<u8>>>> = Vec::new();
    let mut scripts = desc.iter_scripts();
    assert(all.skip(0) =~= all);
    loop
        invariant
            wits@.len() <= all.len(),
            scripts.wf(),
            scripts.remaining() == all.skip(wits@.len() as int),
            forall|i: int|
                0 <= i < wits@.len() ==> satisfier.gives(
                    (#[trigger] all[i]).1,
                    allow_mall,
                    wits@[i],
                ),
        ensures
            wits@.len() == all.len(),
        decreases all.len() - wits@.len(),
    {
        match scripts.next() {
            Some((depth, ms)) => {
                proof {
                    lemma_skip_step(
                        all,
                        wits@.len() as int,
                        (depth as nat, *ms),
                        scripts.remaining(),
                    );
                }
                let wit = if allow_mall {
                    satisfier.satisfy_malleable(ms)
                } else {
                    satisfier.satisfy(ms)
                };
                wits.push(wit);
            },
            None => {
                break;
            },
        }
    }
    assert(gives_witnesses(satisfier, all, allow_mall, wits@));
    match desc.smallest_spend(sig, wits) {
        Ok(stack) => Ok((stack, empty_script())),
        Err(e) => Err(e),
    }
}

impl<Pk: ToPublicKey, Ext> Tr<Pk, Ext> {
    /// Makes the witness of minimum weight, and the scriptSig, that spends from the descriptor with
    /// what `satisfier` knows and that no third party can change.
    pub fn get_satisfaction<S: Satisfier<Pk, Ext>>(&self, satisfier: S) -> (r: Result<
        (Vec<Vec<u8>>, Script),
        Error,
    >)
        ensures
            r matches Ok((stack, script_sig)) ==> is_tap_spend(
                *self,
                satisfier,
                false,
                Ok(stack_view(stack@)),
            ) && script_bytes(script_sig).len() == 0,
            r matches Err(e) ==> is_tap_spend(*self, satisfier, false, Err(e@)),
    {
        best_tap_spend(self, satisfier, false)
    }

    /// Makes the witness of minimum weight, and the scriptSig, that spends from the descriptor with
    /// what `satisfier` knows. A third party may be able to change it.
    pub fn get_satisfaction_mall<S: Satisfier<Pk, Ext>>(&self, satisfier: S) -> (r: Result<
        (Vec<Vec<u8>>, Script),
        Error,
    >)
        ensures
            r matches Ok((stack, script_sig)) ==> is_tap_spend(
                *self,
                satisfier,
                true,
                Ok(stack_view(stack@)),
            ) && script_bytes(script_sig).len() == 0,
            r matches Err(e) ==> is_tap_spend(*self, satisfier, true, Err(e@)),
    {
        best_tap_spend(self, satisfier, true)
    }
}

/// Whether a satisfier always gives a witness for a script.
pub open spec fn always_gives<Pk: MiniscriptKey, Ext, S: Satisfier<Pk, Ext>>(
    satisfier: S,
    ms: Miniscript<Pk, Ext>,
    allow_mall: bool,
) -> bool {
    forall|wit: Option<Vec<Vec<u8>>>| #[trigger]
        satisfier.gives(ms, allow_mall, wit) ==> wit is Some
}

/// Whether a satisfier never gives a witness for a script.
pub open spec fn never_gives<Pk: MiniscriptKey, Ext, S: Satisfier<Pk, Ext>>(
    satisfier: S,
    ms: Miniscript<Pk, Ext>,
    allow_mall: bool,
) -> bool {
    forall|wit: Option<Vec<Vec<u8>>>| #[trigger]
        satisfier.gives(ms, allow_mall, wit) ==> wit is None
}

/// Spending succeeds if the signature with the output key is known, or if there is a script for
/// which the satisfier always gives a witness. It fails if there is no such signature and the
/// satisfier never gives a witness.
pub proof fn law_spend_if_possible<Pk: MiniscriptKey, Ext, S: Satisfier<Pk, Ext>>(
    desc: Tr<Pk, Ext>,
    satisfier: S,
    allow_mall: bool,
    r: Result<Seq<Seq<u8>>, ErrorView>,
)
    requires
        is_tap_spend(desc, satisfier, allow_mall, r),
    ensures
        satisfier.key_spend_sig() is Some ==> r is Ok,
        (exists|i: int|
            0 <= i < desc.scripts().len() && always_gives(
                satisfier,
                (#[trigger] desc.scripts()[i]).1,
                allow_mall,
            )) ==> r is Ok,
        satisfier.key_spend_sig() is None && (forall|i: int|
            0 <= i < desc.scripts().len() ==> never_gives(
                satisfier,
                (#[trigger] desc.scripts()[i]).1,
                allow_mall,
            )) ==> r == Err::<Seq<Seq<u8>>, ErrorView>(ErrorView::CouldNotSatisfy),
{
    let all = desc.scripts();
    let wits = choose|wits: Seq<Option<Vec<Vec<u8>>>>|
        #[trigger] gives_witnesses(satisfier, all, allow_mall, wits) && is_spend(
            desc,
            satisfier.key_spend_sig(),
            witnesses_view(wits),
            r,
        );
    let candidates = spend_candidates(desc, satisfier.key_spend_sig(), witnesses_view(wits));
    assert(candidates[all.len() as int] == key_candidate(satisfier.key_spend_sig()));
    assert forall|i: int| 0 <= i < all.len() implies satisfier.gives(
        (#[trigger] all[i]).1,
        allow_mall,
        wits[i],
    ) && (candidates[i] is Some <==> wits[i] is Some) by {
        assert(candidates[i] == leaf_candidates(desc, witnesses_view(wits))[i]);
    }
}

} // verus!
