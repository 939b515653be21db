//! Policies, their normal forms, and the policies of descriptors.

use crate::descriptor::lift::{plain_policy, script_holds, script_policy, tr_policy, tree_policy};
use crate::descriptor::tap_tree::TapTree;
use crate::error::{Error, ErrorView};
use crate::miniscript::{Miniscript, MiniscriptKey};
use crate::normal_form::{
    count_proper, count_trivial, flat_parts, normal_form, normal_forms, normal_threshold,
};
use crate::policy::{count_holding, holds, policies_view, Policy, PolicyView};
use std::sync::Arc;
use vstd::prelude::*;

verus! {

/// The content of an error is the error, with its text as a mathematical value.
pub proof fn law_error_view(e: Error)
    ensures
        e matches Error::Unexpected(s) ==> e@ == ErrorView::Unexpected(s@),
        e matches Error::BadDescriptor(s) ==> e@ == ErrorView::BadDescriptor(s@),
        e matches Error::Unprintable(b) ==> e@ == ErrorView::Unprintable(b),
        e matches Error::ExpectedChar(c) ==> e@ == ErrorView::ExpectedChar(c),
        e is MaxRecursiveDepthExceeded ==> e@ == ErrorView::MaxRecursiveDepthExceeded,
        e is ImpossibleSatisfaction ==> e@ == ErrorView::ImpossibleSatisfaction,
        e is CouldNotSatisfy ==> e@ == ErrorView::CouldNotSatisfy,
        e matches Error::AnalysisError(a) ==> e@ == ErrorView::AnalysisError(a),
{
}

/// The content of a policy is the policy, with the contents of its parts in order.
pub proof fn law_policy_view<Pk: MiniscriptKey>(p: Policy<Pk>, subs: Seq<Policy<Pk>>, i: int)
    ensures
        p@ == p.content(),
        p is Unsatisfiable ==> p@ == PolicyView::<Pk::Hash>::Unsatisfiable,
        p is Trivial ==> p@ == PolicyView::<Pk::Hash>::Trivial,
        p matches Policy::KeyHash(h) ==> p@ == PolicyView::<Pk::Hash>::KeyHash(h),
        p matches Policy::After(n) ==> p@ == PolicyView::<Pk::Hash>::After(n),
        p matches Policy::Older(n) ==> p@ == PolicyView::<Pk::Hash>::Older(n),
        p matches Policy::Sha256(h) ==> p@ == PolicyView::<Pk::Hash>::Sha256(h),
        p matches Policy::Hash256(h) ==> p@ == PolicyView::<Pk::Hash>::Hash256(h),
        p matches Policy::Ripemd160(h) ==> p@ == PolicyView::<Pk::Hash>::Ripemd160(h),
        p matches Policy::Hash160(h) ==> p@ == PolicyView::<Pk::Hash>::Hash160(h),
        p matches Policy::Threshold(k, parts) ==> {
            &&& p@ is Threshold
            &&& p@->Threshold_0 == k
            &&& p@->Threshold_1.len() == parts@.len()
            &&& 0 <= i < parts@.len() ==> p@->Threshold_1[i] == parts@[i]@
        },
        policies_view(subs).len() == subs.len(),
        0 <= i < subs.len() ==> policies_view(subs)[i] == subs[i]@,
{
}

/// A threshold holds if at least so many of its parts do, a trivial policy always, an unsatisfiable
/// one never, and any other if it is among what is given.
pub proof fn law_holds<H>(
    p: PolicyView<H>,
    subs: Seq<PolicyView<H>>,
    given: spec_fn(PolicyView<H>) -> bool,
)
    ensures
        p is Unsatisfiable ==> !holds(p, given),
        p is Trivial ==> holds(p, given),
        p matches PolicyView::Threshold(k, parts) ==> (holds(p, given) <==> count_holding(
            parts,
            given,
        ) >= k),
        !(p is Unsatisfiable) && !(p is Trivial) && !(p is Threshold) ==> holds(p, given) == given(
            p,
        ),
        count_holding(Seq::<PolicyView<H>>::empty(), given) == 0,
        holds(p, given) ==> count_holding(subs.push(p), given) == count_holding(subs, given) + 1,
        !holds(p, given) ==> count_holding(subs.push(p), given) == count_holding(subs, given),
{
    assert(subs.push(p).drop_last() =~= subs);
}

/// The policy of a script is the one it carries, and so is the reason why it has none.
pub proof fn law_script_policy<Pk: MiniscriptKey, Ext>(
    ms: Miniscript<Pk, Ext>,
    given: spec_fn(PolicyView<Pk::Hash>) -> bool,
)
    ensures
        ms.policy matches Ok(p) ==> script_policy(ms) == Ok::<PolicyView<Pk::Hash>, ErrorView>(p@),
        ms.policy matches Err(e) ==> script_policy(ms) == Err::<PolicyView<Pk::Hash>, ErrorView>(
            e@,
        ),
        ms.policy matches Ok(p) ==> script_holds(ms, given) == holds(p@, given),
        ms.policy is Err ==> !script_holds(ms, given),
{
}

/// The policy of a branch demands one of two: the policy of the left subtree and that of the right
/// one, in this order. That of a script is the script's own.
pub proof fn law_plain_policy<Pk: MiniscriptKey, Ext>(
    ms: &Arc<Miniscript<Pk, Ext>>,
    l: &Arc<TapTree<Pk, Ext>>,
    r: &Arc<TapTree<Pk, Ext>>,
)
    ensures
        plain_policy(&TapTree::Leaf(*ms)) == script_policy(**ms),
        (plain_policy(&**l), plain_policy(&**r)) matches (Ok(a), Ok(b)) ==> plain_policy(
            &TapTree::Tree(*l, *r),
        ) == Ok::<PolicyView<Pk::Hash>, ErrorView>(PolicyView::Threshold(1, seq![a, b])),
        plain_policy(&**l) matches Err(e) ==> plain_policy(&TapTree::Tree(*l, *r)) == Err::<
            PolicyView<Pk::Hash>,
            ErrorView,
        >(e),
        (plain_policy(&**l), plain_policy(&**r)) matches (Ok(a), Err(e)) ==> plain_policy(
            &TapTree::Tree(*l, *r),
        ) == Err::<PolicyView<Pk::Hash>, ErrorView>(e),
{
}

/// A tree has no policy for the reason that the first of its scripts without one has none.
pub proof fn law_first_script_without_policy<Pk: MiniscriptKey, Ext>(
    tree: &TapTree<Pk, Ext>,
    d: nat,
    i: int,
    e: Error,
)
    requires
        0 <= i < tree.leaves(d).len(),
        tree.leaves(d)[i].1.policy == Err::<Policy<Pk>, Error>(e),
        forall|j: int| 0 <= j < i ==> (#[trigger] tree.leaves(d)[j]).1.policy is Ok,
    ensures
        plain_policy(tree) == Err::<PolicyView<Pk::Hash>, ErrorView>(e@),
        tree_policy(tree) == Err::<PolicyView<Pk::Hash>, ErrorView>(e@),
    decreases tree,
{
    if let TapTree::Tree(l, r) = tree {
        let a = l.leaves(d + 1);
        let b = r.leaves(d + 1);
        let all = tree.leaves(d);
        assert(all =~= a + b);
        if i < a.len() {
            assert(a[i] == all[i]);
            assert forall|j: int| 0 <= j < i implies (#[trigger] a[j]).1.policy is Ok by {
                assert(a[j] == all[j]);
            }
            law_first_script_without_policy(&**l, d + 1, i, e);
        } else {
            let k = i - a.len();
            assert(b[k] == all[i]);
            assert forall|j: int| 0 <= j < k implies (#[trigger] b[j]).1.policy is Ok by {
                assert(b[j] == all[j + a.len()]);
            }
            assert forall|j: int| 0 <= j < a.len() implies (#[trigger] a[j]).1.policy is Ok by {
                assert(a[j] == all[j]);
            }
            lemma_all_have_policies(&**l, d + 1);
            law_first_script_without_policy(&**r, d + 1, k, e);
        }
    } else {
        assert(tree.leaves(d)[0].1.policy is Err);
    }
}

/// A tree has a policy if all of its scripts have one.
proof fn lemma_all_have_policies<Pk: MiniscriptKey, Ext>(tree: &TapTree<Pk, Ext>, d: nat)
    requires
        forall|j: int|
            0 <= j < tree.leaves(d).len() ==> (#[trigger] tree.leaves(d)[j]).1.policy is Ok,
    ensures
        plain_policy(tree) is Ok,
    decreases tree,
{
    match tree {
        TapTree::Leaf(_) => {
            assert(tree.leaves(d)[0].1.policy is Ok);
        },
        TapTree::Tree(l, r) => {
            let a = l.leaves(d + 1);
            let b = r.leaves(d + 1);
            let all = tree.leaves(d);
            assert(all =~= a + b);
            assert forall|j: int| 0 <= j < a.len() implies (#[trigger] a[j]).1.policy is Ok by {
                assert(a[j] == all[j]);
            }
            assert forall|j: int| 0 <= j < b.len() implies (#[trigger] b[j]).1.policy is Ok by {
                assert(b[j] == all[j + a.len()]);
            }
            lemma_all_have_policies(&**l, d + 1);
            lemma_all_have_policies(&**r, d + 1);
        },
    }
}

/// The policy of a descriptor is that of its internal key or, with a tree, one of two: that of the
/// key and then the normal form of that of the tree.
pub proof fn law_descriptor_policy<Pk: MiniscriptKey, Ext>(key: Pk, tree: &TapTree<Pk, Ext>)
    ensures
        tr_policy(key, None::<TapTree<Pk, Ext>>) == Ok::<PolicyView<Pk::Hash>, ErrorView>(
            PolicyView::KeyHash(key.pubkeyhash()),
        ),
        plain_policy(tree) matches Ok(p) ==> {
            &&& tree_policy(tree) == Ok::<PolicyView<Pk::Hash>, ErrorView>(normal_form(p))
            &&& tr_policy(key, Some(*tree)) == Ok::<PolicyView<Pk::Hash>, ErrorView>(
                PolicyView::Threshold(
                    1,
                    seq![PolicyView::KeyHash(key.pubkeyhash()), normal_form(p)],
                ),
            )
        },
        plain_policy(tree) matches Err(e) ==> {
            &&& tree_policy(tree) == Err::<PolicyView<Pk::Hash>, ErrorView>(e)
            &&& tr_policy(key, Some(*tree)) == Err::<PolicyView<Pk::Hash>, ErrorView>(e)
        },
{
}

/// Trivial policies and proper ones are counted one by one, the latter being neither trivial nor
/// unsatisfiable.
pub proof fn law_counts<H>(subs: Seq<PolicyView<H>>, p: PolicyView<H>)
    ensures
        count_trivial(Seq::<PolicyView<H>>::empty()) == 0,
        p is Trivial ==> count_trivial(subs.push(p)) == count_trivial(subs) + 1,
        !(p is Trivial) ==> count_trivial(subs.push(p)) == count_trivial(subs),
        count_proper(Seq::<PolicyView<H>>::empty()) == 0,
        p is Trivial || p is Unsatisfiable ==> count_proper(subs.push(p)) == count_proper(subs),
        !(p is Trivial) && !(p is Unsatisfiable) ==> count_proper(subs.push(p)) == count_proper(
            subs,
        ) + 1,
{
    assert(subs.push(p).drop_last() =~= subs);
}

/// The parts of a threshold go into its normal form in their order. Trivial and unsatisfiable ones
/// disappear. Where all parts are demanded, and not just one, the parts of a conjunction stand in
/// its place; where one is, and not all, those of a disjunction; and otherwise every part stays as
/// it is.
pub proof fn law_flat_parts<H>(subs: Seq<PolicyView<H>>, p: PolicyView<H>, all: bool, one: bool)
    ensures
        flat_parts(Seq::<PolicyView<H>>::empty(), all, one).len() == 0,
        p is Trivial || p is Unsatisfiable ==> flat_parts(subs.push(p), all, one) == flat_parts(
            subs,
            all,
            one,
        ),
        p matches PolicyView::Threshold(k, inner) ==> {
            &&& (all && !one && k == inner.len()) || (one && !all && k == 1) ==> flat_parts(
                subs.push(p),
                all,
                one,
            ) == flat_parts(subs, all, one) + inner
            &&& !(all && !one && k == inner.len()) && !(one && !all && k == 1) ==> flat_parts(
                subs.push(p),
                all,
                one,
            ) == flat_parts(subs, all, one).push(p)
        },
        !(p is Trivial) && !(p is Unsatisfiable) && !(p is Threshold) ==> flat_parts(
            subs.push(p),
            all,
            one,
        ) == flat_parts(subs, all, one).push(p),
{
    let front = flat_parts(subs, all, one);
    assert(subs.push(p).drop_last() =~= subs);
    assert(front + Seq::<PolicyView<H>>::empty() =~= front);
    assert(front + seq![p] =~= front.push(p));
}

/// What a threshold over normal forms becomes: trivial, if the trivial parts suffice;
/// unsatisfiable, if more is still demanded than there is; its only part; or a threshold that
/// demands what is still needed, or all.
pub proof fn law_normal_threshold<H>(k: nat, subs: Seq<PolicyView<H>>)
    ensures
        k <= count_trivial(subs) ==> normal_threshold(k, subs) == PolicyView::<H>::Trivial,
        k > count_trivial(subs) ==> {
            let needed = (k - count_trivial(subs)) as nat;
            let all = needed == count_proper(subs);
            let parts = flat_parts(subs, all, needed == 1);
            &&& needed > parts.len() ==> normal_threshold(k, subs)
                == PolicyView::<H>::Unsatisfiable
            &&& needed <= parts.len() && parts.len() == 1 ==> normal_threshold(k, subs) == parts[0]
            &&& needed <= parts.len() && parts.len() != 1 && all ==> normal_threshold(k, subs)
                == PolicyView::Threshold(parts.len(), parts)
            &&& needed <= parts.len() && parts.len() != 1 && !all ==> normal_threshold(k, subs)
                == PolicyView::Threshold(needed, parts)
        },
{
}

/// The normal form of a threshold is made of the normal forms of its parts, in their order. Any
/// other policy is its own normal form.
pub proof fn law_normal_form<H>(p: PolicyView<H>, subs: Seq<PolicyView<H>>)
    ensures
        p matches PolicyView::Threshold(k, parts) ==> normal_form(p) == normal_threshold(
            k,
            normal_forms(parts),
        ),
        !(p is Threshold) ==> normal_form(p) == p,
        normal_forms(Seq::<PolicyView<H>>::empty()).len() == 0,
        normal_forms(subs.push(p)) == normal_forms(subs).push(normal_form(p)),
{
    assert(subs.push(p).drop_last() =~= subs);
}

} // verus!
