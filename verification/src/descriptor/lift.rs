//! From descriptors to the policies they implement.

use crate::descriptor::tap_tree::TapTree;
use crate::descriptor::tr::Tr;
use crate::error::{Error, ErrorView};
use crate::miniscript::{Miniscript, MiniscriptKey};
use crate::normal_form::{law_normal_form_means_the_same, lemma_count_one, normal_form};
use crate::policy::{
    count_holding, holds, lemma_threshold_view, policies_view, Policy, PolicyView,
};
use vstd::prelude::*;

verus! {

/// The policy of a script, or why it has none.
pub open spec fn script_policy<Pk: MiniscriptKey, Ext>(ms: Miniscript<Pk, Ext>) -> Result<
    PolicyView<Pk::Hash>,
    ErrorView,
> {
    match ms.policy {
        Ok(p) => Ok(p@),
        Err(e) => Err(e@),
    }
}

/// The policy of a tree as it stands: one of two subtrees at each branch. If scripts have no
/// policy, the first of them tells why.
pub open spec fn plain_policy<Pk: MiniscriptKey, Ext>(tree: &TapTree<Pk, Ext>) -> Result<
    PolicyView<Pk::Hash>,
    ErrorView,
>
    decreases tree,
{
    match tree {
        TapTree::Tree(l, r) => match plain_policy(&**l) {
            Ok(left) => match plain_policy(&**r) {
                Ok(right) => Ok(PolicyView::Threshold(1, seq![left, right])),
                Err(e) => Err(e),
            },
            Err(e) => Err(e),
        },
        TapTree::Leaf(ms) => script_policy(**ms),
    }
}

/// The policy of a tree.
pub open spec fn tree_policy<Pk: MiniscriptKey, Ext>(tree: &TapTree<Pk, Ext>) -> Result<
    PolicyView<Pk::Hash>,
    ErrorView,
> {
    match plain_policy(tree) {
        Ok(p) => Ok(normal_form(p)),
        Err(e) => Err(e),
    }
}

/// The policy of a descriptor: its internal key, or its tree.
pub open spec fn tr_policy<Pk: MiniscriptKey, Ext>(
    key: Pk,
    tree: Option<TapTree<Pk, Ext>>,
) -> Result<PolicyView<Pk::Hash>, ErrorView> {
    let key_policy = PolicyView::KeyHash(key.pubkeyhash());
    match tree {
        Some(t) => match tree_policy(&t) {
            Ok(p) => Ok(PolicyView::Threshold(1, seq![key_policy, p])),
            Err(e) => Err(e),
        },
        None => Ok(key_policy),
    }
}

/// One of two policies.
fn either<Pk: MiniscriptKey>(a: Policy<Pk>, b: Policy<Pk>) -> (r: Policy<Pk>)
    ensures
        r@ == PolicyView::<Pk::Hash>::Threshold(1, seq![a@, b@]),
{
    let mut subs: Vec<Policy<Pk>> = Vec::new();
    subs.push(a);
    subs.push(b);
    let r = Policy::Threshold(1, subs);
    proof {
        lemma_threshold_view(r);
        assert(policies_view(subs@) =~= seq![a@, b@]);
    }
    r
}

impl<Pk: MiniscriptKey, Ext> TapTree<Pk, Ext> {
    /// The policy of the tree as it stands.
    fn lift_helper(&self) -> (r: Result<Policy<Pk>, Error>)
        ensures
            match plain_policy(self) {
                Ok(p) => r matches Ok(policy) && policy@ == p,
                Err(err) => r matches Err(e) && e@ == err,
            },
        decreases self,
    {
        match self {
            TapTree::Tree(l, r) => {
                let left = match l.lift_helper() {
                    Ok(p) => p,
                    Err(e) => return Err(e),
                };
                let right = match r.lift_helper() {
                    Ok(p) => p,
                    Err(e) => return Err(e),
                };
                Ok(either(left, right))
            },
            TapTree::Leaf(leaf) => match &leaf.policy {
                Ok(p) => Ok(p.clone()),
                Err(e) => Err(e.clone()),
            },
        }
    }

    /// Lifts the tree to the policy that it implements.
    pub fn lift(&self) -> (r: Result<Policy<Pk>, Error>)
        ensures
            match tree_policy(self) {
                Ok(p) => r matches Ok(policy) && policy@ == p,
                Err(err) => r matches Err(e) && e@ == err,
            },
    {
        match self.lift_helper() {
            Ok(p) => Ok(p.normalized()),
            Err(e) => Err(e),
        }
    }
}

impl<Pk: MiniscriptKey, Ext> Tr<Pk, Ext> {
    /// Lifts the descriptor to the policy that it implements.
    pub fn lift(&self) -> (r: Result<Policy<Pk>, Error>)
        ensures
            match tr_policy(self.key(), self.script_tree()) {
                Ok(p) => r matches Ok(policy) && policy@ == p,
                Err(err) => r matches Err(e) && e@ == err,
            },
    {
        let key_policy = Policy::KeyHash(self.internal_key().to_pubkeyhash());
        match self.taptree() {
            Some(root) => match root.lift() {
                Ok(p) => Ok(either(key_policy, p)),
                Err(e) => Err(e),
            },
            None => Ok(key_policy),
        }
    }
}

/// Whether a script has a policy that is satisfied when these atomic conditions are.
pub open spec fn script_holds<Pk: MiniscriptKey, Ext>(
    ms: Miniscript<Pk, Ext>,
    given: spec_fn(PolicyView<Pk::Hash>) -> bool,
) -> bool {
    script_policy(ms) matches Ok(p) && holds(p, given)
}

/// One of two policies holds if the first does or the second does.
proof fn lemma_either<H>(
    a: PolicyView<H>,
    b: PolicyView<H>,
    given: spec_fn(PolicyView<H>) -> bool,
)
    ensures
        holds(PolicyView::Threshold(1, seq![a, b]), given) == (holds(a, given) || holds(b, given)),
{
    lemma_count_one(a, given);
    assert(seq![a, b].drop_last() =~= seq![a]);
    assert(count_holding(seq![a, b], given) == count_holding(seq![a], given) + if holds(b, given) {
        1nat
    } else {
        0nat
    });
}

/// The policy of a tree holds if that of one of its scripts does, and there is one if each script
/// has one.
proof fn lemma_plain_policy<Pk: MiniscriptKey, Ext>(
    tree: &TapTree<Pk, Ext>,
    d: nat,
    given: spec_fn(PolicyView<Pk::Hash>) -> bool,
)
    ensures
        plain_policy(tree) is Ok <==> forall|i: int|
            0 <= i < tree.leaves(d).len() ==> script_policy((#[trigger] tree.leaves(d)[i]).1) is Ok,
        plain_policy(tree) matches Ok(p) ==> (holds(p, given) <==> exists|i: int|
            0 <= i < tree.leaves(d).len() && script_holds(
                (#[trigger] tree.leaves(d)[i]).1,
                given,
            )),
    decreases tree,
{
    let all = tree.leaves(d);
    match tree {
        TapTree::Leaf(ms) => {
            assert(all[0] == (d, **ms));
        },
        TapTree::Tree(l, r) => {
            let a = l.leaves(d + 1);
            let b = r.leaves(d + 1);
            lemma_plain_policy(&**l, d + 1, given);
            lemma_plain_policy(&**r, d + 1, given);
            assert(all =~= a + b);
            assert(forall|i: int| 0 <= i < a.len() ==> a[i] == #[trigger] all[i]);
            assert forall|i: int| 0 <= i < b.len() implies #[trigger] b[i] == all[i + a.len()] by {}
            assert forall|i: int| a.len() <= i < all.len() implies #[trigger] all[i] == b[i
                - a.len()] by {}
            assert forall|i: int| 0 <= i < a.len() implies #[trigger] a[i] == all[i] by {}
            lemma_either(plain_policy(&**l)->Ok_0, plain_policy(&**r)->Ok_0, given);
        },
    }
}

/// A descriptor has a policy if each of its scripts has one, and its policy is satisfied exactly
/// when its internal key signs or the policy of one of its scripts is satisfied.
pub proof fn law_lift<Pk: MiniscriptKey, Ext>(
    key: Pk,
    tree: &Option<TapTree<Pk, Ext>>,
    given: spec_fn(PolicyView<Pk::Hash>) -> bool,
)
    ensures
        tr_policy(key, *tree) is Ok <==> (tree matches Some(t) ==> forall|i: int|
            0 <= i < t.leaves(0).len() ==> script_policy((#[trigger] t.leaves(0)[i]).1) is Ok),
        tr_policy(key, *tree) matches Ok(p) ==> (holds(p, given) <==> given(
            PolicyView::KeyHash(key.pubkeyhash()),
        ) || (tree matches Some(t) && exists|i: int|
            0 <= i < t.leaves(0).len() && script_holds((#[trigger] t.leaves(0)[i]).1, given))),
{
    if let Some(t) = tree {
        lemma_plain_policy(t, 0, given);
        let p = plain_policy(t)->Ok_0;
        law_normal_form_means_the_same(p, given);
        lemma_either(PolicyView::KeyHash(key.pubkeyhash()), normal_form(p), given);
    }
}

} // verus!
