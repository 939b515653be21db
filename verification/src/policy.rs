//! Semantic policies: what has to be provided to spend, without how.

use crate::miniscript::MiniscriptKey;
use vstd::prelude::*;

verus! {

/// An abstract spending policy.
pub enum Policy<Pk: MiniscriptKey> {
    /// Cannot be satisfied.
    Unsatisfiable,
    /// Is always satisfied.
    Trivial,
    /// A signature with the key of this hash.
    KeyHash(Pk::Hash),
    /// An absolute locktime.
    After(u32),
    /// A relative locktime.
    Older(u32),
    /// The SHA256 preimage of this hash.
    Sha256([u8; 32]),
    /// The double SHA256 preimage of this hash.
    Hash256([u8; 32]),
    /// The RIPEMD160 preimage of this hash.
    Ripemd160([u8; 20]),
    /// The HASH160 preimage of this hash.
    Hash160([u8; 20]),
    /// At least so many of these policies.
    Threshold(usize, Vec<Policy<Pk>>),
}

/// The mathematical content of a [`Policy`] over key hashes of type `H`.
pub enum PolicyView<H> {
    Unsatisfiable,
    Trivial,
    KeyHash(H),
    After(u32),
    Older(u32),
    Sha256([u8; 32]),
    Hash256([u8; 32]),
    Ripemd160([u8; 20]),
    Hash160([u8; 20]),
    Threshold(nat, Seq<PolicyView<H>>),
}

impl<Pk: MiniscriptKey> Policy<Pk> {
    /// The content of the policy.
    pub open spec fn content(self) -> PolicyView<Pk::Hash>
        decreases self,
    {
        match self {
            Policy::Unsatisfiable => PolicyView::Unsatisfiable,
            Policy::Trivial => PolicyView::Trivial,
            Policy::KeyHash(h) => PolicyView::KeyHash(h),
            Policy::After(n) => PolicyView::After(n),
            Policy::Older(n) => PolicyView::Older(n),
            Policy::Sha256(h) => PolicyView::Sha256(h),
            Policy::Hash256(h) => PolicyView::Hash256(h),
            Policy::Ripemd160(h) => PolicyView::Ripemd160(h),
            Policy::Hash160(h) => PolicyView::Hash160(h),
            Policy::Threshold(k, subs) => PolicyView::Threshold(
                k as nat,
                Seq::new(
                    subs@.len(),
                    |i: int|
                        if 0 <= i < subs@.len() {
                            subs@[i].content()
                        } else {
                            PolicyView::Trivial
                        },
                ),
            ),
        }
    }
}

impl<Pk: MiniscriptKey> View for Policy<Pk> {
    type V = PolicyView<Pk::Hash>;

    open spec fn view(&self) -> PolicyView<Pk::Hash> {
        self.content()
    }
}

/// The contents of several policies.
pub open spec fn policies_view<Pk: MiniscriptKey>(subs: Seq<Policy<Pk>>) -> Seq<
    PolicyView<Pk::Hash>,
> {
    subs.map_values(|p: Policy<Pk>| p@)
}

/// The content of a threshold is made of the contents of its parts.
pub(crate) proof fn lemma_threshold_view<Pk: MiniscriptKey>(p: Policy<Pk>)
    ensures
        p matches Policy::Threshold(k, subs) ==> p@ == PolicyView::<Pk::Hash>::Threshold(
            k as nat,
            policies_view(subs@),
        ),
{
    if let Policy::Threshold(k, subs) = p {
        assert(p.content()->Threshold_1 =~= policies_view(subs@));
    }
}

impl<Pk: MiniscriptKey> Policy<Pk> {
    /// Copies the policy.
    fn duplicate(&self) -> (r: Self)
        ensures
            r@ == self@,
        decreases self,
    {
        match self {
            Policy::Unsatisfiable => Policy::Unsatisfiable,
            Policy::Trivial => Policy::Trivial,
            Policy::KeyHash(h) => {
                let c = h.clone();
                proof {
                    Pk::lemma_hash_clone(*h, c);
                }
                Policy::KeyHash(c)
            },
            Policy::After(n) => Policy::After(*n),
            Policy::Older(n) => Policy::Older(*n),
            Policy::Sha256(h) => Policy::Sha256(*h),
            Policy::Hash256(h) => Policy::Hash256(*h),
            Policy::Ripemd160(h) => Policy::Ripemd160(*h),
            Policy::Hash160(h) => Policy::Hash160(*h),
            Policy::Threshold(k, subs) => {
                let mut copies: Vec<Policy<Pk>> = Vec::new();
                let mut i: usize = 0;
                while i < subs.len()
                    invariant
                        i <= subs@.len(),
                        copies@.len() == i,
                        forall|j: int| 0 <= j < i ==> (#[trigger] copies@[j])@ == subs@[j]@,
                        decreases_to!(self => subs@),
                    decreases subs@.len() - i,
                {
                    assert(decreases_to!(subs@ => subs@[i as int]));
                    copies.push(subs[i].duplicate());
                    i += 1;
                }
                let r = Policy::Threshold(*k, copies);
                proof {
                    assert(policies_view(copies@) =~= policies_view(subs@));
                    lemma_threshold_view(*self);
                    lemma_threshold_view(r);
                }
                r
            },
        }
    }
}

impl<Pk: MiniscriptKey> Clone for Policy<Pk> {
    fn clone(&self) -> (r: Self)
        ensures
            r@ == self@,
    {
        self.duplicate()
    }
}

/// Whether a policy is satisfied when these atomic conditions are.
pub open spec fn holds<H>(p: PolicyView<H>, given: spec_fn(PolicyView<H>) -> bool) -> bool
    decreases p,
{
    match p {
        PolicyView::Unsatisfiable => false,
        PolicyView::Trivial => true,
        PolicyView::Threshold(k, subs) => count_holding(subs, given) >= k,
        _ => given(p),
    }
}

/// How many of several policies are satisfied.
pub open spec fn count_holding<H>(
    subs: Seq<PolicyView<H>>,
    given: spec_fn(PolicyView<H>) -> bool,
) -> nat
    decreases subs,
{
    if subs.len() == 0 {
        0
    } else {
        count_holding(subs.drop_last(), given) + if holds(subs.last(), given) {
            1nat
        } else {
            0nat
        }
    }
}

} // verus!
