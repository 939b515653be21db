//! The normal form of a policy.

use crate::miniscript::MiniscriptKey;
use crate::policy::{
    count_holding, holds, lemma_threshold_view, policies_view, Policy, PolicyView,
};
use vstd::prelude::*;

verus! {

/// How many of several policies are trivial.
pub open spec fn count_trivial<H>(subs: Seq<PolicyView<H>>) -> nat
    decreases subs.len(),
{
    if subs.len() == 0 {
        0
    } else {
        count_trivial(subs.drop_last()) + if subs.last() is Trivial {
            1nat
        } else {
            0nat
        }
    }
}

/// How many of several policies are neither trivial nor unsatisfiable.
pub open spec fn count_proper<H>(subs: Seq<PolicyView<H>>) -> nat
    decreases subs.len(),
{
    if subs.len() == 0 {
        0
    } else {
        count_proper(subs.drop_last()) + if subs.last() is Trivial || subs.last()
            is Unsatisfiable {
            0nat
        } else {
            1nat
        }
    }
}

/// What a part of a threshold contributes to its normal form. The threshold demands all of its
/// proper parts, or one of them, or neither: a conjunction within a conjunction is taken apart,
/// and so is a disjunction within a disjunction.
pub open spec fn flat_part<H>(p: PolicyView<H>, is_and: bool, is_or: bool) -> Seq<PolicyView<H>> {
    match p {
        PolicyView::Trivial => Seq::empty(),
        PolicyView::Unsatisfiable => Seq::empty(),
        PolicyView::Threshold(k, subs) => if (is_and && !is_or && k == subs.len()) || (!is_and
            && is_or && k == 1) {
            subs
        } else {
            seq![p]
        },
        _ => seq![p],
    }
}

/// What the parts of a threshold contribute to its normal form.
pub open spec fn flat_parts<H>(subs: Seq<PolicyView<H>>, is_and: bool, is_or: bool) -> Seq<
    PolicyView<H>,
>
    decreases subs.len(),
{
    if subs.len() == 0 {
        Seq::empty()
    } else {
        flat_parts(subs.drop_last(), is_and, is_or) + flat_part(subs.last(), is_and, is_or)
    }
}

/// How many proper parts are needed besides the trivial ones, to have `k` in all.
pub open spec fn still_needed(k: nat, trivial: nat) -> nat {
    if k > trivial {
        (k - trivial) as nat
    } else {
        0
    }
}

/// The normal form of a threshold over policies in normal form.
pub open spec fn normal_threshold<H>(k: nat, subs: Seq<PolicyView<H>>) -> PolicyView<H> {
    let m = still_needed(k, count_trivial(subs));
    let is_and = m == count_proper(subs);
    let is_or = m == 1;
    let parts = flat_parts(subs, is_and, is_or);
    if m == 0 {
        PolicyView::Trivial
    } else if m > parts.len() {
        PolicyView::Unsatisfiable
    } else if parts.len() == 1 {
        parts[0]
    } else if is_and {
        PolicyView::Threshold(parts.len(), parts)
    } else {
        PolicyView::Threshold(m, parts)
    }
}

/// The normal form of a policy: conjunctions and disjunctions are flat, and nothing in it is
/// trivial or unsatisfiable but the whole.
pub open spec fn normal_form<H>(p: PolicyView<H>) -> PolicyView<H>
    decreases p,
{
    match p {
        PolicyView::Threshold(k, subs) => normal_threshold(k, normal_forms(subs)),
        _ => p,
    }
}

/// The normal forms of several policies.
pub open spec fn normal_forms<H>(subs: Seq<PolicyView<H>>) -> Seq<PolicyView<H>>
    decreases subs,
{
    if subs.len() == 0 {
        Seq::empty()
    } else {
        normal_forms(subs.drop_last()).push(normal_form(subs.last()))
    }
}

/// There are as many normal forms as policies, in the same order.
proof fn lemma_normal_forms<H>(subs: Seq<PolicyView<H>>)
    ensures
        normal_forms(subs).len() == subs.len(),
        forall|i: int|
            0 <= i < subs.len() ==> #[trigger] normal_forms(subs)[i] == normal_form(subs[i]),
    decreases subs.len(),
{
    if subs.len() > 0 {
        lemma_normal_forms(subs.drop_last());
        assert forall|i: int| 0 <= i < subs.len() implies #[trigger] normal_forms(subs)[i]
            == normal_form(subs[i]) by {
            if i < subs.len() - 1 {
                assert(subs.drop_last()[i] == subs[i]);
            }
        }
    }
}

/// There are no more trivial and proper policies than policies.
proof fn lemma_counts<H>(subs: Seq<PolicyView<H>>)
    ensures
        count_trivial(subs) + count_proper(subs) <= subs.len(),
    decreases subs.len(),
{
    if subs.len() > 0 {
        lemma_counts(subs.drop_last());
    }
}

/// Brings a threshold over policies in normal form into normal form.
fn normal_threshold_of<Pk: MiniscriptKey>(
    k: usize,
    subs: Vec<Policy<Pk>>,
    trivial: usize,
    proper: usize,
) -> (r: Policy<Pk>)
    requires
        trivial == count_trivial(policies_view(subs@)),
        proper == count_proper(policies_view(subs@)),
    ensures
        r@ == normal_threshold(k as nat, policies_view(subs@)),
{
    let m: usize = if k > trivial {
        k - trivial
    } else {
        0
    };
    let is_and = m == proper;
    let is_or = m == 1;
    let ghost all = policies_view(subs@);
    let mut parts = flattened(subs, is_and, is_or);
    let count: usize = parts.len();
    if m == 0 {
        Policy::Trivial
    } else if m > count {
        Policy::Unsatisfiable
    } else if count == 1 {
        parts.pop().unwrap()
    } else {
        let r = if is_and {
            Policy::Threshold(count, parts)
        } else {
            Policy::Threshold(m, parts)
        };
        proof {
            lemma_threshold_view(r);
        }
        r
    }
}

/// Gathers what the parts of a threshold contribute to its normal form.
fn flattened<Pk: MiniscriptKey>(subs: Vec<Policy<Pk>>, is_and: bool, is_or: bool) -> (r: Vec<
    Policy<Pk>,
>)
    ensures
        policies_view(r@) == flat_parts(policies_view(subs@), is_and, is_or),
{
    let ghost given = subs@;
    let ghost all = policies_view(given);
    let mut parts: Vec<Policy<Pk>> = Vec::new();
    assert(policies_view(parts@) =~= Seq::empty());
    for sub in rest: subs.into_iter()
        invariant
            all == policies_view(given),
            rest.seq() == given,
            policies_view(parts@) == flat_parts(all.take(rest.index()), is_and, is_or),
    {
        let ghost i = rest.index();
        let ghost before = policies_view(parts@);
        proof {
            assert(all.take(i + 1).drop_last() =~= all.take(i));
            lemma_threshold_view(sub);
        }
        match sub {
            Policy::Trivial => {
                assert(before + Seq::empty() =~= before);
            },
            Policy::Unsatisfiable => {
                assert(before + Seq::empty() =~= before);
            },
            Policy::Threshold(k, mut inner) => {
                if (is_and && !is_or && k == inner.len()) || (!is_and && is_or && k == 1) {
                    let ghost moved = policies_view(inner@);
                    parts.append(&mut inner);
                    assert(policies_view(parts@) =~= before + moved);
                } else {
                    let p = Policy::Threshold(k, inner);
                    parts.push(p);
                    assert(policies_view(parts@) =~= before + seq![p@]);
                }
            },
            p => {
                parts.push(p);
                assert(policies_view(parts@) =~= before + seq![p@]);
            },
        }
    }
    assert(all.take(given.len() as int) =~= all);
    parts
}

impl<Pk: MiniscriptKey> Policy<Pk> {
    /// Brings a policy into its normal form: conjunctions and disjunctions become flat, and what
    /// is trivial or unsatisfiable in it disappears. The order of the parts stays.
    pub fn normalized(self) -> (r: Policy<Pk>)
        ensures
            r@ == normal_form(self@),
        decreases self,
    {
        proof {
            lemma_threshold_view(self);
        }
        match self {
            Policy::Threshold(k, subs) => {
                let ghost given = subs@;
                assert(given.len() == subs.len());
                let mut normal: Vec<Policy<Pk>> = Vec::new();
                let mut trivial: usize = 0;
                let mut proper: usize = 0;
                for sub in rest: subs.into_iter()
                    invariant
                        rest.seq() == given,
                        normal@.len() == rest.index(),
                        given.len() <= usize::MAX,
                        trivial == count_trivial(policies_view(normal@)),
                        proper == count_proper(policies_view(normal@)),
                        forall|j: int|
                            0 <= j < normal@.len() ==> (#[trigger] normal@[j])@ == normal_form(
                                given[j]@,
                            ),
                        decreases_to!(self => given),
                {
                    let ghost n = normal@.len() as int;
                    let ghost before = policies_view(normal@);
                    proof {
                        assert(decreases_to!(given => given[n]));
                        lemma_counts(before);
                    }
                    let p = sub.normalized();
                    match &p {
                        Policy::Trivial => {
                            trivial += 1;
                        },
                        Policy::Unsatisfiable => {},
                        _ => {
                            proper += 1;
                        },
                    }
                    normal.push(p);
                    assert(policies_view(normal@).drop_last() =~= before);
                }
                proof {
                    lemma_normal_forms(policies_view(given));
                    assert(policies_view(normal@) =~= normal_forms(policies_view(given)));
                }
                normal_threshold_of(k, normal, trivial, proper)
            },
            p => p,
        }
    }
}

/// Whether a policy demands all of its parts.
pub open spec fn is_conjunction<H>(p: PolicyView<H>) -> bool {
    p matches PolicyView::Threshold(k, subs) && k == subs.len()
}

/// Whether a policy demands one of its parts.
pub open spec fn is_disjunction<H>(p: PolicyView<H>) -> bool {
    p matches PolicyView::Threshold(k, subs) && k == 1
}

/// Whether a policy is in normal form: it is trivial or unsatisfiable as a whole, or nothing in
/// it is, each of its thresholds has at least two parts, of which it demands at least one and at
/// most all, and no conjunction stands in a conjunction and no disjunction in a disjunction.
pub open spec fn is_normal<H>(p: PolicyView<H>) -> bool {
    p is Trivial || p is Unsatisfiable || is_proper(p)
}

/// Whether a policy is in normal form and neither trivial nor unsatisfiable.
pub open spec fn is_proper<H>(p: PolicyView<H>) -> bool
    decreases p,
{
    match p {
        PolicyView::Trivial => false,
        PolicyView::Unsatisfiable => false,
        PolicyView::Threshold(k, subs) => {
            &&& subs.len() >= 2
            &&& 1 <= k <= subs.len()
            &&& forall|i: int| 0 <= i < subs.len() ==> is_proper(#[trigger] subs[i])
            &&& forall|i: int|
                0 <= i < subs.len() && k == subs.len() ==> !is_conjunction(#[trigger] subs[i])
            &&& forall|i: int|
                0 <= i < subs.len() && k == 1 ==> !is_disjunction(#[trigger] subs[i])
        },
        _ => true,
    }
}

/// The parts of a normal form are in normal form, and there are at least as many as proper ones
/// went in; as many, if nothing is taken apart. What is to be taken apart is.
proof fn lemma_flat_parts<H>(subs: Seq<PolicyView<H>>, is_and: bool, is_or: bool)
    requires
        forall|i: int| 0 <= i < subs.len() ==> is_normal(#[trigger] subs[i]),
    ensures
        forall|i: int|
            0 <= i < flat_parts(subs, is_and, is_or).len() ==> is_proper(
                #[trigger] flat_parts(subs, is_and, is_or)[i],
            ),
        is_and && !is_or ==> forall|i: int|
            0 <= i < flat_parts(subs, is_and, is_or).len() ==> !is_conjunction(
                #[trigger] flat_parts(subs, is_and, is_or)[i],
            ),
        !is_and && is_or ==> forall|i: int|
            0 <= i < flat_parts(subs, is_and, is_or).len() ==> !is_disjunction(
                #[trigger] flat_parts(subs, is_and, is_or)[i],
            ),
        flat_parts(subs, is_and, is_or).len() >= count_proper(subs),
        is_and == is_or ==> flat_parts(subs, is_and, is_or).len() == count_proper(subs),
        count_proper(subs) == 0 ==> flat_parts(subs, is_and, is_or).len() == 0,
    decreases subs.len(),
{
    if subs.len() > 0 {
        let front = subs.drop_last();
        assert forall|i: int| 0 <= i < front.len() implies is_normal(#[trigger] front[i]) by {
            assert(front[i] == subs[i]);
        }
        lemma_flat_parts(front, is_and, is_or);
        let a = flat_parts(front, is_and, is_or);
        let b = flat_part(subs.last(), is_and, is_or);
        assert(is_normal(subs[subs.len() - 1]));
        assert forall|i: int| 0 <= i < b.len() implies is_proper(#[trigger] b[i]) && (is_and
            && !is_or ==> !is_conjunction(b[i])) && (!is_and && is_or ==> !is_disjunction(
            b[i],
        )) by {}
        assert forall|i: int| 0 <= i < (a + b).len() implies is_proper(#[trigger] (a + b)[i]) && (
        is_and && !is_or ==> !is_conjunction((a + b)[i])) && (!is_and && is_or ==> !is_disjunction(
            (a + b)[i],
        )) by {
            if i < a.len() {
                assert((a + b)[i] == a[i]);
            } else {
                assert((a + b)[i] == b[i - a.len()]);
            }
        }
    }
}

/// Nothing within a normal form is trivial or unsatisfiable, its thresholds demand something that
/// can be had of at least two parts, and its conjunctions and disjunctions are flat.
pub proof fn law_normal_form_is_normal<H>(p: PolicyView<H>)
    ensures
        is_normal(normal_form(p)),
    decreases p,
{
    if let PolicyView::Threshold(k, subs) = p {
        let normal = normal_forms(subs);
        lemma_normal_forms(subs);
        assert forall|i: int| 0 <= i < normal.len() implies is_normal(#[trigger] normal[i]) by {
            law_normal_form_is_normal(subs[i]);
        }
        let m = still_needed(k, count_trivial(normal));
        lemma_flat_parts(normal, m == count_proper(normal), m == 1);
    }
}

/// As many of several policies hold as of their parts together.
proof fn lemma_count_concat<H>(
    a: Seq<PolicyView<H>>,
    b: Seq<PolicyView<H>>,
    given: spec_fn(PolicyView<H>) -> bool,
)
    ensures
        count_holding(a + b, given) == count_holding(a, given) + count_holding(b, given),
    decreases b.len(),
{
    if b.len() == 0 {
        assert(a + b =~= a);
    } else {
        lemma_count_concat(a, b.drop_last(), given);
        assert((a + b).drop_last() =~= a + b.drop_last());
        assert((a + b).last() == b.last());
    }
}

/// No more policies hold than there are.
proof fn lemma_count_bound<H>(subs: Seq<PolicyView<H>>, given: spec_fn(PolicyView<H>) -> bool)
    ensures
        count_holding(subs, given) <= subs.len(),
    decreases subs.len(),
{
    if subs.len() > 0 {
        lemma_count_bound(subs.drop_last(), given);
    }
}

/// One policy counts once if it holds.
pub(crate) proof fn lemma_count_one<H>(p: PolicyView<H>, given: spec_fn(PolicyView<H>) -> bool)
    ensures
        count_holding(seq![p], given) == if holds(p, given) {
            1nat
        } else {
            0nat
        },
{
    reveal_with_fuel(count_holding, 2);
    assert(seq![p].drop_last() =~= Seq::empty());
}

/// How what holds of the parts of a normal form depends on what holds of the parts that went in.
proof fn lemma_count_flat<H>(
    subs: Seq<PolicyView<H>>,
    is_and: bool,
    is_or: bool,
    given: spec_fn(PolicyView<H>) -> bool,
)
    requires
        forall|i: int| 0 <= i < subs.len() ==> is_normal(#[trigger] subs[i]),
    ensures
        ({
            let parts = flat_parts(subs, is_and, is_or);
            let proper = count_holding(subs, given) - count_trivial(subs);
            &&& 0 <= proper <= count_proper(subs)
            &&& is_and == is_or ==> count_holding(parts, given) == proper
            &&& is_and && !is_or ==> (count_holding(parts, given) == parts.len() <==> proper
                == count_proper(subs))
            &&& !is_and && is_or ==> (count_holding(parts, given) >= 1 <==> proper >= 1)
        }),
    decreases subs.len(),
{
    if subs.len() > 0 {
        let front = subs.drop_last();
        let last = subs.last();
        assert forall|i: int| 0 <= i < front.len() implies is_normal(#[trigger] front[i]) by {
            assert(front[i] == subs[i]);
        }
        assert(is_normal(subs[subs.len() - 1]));
        lemma_count_flat(front, is_and, is_or, given);
        let a = flat_parts(front, is_and, is_or);
        let b = flat_part(last, is_and, is_or);
        lemma_count_concat(a, b, given);
        lemma_count_bound(a, given);
        lemma_count_bound(b, given);
        lemma_count_one(last, given);
        assert(last is Trivial || last is Unsatisfiable ==> count_holding(b, given) == 0);
    }
}

/// As many normal forms hold as policies.
proof fn lemma_count_normal<H>(subs: Seq<PolicyView<H>>, given: spec_fn(PolicyView<H>) -> bool)
    ensures
        count_holding(normal_forms(subs), given) == count_holding(subs, given),
    decreases subs,
{
    if subs.len() > 0 {
        lemma_count_normal(subs.drop_last(), given);
        law_normal_form_means_the_same(subs.last(), given);
        assert(normal_forms(subs).drop_last() =~= normal_forms(subs.drop_last()));
    }
}

/// A policy and its normal form are satisfied by the same conditions.
pub proof fn law_normal_form_means_the_same<H>(
    p: PolicyView<H>,
    given: spec_fn(PolicyView<H>) -> bool,
)
    ensures
        holds(normal_form(p), given) == holds(p, given),
    decreases p,
{
    if let PolicyView::Threshold(k, subs) = p {
        let normal = normal_forms(subs);
        lemma_normal_forms(subs);
        lemma_count_normal(subs, given);
        assert forall|i: int| 0 <= i < normal.len() implies is_normal(#[trigger] normal[i]) by {
            law_normal_form_is_normal(subs[i]);
        }
        let m = still_needed(k, count_trivial(normal));
        let is_and = m == count_proper(normal);
        let is_or = m == 1;
        let parts = flat_parts(normal, is_and, is_or);
        lemma_flat_parts(normal, is_and, is_or);
        lemma_count_flat(normal, is_and, is_or, given);
        lemma_count_bound(parts, given);
        if parts.len() == 1 {
            assert(parts =~= seq![parts[0]]);
            lemma_count_one(parts[0], given);
        }
    }
}

/// Parts that need not be taken apart stay as they are.
proof fn lemma_flat_parts_stay<H>(subs: Seq<PolicyView<H>>, is_and: bool, is_or: bool)
    requires
        forall|i: int| 0 <= i < subs.len() ==> is_proper(#[trigger] subs[i]),
        is_and && !is_or ==> forall|i: int|
            0 <= i < subs.len() ==> !is_conjunction(#[trigger] subs[i]),
        !is_and && is_or ==> forall|i: int|
            0 <= i < subs.len() ==> !is_disjunction(#[trigger] subs[i]),
    ensures
        flat_parts(subs, is_and, is_or) == subs,
        count_trivial(subs) == 0,
        count_proper(subs) == subs.len(),
    decreases subs.len(),
{
    if subs.len() > 0 {
        let front = subs.drop_last();
        assert forall|i: int| 0 <= i < front.len() implies front[i] == #[trigger] subs[i] by {}
        lemma_flat_parts_stay(front, is_and, is_or);
        assert(is_proper(subs[subs.len() - 1]));
        assert(flat_part(subs.last(), is_and, is_or) =~= seq![subs.last()]);
        assert(subs =~= front + seq![subs.last()]);
    } else {
        assert(flat_parts(subs, is_and, is_or) =~= subs);
    }
}

/// A policy in normal form is its own normal form.
pub proof fn law_normal_policy_stays<H>(p: PolicyView<H>)
    requires
        is_normal(p),
    ensures
        normal_form(p) == p,
    decreases p,
{
    if let PolicyView::Threshold(k, subs) = p {
        lemma_normal_forms(subs);
        assert forall|i: int| 0 <= i < subs.len() implies #[trigger] normal_forms(subs)[i]
            == subs[i] by {
            assert(is_proper(subs[i]));
            law_normal_policy_stays(subs[i]);
        }
        assert(normal_forms(subs) =~= subs);
        lemma_flat_parts_stay(subs, k == subs.len(), k == 1);
    }
}

/// To bring a policy into its normal form twice is to do it once.
pub proof fn law_normal_form_is_idempotent<H>(p: PolicyView<H>)
    ensures
        normal_form(normal_form(p)) == normal_form(p),
{
    law_normal_form_is_normal(p);
    law_normal_policy_stays(normal_form(p));
}

} // verus!
