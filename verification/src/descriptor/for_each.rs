//! Asking a question of every key of a descriptor.

use crate::descriptor::tr::Tr;
use crate::miniscript::{ForEach, Miniscript, MiniscriptKey, ScriptKey};
use crate::util::lemma_skip_step;
use vstd::prelude::*;

verus! {

/// The keys of several scripts, in order.
pub open spec fn keys_of_scripts<Pk: MiniscriptKey, Ext>(
    scripts: Seq<(nat, Miniscript<Pk, Ext>)>,
) -> Seq<ScriptKey<Pk>>
    decreases scripts.len(),
{
    if scripts.len() == 0 {
        Seq::empty()
    } else {
        keys_of_scripts(scripts.drop_last()) + scripts.last().1.keys@
    }
}

/// Whether a predicate may give this answer for a key.
pub open spec fn answers<'a, Pk: MiniscriptKey + 'a, F: FnMut(ForEach<'a, Pk>) -> bool>(
    pred: F,
    key: ScriptKey<Pk>,
    answer: bool,
) -> bool where Pk::Hash: 'a {
    match key {
        ScriptKey::Key(k) => call_ensures(pred, (ForEach::Key(&k),), answer),
        ScriptKey::Hash(h) => call_ensures(pred, (ForEach::Hash(&h),), answer),
    }
}

/// Whether a predicate may hold for all of these keys.
pub open spec fn all_hold<'a, Pk: MiniscriptKey + 'a, F: FnMut(ForEach<'a, Pk>) -> bool>(
    pred: F,
    keys: Seq<ScriptKey<Pk>>,
) -> bool where Pk::Hash: 'a {
    forall|i: int| 0 <= i < keys.len() ==> answers(pred, #[trigger] keys[i], true)
}

/// Whether a predicate may hold for some of these keys, one after the other, and not for the
/// next.
pub open spec fn one_fails<'a, Pk: MiniscriptKey + 'a, F: FnMut(ForEach<'a, Pk>) -> bool>(
    pred: F,
    keys: Seq<ScriptKey<Pk>>,
) -> bool where Pk::Hash: 'a {
    exists|n: int|
        0 <= n < keys.len() && answers(pred, #[trigger] keys[n], false) && all_hold(
            pred,
            keys.take(n),
        )
}

/// What holds for all keys of two sequences holds for all keys.
proof fn lemma_all_hold<'a, Pk: MiniscriptKey + 'a, F: FnMut(ForEach<'a, Pk>) -> bool>(
    pred: F,
    a: Seq<ScriptKey<Pk>>,
    b: Seq<ScriptKey<Pk>>,
) where Pk::Hash: 'a
    requires
        all_hold(pred, a),
        forall|i: int| 0 <= i < b.len() ==> answers(pred, #[trigger] b[i], true),
    ensures
        all_hold(pred, a + b),
{
    assert forall|i: int| 0 <= i < (a + b).len() implies answers(
        pred,
        #[trigger] (a + b)[i],
        true,
    ) by {
        if i < a.len() {
            assert((a + b)[i] == a[i]);
        } else {
            assert((a + b)[i] == b[i - a.len()]);
        }
    }
}

/// The keys of the first scripts come first.
proof fn lemma_keys_prefix<Pk: MiniscriptKey, Ext>(
    scripts: Seq<(nat, Miniscript<Pk, Ext>)>,
    n: int,
)
    requires
        0 <= n <= scripts.len(),
    ensures
        keys_of_scripts(scripts.take(n)).is_prefix_of(keys_of_scripts(scripts)),
    decreases scripts.len(),
{
    if n == scripts.len() {
        assert(scripts.take(n) =~= scripts);
    } else {
        lemma_keys_prefix(scripts.drop_last(), n);
        assert(scripts.drop_last().take(n) =~= scripts.take(n));
    }
}

impl<Pk: MiniscriptKey, Ext> Tr<Pk, Ext> {
    /// All keys of the descriptor: those of the scripts in depth-first order, then the internal
    /// key.
    pub open spec fn all_keys(&self) -> Seq<ScriptKey<Pk>> {
        keys_of_scripts(self.scripts()).push(ScriptKey::Key(self.key()))
    }

    /// Whether a predicate holds for every key of the descriptor. The keys of the scripts are
    /// asked in depth-first order, the internal key last, and none after the first for which it
    /// does not hold.
    pub fn for_each_key<'a, F: FnMut(ForEach<'a, Pk>) -> bool>(&'a self, pred: F) -> (r: bool) where
        Pk: 'a,
        Pk::Hash: 'a,

        requires
            forall|k: ForEach<'a, Pk>| call_requires(pred, (k,)),
        ensures
            r ==> all_hold(pred, self.all_keys()),
            !r ==> one_fails(pred, self.all_keys()),
    {
        let mut ask = pred;
        let ghost all = self.scripts();
        let ghost mut i: int = 0;
        let mut scripts = self.iter_scripts();
        assert(all.skip(0) =~= all);
        loop
            invariant
                ask == pred,
                forall|k: ForEach<'a, Pk>| call_requires(pred, (k,)),
                0 <= i <= all.len(),
                all == self.scripts(),
                scripts.wf(),
                scripts.remaining() == all.skip(i),
                all_hold(pred, keys_of_scripts(all.take(i))),
            ensures
                i == all.len(),
            decreases all.len() - i,
        {
            let ghost before = keys_of_scripts(all.take(i));
            match scripts.next() {
                Some((depth, ms)) => {
                    proof {
                        lemma_skip_step(all, i, (depth as nat, *ms), scripts.remaining());
                        assert(all.take(i + 1).drop_last() =~= all.take(i));
                        lemma_keys_prefix(all, i + 1);
                    }
                    let mut j: usize = 0;
                    while j < ms.keys.len()
                        invariant
                            ask == pred,
                            forall|k: ForEach<'a, Pk>| call_requires(pred, (k,)),
                            j <= ms.keys@.len(),
                            before == keys_of_scripts(all.take(i)),
                            all_hold(pred, before),
                            all_hold(pred, ms.keys@.take(j as int)),
                            (before + ms.keys@).is_prefix_of(self.all_keys()),
                        decreases ms.keys@.len() - j,
                    {
                        let answer = match &ms.keys[j] {
                            ScriptKey::Key(k) => ask(ForEach::Key(k)),
                            ScriptKey::Hash(h) => ask(ForEach::Hash(h)),
                        };
                        assert(answers(pred, ms.keys@[j as int], answer));
                        if !answer {
                            proof {
                                let keys = self.all_keys();
                                let n = before.len() + j;
                                assert(keys[n] == (before + ms.keys@)[n]);
                                assert(keys.take(n) =~= before + ms.keys@.take(j as int));
                                lemma_all_hold(pred, before, ms.keys@.take(j as int));
                                assert(answers(pred, keys[n], false));
                            }
                            return false;
                        }
                        proof {
                            lemma_all_hold(pred, ms.keys@.take(j as int), seq![ms.keys@[j as int]]);
                            assert(ms.keys@.take(j + 1) =~= ms.keys@.take(j as int)
                                + seq![ms.keys@[j as int]]);
                        }
                        j += 1;
                    }
                    proof {
                        assert(ms.keys@.take(j as int) =~= ms.keys@);
                        lemma_all_hold(pred, before, ms.keys@);
                        i = i + 1;
                    }
                },
                None => {
                    break;
                },
            }
        }
        let r = ask(ForEach::Key(self.internal_key()));
        proof {
            let keys = self.all_keys();
            let n = keys.len() - 1;
            assert(all.take(i) =~= all);
            assert(keys[n] == ScriptKey::Key(self.key()));
            assert(keys.take(n) =~= keys_of_scripts(all));
            assert(answers(pred, keys[n], r));
            if r {
                lemma_all_hold(pred, keys.take(n), seq![keys[n]]);
                assert(keys =~= keys.take(n) + seq![keys[n]]);
            }
        }
        r
    }
}

/// Of a predicate whose answer depends on nothing but the key, the result is whether it is true of
/// every key.
pub proof fn law_for_each_key<'a, Pk: MiniscriptKey + 'a, F: FnMut(ForEach<'a, Pk>) -> bool>(
    pred: F,
    keys: Seq<ScriptKey<Pk>>,
    truth: spec_fn(ScriptKey<Pk>) -> bool,
) where Pk::Hash: 'a
    requires
        forall|k: ScriptKey<Pk>, answer: bool|
            #![trigger answers(pred, k, answer)]
            answers(pred, k, answer) ==> answer == truth(k),
    ensures
        all_hold(pred, keys) ==> forall|i: int|
            0 <= i < keys.len() ==> truth(#[trigger] keys[i]),
        one_fails(pred, keys) ==> exists|i: int|
            0 <= i < keys.len() && !truth(#[trigger] keys[i]),
{
}

} // verus!
