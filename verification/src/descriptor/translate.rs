//! From one kind of keys, or of extensions, to another.

use crate::descriptor::tap_tree::TapTree;
use crate::descriptor::tr::{cloned_key, Tr};
use crate::descriptor::walk::{lemma_depths_unique, lemma_shape};
use crate::miniscript::{Miniscript, MiniscriptKey, ScriptTranslator, Translator};
use std::sync::Arc;
use vstd::prelude::*;

verus! {

/// Whether a translator goes through these states when it translates scripts one after the other.
pub open spec fn is_run<
    P: MiniscriptKey,
    PExt,
    Q: MiniscriptKey,
    QExt,
    E,
    T: ScriptTranslator<P, PExt, Q, QExt, E>,
>(states: Seq<T>, scripts: Seq<Miniscript<P, PExt>>, out: Seq<Miniscript<Q, QExt>>) -> bool {
    &&& states.len() == scripts.len() + 1
    &&& out.len() == scripts.len()
    &&& forall|i: int|
        0 <= i < scripts.len() ==> T::script_step(
            states[i],
            #[trigger] scripts[i],
            states[i + 1],
            Ok::<Miniscript<Q, QExt>, E>(out[i]),
        )
}

/// Whether a translator in state `pre` makes these scripts of those, one after the other, and is
/// in state `post` then.
pub open spec fn translates_scripts<
    P: MiniscriptKey,
    PExt,
    Q: MiniscriptKey,
    QExt,
    E,
    T: ScriptTranslator<P, PExt, Q, QExt, E>,
>(
    pre: T,
    scripts: Seq<Miniscript<P, PExt>>,
    post: T,
    out: Seq<Miniscript<Q, QExt>>,
) -> bool {
    exists|states: Seq<T>|
        #[trigger] is_run::<P, PExt, Q, QExt, E, T>(states, scripts, out) && states[0] == pre
            && states.last() == post
}

/// Whether a translator in state `pre` translates `n` scripts, fails with this error on the next
/// one, and is in state `post` then.
pub open spec fn fails_at<
    P: MiniscriptKey,
    PExt,
    Q: MiniscriptKey,
    QExt,
    E,
    T: ScriptTranslator<P, PExt, Q, QExt, E>,
>(
    pre: T,
    scripts: Seq<Miniscript<P, PExt>>,
    post: T,
    e: E,
    n: int,
    mid: T,
    out: Seq<Miniscript<Q, QExt>>,
) -> bool {
    &&& 0 <= n < scripts.len()
    &&& translates_scripts::<P, PExt, Q, QExt, E, T>(pre, scripts.take(n), mid, out)
    &&& T::script_step(mid, scripts[n], post, Err::<Miniscript<Q, QExt>, E>(e))
}

/// Whether a translator in state `pre` fails with this error on one of these scripts, which it
/// translates one after the other, and is in state `post` then.
pub open spec fn translation_fails<
    P: MiniscriptKey,
    PExt,
    Q: MiniscriptKey,
    QExt,
    E,
    T: ScriptTranslator<P, PExt, Q, QExt, E>,
>(pre: T, scripts: Seq<Miniscript<P, PExt>>, post: T, e: E) -> bool {
    exists|n: int, mid: T, out: Seq<Miniscript<Q, QExt>>|
        fails_at::<P, PExt, Q, QExt, E, T>(pre, scripts, post, e, n, mid, out)
}

/// One run after another is a run.
proof fn lemma_runs<
    P: MiniscriptKey,
    PExt,
    Q: MiniscriptKey,
    QExt,
    E,
    T: ScriptTranslator<P, PExt, Q, QExt, E>,
>(
    pre: T,
    a: Seq<Miniscript<P, PExt>>,
    mid: T,
    out_a: Seq<Miniscript<Q, QExt>>,
    b: Seq<Miniscript<P, PExt>>,
    post: T,
    out_b: Seq<Miniscript<Q, QExt>>,
)
    requires
        translates_scripts::<P, PExt, Q, QExt, E, T>(pre, a, mid, out_a),
        translates_scripts::<P, PExt, Q, QExt, E, T>(mid, b, post, out_b),
    ensures
        translates_scripts::<P, PExt, Q, QExt, E, T>(pre, a + b, post, out_a + out_b),
{
    let first = choose|states: Seq<T>|
        #[trigger] is_run::<P, PExt, Q, QExt, E, T>(states, a, out_a) && states[0] == pre
            && states.last() == mid;
    let second = choose|states: Seq<T>|
        #[trigger] is_run::<P, PExt, Q, QExt, E, T>(states, b, out_b) && states[0] == mid
            && states.last() == post;
    let states = first + second.skip(1);
    let n = a.len() as int;
    assert forall|i: int| 0 <= i < (a + b).len() implies T::script_step(
        states[i],
        #[trigger] (a + b)[i],
        states[i + 1],
        Ok::<Miniscript<Q, QExt>, E>((out_a + out_b)[i]),
    ) by {
        if i < n {
            assert((a + b)[i] == a[i]);
        } else {
            assert((a + b)[i] == b[i - n]);
            assert(states[i] == second[i - n]);
            assert(states[i + 1] == second[i - n + 1]);
        }
    }
    assert(is_run::<P, PExt, Q, QExt, E, T>(states, a + b, out_a + out_b));
    assert(states.last() == post);
}

/// A translation of no scripts leaves a translator as it is.
proof fn lemma_empty_run<
    P: MiniscriptKey,
    PExt,
    Q: MiniscriptKey,
    QExt,
    E,
    T: ScriptTranslator<P, PExt, Q, QExt, E>,
>(pre: T)
    ensures
        translates_scripts::<P, PExt, Q, QExt, E, T>(pre, Seq::empty(), pre, Seq::empty()),
{
    assert(is_run::<P, PExt, Q, QExt, E, T>(seq![pre], Seq::empty(), Seq::empty()));
    assert(seq![pre].last() == pre);
}

/// The translation of one script.
proof fn lemma_single_run<
    P: MiniscriptKey,
    PExt,
    Q: MiniscriptKey,
    QExt,
    E,
    T: ScriptTranslator<P, PExt, Q, QExt, E>,
>(pre: T, script: Miniscript<P, PExt>, post: T, out: Miniscript<Q, QExt>)
    requires
        T::script_step(pre, script, post, Ok::<Miniscript<Q, QExt>, E>(out)),
    ensures
        translates_scripts::<P, PExt, Q, QExt, E, T>(pre, seq![script], post, seq![out]),
{
    assert(is_run::<P, PExt, Q, QExt, E, T>(seq![pre, post], seq![script], seq![out]));
    assert(seq![pre, post].last() == post);
}

impl<P: MiniscriptKey, PExt> TapTree<P, PExt> {
    /// The scripts of the tree, from left to right.
    pub open spec fn scripts(&self) -> Seq<Miniscript<P, PExt>>
        decreases self,
    {
        match self {
            TapTree::Tree(l, r) => l.scripts() + r.scripts(),
            TapTree::Leaf(ms) => seq![**ms],
        }
    }

    /// Translates the scripts of the tree, from left to right, up to the first failure.
    pub fn translate_helper<
        Q: MiniscriptKey,
        QExt,
        E,
        T: ScriptTranslator<P, PExt, Q, QExt, E>,
    >(&self, t: &mut T) -> (r: Result<TapTree<Q, QExt>, E>)
        ensures
            r matches Ok(tree) ==> tree.shape() == self.shape() && translates_scripts::<
                P,
                PExt,
                Q,
                QExt,
                E,
                T,
            >(*old(t), self.scripts(), *final(t), tree.scripts()),
            r matches Err(e) ==> translation_fails::<P, PExt, Q, QExt, E, T>(
                *old(t),
                self.scripts(),
                *final(t),
                e,
            ),
        decreases self,
    {
        let ghost pre = *t;
        match self {
            TapTree::Tree(l, r) => {
                let ghost a = l.scripts();
                let ghost b = r.scripts();
                let left = match l.translate_helper(t) {
                    Ok(tree) => tree,
                    Err(e) => {
                        proof {
                            let (n, mid, out) = choose|
                                n: int,
                                mid: T,
                                out: Seq<Miniscript<Q, QExt>>,
                            |
                                fails_at::<P, PExt, Q, QExt, E, T>(pre, a, *t, e, n, mid, out);
                            assert((a + b).take(n) =~= a.take(n));
                            assert(fails_at::<P, PExt, Q, QExt, E, T>(
                                pre,
                                a + b,
                                *t,
                                e,
                                n,
                                mid,
                                out,
                            ));
                        }
                        return Err(e);
                    },
                };
                let ghost mid = *t;
                let right = match r.translate_helper(t) {
                    Ok(tree) => tree,
                    Err(e) => {
                        proof {
                            let (n, state, out) = choose|
                                n: int,
                                state: T,
                                out: Seq<Miniscript<Q, QExt>>,
                            |
                                fails_at::<P, PExt, Q, QExt, E, T>(mid, b, *t, e, n, state, out);
                            lemma_runs::<P, PExt, Q, QExt, E, T>(
                                pre,
                                a,
                                mid,
                                left.scripts(),
                                b.take(n),
                                state,
                                out,
                            );
                            assert((a + b).take(a.len() + n) =~= a + b.take(n));
                            assert((a + b)[a.len() + n] == b[n]);
                            assert(fails_at::<P, PExt, Q, QExt, E, T>(
                                pre,
                                a + b,
                                *t,
                                e,
                                a.len() + n,
                                state,
                                left.scripts() + out,
                            ));
                        }
                        return Err(e);
                    },
                };
                proof {
                    lemma_runs::<P, PExt, Q, QExt, E, T>(
                        pre,
                        a,
                        mid,
                        left.scripts(),
                        b,
                        *t,
                        right.scripts(),
                    );
                }
                Ok(TapTree::Tree(Arc::new(left), Arc::new(right)))
            },
            TapTree::Leaf(ms) => match t.script(ms) {
                Ok(script) => {
                    proof {
                        lemma_single_run::<P, PExt, Q, QExt, E, T>(
                            pre,
                            self.scripts()[0],
                            *t,
                            script,
                        );
                    }
                    Ok(TapTree::Leaf(Arc::new(script)))
                },
                Err(e) => {
                    proof {
                        lemma_empty_run::<P, PExt, Q, QExt, E, T>(pre);
                        assert(self.scripts().take(0) =~= Seq::empty());
                        assert(fails_at::<P, PExt, Q, QExt, E, T>(
                            pre,
                            self.scripts(),
                            *t,
                            e,
                            0,
                            pre,
                            Seq::empty(),
                        ));
                    }
                    Err(e)
                },
            },
        }
    }

    /// Translates the extensions in the scripts of the tree, from left to right, up to the first
    /// failure.
    pub fn translate_ext_helper<QExt, E, T: ScriptTranslator<P, PExt, P, QExt, E>>(
        &self,
        t: &mut T,
    ) -> (r: Result<TapTree<P, QExt>, E>)
        ensures
            r matches Ok(tree) ==> tree.shape() == self.shape() && translates_scripts::<
                P,
                PExt,
                P,
                QExt,
                E,
                T,
            >(*old(t), self.scripts(), *final(t), tree.scripts()),
            r matches Err(e) ==> translation_fails::<P, PExt, P, QExt, E, T>(
                *old(t),
                self.scripts(),
                *final(t),
                e,
            ),
    {
        self.translate_helper(t)
    }
}

/// Whether a translator in state `pre` makes the second tree of the first and is in state `post`
/// then. Where there is no tree there is nothing to translate.
pub open spec fn translates_tree<
    P: MiniscriptKey,
    PExt,
    Q: MiniscriptKey,
    QExt,
    E,
    T: ScriptTranslator<P, PExt, Q, QExt, E>,
>(
    pre: T,
    tree: Option<TapTree<P, PExt>>,
    post: T,
    out: Option<TapTree<Q, QExt>>,
) -> bool {
    match (tree, out) {
        (Some(t), Some(u)) => {
            &&& u.shape() == t.shape()
            &&& translates_scripts::<P, PExt, Q, QExt, E, T>(pre, t.scripts(), post, u.scripts())
        },
        (None, None) => pre == post,
        _ => false,
    }
}

/// Whether a translator in state `pre` fails with this error on a tree and is in state `post`
/// then.
pub open spec fn tree_translation_fails<
    P: MiniscriptKey,
    PExt,
    Q: MiniscriptKey,
    QExt,
    E,
    T: ScriptTranslator<P, PExt, Q, QExt, E>,
>(pre: T, tree: Option<TapTree<P, PExt>>, post: T, e: E) -> bool {
    tree matches Some(t) && translation_fails::<P, PExt, Q, QExt, E, T>(pre, t.scripts(), post, e)
}

/// Whether a translator in state `pre` makes the second internal key and tree of the first, the
/// key before the tree, and is in state `post` then.
pub open spec fn translates_tr<
    P: MiniscriptKey,
    Q: MiniscriptKey,
    Ext,
    E,
    T: Translator<P, Q, Ext, E>,
>(
    pre: T,
    key: P,
    tree: Option<TapTree<P, Ext>>,
    post: T,
    out_key: Q,
    out_tree: Option<TapTree<Q, Ext>>,
) -> bool {
    exists|mid: T|
        #[trigger] T::pk_step(pre, key, mid, Ok::<Q, E>(out_key)) && translates_tree::<
            P,
            Ext,
            Q,
            Ext,
            E,
            T,
        >(mid, tree, post, out_tree)
}

/// Whether a translator in state `pre` fails with this error on the internal key or, after that,
/// on the tree, and is in state `post` then.
pub open spec fn tr_translation_fails<
    P: MiniscriptKey,
    Q: MiniscriptKey,
    Ext,
    E,
    T: Translator<P, Q, Ext, E>,
>(pre: T, key: P, tree: Option<TapTree<P, Ext>>, post: T, e: E) -> bool {
    ||| T::pk_step(pre, key, post, Err::<Q, E>(e))
    ||| exists|mid: T, out_key: Q|
        #[trigger] T::pk_step(pre, key, mid, Ok::<Q, E>(out_key)) && tree_translation_fails::<
            P,
            Ext,
            Q,
            Ext,
            E,
            T,
        >(mid, tree, post, e)
}

/// A tree of the same shape can stand in a descriptor too.
proof fn lemma_same_shape<P: MiniscriptKey, PExt, Q: MiniscriptKey, QExt>(
    a: &TapTree<P, PExt>,
    b: &TapTree<Q, QExt>,
)
    requires
        a.shape() == b.shape(),
    ensures
        a.height() == b.height(),
{
    lemma_shape(a, 0);
    lemma_shape(b, 0);
}

impl<P: MiniscriptKey, Ext> Tr<P, Ext> {
    /// Translates the keys of the descriptor: the internal key first, then the scripts from left
    /// to right, up to the first failure.
    pub fn translate_pk<Q: MiniscriptKey, E, T: Translator<P, Q, Ext, E>>(
        &self,
        translate: &mut T,
    ) -> (r: Result<Tr<Q, Ext>, E>)
        ensures
            r matches Ok(d) ==> translates_tr::<P, Q, Ext, E, T>(
                *old(translate),
                self.key(),
                self.script_tree(),
                *final(translate),
                d.key(),
                d.script_tree(),
            ),
            r matches Err(e) ==> tr_translation_fails::<P, Q, Ext, E, T>(
                *old(translate),
                self.key(),
                self.script_tree(),
                *final(translate),
                e,
            ),
    {
        let key = match translate.pk(self.internal_key()) {
            Ok(key) => key,
            Err(e) => return Err(e),
        };
        let ghost mid = *translate;
        let tree = match self.taptree() {
            Some(tree) => match tree.translate_helper(translate) {
                Ok(out) => {
                    proof {
                        lemma_same_shape(tree, &out);
                    }
                    Some(out)
                },
                Err(e) => return Err(e),
            },
            None => None,
        };
        let d = Tr::uncached(key, tree);
        assert(translates_tree::<P, Ext, Q, Ext, E, T>(
            mid,
            self.script_tree(),
            *translate,
            d.script_tree(),
        ));
        assert(T::pk_step(*old(translate), self.key(), mid, Ok::<Q, E>(d.key())));
        Ok(d)
    }

    /// Translates the extensions in the scripts of the descriptor, from left to right, up to the
    /// first failure. The internal key stays.
    pub fn translate_ext<QExt, E, T: ScriptTranslator<P, Ext, P, QExt, E>>(
        &self,
        translator: &mut T,
    ) -> (r: Result<Tr<P, QExt>, E>)
        ensures
            r matches Ok(d) ==> d.key() == self.key() && translates_tree::<P, Ext, P, QExt, E, T>(
                *old(translator),
                self.script_tree(),
                *final(translator),
                d.script_tree(),
            ),
            r matches Err(e) ==> tree_translation_fails::<P, Ext, P, QExt, E, T>(
                *old(translator),
                self.script_tree(),
                *final(translator),
                e,
            ),
    {
        let key = cloned_key(self.internal_key());
        let tree = match self.taptree() {
            Some(tree) => match tree.translate_ext_helper(translator) {
                Ok(out) => {
                    proof {
                        lemma_same_shape(tree, &out);
                    }
                    Some(out)
                },
                Err(e) => return Err(e),
            },
            None => None,
        };
        Ok(Tr::uncached(key, tree))
    }
}

/// A translation leaves the walk over the scripts as it is, but for the scripts: as many come in
/// the same order at the same depths, and the tree is as high as before.
pub proof fn law_translation_keeps_the_walk<P: MiniscriptKey, PExt, Q: MiniscriptKey, QExt>(
    tree: &TapTree<P, PExt>,
    out: &TapTree<Q, QExt>,
)
    requires
        tree.shape() == out.shape(),
    ensures
        tree.height() == out.height(),
        tree.leaves(0).len() == out.leaves(0).len(),
        forall|i: int|
            0 <= i < tree.leaves(0).len() ==> (#[trigger] tree.leaves(0)[i]).0 == out.leaves(
                0,
            )[i].0,
        tree.leaves(0).len() == tree.scripts().len(),
        forall|i: int|
            0 <= i < tree.leaves(0).len() ==> (#[trigger] tree.leaves(0)[i]).1
                == tree.scripts()[i],
{
    lemma_same_shape(tree, out);
    lemma_shape(tree, 0);
    lemma_shape(out, 0);
    lemma_leaf_scripts(tree, 0);
    let a = tree.leaves(0).map_values(|l: (nat, Miniscript<P, PExt>)| l.0);
    let b = out.leaves(0).map_values(|l: (nat, Miniscript<Q, QExt>)| l.0);
    assert(a == b);
    assert(a.len() == tree.leaves(0).len());
    assert(b.len() == out.leaves(0).len());
    assert forall|i: int| 0 <= i < tree.leaves(0).len() implies (#[trigger] tree.leaves(0)[i]).0
        == out.leaves(0)[i].0 by {
        assert(a[i] == tree.leaves(0)[i].0);
        assert(b[i] == out.leaves(0)[i].0);
    }
}

/// The scripts of a tree come in the order of the walk.
proof fn lemma_leaf_scripts<P: MiniscriptKey, PExt>(tree: &TapTree<P, PExt>, d: nat)
    ensures
        tree.leaves(d).len() == tree.scripts().len(),
        forall|i: int|
            0 <= i < tree.leaves(d).len() ==> (#[trigger] tree.leaves(d)[i]).1
                == tree.scripts()[i],
    decreases tree,
{
    match tree {
        TapTree::Tree(l, r) => {
            lemma_leaf_scripts(&**l, d + 1);
            lemma_leaf_scripts(&**r, d + 1);
            let n = l.scripts().len();
            assert forall|i: int| 0 <= i < tree.leaves(d).len() implies (#[trigger] tree.leaves(
                d,
            )[i]).1 == tree.scripts()[i] by {
                if i < n {
                    assert(tree.leaves(d)[i] == l.leaves(d + 1)[i]);
                } else {
                    assert(tree.leaves(d)[i] == r.leaves(d + 1)[i - n]);
                }
            }
        },
        TapTree::Leaf(_) => {},
    }
}

/// The shape of a tree and its scripts determine the tree.
proof fn lemma_shape_and_scripts<P: MiniscriptKey, Ext>(
    a: &TapTree<P, Ext>,
    b: &TapTree<P, Ext>,
)
    requires
        a.shape() == b.shape(),
        a.scripts() == b.scripts(),
    ensures
        *a == *b,
    decreases a,
{
    match (a, b) {
        (TapTree::Tree(l1, r1), TapTree::Tree(l2, r2)) => {
            law_translation_keeps_the_walk(&**l1, &**l2);
            law_translation_keeps_the_walk(&**l2, &**l1);
            let n = l1.scripts().len() as int;
            assert(a.scripts().take(n) =~= l1.scripts());
            assert(b.scripts().take(n) =~= l2.scripts());
            assert(a.scripts().skip(n) =~= r1.scripts());
            assert(b.scripts().skip(n) =~= r2.scripts());
            lemma_shape_and_scripts(&**l1, &**l2);
            lemma_shape_and_scripts(&**r1, &**r2);
        },
        (TapTree::Leaf(x), TapTree::Leaf(y)) => {
            assert(a.scripts()[0] == **x);
            assert(b.scripts()[0] == **y);
        },
        _ => {},
    }
}

/// The walk over the scripts of a tree determines the tree.
pub proof fn law_walk_determines_tree<P: MiniscriptKey, Ext>(
    a: &TapTree<P, Ext>,
    b: &TapTree<P, Ext>,
)
    requires
        a.leaves(0) == b.leaves(0),
    ensures
        *a == *b,
{
    lemma_shape(a, 0);
    lemma_shape(b, 0);
    let depths = a.shape().depths(0);
    assert(depths + Seq::<nat>::empty() =~= b.shape().depths(0) + Seq::<nat>::empty());
    lemma_depths_unique(a.shape(), Seq::empty(), b.shape(), Seq::empty(), 0);
    lemma_leaf_scripts(a, 0);
    lemma_leaf_scripts(b, 0);
    assert forall|i: int| 0 <= i < a.scripts().len() implies a.scripts()[i] == b.scripts()[i] by {
        assert(a.leaves(0)[i].1 == a.scripts()[i]);
        assert(b.leaves(0)[i].1 == b.scripts()[i]);
    }
    assert(a.scripts() =~= b.scripts());
    lemma_shape_and_scripts(a, b);
}

/// A translator that always makes of a script one that stands in some relation to it cannot fail,
/// and makes of every tree one of the same shape whose scripts stand in that relation to those of
/// the first, one by one.
pub proof fn law_translation_is_script_by_script<
    P: MiniscriptKey,
    PExt,
    Q: MiniscriptKey,
    QExt,
    E,
    T: ScriptTranslator<P, PExt, Q, QExt, E>,
>(
    related: spec_fn(Miniscript<P, PExt>, Miniscript<Q, QExt>) -> bool,
    pre: T,
    tree: &TapTree<P, PExt>,
    post: T,
    out: &TapTree<Q, QExt>,
    e: E,
)
    requires
        forall|x: T, ms: Miniscript<P, PExt>, y: T, r: Result<Miniscript<Q, QExt>, E>| #[trigger]
            T::script_step(x, ms, y, r) ==> (r matches Ok(new) && related(ms, new)),
    ensures
        translates_tree::<P, PExt, Q, QExt, E, T>(pre, Some(*tree), post, Some(*out)) ==> {
            &&& out.shape() == tree.shape()
            &&& out.scripts().len() == tree.scripts().len()
            &&& forall|i: int|
                0 <= i < tree.scripts().len() ==> related(
                    #[trigger] tree.scripts()[i],
                    out.scripts()[i],
                )
        },
        !tree_translation_fails::<P, PExt, Q, QExt, E, T>(pre, Some(*tree), post, e),
{
    if translates_tree::<P, PExt, Q, QExt, E, T>(pre, Some(*tree), post, Some(*out)) {
        let states = choose|states: Seq<T>|
            #[trigger] is_run::<P, PExt, Q, QExt, E, T>(states, tree.scripts(), out.scripts())
                && states[0] == pre && states.last() == post;
        assert forall|i: int| 0 <= i < tree.scripts().len() implies related(
            #[trigger] tree.scripts()[i],
            out.scripts()[i],
        ) by {
            assert(T::script_step(
                states[i],
                tree.scripts()[i],
                states[i + 1],
                Ok::<Miniscript<Q, QExt>, E>(out.scripts()[i]),
            ));
        }
    }
}

/// A translator that leaves every script as it is leaves every tree as it is, and cannot fail.
pub proof fn law_identity_translation<
    P: MiniscriptKey,
    Ext,
    E,
    T: ScriptTranslator<P, Ext, P, Ext, E>,
>(pre: T, tree: &TapTree<P, Ext>, post: T, out: &TapTree<P, Ext>, e: E)
    requires
        forall|x: T, ms: Miniscript<P, Ext>, y: T, r: Result<Miniscript<P, Ext>, E>| #[trigger]
            T::script_step(x, ms, y, r) ==> r == Ok::<Miniscript<P, Ext>, E>(ms),
    ensures
        translates_tree::<P, Ext, P, Ext, E, T>(pre, Some(*tree), post, Some(*out)) ==> *out
            == *tree,
        !tree_translation_fails::<P, Ext, P, Ext, E, T>(pre, Some(*tree), post, e),
{
    law_translation_is_script_by_script::<P, Ext, P, Ext, E, T>(
        |a: Miniscript<P, Ext>, b: Miniscript<P, Ext>| a == b,
        pre,
        tree,
        post,
        out,
        e,
    );
    if translates_tree::<P, Ext, P, Ext, E, T>(pre, Some(*tree), post, Some(*out)) {
        assert(tree.scripts() =~= out.scripts());
        lemma_shape_and_scripts(tree, out);
    }
}

} // verus!
