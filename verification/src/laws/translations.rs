//! Translations, and the shapes of trees.

use crate::descriptor::tap_tree::TapTree;
use crate::descriptor::translate::{
    fails_at, is_run, tr_translation_fails, translates_scripts, translates_tr, translates_tree,
    translation_fails, tree_translation_fails,
};
use crate::miniscript::{Miniscript, MiniscriptKey, ScriptTranslator, Translator};
use crate::taproot::{dfs_complete, dfs_prefix, leaf_depths, max_depth, Shape};
use vstd::prelude::*;

verus! {

/// The depths of the leaves of a shape are those of the left part and then those of the right part,
/// both one deeper.
pub proof fn law_shape(l: Shape, r: Shape, d: nat, depths: Seq<nat>)
    ensures
        Shape::Leaf.height() == 0,
        Shape::Node(Box::new(l), Box::new(r)).height() == 1 + if l.height() > r.height() {
            l.height()
        } else {
            r.height()
        },
        Shape::Leaf.depths(d) == seq![d],
        Shape::Node(Box::new(l), Box::new(r)).depths(d) == l.depths(d + 1) + r.depths(d + 1),
        max_depth() == 128,
        dfs_complete(depths) <==> exists|t: Shape|
            t.height() <= 128 && depths == #[trigger] t.depths(0),
        dfs_prefix(depths) <==> exists|t: Shape|
            t.height() <= 128 && depths.is_prefix_of(#[trigger] t.depths(0)),
{
}

/// The depths of leaves, in their order.
pub proof fn law_leaf_depths(leaves: Seq<(nat, Seq<u8>)>, i: int)
    ensures
        leaf_depths(leaves).len() == leaves.len(),
        0 <= i < leaves.len() ==> leaf_depths(leaves)[i] == leaves[i].0,
{
}

/// A translation of scripts goes through them in their order, each time from the state that the
/// one before has left, and makes one script of each.
pub proof fn law_translates_scripts<
    P: MiniscriptKey,
    PExt,
    Q: MiniscriptKey,
    QExt,
    E,
    T: ScriptTranslator<P, PExt, Q, QExt, E>,
>(pre: T, scripts: Seq<Miniscript<P, PExt>>, post: T, out: Seq<Miniscript<Q, QExt>>)
    ensures
        translates_scripts::<P, PExt, Q, QExt, E, T>(pre, scripts, post, out) <==> exists|
            states: Seq<T>,
        |
            {
                &&& #[trigger] states.len() == scripts.len() + 1
                &&& out.len() == scripts.len()
                &&& states[0] == pre
                &&& states[scripts.len() as int] == post
                &&& forall|i: int|
                    0 <= i < scripts.len() ==> T::script_step(
                        states[i],
                        #[trigger] scripts[i],
                        states[i + 1],
                        Ok::<Miniscript<Q, QExt>, E>(out[i]),
                    )
            },
{
    if translates_scripts::<P, PExt, Q, QExt, E, T>(pre, scripts, post, out) {
        let states = choose|states: Seq<T>|
            #[trigger] is_run::<P, PExt, Q, QExt, E, T>(states, scripts, out) && states[0] == pre
                && states.last() == post;
        assert(states.len() == scripts.len() + 1);
    }
    if exists|states: Seq<T>|
        {
            &&& #[trigger] states.len() == scripts.len() + 1
            &&& out.len() == scripts.len()
            &&& states[0] == pre
            &&& states[scripts.len() as int] == post
            &&& forall|i: int|
                0 <= i < scripts.len() ==> T::script_step(
                    states[i],
                    #[trigger] scripts[i],
                    states[i + 1],
                    Ok::<Miniscript<Q, QExt>, E>(out[i]),
                )
        } {
        let states = choose|states: Seq<T>|
            {
                &&& #[trigger] states.len() == scripts.len() + 1
                &&& out.len() == scripts.len()
                &&& states[0] == pre
                &&& states[scripts.len() as int] == post
                &&& forall|i: int|
                    0 <= i < scripts.len() ==> T::script_step(
                        states[i],
                        #[trigger] scripts[i],
                        states[i + 1],
                        Ok::<Miniscript<Q, QExt>, E>(out[i]),
                    )
            };
        assert(is_run::<P, PExt, Q, QExt, E, T>(states, scripts, out));
    }
}

/// A translation of scripts fails when all scripts before one have been translated and that one
/// fails.
pub proof fn law_translation_fails<
    P: MiniscriptKey,
    PExt,
    Q: MiniscriptKey,
    QExt,
    E,
    T: ScriptTranslator<P, PExt, Q, QExt, E>,
>(pre: T, scripts: Seq<Miniscript<P, PExt>>, post: T, e: E)
    ensures
        translation_fails::<P, PExt, Q, QExt, E, T>(pre, scripts, post, e) <==> exists|
            n: int,
            mid: T,
            out: Seq<Miniscript<Q, QExt>>,
        |
            {
                &&& 0 <= n < scripts.len()
                &&& #[trigger] translates_scripts::<P, PExt, Q, QExt, E, T>(
                    pre,
                    scripts.take(n),
                    mid,
                    out,
                )
                &&& T::script_step(mid, scripts[n], post, Err::<Miniscript<Q, QExt>, E>(e))
            },
{
    if exists|n: int, mid: T, out: Seq<Miniscript<Q, QExt>>|
        {
            &&& 0 <= n < scripts.len()
            &&& #[trigger] translates_scripts::<P, PExt, Q, QExt, E, T>(
                pre,
                scripts.take(n),
                mid,
                out,
            )
            &&& T::script_step(mid, scripts[n], post, Err::<Miniscript<Q, QExt>, E>(e))
        } {
        let (n, mid, out) = choose|n: int, mid: T, out: Seq<Miniscript<Q, QExt>>|
            {
                &&& 0 <= n < scripts.len()
                &&& #[trigger] translates_scripts::<P, PExt, Q, QExt, E, T>(
                    pre,
                    scripts.take(n),
                    mid,
                    out,
                )
                &&& T::script_step(mid, scripts[n], post, Err::<Miniscript<Q, QExt>, E>(e))
            };
        assert(fails_at::<P, PExt, Q, QExt, E, T>(pre, scripts, post, e, n, mid, out));
    }
}

/// The translation of a tree is a tree of the same shape whose scripts, from left to right, are the
/// translations of its scripts. Where there is no tree the translator stays as it is.
pub proof fn law_translates_tree<
    P: MiniscriptKey,
    PExt,
    Q: MiniscriptKey,
    QExt,
    E,
    T: ScriptTranslator<P, PExt, Q, QExt, E>,
>(pre: T, tree: &TapTree<P, PExt>, post: T, out: &TapTree<Q, QExt>, e: E)
    ensures
        translates_tree::<P, PExt, Q, QExt, E, T>(pre, Some(*tree), post, Some(*out)) <==> {
            &&& out.shape() == tree.shape()
            &&& translates_scripts::<P, PExt, Q, QExt, E, T>(
                pre,
                tree.scripts(),
                post,
                out.scripts(),
            )
        },
        translates_tree::<P, PExt, Q, QExt, E, T>(
            pre,
            None::<TapTree<P, PExt>>,
            post,
            None::<TapTree<Q, QExt>>,
        ) <==> pre == post,
        !translates_tree::<P, PExt, Q, QExt, E, T>(
            pre,
            Some(*tree),
            post,
            None::<TapTree<Q, QExt>>,
        ),
        !translates_tree::<P, PExt, Q, QExt, E, T>(
            pre,
            None::<TapTree<P, PExt>>,
            post,
            Some(*out),
        ),
        tree_translation_fails::<P, PExt, Q, QExt, E, T>(pre, Some(*tree), post, e)
            <==> translation_fails::<P, PExt, Q, QExt, E, T>(pre, tree.scripts(), post, e),
        !tree_translation_fails::<P, PExt, Q, QExt, E, T>(
            pre,
            None::<TapTree<P, PExt>>,
            post,
            e,
        ),
{
}

/// The translation of a descriptor is the translation of its internal key and then, from the state
/// that this leaves, the translation of its tree. It fails with whichever fails first.
pub proof fn law_translates_descriptor<
    P: MiniscriptKey,
    Q: MiniscriptKey,
    Ext,
    E,
    T: Translator<P, Q, Ext, E>,
>(
    pre: T,
    key: P,
    tree: &Option<TapTree<P, Ext>>,
    post: T,
    out_key: Q,
    out_tree: &Option<TapTree<Q, Ext>>,
    e: E,
)
    ensures
        translates_tr::<P, Q, Ext, E, T>(pre, key, *tree, post, out_key, *out_tree) <==> exists|
            mid: T,
        |
            #[trigger] T::pk_step(pre, key, mid, Ok::<Q, E>(out_key)) && translates_tree::<
                P,
                Ext,
                Q,
                Ext,
                E,
                T,
            >(mid, *tree, post, *out_tree),
        tr_translation_fails::<P, Q, Ext, E, T>(pre, key, *tree, post, e) <==> {
            ||| T::pk_step(pre, key, post, Err::<Q, E>(e))
            ||| exists|mid: T, made: Q|
                #[trigger] T::pk_step(pre, key, mid, Ok::<Q, E>(made)) && tree_translation_fails::<
                    P,
                    Ext,
                    Q,
                    Ext,
                    E,
                    T,
                >(mid, *tree, post, e)
        },
{
}

} // verus!
