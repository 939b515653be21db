//! Keys, and the question that is asked of every key of a descriptor.

use crate::descriptor::for_each::{all_hold, answers, keys_of_scripts, one_fails};
use crate::descriptor::tr::Tr;
use crate::miniscript::{ForEach, Miniscript, MiniscriptKey, ScriptKey, XOnlyKey};
use crate::order::{bytes_order, text_order};
use crate::taproot::{hash160_of, x_only_bytes};
use crate::util::hex_text;
use vstd::prelude::*;
use vstd::utf8::encode_utf8;

verus! {

/// A string as a key is its own text and its own hash, and is compared as a text.
pub proof fn law_string_key(a: String, b: String)
    ensures
        a.text() == a@,
        a.pubkeyhash() == a,
        a.x_only().len() == 0,
        a.same(&b) <==> a@ == b@,
        a.order(&b) == text_order(a@, b@),
        a.hash_bytes() == encode_utf8(a@),
{
}

/// An x-only key is written in hexadecimal digits, hashed by HASH160 and compared by its bytes.
pub proof fn law_x_only_key(a: XOnlyKey, b: XOnlyKey)
    ensures
        a.x_only() == x_only_bytes(a.key),
        a.text() == hex_text(x_only_bytes(a.key)),
        a.pubkeyhash() == hash160_of(x_only_bytes(a.key)),
        a.same(&b) <==> x_only_bytes(a.key) == x_only_bytes(b.key),
        a.order(&b) == bytes_order(x_only_bytes(a.key), x_only_bytes(b.key)),
        a.hash_bytes() == x_only_bytes(a.key),
{
}

/// Where the keys of a script begin among those of all scripts.
spec fn offset<Pk: MiniscriptKey, Ext>(scripts: Seq<(nat, Miniscript<Pk, Ext>)>, i: int) -> nat {
    keys_of_scripts(scripts.take(i)).len()
}

/// Every key of every script is among the keys of all scripts, in its place.
proof fn lemma_key_placed<Pk: MiniscriptKey, Ext>(
    scripts: Seq<(nat, Miniscript<Pk, Ext>)>,
    i: int,
    j: int,
)
    requires
        0 <= i < scripts.len(),
        0 <= j < scripts[i].1.keys@.len(),
    ensures
        offset(scripts, i) + j < keys_of_scripts(scripts).len(),
        keys_of_scripts(scripts)[offset(scripts, i) + j] == scripts[i].1.keys@[j],
    decreases scripts.len(),
{
    let front = scripts.drop_last();
    if i == scripts.len() - 1 {
        assert(scripts.take(i) =~= front);
    } else {
        lemma_key_placed(front, i, j);
        assert(front.take(i) =~= scripts.take(i));
    }
}

/// Every key of all scripts is a key of some script, and those before it are all keys of earlier
/// scripts or earlier keys of that one.
proof fn lemma_place_found<Pk: MiniscriptKey, Ext>(
    scripts: Seq<(nat, Miniscript<Pk, Ext>)>,
    n: int,
) -> (r: (int, int))
    requires
        0 <= n < keys_of_scripts(scripts).len(),
    ensures
        0 <= r.0 < scripts.len(),
        0 <= r.1 < scripts[r.0].1.keys@.len(),
        n == offset(scripts, r.0) + r.1,
        keys_of_scripts(scripts)[n] == scripts[r.0].1.keys@[r.1],
        forall|i: int, j: int|
            0 <= i < scripts.len() && 0 <= j < scripts[i].1.keys@.len() && (i < r.0 || i == r.0 && j
                < r.1) ==> #[trigger] (offset(scripts, i) + j) < n,
    decreases scripts.len(),
{
    let front = scripts.drop_last();
    let before = keys_of_scripts(front).len();
    if n < before {
        let r = lemma_place_found(front, n);
        assert(front.take(r.0) =~= scripts.take(r.0));
        assert forall|i: int, j: int|
            0 <= i < scripts.len() && 0 <= j < scripts[i].1.keys@.len() && (i < r.0 || i == r.0 && j
                < r.1) implies #[trigger] (offset(scripts, i) + j) < n by {
            assert(front.take(i) =~= scripts.take(i));
            assert(front[i] == scripts[i]);
            assert(offset(front, i) + j < n);
        }
        r
    } else {
        let last = scripts.len() - 1;
        let j0 = n - before;
        assert(scripts.take(last) =~= front);
        assert forall|i: int, j: int|
            0 <= i < scripts.len() && 0 <= j < scripts[i].1.keys@.len() && (i < last || i == last
                && j < j0) implies #[trigger] (offset(scripts, i) + j) < n by {
            if i < last {
                lemma_key_placed(front, i, j);
                assert(front.take(i) =~= scripts.take(i));
                assert(front[i] == scripts[i]);
            }
        }
        (last, j0)
    }
}

/// If the result is true, the predicate may hold for the internal key and for every key of every
/// script that the walk yields. If it is false, there is one of these keys for which it may not
/// hold, and it may hold for all that come before: the keys of earlier scripts and earlier keys of
/// the same script, or, for the internal key, the keys of all scripts.
pub proof fn law_for_each_key_asks_every_key<
    'a,
    Pk: MiniscriptKey + 'a,
    Ext,
    F: FnMut(ForEach<'a, Pk>) -> bool,
>(pred: F, desc: Tr<Pk, Ext>) where Pk::Hash: 'a
    ensures
        all_hold(pred, desc.all_keys()) ==> {
            &&& call_ensures(pred, (ForEach::Key(&desc.key()),), true)
            &&& forall|i: int, j: int|
                0 <= i < desc.scripts().len() && 0 <= j < desc.scripts()[i].1.keys@.len()
                    ==> match #[trigger] desc.scripts()[i].1.keys@[j] {
                    ScriptKey::Key(k) => call_ensures(pred, (ForEach::Key(&k),), true),
                    ScriptKey::Hash(h) => call_ensures(pred, (ForEach::Hash(&h),), true),
                }
        },
        one_fails(pred, desc.all_keys()) ==> {
            ||| call_ensures(pred, (ForEach::Key(&desc.key()),), false) && forall|i: int, j: int|
                0 <= i < desc.scripts().len() && 0 <= j < desc.scripts()[i].1.keys@.len()
                    ==> match #[trigger] desc.scripts()[i].1.keys@[j] {
                    ScriptKey::Key(k) => call_ensures(pred, (ForEach::Key(&k),), true),
                    ScriptKey::Hash(h) => call_ensures(pred, (ForEach::Hash(&h),), true),
                }
            ||| exists|m: int, n: int|
                {
                    &&& 0 <= m < desc.scripts().len()
                    &&& 0 <= n < desc.scripts()[m].1.keys@.len()
                    &&& match #[trigger] desc.scripts()[m].1.keys@[n] {
                        ScriptKey::Key(k) => call_ensures(pred, (ForEach::Key(&k),), false),
                        ScriptKey::Hash(h) => call_ensures(pred, (ForEach::Hash(&h),), false),
                    }
                    &&& forall|i: int, j: int|
                        0 <= i < desc.scripts().len() && 0 <= j < desc.scripts()[i].1.keys@.len()
                            && (i < m || i == m && j < n)
                            ==> match #[trigger] desc.scripts()[i].1.keys@[j] {
                            ScriptKey::Key(k) => call_ensures(pred, (ForEach::Key(&k),), true),
                            ScriptKey::Hash(h) => call_ensures(pred, (ForEach::Hash(&h),), true),
                        }
                }
        },
{
    let scripts = desc.scripts();
    let placed = keys_of_scripts(scripts);
    let keys = desc.all_keys();
    let last = placed.len() as int;
    assert(keys[last] == ScriptKey::Key(desc.key()));
    assert forall|i: int, j: int|
        0 <= i < scripts.len() && 0 <= j < scripts[i].1.keys@.len() implies offset(scripts, i) + j
        < last && keys[offset(scripts, i) + j] == #[trigger] scripts[i].1.keys@[j] by {
        lemma_key_placed(scripts, i, j);
        assert(keys[offset(scripts, i) + j] == placed[offset(scripts, i) + j]);
    }
    if all_hold(pred, keys) {
        assert(answers(pred, keys[last], true));
        assert forall|i: int, j: int|
            0 <= i < scripts.len() && 0 <= j < scripts[i].1.keys@.len() implies answers(
            pred,
            #[trigger] scripts[i].1.keys@[j],
            true,
        ) by {
            lemma_key_placed(scripts, i, j);
            assert(keys[offset(scripts, i) + j] == placed[offset(scripts, i) + j]);
            assert(answers(pred, keys[offset(scripts, i) + j], true));
        }
    }
    if one_fails(pred, keys) {
        let n = choose|n: int|
            0 <= n < keys.len() && answers(pred, #[trigger] keys[n], false) && all_hold(
                pred,
                keys.take(n),
            );
        assert forall|k: int| 0 <= k < n implies answers(pred, #[trigger] keys[k], true) by {
            assert(keys.take(n)[k] == keys[k]);
        }
        if n < last {
            let (m, k) = lemma_place_found(scripts, n);
            assert(keys[n] == placed[n]);
            assert(answers(pred, desc.scripts()[m].1.keys@[k], false));
            assert forall|i: int, j: int|
                0 <= i < scripts.len() && 0 <= j < scripts[i].1.keys@.len() && (i < m || i == m && j
                    < k) implies answers(pred, #[trigger] scripts[i].1.keys@[j], true) by {
                assert(offset(scripts, i) + j < n);
                lemma_key_placed(scripts, i, j);
                assert(keys[offset(scripts, i) + j] == placed[offset(scripts, i) + j]);
                assert(answers(pred, keys[offset(scripts, i) + j], true));
            }
        } else {
            assert forall|i: int, j: int|
                0 <= i < scripts.len() && 0 <= j < scripts[i].1.keys@.len() implies answers(
                pred,
                #[trigger] scripts[i].1.keys@[j],
                true,
            ) by {
                lemma_key_placed(scripts, i, j);
                assert(keys[offset(scripts, i) + j] == placed[offset(scripts, i) + j]);
                assert(answers(pred, keys[offset(scripts, i) + j], true));
            }
        }
    }
}

} // verus!
