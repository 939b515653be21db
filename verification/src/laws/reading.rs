//! How texts are read as descriptors.

use crate::descriptor::checksum::{checked_descriptor, checksum_text, input_charset};
use crate::descriptor::display::with_checksum;
use crate::descriptor::parse::parse_tr;
use crate::descriptor::read::{
    reads_some_tree, reads_text, reads_tr, reads_tree, text_fails, tr_fails, tree_fails,
};
use crate::descriptor::round_trip::{is_plain, law_checksum};
use crate::descriptor::tap_tree::TapTree;
use crate::error::{Error, ErrorView};
use crate::expression::{paren_balance, reading_fails, reads, TreeView};
use crate::laws::checksums::law_checksum_of;
use crate::laws::expressions::{law_descriptor_expression, law_expression_of_key_and_script};
use crate::miniscript::{Miniscript, MiniscriptKey};
use crate::util::decimal_text;
use std::sync::Arc;
use vstd::prelude::*;
use vstd::utf8::is_ascii_chars;

verus! {

/// What is read of a text is what the reader may return when it is called with that text. An error
/// text becomes an error.
pub proof fn law_readers<T, E, F: Fn(&str) -> Result<T, E>, G: Fn(&str) -> Result<T, String>>(
    reader: F,
    key_reader: G,
    text: Seq<char>,
    r: Result<T, E>,
    e: ErrorView,
)
    ensures
        reads(reader, text, r) <==> exists|s: &str|
            #[trigger] s@ == text && call_ensures(reader, (s,), r),
        reading_fails(key_reader, text, e) <==> exists|message: String|
            #![trigger message@]
            e == ErrorView::Unexpected(message@) && reads(
                key_reader,
                text,
                Err::<T, String>(message),
            ),
{
}

/// A name alone reads as a script, and an expression without a name and with two arguments as the
/// two subtrees that these read as, the first as the left one. Nothing else reads as a tree.
pub proof fn law_reads_tree<
    Pk: MiniscriptKey,
    Ext,
    F: Fn(&str) -> Result<Miniscript<Pk, Ext>, Error>,
>(
    reader: F,
    t: TreeView,
    ms: &Arc<Miniscript<Pk, Ext>>,
    l: &Arc<TapTree<Pk, Ext>>,
    r: &Arc<TapTree<Pk, Ext>>,
)
    ensures
        reads_tree(reader, t, TapTree::Leaf(*ms)) <==> t.name.len() > 0 && t.args.len() == 0
            && reads(reader, t.name, Ok::<Miniscript<Pk, Ext>, Error>(**ms)),
        reads_tree(reader, t, TapTree::Tree(*l, *r)) <==> t.name.len() == 0 && t.args.len() == 2
            && reads_tree(reader, t.args[0], **l) && reads_tree(reader, t.args[1], **r),
{
}

/// A tree cannot be read because its first script that cannot be read, from left to right, cannot,
/// or because something in it is neither a script nor a branch.
pub proof fn law_tree_fails<
    Pk: MiniscriptKey,
    Ext,
    F: Fn(&str) -> Result<Miniscript<Pk, Ext>, Error>,
>(reader: F, t: TreeView, e: ErrorView)
    ensures
        t.name.len() > 0 && t.args.len() == 0 ==> (tree_fails(reader, t, e) <==> exists|err: Error|
            #![trigger err@]
            err@ == e && reads(reader, t.name, Err::<Miniscript<Pk, Ext>, Error>(err))),
        t.name.len() == 0 && t.args.len() == 2 ==> (tree_fails(reader, t, e) <==> tree_fails(
            reader,
            t.args[0],
            e,
        ) || ((exists|tree: TapTree<Pk, Ext>| #[trigger] reads_tree(reader, t.args[0], tree))
            && tree_fails(reader, t.args[1], e))),
        !(t.name.len() > 0 && t.args.len() == 0) && !(t.name.len() == 0 && t.args.len() == 2) ==> (
        tree_fails(reader, t, e) <==> e == ErrorView::Unexpected(
            "unknown format for script spending paths while parsing taproot descriptor"@,
        )),
{
    if t.name.len() == 0 && t.args.len() == 2 {
        assert(reads_some_tree::<Pk, Ext, F>(reader, t.args[0]) <==> exists|tree: TapTree<Pk, Ext>|
            #[trigger] reads_tree(reader, t.args[0], tree));
    }
}

/// An `eltr` expression with a key and, perhaps, a tree not higher than 128 reads as a descriptor
/// with what these read as. No other expression does.
pub proof fn law_reads_descriptor<
    Pk: MiniscriptKey,
    Ext,
    K: Fn(&str) -> Result<Pk, String>,
    S: Fn(&str) -> Result<Miniscript<Pk, Ext>, Error>,
>(parse_key: K, parse_script: S, top: TreeView, key: Pk, tree: &TapTree<Pk, Ext>)
    ensures
        reads_tr(parse_key, parse_script, top, key, None::<TapTree<Pk, Ext>>) <==> {
            &&& top.name == seq!['e', 'l', 't', 'r']
            &&& top.args.len() == 1
            &&& top.args[0].args.len() == 0
            &&& reads(parse_key, top.args[0].name, Ok::<Pk, String>(key))
        },
        reads_tr(parse_key, parse_script, top, key, Some(*tree)) <==> {
            &&& top.name == seq!['e', 'l', 't', 'r']
            &&& top.args.len() == 2
            &&& top.args[0].args.len() == 0
            &&& reads(parse_key, top.args[0].name, Ok::<Pk, String>(key))
            &&& reads_tree(parse_script, top.args[1], *tree)
            &&& tree.height() <= 128
        },
{
    reveal_strlit("eltr");
    assert("eltr"@ =~= seq!['e', 'l', 't', 'r']);
}

/// Why an expression is no descriptor: for its form, for arguments behind the key, for the tree,
/// for the key, or for the height of the tree, in this order.
pub proof fn law_descriptor_fails<
    Pk: MiniscriptKey,
    Ext,
    K: Fn(&str) -> Result<Pk, String>,
    S: Fn(&str) -> Result<Miniscript<Pk, Ext>, Error>,
>(parse_key: K, parse_script: S, top: TreeView, e: ErrorView)
    ensures
        top.name != seq!['e', 'l', 't', 'r'] || top.args.len() == 0 || top.args.len() > 2 ==> (
        tr_fails::<Pk, Ext, K, S>(parse_key, parse_script, top, e) <==> e == ErrorView::Unexpected(
            top.name + "[#"@ + decimal_text(top.args.len())
                + " args] while parsing taproot descriptor"@,
        )),
        top.name == seq!['e', 'l', 't', 'r'] && 1 <= top.args.len() <= 2 && top.args[0].args.len()
            > 0 ==> (tr_fails::<Pk, Ext, K, S>(parse_key, parse_script, top, e) <==> e
            == ErrorView::Unexpected(
            "#"@ + decimal_text(top.args[0].args.len())
                + " script associated with `key-path` while parsing taproot descriptor"@,
        )),
        top.name == seq!['e', 'l', 't', 'r'] && top.args.len() == 1 && top.args[0].args.len() == 0
            ==> (tr_fails::<Pk, Ext, K, S>(parse_key, parse_script, top, e) <==> reading_fails(
            parse_key,
            top.args[0].name,
            e,
        )),
        top.name == seq!['e', 'l', 't', 'r'] && top.args.len() == 2 && top.args[0].args.len() == 0
            ==> (tr_fails::<Pk, Ext, K, S>(parse_key, parse_script, top, e) <==> {
            ||| tree_fails(parse_script, top.args[1], e)
            ||| (exists|tree: TapTree<Pk, Ext>| #[trigger]
                reads_tree(parse_script, top.args[1], tree)) && reading_fails(
                parse_key,
                top.args[0].name,
                e,
            )
            ||| (exists|tree: TapTree<Pk, Ext>|
                #[trigger] reads_tree(parse_script, top.args[1], tree) && tree.height() > 128) && (
            exists|key: Pk| #[trigger]
                reads(parse_key, top.args[0].name, Ok::<Pk, String>(key))) && e
                == ErrorView::MaxRecursiveDepthExceeded
        }),
{
    reveal_strlit("eltr");
    assert("eltr"@ =~= seq!['e', 'l', 't', 'r']);
    if top.args.len() == 2 {
        assert(reads_some_tree::<Pk, Ext, S>(parse_script, top.args[1]) <==> exists|
            tree: TapTree<Pk, Ext>,
        | #[trigger] reads_tree(parse_script, top.args[1], tree));
    }
}

/// A text is read by checking its checksum, by reading what is left as an expression, and by
/// reading the expression as a descriptor. What fails first decides the error.
pub proof fn law_reads_text<
    Pk: MiniscriptKey,
    Ext,
    K: Fn(&str) -> Result<Pk, String>,
    S: Fn(&str) -> Result<Miniscript<Pk, Ext>, Error>,
>(
    parse_key: K,
    parse_script: S,
    text: Seq<char>,
    key: Pk,
    tree: &Option<TapTree<Pk, Ext>>,
    e: ErrorView,
)
    ensures
        checked_descriptor(text) matches Err(err) ==> !reads_text(
            parse_key,
            parse_script,
            text,
            key,
            *tree,
        ) && (text_fails::<Pk, Ext, K, S>(parse_key, parse_script, text, e) <==> e == err),
        checked_descriptor(text) matches Ok(desc) ==> (parse_tr(desc) matches Err(err)
            ==> !reads_text(parse_key, parse_script, text, key, *tree) && (text_fails::<
            Pk,
            Ext,
            K,
            S,
        >(parse_key, parse_script, text, e) <==> e == err)),
        checked_descriptor(text) matches Ok(desc) ==> (parse_tr(desc) matches Ok(top) ==> (
        reads_text(parse_key, parse_script, text, key, *tree) <==> reads_tr(
            parse_key,
            parse_script,
            top,
            key,
            *tree,
        )) && (text_fails::<Pk, Ext, K, S>(parse_key, parse_script, text, e) <==> tr_fails::<
            Pk,
            Ext,
            K,
            S,
        >(parse_key, parse_script, top, e))),
{
}

/// A text of characters of the permitted kind, without a number sign, is plain and ASCII.
proof fn lemma_plain(text: Seq<char>)
    requires
        forall|i: int| 0 <= i < text.len() ==> input_charset().contains(#[trigger] text[i]),
        forall|i: int| 0 <= i < text.len() ==> #[trigger] text[i] != '#',
    ensures
        is_plain(text),
        is_ascii_chars(text),
{
    law_checksum_of(text, '#', Seq::empty());
    reveal_strlit(
        "0123456789()[],'/*abcdefgh@:$%{}IJKLMNOPQRSTUVWXYZ&+-.;<=>?!^_|~ijklmnopqrstuvwxyzABCDEFGH`#\"\\ ",
    );
}

/// `eltr` of a key is read exactly as what the reader of keys makes of the key, with or without
/// its checksum, and fails exactly as that fails.
pub proof fn law_reading_a_key<
    Pk: MiniscriptKey,
    Ext,
    K: Fn(&str) -> Result<Pk, String>,
    S: Fn(&str) -> Result<Miniscript<Pk, Ext>, Error>,
>(
    parse_key: K,
    parse_script: S,
    k: Seq<char>,
    checked: bool,
    key: Pk,
    tree: &Option<TapTree<Pk, Ext>>,
    e: ErrorView,
)
    requires
        forall|i: int| 0 <= i < k.len() ==> input_charset().contains(#[trigger] k[i]),
        !k.contains('#'),
        !k.contains(','),
    ensures
        ({
            let desc = seq!['e', 'l', 't', 'r', '('] + k + seq![')'];
            let text = if checked {
                desc + seq!['#'] + checksum_text(desc)
            } else {
                desc
            };
            &&& reads_text(parse_key, parse_script, text, key, *tree) <==> *tree is None && exists|
                s: &str,
            | #[trigger] s@ == k && call_ensures(parse_key, (s,), Ok::<Pk, String>(key))
            &&& text_fails::<Pk, Ext, K, S>(parse_key, parse_script, text, e) <==> exists|
                message: String,
                s: &str,
            | e == ErrorView::Unexpected(#[trigger] message@) && #[trigger] s@ == k && call_ensures(
                parse_key,
                (s,),
                Err::<Pk, String>(message),
            )
        }),
{
    let desc = seq!['e', 'l', 't', 'r', '('] + k + seq![')'];
    lemma_permitted(desc, k);
    lemma_plain(desc);
    lemma_plain_part(k);
    law_checksum(desc, checksum_text(desc));
    assert(with_checksum(desc, checksum_text(desc)) == desc + seq!['#'] + checksum_text(desc));
    law_descriptor_expression(k, Seq::empty());
    let top = parse_tr(desc)->Ok_0;
    law_descriptor_fails::<Pk, Ext, K, S>(parse_key, parse_script, top, e);
    reveal_strlit("eltr");
    assert("eltr"@ =~= seq!['e', 'l', 't', 'r']);
    assert(reading_fails(parse_key, k, e) <==> exists|message: String, s: &str|
        e == ErrorView::Unexpected(#[trigger] message@) && #[trigger] s@ == k && call_ensures(
            parse_key,
            (s,),
            Err::<Pk, String>(message),
        )) by {
        if reading_fails(parse_key, k, e) {
            let message = choose|message: String|
                #![trigger message@]
                e == ErrorView::Unexpected(message@) && reads(
                    parse_key,
                    k,
                    Err::<Pk, String>(message),
                );
            let s = choose|s: &str|
                #[trigger] s@ == k && call_ensures(parse_key, (s,), Err::<Pk, String>(message));
            assert(e == ErrorView::Unexpected(message@) && s@ == k);
        }
        if exists|message: String, s: &str|
            e == ErrorView::Unexpected(#[trigger] message@) && #[trigger] s@ == k && call_ensures(
                parse_key,
                (s,),
                Err::<Pk, String>(message),
            ) {
            let (message, s) = choose|message: String, s: &str|
                e == ErrorView::Unexpected(#[trigger] message@) && #[trigger] s@ == k
                    && call_ensures(parse_key, (s,), Err::<Pk, String>(message));
            assert(s@ == k);
            assert(reads(parse_key, k, Err::<Pk, String>(message)));
        }
    }
}

/// Permitted characters between the parentheses of a descriptor make a permitted text.
proof fn lemma_permitted(desc: Seq<char>, inner: Seq<char>)
    requires
        desc == seq!['e', 'l', 't', 'r', '('] + inner + seq![')'],
        forall|i: int| 0 <= i < inner.len() ==> input_charset().contains(#[trigger] inner[i]),
        !inner.contains('#'),
    ensures
        forall|i: int| 0 <= i < desc.len() ==> input_charset().contains(#[trigger] desc[i]),
        forall|i: int| 0 <= i < desc.len() ==> #[trigger] desc[i] != '#',
{
    let set = input_charset();
    reveal_strlit(
        "0123456789()[],'/*abcdefgh@:$%{}IJKLMNOPQRSTUVWXYZ&+-.;<=>?!^_|~ijklmnopqrstuvwxyzABCDEFGH`#\"\\ ",
    );
    assert(set[10] == '(' && set[11] == ')' && set[22] == 'e' && set[67] == 'l' && set[75] == 't'
        && set[73] == 'r');
    assert(set.contains('(') && set.contains(')') && set.contains('e') && set.contains('l')
        && set.contains('t') && set.contains('r'));
    assert forall|i: int| 0 <= i < desc.len() implies set.contains(#[trigger] desc[i]) && desc[i]
        != '#' by {
        if 5 <= i < desc.len() - 1 {
            assert(desc[i] == inner[i - 5]);
            assert(inner.contains(inner[i - 5]));
        }
    }
}

/// Permitted characters are ASCII.
proof fn lemma_plain_part(s: Seq<char>)
    requires
        forall|i: int| 0 <= i < s.len() ==> input_charset().contains(#[trigger] s[i]),
    ensures
        is_ascii_chars(s),
{
    reveal_strlit(
        "0123456789()[],'/*abcdefgh@:$%{}IJKLMNOPQRSTUVWXYZ&+-.;<=>?!^_|~ijklmnopqrstuvwxyzABCDEFGH`#\"\\ ",
    );
}

/// `eltr` of a key and a script, a text without braces whose commas all stand inside parentheses,
/// is read exactly as what the readers make of the two texts, with or without its checksum. The
/// tree is then the script alone. It fails as the reader of scripts fails or, where that succeeds,
/// as the reader of keys fails.
pub proof fn law_reading_a_key_and_a_script<
    Pk: MiniscriptKey,
    Ext,
    K: Fn(&str) -> Result<Pk, String>,
    S: Fn(&str) -> Result<Miniscript<Pk, Ext>, Error>,
>(
    parse_key: K,
    parse_script: S,
    k: Seq<char>,
    script: Seq<char>,
    checked: bool,
    key: Pk,
    tree: &Option<TapTree<Pk, Ext>>,
    e: ErrorView,
)
    requires
        forall|i: int| 0 <= i < k.len() ==> input_charset().contains(#[trigger] k[i]),
        forall|i: int| 0 <= i < script.len() ==> input_charset().contains(#[trigger] script[i]),
        !k.contains('#'),
        !script.contains('#'),
        !k.contains(','),
        script.len() > 0,
        forall|i: int|
            0 <= i < script.len() ==> #[trigger] script[i] != '{' && script[i] != '}' && (script[i]
                == ',' ==> paren_balance(script.take(i)) != 0),
    ensures
        ({
            let desc = seq!['e', 'l', 't', 'r', '('] + (k + seq![','] + script) + seq![')'];
            let text = if checked {
                desc + seq!['#'] + checksum_text(desc)
            } else {
                desc
            };
            &&& reads_text(parse_key, parse_script, text, key, *tree) <==> {
                &&& *tree matches Some(TapTree::Leaf(ms))
                &&& reads(parse_key, k, Ok::<Pk, String>(key))
                &&& reads(parse_script, script, Ok::<Miniscript<Pk, Ext>, Error>(*ms))
            }
            &&& text_fails::<Pk, Ext, K, S>(parse_key, parse_script, text, e) <==> {
                ||| exists|err: Error|
                    #![trigger err@]
                    err@ == e && reads(
                        parse_script,
                        script,
                        Err::<Miniscript<Pk, Ext>, Error>(err),
                    )
                ||| (exists|ms: Miniscript<Pk, Ext>| #[trigger]
                    reads(parse_script, script, Ok::<Miniscript<Pk, Ext>, Error>(ms)))
                    && reading_fails(parse_key, k, e)
            }
        }),
{
    let inner = k + seq![','] + script;
    let desc = seq!['e', 'l', 't', 'r', '('] + inner + seq![')'];
    let set = input_charset();
    assert(set.contains(',')) by {
        reveal_strlit(
            "0123456789()[],'/*abcdefgh@:$%{}IJKLMNOPQRSTUVWXYZ&+-.;<=>?!^_|~ijklmnopqrstuvwxyzABCDEFGH`#\"\\ ",
        );
        assert(set[14] == ',');
    }
    assert forall|i: int| 0 <= i < inner.len() implies set.contains(#[trigger] inner[i])
        && inner[i] != '#' by {
        if i < k.len() {
            assert(inner[i] == k[i]);
            assert(k.contains(k[i]));
        } else if i > k.len() {
            assert(inner[i] == script[i - k.len() - 1]);
            assert(script.contains(script[i - k.len() - 1]));
        }
    }
    lemma_permitted(desc, inner);
    lemma_plain(desc);
    lemma_plain_part(k);
    lemma_plain_part(script);
    law_checksum(desc, checksum_text(desc));
    assert(with_checksum(desc, checksum_text(desc)) == desc + seq!['#'] + checksum_text(desc));
    law_expression_of_key_and_script(k, script);
    let top = parse_tr(desc)->Ok_0;
    reveal_strlit("eltr");
    assert("eltr"@ =~= seq!['e', 'l', 't', 'r']);
    law_descriptor_fails::<Pk, Ext, K, S>(parse_key, parse_script, top, e);
    law_tree_fails::<Pk, Ext, S>(parse_script, top.args[1], e);
    assert forall|t: TapTree<Pk, Ext>| #[trigger]
        reads_tree(parse_script, top.args[1], t) implies t.height() == 0 && (t
        matches TapTree::Leaf(ms) && reads(
        parse_script,
        script,
        Ok::<Miniscript<Pk, Ext>, Error>(*ms),
    )) by {}
    assert((exists|t: TapTree<Pk, Ext>| #[trigger] reads_tree(parse_script, top.args[1], t))
        <==> exists|ms: Miniscript<Pk, Ext>| #[trigger]
        reads(parse_script, script, Ok::<Miniscript<Pk, Ext>, Error>(ms))) by {
        if exists|ms: Miniscript<Pk, Ext>| #[trigger]
            reads(parse_script, script, Ok::<Miniscript<Pk, Ext>, Error>(ms)) {
            let ms = choose|ms: Miniscript<Pk, Ext>| #[trigger]
                reads(parse_script, script, Ok::<Miniscript<Pk, Ext>, Error>(ms));
            assert(reads_tree(parse_script, top.args[1], TapTree::Leaf(Arc::new(ms))));
        }
    }
}

} // verus!
