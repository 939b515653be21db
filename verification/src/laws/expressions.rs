//! How texts are read as expressions.

use crate::descriptor::parse::{first_high_byte, parse_tr, split_at_first};
use crate::descriptor::round_trip::{lemma_parse_tree_text, scripts_are_names, tree_expr};
use crate::descriptor::tap_tree::TapTree;
use crate::error::ErrorView;
use crate::expression::{
    is_stop, lemma_stop_from, paren_balance, parse_args, parse_tree, trees_view, Tree, TreeView,
};
use crate::miniscript::{Miniscript, MiniscriptKey};
use std::sync::Arc;
use vstd::prelude::*;
use vstd::utf8::{encode_utf8, is_ascii_chars, is_ascii_chars_encode_utf8};

verus! {

/// The content of an expression is its name and the contents of its arguments, in order.
pub proof fn law_expression_view(t: Tree<'_>, trees: Seq<Tree<'_>>, i: int)
    ensures
        t@.name == t.name@,
        t@.args.len() == t.args@.len(),
        0 <= i < t.args@.len() ==> t@.args[i] == t.args@[i]@,
        trees_view(trees).len() == trees.len(),
        0 <= i < trees.len() ==> trees_view(trees)[i] == trees[i]@,
{
}

/// An opening parenthesis adds one to the balance, a closing one takes one away, and no other
/// character changes it.
pub proof fn law_paren_balance(s: Seq<char>, c: char)
    ensures
        paren_balance(Seq::<char>::empty()) == 0,
        paren_balance(s.push('(')) == paren_balance(s) + 1,
        paren_balance(s.push(')')) == paren_balance(s) - 1,
        c != '(' && c != ')' ==> paren_balance(s.push(c)) == paren_balance(s),
{
    assert(s.push('(').drop_last() =~= s);
    assert(s.push(')').drop_last() =~= s);
    assert(s.push(c).drop_last() =~= s);
}

/// A name goes up to the first brace or comma outside parentheses, and whatever else it holds is
/// part of it. Behind an opening brace stand arguments, up to 402 levels deep.
pub proof fn law_name(s: Seq<char>, depth: nat, n: int)
    requires
        0 <= n <= s.len(),
        forall|i: int|
            0 <= i < n ==> #[trigger] s[i] != '{' && s[i] != '}' && (s[i] == ',' ==> paren_balance(
                s.take(i),
            ) != 0),
        n < s.len() ==> s[n] == '{' || s[n] == '}' || (s[n] == ',' && paren_balance(s.take(n))
            == 0),
    ensures
        depth >= 402 ==> parse_tree(s, depth) == Err::<(TreeView, Seq<char>), ErrorView>(
            ErrorView::MaxRecursiveDepthExceeded,
        ),
        depth < 402 && n < s.len() && s[n] == '{' ==> match parse_args(s.skip(n + 1), depth + 1) {
            Ok((args, rest)) => parse_tree(s, depth) == Ok::<(TreeView, Seq<char>), ErrorView>(
                (TreeView { name: s.take(n), args }, rest),
            ),
            Err(e) => parse_tree(s, depth) == Err::<(TreeView, Seq<char>), ErrorView>(e),
        },
        depth < 402 && (n < s.len() ==> s[n] != '{') ==> parse_tree(s, depth) == Ok::<
            (TreeView, Seq<char>),
            ErrorView,
        >((TreeView { name: s.take(n), args: Seq::empty() }, s.skip(n))),
{
    assert forall|i: int| 0 <= i < n implies !#[trigger] is_stop(s, i) by {
        assert(s[i] != '{');
    }
    lemma_stop_from(s, 0, n);
}

/// Behind an argument comes a comma with more arguments, or a closing brace. Nothing else is
/// accepted.
pub proof fn law_arguments(s: Seq<char>, depth: nat, arg: TreeView, rest: Seq<char>)
    requires
        parse_tree(s, depth) == Ok::<(TreeView, Seq<char>), ErrorView>((arg, rest)),
        rest.len() <= s.len(),
    ensures
        rest.len() > 0 && rest[0] == ',' ==> match parse_args(rest.skip(1), depth) {
            Ok((more, behind)) => parse_args(s, depth) == Ok::<
                (Seq<TreeView>, Seq<char>),
                ErrorView,
            >((seq![arg] + more, behind)),
            Err(e) => parse_args(s, depth) == Err::<(Seq<TreeView>, Seq<char>), ErrorView>(e),
        },
        rest.len() > 0 && rest[0] == '}' ==> parse_args(s, depth) == Ok::<
            (Seq<TreeView>, Seq<char>),
            ErrorView,
        >((seq![arg], rest.skip(1))),
        rest.len() == 0 || (rest[0] != ',' && rest[0] != '}') ==> parse_args(s, depth) == Err::<
            (Seq<TreeView>, Seq<char>),
            ErrorView,
        >(ErrorView::ExpectedChar('}')),
{
}

/// Arguments fail as the first of them fails.
pub proof fn law_arguments_fail(s: Seq<char>, depth: nat, e: ErrorView)
    requires
        parse_tree(s, depth) == Err::<(TreeView, Seq<char>), ErrorView>(e),
    ensures
        parse_args(s, depth) == Err::<(Seq<TreeView>, Seq<char>), ErrorView>(e),
{
}

/// A text without braces, all of whose commas stand inside parentheses, reads as one name.
pub proof fn law_single_name(t: Seq<char>, depth: nat)
    requires
        depth < 402,
        forall|i: int|
            0 <= i < t.len() ==> #[trigger] t[i] != '{' && t[i] != '}' && (t[i] == ','
                ==> paren_balance(t.take(i)) != 0),
    ensures
        parse_tree(t, depth) == Ok::<(TreeView, Seq<char>), ErrorView>(
            (TreeView { name: t, args: Seq::empty() }, Seq::empty()),
        ),
{
    law_name(t, depth, t.len() as int);
    assert(t.take(t.len() as int) =~= t);
    assert(t.skip(t.len() as int) =~= Seq::empty());
}

/// The expression of a tree has the texts of its scripts as names, and for each branch an
/// expression without a name and with the subtrees as its two arguments.
pub proof fn law_tree_expression<Pk: MiniscriptKey, Ext>(
    ms: &Arc<Miniscript<Pk, Ext>>,
    l: &Arc<TapTree<Pk, Ext>>,
    r: &Arc<TapTree<Pk, Ext>>,
)
    ensures
        tree_expr(TapTree::Leaf(*ms)) == (TreeView { name: ms.text@, args: Seq::empty() }),
        tree_expr(TapTree::Tree(*l, *r)) == (TreeView {
            name: Seq::empty(),
            args: seq![tree_expr(**l), tree_expr(**r)],
        }),
{
}

/// Scripts whose texts are told by characters alone to be names are names.
proof fn lemma_names<Pk: MiniscriptKey, Ext>(tree: &TapTree<Pk, Ext>, comma_follows: bool)
    requires
        forall|i: int|
            #![trigger tree.scripts()[i]]
            0 <= i < tree.scripts().len() ==> {
                let t = tree.scripts()[i].text@;
                &&& t.len() > 0
                &&& paren_balance(t) == 0
                &&& forall|j: int|
                    0 <= j < t.len() ==> #[trigger] t[j] != '{' && t[j] != '}' && (t[j] == ','
                        ==> paren_balance(t.take(j)) != 0)
            },
    ensures
        scripts_are_names(*tree, comma_follows),
    decreases tree,
{
    match tree {
        TapTree::Leaf(ms) => {
            let t = ms.text@;
            assert(tree.scripts()[0].text@ == t);
        },
        TapTree::Tree(l, r) => {
            let n = l.scripts().len() as int;
            assert forall|i: int|
                #![trigger l.scripts()[i]]
                0 <= i < n implies l.scripts()[i] == tree.scripts()[i] by {}
            assert forall|i: int|
                #![trigger r.scripts()[i]]
                0 <= i < r.scripts().len() implies r.scripts()[i] == tree.scripts()[n + i] by {}
            lemma_names(&**l, true);
            lemma_names(&**r, false);
        },
    }
}

/// The text of a tree whose scripts have no braces and have commas inside parentheses only reads as
/// the expression of the tree, whatever other characters the scripts hold, and what is behind the
/// text stays.
pub proof fn law_tree_text_reads<Pk: MiniscriptKey, Ext>(
    tree: &TapTree<Pk, Ext>,
    rest: Seq<char>,
    depth: nat,
)
    requires
        depth + tree.height() < 402,
        rest.len() > 0 ==> rest[0] == '}' || rest[0] == ',',
        forall|i: int|
            #![trigger tree.scripts()[i]]
            0 <= i < tree.scripts().len() ==> {
                let t = tree.scripts()[i].text@;
                &&& t.len() > 0
                &&& paren_balance(t) == 0
                &&& forall|j: int|
                    0 <= j < t.len() ==> #[trigger] t[j] != '{' && t[j] != '}' && (t[j] == ','
                        ==> paren_balance(t.take(j)) != 0)
            },
    ensures
        parse_tree(tree.text() + rest, depth) == Ok::<(TreeView, Seq<char>), ErrorView>(
            (tree_expr(*tree), rest),
        ),
{
    lemma_names(tree, rest.len() > 0 && rest[0] == ',');
    lemma_parse_tree_text(tree, rest, depth);
}

/// A text is split at the first of its separators, unless there is none or nothing behind it.
pub proof fn law_split(a: Seq<char>, delim: char, b: Seq<char>)
    requires
        !a.contains(delim),
    ensures
        split_at_first(a, delim) == (a, Seq::<char>::empty()),
        b.len() > 0 ==> split_at_first(a + seq![delim] + b, delim) == (a, b),
        split_at_first(a + seq![delim], delim) == (a + seq![delim], Seq::<char>::empty()),
{
    a.index_of_first_ensures(delim);
    let s = a + seq![delim] + b;
    let u = a + seq![delim];
    let n = a.len() as int;
    s.index_of_first_ensures(delim);
    u.index_of_first_ensures(delim);
    assert(s[n] == delim && u[n] == delim);
    assert(s.contains(delim) && u.contains(delim));
    assert forall|i: int| 0 <= i < n implies s[i] != delim && u[i] != delim by {
        assert(a.contains(a[i]));
    }
    assert(s.take(n) =~= a);
    assert(s.skip(n + 1) =~= b);
}

/// The text between the parentheses of a descriptor.
proof fn lemma_inner(inner: Seq<char>) -> (text: Seq<char>)
    ensures
        text == seq!['e', 'l', 't', 'r', '('] + inner + seq![')'],
        text.len() > 5,
        text.take(5) == "eltr("@,
        text.last() == ')',
        text.subrange(5, text.len() - 1) == inner,
        "eltr"@ == seq!['e', 'l', 't', 'r'],
{
    let text = seq!['e', 'l', 't', 'r', '('] + inner + seq![')'];
    reveal_strlit("eltr(");
    reveal_strlit("eltr");
    assert(text.take(5) =~= "eltr("@);
    assert(text.subrange(5, text.len() - 1) =~= inner);
    assert("eltr"@ =~= seq!['e', 'l', 't', 'r']);
    text
}

/// An `eltr` expression has the text up to the first comma as its first argument. What is behind
/// the comma is read as an expression of its own, the second argument, and nothing may be left
/// over. Without a comma, or with nothing behind it, there is one argument.
pub proof fn law_descriptor_expression(key: Seq<char>, tree: Seq<char>)
    requires
        !key.contains(','),
        is_ascii_chars(key),
        is_ascii_chars(tree),
    ensures
        parse_tr(seq!['e', 'l', 't', 'r', '('] + key + seq![')']) == Ok::<TreeView, ErrorView>(
            TreeView {
                name: seq!['e', 'l', 't', 'r'],
                args: seq![TreeView { name: key, args: Seq::empty() }],
            },
        ),
        parse_tr(seq!['e', 'l', 't', 'r', '('] + (key + seq![',']) + seq![')']) == Ok::<
            TreeView,
            ErrorView,
        >(
            TreeView {
                name: seq!['e', 'l', 't', 'r'],
                args: seq![TreeView { name: key + seq![','], args: Seq::empty() }],
            },
        ),
        tree.len() > 0 ==> {
            let r = parse_tr(seq!['e', 'l', 't', 'r', '('] + (key + seq![','] + tree) + seq![')']);
            match parse_tree(tree, 1) {
                Ok((t, rest)) => if rest.len() == 0 {
                    r == Ok::<TreeView, ErrorView>(
                        TreeView {
                            name: seq!['e', 'l', 't', 'r'],
                            args: seq![TreeView { name: key, args: Seq::empty() }, t],
                        },
                    )
                } else {
                    r == Err::<TreeView, ErrorView>(ErrorView::Unexpected(rest))
                },
                Err(e) => r == Err::<TreeView, ErrorView>(e),
            }
        },
{
    law_split(key, ',', tree);
    let a = lemma_inner(key);
    let b = lemma_inner(key + seq![',']);
    let c = lemma_inner(key + seq![','] + tree);
    assert(is_ascii_chars(a) && is_ascii_chars(b) && is_ascii_chars(c));
}

/// `eltr` of a key and of a text without braces whose commas all stand inside parentheses is an
/// expression with the key and the text as its two arguments.
pub proof fn law_expression_of_key_and_script(key: Seq<char>, script: Seq<char>)
    requires
        !key.contains(','),
        is_ascii_chars(key),
        is_ascii_chars(script),
        script.len() > 0,
        forall|i: int|
            0 <= i < script.len() ==> #[trigger] script[i] != '{' && script[i] != '}' && (script[i]
                == ',' ==> paren_balance(script.take(i)) != 0),
    ensures
        parse_tr(seq!['e', 'l', 't', 'r', '('] + (key + seq![','] + script) + seq![')']) == Ok::<
            TreeView,
            ErrorView,
        >(
            TreeView {
                name: seq!['e', 'l', 't', 'r'],
                args: seq![
                    TreeView { name: key, args: Seq::empty() },
                    TreeView { name: script, args: Seq::empty() },
                ],
            },
        ),
{
    law_single_name(script, 1);
    law_descriptor_expression(key, script);
}

/// A text that is not `eltr` with something in parentheses is no descriptor, and the first byte
/// outside ASCII is refused.
pub proof fn law_no_descriptor(s: Seq<char>, p: Seq<u8>, b: u8, rest: Seq<u8>)
    ensures
        is_ascii_chars(s) && (s.len() < 6 || s.take(5) != seq!['e', 'l', 't', 'r', '('] || s.last()
            != ')') ==> parse_tr(s) == Err::<TreeView, ErrorView>(
            ErrorView::Unexpected("invalid taproot descriptor"@),
        ),
        encode_utf8(s) == p + seq![b] + rest && (forall|i: int|
            0 <= i < p.len() ==> #[trigger] p[i] < 128) && b >= 128 ==> parse_tr(s) == Err::<
            TreeView,
            ErrorView,
        >(ErrorView::Unprintable(b)),
{
    reveal_strlit("eltr(");
    assert("eltr("@ =~= seq!['e', 'l', 't', 'r', '(']);
    if encode_utf8(s) == p + seq![b] + rest && (forall|i: int|
        0 <= i < p.len() ==> #[trigger] p[i] < 128) && b >= 128 {
        lemma_first_high_byte(p, b, rest);
        let n = p.len() as int;
        if is_ascii_chars(s) {
            is_ascii_chars_encode_utf8(s);
            assert(encode_utf8(s)[n] == b);
            assert(s[n] as u8 == b);
        }
    }
}

/// The first byte outside ASCII is found.
proof fn lemma_first_high_byte(p: Seq<u8>, b: u8, rest: Seq<u8>)
    requires
        forall|i: int| 0 <= i < p.len() ==> #[trigger] p[i] < 128,
        b >= 128,
    ensures
        first_high_byte(p + seq![b] + rest) == b,
    decreases p.len(),
{
    let s = p + seq![b] + rest;
    if p.len() > 0 {
        let q = p.skip(1);
        assert(p[0] < 128);
        assert forall|i: int| 0 <= i < q.len() implies #[trigger] q[i] < 128 by {
            assert(q[i] == p[i + 1]);
        }
        lemma_first_high_byte(q, b, rest);
        assert(s.skip(1) =~= q + seq![b] + rest);
    } else {
        assert(s[0] == b);
    }
}

} // verus!
