//! What is written can be read again.

use crate::descriptor::checksum::{
    absorb, absorb_zeros, char_values, checked_descriptor, checksum_charset, checksum_text,
    first_invalid_char, first_unprintable, input_charset,
};
use crate::descriptor::compare::{opt_tree_eq, script_eq, tree_eq};
use crate::descriptor::display::{tr_text, with_checksum};
use crate::descriptor::parse::{parse_tr, split_at_first, tr_expression};
use crate::descriptor::read::{
    reads_text, reads_tr, reads_tree, script_fails, text_fails, tr_fails,
    tree_fails,
};
use crate::descriptor::tap_tree::TapTree;
use crate::descriptor::tr::permitted_tree;
use crate::error::{Error, ErrorView};
use crate::expression::{
    bare, is_stop, lemma_parse_tree_rest, lemma_stop_from, name_end, paren_balance, parse_args,
    parse_tree, reads, TreeView, MAX_RECURSION_DEPTH,
};
use crate::miniscript::{Miniscript, MiniscriptKey};
use vstd::prelude::*;
use vstd::utf8::{encode_utf8, is_ascii_chars, is_ascii_chars_encode_utf8};

verus! {

/// The expression that the text of a tree stands for.
pub open spec fn tree_expr<Pk: MiniscriptKey, Ext>(tree: TapTree<Pk, Ext>) -> TreeView
    decreases tree,
{
    match tree {
        TapTree::Tree(l, r) => TreeView {
            name: Seq::empty(),
            args: seq![tree_expr(*l), tree_expr(*r)],
        },
        TapTree::Leaf(ms) => bare(ms.text@),
    }
}

/// Whether every script of a tree is written as a text that reads as one name: not empty, without
/// braces and without commas outside parentheses. Where a comma follows, the parentheses have to
/// be balanced too.
pub open spec fn scripts_are_names<Pk: MiniscriptKey, Ext>(
    tree: TapTree<Pk, Ext>,
    comma_follows: bool,
) -> bool
    decreases tree,
{
    match tree {
        TapTree::Tree(l, r) => scripts_are_names(*l, true) && scripts_are_names(*r, false),
        TapTree::Leaf(ms) => {
            &&& ms.text@.len() > 0
            &&& forall|i: int|
                0 <= i < ms.text@.len() ==> #[trigger] ms.text@[i] != '{' && ms.text@[i] != '}' && (
                ms.text@[i] == ',' ==> paren_balance(ms.text@.take(i)) != 0)
            &&& comma_follows ==> paren_balance(ms.text@) == 0
        },
    }
}

/// Whether the text of a key is told apart from what follows it.
pub open spec fn key_is_separate(key: Seq<char>, tree_follows: bool) -> bool {
    if tree_follows {
        !key.contains(',')
    } else {
        split_at_first(key, ',').1.len() == 0
    }
}

/// Whether a text consists of characters that can stand in a descriptor, and none of them begins
/// a checksum.
pub open spec fn is_plain(text: Seq<char>) -> bool {
    first_invalid_char(text) is None && !text.contains('#')
}

/// A name that something ends.
proof fn lemma_parse_name(name: Seq<char>, rest: Seq<char>, depth: nat)
    requires
        depth < MAX_RECURSION_DEPTH,
        forall|i: int|
            0 <= i < name.len() ==> #[trigger] name[i] != '{' && name[i] != '}' && (name[i] == ','
                ==> paren_balance(name.take(i)) != 0),
        rest.len() > 0 ==> rest[0] == '}' || (rest[0] == ',' && paren_balance(name) == 0),
    ensures
        parse_tree(name + rest, depth) == Ok::<(TreeView, Seq<char>), ErrorView>(
            (bare(name), rest),
        ),
{
    let s = name + rest;
    let n = name.len() as int;
    assert(s.take(n) =~= name);
    assert(s.skip(n) =~= rest);
    assert forall|i: int| 0 <= i < n implies !#[trigger] is_stop(s, i) by {
        assert(s.take(i) =~= name.take(i));
        assert(s[i] == name[i]);
    }
    lemma_stop_from(s, 0, n);
    assert(name_end(s) == n);
}

/// The text of a tree reads as the expression of the tree.
pub proof fn lemma_parse_tree_text<Pk: MiniscriptKey, Ext>(
    tree: &TapTree<Pk, Ext>,
    rest: Seq<char>,
    depth: nat,
)
    requires
        depth + tree.height() < MAX_RECURSION_DEPTH,
        scripts_are_names(*tree, rest.len() > 0 && rest[0] == ','),
        rest.len() > 0 ==> rest[0] == '}' || rest[0] == ',',
    ensures
        parse_tree(tree.text() + rest, depth) == Ok::<(TreeView, Seq<char>), ErrorView>(
            (tree_expr(*tree), rest),
        ),
    decreases tree,
{
    match tree {
        TapTree::Leaf(ms) => {
            lemma_parse_name(ms.text@, rest, depth);
        },
        TapTree::Tree(l, r) => {
            let s = tree.text() + rest;
            let behind_right = seq!['}'] + rest;
            let right = r.text() + behind_right;
            let behind_left = seq![','] + right;
            let left = l.text() + behind_left;
            lemma_parse_tree_text(&**l, behind_left, depth + 1);
            lemma_parse_tree_text(&**r, behind_right, depth + 1);
            assert(s[0] == '{');
            assert(is_stop(s, 0));
            lemma_stop_from(s, 0, 0);
            assert(s.take(0) =~= Seq::empty());
            assert(s.skip(1) =~= left);
            assert(behind_left.skip(1) =~= right);
            assert(behind_right.skip(1) =~= rest);
            assert(parse_args(right, depth + 1) == Ok::<(Seq<TreeView>, Seq<char>), ErrorView>(
                (seq![tree_expr(**r)], rest),
            ));
            assert(seq![tree_expr(**l)] + seq![tree_expr(**r)] =~= seq![
                tree_expr(**l),
                tree_expr(**r),
            ]);
            assert(parse_args(left, depth + 1) == Ok::<(Seq<TreeView>, Seq<char>), ErrorView>(
                (seq![tree_expr(**l), tree_expr(**r)], rest),
            ));
        },
    }
}

/// A tree is never written as nothing.
proof fn lemma_text_not_empty<Pk: MiniscriptKey, Ext>(
    tree: &TapTree<Pk, Ext>,
    comma_follows: bool,
)
    requires
        scripts_are_names(*tree, comma_follows),
    ensures
        tree.text().len() > 0,
{
    match tree {
        TapTree::Leaf(_) => {},
        TapTree::Tree(l, r) => {},
    }
}

/// A character that can stand in a descriptor is printable ASCII.
proof fn lemma_charset_printable(c: char)
    requires
        input_charset().contains(c),
    ensures
        ' ' <= c <= '~',
{
    reveal_strlit(
        "0123456789()[],'/*abcdefgh@:$%{}IJKLMNOPQRSTUVWXYZ&+-.;<=>?!^_|~ijklmnopqrstuvwxyzABCDEFGH`#\"\\ ",
    );
}

/// A character of a checksum is printable ASCII.
proof fn lemma_checksum_printable(i: int)
    requires
        0 <= i < 32,
    ensures
        ' ' <= checksum_charset()[i] <= '~',
{
    reveal_strlit("qpzry9x8gf2tvdw0s3jn54khce6mua7l");
}

/// Every character of a text without an invalid one is valid.
proof fn lemma_valid_chars(s: Seq<char>, i: int)
    requires
        first_invalid_char(s) is None,
        0 <= i < s.len(),
    ensures
        input_charset().contains(s[i]),
    decreases s.len(),
{
    if i > 0 {
        lemma_valid_chars(s.skip(1), i - 1);
    }
}

/// No byte of printable ASCII is refused.
proof fn lemma_all_printable(bytes: Seq<u8>)
    requires
        forall|i: int| 0 <= i < bytes.len() ==> 20 <= #[trigger] bytes[i] <= 127,
    ensures
        first_unprintable(bytes) is None,
    decreases bytes.len(),
{
    if bytes.len() > 0 {
        assert(20 <= bytes[0] <= 127);
        lemma_all_printable(bytes.skip(1));
    }
}

/// A text of printable ASCII characters has no byte that is refused.
proof fn lemma_printable_text(s: Seq<char>)
    requires
        forall|i: int| 0 <= i < s.len() ==> ' ' <= #[trigger] s[i] <= '~',
    ensures
        is_ascii_chars(s),
        first_unprintable(encode_utf8(s)) is None,
{
    is_ascii_chars_encode_utf8(s);
    let bytes = encode_utf8(s);
    assert forall|i: int| 0 <= i < bytes.len() implies 20 <= #[trigger] bytes[i] <= 127 by {
        assert(bytes[i] == s[i] as u8);
        assert(' ' <= s[i] <= '~');
    }
    lemma_all_printable(bytes);
}

/// The characters of a checksum are printable ASCII.
proof fn lemma_checksum_text_printable(s: Seq<char>, j: int)
    requires
        0 <= j < 8,
    ensures
        ' ' <= checksum_text(s)[j] <= '~',
{
    let c = absorb_zeros(absorb(1, char_values(s)), 8) ^ 1;
    let shift = (5 * (7 - j)) as u64;
    let v = (c >> shift) & 31;
    assert(v < 32) by (bit_vector)
        requires
            v == (c >> shift) & 31,
    ;
    lemma_checksum_printable(v as int);
}

/// A plain text is printable ASCII.
proof fn lemma_plain_text(text: Seq<char>)
    requires
        is_plain(text),
    ensures
        forall|i: int| 0 <= i < text.len() ==> ' ' <= #[trigger] text[i] <= '~',
        is_ascii_chars(text),
        first_unprintable(encode_utf8(text)) is None,
{
    assert forall|i: int| 0 <= i < text.len() implies ' ' <= #[trigger] text[i] <= '~' by {
        lemma_valid_chars(text, i);
        lemma_charset_printable(text[i]);
    }
    lemma_printable_text(text);
}

/// A descriptor is accepted without a checksum, and with its own checksum, and with no other.
pub proof fn law_checksum(text: Seq<char>, sum: Seq<char>)
    requires
        is_plain(text),
    ensures
        checked_descriptor(text) == Ok::<Seq<char>, ErrorView>(text),
        sum == checksum_text(text) ==> checked_descriptor(with_checksum(text, sum)) == Ok::<
            Seq<char>,
            ErrorView,
        >(text),
        sum != checksum_text(text) ==> checked_descriptor(with_checksum(text, sum)) is Err,
{
    lemma_plain_text(text);
    text.index_of_first_ensures('#');
    let full = with_checksum(text, sum);
    full.index_of_first_ensures('#');
    let n = text.len() as int;
    assert(full[n] == '#');
    assert(full.contains('#'));
    assert forall|i: int| 0 <= i < n implies full[i] != '#' by {
        assert(full[i] == text[i]);
        assert(text.contains(text[i]));
    }
    assert(full.index_of_first('#') == Some(n));
    assert(full.take(n) =~= text);
    assert(full.skip(n + 1) =~= sum);
    if sum == checksum_text(text) {
        assert forall|i: int| 0 <= i < full.len() implies ' ' <= #[trigger] full[i] <= '~' by {
            if i < n {
                assert(' ' <= text[i] <= '~');
            } else if i > n {
                lemma_checksum_text_printable(text, i - n - 1);
            }
        }
        lemma_printable_text(full);
    }
}

/// The expression that the text of a descriptor stands for.
pub open spec fn descriptor_expr<Pk: MiniscriptKey, Ext>(
    key: Pk,
    tree: Option<TapTree<Pk, Ext>>,
) -> TreeView {
    match tree {
        Some(t) => tr_expression(seq![bare(key.text()), tree_expr(t)]),
        None => tr_expression(seq![bare(key.text())]),
    }
}

/// Whether the parts of a descriptor are told apart in its text.
pub open spec fn parts_are_separate<Pk: MiniscriptKey, Ext>(
    key: Pk,
    tree: Option<TapTree<Pk, Ext>>,
) -> bool {
    &&& key_is_separate(key.text(), tree is Some)
    &&& tree matches Some(t) ==> scripts_are_names(t, false)
}

/// The text of a descriptor reads as an expression with the key and the tree.
pub proof fn law_parse_text<Pk: MiniscriptKey, Ext>(key: Pk, tree: &Option<TapTree<Pk, Ext>>)
    requires
        permitted_tree(*tree),
        is_ascii_chars(tr_text(key, *tree)),
        parts_are_separate(key, *tree),
    ensures
        parse_tr(tr_text(key, *tree)) == Ok::<TreeView, ErrorView>(descriptor_expr(key, *tree)),
{
    let text = tr_text(key, *tree);
    reveal_strlit("eltr(");
    assert(text.take(5) =~= "eltr("@);
    let inner = text.subrange(5, text.len() - 1);
    let k = key.text();
    k.index_of_first_ensures(',');
    inner.index_of_first_ensures(',');
    match tree {
        None => {
            assert(inner =~= k);
        },
        Some(t) => {
            let n = k.len() as int;
            lemma_text_not_empty(t, false);
            assert(inner =~= k + seq![','] + t.text());
            assert(inner[n] == ',');
            assert(inner.contains(','));
            assert forall|i: int| 0 <= i < n implies inner[i] != ',' by {
                assert(inner[i] == k[i]);
                assert(k.contains(k[i]));
            }
            assert(inner.take(n) =~= k);
            assert(inner.skip(n + 1) =~= t.text());
            lemma_parse_tree_text(t, Seq::empty(), 1);
            assert(t.text() + Seq::empty() =~= t.text());
        },
    }
}

/// Whether a reader of scripts makes of the text of each script of a tree a script that is, in
/// some sense, the same, and nothing else.
pub open spec fn scripts_read_back<
    Pk: MiniscriptKey,
    Ext,
    F: Fn(&str) -> Result<Miniscript<Pk, Ext>, Error>,
>(
    reader: F,
    tree: TapTree<Pk, Ext>,
    same: spec_fn(Miniscript<Pk, Ext>, Miniscript<Pk, Ext>) -> bool,
) -> bool
    decreases tree,
{
    match tree {
        TapTree::Tree(l, r) => scripts_read_back(reader, *l, same) && scripts_read_back(
            reader,
            *r,
            same,
        ),
        TapTree::Leaf(ms) => forall|r: Result<Miniscript<Pk, Ext>, Error>| #[trigger]
            reads(reader, ms.text@, r) ==> (r matches Ok(x) && same(*ms, x)),
    }
}

/// Whether two trees have the same shape, with scripts that are, in some sense, the same.
pub open spec fn trees_match<Pk: MiniscriptKey, Ext>(
    a: TapTree<Pk, Ext>,
    b: TapTree<Pk, Ext>,
    same: spec_fn(Miniscript<Pk, Ext>, Miniscript<Pk, Ext>) -> bool,
) -> bool
    decreases a,
{
    match (a, b) {
        (TapTree::Tree(l1, r1), TapTree::Tree(l2, r2)) => trees_match(*l1, *l2, same)
            && trees_match(*r1, *r2, same),
        (TapTree::Leaf(x), TapTree::Leaf(y)) => same(*x, *y),
        _ => false,
    }
}

/// The expression of a tree reads as the tree.
proof fn lemma_tree_reads_back<
    Pk: MiniscriptKey,
    Ext,
    F: Fn(&str) -> Result<Miniscript<Pk, Ext>, Error>,
>(
    reader: F,
    tree: &TapTree<Pk, Ext>,
    comma_follows: bool,
    same: spec_fn(Miniscript<Pk, Ext>, Miniscript<Pk, Ext>) -> bool,
    other: &TapTree<Pk, Ext>,
    e: ErrorView,
)
    requires
        scripts_are_names(*tree, comma_follows),
        scripts_read_back(reader, *tree, same),
    ensures
        reads_tree(reader, tree_expr(*tree), *other) ==> trees_match(*tree, *other, same)
            && other.height() == tree.height(),
        !tree_fails(reader, tree_expr(*tree), e),
    decreases tree,
{
    match tree {
        TapTree::Leaf(ms) => {
            if script_fails(reader, ms.text@, e) {
                let err = choose|err: Error|
                    #![trigger err@]
                    err@ == e && reads(reader, ms.text@, Err::<Miniscript<Pk, Ext>, Error>(err));
                assert(false);
            }
        },
        TapTree::Tree(l, r) => {
            let (x, y) = match other {
                TapTree::Tree(x, y) => (&**x, &**y),
                TapTree::Leaf(_) => (other, other),
            };
            lemma_tree_reads_back(reader, &**l, true, same, x, e);
            lemma_tree_reads_back(reader, &**r, false, same, y, e);
        },
    }
}

/// What is written of a descriptor, with or without its checksum, cannot be refused, and reads as
/// the same internal key and a tree of the same shape with the same scripts, in whatever sense the
/// key and the scripts are themselves the same when they are read back from their texts.
pub proof fn law_round_trip<
    Pk: MiniscriptKey,
    Ext,
    K: Fn(&str) -> Result<Pk, String>,
    S: Fn(&str) -> Result<Miniscript<Pk, Ext>, Error>,
>(
    parse_key: K,
    parse_script: S,
    key: Pk,
    tree: &Option<TapTree<Pk, Ext>>,
    same_key: spec_fn(Pk) -> bool,
    same: spec_fn(Miniscript<Pk, Ext>, Miniscript<Pk, Ext>) -> bool,
    read_key: Pk,
    read_tree: &Option<TapTree<Pk, Ext>>,
    e: ErrorView,
)
    requires
        permitted_tree(*tree),
        is_plain(tr_text(key, *tree)),
        parts_are_separate(key, *tree),
        forall|r: Result<Pk, String>| #[trigger]
            reads(parse_key, key.text(), r) ==> (r matches Ok(k) && same_key(k)),
        tree matches Some(t) ==> scripts_read_back(parse_script, *t, same),
    ensures
        ({
            let text = tr_text(key, *tree);
            let checked = with_checksum(text, checksum_text(text));
            &&& !text_fails(parse_key, parse_script, text, e)
            &&& !text_fails(parse_key, parse_script, checked, e)
            &&& reads_text(parse_key, parse_script, text, read_key, *read_tree) || reads_text(
                parse_key,
                parse_script,
                checked,
                read_key,
                *read_tree,
            ) ==> same_key(read_key) && match (*tree, *read_tree) {
                (Some(a), Some(b)) => trees_match(a, b, same),
                (None, None) => true,
                _ => false,
            }
        }),
{
    let text = tr_text(key, *tree);
    lemma_plain_text(text);
    law_parse_text(key, tree);
    law_checksum(text, checksum_text(text));
    let top = descriptor_expr(key, *tree);
    assert(text_fails(parse_key, parse_script, text, e) == tr_fails(
        parse_key,
        parse_script,
        top,
        e,
    ));
    if let Some(t) = tree {
        let other = match read_tree {
            Some(other) => other,
            None => t,
        };
        lemma_tree_reads_back(parse_script, t, false, same, other, e);
        assert forall|u: TapTree<Pk, Ext>| #[trigger]
            reads_tree(parse_script, tree_expr(*t), u) implies u.height() == t.height() by {
            lemma_tree_reads_back(parse_script, t, false, same, &u, e);
        }
    }
    if reads_tr(parse_key, parse_script, top, read_key, *read_tree) {
        assert(reads(parse_key, key.text(), Ok::<Pk, String>(read_key)));
    }
}

/// Trees with equal scripts are equal and written alike.
proof fn lemma_equal_trees<Pk: MiniscriptKey, Ext>(a: &TapTree<Pk, Ext>, b: &TapTree<Pk, Ext>)
    requires
        trees_match(
            *a,
            *b,
            |x: Miniscript<Pk, Ext>, y: Miniscript<Pk, Ext>| script_eq(x, y),
        ),
    ensures
        a.text() == b.text(),
        tree_eq(a, b),
    decreases a,
{
    if let (TapTree::Tree(l1, r1), TapTree::Tree(l2, r2)) = (a, b) {
        lemma_equal_trees(&**l1, &**l2);
        lemma_equal_trees(&**r1, &**r2);
    }
}

/// What is written of a descriptor reads as an equal descriptor that is written the same, provided
/// that what is read of a key or of a script is equal to it and written the same.
pub proof fn law_round_trip_equal<
    Pk: MiniscriptKey,
    Ext,
    K: Fn(&str) -> Result<Pk, String>,
    S: Fn(&str) -> Result<Miniscript<Pk, Ext>, Error>,
>(
    parse_key: K,
    parse_script: S,
    key: Pk,
    tree: &Option<TapTree<Pk, Ext>>,
    read_key: Pk,
    read_tree: &Option<TapTree<Pk, Ext>>,
)
    requires
        permitted_tree(*tree),
        is_plain(tr_text(key, *tree)),
        parts_are_separate(key, *tree),
        forall|r: Result<Pk, String>| #[trigger]
            reads(parse_key, key.text(), r) ==> (r matches Ok(k) && k.same(&key) && k.text()
                == key.text()),
        tree matches Some(t) ==> scripts_read_back(
            parse_script,
            *t,
            |x: Miniscript<Pk, Ext>, y: Miniscript<Pk, Ext>| script_eq(x, y),
        ),
        reads_text(
            parse_key,
            parse_script,
            with_checksum(tr_text(key, *tree), checksum_text(tr_text(key, *tree))),
            read_key,
            *read_tree,
        ),
    ensures
        tr_text(read_key, *read_tree) == tr_text(key, *tree),
        read_key.same(&key),
        opt_tree_eq(*tree, *read_tree),
{
    law_round_trip(
        parse_key,
        parse_script,
        key,
        tree,
        |k: Pk| k.same(&key) && k.text() == key.text(),
        |x: Miniscript<Pk, Ext>, y: Miniscript<Pk, Ext>| script_eq(x, y),
        read_key,
        read_tree,
        ErrorView::CouldNotSatisfy,
    );
    if let (Some(a), Some(b)) = (tree, read_tree) {
        lemma_equal_trees(a, b);
    }
}

/// The text of an expression.
pub open spec fn expr_text(t: TreeView) -> Seq<char>
    decreases t,
{
    if t.args.len() == 0 {
        t.name
    } else {
        t.name + seq!['{'] + args_text(t.args) + seq!['}']
    }
}

/// The text of arguments with commas between them.
pub open spec fn args_text(args: Seq<TreeView>) -> Seq<char>
    decreases args,
{
    if args.len() == 0 {
        Seq::empty()
    } else if args.len() == 1 {
        expr_text(args[0])
    } else {
        expr_text(args[0]) + seq![','] + args_text(args.skip(1))
    }
}

/// What is read as an expression is the text of the expression.
pub proof fn lemma_parsed_text(s: Seq<char>, depth: nat)
    ensures
        parse_tree(s, depth) matches Ok((t, rest)) ==> s == expr_text(t) + rest,
    decreases s.len(), 0nat,
{
    lemma_parse_tree_rest(s, depth);
    let n = name_end(s);
    if depth < MAX_RECURSION_DEPTH {
        if n < s.len() && s[n] == '{' {
            lemma_parsed_args_text(s.skip(n + 1), depth + 1);
            if let Ok((args, rest)) = parse_args(s.skip(n + 1), depth + 1) {
                assert(s =~= s.take(n) + seq!['{'] + s.skip(n + 1));
                assert(s =~= s.take(n) + seq!['{'] + args_text(args) + seq!['}'] + rest);
            }
        } else {
            assert(s =~= s.take(n) + s.skip(n));
        }
    }
}

/// What is read as arguments is the text of the arguments, and the brace behind it.
proof fn lemma_parsed_args_text(s: Seq<char>, depth: nat)
    ensures
        parse_args(s, depth) matches Ok((args, rest)) ==> args.len() > 0 && s == args_text(args)
            + seq!['}'] + rest,
    decreases s.len(), 1nat,
{
    lemma_parsed_text(s, depth);
    lemma_parse_tree_rest(s, depth);
    if let Ok((arg, rest)) = parse_tree(s, depth) {
        if rest.len() > 0 {
            assert(rest =~= seq![rest[0]] + rest.skip(1));
            if rest[0] == ',' {
                lemma_parsed_args_text(rest.skip(1), depth);
                if let Ok((args, last)) = parse_args(rest.skip(1), depth) {
                    let all = seq![arg] + args;
                    assert(all.skip(1) =~= args);
                    assert(args_text(all) == expr_text(arg) + seq![','] + args_text(args));
                    assert(s =~= args_text(all) + seq!['}'] + last);
                }
            } else if rest[0] == '}' {
                assert(args_text(seq![arg]) == expr_text(arg));
                assert(s =~= args_text(seq![arg]) + seq!['}'] + rest.skip(1));
            }
        }
    }
}

/// A tree that is read from an expression is written as the expression.
proof fn lemma_read_tree_text<
    Pk: MiniscriptKey,
    Ext,
    F: Fn(&str) -> Result<Miniscript<Pk, Ext>, Error>,
>(reader: F, t: TreeView, tree: &TapTree<Pk, Ext>)
    requires
        reads_tree(reader, t, *tree),
        forall|text: Seq<char>, ms: Miniscript<Pk, Ext>| #[trigger]
            reads(reader, text, Ok::<Miniscript<Pk, Ext>, Error>(ms)) ==> ms.text@ == text,
    ensures
        tree.text() == expr_text(t),
    decreases tree,
{
    if let TapTree::Tree(l, r) = tree {
        lemma_read_tree_text(reader, t.args[0], &**l);
        lemma_read_tree_text(reader, t.args[1], &**r);
        assert(t.args.skip(1) =~= seq![t.args[1]]);
        assert(args_text(t.args.skip(1)) == expr_text(t.args[1]));
        assert(args_text(t.args) == expr_text(t.args[0]) + seq![','] + expr_text(t.args[1]));
        assert(tree.text() =~= expr_text(t));
    }
}

/// What is read as a descriptor is written as the text that was read, without the checksum,
/// provided that keys and scripts are written as the texts that they were read from.
pub proof fn law_read_is_written<
    Pk: MiniscriptKey,
    Ext,
    K: Fn(&str) -> Result<Pk, String>,
    S: Fn(&str) -> Result<Miniscript<Pk, Ext>, Error>,
>(
    parse_key: K,
    parse_script: S,
    text: Seq<char>,
    key: Pk,
    tree: &Option<TapTree<Pk, Ext>>,
)
    requires
        forall|x: Seq<char>, k: Pk| #[trigger]
            reads(parse_key, x, Ok::<Pk, String>(k)) ==> k.text() == x,
        forall|x: Seq<char>, ms: Miniscript<Pk, Ext>| #[trigger]
            reads(parse_script, x, Ok::<Miniscript<Pk, Ext>, Error>(ms)) ==> ms.text@ == x,
        reads_text(parse_key, parse_script, text, key, *tree),
    ensures
        checked_descriptor(text) == Ok::<Seq<char>, ErrorView>(tr_text(key, *tree)),
{
    let desc = checked_descriptor(text)->Ok_0;
    let inner = desc.subrange(5, desc.len() - 1);
    let (k, script) = split_at_first(inner, ',');
    reveal_strlit("eltr(");
    inner.index_of_first_ensures(',');
    assert(desc =~= "eltr("@ + inner + seq![')']) by {
        assert(desc.take(5) == "eltr("@);
        assert(desc =~= desc.take(5) + inner + seq![desc.last()]);
    }
    if script.len() == 0 {
        assert(tr_text(key, *tree) =~= desc);
    } else {
        lemma_parsed_text(script, 1);
        let (t, rest) = parse_tree(script, 1)->Ok_0;
        assert(script =~= expr_text(t));
        if let Some(u) = tree {
            lemma_read_tree_text(parse_script, t, u);
        }
        assert(inner =~= k + seq![','] + script);
        assert(tr_text(key, *tree) =~= desc);
    }
}

} // verus!
