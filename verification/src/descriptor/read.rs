//! From expressions to descriptors.

use crate::descriptor::checksum::{checked_descriptor, verify_checksum};
use crate::descriptor::parse::{parse_tr, parse_tr_tree};
use crate::descriptor::tap_tree::TapTree;
use crate::descriptor::text::str_eq;
use crate::descriptor::tr::{permitted_tree, Tr};
use crate::error::{errstr, Error, ErrorView};
use crate::expression::{reading_fails, reads, terminal, Tree, TreeView};
use crate::miniscript::{Miniscript, MiniscriptKey};
use crate::util::{decimal, decimal_text};
use std::sync::Arc;
use vstd::prelude::*;
use vstd::string::StringExecFns;

verus! {

/// Whether an expression stands for a script.
pub open spec fn is_script_expr(t: TreeView) -> bool {
    t.name.len() > 0 && t.args.len() == 0
}

/// Whether an expression stands for two subtrees.
pub open spec fn is_branch_expr(t: TreeView) -> bool {
    t.name.len() == 0 && t.args.len() == 2
}

/// Whether a reader of scripts makes this tree of an expression.
pub open spec fn reads_tree<
    Pk: MiniscriptKey,
    Ext,
    F: Fn(&str) -> Result<Miniscript<Pk, Ext>, Error>,
>(reader: F, t: TreeView, tree: TapTree<Pk, Ext>) -> bool
    decreases t,
{
    match tree {
        TapTree::Leaf(ms) => is_script_expr(t) && reads(reader, t.name, Ok(*ms)),
        TapTree::Tree(l, r) => is_branch_expr(t) && reads_tree(reader, t.args[0], *l) && reads_tree(
            reader,
            t.args[1],
            *r,
        ),
    }
}

/// Whether a reader of scripts makes some tree of an expression.
pub open spec fn reads_some_tree<
    Pk: MiniscriptKey,
    Ext,
    F: Fn(&str) -> Result<Miniscript<Pk, Ext>, Error>,
>(reader: F, t: TreeView) -> bool {
    exists|tree: TapTree<Pk, Ext>| reads_tree(reader, t, tree)
}

/// Whether a reader of scripts fails with this error.
pub open spec fn script_fails<
    Pk: MiniscriptKey,
    Ext,
    F: Fn(&str) -> Result<Miniscript<Pk, Ext>, Error>,
>(reader: F, text: Seq<char>, e: ErrorView) -> bool {
    exists|err: Error|
        #![trigger err@]
        err@ == e && reads(reader, text, Err::<Miniscript<Pk, Ext>, Error>(err))
}

/// Whether an expression cannot be read as a tree of scripts, for this reason. The first script
/// that cannot be read, or the first part that has another form, decides.
pub open spec fn tree_fails<
    Pk: MiniscriptKey,
    Ext,
    F: Fn(&str) -> Result<Miniscript<Pk, Ext>, Error>,
>(reader: F, t: TreeView, e: ErrorView) -> bool
    decreases t,
{
    if is_script_expr(t) {
        script_fails(reader, t.name, e)
    } else if is_branch_expr(t) {
        tree_fails(reader, t.args[0], e) || (reads_some_tree(reader, t.args[0]) && tree_fails(
            reader,
            t.args[1],
            e,
        ))
    } else {
        e == ErrorView::Unexpected(
            "unknown format for script spending paths while parsing taproot descriptor"@,
        )
    }
}

/// Reads a tree of scripts.
pub fn parse_tr_script_spend<
    Pk: MiniscriptKey,
    Ext,
    F: Fn(&str) -> Result<Miniscript<Pk, Ext>, Error>,
>(tree: &Tree<'_>, parse_script: &F) -> (r: Result<TapTree<Pk, Ext>, Error>)
    requires
        forall|s: &str| call_requires(*parse_script, (s,)),
    ensures
        r matches Ok(t) ==> reads_tree(*parse_script, tree@, t),
        r matches Err(e) ==> tree_fails(*parse_script, tree@, e@),
    decreases tree,
{
    if !tree.name.is_empty() && tree.args.len() == 0 {
        let m = parse_script(tree.name);
        assert(reads(*parse_script, tree@.name, m));
        match m {
            Ok(script) => Ok(TapTree::Leaf(Arc::new(script))),
            Err(e) => {
                assert(e@ == e@);
                Err(e)
            },
        }
    } else if tree.name.is_empty() && tree.args.len() == 2 {
        assert(tree@.args[0] == tree.args@[0]@);
        assert(tree@.args[1] == tree.args@[1]@);
        let left = match parse_tr_script_spend(&tree.args[0], parse_script) {
            Ok(t) => t,
            Err(e) => return Err(e),
        };
        let right = match parse_tr_script_spend(&tree.args[1], parse_script) {
            Ok(t) => t,
            Err(e) => return Err(e),
        };
        Ok(TapTree::Tree(Arc::new(left), Arc::new(right)))
    } else {
        Err(
            errstr("unknown format for script spending paths while parsing taproot descriptor"),
        )
    }
}

/// Whether the expression for a descriptor has a key, and at most a tree besides.
pub open spec fn is_tr_expr(top: TreeView) -> bool {
    top.name == "eltr"@ && 1 <= top.args.len() <= 2
}

/// Whether readers of keys and of scripts make a descriptor with this key and tree of an
/// expression.
pub open spec fn reads_tr<
    Pk: MiniscriptKey,
    Ext,
    K: Fn(&str) -> Result<Pk, String>,
    S: Fn(&str) -> Result<Miniscript<Pk, Ext>, Error>,
>(parse_key: K, parse_script: S, top: TreeView, key: Pk, tree: Option<TapTree<Pk, Ext>>) -> bool {
    &&& is_tr_expr(top)
    &&& top.args[0].args.len() == 0
    &&& reads(parse_key, top.args[0].name, Ok::<Pk, String>(key))
    &&& permitted_tree(tree)
    &&& match tree {
        Some(t) => top.args.len() == 2 && reads_tree(parse_script, top.args[1], t),
        None => top.args.len() == 1,
    }
}

/// Whether a reader of scripts makes a tree of an expression that no descriptor can have.
pub open spec fn reads_too_high_tree<
    Pk: MiniscriptKey,
    Ext,
    S: Fn(&str) -> Result<Miniscript<Pk, Ext>, Error>,
>(parse_script: S, t: TreeView) -> bool {
    exists|tree: TapTree<Pk, Ext>|
        #[trigger] reads_tree(parse_script, t, tree) && !permitted_tree(Some(tree))
}

/// Whether a reader of keys makes some key of a text.
pub open spec fn reads_some_key<Pk: MiniscriptKey, K: Fn(&str) -> Result<Pk, String>>(
    parse_key: K,
    text: Seq<char>,
) -> bool {
    exists|key: Pk| reads(parse_key, text, Ok::<Pk, String>(key))
}

/// Whether an expression cannot be read as a descriptor, for this reason. The form of the
/// expression is looked at first, then the tree, then the key, and the height of the tree last.
pub open spec fn tr_fails<
    Pk: MiniscriptKey,
    Ext,
    K: Fn(&str) -> Result<Pk, String>,
    S: Fn(&str) -> Result<Miniscript<Pk, Ext>, Error>,
>(parse_key: K, parse_script: S, top: TreeView, e: ErrorView) -> bool {
    if !is_tr_expr(top) {
        e == ErrorView::Unexpected(
            top.name + "[#"@ + decimal_text(top.args.len())
                + " args] while parsing taproot descriptor"@,
        )
    } else if top.args[0].args.len() > 0 {
        e == ErrorView::Unexpected(
            "#"@ + decimal_text(top.args[0].args.len())
                + " script associated with `key-path` while parsing taproot descriptor"@,
        )
    } else if top.args.len() == 1 {
        reading_fails(parse_key, top.args[0].name, e)
    } else {
        ||| tree_fails(parse_script, top.args[1], e)
        ||| reads_some_tree(parse_script, top.args[1]) && reading_fails(
            parse_key,
            top.args[0].name,
            e,
        )
        ||| reads_too_high_tree(parse_script, top.args[1]) && reads_some_key(
            parse_key,
            top.args[0].name,
        ) && e == ErrorView::MaxRecursiveDepthExceeded
    }
}

/// Whether readers of keys and of scripts make a descriptor with this key and tree of a text.
pub open spec fn reads_text<
    Pk: MiniscriptKey,
    Ext,
    K: Fn(&str) -> Result<Pk, String>,
    S: Fn(&str) -> Result<Miniscript<Pk, Ext>, Error>,
>(
    parse_key: K,
    parse_script: S,
    text: Seq<char>,
    key: Pk,
    tree: Option<TapTree<Pk, Ext>>,
) -> bool {
    &&& checked_descriptor(text) matches Ok(desc)
    &&& parse_tr(desc) matches Ok(top)
    &&& reads_tr(parse_key, parse_script, top, key, tree)
}

/// Whether a text cannot be read as a descriptor, for this reason. The checksum is looked at
/// first.
pub open spec fn text_fails<
    Pk: MiniscriptKey,
    Ext,
    K: Fn(&str) -> Result<Pk, String>,
    S: Fn(&str) -> Result<Miniscript<Pk, Ext>, Error>,
>(parse_key: K, parse_script: S, text: Seq<char>, e: ErrorView) -> bool {
    match checked_descriptor(text) {
        Ok(desc) => match parse_tr(desc) {
            Ok(top) => tr_fails(parse_key, parse_script, top, e),
            Err(err) => e == err,
        },
        Err(err) => e == err,
    }
}

impl<Pk: MiniscriptKey, Ext> Tr<Pk, Ext> {
    /// Reads an expression as a descriptor, with the help of readers for keys and for scripts.
    pub fn from_tree<
        K: Fn(&str) -> Result<Pk, String>,
        S: Fn(&str) -> Result<Miniscript<Pk, Ext>, Error>,
    >(top: &Tree<'_>, parse_key: &K, parse_script: &S) -> (r: Result<Self, Error>)
        requires
            forall|s: &str| call_requires(*parse_key, (s,)),
            forall|s: &str| call_requires(*parse_script, (s,)),
        ensures
            r matches Ok(d) ==> reads_tr(
                *parse_key,
                *parse_script,
                top@,
                d.key(),
                d.script_tree(),
            ),
            r matches Err(e) ==> tr_fails(*parse_key, *parse_script, top@, e@),
    {
        let count: usize = top.args.len();
        if !str_eq(top.name, "eltr") || count < 1 || count > 2 {
            let mut message = top.name.to_owned();
            message.append("[#");
            message.append(decimal(count).as_str());
            message.append(" args] while parsing taproot descriptor");
            return Err(Error::Unexpected(message));
        }
        let key = &top.args[0];
        assert(top@.args[0] == key@);
        if key.args.len() > 0 {
            let mut message = "#".to_owned();
            message.append(decimal(key.args.len()).as_str());
            message.append(" script associated with `key-path` while parsing taproot descriptor");
            return Err(Error::Unexpected(message));
        }
        let tree = if count == 2 {
            assert(top@.args[1] == top.args@[1]@);
            match parse_tr_script_spend(&top.args[1], parse_script) {
                Ok(t) => Some(t),
                Err(e) => return Err(e),
            }
        } else {
            None
        };
        let internal_key = match terminal(key, parse_key) {
            Ok(k) => k,
            Err(e) => return Err(e),
        };
        Tr::new(internal_key, tree)
    }

    /// Reads a text as a descriptor, with the help of readers for keys and for scripts. A
    /// checksum may stand behind the descriptor; if there is one it has to be right.
    pub fn from_str<
        K: Fn(&str) -> Result<Pk, String>,
        S: Fn(&str) -> Result<Miniscript<Pk, Ext>, Error>,
    >(s: &str, parse_key: &K, parse_script: &S) -> (r: Result<Self, Error>)
        requires
            forall|s: &str| call_requires(*parse_key, (s,)),
            forall|s: &str| call_requires(*parse_script, (s,)),
        ensures
            r matches Ok(d) ==> reads_text(
                *parse_key,
                *parse_script,
                s@,
                d.key(),
                d.script_tree(),
            ),
            r matches Err(e) ==> text_fails(*parse_key, *parse_script, s@, e@),
    {
        let desc_str = match verify_checksum(s) {
            Ok(desc) => desc,
            Err(e) => return Err(e),
        };
        let top = match parse_tr_tree(desc_str) {
            Ok(top) => top,
            Err(e) => return Err(e),
        };
        Self::from_tree(&top, parse_key, parse_script)
    }
}

} // verus!
