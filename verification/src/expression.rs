//! Expressions: names with arguments, where braces enclose the arguments.

use crate::error::{errstr, Error, ErrorView};
use vstd::prelude::*;
use vstd::string::StrSliceExecFns;

verus! {

/// How deeply expressions may be nested.
pub const MAX_RECURSION_DEPTH: u32 = 402;

/// An expression: a name and the arguments behind it.
pub struct Tree<'a> {
    /// The name.
    pub name: &'a str,
    /// The arguments.
    pub args: Vec<Tree<'a>>,
}

/// The mathematical content of a [`Tree`].
pub struct TreeView {
    pub name: Seq<char>,
    pub args: Seq<TreeView>,
}

impl<'a> View for Tree<'a> {
    type V = TreeView;

    open spec fn view(&self) -> TreeView
        decreases self,
    {
        TreeView {
            name: self.name@,
            args: Seq::new(
                self.args@.len(),
                |i: int|
                    if 0 <= i < self.args@.len() {
                        self.args@[i].view()
                    } else {
                        bare(Seq::empty())
                    },
            ),
        }
    }
}

/// A name without arguments.
pub open spec fn bare(name: Seq<char>) -> TreeView {
    TreeView { name, args: Seq::empty() }
}

/// The contents of several expressions.
pub open spec fn trees_view(trees: Seq<Tree<'_>>) -> Seq<TreeView> {
    trees.map_values(|t: Tree<'_>| t@)
}

/// By how many the opening parentheses outnumber the closing ones.
pub open spec fn paren_balance(s: Seq<char>) -> int
    decreases s.len(),
{
    if s.len() == 0 {
        0
    } else {
        paren_balance(s.drop_last()) + if s.last() == '(' {
            1int
        } else if s.last() == ')' {
            -1int
        } else {
            0int
        }
    }
}

/// Whether a name ends before position `i`: at a brace, or at a comma outside parentheses.
pub open spec fn is_stop(s: Seq<char>, i: int) -> bool {
    s[i] == '{' || s[i] == '}' || (s[i] == ',' && paren_balance(s.take(i)) == 0)
}

/// The first position at or behind `i` that ends a name.
pub open spec fn stop_from(s: Seq<char>, i: int) -> int
    decreases s.len() - i,
{
    if i >= s.len() || is_stop(s, i) {
        i
    } else {
        stop_from(s, i + 1)
    }
}

/// Where the name that begins a text ends.
pub open spec fn name_end(s: Seq<char>) -> int {
    stop_from(s, 0)
}

/// Reads an expression from the front of a text, at some depth of nesting: the expression, and
/// the text behind it.
pub open spec fn parse_tree(s: Seq<char>, depth: nat) -> Result<(TreeView, Seq<char>), ErrorView>
    decreases s.len(), 0nat,
{
    let n = name_end(s);
    if depth >= MAX_RECURSION_DEPTH {
        Err(ErrorView::MaxRecursiveDepthExceeded)
    } else if 0 <= n < s.len() && s[n] == '{' {
        match parse_args(s.skip(n + 1), depth + 1) {
            Ok((args, rest)) => Ok((TreeView { name: s.take(n), args }, rest)),
            Err(e) => Err(e),
        }
    } else {
        Ok((bare(s.take(n)), s.skip(n)))
    }
}

/// Reads arguments up to the closing brace from the front of a text: the arguments, and the text
/// behind the brace.
pub open spec fn parse_args(s: Seq<char>, depth: nat) -> Result<
    (Seq<TreeView>, Seq<char>),
    ErrorView,
>
    decreases s.len(), 1nat,
{
    match parse_tree(s, depth) {
        Ok((arg, rest)) => if 0 < rest.len() <= s.len() && rest[0] == ',' {
            match parse_args(rest.skip(1), depth) {
                Ok((args, rest)) => Ok((seq![arg] + args, rest)),
                Err(e) => Err(e),
            }
        } else if rest.len() > 0 && rest[0] == '}' {
            Ok((seq![arg], rest.skip(1)))
        } else {
            Err(ErrorView::ExpectedChar('}'))
        },
        Err(e) => Err(e),
    }
}

/// The search for the end of a name finds it.
pub proof fn lemma_stop_from(s: Seq<char>, i: int, n: int)
    requires
        0 <= i <= n <= s.len(),
        n < s.len() ==> is_stop(s, n),
        forall|j: int| i <= j < n ==> !#[trigger] is_stop(s, j),
    ensures
        stop_from(s, i) == n,
    decreases n - i,
{
    if i < n {
        assert(!is_stop(s, i));
        lemma_stop_from(s, i + 1, n);
    }
}

/// What is left behind an expression is no longer than the text.
pub proof fn lemma_parse_tree_rest(s: Seq<char>, depth: nat)
    ensures
        0 <= name_end(s) <= s.len(),
        parse_tree(s, depth) matches Ok((_, rest)) ==> rest.len() <= s.len(),
    decreases s.len(), 0nat,
{
    lemma_stop_bound(s, 0);
    let n = name_end(s);
    if depth < MAX_RECURSION_DEPTH && n < s.len() && s[n] == '{' {
        lemma_parse_args_rest(s.skip(n + 1), depth + 1);
    }
}

/// What is left behind a list of arguments is no longer than the text.
proof fn lemma_parse_args_rest(s: Seq<char>, depth: nat)
    ensures
        parse_args(s, depth) matches Ok((_, rest)) ==> rest.len() <= s.len(),
    decreases s.len(), 1nat,
{
    lemma_parse_tree_rest(s, depth);
    if let Ok((_, rest)) = parse_tree(s, depth) {
        if rest.len() > 0 {
            lemma_parse_args_rest(rest.skip(1), depth);
        }
    }
}

/// The end of a name lies within the text.
proof fn lemma_stop_bound(s: Seq<char>, i: int)
    requires
        0 <= i <= s.len(),
    ensures
        i <= stop_from(s, i) <= s.len(),
    decreases s.len() - i,
{
    if i < s.len() && !is_stop(s, i) {
        lemma_stop_bound(s, i + 1);
    }
}

/// Finds the end of the name that begins a text.
fn next_expr(sl: &str) -> (r: usize)
    requires
        sl.is_ascii(),
    ensures
        r == name_end(sl@),
        r <= sl@.len(),
{
    let len: usize = sl.unicode_len();
    let mut count: i128 = 0;
    let mut i: usize = 0;
    while i < len
        invariant
            sl.is_ascii(),
            len == sl@.len(),
            i <= len,
            count == paren_balance(sl@.take(i as int)),
            -(i as int) <= count <= i,
            forall|j: int| 0 <= j < i ==> !#[trigger] is_stop(sl@, j),
        ensures
            i < len ==> is_stop(sl@, i as int),
        decreases len - i,
    {
        let ch: char = sl.get_ascii(i) as char;
        assert(sl@[i as int] == ch);
        if ch == '{' || ch == '}' || (ch == ',' && count == 0) {
            break;
        }
        assert(sl@.take(i + 1).drop_last() =~= sl@.take(i as int));
        if ch == '(' {
            count += 1;
        } else if ch == ')' {
            count -= 1;
        }
        i += 1;
    }
    proof {
        lemma_stop_from(sl@, 0, i as int);
    }
    i
}

/// What comes of reading arguments when these have been read already.
spec fn prepend(
    args: Seq<TreeView>,
    r: Result<(Seq<TreeView>, Seq<char>), ErrorView>,
) -> Result<(Seq<TreeView>, Seq<char>), ErrorView> {
    match r {
        Ok((more, rest)) => Ok((args + more, rest)),
        Err(e) => Err(e),
    }
}

impl<'a> Tree<'a> {
    /// Reads an expression whose arguments stand in braces from the front of a text, at some
    /// depth of nesting. Gives the expression and the text behind it.
    pub fn from_slice_delim(sl: &'a str, depth: u32) -> (r: Result<(Tree<'a>, &'a str), Error>)
        requires
            sl.is_ascii(),
        ensures
            r matches Ok((tree, rest)) ==> parse_tree(sl@, depth as nat) == Ok::<
                (TreeView, Seq<char>),
                ErrorView,
            >((tree@, rest@)) && rest.is_ascii(),
            r matches Err(e) ==> parse_tree(sl@, depth as nat) == Err::<
                (TreeView, Seq<char>),
                ErrorView,
            >(e@),
        decreases sl@.len(),
    {
        if depth >= MAX_RECURSION_DEPTH {
            return Err(Error::MaxRecursiveDepthExceeded);
        }
        let len: usize = sl.unicode_len();
        let n: usize = next_expr(sl);
        let name = sl.substring_ascii(0, n);
        assert(name@ =~= sl@.take(n as int));
        let mut args: Vec<Tree<'a>> = Vec::new();
        if n == len || sl.get_ascii(n) as char != '{' {
            let rest = sl.substring_ascii(n, len);
            let tree = Tree { name, args };
            assert(tree@.args =~= Seq::empty());
            assert(rest@ =~= sl@.skip(n as int));
            return Ok((tree, rest));
        }
        let mut cur = sl.substring_ascii(n + 1, len);
        assert(cur@ =~= sl@.skip(n + 1));
        let ghost all = parse_args(cur@, (depth + 1) as nat);
        proof {
            assert(trees_view(args@) =~= Seq::empty());
            match all {
                Ok((a, _)) => {
                    assert(Seq::empty() + a =~= a);
                },
                Err(_) => {},
            }
        }
        loop
            invariant_except_break
                all == prepend(trees_view(args@), parse_args(cur@, (depth + 1) as nat)),
            invariant
                cur.is_ascii(),
                cur@.len() < sl@.len(),
                depth < MAX_RECURSION_DEPTH,
                all matches Err(e) ==> parse_tree(sl@, depth as nat) == Err::<
                    (TreeView, Seq<char>),
                    ErrorView,
                >(e),
            ensures
                all == Ok::<(Seq<TreeView>, Seq<char>), ErrorView>((trees_view(args@), cur@)),
                cur.is_ascii(),
            decreases cur@.len(),
        {
            let ghost before = trees_view(args@);
            proof {
                lemma_parse_tree_rest(cur@, (depth + 1) as nat);
            }
            let (arg, rest) = match Tree::from_slice_delim(cur, depth + 1) {
                Ok(x) => x,
                Err(e) => return Err(e),
            };
            args.push(arg);
            assert(trees_view(args@) =~= before.push(arg@));
            if rest.is_empty() {
                return Err(Error::ExpectedChar('}'));
            }
            let last: char = rest.get_ascii(0) as char;
            assert(last == rest@[0]);
            let rest_len: usize = rest.unicode_len();
            let next = rest.substring_ascii(1, rest_len);
            assert(next@ =~= rest@.skip(1));
            if last == ',' {
                proof {
                    if let Ok((more, _)) = parse_args(next@, (depth + 1) as nat) {
                        assert(before + (seq![arg@] + more) =~= before.push(arg@) + more);
                    }
                }
                cur = next;
            } else if last == '}' {
                assert(before + seq![arg@] =~= before.push(arg@));
                cur = next;
                break;
            } else {
                return Err(Error::ExpectedChar('}'));
            }
        }
        let tree = Tree { name, args };
        assert(tree@.args =~= trees_view(args@));
        Ok((tree, cur))
    }
}

/// What a reader may make of a text.
pub open spec fn reads<T, E, F: Fn(&str) -> Result<T, E>>(
    reader: F,
    text: Seq<char>,
    r: Result<T, E>,
) -> bool {
    exists|s: &str| #[trigger] s@ == text && call_ensures(reader, (s,), r)
}

/// Whether a reader that says in a text why it fails can fail with this error.
pub open spec fn reading_fails<T, F: Fn(&str) -> Result<T, String>>(
    reader: F,
    text: Seq<char>,
    e: ErrorView,
) -> bool {
    exists|message: String|
        #![trigger message@]
        e == ErrorView::Unexpected(message@) && reads(reader, text, Err::<T, String>(message))
}

/// Reads an expression that has to be a name without arguments.
pub fn terminal<T, F: Fn(&str) -> Result<T, String>>(term: &Tree<'_>, convert: &F) -> (r: Result<
    T,
    Error,
>)
    requires
        forall|s: &str| call_requires(*convert, (s,)),
    ensures
        term@.args.len() > 0 ==> r is Err,
        r matches Ok(x) ==> reads(*convert, term@.name, Ok::<T, String>(x)),
        r matches Err(e) ==> if term@.args.len() == 0 {
            reading_fails(*convert, term@.name, e@)
        } else {
            e@ == ErrorView::Unexpected(term@.name)
        },
{
    if term.args.len() == 0 {
        let converted = convert(term.name);
        assert(reads(*convert, term@.name, converted));
        match converted {
            Ok(x) => Ok(x),
            Err(message) => {
                assert(message@ == message@);
                Err(Error::Unexpected(message))
            },
        }
    } else {
        Err(errstr(term.name))
    }
}

} // verus!
