//! Reading descriptors.

use crate::descriptor::text::{lemma_ascii_bytes, str_eq};
use crate::error::{errstr, Error, ErrorView};
use crate::expression::{bare, parse_tree, Tree, TreeView};
use vstd::prelude::*;
use vstd::std_specs::iter::IteratorSpec;
use vstd::string::{StrSliceExecFns, StringSliceAdditionalSpecFns};
use vstd::utf8::{encode_utf8, is_ascii_chars, is_ascii_chars_encode_utf8};

verus! {

/// The first byte outside ASCII.
pub open spec fn first_high_byte(bytes: Seq<u8>) -> u8
    decreases bytes.len(),
{
    if bytes.len() == 0 {
        0
    } else if bytes[0] >= 0x80 {
        bytes[0]
    } else {
        first_high_byte(bytes.skip(1))
    }
}

/// The expression for a descriptor with this key and, perhaps, this tree of scripts.
pub open spec fn tr_expression(args: Seq<TreeView>) -> TreeView {
    TreeView { name: "eltr"@, args }
}

/// The expression that the text of a descriptor stands for.
pub open spec fn parse_tr(s: Seq<char>) -> Result<TreeView, ErrorView> {
    if !is_ascii_chars(s) {
        Err(ErrorView::Unprintable(first_high_byte(encode_utf8(s))))
    } else if s.len() > 5 && s.take(5) == "eltr("@ && s.last() == ')' {
        let (key, script) = split_at_first(s.subrange(5, s.len() - 1), ',');
        if script.len() == 0 {
            Ok(tr_expression(seq![bare(key)]))
        } else {
            match parse_tree(script, 1) {
                Ok((tree, rest)) => if rest.len() == 0 {
                    Ok(tr_expression(seq![bare(key), tree]))
                } else {
                    Err(ErrorView::Unexpected(rest))
                },
                Err(e) => Err(e),
            }
        }
    } else {
        Err(ErrorView::Unexpected("invalid taproot descriptor"@))
    }
}

/// The two parts of a text around the first `delim`. Without one, or with nothing behind it, the
/// whole text is the first part.
pub open spec fn split_at_first(s: Seq<char>, delim: char) -> (Seq<char>, Seq<char>) {
    match s.index_of_first(delim) {
        Some(i) => if i < s.len() - 1 {
            (s.take(i), s.skip(i + 1))
        } else {
            (s, Seq::empty())
        },
        None => (s, Seq::empty()),
    }
}

/// Splits a text at the first `delim`. Without one, or with nothing behind it, the whole text is
/// the first part and the second part is empty. An empty text cannot be split.
pub fn split_once(inp: &str, delim: char) -> (r: Option<(&str, &str)>)
    ensures
        r is None <==> inp@.len() == 0,
        r matches Some((first, second)) ==> (first@, second@) == split_at_first(inp@, delim),
{
    if inp.is_empty() {
        return None;
    }
    let count: usize = inp.unicode_len();
    let mut idx: usize = 0;
    let mut chars = inp.chars();
    proof {
        assert(inp@.skip(0) =~= inp@);
        inp@.index_of_first_ensures(delim);
    }
    loop
        invariant_except_break
            chars.remaining() == inp@.skip(idx as int),
        invariant
            count == inp@.len(),
            idx <= count,
            forall|j: int| 0 <= j < idx ==> inp@[j] != delim,
        ensures
            idx < count ==> inp@[idx as int] == delim,
        decreases count - idx,
    {
        match chars.next() {
            Some(ch) => {
                assert(inp@.skip(idx as int)[0] == inp@[idx as int]);
                if ch == delim {
                    break;
                }
                idx += 1;
            },
            None => {
                break;
            },
        }
    }
    if idx >= count - 1 {
        proof {
            reveal_strlit("");
        }
        assert(""@ =~= Seq::empty());
        Some((inp, ""))
    } else {
        let first = inp.substring_char(0, idx);
        let second = inp.substring_char(idx + 1, count);
        assert(first@ =~= inp@.take(idx as int));
        assert(second@ =~= inp@.skip(idx + 1));
        Some((first, second))
    }
}

/// Reads the text of a descriptor as an expression.
pub fn parse_tr_tree(s: &str) -> (r: Result<Tree<'_>, Error>)
    ensures
        r matches Ok(tree) ==> parse_tr(s@) == Ok::<TreeView, ErrorView>(tree@),
        r matches Err(e) ==> parse_tr(s@) == Err::<TreeView, ErrorView>(e@),
{
    let bytes = s.as_bytes();
    let mut i: usize = 0;
    assert(bytes@.skip(0) =~= bytes@);
    while i < bytes.len()
        invariant
            bytes@ == s.spec_bytes(),
            i <= bytes@.len(),
            forall|j: int| 0 <= j < i ==> bytes@[j] < 0x80,
            first_high_byte(bytes@) == first_high_byte(bytes@.skip(i as int)),
        decreases bytes@.len() - i,
    {
        let ch: u8 = bytes[i];
        proof {
            assert(bytes@.skip(i as int)[0] == ch);
            assert(bytes@.skip(i as int).skip(1) =~= bytes@.skip(i + 1));
        }
        if ch >= 0x80 {
            proof {
                if is_ascii_chars(s@) {
                    is_ascii_chars_encode_utf8(s@);
                    assert(s@[i as int] as u8 == ch);
                }
            }
            return Err(Error::Unprintable(ch));
        }
        i += 1;
    }
    proof {
        lemma_ascii_bytes(s@);
        is_ascii_chars_encode_utf8(s@);
        reveal_strlit("eltr(");
        reveal_strlit("eltr");
    }
    let len: usize = s.unicode_len();
    if len > 5 && str_eq(s.substring_ascii(0, 5), "eltr(") && s.get_ascii(len - 1) as char == ')' {
        let rest = s.substring_ascii(5, len - 1);
        let mut args: Vec<Tree<'_>> = Vec::new();
        let (key, script) = match split_once(rest, ',') {
            Some(parts) => parts,
            None => (rest, ""),
        };
        proof {
            reveal_strlit("");
            rest@.index_of_first_ensures(',');
            assert((key@, script@) == split_at_first(rest@, ',')) by {
                assert(""@ =~= Seq::empty());
            }
        }
        let internal_key = Tree { name: key, args: Vec::new() };
        assert(internal_key@.args =~= Seq::empty());
        args.push(internal_key);
        if script.is_empty() {
            let tree = Tree { name: "eltr", args };
            assert(tree@.args =~= seq![bare(key@)]);
            return Ok(tree);
        }
        let (tree, rest) = match Tree::from_slice_delim(script, 1) {
            Ok(x) => x,
            Err(e) => return Err(e),
        };
        if rest.is_empty() {
            args.push(tree);
            let top = Tree { name: "eltr", args };
            assert(top@.args =~= seq![bare(key@), tree@]);
            Ok(top)
        } else {
            Err(errstr(rest))
        }
    } else {
        Err(Error::Unexpected("invalid taproot descriptor".to_owned()))
    }
}

} // verus!
