//! From descriptors to text.

use crate::descriptor::checksum::{checksum_of, desc_checksum};
use crate::descriptor::tap_tree::TapTree;
use crate::descriptor::tr::Tr;
use crate::error::Error;
use crate::miniscript::MiniscriptKey;
use vstd::prelude::*;
use vstd::string::StringExecFns;

verus! {

impl<Pk: MiniscriptKey, Ext> TapTree<Pk, Ext> {
    /// The text that the tree is written as.
    pub open spec fn text(&self) -> Seq<char>
        decreases self,
    {
        match self {
            TapTree::Tree(l, r) => seq!['{'] + l.text() + seq![','] + r.text() + seq!['}'],
            TapTree::Leaf(ms) => ms.text@,
        }
    }

    /// Writes the tree as text.
    pub fn to_string(&self) -> (r: String)
        ensures
            r@ == self.text(),
        decreases self,
    {
        match self {
            TapTree::Tree(left, right) => {
                proof {
                    reveal_strlit("{");
                    reveal_strlit(",");
                    reveal_strlit("}");
                }
                let mut s = "{".to_owned();
                s.append(left.to_string().as_str());
                s.append(",");
                s.append(right.to_string().as_str());
                s.append("}");
                assert(s@ =~= self.text());
                s
            },
            TapTree::Leaf(script) => script.text.clone(),
        }
    }
}

/// The text of a descriptor with this internal key and tree, without a checksum.
pub open spec fn tr_text<Pk: MiniscriptKey, Ext>(key: Pk, tree: Option<TapTree<Pk, Ext>>) -> Seq<
    char,
> {
    match tree {
        Some(t) => "eltr("@ + key.text() + seq![','] + t.text() + seq![')'],
        None => "eltr("@ + key.text() + seq![')'],
    }
}

/// A descriptor's text with its checksum behind it.
pub open spec fn with_checksum(text: Seq<char>, sum: Seq<char>) -> Seq<char> {
    text + seq!['#'] + sum
}

impl<Pk: MiniscriptKey, Ext> Tr<Pk, Ext> {
    /// The text of the descriptor, without a checksum.
    pub open spec fn text(&self) -> Seq<char> {
        tr_text(self.key(), self.script_tree())
    }

    /// Writes the descriptor as text, without a checksum.
    pub fn to_string_no_checksum(&self) -> (r: String)
        ensures
            r@ == self.text(),
    {
        proof {
            reveal_strlit(",");
            reveal_strlit(")");
        }
        let mut s = "eltr(".to_owned();
        s.append(self.internal_key().to_text().as_str());
        if let Some(tree) = self.taptree() {
            s.append(",");
            s.append(tree.to_string().as_str());
        }
        s.append(")");
        assert(s@ =~= self.text());
        s
    }

    /// Writes the descriptor as text, with its checksum, unless the text has none.
    pub fn to_string(&self) -> (r: Result<String, Error>)
        ensures
            match checksum_of(self.text()) {
                Ok(sum) => r matches Ok(s) && s@ == with_checksum(self.text(), sum),
                Err(err) => r matches Err(e) && e@ == err,
            },
    {
        let mut desc = self.to_string_no_checksum();
        let checksum = match desc_checksum(desc.as_str()) {
            Ok(sum) => sum,
            Err(e) => return Err(e),
        };
        proof {
            reveal_strlit("#");
        }
        desc.append("#");
        desc.append(checksum.as_str());
        assert(desc@ =~= with_checksum(self.text(), checksum@));
        Ok(desc)
    }
}

} // verus!
