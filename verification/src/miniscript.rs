//! Keys, and the scripts at the leaves of a taproot tree.

use crate::descriptor::text::{lemma_same_bytes, str_eq};
use crate::error::{AnalysisError, Error};
use crate::order::{
    bytes_order, compare_bytes, compare_text, lemma_bytes_order, reversed, text_order,
};
use crate::policy::Policy;
use crate::taproot::{hash160, hash160_of, serialize_x_only, x_only_bytes};
use crate::util::{copy_bytes, hex, hex_text};
use elements::secp256k1_zkp::XOnlyPublicKey;
use elements::SchnorrSig;
use std::cmp::Ordering;
use vstd::prelude::*;
use vstd::string::StringSliceAdditionalSpecFns;
use vstd::utf8::encode_utf8;

verus! {

/// A public key, of whatever kind, as it occurs in descriptors.
pub trait MiniscriptKey: Clone {
    /// What stands for the hash of the key.
    type Hash: Clone;

    /// The text that the key is written as.
    spec fn text(&self) -> Seq<char>;

    /// The hash of the key.
    spec fn pubkeyhash(&self) -> Self::Hash;

    /// The x-only form of the key in bytes, where it has one.
    spec fn x_only(&self) -> Seq<u8>;

    /// Whether the key is equal to another.
    spec fn same(&self, other: &Self) -> bool;

    /// Whether the key comes before another, behind it, or neither.
    spec fn order(&self, other: &Self) -> Ordering;

    /// What of the key goes into a hash table's hash.
    spec fn hash_bytes(&self) -> Seq<u8>;

    /// The order of keys is total and agrees with their equality, and equal keys have the same
    /// x-only form and are hashed alike.
    proof fn lemma_order(a: &Self, b: &Self, c: &Self)
        ensures
            a.order(b) == Ordering::Equal <==> a.same(b),
            b.order(a) == reversed(a.order(b)),
            a.order(b) == Ordering::Less && b.order(c) == Ordering::Less ==> a.order(c)
                == Ordering::Less,
            a.same(b) ==> a.order(c) == b.order(c),
            a.same(b) ==> a.hash_bytes() == b.hash_bytes() && a.x_only() == b.x_only(),
    ;

    /// A clone of a key is that key.
    proof fn lemma_clone(a: Self, b: Self)
        requires
            cloned(a, b),
        ensures
            a == b,
    ;

    /// A clone of the hash of a key is that hash.
    proof fn lemma_hash_clone(a: Self::Hash, b: Self::Hash)
        requires
            cloned(a, b),
        ensures
            a == b,
    ;

    /// Writes the key as text.
    fn to_text(&self) -> (r: String)
        ensures
            r@ == self.text(),
    ;

    /// Tells whether the key is equal to another.
    fn is_same(&self, other: &Self) -> (r: bool)
        ensures
            r == self.same(other),
    ;

    /// Compares the key with another.
    fn compare(&self, other: &Self) -> (r: Ordering)
        ensures
            r == self.order(other),
    ;

    /// Gives what of the key goes into a hash table's hash.
    fn to_hash_bytes(&self) -> (r: Vec<u8>)
        ensures
            r@ == self.hash_bytes(),
    ;

    /// Computes the hash of the key.
    fn to_pubkeyhash(&self) -> (r: Self::Hash)
        ensures
            r == self.pubkeyhash(),
    ;
}

/// A key that has an x-only form.
pub trait ToPublicKey: MiniscriptKey {
    /// Converts the key to its x-only form.
    fn to_x_only_pubkey(&self) -> (r: XOnlyPublicKey)
        ensures
            x_only_bytes(r) == self.x_only(),
    ;
}

/// A string stands for a key by name.
impl MiniscriptKey for String {
    type Hash = String;

    open spec fn text(&self) -> Seq<char> {
        self@
    }

    open spec fn pubkeyhash(&self) -> String {
        *self
    }

    open spec fn x_only(&self) -> Seq<u8> {
        Seq::empty()
    }

    open spec fn same(&self, other: &String) -> bool {
        self@ == other@
    }

    open spec fn order(&self, other: &String) -> Ordering {
        text_order(self@, other@)
    }

    open spec fn hash_bytes(&self) -> Seq<u8> {
        encode_utf8(self@)
    }

    proof fn lemma_order(a: &String, b: &String, c: &String) {
        lemma_bytes_order(encode_utf8(a@), encode_utf8(b@), encode_utf8(c@));
        if encode_utf8(a@) == encode_utf8(b@) {
            lemma_same_bytes(a@, b@);
        }
    }

    proof fn lemma_clone(a: String, b: String) {
    }

    proof fn lemma_hash_clone(a: String, b: String) {
    }

    fn to_text(&self) -> (r: String) {
        self.clone()
    }

    fn is_same(&self, other: &String) -> (r: bool) {
        str_eq(self.as_str(), other.as_str())
    }

    fn compare(&self, other: &String) -> (r: Ordering) {
        compare_text(self.as_str(), other.as_str())
    }

    fn to_hash_bytes(&self) -> (r: Vec<u8>) {
        copy_bytes(self.as_str().as_bytes())
    }

    fn to_pubkeyhash(&self) -> (r: String) {
        self.clone()
    }
}

/// A single x-only key as the key of a descriptor.
pub struct XOnlyKey {
    /// The key.
    pub key: XOnlyPublicKey,
}

impl XOnlyKey {
    /// The 32 bytes of the key.
    pub open spec fn bytes(&self) -> Seq<u8> {
        x_only_bytes(self.key)
    }
}

impl Clone for XOnlyKey {
    fn clone(&self) -> (r: Self)
        ensures
            r == *self,
    {
        XOnlyKey { key: self.key.clone() }
    }
}

/// The key is written in hexadecimal digits, compared by its 32 bytes and hashed by HASH160.
impl MiniscriptKey for XOnlyKey {
    type Hash = [u8; 20];

    open spec fn text(&self) -> Seq<char> {
        hex_text(self.bytes())
    }

    open spec fn pubkeyhash(&self) -> [u8; 20] {
        hash160_of(self.bytes())
    }

    open spec fn x_only(&self) -> Seq<u8> {
        self.bytes()
    }

    open spec fn same(&self, other: &XOnlyKey) -> bool {
        self.bytes() == other.bytes()
    }

    open spec fn order(&self, other: &XOnlyKey) -> Ordering {
        bytes_order(self.bytes(), other.bytes())
    }

    open spec fn hash_bytes(&self) -> Seq<u8> {
        self.bytes()
    }

    proof fn lemma_order(a: &XOnlyKey, b: &XOnlyKey, c: &XOnlyKey) {
        lemma_bytes_order(a.bytes(), b.bytes(), c.bytes());
    }

    proof fn lemma_clone(a: XOnlyKey, b: XOnlyKey) {
    }

    proof fn lemma_hash_clone(a: [u8; 20], b: [u8; 20]) {
        assert(a@ =~= b@);
        assert(a =~= b);
    }

    fn to_text(&self) -> (r: String) {
        let bytes = serialize_x_only(&self.key);
        hex(&bytes)
    }

    fn is_same(&self, other: &XOnlyKey) -> (r: bool) {
        proof {
            Self::lemma_order(self, other, other);
        }
        match self.compare(other) {
            Ordering::Equal => true,
            _ => false,
        }
    }

    fn compare(&self, other: &XOnlyKey) -> (r: Ordering) {
        let a = serialize_x_only(&self.key);
        let b = serialize_x_only(&other.key);
        compare_bytes(&a, &b)
    }

    fn to_hash_bytes(&self) -> (r: Vec<u8>) {
        let bytes = serialize_x_only(&self.key);
        copy_bytes(&bytes)
    }

    fn to_pubkeyhash(&self) -> (r: [u8; 20]) {
        let bytes = serialize_x_only(&self.key);
        hash160(&bytes)
    }
}

impl ToPublicKey for XOnlyKey {
    fn to_x_only_pubkey(&self) -> (r: XOnlyPublicKey) {
        self.key.clone()
    }
}

/// A key, or the hash of one, that a script mentions.
pub enum ScriptKey<Pk: MiniscriptKey> {
    /// A key.
    Key(Pk),
    /// The hash of a key.
    Hash(Pk::Hash),
}

/// A reference to a key or to the hash of one.
pub enum ForEach<'a, Pk: MiniscriptKey> {
    /// A key.
    Key(&'a Pk),
    /// The hash of a key.
    Hash(&'a Pk::Hash),
}

/// The extension of scripts that use none.
pub struct NoExt;

/// What a descriptor knows of one of its scripts.
pub struct Miniscript<Pk: MiniscriptKey, Ext = NoExt> {
    /// The expression that the script is written as.
    pub text: String,
    /// The bytes that the script is encoded as.
    pub script: Vec<u8>,
    /// The largest number of witness elements that can be needed, unless no witness exists.
    pub max_witness_elements: Option<usize>,
    /// The largest total size of those witness elements, unless no witness exists. Each element
    /// counts with the integer that tells its length.
    pub max_witness_size: Option<usize>,
    /// Whether the script is safe to use.
    pub sanity: Result<(), AnalysisError>,
    /// The keys that the script mentions, in order.
    pub keys: Vec<ScriptKey<Pk>>,
    /// The policy that the script implements, where it can be lifted to one.
    pub policy: Result<Policy<Pk>, Error>,
    /// The extension fragments that the script uses.
    pub extensions: Vec<Ext>,
}

/// What is known for spending.
pub trait Satisfier<Pk: MiniscriptKey, Ext> {
    /// The signature with the output key, if it is known.
    spec fn key_spend_sig(&self) -> Option<SchnorrSig>;

    /// Whether the satisfier may give this witness for a script, or none. With `allow_mall` a
    /// third party may be able to change it.
    spec fn gives(
        &self,
        ms: Miniscript<Pk, Ext>,
        allow_mall: bool,
        wit: Option<Vec<Vec<u8>>>,
    ) -> bool;

    /// Looks up the signature with the output key.
    fn lookup_tap_key_spend_sig(&self) -> (r: Option<SchnorrSig>)
        ensures
            r == self.key_spend_sig(),
    ;

    /// Makes a witness for a script that no third party can change.
    fn satisfy(&self, ms: &Miniscript<Pk, Ext>) -> (r: Option<Vec<Vec<u8>>>)
        ensures
            self.gives(*ms, false, r),
    ;

    /// Makes a witness for a script.
    fn satisfy_malleable(&self, ms: &Miniscript<Pk, Ext>) -> (r: Option<Vec<Vec<u8>>>)
        ensures
            self.gives(*ms, true, r),
    ;
}

/// A translation of scripts. It may change the translator, so that its state counts too.
pub trait ScriptTranslator<P: MiniscriptKey, PExt, Q: MiniscriptKey, QExt, E>: Sized {
    /// Whether the translator in state `pre` may make `r` of a script and be in state `post` then.
    spec fn script_step(
        pre: Self,
        ms: Miniscript<P, PExt>,
        post: Self,
        r: Result<Miniscript<Q, QExt>, E>,
    ) -> bool;

    /// Translates a script.
    fn script(&mut self, ms: &Miniscript<P, PExt>) -> (r: Result<Miniscript<Q, QExt>, E>)
        ensures
            Self::script_step(*old(self), *ms, *final(self), r),
    ;
}

/// A translation of keys, and of scripts with them.
pub trait Translator<P: MiniscriptKey, Q: MiniscriptKey, Ext, E>: ScriptTranslator<
    P,
    Ext,
    Q,
    Ext,
    E,
> {
    /// Whether the translator in state `pre` may make `r` of a key and be in state `post` then.
    spec fn pk_step(pre: Self, pk: P, post: Self, r: Result<Q, E>) -> bool;

    /// Translates a key.
    fn pk(&mut self, pk: &P) -> (r: Result<Q, E>)
        ensures
            Self::pk_step(*old(self), *pk, *final(self), r),
    ;
}

} // verus!
