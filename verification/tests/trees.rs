use std::cmp::Ordering;
use std::sync::Arc;
use taproot_descriptor::{
    AnalysisError, Error, Miniscript, NoExt, Policy, ScriptTranslator, TapTree, Tr, Translator,
};

fn script<Ext>(text: &str, policy: Policy<String>) -> Miniscript<String, Ext> {
    Miniscript {
        text: text.to_string(),
        script: text.as_bytes().to_vec(),
        max_witness_elements: Some(1),
        max_witness_size: Some(66),
        sanity: Ok(()),
        keys: vec![],
        policy: Ok(policy),
        extensions: vec![],
    }
}

fn leaf(text: &str) -> TapTree<String, NoExt> {
    TapTree::Leaf(Arc::new(script(text, Policy::KeyHash(text.to_string()))))
}

fn lifting(policy: Policy<String>) -> TapTree<String, NoExt> {
    TapTree::Leaf(Arc::new(script("x", policy)))
}

fn node(l: TapTree<String, NoExt>, r: TapTree<String, NoExt>) -> TapTree<String, NoExt> {
    TapTree::Tree(Arc::new(l), Arc::new(r))
}

fn descriptor(key: &str, tree: TapTree<String, NoExt>) -> Tr<String, NoExt> {
    Tr::new(key.to_string(), Some(tree)).ok().unwrap()
}

fn show(policy: &Policy<String>) -> String {
    match policy {
        Policy::Unsatisfiable => "never".to_string(),
        Policy::Trivial => "always".to_string(),
        Policy::KeyHash(h) => h.clone(),
        Policy::After(n) => format!("after({})", n),
        Policy::Older(n) => format!("older({})", n),
        Policy::Sha256(h) => format!("sha256({})", h[0]),
        Policy::Hash256(h) => format!("hash256({})", h[0]),
        Policy::Ripemd160(h) => format!("ripemd160({})", h[0]),
        Policy::Hash160(h) => format!("hash160({})", h[0]),
        Policy::Threshold(k, subs) => {
            let subs: Vec<String> = subs.iter().map(show).collect();
            format!("{}of({})", k, subs.join(","))
        }
    }
}

fn key(name: &str) -> Policy<String> {
    Policy::KeyHash(name.to_string())
}

/// Whether a policy holds for the keys with these names.
fn holds(policy: &Policy<String>, names: &str) -> bool {
    match policy {
        Policy::Trivial => true,
        Policy::KeyHash(h) => names.contains(h.as_str()),
        Policy::Threshold(k, subs) => subs.iter().filter(|p| holds(p, names)).count() >= *k,
        _ => false,
    }
}

#[test]
fn normal_forms_of_policies() {
    let and = |subs: Vec<Policy<String>>| Policy::Threshold(subs.len(), subs);
    let or = |subs: Vec<Policy<String>>| Policy::Threshold(1, subs);
    let cases = vec![
        (or(vec![key("a"), or(vec![key("b"), key("c")])]), "1of(a,b,c)"),
        (and(vec![and(vec![key("a"), key("b")]), key("c")]), "3of(a,b,c)"),
        (or(vec![key("a"), and(vec![key("b"), key("c")])]), "1of(a,2of(b,c))"),
        (and(vec![key("a"), Policy::Trivial]), "a"),
        (or(vec![key("a"), Policy::Trivial]), "always"),
        (or(vec![key("a"), Policy::Unsatisfiable]), "a"),
        (and(vec![key("a"), Policy::Unsatisfiable]), "never"),
        (Policy::Threshold(0, vec![key("a")]), "always"),
        (Policy::Threshold(1, vec![]), "never"),
        (Policy::Threshold(2, vec![key("a"), key("b"), Policy::Trivial]), "1of(a,b)"),
        (
            Policy::Threshold(2, vec![key("a"), key("b"), key("c"), Policy::Unsatisfiable]),
            "2of(a,b,c)",
        ),
        (
            Policy::Threshold(2, vec![key("a"), or(vec![key("b"), key("c")]), key("d")]),
            "2of(a,1of(b,c),d)",
        ),
        (or(vec![or(vec![key("a"), key("b")])]), "1of(a,b)"),
    ];
    for (policy, expected) in cases {
        let before = policy.clone();
        let normal = policy.normalized();
        assert_eq!(show(&normal), expected);
        assert_eq!(show(&normal.clone().normalized()), expected);
        for names in ["", "a", "b", "c", "d", "ab", "bc", "ad", "abc", "abcd"] {
            assert_eq!(holds(&before, names), holds(&normal, names), "{} {}", expected, names);
        }
    }
}

#[test]
fn atomic_policies_are_normal() {
    for (policy, expected) in [
        (Policy::After(5), "after(5)"),
        (Policy::Older(6), "older(6)"),
        (Policy::Sha256([1; 32]), "sha256(1)"),
        (Policy::Hash256([2; 32]), "hash256(2)"),
        (Policy::Ripemd160([3; 20]), "ripemd160(3)"),
        (Policy::Hash160([4; 20]), "hash160(4)"),
        (Policy::Trivial, "always"),
        (Policy::Unsatisfiable, "never"),
    ] {
        assert_eq!(show(&policy.clone()), expected);
        assert_eq!(show(&policy.normalized()), expected);
    }
}

#[test]
fn lifting_descriptors() {
    let key_only = Tr::<String, NoExt>::new("k".to_string(), None).ok().unwrap();
    assert_eq!(show(&key_only.lift().ok().unwrap()), "k");
    let one = descriptor("k", leaf("a"));
    assert_eq!(show(&one.lift().ok().unwrap()), "1of(k,a)");
    let three = node(leaf("a"), node(leaf("b"), leaf("c")));
    assert_eq!(show(&three.lift().ok().unwrap()), "1of(a,b,c)");
    assert_eq!(show(&descriptor("k", three).lift().ok().unwrap()), "1of(k,1of(a,b,c))");
    let dead = node(leaf("a"), lifting(Policy::Unsatisfiable));
    assert_eq!(show(&dead.lift().ok().unwrap()), "a");
    let open = node(leaf("a"), lifting(Policy::Trivial));
    assert_eq!(show(&descriptor("k", open).lift().ok().unwrap()), "1of(k,always)");
}

#[test]
fn first_script_without_a_policy_decides() {
    let failing = |message: &str| {
        let mut ms = script(message, Policy::Trivial);
        ms.policy = Err(Error::BadDescriptor(message.to_string()));
        TapTree::Leaf(Arc::new(ms))
    };
    let tree = node(leaf("a"), node(failing("first"), failing("second")));
    assert_eq!(
        descriptor("k", tree).lift().err().unwrap(),
        Error::BadDescriptor("first".to_string())
    );
}

#[test]
fn heights_and_texts_of_trees() {
    let tree = node(leaf("a"), node(leaf("b"), leaf("c")));
    assert_eq!(tree.taptree_height(), 2);
    assert_eq!(leaf("a").taptree_height(), 0);
    assert_eq!(tree.to_string(), "{a,{b,c}}");
    assert_eq!(tree.clone().to_string(), "{a,{b,c}}");
    let mut walk = tree.iter();
    assert_eq!(walk.next().map(|(d, ms)| (d, ms.text.clone())), Some((1, "a".to_string())));
}

#[test]
fn trees_that_are_too_high() {
    let mut tree = leaf("x");
    for _ in 0..128 {
        tree = node(leaf("x"), tree);
    }
    assert!(Tr::new("k".to_string(), Some(tree.clone())).is_ok());
    let too_high = node(leaf("x"), tree);
    assert_eq!(
        Tr::new("k".to_string(), Some(too_high)).err().unwrap(),
        Error::MaxRecursiveDepthExceeded
    );
}

#[test]
fn equality_and_order() {
    let small = descriptor("k", node(leaf("a"), leaf("b")));
    let large = descriptor("k", node(leaf("a"), leaf("c")));
    let single = descriptor("k", leaf("a"));
    let bare = Tr::<String, NoExt>::new("k".to_string(), None).ok().unwrap();
    let other = Tr::<String, NoExt>::new("j".to_string(), None).ok().unwrap();
    assert!(small == descriptor("k", node(leaf("a"), leaf("b"))));
    assert!(small != large);
    assert!(small != single);
    assert!(single != bare);
    assert!(bare != other);
    // Descriptors are ordered by their keys, then by their trees: no tree, branches, scripts.
    let ordered = [&other, &bare, &small, &large, &single];
    for (i, a) in ordered.iter().enumerate() {
        for (j, b) in ordered.iter().enumerate() {
            assert_eq!(a.cmp(b), i.cmp(&j));
            assert_eq!(a.partial_cmp(b), Some(i.cmp(&j)));
        }
    }
    assert_eq!(leaf("ab").cmp(&leaf("abc")), Ordering::Less);
    assert_eq!(leaf("b").cmp(&leaf("abc")), Ordering::Greater);
    assert!(leaf("a") < leaf("b"));
    // Scripts that are written alike but encoded differently are not equal.
    let mut encoded = script("a", Policy::Trivial);
    encoded.script = vec![0xff];
    let encoded = TapTree::Leaf(Arc::new(encoded));
    assert!(leaf("a") != encoded);
    assert!(leaf("a") < encoded);
}

#[test]
fn equal_descriptors_hash_alike() {
    let tr = || descriptor("k", node(leaf("a"), leaf("b")));
    assert!(tr() == tr());
    assert_eq!(tr().to_hash_bytes(), [b'k', 0, 1, b'a', 1, b'b']);
    assert_eq!(tr().to_hash_bytes(), tr().clone().to_hash_bytes());
    let bare = Tr::<String, NoExt>::new("k".to_string(), None).ok().unwrap();
    assert_eq!(bare.to_hash_bytes(), [b'k']);
    assert_eq!(leaf("a").to_hash_bytes(), [1, b'a']);
}

#[test]
fn clones_are_equal() {
    let tr = descriptor("k", node(leaf("a"), leaf("b")));
    let clone = tr.clone();
    assert!(clone == tr);
    assert_eq!(clone.to_string().ok(), tr.to_string().ok());
}

#[test]
fn first_unsafe_script_decides() {
    let unsafe_leaf = |e| {
        let mut ms = script("x", Policy::Trivial);
        ms.sanity = Err(e);
        TapTree::Leaf(Arc::new(ms))
    };
    assert_eq!(descriptor("k", leaf("a")).sanity_check(), Ok(()));
    let tree = node(
        leaf("a"),
        node(unsafe_leaf(AnalysisError::Malleable), unsafe_leaf(AnalysisError::SiglessBranch)),
    );
    assert_eq!(
        descriptor("k", tree).sanity_check(),
        Err(Error::AnalysisError(AnalysisError::Malleable))
    );
    assert_eq!(
        Tr::<String, NoExt>::new("k".to_string(), None).ok().unwrap().sanity_check(),
        Ok(())
    );
}

/// Numbers keys and scripts in the order in which they are translated, and fails at a limit.
struct Numbering {
    next: u32,
    limit: u32,
}

impl Numbering {
    fn number(&mut self, name: &str) -> Result<String, String> {
        if self.next >= self.limit {
            return Err(format!("limit at {}", name));
        }
        self.next += 1;
        Ok(format!("{}{}", name, self.next))
    }
}

impl<PExt, QExt> ScriptTranslator<String, PExt, String, QExt, String> for Numbering {
    fn script_step(
        _: Self,
        _: Miniscript<String, PExt>,
        _: Self,
        _: Result<Miniscript<String, QExt>, String>,
    ) -> bool {
        unreachable!("only contracts speak of it")
    }

    fn script(
        &mut self,
        ms: &Miniscript<String, PExt>,
    ) -> Result<Miniscript<String, QExt>, String> {
        let text = self.number(&ms.text)?;
        Ok(script(&text, Policy::Trivial))
    }
}

impl Translator<String, String, NoExt, String> for Numbering {
    fn pk_step(_: Self, _: String, _: Self, _: Result<String, String>) -> bool {
        unreachable!("only contracts speak of it")
    }

    fn pk(&mut self, pk: &String) -> Result<String, String> {
        self.number(pk)
    }
}

#[test]
fn translating_keys() {
    let tr = descriptor("k", node(node(leaf("a"), leaf("b")), leaf("c")));
    let mut all = Numbering { next: 0, limit: 9 };
    let out: Tr<String, NoExt> = tr.translate_pk(&mut all).ok().unwrap();
    assert_eq!(out.to_string_no_checksum(), "eltr(k1,{{a2,b3},c4})");
    assert_eq!(all.next, 4);
    for (limit, message) in [(0, "limit at k"), (1, "limit at a"), (3, "limit at c")] {
        let mut some = Numbering { next: 0, limit };
        let out: Result<Tr<String, NoExt>, String> = tr.translate_pk(&mut some);
        assert_eq!(out.err().unwrap(), message);
        assert_eq!(some.next, limit);
    }
    let bare = Tr::<String, NoExt>::new("k".to_string(), None).ok().unwrap();
    let mut all = Numbering { next: 0, limit: 9 };
    let out: Tr<String, NoExt> = bare.translate_pk(&mut all).ok().unwrap();
    assert_eq!(out.to_string_no_checksum(), "eltr(k1)");
}

#[test]
fn translating_extensions() {
    let tr = descriptor("k", node(leaf("a"), leaf("b")));
    let mut all = Numbering { next: 0, limit: 9 };
    let out: Tr<String, u8> = tr.translate_ext(&mut all).ok().unwrap();
    assert_eq!(out.to_string_no_checksum(), "eltr(k,{a1,b2})");
    let mut some = Numbering { next: 0, limit: 1 };
    let out: Result<Tr<String, u8>, String> = tr.translate_ext(&mut some);
    assert_eq!(out.err().unwrap(), "limit at b");
    let bare = Tr::<String, NoExt>::new("k".to_string(), None).ok().unwrap();
    let out: Tr<String, u8> = bare.translate_ext(&mut some).ok().unwrap();
    assert_eq!(out.to_string_no_checksum(), "eltr(k)");
}

/// Leaves everything as it is.
struct Identity;

impl ScriptTranslator<String, NoExt, String, NoExt, String> for Identity {
    fn script_step(
        _: Self,
        _: Miniscript<String, NoExt>,
        _: Self,
        _: Result<Miniscript<String, NoExt>, String>,
    ) -> bool {
        unreachable!("only contracts speak of it")
    }

    fn script(
        &mut self,
        ms: &Miniscript<String, NoExt>,
    ) -> Result<Miniscript<String, NoExt>, String> {
        Ok(script(&ms.text, key(&ms.text)))
    }
}

impl Translator<String, String, NoExt, String> for Identity {
    fn pk_step(_: Self, _: String, _: Self, _: Result<String, String>) -> bool {
        unreachable!("only contracts speak of it")
    }

    fn pk(&mut self, pk: &String) -> Result<String, String> {
        Ok(pk.clone())
    }
}

#[test]
fn identity_translation_changes_nothing() {
    let tr = descriptor("k", node(node(leaf("a"), leaf("b")), leaf("c")));
    let out: Tr<String, NoExt> = tr.translate_pk(&mut Identity).ok().unwrap();
    assert!(out == tr);
}

#[test]
fn lifted_policy_holds_if_key_or_script_does() {
    let both = Policy::Threshold(2, vec![key("b"), key("c")]);
    let tr = descriptor("k", node(leaf("a"), node(lifting(both), leaf("d"))));
    let policy = tr.lift().ok().unwrap();
    assert_eq!(show(&policy), "1of(k,1of(a,2of(b,c),d))");
    for (names, expected) in [
        ("", false),
        ("k", true),
        ("a", true),
        ("b", false),
        ("c", false),
        ("bc", true),
        ("d", true),
    ] {
        assert_eq!(holds(&policy, names), expected, "{}", names);
    }
}

#[test]
fn walks_tell_trees_apart() {
    let walk = |tree: &TapTree<String, NoExt>| {
        let mut all = Vec::new();
        let mut scripts = tree.iter();
        while let Some((depth, ms)) = scripts.next() {
            all.push((depth, ms.text.clone()));
        }
        all
    };
    let left = node(node(leaf("a"), leaf("b")), leaf("c"));
    let right = node(leaf("a"), node(leaf("b"), leaf("c")));
    assert_ne!(walk(&left), walk(&right));
    assert!(left != right);
    assert_eq!(walk(&left), walk(&left.clone()));
}
