use taproot_descriptor::descriptor::checksum::{desc_checksum, verify_checksum};
use taproot_descriptor::descriptor::parse::{parse_tr_tree, split_once};
use taproot_descriptor::expression::{terminal, Tree};
use taproot_descriptor::{Error, ForEach, Miniscript, NoExt, Policy, ScriptKey, TapTree, Tr};

/// The keys of all `multi_a` fragments of a script.
fn multi_keys(text: &str) -> Vec<ScriptKey<String>> {
    let mut keys = Vec::new();
    for piece in text.split("multi_a(").skip(1) {
        let args = piece.split(')').next().unwrap();
        for key in args.split(',').skip(1) {
            keys.push(ScriptKey::Key(key.to_string()));
        }
    }
    keys
}

fn script(text: &str) -> Miniscript<String, NoExt> {
    Miniscript {
        text: text.to_string(),
        script: text.as_bytes().to_vec(),
        max_witness_elements: Some(1),
        max_witness_size: Some(66),
        sanity: Ok(()),
        keys: multi_keys(text),
        policy: Ok(Policy::Trivial),
        extensions: vec![],
    }
}

fn parse_script(text: &str) -> Result<Miniscript<String, NoExt>, Error> {
    if text.starts_with("bad") {
        Err(Error::BadDescriptor(text.to_string()))
    } else {
        Ok(script(text))
    }
}

fn parse_key(text: &str) -> Result<String, String> {
    if text.is_empty() {
        Err("empty key".to_string())
    } else {
        Ok(text.to_string())
    }
}

fn read(text: &str) -> Result<Tr<String, NoExt>, Error> {
    Tr::from_str(text, &parse_key, &parse_script)
}

fn read_err(text: &str) -> Error {
    match read(text) {
        Ok(_) => panic!("{} was read", text),
        Err(e) => e,
    }
}

fn texts(tr: &Tr<String, NoExt>) -> Vec<(usize, String)> {
    let mut all = Vec::new();
    let mut scripts = tr.iter_scripts();
    while let Some((depth, ms)) = scripts.next() {
        all.push((depth, ms.text.clone()));
    }
    all
}

/// A chain of `n` branches, each with a script on the left.
fn chain(n: usize) -> String {
    let mut text = "x".to_string();
    for _ in 0..n {
        text = format!("{{x,{}}}", text);
    }
    text
}

#[test]
fn test_for_each() {
    let desc = "eltr(acc0, {
            multi_a(3, acc10, acc11, acc12), {
              and_v(
                v:multi_a(2, acc10, acc11, acc12),
                after(10)
              ),
              and_v(
                v:multi_a(1, acc10, acc11, ac12),
                after(100)
              )
            }
         })";
    let desc = desc.replace(&[' ', '\n'][..], "");
    let tr = read(&desc).ok().unwrap();
    // Note the last ac12 only has ac and fails the predicate
    assert!(!tr.for_each_key(|k| match k {
        ForEach::Key(k) => k.starts_with("acc"),
        ForEach::Hash(_h) => unreachable!(),
    }));
}

#[test]
fn for_each_key_asks_in_order_and_stops() {
    let tr = read("eltr(k,{multi_a(1,a,b),{multi_a(1,c),multi_a(1,d,e)}})").ok().unwrap();
    let mut asked = Vec::new();
    assert!(tr.for_each_key(|k| {
        if let ForEach::Key(k) = k {
            asked.push(k.clone());
        }
        true
    }));
    assert_eq!(asked, ["a", "b", "c", "d", "e", "k"]);
    let mut asked = Vec::new();
    assert!(!tr.for_each_key(|k| match k {
        ForEach::Key(k) => {
            asked.push(k.clone());
            k != "c"
        }
        ForEach::Hash(_) => true,
    }));
    assert_eq!(asked, ["a", "b", "c"]);
    assert!(!tr.for_each_key(|k| match k {
        ForEach::Key(k) => k != "k",
        ForEach::Hash(_) => true,
    }));
}

#[test]
fn for_each_key_hands_out_hashes() {
    let mut leaf = script("pkh");
    leaf.keys = vec![ScriptKey::Hash("h".to_string())];
    let tree = TapTree::Leaf(std::sync::Arc::new(leaf));
    let tr = Tr::new("k".to_string(), Some(tree)).ok().unwrap();
    let mut hashes = Vec::new();
    assert!(tr.for_each_key(|k| {
        if let ForEach::Hash(h) = k {
            hashes.push(h.clone());
        }
        true
    }));
    assert_eq!(hashes, ["h"]);
}

#[test]
fn key_only_descriptor() {
    let tr = read("eltr(acc0)").ok().unwrap();
    assert_eq!(tr.internal_key(), "acc0");
    assert!(tr.taptree().is_none());
    assert!(tr.iter_scripts().next().is_none());
    assert_eq!(tr.to_string_no_checksum(), "eltr(acc0)");
    assert_eq!(tr.to_string().ok().unwrap(), "eltr(acc0)#23epp5mn");
}

#[test]
fn tree_descriptor_and_walk() {
    let tr = read("eltr(acc0,{a,{b,c}})").ok().unwrap();
    assert_eq!(
        texts(&tr),
        [(1, "a".to_string()), (2, "b".to_string()), (2, "c".to_string())]
    );
    assert_eq!(tr.to_string().ok().unwrap(), "eltr(acc0,{a,{b,c}})#92yye8gu");
}

#[test]
fn walk_of_documented_example() {
    let tr = read("eltr(k,{{A,B},{C,{D,E}}})").ok().unwrap();
    assert_eq!(
        texts(&tr),
        [
            (2, "A".to_string()),
            (2, "B".to_string()),
            (2, "C".to_string()),
            (3, "D".to_string()),
            (3, "E".to_string())
        ]
    );
    let mut scripts = tr.iter_scripts();
    scripts.next();
    let mut copy = scripts.clone();
    assert_eq!(copy.next().unwrap().1.text, "B");
    assert_eq!(scripts.next().unwrap().1.text, "B");
}

#[test]
fn single_script_descriptor() {
    let tr = read("eltr(acc0,pk(a))#rlh5xd04").ok().unwrap();
    assert_eq!(texts(&tr), [(0, "pk(a)".to_string())]);
    assert_eq!(tr.to_string().ok().unwrap(), "eltr(acc0,pk(a))#rlh5xd04");
}

#[test]
fn what_is_written_is_read_again() {
    for text in [
        "eltr(k)",
        "eltr(k,s)",
        "eltr(k,{and_v(a,b),{multi_a(1,x,y),thresh(2,pk(a),s:pk(b))}})",
        "eltr([d34db33f/86h]xpub/0/*,{{a,b},c})",
    ] {
        let tr = read(text).ok().unwrap();
        assert_eq!(tr.to_string_no_checksum(), text);
        let written = tr.to_string().ok().unwrap();
        let again = read(&written).ok().unwrap();
        assert!(again == tr);
        assert_eq!(again.to_string().ok().unwrap(), written);
    }
}

#[test]
fn trailing_comma_belongs_to_the_key() {
    let tr = read("eltr(acc0,)").ok().unwrap();
    assert_eq!(tr.internal_key(), "acc0,");
    assert!(tr.taptree().is_none());
    assert_eq!(tr.to_string_no_checksum(), "eltr(acc0,)");
}

#[test]
fn nesting_up_to_the_limit() {
    let tr = read(&format!("eltr(k,{})", chain(128))).ok().unwrap();
    assert_eq!(tr.taptree().as_ref().unwrap().taptree_height(), 128);
    assert_eq!(texts(&tr).len(), 129);
    assert_eq!(
        read_err(&format!("eltr(k,{})", chain(129))),
        Error::MaxRecursiveDepthExceeded
    );
    // The key is looked at before the height of the tree, the tree before the key.
    assert_eq!(
        read_err(&format!("eltr(,{})", chain(129))),
        Error::Unexpected("empty key".to_string())
    );
    assert_eq!(read_err("eltr(,{bad,x})"), Error::BadDescriptor("bad".to_string()));
    // Expressions may be nested more deeply than trees, up to a limit of their own.
    assert!(parse_tr_tree(&format!("eltr(k,{})", chain(400))).is_ok());
    assert_eq!(
        parse_tr_tree(&format!("eltr(k,{})", chain(401))).err().unwrap(),
        Error::MaxRecursiveDepthExceeded
    );
    assert_eq!(
        parse_tr_tree(&format!("eltr(k,{})", "{".repeat(400))).err().unwrap(),
        Error::ExpectedChar('}')
    );
    assert_eq!(
        parse_tr_tree(&format!("eltr(k,{})", "{".repeat(401))).err().unwrap(),
        Error::MaxRecursiveDepthExceeded
    );
}

#[test]
fn texts_that_are_no_descriptors() {
    let invalid = Error::Unexpected("invalid taproot descriptor".to_string());
    for text in ["", "eltr(", "eltr", "tr(a)", "eltr(a", "eltra)", "eltr)"] {
        assert_eq!(read_err(text), invalid, "{}", text);
    }
    assert_eq!(read_err("eltr()"), Error::Unexpected("empty key".to_string()));
    assert_eq!(read_err("eltr(a,x}y)"), Error::Unexpected("}y".to_string()));
    assert_eq!(read_err("eltr(a,x,y)"), Error::Unexpected(",y".to_string()));
    assert_eq!(read_err("eltr(a,{x,y)"), Error::ExpectedChar('}'));
    assert_eq!(read_err("eltr(a,{x,)"), Error::ExpectedChar('}'));
    assert_eq!(read_err("eltr(a,{)"), Error::ExpectedChar('}'));
    assert_eq!(read_err("eltr(a,{x{y}z})"), Error::ExpectedChar('}'));
    let format = Error::Unexpected(
        "unknown format for script spending paths while parsing taproot descriptor".to_string(),
    );
    assert_eq!(read_err("eltr(a,{x,y,z})"), format);
    assert_eq!(read_err("eltr(a,{x})"), format);
    assert_eq!(read_err("eltr(a,x{y,z})"), format);
    assert_eq!(read_err("eltr(a,{x,})"), format);
    // The first script that cannot be read decides.
    assert_eq!(read_err("eltr(a,{bad1,bad2})"), Error::BadDescriptor("bad1".to_string()));
    assert_eq!(read_err("eltr(a,{x,{y,bad2}})"), Error::BadDescriptor("bad2".to_string()));
}

#[test]
fn bytes_that_cannot_be_printed() {
    assert_eq!(read_err("eltr(\u{e9})"), Error::Unprintable(0xc3));
    assert_eq!(read_err("eltr(\n)"), Error::Unprintable(10));
    assert_eq!(
        parse_tr_tree("eltr(a\u{20ac})").err().unwrap(),
        Error::Unprintable(0xe2)
    );
}

#[test]
fn expressions_that_are_no_descriptors() {
    let read_tree = |tree: &Tree<'_>| {
        Tr::<String, NoExt>::from_tree(tree, &parse_key, &parse_script).err().unwrap()
    };
    let bare = |name| Tree { name, args: vec![] };
    assert_eq!(
        read_tree(&Tree { name: "tr", args: vec![bare("a")] }),
        Error::Unexpected("tr[#1 args] while parsing taproot descriptor".to_string())
    );
    assert_eq!(
        read_tree(&bare("eltr")),
        Error::Unexpected("eltr[#0 args] while parsing taproot descriptor".to_string())
    );
    let many = (0..12).map(|_| bare("a")).collect();
    assert_eq!(
        read_tree(&Tree { name: "eltr", args: many }),
        Error::Unexpected("eltr[#12 args] while parsing taproot descriptor".to_string())
    );
    let key = || Tree { name: "k", args: vec![bare("a"), bare("b"), bare("c")] };
    let message = "#3 script associated with `key-path` while parsing taproot descriptor";
    assert_eq!(
        read_tree(&Tree { name: "eltr", args: vec![key()] }),
        Error::Unexpected(message.to_string())
    );
    assert_eq!(
        read_tree(&Tree { name: "eltr", args: vec![key(), bare("bad")] }),
        Error::Unexpected(message.to_string())
    );
}

#[test]
fn terminal_expressions() {
    let bare = |name| Tree { name, args: vec![] };
    assert_eq!(terminal(&bare("k"), &parse_key).ok().unwrap(), "k");
    assert_eq!(
        terminal(&bare(""), &parse_key).err().unwrap(),
        Error::Unexpected("empty key".to_string())
    );
    let nested = Tree { name: "k", args: vec![bare("a")] };
    assert_eq!(
        terminal(&nested, &parse_key).err().unwrap(),
        Error::Unexpected("k".to_string())
    );
}

#[test]
fn splitting_once() {
    assert_eq!(split_once("", ','), None);
    assert_eq!(split_once("ab", ','), Some(("ab", "")));
    assert_eq!(split_once("a,b", ','), Some(("a", "b")));
    assert_eq!(split_once("a,b,c", ','), Some(("a", "b,c")));
    assert_eq!(split_once(",b", ','), Some(("", "b")));
    assert_eq!(split_once("ab,", ','), Some(("ab,", "")));
    assert_eq!(split_once(",", ','), Some((",", "")));
    assert_eq!(split_once("a,,", ','), Some(("a", ",")));
    assert_eq!(split_once("\u{e9}a,bc", ','), Some(("\u{e9}a", "bc")));
    assert_eq!(split_once("\u{e9}\u{e9},", ','), Some(("\u{e9}\u{e9},", "")));
    assert_eq!(split_once("a\u{e9}b", '\u{e9}'), Some(("a", "b")));
}

#[test]
fn checksum_of_known_descriptors() {
    assert_eq!(desc_checksum("raw(deadbeef)").ok().unwrap(), "89f8spxm");
    assert_eq!(desc_checksum("").ok().unwrap(), "7h0w2xvg");
    assert_eq!(verify_checksum("raw(deadbeef)#89f8spxm").ok().unwrap(), "raw(deadbeef)");
    assert_eq!(verify_checksum("raw(deadbeef)").ok().unwrap(), "raw(deadbeef)");
}

#[test]
fn checksums_that_are_wrong() {
    for (text, found) in [
        ("raw(deadbeef)#", ""),
        ("raw(deadbeef)#89f8spxmx", "89f8spxmx"),
        ("raw(deadbeef)#89f8spx", "89f8spx"),
        ("raw(deadbeef)##9f8spxm", "#9f8spxm"),
    ] {
        assert_eq!(
            verify_checksum(text).err().unwrap(),
            Error::BadDescriptor(format!("Invalid checksum '{}', expected '89f8spxm'", found))
        );
    }
    assert!(verify_checksum("raw(deedbeef)#89f8spxm").is_err());
    assert!(read("eltr(acc1)#23epp5mn").is_err());
}

#[test]
fn characters_without_a_checksum() {
    assert_eq!(
        desc_checksum("a\u{e9}b").err().unwrap(),
        Error::BadDescriptor("Invalid character in checksum: '\u{e9}'".to_string())
    );
    let tr = Tr::<String, NoExt>::new("\u{e9}".to_string(), None).ok().unwrap();
    assert_eq!(
        tr.to_string().err().unwrap(),
        Error::BadDescriptor("Invalid character in checksum: '\u{e9}'".to_string())
    );
    assert_eq!(tr.to_string_no_checksum(), "eltr(\u{e9})");
}
