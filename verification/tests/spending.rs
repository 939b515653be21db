use elements::secp256k1_zkp::{Secp256k1, XOnlyPublicKey};
use elements::taproot::{LeafVersion, TaprootBuilder, TaprootSpendInfo};
use elements::{Address, AddressParams, SchnorrSig, Script};
use std::cmp::Ordering;
use std::str::FromStr;
use std::sync::Arc;
use taproot_descriptor::descriptor::spend::{best_tap_spend, choose_smallest, control_block_len};
use taproot_descriptor::util::{decimal, hex, varint_len, witness_size, WitnessSize};
use taproot_descriptor::{
    Error, Miniscript, MiniscriptKey, NoExt, Policy, Satisfier, TapTree, ToPublicKey, Tr, XOnlyKey,
};

const KEY: &str = "79be667ef9dcbbac55a06295ce870b07029bfcdb2dce28d959f2815b16f81798";

type Pk = XOnlyKey;

fn key() -> XOnlyPublicKey {
    XOnlyPublicKey::from_str(KEY).unwrap()
}

fn pk() -> Pk {
    XOnlyKey { key: key() }
}

fn script(name: &str, bytes: Vec<u8>) -> Miniscript<Pk, NoExt> {
    Miniscript {
        text: name.to_string(),
        script: bytes,
        max_witness_elements: Some(2),
        max_witness_size: Some(100),
        sanity: Ok(()),
        keys: vec![],
        policy: Ok(Policy::Trivial),
        extensions: vec![],
    }
}

fn leaf(ms: Miniscript<Pk, NoExt>) -> TapTree<Pk, NoExt> {
    TapTree::Leaf(Arc::new(ms))
}

fn node(l: TapTree<Pk, NoExt>, r: TapTree<Pk, NoExt>) -> TapTree<Pk, NoExt> {
    TapTree::Tree(Arc::new(l), Arc::new(r))
}

fn descriptor(tree: Option<TapTree<Pk, NoExt>>) -> Tr<Pk, NoExt> {
    Tr::new(pk(), tree).ok().unwrap()
}

/// A leaf `a` at depth 1, and `b` and `c` at depth 2.
fn three() -> Tr<Pk, NoExt> {
    descriptor(Some(node(
        leaf(script("a", vec![0x51; 10])),
        node(leaf(script("b", vec![0x52; 20])), leaf(script("c", vec![0x53; 30]))),
    )))
}

fn three_direct() -> TaprootSpendInfo {
    TaprootBuilder::new()
        .add_leaf(1, Script::from(vec![0x51; 10]))
        .unwrap()
        .add_leaf(2, Script::from(vec![0x52; 20]))
        .unwrap()
        .add_leaf(2, Script::from(vec![0x53; 30]))
        .unwrap()
        .finalize(&Secp256k1::verification_only(), key())
        .unwrap()
}

/// Witnesses by the name of the script, those that a third party can change marked.
struct Known {
    sig: Option<SchnorrSig>,
    witnesses: Vec<(&'static str, bool, Vec<Vec<u8>>)>,
}

impl Known {
    fn find(&self, name: &str, allow_mall: bool) -> Option<Vec<Vec<u8>>> {
        self.witnesses
            .iter()
            .find(|(n, mall, _)| *n == name && (allow_mall || !mall))
            .map(|(_, _, w)| w.clone())
    }
}

impl Satisfier<Pk, NoExt> for Known {
    fn key_spend_sig(&self) -> Option<SchnorrSig> {
        unreachable!("only contracts speak of it")
    }

    fn gives(&self, _: Miniscript<Pk, NoExt>, _: bool, _: Option<Vec<Vec<u8>>>) -> bool {
        unreachable!("only contracts speak of it")
    }

    fn lookup_tap_key_spend_sig(&self) -> Option<SchnorrSig> {
        self.sig
    }

    fn satisfy(&self, ms: &Miniscript<Pk, NoExt>) -> Option<Vec<Vec<u8>>> {
        self.find(&ms.text, false)
    }

    fn satisfy_malleable(&self, ms: &Miniscript<Pk, NoExt>) -> Option<Vec<Vec<u8>>> {
        self.find(&ms.text, true)
    }
}

fn known(witnesses: Vec<(&'static str, bool, Vec<Vec<u8>>)>) -> Known {
    Known { sig: None, witnesses }
}

fn block(bytes: Vec<u8>) -> Vec<u8> {
    three_direct()
        .control_block(&(Script::from(bytes), LeafVersion::default()))
        .unwrap()
        .serialize()
}

#[test]
fn key_only_output() {
    let tr = descriptor(None);
    let direct = TaprootSpendInfo::new_key_spend(&Secp256k1::verification_only(), key(), None);
    assert_eq!(tr.spend_info().output_key(), direct.output_key());
    assert_ne!(tr.spend_info().output_key().into_inner(), key());
    assert!(tr.spend_info().as_script_map().is_empty());
    assert!(tr.spend_info().merkle_root().is_none());
    assert_eq!(tr.spend_info().internal_key(), key());
    assert_eq!(tr.spend_info().output_key_parity(), direct.output_key_parity());
    let program = direct.output_key().into_inner().serialize();
    let mut expected = vec![0x51, 0x20];
    expected.extend_from_slice(&program);
    assert_eq!(tr.script_pubkey().as_bytes(), &expected[..]);
}

#[test]
fn tree_output() {
    let tr = three();
    let direct = three_direct();
    let info = tr.spend_info();
    assert_eq!(info.output_key(), direct.output_key());
    assert_eq!(info.internal_key(), key());
    assert_eq!(info.as_script_map(), direct.as_script_map());
    assert_eq!(info.merkle_root(), direct.merkle_root());
    assert!(info.merkle_root().is_some());
    assert_eq!(info.output_key_parity(), direct.output_key_parity());
    let script_pubkey = tr.script_pubkey();
    assert_eq!(script_pubkey.len(), 34);
    assert!(script_pubkey.is_v1_p2tr());
    assert_eq!(&script_pubkey.as_bytes()[2..], &direct.output_key().into_inner().serialize()[..]);
}

#[test]
fn spending_data_are_kept() {
    let tr = three();
    let clone_before = tr.clone();
    let first = tr.spend_info();
    assert!(Arc::ptr_eq(&first, &tr.spend_info()));
    let clone_after = tr.clone();
    assert!(Arc::ptr_eq(&first, &clone_after.spend_info()));
    assert!(!Arc::ptr_eq(&first, &clone_before.spend_info()));
    assert_eq!(first.output_key(), clone_before.spend_info().output_key());
}

#[test]
fn highest_permitted_tree_has_an_output() {
    let mut tree = leaf(script("x", vec![0]));
    for n in 1..=128u8 {
        tree = node(leaf(script("x", vec![n])), tree);
    }
    let tr = descriptor(Some(tree));
    let info = tr.spend_info();
    let deepest = info.control_block(&(Script::from(vec![0]), LeafVersion::default())).unwrap();
    assert_eq!(deepest.serialize().len(), control_block_len(128));
    assert_eq!(control_block_len(128), 33 + 32 * 128);
}

#[test]
fn addresses() {
    let tr = three();
    let output_key = three_direct().output_key();
    let address = tr.address(None, &AddressParams::ELEMENTS);
    assert_eq!(address, Address::p2tr_tweaked(output_key, None, &AddressParams::ELEMENTS));
    assert_eq!(address.script_pubkey(), tr.script_pubkey());
    let blinder = elements::secp256k1_zkp::PublicKey::from_str(
        "0279be667ef9dcbbac55a06295ce870b07029bfcdb2dce28d959f2815b16f81798",
    )
    .unwrap();
    let blinded = tr.address(Some(blinder), &AddressParams::LIQUID);
    assert_eq!(blinded.blinding_pubkey, Some(blinder));
    assert_eq!(blinded, Address::p2tr_tweaked(output_key, Some(blinder), &AddressParams::LIQUID));
}

#[test]
fn key_spend_is_taken_unless_a_script_is_smaller() {
    let sig = SchnorrSig::from_slice(&[7; 64]).unwrap();
    // 1 + 1 + 64 bytes with the key, 1 + 11 + 66 through `a` with an empty witness.
    let mut satisfier = known(vec![("a", false, vec![])]);
    satisfier.sig = Some(sig);
    let (stack, script_sig) = three().get_satisfaction(satisfier).ok().unwrap();
    assert_eq!(stack, vec![vec![7; 64]]);
    assert!(script_sig.is_empty());
    // 1 + 2 + 34 bytes through a script of one byte at the root.
    let root = || descriptor(Some(leaf(script("s", vec![0x51]))));
    let mut satisfier = known(vec![("s", false, vec![])]);
    satisfier.sig = Some(sig);
    let (stack, _) = root().get_satisfaction(satisfier).ok().unwrap();
    assert_eq!(stack.len(), 2);
    assert_eq!(stack[0], vec![0x51]);
    assert_eq!(serialized(&stack), 37);
    // With 29 bytes more both are equally large, and the key is taken.
    for (extra, elements) in [(27, 3), (28, 1)] {
        let mut satisfier = known(vec![("s", false, vec![vec![1; extra]])]);
        satisfier.sig = Some(sig);
        let (stack, _) = root().get_satisfaction_mall(satisfier).ok().unwrap();
        assert_eq!(stack.len(), elements, "{}", extra);
    }
    let mut bytes = vec![7; 64];
    bytes.push(1);
    let mut satisfier = known(vec![]);
    satisfier.sig = Some(SchnorrSig::from_slice(&bytes).unwrap());
    let (stack, _) = descriptor(None).get_satisfaction(satisfier).ok().unwrap();
    assert_eq!(stack, vec![bytes]);
}

#[test]
fn lengths_of_elements_count() {
    let tr = descriptor(Some(node(
        leaf(script("a", vec![0x51; 10])),
        leaf(script("b", vec![0x52; 10])),
    )));
    // Four empty elements take four bytes, one element of one byte takes two.
    let satisfier = known(vec![("a", false, vec![vec![1]]), ("b", false, vec![vec![]; 4])]);
    let (stack, _) = tr.get_satisfaction(satisfier).ok().unwrap();
    assert_eq!(stack[0], vec![1]);
    assert_eq!(stack[1], vec![0x51; 10]);
}

#[test]
fn script_spend_is_the_smallest() {
    // 11 + 66 bytes for `a` and 21 + 98 for `b`, besides their witnesses.
    let small = vec![vec![1; 41]];
    let large = vec![vec![2; 84]];
    let satisfier = known(vec![("a", false, large.clone()), ("b", false, small.clone())]);
    let (stack, script_sig) = three().get_satisfaction(satisfier).ok().unwrap();
    assert_eq!(stack, vec![vec![1; 41], vec![0x52; 20], block(vec![0x52; 20])]);
    assert!(script_sig.is_empty());
    // Two bytes less for `a` make it smaller.
    let less = vec![vec![2; 82]];
    let satisfier = known(vec![("a", false, less), ("b", false, small)]);
    let (stack, _) = three().get_satisfaction(satisfier).ok().unwrap();
    assert_eq!(stack, vec![vec![2; 82], vec![0x51; 10], block(vec![0x51; 10])]);
}

#[test]
fn of_equally_small_scripts_the_last_is_taken() {
    let satisfier = known(vec![
        ("a", false, vec![vec![2; 83]]),
        ("b", false, vec![vec![1; 41]]),
        ("c", false, vec![vec![3; 31]]),
    ]);
    let (stack, _) = three().get_satisfaction(satisfier).ok().unwrap();
    assert_eq!(stack[0], vec![3; 31]);
    let satisfier = known(vec![("a", false, vec![vec![2; 83]]), ("b", false, vec![vec![1; 41]])]);
    let (stack, _) = three().get_satisfaction(satisfier).ok().unwrap();
    assert_eq!(stack[0], vec![1; 41]);
}

#[test]
fn malleable_witnesses_only_on_request() {
    let witnesses = || vec![("a", true, vec![]), ("b", false, vec![vec![1; 41]])];
    let (stack, _) = three().get_satisfaction(known(witnesses())).ok().unwrap();
    assert_eq!(stack[0], vec![1; 41]);
    let (stack, _) = three().get_satisfaction_mall(known(witnesses())).ok().unwrap();
    assert_eq!(stack, vec![vec![0x51; 10], block(vec![0x51; 10])]);
    let (stack, _) = best_tap_spend(&three(), known(witnesses()), true).ok().unwrap();
    assert_eq!(stack.len(), 2);
}

#[test]
fn nothing_to_spend_with() {
    assert_eq!(three().get_satisfaction(known(vec![])).err().unwrap(), Error::CouldNotSatisfy);
    assert_eq!(
        three().get_satisfaction(known(vec![("a", true, vec![])])).err().unwrap(),
        Error::CouldNotSatisfy
    );
    assert_eq!(
        descriptor(None).get_satisfaction_mall(known(vec![])).err().unwrap(),
        Error::CouldNotSatisfy
    );
}

#[test]
fn choosing_among_given_witnesses() {
    let tr = three();
    let stack = tr
        .smallest_spend(None, vec![None, None, Some(vec![vec![9]])])
        .ok()
        .unwrap();
    assert_eq!(stack, vec![vec![9], vec![0x53; 30], block(vec![0x53; 30])]);
    assert_eq!(
        tr.smallest_spend(None, vec![None, None, None]).err().unwrap(),
        Error::CouldNotSatisfy
    );
    let sig = SchnorrSig::from_slice(&[7; 64]).unwrap();
    let stack = tr.smallest_spend(Some(sig), vec![None, None, None]).ok().unwrap();
    assert_eq!(stack, vec![vec![7; 64]]);
}

#[test]
fn choosing_the_smallest_stack() {
    assert_eq!(choose_smallest(vec![]).err().unwrap(), Error::CouldNotSatisfy);
    assert_eq!(choose_smallest(vec![None]).err().unwrap(), Error::CouldNotSatisfy);
    let stacks = vec![
        Some(vec![vec![1; 3]]),
        None,
        Some(vec![vec![2; 2]]),
        Some(vec![vec![3; 2]]),
        Some(vec![vec![]; 4]),
    ];
    assert_eq!(choose_smallest(stacks).ok().unwrap(), vec![vec![3; 2]]);
}

#[test]
fn one_script_twice_has_the_shorter_control_block() {
    let twin = || script("a", vec![0x51; 10]);
    let tr = descriptor(Some(node(
        leaf(twin()),
        node(leaf(script("b", vec![0x52; 20])), leaf(twin())),
    )));
    let wits = vec![None, None, Some(vec![])];
    let stack = tr.smallest_spend(None, wits).ok().unwrap();
    assert_eq!(stack[0], vec![0x51; 10]);
    assert_eq!(stack[1].len(), control_block_len(1));
}

#[test]
fn weights() {
    // 4 + 1 + 1 + 65 with the key.
    assert_eq!(descriptor(None).max_satisfaction_weight().ok().unwrap(), 71);
    // 4 + 1 + 100 + (1 + 30) + (1 + 97) through `c`.
    assert_eq!(three().max_satisfaction_weight().ok().unwrap(), 234);
    let mut dead = script("d", vec![0x54; 300]);
    dead.max_witness_elements = None;
    let mut dead_too = script("e", vec![0x55; 300]);
    dead_too.max_witness_size = None;
    let tr = descriptor(Some(node(leaf(dead), leaf(dead_too))));
    assert_eq!(tr.max_satisfaction_weight().ok().unwrap(), 71);
    let mut large = script("f", vec![0x56; 300]);
    large.max_witness_elements = Some(251);
    large.max_witness_size = Some(1000);
    let tr = descriptor(Some(leaf(large)));
    assert_eq!(tr.max_satisfaction_weight().ok().unwrap(), 4 + 3 + 1000 + 3 + 300 + 1 + 33);
    let mut tiny = script("g", vec![]);
    tiny.max_witness_elements = Some(0);
    tiny.max_witness_size = Some(0);
    let tr = descriptor(Some(leaf(tiny)));
    assert_eq!(tr.max_satisfaction_weight().ok().unwrap(), 71);
    let mut empty = script("h", vec![]);
    empty.max_witness_elements = Some(1);
    let tr = descriptor(Some(leaf(empty)));
    assert_eq!(tr.max_satisfaction_weight().ok().unwrap(), 140);
}

#[test]
fn max_weight_bounds_a_spend() {
    let wit = vec![vec![1; 40], vec![2; 58]];
    let (stack, _) = three().get_satisfaction(known(vec![("c", false, wit)])).ok().unwrap();
    assert_eq!(4 + serialized(&stack), three().max_satisfaction_weight().ok().unwrap());
    let mut bytes = vec![7; 64];
    bytes.push(1);
    let mut satisfier = known(vec![]);
    satisfier.sig = Some(SchnorrSig::from_slice(&bytes).unwrap());
    let (stack, _) = descriptor(None).get_satisfaction(satisfier).ok().unwrap();
    assert_eq!(4 + serialized(&stack), descriptor(None).max_satisfaction_weight().ok().unwrap());
}

#[test]
fn x_only_keys_as_descriptor_keys() {
    assert_eq!(pk().to_text(), KEY);
    assert_eq!(pk().to_x_only_pubkey(), key());
    let digest = <elements::hashes::hash160::Hash as elements::hashes::Hash>::hash(
        &key().serialize(),
    );
    assert_eq!(pk().to_pubkeyhash(), elements::hashes::Hash::into_inner(digest));
    let expected = format!("eltr({})", KEY);
    assert_eq!(descriptor(None).to_string_no_checksum(), expected);
    let parse_key = |s: &str| match XOnlyPublicKey::from_str(s) {
        Ok(key) => Ok(XOnlyKey { key }),
        Err(e) => Err(e.to_string()),
    };
    let parse_script = |s: &str| Ok(script(s, s.as_bytes().to_vec()));
    let tr = Tr::from_str(&expected, &parse_key, &parse_script).ok().unwrap();
    assert!(tr == descriptor(None));
    assert!(Tr::from_str("eltr(00)", &parse_key, &parse_script).is_err());
    match descriptor(None).lift().ok().unwrap() {
        Policy::KeyHash(h) => assert_eq!(h, pk().to_pubkeyhash()),
        _ => panic!("no key hash"),
    }
}

#[test]
fn sizes_and_numbers() {
    for (n, len) in [
        (0, 1),
        (252, 1),
        (253, 3),
        (65535, 3),
        (65536, 5),
        (4294967295, 5),
        (4294967296, 9),
    ] {
        assert_eq!(varint_len(n), len, "{}", n);
    }
    let parts = |wit: Vec<Vec<u8>>| {
        let size = witness_size(&wit);
        (size.elements, size.integers)
    };
    assert_eq!(parts(vec![]), (0, 1));
    assert_eq!(parts(vec![vec![0; 3], vec![], vec![0; 253]]), (256, 6));
    let size = |elements, integers| WitnessSize { elements, integers };
    assert!(size(3, 1).exceeds(&size(1, 2)));
    assert!(!size(3, 1).exceeds(&size(1, 3)));
    assert!(!size(3, 1).exceeds(&size(1, 4)));
    assert!(size(1, 4).exceeds(&size(3, 1)));
    assert!(!size(1, 3).exceeds(&size(3, 1)));
    assert!(size(2, 2).exceeds(&size(2, 1)));
    assert!(size(u128::MAX, u128::MAX).exceeds(&size(u128::MAX, 9)));
    assert_eq!(decimal(0), "0");
    assert_eq!(decimal(907), "907");
    assert_eq!(hex(&[0x00, 0xa9, 0xff]), "00a9ff");
    assert_eq!(control_block_len(0), 33);
    assert_eq!(control_block_len(3), 129);
}

/// The size of a witness stack as it is serialised.
fn serialized(stack: &[Vec<u8>]) -> usize {
    let elements: usize = stack.iter().map(|e| varint_len(e.len()) + e.len()).sum();
    varint_len(stack.len()) + elements
}

#[test]
fn chosen_spend_is_the_smallest() {
    for (a, b, c) in [(10, 20, 30), (120, 20, 30), (120, 120, 1), (83, 41, 31)] {
        let wits = |a: usize, b: usize, c: usize| {
            vec![
                ("a", false, vec![vec![0; a]]),
                ("b", false, vec![vec![0; b]]),
                ("c", false, vec![vec![0; c]]),
            ]
        };
        let (stack, _) = three().get_satisfaction(known(wits(a, b, c))).ok().unwrap();
        for single in wits(a, b, c) {
            let (other, _) = three().get_satisfaction(known(vec![single])).ok().unwrap();
            assert!(serialized(&stack) <= serialized(&other));
        }
    }
}

#[test]
fn control_blocks_prove_their_scripts() {
    let info = three().spend_info();
    let secp = Secp256k1::verification_only();
    for bytes in [vec![0x51; 10], vec![0x52; 20], vec![0x53; 30]] {
        let script = Script::from(bytes);
        let block = info.control_block(&(script.clone(), LeafVersion::default())).unwrap();
        assert!(block.verify_taproot_commitment(&secp, &info.output_key(), &script));
    }
    let stranger = (Script::from(vec![0x54]), LeafVersion::default());
    assert!(info.control_block(&stranger).is_none());
}

#[test]
fn order_of_x_only_keys() {
    let other = XOnlyPublicKey::from_str(
        "c6047f9441ed7d6d3045406e95c07cd85c778e4b8cef3ca7abac09b95c709ee5",
    )
    .unwrap();
    let other = XOnlyKey { key: other };
    assert!(pk().is_same(&pk()));
    assert!(!pk().is_same(&other));
    assert_eq!(pk().compare(&other), Ordering::Less);
    assert_eq!(other.compare(&pk()), Ordering::Greater);
    assert_eq!(pk().compare(&pk()), Ordering::Equal);
    assert_eq!(pk().to_hash_bytes(), key().serialize().to_vec());
    let larger: Tr<Pk, NoExt> = Tr::new(other, None).ok().unwrap();
    assert!(three() < larger);
    assert!(three() == three());
    assert_eq!(three().to_hash_bytes(), three().to_hash_bytes());
    assert_ne!(three().to_hash_bytes(), larger.to_hash_bytes());
}

#[test]
fn spending_data_are_freed_with_the_descriptor() {
    let tr = three();
    let info = tr.spend_info();
    assert!(Arc::strong_count(&info) > 1);
    let clone = tr.clone();
    drop(tr);
    drop(clone);
    assert_eq!(Arc::strong_count(&info), 1);
    assert!(Arc::try_unwrap(info).is_ok());
}

#[test]
fn order_of_subtrees_does_not_change_the_weight() {
    let a = || leaf(script("a", vec![0x51; 10]));
    let b = || node(leaf(script("b", vec![0x52; 20])), leaf(script("c", vec![0x53; 30])));
    let weight = |tree| descriptor(tree).max_satisfaction_weight().ok().unwrap();
    assert_eq!(weight(Some(node(a(), b()))), weight(Some(node(b(), a()))));
    assert!(weight(Some(node(a(), b()))) >= weight(None));
}
