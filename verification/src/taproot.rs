//! The taproot functions of the `elements` crate, with what is relied on of each.

use elements::schnorr::TweakedPublicKey;
use elements::script::Builder;
use elements::secp256k1_zkp::{PublicKey, Secp256k1, XOnlyPublicKey};
use elements::taproot::{
    ControlBlock, LeafVersion, TaprootBuilder, TaprootBuilderError, TaprootSpendInfo,
};
use elements::{opcodes, Address, AddressParams, SchnorrSig, Script};
use vstd::prelude::*;

verus! {

#[verifier::external_type_specification]
#[verifier::external_body]
pub struct ExXOnlyPublicKey(XOnlyPublicKey);

#[verifier::external_type_specification]
#[verifier::external_body]
pub struct ExTweakedPublicKey(TweakedPublicKey);

#[verifier::external_type_specification]
#[verifier::external_body]
pub struct ExTaprootBuilder(TaprootBuilder);

#[verifier::external_type_specification]
#[verifier::external_body]
pub struct ExTaprootBuilderError(TaprootBuilderError);

#[verifier::external_type_specification]
#[verifier::external_body]
pub struct ExTaprootSpendInfo(TaprootSpendInfo);

#[verifier::external_type_specification]
#[verifier::external_body]
pub struct ExControlBlock(ControlBlock);

#[verifier::external_type_specification]
#[verifier::external_body]
pub struct ExScript(Script);

#[verifier::external_type_specification]
#[verifier::external_body]
pub struct ExBuilder(Builder);

#[verifier::external_type_specification]
#[verifier::external_body]
pub struct ExSchnorrSig(SchnorrSig);

#[verifier::external_type_specification]
#[verifier::external_body]
pub struct ExPublicKey(PublicKey);

#[verifier::external_type_specification]
#[verifier::external_body]
pub struct ExAddressParams(AddressParams);

#[verifier::external_type_specification]
#[verifier::external_body]
pub struct ExAddress(Address);

/// The shape of a binary tree.
pub enum Shape {
    Leaf,
    Node(Box<Shape>, Box<Shape>),
}

impl Shape {
    /// The length of the longest path from the root to a leaf.
    pub open spec fn height(self) -> nat
        decreases self,
    {
        match self {
            Shape::Leaf => 0,
            Shape::Node(l, r) => 1 + if l.height() > r.height() {
                l.height()
            } else {
                r.height()
            },
        }
    }

    /// The depths of the leaves, in depth-first order, when the root is at depth `d`.
    pub open spec fn depths(self, d: nat) -> Seq<nat>
        decreases self,
    {
        match self {
            Shape::Leaf => seq![d],
            Shape::Node(l, r) => l.depths(d + 1) + r.depths(d + 1),
        }
    }
}

/// The largest depth of a leaf.
pub open spec fn max_depth() -> nat {
    128
}

/// The leaf depths of a whole tree of permitted height, in depth-first order.
pub open spec fn dfs_complete(depths: Seq<nat>) -> bool {
    exists|t: Shape| t.height() <= max_depth() && depths == #[trigger] t.depths(0)
}

/// The leaf depths with which a depth-first walk over a tree of permitted height begins.
pub open spec fn dfs_prefix(depths: Seq<nat>) -> bool {
    exists|t: Shape| t.height() <= max_depth() && depths.is_prefix_of(#[trigger] t.depths(0))
}

/// The depths out of a sequence of leaves.
pub open spec fn leaf_depths(leaves: Seq<(nat, Seq<u8>)>) -> Seq<nat> {
    leaves.map_values(|l: (nat, Seq<u8>)| l.0)
}

/// Control blocks for exactly the scripts among `leaves`, each as long as the shallowest leaf
/// with its script asks, and each with the internal key behind its first byte.
pub open spec fn control_blocks_fit(
    blocks: Map<Seq<u8>, Seq<u8>>,
    key: Seq<u8>,
    leaves: Seq<(nat, Seq<u8>)>,
) -> bool {
    &&& forall|i: int|
        0 <= i < leaves.len() ==> blocks.contains_key((#[trigger] leaves[i]).1)
            && blocks[leaves[i].1].len() <= 33 + 32 * leaves[i].0
    &&& forall|s: Seq<u8>| #[trigger]
        blocks.contains_key(s) ==> blocks[s].subrange(1, 33) == key && exists|i: int|
            0 <= i < leaves.len() && (#[trigger] leaves[i]).1 == s && blocks[s].len() == 33 + 32
                * leaves[i].0
}

/// What is needed to spend a taproot output.
pub struct SpendData {
    /// The key that the output key is made from.
    pub internal_key: Seq<u8>,
    /// The root of the tree of scripts, if there is one.
    pub merkle_root: Option<Seq<u8>>,
    /// The key that the output commits to.
    pub output_key: Seq<u8>,
    /// Whether the point of the output key has an odd y coordinate.
    pub output_key_is_odd: bool,
    /// For each script, the control block with which it is revealed.
    pub control_blocks: Map<Seq<u8>, Seq<u8>>,
}

/// The parts of a segregated witness address.
pub struct AddressParts {
    /// The witness version.
    pub version: nat,
    /// The witness program.
    pub program: Seq<u8>,
    /// The key that amounts are blinded with.
    pub blinder: Option<PublicKey>,
    /// The network.
    pub params: AddressParams,
}

/// What stands before `n` bytes of data that a script pushes.
pub open spec fn push_prefix(n: nat) -> Seq<u8> {
    if n < 0x4c {
        seq![n as u8]
    } else if n < 0x100 {
        seq![0x4cu8, n as u8]
    } else if n < 0x1_0000 {
        seq![0x4du8, (n % 0x100) as u8, (n / 0x100) as u8]
    } else {
        seq![
            0x4eu8,
            (n % 0x100) as u8,
            (n / 0x100 % 0x100) as u8,
            (n / 0x1_0000 % 0x100) as u8,
            (n / 0x100_0000) as u8,
        ]
    }
}

/// The bytes of a script.
pub uninterp spec fn script_bytes(script: Script) -> Seq<u8>;

/// The bytes of the script that a builder has so far.
pub uninterp spec fn script_so_far(builder: Builder) -> Seq<u8>;

/// The bytes of a signature, with its hash type unless that is the default.
pub uninterp spec fn signature_bytes(sig: SchnorrSig) -> Seq<u8>;

/// The parts of an address.
pub uninterp spec fn address_parts(address: Address) -> AddressParts;

/// The HASH160 of some data.
pub uninterp spec fn hash160_of(data: Seq<u8>) -> [u8; 20];

/// The 32 bytes of an x-only key.
pub uninterp spec fn x_only_bytes(key: XOnlyPublicKey) -> Seq<u8>;

/// The 32 bytes of an output key.
pub uninterp spec fn output_key_bytes(key: TweakedPublicKey) -> Seq<u8>;

/// The leaves, by depth and script, that a builder has been given, in order.
pub uninterp spec fn builder_leaves(builder: TaprootBuilder) -> Seq<(nat, Seq<u8>)>;

/// The bytes of a control block.
pub uninterp spec fn control_block_bytes(block: ControlBlock) -> Seq<u8>;

/// What a `TaprootSpendInfo` holds: its internal key, its merkle root, its output key with the
/// parity, and the control blocks that it finds for scripts of the default leaf version.
pub uninterp spec fn spend_data(info: TaprootSpendInfo) -> SpendData;

/// What `TaprootBuilder::finalize` makes of an internal key and a whole tree of leaves.
pub uninterp spec fn script_tree_data(key: Seq<u8>, leaves: Seq<(nat, Seq<u8>)>) -> SpendData;

/// What `TaprootSpendInfo::new_key_spend` makes of an internal key alone.
pub uninterp spec fn key_only_data(key: Seq<u8>) -> SpendData;

/// `TAPROOT_CONTROL_MAX_NODE_COUNT` is 128.
#[verifier::external_body]
pub(crate) fn control_max_node_count() -> (r: usize)
    ensures
        r == max_depth(),
{
    elements::taproot::TAPROOT_CONTROL_MAX_NODE_COUNT
}

/// `TAPROOT_CONTROL_BASE_SIZE` is 33.
#[verifier::external_body]
pub(crate) fn control_base_size() -> (r: usize)
    ensures
        r == 33,
{
    elements::taproot::TAPROOT_CONTROL_BASE_SIZE
}

/// `TAPROOT_CONTROL_NODE_SIZE` is 32.
#[verifier::external_body]
pub(crate) fn control_node_size() -> (r: usize)
    ensures
        r == 32,
{
    elements::taproot::TAPROOT_CONTROL_NODE_SIZE
}

/// `TaprootBuilder::new` gives a builder without leaves.
#[verifier::external_body]
pub(crate) fn new_builder() -> (r: TaprootBuilder)
    ensures
        builder_leaves(r).len() == 0,
{
    TaprootBuilder::new()
}

/// `TaprootBuilder::add_leaf` appends a leaf with the default leaf version. As long as the
/// leaves so far begin a depth-first walk and do not end it, it succeeds exactly if the new
/// leaf goes on with that walk. It never accepts a leaf deeper than the limit.
#[verifier::external_body]
pub(crate) fn add_leaf(builder: TaprootBuilder, depth: usize, script: Vec<u8>) -> (r: Result<
    TaprootBuilder,
    TaprootBuilderError,
>)
    ensures
        dfs_prefix(leaf_depths(builder_leaves(builder))) && !dfs_complete(
            leaf_depths(builder_leaves(builder)),
        ) ==> (r is Ok <==> dfs_prefix(leaf_depths(builder_leaves(builder)).push(depth as nat))),
        depth > max_depth() ==> r is Err,
        r matches Ok(b) ==> builder_leaves(b) == builder_leaves(builder).push(
            (depth as nat, script@),
        ),
{
    builder.add_leaf(depth, Script::from(script))
}

/// `TaprootBuilder::finalize` succeeds if the leaves are those of a whole tree, and fails if
/// they only begin one. What it returns is fixed by the internal key and the leaves. It holds
/// that internal key and a merkle root of 32 bytes. It has a control block for exactly the
/// scripts of the leaves: 33 bytes, the last 32 of them the internal key, and 32 bytes more for
/// each level of the shallowest leaf with that script.
///
/// The outside function panics if the hash of key and tree is not below the order of the
/// curve, for which no input is known.
#[verifier::external_body]
pub(crate) fn finalize(builder: TaprootBuilder, internal_key: XOnlyPublicKey) -> (r: Result<
    TaprootSpendInfo,
    TaprootBuilderError,
>)
    ensures
        dfs_complete(leaf_depths(builder_leaves(builder))) ==> r is Ok,
        dfs_prefix(leaf_depths(builder_leaves(builder))) && !dfs_complete(
            leaf_depths(builder_leaves(builder)),
        ) ==> r is Err,
        r matches Ok(info) ==> spend_data(info) == script_tree_data(
            x_only_bytes(internal_key),
            builder_leaves(builder),
        ),
        r matches Ok(info) ==> spend_data(info).internal_key == x_only_bytes(internal_key),
        r matches Ok(info) ==> (spend_data(info).merkle_root matches Some(root) && root.len()
            == 32),
        r matches Ok(info) ==> control_blocks_fit(
            spend_data(info).control_blocks,
            x_only_bytes(internal_key),
            builder_leaves(builder),
        ),
{
    builder.finalize(&Secp256k1::verification_only(), internal_key)
}

/// What `TaprootSpendInfo::new_key_spend` returns without a merkle root is fixed by the internal
/// key. It holds that internal key, no merkle root and no control blocks.
///
/// The outside function panics if the hash of the key is not below the order of the curve, for
/// which no input is known.
#[verifier::external_body]
pub(crate) fn new_key_spend(internal_key: XOnlyPublicKey) -> (r: TaprootSpendInfo)
    ensures
        spend_data(r) == key_only_data(x_only_bytes(internal_key)),
        spend_data(r).internal_key == x_only_bytes(internal_key),
        spend_data(r).merkle_root is None,
        spend_data(r).control_blocks.dom().is_empty(),
{
    TaprootSpendInfo::new_key_spend(&Secp256k1::verification_only(), internal_key, None)
}

/// `TaprootSpendInfo::output_key` is the output key.
#[verifier::external_body]
pub(crate) fn output_key(info: &TaprootSpendInfo) -> (r: TweakedPublicKey)
    ensures
        output_key_bytes(r) == spend_data(*info).output_key,
{
    info.output_key()
}

/// `TaprootSpendInfo::control_block`, for the default leaf version, finds the control block of
/// a script where there is one.
#[verifier::external_body]
pub(crate) fn control_block(info: &TaprootSpendInfo, script: &Vec<u8>) -> (r: Option<ControlBlock>)
    ensures
        r is Some <==> spend_data(*info).control_blocks.contains_key(script@),
        r matches Some(b) ==> control_block_bytes(b) == spend_data(*info).control_blocks[script@],
{
    info.control_block(&(Script::from(script.clone()), LeafVersion::default()))
}

/// `ControlBlock::serialize` gives the bytes of a control block.
#[verifier::external_body]
pub(crate) fn serialize_control_block(block: &ControlBlock) -> (r: Vec<u8>)
    ensures
        r@ == control_block_bytes(*block),
{
    block.serialize()
}

/// `TweakedPublicKey::as_inner` gives an output key as an x-only key.
#[verifier::external_body]
pub(crate) fn as_x_only(key: &TweakedPublicKey) -> (r: &XOnlyPublicKey)
    ensures
        x_only_bytes(*r) == output_key_bytes(*key),
{
    key.as_inner()
}

/// `XOnlyPublicKey::clone` gives the same key.
pub assume_specification[ <XOnlyPublicKey as Clone>::clone ](key: &XOnlyPublicKey) -> (r:
    XOnlyPublicKey)
    ensures
        r == *key,
;

/// `XOnlyPublicKey::serialize` gives the bytes of a key.
#[verifier::external_body]
pub(crate) fn serialize_x_only(key: &XOnlyPublicKey) -> (r: [u8; 32])
    ensures
        r@ == x_only_bytes(*key),
{
    key.serialize()
}

/// `hash160::Hash::hash` is fixed by the data.
#[verifier::external_body]
pub(crate) fn hash160(data: &[u8; 32]) -> (r: [u8; 20])
    ensures
        r == hash160_of(data@),
{
    let digest = <elements::hashes::hash160::Hash as elements::hashes::Hash>::hash(data);
    elements::hashes::Hash::into_inner(digest)
}

/// `SchnorrSig::to_vec` gives the bytes of a signature: 64 of them, or 65 with a hash type.
#[verifier::external_body]
pub(crate) fn serialize_signature(sig: &SchnorrSig) -> (r: Vec<u8>)
    ensures
        r@ == signature_bytes(*sig),
        r@.len() == 64 || r@.len() == 65,
{
    sig.to_vec()
}

/// `Script::new` is the empty script.
#[verifier::external_body]
pub(crate) fn empty_script() -> (r: Script)
    ensures
        script_bytes(r).len() == 0,
{
    Script::new()
}

/// `Builder::new` begins an empty script.
#[verifier::external_body]
pub(crate) fn new_script_builder() -> (r: Builder)
    ensures
        script_so_far(r).len() == 0,
{
    Builder::new()
}

/// `Builder::push_opcode` appends the opcode with this code.
#[verifier::external_body]
pub(crate) fn push_opcode(builder: Builder, code: u8) -> (r: Builder)
    ensures
        script_so_far(r) == script_so_far(builder).push(code),
{
    builder.push_opcode(opcodes::All::from(code))
}

/// `Builder::push_slice` appends the data behind the opcode that tells its length. It panics on
/// data that no opcode can tell the length of.
#[verifier::external_body]
pub(crate) fn push_slice(builder: Builder, data: &[u8]) -> (r: Builder)
    requires
        data@.len() < 0x1_0000_0000,
    ensures
        script_so_far(r) == script_so_far(builder) + push_prefix(data@.len()) + data@,
{
    builder.push_slice(data)
}

/// `Builder::into_script` gives the script.
#[verifier::external_body]
pub(crate) fn into_script(builder: Builder) -> (r: Script)
    ensures
        script_bytes(r) == script_so_far(builder),
{
    builder.into_script()
}

/// `Address::p2tr_tweaked` is the address of witness version 1 whose program is the output key.
#[verifier::external_body]
pub(crate) fn p2tr_tweaked(
    key: TweakedPublicKey,
    blinder: Option<PublicKey>,
    params: &'static AddressParams,
) -> (r: Address)
    ensures
        address_parts(r).version == 1,
        address_parts(r).program == output_key_bytes(key),
        address_parts(r).blinder == blinder,
        address_parts(r).params == *params,
{
    Address::p2tr_tweaked(key, blinder, params)
}

} // verus!
