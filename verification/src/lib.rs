//! Taproot output descriptors for Elements: an internal key and, perhaps, a tree of scripts.
//!
//! A descriptor is written `eltr(KEY)` or `eltr(KEY,TREE)`, where a tree is a script or two trees
//! in braces, and a checksum may stand behind it. The library reads and writes descriptors,
//! derives the outputs they stand for, makes the lightest witness that spends from them, and tells
//! what policy they implement.

pub mod descriptor;
pub mod error;
pub mod expression;
pub mod laws;
pub mod miniscript;
pub mod normal_form;
pub mod order;
pub mod policy;
pub mod taproot;
pub mod util;

pub use descriptor::tap_tree::{TapTree, TapTreeIter};
pub use descriptor::tr::Tr;
pub use error::{AnalysisError, Error};
pub use miniscript::{
    ForEach, Miniscript, MiniscriptKey, NoExt, Satisfier, ScriptKey, ScriptTranslator,
    ToPublicKey, Translator, XOnlyKey,
};
pub use policy::Policy;
