//! Taproot descriptors.

pub mod checksum;
pub mod compare;
pub mod display;
pub mod for_each;
pub mod hash;
pub mod lift;
pub mod parse;
pub mod read;
pub mod round_trip;
pub mod spend;
pub mod tap_tree;
pub mod text;
pub mod tr;
pub mod translate;
pub mod walk;
pub mod weight;
