//! What holds of the library as a whole, stated of its inputs and results.

pub mod checksums;
pub mod expressions;
pub mod keys;
pub mod policies;
pub mod reading;
pub mod sizes;
pub mod spending;
pub mod translations;
pub mod trees;
