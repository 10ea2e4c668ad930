//! A crit-bit trie: a map from fixed-width unsigned integers to values that
//! branches only at bit positions where stored keys differ.

pub mod key;
pub mod laws;
pub mod map;
pub mod tree;

pub use key::{bit_at, BitKey};
pub use map::CritBitMap;
pub use tree::{CritBit, Empty, Internal, Leaf};
