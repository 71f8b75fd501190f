//! Keyboard key sets.

pub mod key_range;
pub mod mask;

pub use self::key_range::{Iter, KeyRange};
pub use self::mask::{KeyItem, KeyMask};
