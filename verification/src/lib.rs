//! A hash table from keys to ordered groups of values.

pub mod group;
pub mod iter;
pub mod laws;
pub mod multimap;
pub mod render;
pub mod table;

pub use crate::group::{Group, MultiMapValue};
pub use crate::iter::{Iter, IterMut};
pub use crate::multimap::MultiMap;
