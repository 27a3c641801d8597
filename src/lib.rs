//! A store that holds at most one value of each type, addressed by the type alone.

use vstd::prelude::*;

pub mod erased;
pub mod laws;
pub mod store;

pub use store::AnyMap;
