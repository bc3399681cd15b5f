//! Turns the declarations that a C++ binding generator produced into the two
//! artefacts a bridge compiler consumes: native wrapper declarations and
//! safe bridge items.
//!
//! The interesting work sits between input and output: deciding which types
//! may cross the language boundary by value, deciding per function whether a
//! native wrapper has to be synthesised, and pruning the API surface down to
//! what the user's allow-list reaches.

pub mod bindings;
pub mod conversion;
pub mod flags;
pub mod names;
pub mod search;
pub mod type_database;

use vstd::prelude::*;

verus! {

/// What callers of a synthesised wrapper have to acknowledge.
#[derive(Clone, Copy, Debug, PartialEq, Eq, Structural)]
pub enum UnsafePolicy {
    /// Wrappers are exposed as safe. A wrapper that cannot be shown free of
    /// aliasing and lifetime hazards is refused.
    AllSafe,
    /// Every wrapper is exposed as unsafe to call.
    MarkedUnsafe,
}

} // verus!
