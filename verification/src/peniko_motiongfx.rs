//! Paths that turn into one another.
use vstd::prelude::*;

pub mod morph;
pub mod morph_laws;

verus! {

/// Marker for interpolations of paths, brushes and their parts.
pub struct Peniko;

} // verus!
