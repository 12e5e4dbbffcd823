//! Markers that tell immutable access from mutable access.
use vstd::prelude::*;

verus! {

/// Immutable version
#[derive(Clone, Copy)]
pub struct Imm;

/// Mutable version
pub struct Mut;

} // verus!
