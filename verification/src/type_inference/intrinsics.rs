use vstd::prelude::*;

verus! {

/// The intrinsic functions type inference introduces.
#[derive(Clone, Copy, Debug, PartialEq, Eq, Structural, PartialOrd, Ord, Hash)]
pub enum Intrinsic {
    /// Return from a function.
    Return,
    /// Branch, basically just an if.
    Branch,
}

} // verus!
