//! What parsers take and produce: inputs, compiled items and the modules of them.
use crate::codebase::Symbol;
use vstd::prelude::*;

verus! {

/// An input for the parser
#[derive(Clone, Copy, Debug, PartialEq, Eq, PartialOrd, Ord, Hash)]
pub enum Input<'a> {
    /// Take source code from the file
    File(&'a std::path::Path),
    /// Take source code from the string
    String(&'a str),
}

/// A compiled item.
#[derive(Clone, Copy, Debug, PartialEq, Eq, PartialOrd, Ord, Hash)]
pub struct Item {}

/// The items a compilation unit builds, by name.
pub struct Module {
    items: std::collections::HashMap<Symbol, Item>,
}

} // verus!
