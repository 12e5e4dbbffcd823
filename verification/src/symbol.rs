use vstd::prelude::*;

verus! {

/// An interned name. Two symbols are the same symbol exactly when their texts are equal.
#[derive(Debug, Hash, PartialEq, Eq, PartialOrd, Ord)]
pub struct Symbol {
    name: String,
}

impl View for Symbol {
    type V = Seq<char>;

    closed spec fn view(&self) -> Seq<char> {
        self.name@
    }
}

impl Symbol {
    /// Intern a name.
    pub fn new(name: &str) -> (r: Symbol)
        ensures
            r@ == name@,
    {
        Symbol { name: name.to_owned() }
    }

    /// Make a symbol out of an owned string.
    pub fn from_string(name: String) -> (r: Symbol)
        ensures
            r@ == name@,
    {
        Symbol { name }
    }

    /// The text of this symbol.
    pub fn as_str(&self) -> (r: &str)
        ensures
            r@ == self@,
    {
        self.name.as_str()
    }

    /// Whether two symbols are the same symbol.
    pub fn same(&self, other: &Symbol) -> (r: bool)
        ensures
            r == (self@ == other@),
    {
        self.name == other.name
    }

    /// A copy of this symbol.
    pub fn copy(&self) -> (r: Symbol)
        ensures
            r@ == self@,
    {
        Symbol { name: self.name.clone() }
    }
}

impl Clone for Symbol {
    fn clone(&self) -> (r: Self)
        ensures
            r@ == self@,
    {
        self.copy()
    }
}

} // verus!
