//! Holds everything that is required for module communication.
use crate::assoc::{assoc_distinct, assoc_find, assoc_insert, assoc_map};
use vstd::prelude::*;

verus! {

/// Universal function ID
#[derive(Clone, Copy, Debug, PartialEq, Eq, Structural, PartialOrd, Ord, Hash)]
pub struct FunctionId(pub usize);

/// Symbol stored
#[derive(Clone, Copy, Debug, PartialEq, Eq, Structural, PartialOrd, Ord, Hash)]
pub enum Symbol {
    /// Function
    Function(FunctionId),
}

/// Types
#[derive(Clone, Copy, Debug, PartialEq, Eq, Structural, PartialOrd, Ord, Hash)]
pub enum Type {
    /// Signed integer type with set bit width
    Int(u16),
    /// Unsigned integer type with set bit width
    Unsigned(u16),
}

/// Function parameter, stores type and optionally name
#[derive(Debug)]
pub struct Parameter {
    /// Optional parameter name
    pub name: Option<String>,
    /// Parameter type
    pub ty: Type,
}

impl Parameter {
    /// Create a new parameter with a name.
    /// Also see [`Parameter::unnamed`]
    pub fn new(name: String, ty: Type) -> (r: Self)
        ensures
            r.name == Some(name),
            r.ty == ty,
    {
        Parameter { name: Some(name), ty }
    }

    /// Create a new parameter without a name.
    /// Also see [`Parameter::new`]
    pub fn unnamed(ty: Type) -> (r: Self)
        ensures
            r.name is None,
            r.ty == ty,
    {
        Parameter { name: None, ty }
    }
}

/// Function signature
#[derive(Debug)]
pub struct Signature {
    /// Function parameters
    pub params: Vec<Parameter>,
}

impl Signature {
    /// Create a new signature
    pub fn new(params: Vec<Parameter>) -> (r: Self)
        ensures
            r.params == params,
    {
        Signature { params }
    }
}

/// Holds everything that is required for module communication
#[derive(Debug)]
pub struct Registry {
    symbols: Vec<(crate::symbol::Symbol, Symbol)>,
    functions: Vec<Signature>,
}

impl Registry {
    /// Symbols declared, by path.
    pub closed spec fn symbols(&self) -> Map<Seq<char>, Symbol> {
        assoc_map(self.symbols@)
    }

    /// Functions declared, indexed by their id.
    pub closed spec fn functions(&self) -> Seq<Signature> {
        self.functions@
    }

    /// Every path names one symbol, and every symbol names a declared function.
    pub closed spec fn wf(&self) -> bool {
        &&& assoc_distinct(self.symbols@)
        &&& forall|p: Seq<char>| #[trigger]
            self.symbols().contains_key(p) ==> match self.symbols()[p] {
                Symbol::Function(id) => id.0 < self.functions@.len(),
            }
    }

    /// Same as [`Default::default`]
    pub fn new() -> (r: Self)
        ensures
            r.wf(),
            r.symbols() == Map::<Seq<char>, Symbol>::empty(),
            r.functions() == Seq::<Signature>::empty(),
    {
        Registry { symbols: Vec::new(), functions: Vec::new() }
    }

    /// Get symbol from path
    pub fn get_symbol(&self, path: &str) -> (r: Option<Symbol>)
        ensures
            r == (if self.symbols().contains_key(path@) {
                Some(self.symbols()[path@])
            } else {
                None
            }),
    {
        let key = crate::symbol::Symbol::new(path);
        match assoc_find(&self.symbols, &key) {
            Some(i) => Some(self.symbols[i].1),
            None => None,
        }
    }

    /// Declare a function
    pub fn declare_fn(&mut self, path: String, signature: Signature) -> (id: FunctionId)
        requires
            old(self).wf(),
        ensures
            final(self).wf(),
            id.0 == old(self).functions().len(),
            final(self).functions() == old(self).functions().push(signature),
            final(self).symbols() == old(self).symbols().insert(path@, Symbol::Function(id)),
    {
        let id = FunctionId(self.functions.len());
        self.functions.push(signature);
        let ghost old_symbols = old(self).symbols();
        assoc_insert(&mut self.symbols, crate::symbol::Symbol::from_string(path), Symbol::Function(id));
        assert forall|p: Seq<char>| #[trigger] self.symbols().contains_key(p) implies match self.symbols()[p] {
            Symbol::Function(f) => f.0 < self.functions@.len(),
        } by {
            if p != path@ {
                assert(old_symbols.contains_key(p));
            }
        }
        id
    }

    /// Get function by id
    pub fn get_fn(&self, id: FunctionId) -> (r: &Signature)
        requires
            id.0 < self.functions().len(),
        ensures
            *r == self.functions()[id.0 as int],
    {
        &self.functions[id.0]
    }
}

/// A function declared under a path is found under that path, and its id leads
/// back to the signature it was declared with.
pub proof fn law_declared_fn_found(before: &Registry, after: &Registry, path: Seq<char>, signature: Signature, id: FunctionId)
    requires
        before.wf(),
        id.0 == before.functions().len(),
        after.functions() == before.functions().push(signature),
        after.symbols() == before.symbols().insert(path, Symbol::Function(id)),
    ensures
        after.symbols().contains_key(path),
        after.symbols()[path] == Symbol::Function(id),
        after.functions()[id.0 as int] == signature,
        forall|i: int| 0 <= i < before.functions().len() ==> after.functions()[i] == before.functions()[i],
{
}

} // verus!
