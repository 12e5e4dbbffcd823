//! Name-to-declaration mappers used while building bodies: a stack of scopes above a
//! global scope, and a stack of variable scopes.
use crate::assoc::{assoc_distinct, assoc_find, assoc_insert, assoc_map};
use crate::symbol::Symbol;
use crate::type_inference::scopes_lookup;
use vstd::prelude::*;

verus! {

broadcast use {vstd::std_specs::vec::group_vec_axioms, vstd::seq::group_seq_axioms};

/// Scope: what names are declared as.
pub type Scope<S> = Vec<(Symbol, S)>;

/// A declaration of `name` in `scope`, if there is one.
fn scope_get<'a, S>(scope: &'a Scope<S>, name: &Symbol) -> (r: Option<&'a S>)
    ensures
        match r {
            Some(s) => assoc_map(scope@).contains_key(name@) && assoc_map(scope@)[name@] == *s,
            None => !assoc_map(scope@).contains_key(name@),
        },
{
    match assoc_find(scope, name) {
        Some(i) => Some(&scope[i].1),
        None => None,
    }
}

/// Symbol maker: local scopes above a global one, and the ids given out.
pub struct SymbolMapper<S> {
    /// Allow use of functions before their declaration
    pub use_functions_before_declaration: bool,
    /// Global scope. All global functions should be put here
    global: Scope<S>,
    scopes: Vec<Scope<S>>,
    id_counter: u64,
}

impl<S> SymbolMapper<S> {
    /// The global declarations, by name.
    pub closed spec fn global(&self) -> Map<Seq<char>, S> {
        assoc_map(self.global@)
    }

    /// The local scopes, outermost first, each by name.
    pub closed spec fn scopes(&self) -> Seq<Map<Seq<char>, S>> {
        self.scopes@.map_values(|s: Scope<S>| assoc_map(s@))
    }

    /// The next id to give out.
    pub closed spec fn next_id(&self) -> u64 {
        self.id_counter
    }

    /// Whether functions may be used before their declaration.
    pub closed spec fn uses_before_declaration(&self) -> bool {
        self.use_functions_before_declaration
    }

    /// No name is declared twice in one scope.
    pub closed spec fn wf(&self) -> bool {
        &&& assoc_distinct(self.global@)
        &&& forall|i: int| 0 <= i < self.scopes@.len() ==> assoc_distinct(#[trigger] self.scopes@[i]@)
    }

    /// The declaration `name` resolves to: the innermost local one, else the global one.
    pub open spec fn resolve(&self, name: Seq<char>) -> Option<S> {
        match scopes_lookup(self.scopes(), name) {
            Some(s) => Some(s),
            None => if self.global().contains_key(name) {
                Some(self.global()[name])
            } else {
                None
            },
        }
    }

    /// Create a new symbol maker: no scopes, nothing global, ids from 0.
    pub fn new() -> (r: Self)
        ensures
            r.wf(),
            r.uses_before_declaration(),
            r.global() == Map::<Seq<char>, S>::empty(),
            r.scopes() == Seq::<Map<Seq<char>, S>>::empty(),
            r.next_id() == 0,
    {
        let r = SymbolMapper {
            use_functions_before_declaration: true,
            global: Vec::new(),
            scopes: Vec::new(),
            id_counter: 0,
        };
        assert(r.scopes() =~= Seq::<Map<Seq<char>, S>>::empty());
        r
    }

    /// Push a new scope onto the stack
    pub fn push_scope(&mut self)
        requires
            old(self).wf(),
        ensures
            final(self).wf(),
            final(self).scopes() == old(self).scopes().push(Map::empty()),
            final(self).global() == old(self).global(),
            final(self).next_id() == old(self).next_id(),
            final(self).uses_before_declaration() == old(self).uses_before_declaration(),
    {
        self.scopes.push(Vec::new());
        assert(self.scopes() =~= old(self).scopes().push(Map::empty()));
    }

    /// Pop a scope from the stack
    pub fn pop_scope(&mut self)
        requires
            old(self).wf(),
        ensures
            final(self).wf(),
            final(self).scopes() == if old(self).scopes().len() == 0 {
                old(self).scopes()
            } else {
                old(self).scopes().drop_last()
            },
            final(self).global() == old(self).global(),
            final(self).next_id() == old(self).next_id(),
            final(self).uses_before_declaration() == old(self).uses_before_declaration(),
    {
        let _ = self.scopes.pop();
        assert(self.scopes() =~= if old(self).scopes().len() == 0 {
            old(self).scopes()
        } else {
            old(self).scopes().drop_last()
        });
    }

    /// Get the current scope: the innermost local one, else the global one.
    pub fn current_scope(&self) -> (r: &Scope<S>)
        ensures
            assoc_map(r@) == if self.scopes().len() > 0 {
                self.scopes().last()
            } else {
                self.global()
            },
    {
        if self.scopes.len() > 0 {
            &self.scopes[self.scopes.len() - 1]
        } else {
            &self.global
        }
    }

    /// Declare a symbol in the current scope (the innermost local one, else the global
    /// one), replacing a declaration of the same name there; it gets the next id, which
    /// is returned.
    pub fn declare_variable(&mut self, name: Symbol, symbol: S) -> (id: u64)
        requires
            old(self).wf(),
            old(self).next_id() < u64::MAX,
        ensures
            final(self).wf(),
            id == old(self).next_id(),
            final(self).next_id() == old(self).next_id() + 1,
            old(self).scopes().len() > 0 ==> final(self).scopes() == old(self).scopes().update(
                old(self).scopes().len() - 1,
                old(self).scopes().last().insert(name@, symbol),
            ) && final(self).global() == old(self).global(),
            old(self).scopes().len() == 0 ==> final(self).scopes() == old(self).scopes()
                && final(self).global() == old(self).global().insert(name@, symbol),
            final(self).uses_before_declaration() == old(self).uses_before_declaration(),
    {
        let id = self.id_counter;
        self.id_counter += 1;
        if self.scopes.len() > 0 {
            let last = self.scopes.len() - 1;
            let mut scope = Vec::new();
            std::mem::swap(&mut scope, &mut self.scopes[last]);
            assert(assoc_distinct(scope@));
            assoc_insert(&mut scope, name, symbol);
            self.scopes.set(last, scope);
            assert(self.scopes() =~= old(self).scopes().update(
                old(self).scopes().len() - 1,
                old(self).scopes().last().insert(name@, symbol),
            ));
        } else {
            assoc_insert(&mut self.global, name, symbol);
        }
        id
    }

    /// Get symbol by name: from the innermost local scope that declares it, else from
    /// the global scope.
    pub fn get_symbol(&self, name: &Symbol) -> (r: Option<&S>)
        ensures
            match r {
                Some(s) => self.resolve(name@) == Some(*s),
                None => self.resolve(name@) is None,
            },
    {
        let mut i = self.scopes.len();
        assert(self.scopes().take(i as int) =~= self.scopes());
        while i > 0
            invariant
                i <= self.scopes@.len(),
                scopes_lookup(self.scopes(), name@) == scopes_lookup(
                    self.scopes().take(i as int),
                    name@,
                ),
            decreases i,
        {
            i -= 1;
            assert(self.scopes().take(i + 1).drop_last() =~= self.scopes().take(i as int));
            match scope_get(&self.scopes[i], name) {
                Some(s) => {
                    return Some(s);
                },
                None => {},
            }
        }
        scope_get(&self.global, name)
    }
}

/// A name declared in a local scope hides its global declaration; one declared in no
/// local scope resolves to its global declaration.
pub proof fn law_local_before_global<S>(m: SymbolMapper<S>, name: Seq<char>)
    ensures
        scopes_lookup(m.scopes(), name) matches Some(s) ==> m.resolve(name) == Some(s),
        scopes_lookup(m.scopes(), name) is None && m.global().contains_key(name) ==> m.resolve(name)
            == Some(m.global()[name]),
{
}

/// Variable maker: a stack of scopes, starting with one.
pub struct VariableMapper<S> {
    scopes: Vec<Scope<S>>,
}

impl<S> VariableMapper<S> {
    /// The scopes, outermost first, each by name.
    pub closed spec fn scopes(&self) -> Seq<Map<Seq<char>, S>> {
        self.scopes@.map_values(|s: Scope<S>| assoc_map(s@))
    }

    /// No name is declared twice in one scope.
    pub closed spec fn wf(&self) -> bool {
        forall|i: int| 0 <= i < self.scopes@.len() ==> assoc_distinct(#[trigger] self.scopes@[i]@)
    }

    /// Create a new variable maker, with one empty scope.
    pub fn new() -> (r: Self)
        ensures
            r.wf(),
            r.scopes() == seq![Map::<Seq<char>, S>::empty()],
    {
        let mut scopes: Vec<Scope<S>> = Vec::new();
        scopes.push(Vec::new());
        let r = VariableMapper { scopes };
        assert(r.scopes() =~= seq![Map::<Seq<char>, S>::empty()]);
        r
    }

    /// Push a new scope onto the stack
    pub fn push_scope(&mut self)
        requires
            old(self).wf(),
        ensures
            final(self).wf(),
            final(self).scopes() == old(self).scopes().push(Map::empty()),
    {
        self.scopes.push(Vec::new());
        assert(self.scopes() =~= old(self).scopes().push(Map::empty()));
    }

    /// Pop a scope from the stack
    pub fn pop_scope(&mut self)
        requires
            old(self).wf(),
        ensures
            final(self).wf(),
            final(self).scopes() == if old(self).scopes().len() == 0 {
                old(self).scopes()
            } else {
                old(self).scopes().drop_last()
            },
    {
        let _ = self.scopes.pop();
        assert(self.scopes() =~= if old(self).scopes().len() == 0 {
            old(self).scopes()
        } else {
            old(self).scopes().drop_last()
        });
    }

    /// Get the current scope
    pub fn current_scope(&self) -> (r: &Scope<S>)
        requires
            self.scopes().len() > 0,
        ensures
            assoc_map(r@) == self.scopes().last(),
    {
        &self.scopes[self.scopes.len() - 1]
    }

    /// Declare a variable in the current scope, replacing one of the same name there.
    pub fn declare_variable(&mut self, name: Symbol, variable: S)
        requires
            old(self).wf(),
            old(self).scopes().len() > 0,
        ensures
            final(self).wf(),
            final(self).scopes() == old(self).scopes().update(
                old(self).scopes().len() - 1,
                old(self).scopes().last().insert(name@, variable),
            ),
    {
        let last = self.scopes.len() - 1;
        let mut scope = Vec::new();
        std::mem::swap(&mut scope, &mut self.scopes[last]);
        assert(assoc_distinct(scope@));
        assoc_insert(&mut scope, name, variable);
        self.scopes.set(last, scope);
        assert(self.scopes() =~= old(self).scopes().update(
            old(self).scopes().len() - 1,
            old(self).scopes().last().insert(name@, variable),
        ));
    }

    /// Get a variable from the current scope (outer scopes are not searched).
    pub fn get_variable(&self, name: &Symbol) -> (r: Option<&S>)
        requires
            self.scopes().len() > 0,
        ensures
            match r {
                Some(s) => self.scopes().last().contains_key(name@) && self.scopes().last()[name@] == *s,
                None => !self.scopes().last().contains_key(name@),
            },
    {
        scope_get(self.current_scope(), name)
    }
}

} // verus!
