//! Type inference state: the stack of lexical scopes and the variable id counter.
use crate::assoc::{assoc_distinct, assoc_find, assoc_insert, assoc_map};
use crate::symbol::Symbol;
use vstd::prelude::*;

pub mod intrinsics;

verus! {

/// This struct holds type inference state.
/// On the first pass it's passed to every node
/// as a mutable reference and gets filled with
/// type variables, on the second pass it's passed
/// as an immutable reference and is used to
/// finalise the types and send out diagnostics
pub struct TypeInferenceContext {}

/// Variable ID, a counting up number assigned automatically.
pub type VariableId = u64;

/// A scope: the symbols declared in it, by name.
pub type Scope<S> = Vec<(Symbol, S)>;

/// The innermost binding of `name` among `scopes` (outermost first).
pub open spec fn scopes_lookup<S>(scopes: Seq<Map<Seq<char>, S>>, name: Seq<char>) -> Option<S>
    decreases scopes.len(),
{
    if scopes.len() == 0 {
        None
    } else if scopes.last().contains_key(name) {
        Some(scopes.last()[name])
    } else {
        scopes_lookup(scopes.drop_last(), name)
    }
}

/// Local symbol resolution during type inference.
pub struct TypeInference<S> {
    scopes: Vec<Scope<S>>,
    next_variable_id: VariableId,
}

impl<S> TypeInference<S> {
    /// The scopes, outermost first, each as the map from names to what they denote.
    pub closed spec fn scopes(&self) -> Seq<Map<Seq<char>, S>> {
        self.scopes@.map_values(|s: Scope<S>| assoc_map(s@))
    }

    /// The next variable id to hand out.
    pub closed spec fn next_id(&self) -> VariableId {
        self.next_variable_id
    }

    /// No name is declared twice in one scope.
    pub closed spec fn wf(&self) -> bool {
        forall|i: int| 0 <= i < self.scopes@.len() ==> assoc_distinct(#[trigger] self.scopes@[i]@)
    }

    /// No scopes, ids counted from 0.
    pub fn new() -> (r: Self)
        ensures
            r.wf(),
            r.scopes() == Seq::<Map<Seq<char>, S>>::empty(),
            r.next_id() == 0,
    {
        let r = TypeInference { scopes: Vec::new(), next_variable_id: 0 };
        assert(r.scopes() =~= Seq::<Map<Seq<char>, S>>::empty());
        r
    }

    /// Start a new scope
    pub fn push_scope(&mut self)
        requires
            old(self).wf(),
        ensures
            final(self).wf(),
            final(self).scopes() == old(self).scopes().push(Map::empty()),
            final(self).next_id() == old(self).next_id(),
    {
        self.scopes.push(Vec::new());
        assert(self.scopes() =~= old(self).scopes().push(Map::empty()));
    }

    /// End the current scope
    pub fn pop_scope(&mut self)
        requires
            old(self).wf(),
        ensures
            final(self).wf(),
            final(self).scopes() == if old(self).scopes().len() == 0 {
                old(self).scopes()
            } else {
                old(self).scopes().drop_last()
            },
            final(self).next_id() == old(self).next_id(),
    {
        let _ = self.scopes.pop();
        assert(self.scopes() =~= if old(self).scopes().len() == 0 {
            old(self).scopes()
        } else {
            old(self).scopes().drop_last()
        });
    }

    /// Declare `name` in the current scope, shadowing an outer declaration and
    /// replacing one in the same scope.
    pub fn declare(&mut self, name: Symbol, symbol: S)
        requires
            old(self).wf(),
            old(self).scopes().len() > 0,
        ensures
            final(self).wf(),
            final(self).scopes() == old(self).scopes().update(
                old(self).scopes().len() - 1,
                old(self).scopes().last().insert(name@, symbol),
            ),
            final(self).next_id() == old(self).next_id(),
    {
        let last = self.scopes.len() - 1;
        let mut scope = Vec::new();
        std::mem::swap(&mut scope, &mut self.scopes[last]);
        assert(assoc_distinct(scope@));
        assoc_insert(&mut scope, name, symbol);
        self.scopes.set(last, scope);
        assert(self.scopes() =~= old(self).scopes().update(
            old(self).scopes().len() - 1,
            old(self).scopes().last().insert(name@, symbol),
        ));
    }

    /// Try to find a symbol in the local space, scope-aware
    pub fn get_symbol(&self, name: &Symbol) -> (r: Option<&S>)
        ensures
            match r {
                Some(s) => scopes_lookup(self.scopes(), name@) == Some(*s),
                None => scopes_lookup(self.scopes(), name@) is None,
            },
    {
        let mut i = self.scopes.len();
        assert(self.scopes().take(i as int) =~= self.scopes());
        while i > 0
            invariant
                i <= self.scopes@.len(),
                scopes_lookup(self.scopes(), name@) == scopes_lookup(
                    self.scopes().take(i as int),
                    name@,
                ),
            decreases i,
        {
            i -= 1;
            assert(self.scopes().take(i + 1).drop_last() =~= self.scopes().take(i as int));
            match assoc_find(&self.scopes[i], name) {
                Some(j) => {
                    return Some(&self.scopes[i][j].1);
                },
                None => {},
            }
        }
        None
    }

    /// Get a new variable id (just a counter)
    pub fn new_variable_id(&mut self) -> (id: VariableId)
        requires
            old(self).next_id() < u64::MAX,
        ensures
            id == old(self).next_id(),
            final(self).next_id() == old(self).next_id() + 1,
            final(self).scopes() == old(self).scopes(),
            final(self).wf() == old(self).wf(),
    {
        let id = self.next_variable_id;
        self.next_variable_id += 1;
        id
    }
}

/// Leaving a scope that was just entered gives back the scopes one had before.
pub proof fn law_pop_undoes_push<S>(before: Seq<Map<Seq<char>, S>>)
    ensures
        before.push(Map::empty()).drop_last() == before,
{
    assert(before.push(Map::empty()).drop_last() =~= before);
}

/// The scopes after declaring each of `decls` in turn in the innermost scope.
pub open spec fn declare_all<S>(scopes: Seq<Map<Seq<char>, S>>, decls: Seq<(Seq<char>, S)>) -> Seq<
    Map<Seq<char>, S>,
>
    decreases decls.len(),
{
    if decls.len() == 0 {
        scopes
    } else {
        let s = declare_all(scopes, decls.drop_last());
        s.update(s.len() - 1, s.last().insert(decls.last().0, decls.last().1))
    }
}

/// Entering a scope, declaring any names in it and leaving it gives back the scopes
/// one had before: what was declared in the scope is gone with it.
pub proof fn law_scope_declarations_dropped<S>(
    before: Seq<Map<Seq<char>, S>>,
    decls: Seq<(Seq<char>, S)>,
)
    ensures
        declare_all(before.push(Map::empty()), decls).len() == before.len() + 1,
        declare_all(before.push(Map::empty()), decls).drop_last() == before,
    decreases decls.len(),
{
    if decls.len() == 0 {
        assert(before.push(Map::empty()).drop_last() =~= before);
    } else {
        law_scope_declarations_dropped(before, decls.drop_last());
        let s = declare_all(before.push(Map::empty()), decls.drop_last());
        assert(s.update(s.len() - 1, s.last().insert(decls.last().0, decls.last().1)).drop_last()
            =~= s.drop_last());
    }
}

/// A fresh inner scope hides nothing: lookups see what they saw before it.
pub proof fn law_empty_scope_transparent<S>(scopes: Seq<Map<Seq<char>, S>>, name: Seq<char>)
    ensures
        scopes_lookup(scopes.push(Map::empty()), name) == scopes_lookup(scopes, name),
{
    assert(scopes.push(Map::empty()).drop_last() =~= scopes);
}

/// A name declared in the innermost scope resolves to its declaration, whatever
/// outer scopes declare under the same name.
pub proof fn law_declared_shadows<S>(
    scopes: Seq<Map<Seq<char>, S>>,
    name: Seq<char>,
    symbol: S,
)
    requires
        scopes.len() > 0,
    ensures
        scopes_lookup(scopes.update(scopes.len() - 1, scopes.last().insert(name, symbol)), name)
            == Some(symbol),
{
}

} // verus!
