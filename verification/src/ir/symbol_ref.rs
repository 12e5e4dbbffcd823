//! Symbols a body uses, each listed once.
use crate::symbol::Symbol;
use crate::types::{types_view, Type, TypeModel};
use vstd::prelude::*;

verus! {

/// Id of a symbol (index into list of referenced symbols).
#[derive(Clone, Copy, Debug, PartialEq, Eq, Structural, PartialOrd, Ord, Hash)]
pub struct SymbolId(pub u32);

/// Reference to a symbol.
#[derive(Debug)]
pub struct SymbolRef {
    /// Symbol name.
    pub name: Symbol,
    /// A set of generic arguments.
    pub generics: Vec<Type>,
}

impl View for SymbolRef {
    type V = (Seq<char>, Seq<TypeModel>);

    open spec fn view(&self) -> (Seq<char>, Seq<TypeModel>) {
        (self.name@, types_view(self.generics@))
    }
}

impl super::Body {
    /// Retrieve the [`SymbolRef`] by ID.
    pub fn symbol(&self, id: SymbolId) -> (r: &SymbolRef)
        requires
            id.0 < self.symbols@.len(),
        ensures
            *r == self.symbols@[id.0 as int],
    {
        &self.symbols[id.0 as usize]
    }
}

/// The symbol references as models.
pub open spec fn symbol_views(s: Seq<SymbolRef>) -> Seq<(Seq<char>, Seq<TypeModel>)> {
    s.map_values(|r: SymbolRef| r@)
}

/// No model occurs twice.
pub open spec fn views_distinct(s: Seq<(Seq<char>, Seq<TypeModel>)>) -> bool {
    forall|i: int, j: int| 0 <= i < j < s.len() ==> s[i] != s[j]
}

/// `k` is the first position of `key` in `s`.
pub open spec fn first_at(s: Seq<(Seq<char>, Seq<TypeModel>)>, key: (Seq<char>, Seq<TypeModel>), k: int) -> bool {
    0 <= k < s.len() && s[k] == key && forall|j: int| 0 <= j < k ==> s[j] != key
}

/// Using a symbol, on the models: the list is kept and the first index of the symbol's
/// entry given when it is there; else the symbol is appended and its new index given.
pub open spec fn use_symbol_model(s: Seq<(Seq<char>, Seq<TypeModel>)>, key: (Seq<char>, Seq<TypeModel>)) -> (
    Seq<(Seq<char>, Seq<TypeModel>)>,
    int,
) {
    if exists|k: int| 0 <= k < s.len() && s[k] == key {
        (s, choose|k: int| first_at(s, key, k))
    } else {
        (s.push(key), s.len() as int)
    }
}

proof fn lemma_first_at(s: Seq<(Seq<char>, Seq<TypeModel>)>, key: (Seq<char>, Seq<TypeModel>), k: int)
    requires
        0 <= k < s.len(),
        s[k] == key,
    ensures
        exists|m: int| first_at(s, key, m),
    decreases k,
{
    if exists|j: int| 0 <= j < k && s[j] == key {
        let j = choose|j: int| 0 <= j < k && s[j] == key;
        lemma_first_at(s, key, j);
    } else {
        assert(first_at(s, key, k));
    }
}

proof fn lemma_first_at_unique(
    s: Seq<(Seq<char>, Seq<TypeModel>)>,
    key: (Seq<char>, Seq<TypeModel>),
    a: int,
    b: int,
)
    requires
        first_at(s, key, a),
        first_at(s, key, b),
    ensures
        a == b,
{
    if a < b {
        assert(s[a] != key);
    } else if b < a {
        assert(s[b] != key);
    }
}

/// Using a symbol that was used before gives back the id it got then and leaves the
/// symbol list as it is; a list that holds no symbol twice keeps holding none twice.
pub proof fn law_use_symbol_idempotent(
    s: Seq<(Seq<char>, Seq<TypeModel>)>,
    key: (Seq<char>, Seq<TypeModel>),
)
    ensures
        use_symbol_model(use_symbol_model(s, key).0, key) == use_symbol_model(s, key),
        views_distinct(s) ==> views_distinct(use_symbol_model(s, key).0),
{
    let (s1, id1) = use_symbol_model(s, key);
    if exists|k: int| 0 <= k < s.len() && s[k] == key {
        let k = choose|k: int| 0 <= k < s.len() && s[k] == key;
        lemma_first_at(s, key, k);
    } else {
        assert(s1[s.len() as int] == key);
        assert(first_at(s1, key, s.len() as int));
        if views_distinct(s) {
            assert forall|i: int, j: int| 0 <= i < j < s1.len() implies s1[i] != s1[j] by {
                if j == s.len() {
                    assert(s1[i] == s[i]);
                }
            }
        }
    }
    assert(first_at(s1, key, id1));
    let k2 = choose|k: int| first_at(s1, key, k);
    lemma_first_at_unique(s1, key, k2, id1);
}

impl super::Body {
    /// No symbol is referenced twice in the symbol list.
    pub open spec fn symbols_distinct(&self) -> bool {
        forall|i: int, j: int|
            0 <= i < j < self.symbols@.len() ==> self.symbols@[i]@ != self.symbols@[j]@
    }

    /// Reference a symbol from the global namespace, adding it to the list of symbols
    /// (unless already there), returns the ID to be used with [`Self::symbol`].
    pub fn use_symbol(&mut self, name: Symbol, generics: Vec<Type>) -> (id: SymbolId)
        requires
            use_symbol_model(symbol_views(old(self).symbols@), (name@, types_view(generics@))).1
                <= u32::MAX,
        ensures
            old(self).symbols_distinct() ==> final(self).symbols_distinct(),
            id.0 < final(self).symbols@.len(),
            final(self).symbols@[id.0 as int]@ == (name@, types_view(generics@)),
            (exists|k: int|
                0 <= k < old(self).symbols@.len() && old(self).symbols@[k]@ == (
                    name@,
                    types_view(generics@),
                )) ==> final(self).symbols@ == old(self).symbols@,
            !(exists|k: int|
                0 <= k < old(self).symbols@.len() && old(self).symbols@[k]@ == (
                    name@,
                    types_view(generics@),
                )) ==> final(self).symbols@ == old(self).symbols@.push(
                SymbolRef { name, generics },
            ) && id.0 == old(self).symbols@.len(),
            symbol_views(final(self).symbols@) == use_symbol_model(
                symbol_views(old(self).symbols@),
                (name@, types_view(generics@)),
            ).0,
            id.0 == use_symbol_model(symbol_views(old(self).symbols@), (name@, types_view(generics@))).1,
            final(self).variables == old(self).variables,
            final(self).label_names == old(self).label_names,
            final(self).instructions == old(self).instructions,
    {
        let ghost key = (name@, types_view(generics@));
        let ghost vs = symbol_views(old(self).symbols@);
        let mut i: usize = 0;
        while i < self.symbols.len()
            invariant
                i <= self.symbols@.len(),
                *self == *old(self),
                key == (name@, types_view(generics@)),
                vs == symbol_views(old(self).symbols@),
                use_symbol_model(vs, key).1 <= u32::MAX,
                forall|k: int|
                    0 <= k < i ==> self.symbols@[k]@ != (name@, types_view(generics@)),
            decreases self.symbols@.len() - i,
        {
            let same_generics = crate::types::same_type_lists(&self.symbols[i].generics, &generics);
            if self.symbols[i].name.same(&name) && same_generics {
                proof {
                    assert(self.symbols@[i as int]@ == key);
                    assert(vs[i as int] == old(self).symbols@[i as int]@);
                    assert(vs[i as int] == key);
                    assert forall|j: int| 0 <= j < i implies vs[j] != key by {
                        assert(vs[j] == old(self).symbols@[j]@);
                    }
                    assert(first_at(vs, key, i as int));
                    let k = choose|k: int| first_at(vs, key, k);
                    lemma_first_at_unique(vs, key, k, i as int);
                }
                return SymbolId(i as u32);
            }
            i += 1;
        }
        proof {
            assert forall|k: int| 0 <= k < vs.len() implies vs[k] != key by {
                assert(vs[k] == old(self).symbols@[k]@);
            }
        }
        let id = SymbolId(self.symbols.len() as u32);
        self.symbols.push(SymbolRef { name, generics });
        assert(symbol_views(self.symbols@) =~= vs.push(key));
        id
    }
}

} // verus!
