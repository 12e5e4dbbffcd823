//! Models of declarations: what the module transformations and their contracts speak
//! of, and how the module's operations act on them.
use crate::ir::{Body, Instr, SymbolRef, VariableInfo};
use crate::assoc::{assoc_distinct, assoc_keep, assoc_map, lemma_assoc_keys, lemma_assoc_found};
use crate::module::{symbol_names, Function, TypeAlias};
use crate::symbol::Symbol;
use crate::types::{fields_view, opt_str_view, TypeModel};
use vstd::prelude::*;

verus! {

broadcast use {vstd::std_specs::vec::group_vec_axioms, vstd::seq::group_seq_axioms};

/// A type declaration as a model: its name, its type parameters and its type.
pub type AliasEntry = (Seq<char>, (Seq<Seq<char>>, TypeModel));

/// The type declarations of a module as models.
pub open spec fn entries_view(s: Seq<(Symbol, TypeAlias)>) -> Seq<AliasEntry> {
    s.map_values(|e: (Symbol, TypeAlias)| (e.0@, (symbol_names(e.1.generics@), e.1.type_@)))
}


/// The declaration of `name` in a list of declarations, if any.
pub open spec fn lookup<V>(s: Seq<(Seq<char>, V)>, name: Seq<char>) -> Option<V> {
    if exists|i: int| 0 <= i < s.len() && s[i].0 == name {
        Some(s[choose|i: int| 0 <= i < s.len() && s[i].0 == name].1)
    } else {
        None
    }
}

/// Declare `name` as `v`: in place of its declaration if there is one, else after the
/// others.
pub open spec fn put<V>(s: Seq<(Seq<char>, V)>, name: Seq<char>, v: V) -> Seq<(Seq<char>, V)> {
    if exists|i: int| 0 <= i < s.len() && s[i].0 == name {
        s.update(choose|i: int| 0 <= i < s.len() && s[i].0 == name, (name, v))
    } else {
        s.push((name, v))
    }
}

/// A variable of a body, as a model.
pub ghost struct VarModel {
    pub ty: TypeModel,
    pub arg: bool,
    pub name: Option<Seq<char>>,
}

/// A body, as a model.
pub ghost struct BodyModel {
    pub variables: Seq<VarModel>,
    pub symbols: Seq<(Seq<char>, Seq<TypeModel>)>,
    pub label_names: Seq<Option<Seq<char>>>,
    pub instructions: Seq<Instr>,
}

/// A function declaration, as a model.
pub ghost struct FnModel {
    pub generics: Seq<Seq<char>>,
    pub params: Seq<(Option<Seq<char>>, TypeModel)>,
    pub return_type: Option<TypeModel>,
    pub body: Option<BodyModel>,
}

pub open spec fn var_model(v: VariableInfo) -> VarModel {
    VarModel { ty: v.ty@, arg: v.arg, name: opt_str_view(v.name) }
}

pub open spec fn body_model(b: Body) -> BodyModel {
    BodyModel {
        variables: b.variables@.map_values(|v: VariableInfo| var_model(v)),
        symbols: b.symbols@.map_values(|s: SymbolRef| s@),
        label_names: b.label_names@.map_values(|n: Option<String>| opt_str_view(n)),
        instructions: b.instructions@,
    }
}

pub open spec fn fn_model(f: Function) -> FnModel {
    FnModel {
        generics: crate::module::symbol_names(f.generics@),
        params: fields_view(f.params@),
        return_type: match f.return_type {
            Some(t) => Some(t@),
            None => None,
        },
        body: match f.body {
            Some(b) => Some(body_model(b)),
            None => None,
        },
    }
}

/// The function declarations of a module as models.
pub open spec fn fn_entries_view(s: Seq<(Symbol, Function)>) -> Seq<(Seq<char>, FnModel)> {
    s.map_values(|e: (Symbol, Function)| (e.0@, fn_model(e.1)))
}

pub proof fn lemma_put_type(old: Seq<(Symbol, TypeAlias)>, new: Seq<(Symbol, TypeAlias)>, name: Symbol, a: TypeAlias)
    requires
        crate::assoc::assoc_distinct(old),
        (exists|i: int| 0 <= i < old.len() && old[i].0@ == name@) ==> (exists|i: int|
            0 <= i < old.len() && old[i].0@ == name@ && new == old.update(i, (name, a))),
        !(exists|i: int| 0 <= i < old.len() && old[i].0@ == name@) ==> new == old.push((name, a)),
    ensures
        entries_view(new) == put(entries_view(old), name@, (symbol_names(a.generics@), a.type_@)),
{
    let v = entries_view(old);
    let av = (symbol_names(a.generics@), a.type_@);
    if exists|i: int| 0 <= i < old.len() && old[i].0@ == name@ {
        let i = choose|i: int| 0 <= i < old.len() && old[i].0@ == name@ && new == old.update(i, (name, a));
        assert(v[i].0 == name@);
        let j = choose|j: int| 0 <= j < v.len() && v[j].0 == name@;
        assert(old[j].0@ == name@);
        assert(i == j);
        assert(entries_view(new) =~= v.update(i, (name@, av)));
    } else {
        assert(!(exists|j: int| 0 <= j < v.len() && v[j].0 == name@)) by {
            if exists|j: int| 0 <= j < v.len() && v[j].0 == name@ {
                let j = choose|j: int| 0 <= j < v.len() && v[j].0 == name@;
                assert(old[j].0@ == name@);
            }
        }
        assert(entries_view(new) =~= v.push((name@, av)));
    }
}


pub proof fn lemma_put_fn(old: Seq<(Symbol, Function)>, new: Seq<(Symbol, Function)>, name: Symbol, f: Function)
    requires
        assoc_distinct(old),
        (exists|i: int| 0 <= i < old.len() && old[i].0@ == name@) ==> (exists|i: int|
            0 <= i < old.len() && old[i].0@ == name@ && new == old.update(i, (name, f))),
        !(exists|i: int| 0 <= i < old.len() && old[i].0@ == name@) ==> new == old.push((name, f)),
    ensures
        fn_entries_view(new) == put(fn_entries_view(old), name@, fn_model(f)),
{
    let v = fn_entries_view(old);
    if exists|i: int| 0 <= i < old.len() && old[i].0@ == name@ {
        let i = choose|i: int| 0 <= i < old.len() && old[i].0@ == name@ && new == old.update(i, (name, f));
        assert(v[i].0 == name@);
        let j = choose|j: int| 0 <= j < v.len() && v[j].0 == name@;
        assert(old[j].0@ == name@);
        assert(i == j);
        assert(fn_entries_view(new) =~= v.update(i, (name@, fn_model(f))));
    } else {
        assert(!(exists|j: int| 0 <= j < v.len() && v[j].0 == name@)) by {
            if exists|j: int| 0 <= j < v.len() && v[j].0 == name@ {
                let j = choose|j: int| 0 <= j < v.len() && v[j].0 == name@;
                assert(old[j].0@ == name@);
            }
        }
        assert(fn_entries_view(new) =~= v.push((name@, fn_model(f))));
    }
}

/// Looking a name up in the models agrees with looking it up in the declarations.
pub proof fn lemma_lookup_type(s: Seq<(Symbol, TypeAlias)>, key: Seq<char>)
    requires
        assoc_distinct(s),
    ensures
        lookup(entries_view(s), key) == if assoc_map(s).contains_key(key) {
            Some((symbol_names(assoc_map(s)[key].generics@), assoc_map(s)[key].type_@))
        } else {
            None
        },
{
    let v = entries_view(s);
    lemma_assoc_keys(s, key);
    if exists|i: int| 0 <= i < v.len() && v[i].0 == key {
        let i = choose|i: int| 0 <= i < v.len() && v[i].0 == key;
        assert(s[i].0@ == key);
        lemma_assoc_found(s, i, key);
    } else {
        if assoc_map(s).contains_key(key) {
            let i = choose|i: int| 0 <= i < s.len() && s[i].0@ == key;
            assert(v[i].0 == key);
        }
    }
}

/// Looking a name up in the models agrees with looking it up in the declarations.
pub proof fn lemma_lookup_fn(s: Seq<(Symbol, Function)>, key: Seq<char>)
    requires
        assoc_distinct(s),
    ensures
        lookup(fn_entries_view(s), key) == if assoc_map(s).contains_key(key) {
            Some(fn_model(assoc_map(s)[key]))
        } else {
            None
        },
{
    let v = fn_entries_view(s);
    lemma_assoc_keys(s, key);
    if exists|i: int| 0 <= i < v.len() && v[i].0 == key {
        let i = choose|i: int| 0 <= i < v.len() && v[i].0 == key;
        assert(s[i].0@ == key);
        lemma_assoc_found(s, i, key);
    } else {
        if assoc_map(s).contains_key(key) {
            let i = choose|i: int| 0 <= i < s.len() && s[i].0@ == key;
            assert(v[i].0 == key);
        }
    }
}

/// The declarations whose name is not in `names`, in their order.
pub open spec fn without<V>(s: Seq<(Seq<char>, V)>, names: Set<Seq<char>>) -> Seq<(Seq<char>, V)>
    decreases s.len(),
{
    if s.len() == 0 {
        Seq::empty()
    } else {
        without(s.drop_last(), names) + if names.contains(s.last().0) {
            Seq::empty()
        } else {
            seq![s.last()]
        }
    }
}

pub proof fn lemma_keep_type(s: Seq<(Symbol, TypeAlias)>, names: Set<Seq<char>>)
    ensures
        entries_view(assoc_keep(s, names)) == without(entries_view(s), names),
    decreases s.len(),
{
    if s.len() > 0 {
        lemma_keep_type(s.drop_last(), names);
        assert(entries_view(s).drop_last() =~= entries_view(s.drop_last()));
        let k = assoc_keep(s.drop_last(), names);
        if names.contains(s.last().0@) {
            assert(assoc_keep(s, names) =~= k);
        } else {
            assert(entries_view(k.push(s.last())) =~= entries_view(k).push(entries_view(s).last()));
            assert(assoc_keep(s, names) =~= k.push(s.last()));
        }
    }
}

pub proof fn lemma_keep_fn(s: Seq<(Symbol, Function)>, names: Set<Seq<char>>)
    ensures
        fn_entries_view(assoc_keep(s, names)) == without(fn_entries_view(s), names),
    decreases s.len(),
{
    if s.len() > 0 {
        lemma_keep_fn(s.drop_last(), names);
        assert(fn_entries_view(s).drop_last() =~= fn_entries_view(s.drop_last()));
        let k = assoc_keep(s.drop_last(), names);
        if names.contains(s.last().0@) {
            assert(assoc_keep(s, names) =~= k);
        } else {
            assert(fn_entries_view(k.push(s.last())) =~= fn_entries_view(k).push(fn_entries_view(s).last()));
            assert(assoc_keep(s, names) =~= k.push(s.last()));
        }
    }
}

} // verus!
