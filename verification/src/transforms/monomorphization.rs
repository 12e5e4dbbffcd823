//! Monomorphization: each use of a generic type or function with type arguments is
//! given a non-generic copy of its own, instantiated with those arguments.
use crate::display::generic_args_text;
use crate::ir::{Body, Instr, SymbolRef, VariableInfo};
use crate::module::{zip_bindings, Function, Module, TypeAlias};
use crate::symbol::Symbol;
use crate::model::{
    without, body_model, entries_view, fn_entries_view, fn_model, lookup, put, var_model, AliasEntry, BodyModel,
    FnModel, VarModel,
};
use crate::transforms::name_anonymous::copy_symbols;
use crate::types::{
    fields_inst, fields_view, lemma_fields_view_take, lemma_types_view_take, list_inst, opt_str_view,
    types_view, Type, TypeModel,
};
use vstd::prelude::*;

verus! {

broadcast use {vstd::std_specs::vec::group_vec_axioms, vstd::seq::group_seq_axioms};

/// What monomorphization works on: the declarations, and the generic uses already
/// given a copy.
pub ghost struct MonoState {
    pub types: Seq<AliasEntry>,
    pub functions: Seq<(Seq<char>, FnModel)>,
    pub seen_types: Set<(Seq<char>, Seq<TypeModel>)>,
    pub seen_fns: Set<(Seq<char>, Seq<TypeModel>)>,
}

/// Name for a monomorphized version of a symbol: the name, followed by the generic
/// arguments in angle brackets when there are any.
pub open spec fn mono_name(name: Seq<char>, args: Seq<TypeModel>) -> Seq<char> {
    name + generic_args_text(args)
}

/// Bindings of the names to the arguments, pairing them up to the shorter list.
pub open spec fn bind_names(names: Seq<Seq<char>>, args: Seq<TypeModel>) -> Map<Seq<char>, TypeModel> {
    zip_bindings(names, args, if names.len() < args.len() { names.len() } else { args.len() })
}

/// Monomorphize the uses in `t`. A use of an alias with arguments becomes a use of the
/// alias's copy for those arguments, named by [`mono_name`]; the first time a use is
/// met, the alias is instantiated with the arguments, monomorphized in turn, and
/// declared under that name. `None` where it fails: an alias that is not declared, a
/// type parameter met, or more nested copies than `fuel` allows.
pub open spec fn mono_ty(st: MonoState, t: TypeModel, fuel: nat) -> Option<(MonoState, TypeModel)>
    decreases fuel, t, 0nat,
{
    match t {
        TypeModel::Symbol(name, args) => if args.len() == 0 {
            Some((st, t))
        } else {
            let moname = mono_name(name, args);
            if st.seen_types.contains((name, args)) {
                Some((st, TypeModel::Symbol(moname, Seq::empty())))
            } else {
                match lookup(st.types, name) {
                    Some(alias) => if fuel == 0 {
                        None
                    } else {
                        let st1 = MonoState { seen_types: st.seen_types.insert((name, args)), ..st };
                        let inst = alias.1.instantiate(bind_names(alias.0, args));
                        match mono_ty(st1, inst, (fuel - 1) as nat) {
                            Some((st2, t2)) => Some(
                                (
                                    MonoState {
                                        types: put(st2.types, moname, (Seq::empty(), t2)),
                                        ..st2
                                    },
                                    TypeModel::Symbol(moname, Seq::empty()),
                                ),
                            ),
                            None => None,
                        }
                    },
                    None => None,
                }
            }
        },
        TypeModel::Array(ty, len) => match mono_ty(st, *ty, fuel) {
            Some((st1, t1)) => Some((st1, TypeModel::Array(Box::new(t1), len))),
            None => None,
        },
        TypeModel::Struct(fields) => match mono_fields(st, fields, fuel) {
            Some((st1, f1)) => Some((st1, TypeModel::Struct(f1))),
            None => None,
        },
        TypeModel::Ptr(ty, mutable) => match mono_ty(st, *ty, fuel) {
            Some((st1, t1)) => Some((st1, TypeModel::Ptr(Box::new(t1), mutable))),
            None => None,
        },
        TypeModel::FnPtr(params, return_type) => match mono_list(st, params, fuel) {
            Some((st1, p1)) => match return_type {
                Some(ret) => match mono_ty(st1, *ret, fuel) {
                    Some((st2, r2)) => Some((st2, TypeModel::FnPtr(p1, Some(Box::new(r2))))),
                    None => None,
                },
                None => Some((st1, TypeModel::FnPtr(p1, None))),
            },
            None => None,
        },
        TypeModel::Param(_) => None,
        _ => Some((st, t)),
    }
}

/// Monomorphize each of the types, left to right.
pub open spec fn mono_list(st: MonoState, s: Seq<TypeModel>, fuel: nat) -> Option<
    (MonoState, Seq<TypeModel>),
>
    decreases fuel, s, 1nat,
{
    if s.len() == 0 {
        Some((st, Seq::empty()))
    } else {
        match mono_list(st, s.drop_last(), fuel) {
            Some((st1, prev)) => match mono_ty(st1, s.last(), fuel) {
                Some((st2, t)) => Some((st2, prev.push(t))),
                None => None,
            },
            None => None,
        }
    }
}

/// Monomorphize each of the field types, left to right.
pub open spec fn mono_fields(st: MonoState, s: Seq<(Option<Seq<char>>, TypeModel)>, fuel: nat) -> Option<
    (MonoState, Seq<(Option<Seq<char>>, TypeModel)>),
>
    decreases fuel, s, 1nat,
{
    if s.len() == 0 {
        Some((st, Seq::empty()))
    } else {
        match mono_fields(st, s.drop_last(), fuel) {
            Some((st1, prev)) => match mono_ty(st1, s.last().1, fuel) {
                Some((st2, t)) => Some((st2, prev.push((s.last().0, t)))),
                None => None,
            },
            None => None,
        }
    }
}


/// A function with its type parameters bound to `args` everywhere (parameter, return
/// and variable types, generic arguments of the symbols it uses), and no type
/// parameters left to declare.
pub open spec fn inst_fn(f: FnModel, args: Seq<TypeModel>) -> FnModel {
    let m = bind_names(f.generics, args);
    FnModel {
        generics: Seq::empty(),
        params: fields_inst(f.params, m),
        return_type: match f.return_type {
            Some(t) => Some(t.instantiate(m)),
            None => None,
        },
        body: match f.body {
            Some(b) => Some(
                BodyModel {
                    variables: b.variables.map_values(
                        |v: VarModel| VarModel { ty: v.ty.instantiate(m), ..v },
                    ),
                    symbols: b.symbols.map_values(
                        |s: (Seq<char>, Seq<TypeModel>)| (s.0, list_inst(s.1, m)),
                    ),
                    ..b
                },
            ),
            None => None,
        },
    }
}

/// Monomorphize the types of the variables, left to right.
pub open spec fn mono_vars(st: MonoState, s: Seq<VarModel>, fuel: nat) -> Option<(MonoState, Seq<VarModel>)>
    decreases s.len(),
{
    if s.len() == 0 {
        Some((st, Seq::empty()))
    } else {
        match mono_vars(st, s.drop_last(), fuel) {
            Some((st1, prev)) => match mono_ty(st1, s.last().ty, fuel) {
                Some((st2, t)) => Some((st2, prev.push(VarModel { ty: t, ..s.last() }))),
                None => None,
            },
            None => None,
        }
    }
}

/// Monomorphize the symbol uses of a body, left to right. A use of a function with
/// generic arguments becomes a use of the function's copy for those arguments, named
/// by [`mono_name`]; the first time a use is met, the function is instantiated with
/// the arguments (which must be as many as its type parameters), monomorphized in
/// turn, and declared under that name.
pub open spec fn mono_symbols(st: MonoState, s: Seq<(Seq<char>, Seq<TypeModel>)>, fuel: nat) -> Option<
    (MonoState, Seq<(Seq<char>, Seq<TypeModel>)>),
>
    decreases fuel, 0nat, s.len(),
{
    if s.len() == 0 {
        Some((st, Seq::empty()))
    } else {
        match mono_symbols(st, s.drop_last(), fuel) {
            Some((st1, prev)) => {
                let name = s.last().0;
                let args = s.last().1;
                if args.len() == 0 {
                    Some((st1, prev.push(s.last())))
                } else {
                    let moname = mono_name(name, args);
                    if st1.seen_fns.contains((name, args)) {
                        Some((st1, prev.push((moname, Seq::empty()))))
                    } else {
                        match lookup(st1.functions, name) {
                            Some(f) => if fuel == 0 || args.len() != f.generics.len() {
                                None
                            } else {
                                let st2 = MonoState { seen_fns: st1.seen_fns.insert((name, args)), ..st1 };
                                match mono_fn(st2, inst_fn(f, args), (fuel - 1) as nat) {
                                    Some((st3, f3)) => Some(
                                        (
                                            MonoState { functions: put(st3.functions, moname, f3), ..st3 },
                                            prev.push((moname, Seq::empty())),
                                        ),
                                    ),
                                    None => None,
                                }
                            },
                            None => None,
                        }
                    }
                }
            },
            None => None,
        }
    }
}

/// Monomorphize a function: its parameter types, its return type, the types of its
/// body's variables, then the symbols its body uses.
pub open spec fn mono_fn(st: MonoState, f: FnModel, fuel: nat) -> Option<(MonoState, FnModel)>
    decreases fuel, 1nat, 0nat,
{
    match mono_fields(st, f.params, fuel) {
        Some((st1, params)) => {
            let ret: Option<(MonoState, Option<TypeModel>)> = match f.return_type {
                Some(t) => match mono_ty(st1, t, fuel) {
                    Some((st2, t2)) => Some((st2, Some(t2))),
                    None => None,
                },
                None => Some((st1, None)),
            };
            match ret {
                Some((st2, return_type)) => match f.body {
                    Some(b) => match mono_vars(st2, b.variables, fuel) {
                        Some((st3, variables)) => match mono_symbols(st3, b.symbols, fuel) {
                            Some((st4, symbols)) => Some(
                                (
                                    st4,
                                    FnModel {
                                        params,
                                        return_type,
                                        body: Some(BodyModel { variables, symbols, ..b }),
                                        ..f
                                    },
                                ),
                            ),
                            None => None,
                        },
                        None => None,
                    },
                    None => Some((st2, FnModel { params, return_type, ..f })),
                },
                None => None,
            }
        },
        None => None,
    }
}

/// Monomorphize the non-generic type declarations from position `i` to `n`, each in
/// turn; a declaration gets its monomorphized type back in its place.
pub open spec fn mono_types_from(st: MonoState, i: nat, n: nat, fuel: nat) -> Option<MonoState>
    decreases n - i,
{
    if i >= n || i >= st.types.len() {
        Some(st)
    } else {
        let e = st.types[i as int];
        if e.1.0.len() != 0 {
            mono_types_from(st, i + 1, n, fuel)
        } else {
            match mono_ty(st, e.1.1, fuel) {
                Some((st1, t1)) => mono_types_from(
                    MonoState { types: st1.types.update(i as int, (e.0, (e.1.0, t1))), ..st1 },
                    i + 1,
                    n,
                    fuel,
                ),
                None => None,
            }
        }
    }
}

/// Monomorphize the non-generic function declarations from position `i` to `n`, each
/// in turn; a declaration gets its monomorphized function back in its place.
pub open spec fn mono_fns_from(st: MonoState, i: nat, n: nat, fuel: nat) -> Option<MonoState>
    decreases n - i,
{
    if i >= n || i >= st.functions.len() {
        Some(st)
    } else {
        let e = st.functions[i as int];
        if e.1.generics.len() != 0 {
            mono_fns_from(st, i + 1, n, fuel)
        } else {
            match mono_fn(st, e.1, fuel) {
                Some((st1, f1)) => mono_fns_from(
                    MonoState { functions: st1.functions.update(i as int, (e.0, f1)), ..st1 },
                    i + 1,
                    n,
                    fuel,
                ),
                None => None,
            }
        }
    }
}

/// The names of the declarations that were given copies.
pub open spec fn seen_names(seen: Set<(Seq<char>, Seq<TypeModel>)>) -> Set<Seq<char>> {
    seen.map(|p: (Seq<char>, Seq<TypeModel>)| p.0)
}

/// Monomorphization of a module: first the non-generic type declarations, then the
/// non-generic functions; at the end the declarations that were given copies are
/// dropped. `None` where it fails, or takes more nested copies than `fuel` allows.
pub open spec fn mono_module(
    types: Seq<AliasEntry>,
    functions: Seq<(Seq<char>, FnModel)>,
    fuel: nat,
) -> Option<(Seq<AliasEntry>, Seq<(Seq<char>, FnModel)>)> {
    let st0 = MonoState { types, functions, seen_types: Set::empty(), seen_fns: Set::empty() };
    match mono_types_from(st0, 0, types.len(), fuel) {
        Some(st1) => match mono_fns_from(st1, 0, functions.len(), fuel) {
            Some(st2) => Some(
                (
                    without(st2.types, seen_names(st2.seen_types)),
                    without(st2.functions, seen_names(st2.seen_fns)),
                ),
            ),
            None => None,
        },
        None => None,
    }
}


/// The generic uses given copies so far, as a set.
pub open spec fn seen_set(s: Seq<(Symbol, Vec<Type>)>) -> Set<(Seq<char>, Seq<TypeModel>)> {
    Set::new(
        |p: (Seq<char>, Seq<TypeModel>)|
            exists|i: int| 0 <= i < s.len() && (s[i].0@, types_view(s[i].1@)) == p,
    )
}

/// The state of a module under monomorphization, as a model.
pub open spec fn mono_state(
    module: &Module,
    seen_types: Seq<(Symbol, Vec<Type>)>,
    seen_fns: Seq<(Symbol, Vec<Type>)>,
) -> MonoState {
    MonoState {
        types: entries_view(module.type_list()),
        functions: fn_entries_view(module.function_list()),
        seen_types: seen_set(seen_types),
        seen_fns: seen_set(seen_fns),
    }
}

proof fn lemma_seen_push(s: Seq<(Symbol, Vec<Type>)>, x: (Symbol, Vec<Type>))
    ensures
        seen_set(s.push(x)) == seen_set(s).insert((x.0@, types_view(x.1@))),
{
    let a = seen_set(s.push(x));
    let b = seen_set(s).insert((x.0@, types_view(x.1@)));
    assert forall|p: (Seq<char>, Seq<TypeModel>)| a.contains(p) == b.contains(p) by {
        if a.contains(p) {
            let i = choose|i: int| 0 <= i < s.push(x).len() && (s.push(x)[i].0@, types_view(s.push(x)[i].1@)) == p;
            if i < s.len() {
                assert(s.push(x)[i] == s[i]);
            }
        }
        if b.contains(p) && p != (x.0@, types_view(x.1@)) {
            let i = choose|i: int| 0 <= i < s.len() && (s[i].0@, types_view(s[i].1@)) == p;
            assert(s.push(x)[i] == s[i]);
        }
        if p == (x.0@, types_view(x.1@)) {
            assert(s.push(x)[s.len() as int] == x);
        }
    }
    assert(a =~= b);
}

fn seen_contains(seen: &Vec<(Symbol, Vec<Type>)>, name: &Symbol, args: &Vec<Type>) -> (r: bool)
    ensures
        r == seen_set(seen@).contains((name@, types_view(args@))),
{
    let mut i: usize = 0;
    while i < seen.len()
        invariant
            i <= seen@.len(),
            forall|k: int| 0 <= k < i ==> (seen@[k].0@, types_view(seen@[k].1@)) != (name@, types_view(args@)),
        decreases seen@.len() - i,
    {
        let same_args = crate::types::same_type_lists(&seen[i].1, args);
        if seen[i].0.same(name) && same_args {
            assert(seen_set(seen@).contains((name@, types_view(args@))));
            return true;
        }
        i += 1;
    }
    false
}

impl Module {
    /// Get a name for a monomorphized version of a symbol: the name, followed by the
    /// generic arguments in angle brackets when there are any.
    pub fn monomorphized_name(&self, name: &Symbol, args: &Vec<Type>) -> (r: Symbol)
        ensures
            r@ == mono_name(name@, types_view(args@)),
    {
        if args.len() == 0 {
            proof {
                crate::types::lemma_types_view_len(args@);
            }
            assert(name@ + Seq::<char>::empty() =~= name@);
            name.copy()
        } else {
            let mut text = String::new();
            crate::text::push_str(&mut text, name.as_str());
            crate::display::push_generic_args(&mut text, args);
            Symbol::from_string(text)
        }
    }
}

proof fn lemma_mono_list_prefix(st: MonoState, s: Seq<TypeModel>, fuel: nat, k: int)
    requires
        0 <= k <= s.len(),
        mono_list(st, s, fuel) is Some,
    ensures
        mono_list(st, s.take(k), fuel) is Some,
    decreases s.len(),
{
    if k < s.len() {
        lemma_mono_list_prefix(st, s.drop_last(), fuel, k);
        assert(s.drop_last().take(k) =~= s.take(k));
    } else {
        assert(s.take(k) =~= s);
    }
}

proof fn lemma_mono_fields_prefix(st: MonoState, s: Seq<(Option<Seq<char>>, TypeModel)>, fuel: nat, k: int)
    requires
        0 <= k <= s.len(),
        mono_fields(st, s, fuel) is Some,
    ensures
        mono_fields(st, s.take(k), fuel) is Some,
    decreases s.len(),
{
    if k < s.len() {
        lemma_mono_fields_prefix(st, s.drop_last(), fuel, k);
        assert(s.drop_last().take(k) =~= s.take(k));
    } else {
        assert(s.take(k) =~= s);
    }
}

fn visit_list(
    module: &mut Module,
    seen_types: &mut Vec<(Symbol, Vec<Type>)>,
    seen_fns: &Vec<(Symbol, Vec<Type>)>,
    s: &Vec<Type>,
    fuel: Ghost<nat>,
) -> (r: Vec<Type>)
    requires
        old(module).wf(),
        mono_list(mono_state(old(module), old(seen_types)@, seen_fns@), types_view(s@), fuel@) is Some,
    ensures
        final(module).wf(),
        mono_state(final(module), final(seen_types)@, seen_fns@) == mono_list(
            mono_state(old(module), old(seen_types)@, seen_fns@),
            types_view(s@),
            fuel@,
        ).unwrap().0,
        types_view(r@) == mono_list(
            mono_state(old(module), old(seen_types)@, seen_fns@),
            types_view(s@),
            fuel@,
        ).unwrap().1,
    decreases fuel@, s, 1nat,
{
    let ghost st0 = mono_state(module, seen_types@, seen_fns@);
    let mut r: Vec<Type> = Vec::new();
    let mut i: usize = 0;
    proof {
        crate::types::lemma_types_view_prefix(s@, 0);
        assert(types_view(r@) =~= Seq::<TypeModel>::empty());
    }
    while i < s.len()
        invariant
            i <= s@.len(),
            module.wf(),
            mono_list(st0, types_view(s@), fuel@) is Some,
            st0 == mono_state(old(module), old(seen_types)@, seen_fns@),
            mono_list(st0, types_view(s@.take(i as int)), fuel@) == Some(
                (mono_state(module, seen_types@, seen_fns@), types_view(r@)),
            ),
        decreases s@.len() - i,
    {
        proof {
            crate::types::lemma_types_view_prefix(s@, i + 1);
            crate::types::lemma_types_view_prefix(s@, i as int);
            lemma_types_view_take(s@, i as int);
            lemma_mono_list_prefix(st0, types_view(s@), fuel@, i + 1);
            let v = types_view(s@.take(i as int));
            assert(v.push(s@[i as int]@).drop_last() =~= v);
        }
        let t = visit_ty(module, seen_types, seen_fns, &s[i], fuel);
        proof {
            assert(r@.push(t).drop_last() =~= r@);
        }
        r.push(t);
        i += 1;
    }
    proof {
        assert(s@.take(s@.len() as int) =~= s@);
    }
    r
}

fn visit_fields(
    module: &mut Module,
    seen_types: &mut Vec<(Symbol, Vec<Type>)>,
    seen_fns: &Vec<(Symbol, Vec<Type>)>,
    s: &Vec<(Option<String>, Type)>,
    fuel: Ghost<nat>,
) -> (r: Vec<(Option<String>, Type)>)
    requires
        old(module).wf(),
        mono_fields(mono_state(old(module), old(seen_types)@, seen_fns@), fields_view(s@), fuel@) is Some,
    ensures
        final(module).wf(),
        mono_state(final(module), final(seen_types)@, seen_fns@) == mono_fields(
            mono_state(old(module), old(seen_types)@, seen_fns@),
            fields_view(s@),
            fuel@,
        ).unwrap().0,
        fields_view(r@) == mono_fields(
            mono_state(old(module), old(seen_types)@, seen_fns@),
            fields_view(s@),
            fuel@,
        ).unwrap().1,
    decreases fuel@, s, 1nat,
{
    let ghost st0 = mono_state(module, seen_types@, seen_fns@);
    let mut r: Vec<(Option<String>, Type)> = Vec::new();
    let mut i: usize = 0;
    proof {
        crate::types::lemma_fields_view_prefix(s@, 0);
        assert(fields_view(r@) =~= Seq::<(Option<Seq<char>>, TypeModel)>::empty());
    }
    while i < s.len()
        invariant
            i <= s@.len(),
            module.wf(),
            mono_fields(st0, fields_view(s@), fuel@) is Some,
            st0 == mono_state(old(module), old(seen_types)@, seen_fns@),
            mono_fields(st0, fields_view(s@.take(i as int)), fuel@) == Some(
                (mono_state(module, seen_types@, seen_fns@), fields_view(r@)),
            ),
        decreases s@.len() - i,
    {
        proof {
            crate::types::lemma_fields_view_prefix(s@, i + 1);
            crate::types::lemma_fields_view_prefix(s@, i as int);
            lemma_fields_view_take(s@, i as int);
            lemma_mono_fields_prefix(st0, fields_view(s@), fuel@, i + 1);
            let v = fields_view(s@.take(i as int));
            assert(v.push((opt_str_view(s@[i as int].0), s@[i as int].1@)).drop_last() =~= v);
        }
        let t = visit_ty(module, seen_types, seen_fns, &s[i].1, fuel);
        let f = (crate::types::copy_opt_string(&s[i].0), t);
        proof {
            assert(r@.push(f).drop_last() =~= r@);
        }
        r.push(f);
        i += 1;
    }
    proof {
        assert(s@.take(s@.len() as int) =~= s@);
    }
    r
}

/// Monomorphize the uses in `t`, declaring the copies in `module` and recording the
/// uses given copies in `seen_types`.
fn visit_ty(
    module: &mut Module,
    seen_types: &mut Vec<(Symbol, Vec<Type>)>,
    seen_fns: &Vec<(Symbol, Vec<Type>)>,
    t: &Type,
    fuel: Ghost<nat>,
) -> (r: Type)
    requires
        old(module).wf(),
        mono_ty(mono_state(old(module), old(seen_types)@, seen_fns@), t@, fuel@) is Some,
    ensures
        final(module).wf(),
        mono_state(final(module), final(seen_types)@, seen_fns@) == mono_ty(
            mono_state(old(module), old(seen_types)@, seen_fns@),
            t@,
            fuel@,
        ).unwrap().0,
        r@ == mono_ty(mono_state(old(module), old(seen_types)@, seen_fns@), t@, fuel@).unwrap().1,
    decreases fuel@, t, 0nat,
{
    let ghost st0 = mono_state(module, seen_types@, seen_fns@);
    match t {
        Type::Symbol(name, args) => {
            proof {
                crate::types::lemma_types_view_len(args@);
            }
            let empty: Vec<Type> = Vec::new();
            assert(types_view(empty@) =~= Seq::<TypeModel>::empty());
            if args.len() == 0 {
                assert(types_view(args@) =~= Seq::<TypeModel>::empty());
                return Type::Symbol(name.copy(), empty);
            }
            let moname = module.monomorphized_name(name, args);
            if seen_contains(seen_types, name, args) {
                return Type::Symbol(moname, empty);
            }
            proof {
                crate::model::lemma_lookup_type(module.type_list(), name@);
            }
            let inst = module.get_ty(name).instantiate(args.as_slice());
            let ghost before = seen_types@;
            let entry = (name.copy(), crate::types::copy_types(args));
            seen_types.push(entry);
            proof {
                lemma_seen_push(before, entry);
            }
            let new_ty = visit_ty(module, seen_types, seen_fns, &inst, Ghost((fuel@ - 1) as nat));
            let ghost list = module.type_list();
            let alias = TypeAlias { generics: Vec::new(), type_: new_ty };
            let key = moname.copy();
            let ghost key_view = key;
            module.insert_ty(key, alias);
            proof {
                crate::model::lemma_put_type(list, module.type_list(), key_view, alias);
                assert(crate::module::symbol_names(alias.generics@) =~= Seq::<Seq<char>>::empty());
            }
            Type::Symbol(moname, empty)
        },
        Type::Array(ty, len) => Type::Array(Box::new(visit_ty(module, seen_types, seen_fns, ty, fuel)), *len),
        Type::Struct { fields } => Type::Struct { fields: visit_fields(module, seen_types, seen_fns, fields, fuel) },
        Type::Ptr(ty, mutable) => Type::Ptr(Box::new(visit_ty(module, seen_types, seen_fns, ty, fuel)), *mutable),
        Type::FnPtr { params, return_type } => {
            let params = visit_list(module, seen_types, seen_fns, params, fuel);
            match return_type {
                Some(ret) => Type::FnPtr {
                    params,
                    return_type: Some(Box::new(visit_ty(module, seen_types, seen_fns, ret, fuel))),
                },
                None => Type::FnPtr { params, return_type: None },
            }
        },
        Type::Param(_) => Type::Error,
        _ => t.deep_copy(),
    }
}


fn copy_variables(s: &Vec<VariableInfo>) -> (r: Vec<VariableInfo>)
    ensures
        r@.map_values(|v: VariableInfo| var_model(v)) == s@.map_values(|v: VariableInfo| var_model(v)),
{
    let mut r: Vec<VariableInfo> = Vec::new();
    let mut i: usize = 0;
    while i < s.len()
        invariant
            i <= s@.len(),
            r@.len() == i,
            forall|k: int| 0 <= k < i ==> var_model(#[trigger] r@[k]) == var_model(s@[k]),
        decreases s@.len() - i,
    {
        let v = &s[i];
        r.push(VariableInfo { ty: v.ty.deep_copy(), arg: v.arg, name: crate::types::copy_opt_string(&v.name) });
        i += 1;
    }
    assert(r@.map_values(|v: VariableInfo| var_model(v)) =~= s@.map_values(|v: VariableInfo| var_model(v)));
    r
}

fn copy_symbol_refs(s: &Vec<SymbolRef>) -> (r: Vec<SymbolRef>)
    ensures
        r@.map_values(|x: SymbolRef| x@) == s@.map_values(|x: SymbolRef| x@),
{
    let mut r: Vec<SymbolRef> = Vec::new();
    let mut i: usize = 0;
    while i < s.len()
        invariant
            i <= s@.len(),
            r@.len() == i,
            forall|k: int| 0 <= k < i ==> (#[trigger] r@[k])@ == s@[k]@,
        decreases s@.len() - i,
    {
        r.push(SymbolRef { name: s[i].name.copy(), generics: crate::types::copy_types(&s[i].generics) });
        i += 1;
    }
    assert(r@.map_values(|x: SymbolRef| x@) =~= s@.map_values(|x: SymbolRef| x@));
    r
}

fn copy_labels(s: &Vec<Option<String>>) -> (r: Vec<Option<String>>)
    ensures
        r@.map_values(|n: Option<String>| opt_str_view(n)) == s@.map_values(|n: Option<String>| opt_str_view(n)),
{
    let mut r: Vec<Option<String>> = Vec::new();
    let mut i: usize = 0;
    while i < s.len()
        invariant
            i <= s@.len(),
            r@.len() == i,
            forall|k: int| 0 <= k < i ==> opt_str_view(#[trigger] r@[k]) == opt_str_view(s@[k]),
        decreases s@.len() - i,
    {
        r.push(crate::types::copy_opt_string(&s[i]));
        i += 1;
    }
    assert(r@.map_values(|n: Option<String>| opt_str_view(n)) =~= s@.map_values(|n: Option<String>| opt_str_view(n)));
    r
}

fn copy_instrs(s: &Vec<Instr>) -> (r: Vec<Instr>)
    ensures
        r@ == s@,
{
    let mut r: Vec<Instr> = Vec::new();
    let mut i: usize = 0;
    while i < s.len()
        invariant
            i <= s@.len(),
            r@ == s@.take(i as int),
        decreases s@.len() - i,
    {
        r.push(s[i]);
        assert(r@ =~= s@.take(i + 1));
        i += 1;
    }
    assert(s@.take(s@.len() as int) =~= s@);
    r
}

impl Body {
    /// A copy of the body.
    pub fn deep_copy(&self) -> (r: Body)
        ensures
            body_model(r) == body_model(*self),
    {
        Body {
            variables: copy_variables(&self.variables),
            symbols: copy_symbol_refs(&self.symbols),
            label_names: copy_labels(&self.label_names),
            instructions: copy_instrs(&self.instructions),
        }
    }
}

impl Function {
    /// A copy of the function.
    pub fn deep_copy(&self) -> (r: Function)
        ensures
            fn_model(r) == fn_model(*self),
    {
        let generics = copy_symbols(&self.generics);
        Function {
            generics,
            params: crate::types::copy_fields(&self.params),
            return_type: match &self.return_type {
                Some(t) => Some(t.deep_copy()),
                None => None,
            },
            body: match &self.body {
                Some(b) => Some(b.deep_copy()),
                None => None,
            },
        }
    }

    /// Bind the function's type parameters to `args` everywhere in it (parameter,
    /// return and variable types, generic arguments of the symbols its body uses); it
    /// then has no type parameters.
    pub fn instantiate(&mut self, args: &[Type])
        requires
            args@.len() == old(self).generics@.len(),
        ensures
            fn_model(*final(self)) == inst_fn(fn_model(*old(self)), types_view(args@)),
    {
        let map = self.generic_map(args);
        let ghost m = map@;
        assert(m == bind_names(crate::module::symbol_names(self.generics@), types_view(args@)));
        self.params = crate::types::fields_inst_exec(&self.params, &map);
        self.return_type = match &self.return_type {
            Some(t) => Some(t.copy_instantiate(&map)),
            None => None,
        };
        let body = match &self.body {
            Some(b) => {
                let mut variables: Vec<VariableInfo> = Vec::new();
                let mut i: usize = 0;
                while i < b.variables.len()
                    invariant
                        map@ == m,
                        i <= b.variables@.len(),
                        variables@.len() == i,
                        forall|k: int|
                            0 <= k < i ==> var_model(#[trigger] variables@[k]) == (VarModel {
                                ty: var_model(b.variables@[k]).ty.instantiate(m),
                                ..var_model(b.variables@[k])
                            }),
                    decreases b.variables@.len() - i,
                {
                    let v = &b.variables[i];
                    variables.push(
                        VariableInfo {
                            ty: v.ty.copy_instantiate(&map),
                            arg: v.arg,
                            name: crate::types::copy_opt_string(&v.name),
                        },
                    );
                    i += 1;
                }
                let mut symbols: Vec<SymbolRef> = Vec::new();
                let mut j: usize = 0;
                while j < b.symbols.len()
                    invariant
                        map@ == m,
                        j <= b.symbols@.len(),
                        symbols@.len() == j,
                        forall|k: int|
                            0 <= k < j ==> (#[trigger] symbols@[k])@ == (b.symbols@[k]@.0, list_inst(b.symbols@[k]@.1, m)),
                    decreases b.symbols@.len() - j,
                {
                    let s = &b.symbols[j];
                    symbols.push(
                        SymbolRef { name: s.name.copy(), generics: crate::types::types_inst(&s.generics, &map) },
                    );
                    j += 1;
                }
                let r = Body {
                    variables,
                    symbols,
                    label_names: copy_labels(&b.label_names),
                    instructions: copy_instrs(&b.instructions),
                };
                proof {
                    let bm = body_model(*b);
                    assert(body_model(r).variables =~= bm.variables.map_values(
                        |v: VarModel| VarModel { ty: v.ty.instantiate(m), ..v },
                    ));
                    assert(body_model(r).symbols =~= bm.symbols.map_values(
                        |s: (Seq<char>, Seq<TypeModel>)| (s.0, list_inst(s.1, m)),
                    ));
                }
                Some(r)
            },
            None => None,
        };
        self.body = body;
        self.generics = Vec::new();
        assert(crate::module::symbol_names(self.generics@) =~= Seq::<Seq<char>>::empty());
    }
}


/// The models of a body's variables.
pub open spec fn vars_model(s: Seq<VariableInfo>) -> Seq<VarModel> {
    s.map_values(|v: VariableInfo| var_model(v))
}

/// The models of a body's symbol uses.
pub open spec fn syms_model(s: Seq<SymbolRef>) -> Seq<(Seq<char>, Seq<TypeModel>)> {
    s.map_values(|x: SymbolRef| x@)
}

proof fn lemma_mono_vars_prefix(st: MonoState, s: Seq<VarModel>, fuel: nat, k: int)
    requires
        0 <= k <= s.len(),
        mono_vars(st, s, fuel) is Some,
    ensures
        mono_vars(st, s.take(k), fuel) is Some,
    decreases s.len(),
{
    if k < s.len() {
        lemma_mono_vars_prefix(st, s.drop_last(), fuel, k);
        assert(s.drop_last().take(k) =~= s.take(k));
    } else {
        assert(s.take(k) =~= s);
    }
}

proof fn lemma_mono_symbols_prefix(st: MonoState, s: Seq<(Seq<char>, Seq<TypeModel>)>, fuel: nat, k: int)
    requires
        0 <= k <= s.len(),
        mono_symbols(st, s, fuel) is Some,
    ensures
        mono_symbols(st, s.take(k), fuel) is Some,
    decreases s.len(),
{
    if k < s.len() {
        lemma_mono_symbols_prefix(st, s.drop_last(), fuel, k);
        assert(s.drop_last().take(k) =~= s.take(k));
    } else {
        assert(s.take(k) =~= s);
    }
}

fn visit_vars(
    module: &mut Module,
    seen_types: &mut Vec<(Symbol, Vec<Type>)>,
    seen_fns: &Vec<(Symbol, Vec<Type>)>,
    s: &Vec<VariableInfo>,
    fuel: Ghost<nat>,
) -> (r: Vec<VariableInfo>)
    requires
        old(module).wf(),
        mono_vars(mono_state(old(module), old(seen_types)@, seen_fns@), vars_model(s@), fuel@) is Some,
    ensures
        final(module).wf(),
        mono_state(final(module), final(seen_types)@, seen_fns@) == mono_vars(
            mono_state(old(module), old(seen_types)@, seen_fns@),
            vars_model(s@),
            fuel@,
        ).unwrap().0,
        vars_model(r@) == mono_vars(
            mono_state(old(module), old(seen_types)@, seen_fns@),
            vars_model(s@),
            fuel@,
        ).unwrap().1,
{
    let ghost st0 = mono_state(module, seen_types@, seen_fns@);
    let ghost vm = vars_model(s@);
    let mut r: Vec<VariableInfo> = Vec::new();
    let mut i: usize = 0;
    assert(vm.take(0) =~= Seq::<VarModel>::empty());
    assert(vars_model(r@) =~= Seq::<VarModel>::empty());
    while i < s.len()
        invariant
            i <= s@.len(),
            vm == vars_model(s@),
            module.wf(),
            mono_vars(st0, vm, fuel@) is Some,
            st0 == mono_state(old(module), old(seen_types)@, seen_fns@),
            mono_vars(st0, vm.take(i as int), fuel@) == Some(
                (mono_state(module, seen_types@, seen_fns@), vars_model(r@)),
            ),
        decreases s@.len() - i,
    {
        proof {
            lemma_mono_vars_prefix(st0, vm, fuel@, i + 1);
            assert(vm.take(i + 1).drop_last() =~= vm.take(i as int));
            assert(vm.take(i + 1).last() == var_model(s@[i as int]));
        }
        let v = &s[i];
        let t = visit_ty(module, seen_types, seen_fns, &v.ty, fuel);
        let nv = VariableInfo { ty: t, arg: v.arg, name: crate::types::copy_opt_string(&v.name) };
        proof {
            assert(vars_model(r@.push(nv)) =~= vars_model(r@).push(var_model(nv)));
        }
        r.push(nv);
        i += 1;
    }
    assert(vm.take(s@.len() as int) =~= vm);
    r
}

fn visit_symbols(
    module: &mut Module,
    seen_types: &mut Vec<(Symbol, Vec<Type>)>,
    seen_fns: &mut Vec<(Symbol, Vec<Type>)>,
    s: &Vec<SymbolRef>,
    fuel: Ghost<nat>,
) -> (r: Vec<SymbolRef>)
    requires
        old(module).wf(),
        mono_symbols(mono_state(old(module), old(seen_types)@, old(seen_fns)@), syms_model(s@), fuel@) is Some,
    ensures
        final(module).wf(),
        mono_state(final(module), final(seen_types)@, final(seen_fns)@) == mono_symbols(
            mono_state(old(module), old(seen_types)@, old(seen_fns)@),
            syms_model(s@),
            fuel@,
        ).unwrap().0,
        syms_model(r@) == mono_symbols(
            mono_state(old(module), old(seen_types)@, old(seen_fns)@),
            syms_model(s@),
            fuel@,
        ).unwrap().1,
    decreases fuel@, 0nat, 0nat,
{
    let ghost st0 = mono_state(module, seen_types@, seen_fns@);
    let ghost sm = syms_model(s@);
    let mut r: Vec<SymbolRef> = Vec::new();
    let mut i: usize = 0;
    assert(sm.take(0) =~= Seq::<(Seq<char>, Seq<TypeModel>)>::empty());
    assert(syms_model(r@) =~= Seq::<(Seq<char>, Seq<TypeModel>)>::empty());
    while i < s.len()
        invariant
            i <= s@.len(),
            sm == syms_model(s@),
            module.wf(),
            mono_symbols(st0, sm, fuel@) is Some,
            st0 == mono_state(old(module), old(seen_types)@, old(seen_fns)@),
            mono_symbols(st0, sm.take(i as int), fuel@) == Some(
                (mono_state(module, seen_types@, seen_fns@), syms_model(r@)),
            ),
        decreases s@.len() - i,
    {
        proof {
            lemma_mono_symbols_prefix(st0, sm, fuel@, i + 1);
            assert(sm.take(i + 1).drop_last() =~= sm.take(i as int));
            assert(sm.take(i + 1).last() == s@[i as int]@);
        }
        let x = &s[i];
        let empty: Vec<Type> = Vec::new();
        assert(types_view(empty@) =~= Seq::<TypeModel>::empty());
        proof {
            crate::types::lemma_types_view_len(x.generics@);
        }
        let nx = if x.generics.len() == 0 {
            SymbolRef { name: x.name.copy(), generics: crate::types::copy_types(&x.generics) }
        } else {
            let moname = module.monomorphized_name(&x.name, &x.generics);
            if seen_contains(seen_fns, &x.name, &x.generics) {
                SymbolRef { name: moname, generics: empty }
            } else {
                proof {
                    crate::model::lemma_lookup_fn(module.function_list(), x.name@);
                }
                let mut f = module.get_symbol(&x.name).deep_copy();
                f.instantiate(x.generics.as_slice());
                let ghost before = seen_fns@;
                let entry = (x.name.copy(), crate::types::copy_types(&x.generics));
                seen_fns.push(entry);
                proof {
                    lemma_seen_push(before, entry);
                }
                let nf = visit_function(module, seen_types, seen_fns, f, Ghost((fuel@ - 1) as nat));
                let ghost list = module.function_list();
                let key = moname.copy();
                let ghost key_view = key;
                module.insert_function(key, nf);
                proof {
                    crate::model::lemma_put_fn(list, module.function_list(), key_view, nf);
                }
                SymbolRef { name: moname, generics: empty }
            }
        };
        proof {
            assert(syms_model(r@.push(nx)) =~= syms_model(r@).push(nx@));
        }
        r.push(nx);
        i += 1;
    }
    assert(sm.take(s@.len() as int) =~= sm);
    r
}

/// Monomorphize a function: its parameter types, return type and variable types, then
/// the symbols its body uses.
fn visit_function(
    module: &mut Module,
    seen_types: &mut Vec<(Symbol, Vec<Type>)>,
    seen_fns: &mut Vec<(Symbol, Vec<Type>)>,
    f: Function,
    fuel: Ghost<nat>,
) -> (r: Function)
    requires
        old(module).wf(),
        mono_fn(mono_state(old(module), old(seen_types)@, old(seen_fns)@), fn_model(f), fuel@) is Some,
    ensures
        final(module).wf(),
        mono_state(final(module), final(seen_types)@, final(seen_fns)@) == mono_fn(
            mono_state(old(module), old(seen_types)@, old(seen_fns)@),
            fn_model(f),
            fuel@,
        ).unwrap().0,
        fn_model(r) == mono_fn(
            mono_state(old(module), old(seen_types)@, old(seen_fns)@),
            fn_model(f),
            fuel@,
        ).unwrap().1,
    decreases fuel@, 1nat, 0nat,
{
    let ghost fm = fn_model(f);
    let Function { generics, params, return_type, body } = f;
    let params = visit_fields(module, seen_types, seen_fns, &params, fuel);
    let return_type = match &return_type {
        Some(t) => Some(visit_ty(module, seen_types, seen_fns, t, fuel)),
        None => None,
    };
    let body = match body {
        Some(b) => {
            let Body { variables, symbols, label_names, instructions } = b;
            let variables = visit_vars(module, seen_types, seen_fns, &variables, fuel);
            let symbols = visit_symbols(module, seen_types, seen_fns, &symbols, fuel);
            Some(Body { variables, symbols, label_names, instructions })
        },
        None => None,
    };
    Function { generics, params, return_type, body }
}


/// `b` keeps every declaration of `a` at its position and under its name, and maybe
/// adds more.
pub open spec fn grows(a: MonoState, b: MonoState) -> bool {
    &&& b.types.len() >= a.types.len()
    &&& forall|k: int| 0 <= k < a.types.len() ==> #[trigger] b.types[k].0 == a.types[k].0
    &&& b.functions.len() >= a.functions.len()
    &&& forall|k: int| 0 <= k < a.functions.len() ==> #[trigger] b.functions[k].0 == a.functions[k].0
}

proof fn lemma_put_grows<V>(s: Seq<(Seq<char>, V)>, name: Seq<char>, v: V)
    ensures
        put(s, name, v).len() >= s.len(),
        forall|k: int| 0 <= k < s.len() ==> #[trigger] put(s, name, v)[k].0 == s[k].0,
{
}

proof fn lemma_grows_trans(a: MonoState, b: MonoState, c: MonoState)
    requires
        grows(a, b),
        grows(b, c),
    ensures
        grows(a, c),
{
    assert forall|k: int| 0 <= k < a.types.len() implies #[trigger] c.types[k].0 == a.types[k].0 by {
        assert(b.types[k].0 == a.types[k].0);
    }
    assert forall|k: int| 0 <= k < a.functions.len() implies #[trigger] c.functions[k].0 == a.functions[k].0 by {
        assert(b.functions[k].0 == a.functions[k].0);
    }
}

proof fn lemma_mono_ty_grows(st: MonoState, t: TypeModel, fuel: nat)
    requires
        mono_ty(st, t, fuel) is Some,
    ensures
        grows(st, mono_ty(st, t, fuel).unwrap().0),
        mono_ty(st, t, fuel).unwrap().0.functions == st.functions,
        mono_ty(st, t, fuel).unwrap().0.seen_fns == st.seen_fns,
    decreases fuel, t, 0nat,
{
    match t {
        TypeModel::Symbol(name, args) => {
            if args.len() != 0 && !st.seen_types.contains((name, args)) {
                let alias = lookup(st.types, name).unwrap();
                let st1 = MonoState { seen_types: st.seen_types.insert((name, args)), ..st };
                let inst = alias.1.instantiate(bind_names(alias.0, args));
                lemma_mono_ty_grows(st1, inst, (fuel - 1) as nat);
                let st2 = mono_ty(st1, inst, (fuel - 1) as nat).unwrap().0;
                let t2 = mono_ty(st1, inst, (fuel - 1) as nat).unwrap().1;
                lemma_put_grows(st2.types, mono_name(name, args), (Seq::<Seq<char>>::empty(), t2));
                let st3 = MonoState { types: put(st2.types, mono_name(name, args), (Seq::empty(), t2)), ..st2 };
                assert(grows(st2, st3));
                lemma_grows_trans(st, st2, st3);
            }
        },
        TypeModel::Array(ty, _) => lemma_mono_ty_grows(st, *ty, fuel),
        TypeModel::Struct(fields) => lemma_mono_fields_grows(st, fields, fuel),
        TypeModel::Ptr(ty, _) => lemma_mono_ty_grows(st, *ty, fuel),
        TypeModel::FnPtr(params, return_type) => {
            lemma_mono_list_grows(st, params, fuel);
            let st1 = mono_list(st, params, fuel).unwrap().0;
            if let Some(ret) = return_type {
                lemma_mono_ty_grows(st1, *ret, fuel);
                lemma_grows_trans(st, st1, mono_ty(st1, *ret, fuel).unwrap().0);
            }
        },
        _ => {},
    }
}

proof fn lemma_mono_list_grows(st: MonoState, s: Seq<TypeModel>, fuel: nat)
    requires
        mono_list(st, s, fuel) is Some,
    ensures
        grows(st, mono_list(st, s, fuel).unwrap().0),
        mono_list(st, s, fuel).unwrap().0.functions == st.functions,
        mono_list(st, s, fuel).unwrap().0.seen_fns == st.seen_fns,
    decreases fuel, s, 1nat,
{
    if s.len() > 0 {
        lemma_mono_list_grows(st, s.drop_last(), fuel);
        let st1 = mono_list(st, s.drop_last(), fuel).unwrap().0;
        lemma_mono_ty_grows(st1, s.last(), fuel);
        lemma_grows_trans(st, st1, mono_ty(st1, s.last(), fuel).unwrap().0);
    }
}

proof fn lemma_mono_fields_grows(st: MonoState, s: Seq<(Option<Seq<char>>, TypeModel)>, fuel: nat)
    requires
        mono_fields(st, s, fuel) is Some,
    ensures
        grows(st, mono_fields(st, s, fuel).unwrap().0),
        mono_fields(st, s, fuel).unwrap().0.functions == st.functions,
        mono_fields(st, s, fuel).unwrap().0.seen_fns == st.seen_fns,
    decreases fuel, s, 1nat,
{
    if s.len() > 0 {
        lemma_mono_fields_grows(st, s.drop_last(), fuel);
        let st1 = mono_fields(st, s.drop_last(), fuel).unwrap().0;
        lemma_mono_ty_grows(st1, s.last().1, fuel);
        lemma_grows_trans(st, st1, mono_ty(st1, s.last().1, fuel).unwrap().0);
    }
}

proof fn lemma_mono_vars_grows(st: MonoState, s: Seq<VarModel>, fuel: nat)
    requires
        mono_vars(st, s, fuel) is Some,
    ensures
        grows(st, mono_vars(st, s, fuel).unwrap().0),
    decreases s.len(),
{
    if s.len() > 0 {
        lemma_mono_vars_grows(st, s.drop_last(), fuel);
        let st1 = mono_vars(st, s.drop_last(), fuel).unwrap().0;
        lemma_mono_ty_grows(st1, s.last().ty, fuel);
        lemma_grows_trans(st, st1, mono_ty(st1, s.last().ty, fuel).unwrap().0);
    }
}

proof fn lemma_mono_symbols_grows(st: MonoState, s: Seq<(Seq<char>, Seq<TypeModel>)>, fuel: nat)
    requires
        mono_symbols(st, s, fuel) is Some,
    ensures
        grows(st, mono_symbols(st, s, fuel).unwrap().0),
    decreases fuel, 0nat, s.len(),
{
    if s.len() > 0 {
        lemma_mono_symbols_grows(st, s.drop_last(), fuel);
        let st1 = mono_symbols(st, s.drop_last(), fuel).unwrap().0;
        let name = s.last().0;
        let args = s.last().1;
        if args.len() != 0 && !st1.seen_fns.contains((name, args)) {
            let f = lookup(st1.functions, name).unwrap();
            let st2 = MonoState { seen_fns: st1.seen_fns.insert((name, args)), ..st1 };
            lemma_mono_fn_grows(st2, inst_fn(f, args), (fuel - 1) as nat);
            let st3 = mono_fn(st2, inst_fn(f, args), (fuel - 1) as nat).unwrap().0;
            let f3 = mono_fn(st2, inst_fn(f, args), (fuel - 1) as nat).unwrap().1;
            lemma_put_grows(st3.functions, mono_name(name, args), f3);
            let st4 = MonoState { functions: put(st3.functions, mono_name(name, args), f3), ..st3 };
            assert(grows(st3, st4));
            assert(grows(st1, st2));
            lemma_grows_trans(st1, st2, st3);
            lemma_grows_trans(st1, st3, st4);
            lemma_grows_trans(st, st1, st4);
        }
    }
}

proof fn lemma_mono_fn_grows(st: MonoState, f: FnModel, fuel: nat)
    requires
        mono_fn(st, f, fuel) is Some,
    ensures
        grows(st, mono_fn(st, f, fuel).unwrap().0),
    decreases fuel, 1nat, 0nat,
{
    lemma_mono_fields_grows(st, f.params, fuel);
    let st1 = mono_fields(st, f.params, fuel).unwrap().0;
    let st2 = match f.return_type {
        Some(t) => {
            lemma_mono_ty_grows(st1, t, fuel);
            mono_ty(st1, t, fuel).unwrap().0
        },
        None => st1,
    };
    lemma_grows_trans(st, st1, st2);
    if let Some(b) = f.body {
        lemma_mono_vars_grows(st2, b.variables, fuel);
        let st3 = mono_vars(st2, b.variables, fuel).unwrap().0;
        lemma_mono_symbols_grows(st3, b.symbols, fuel);
        let st4 = mono_symbols(st3, b.symbols, fuel).unwrap().0;
        lemma_grows_trans(st2, st3, st4);
        lemma_grows_trans(st, st2, st4);
    }
}

fn seen_name_list(seen: &Vec<(Symbol, Vec<Type>)>) -> (r: Vec<Symbol>)
    ensures
        crate::assoc::name_set(r@) == seen_names(seen_set(seen@)),
{
    let mut r: Vec<Symbol> = Vec::new();
    let mut i: usize = 0;
    while i < seen.len()
        invariant
            i <= seen@.len(),
            r@.len() == i,
            forall|k: int| 0 <= k < i ==> (#[trigger] r@[k])@ == seen@[k].0@,
        decreases seen@.len() - i,
    {
        r.push(seen[i].0.copy());
        i += 1;
    }
    proof {
        let a = crate::assoc::name_set(r@);
        let b = seen_names(seen_set(seen@));
        assert forall|x: Seq<char>| a.contains(x) == b.contains(x) by {
            if a.contains(x) {
                let j = choose|j: int| 0 <= j < r@.len() && r@[j]@ == x;
                let p = (seen@[j].0@, types_view(seen@[j].1@));
                assert(seen_set(seen@).contains(p));
            }
            if b.contains(x) {
                let p = choose|p: (Seq<char>, Seq<TypeModel>)| seen_set(seen@).contains(p) && p.0 == x;
                let j = choose|j: int| 0 <= j < seen@.len() && (seen@[j].0@, types_view(seen@[j].1@)) == p;
                assert(r@[j]@ == x);
            }
        }
        assert(a =~= b);
    }
    r
}

impl Module {
    /// Monomorphize the module (duplicate generic symbols for all usages): each use
    /// of a generic type or function with arguments is replaced by a use of a
    /// non-generic copy instantiated with them, named after the symbol and the
    /// arguments. Non-generic type declarations are visited first, then non-generic
    /// functions, in the order they were first declared; at the end the generic
    /// declarations that were given copies are dropped.
    pub fn monomorphize(&mut self)
        requires
            old(self).wf(),
            exists|fuel: nat|
                mono_module(
                    entries_view(old(self).type_list()),
                    fn_entries_view(old(self).function_list()),
                    fuel,
                ) is Some,
        ensures
            final(self).wf(),
            (entries_view(final(self).type_list()), fn_entries_view(final(self).function_list()))
                == mono_module(
                entries_view(old(self).type_list()),
                fn_entries_view(old(self).function_list()),
                choose|fuel: nat|
                    mono_module(
                        entries_view(old(self).type_list()),
                        fn_entries_view(old(self).function_list()),
                        fuel,
                    ) is Some,
            ).unwrap(),
    {
        let ghost fuel = choose|fuel: nat|
            mono_module(entries_view(self.type_list()), fn_entries_view(self.function_list()), fuel) is Some;
        let mut seen_types: Vec<(Symbol, Vec<Type>)> = Vec::new();
        let mut seen_fns: Vec<(Symbol, Vec<Type>)> = Vec::new();
        let ghost st0 = mono_state(self, seen_types@, seen_fns@);
        proof {
            assert(seen_set(seen_types@) =~= Set::<(Seq<char>, Seq<TypeModel>)>::empty());
            assert(seen_set(seen_fns@) =~= Set::<(Seq<char>, Seq<TypeModel>)>::empty());
        }
        let n = self.type_entries().len();
        let mut i: usize = 0;
        while i < n
            invariant
                self.wf(),
                i <= n,
                n == old(self).type_list().len(),
                n <= self.type_list().len(),
                fn_entries_view(self.function_list()) == fn_entries_view(old(self).function_list()),
                st0 == mono_state(old(self), Seq::empty(), Seq::empty()),
                mono_types_from(st0, 0, n as nat, fuel) is Some,
                mono_types_from(st0, 0, n as nat, fuel) == mono_types_from(
                    mono_state(self, seen_types@, seen_fns@),
                    i as nat,
                    n as nat,
                    fuel,
                ),
            decreases n - i,
        {
            let ghost st = mono_state(self, seen_types@, seen_fns@);
            let is_generic = self.type_entries()[i].1.generics.len() != 0;
            if !is_generic {
                let ty = self.type_entries()[i].1.type_.deep_copy();
                proof {
                    lemma_mono_ty_grows(st, ty@, fuel);
                }
                let t = visit_ty(self, &mut seen_types, &seen_fns, &ty, Ghost(fuel));
                let ghost before = self.type_list();
                let no_generics: Vec<Symbol> = Vec::new();
                assert(crate::module::symbol_names(no_generics@) =~= Seq::<Seq<char>>::empty());
                self.replace_type_at(i, TypeAlias { generics: no_generics, type_: t });
                proof {
                    assert(st.types[i as int].1.0 =~= Seq::<Seq<char>>::empty());
                    assert(entries_view(before)[i as int].0 == st.types[i as int].0);
                    assert(entries_view(self.type_list()) =~= entries_view(before).update(
                        i as int,
                        (st.types[i as int].0, (st.types[i as int].1.0, t@)),
                    ));
                }
            }
            i += 1;
        }
        let ghost st1 = mono_state(self, seen_types@, seen_fns@);
        let m = self.function_entries().len();
        let mut j: usize = 0;
        while j < m
            invariant
                self.wf(),
                j <= m,
                m == old(self).function_list().len(),
                m <= self.function_list().len(),
                mono_fns_from(st1, 0, m as nat, fuel) is Some,
                mono_fns_from(st1, 0, m as nat, fuel) == mono_fns_from(
                    mono_state(self, seen_types@, seen_fns@),
                    j as nat,
                    m as nat,
                    fuel,
                ),
            decreases m - j,
        {
            let ghost st = mono_state(self, seen_types@, seen_fns@);
            let is_generic = self.function_entries()[j].1.generics.len() != 0;
            if !is_generic {
                let f = self.function_entries()[j].1.deep_copy();
                proof {
                    lemma_mono_fn_grows(st, fn_model(f), fuel);
                }
                let nf = visit_function(self, &mut seen_types, &mut seen_fns, f, Ghost(fuel));
                let ghost before = self.function_list();
                self.replace_function_at(j, nf);
                proof {
                    assert(fn_entries_view(before)[j as int].0 == st.functions[j as int].0);
                    assert(fn_entries_view(self.function_list()) =~= fn_entries_view(before).update(
                        j as int,
                        (st.functions[j as int].0, fn_model(nf)),
                    ));
                }
            }
            j += 1;
        }
        let type_names = seen_name_list(&seen_types);
        let fn_names = seen_name_list(&seen_fns);
        let ghost st2 = mono_state(self, seen_types@, seen_fns@);
        let ghost types2 = self.type_list();
        let ghost fns2 = self.function_list();
        self.retain_types(&type_names);
        self.retain_functions(&fn_names);
        proof {
            crate::model::lemma_keep_type(types2, seen_names(st2.seen_types));
            crate::model::lemma_keep_fn(fns2, seen_names(st2.seen_fns));
        }
    }
}


/// No use of a symbol with generic arguments, and no type parameter, occurs in `t`.
pub open spec fn mono_free(t: TypeModel) -> bool
    decreases t, 1nat,
{
    match t {
        TypeModel::Symbol(_, args) => args.len() == 0,
        TypeModel::Array(ty, _) => mono_free(*ty),
        TypeModel::Struct(fields) => fields_mono_free(fields),
        TypeModel::Ptr(ty, _) => mono_free(*ty),
        TypeModel::FnPtr(params, return_type) => list_mono_free(params) && match return_type {
            Some(r) => mono_free(*r),
            None => true,
        },
        TypeModel::Param(_) => false,
        _ => true,
    }
}

/// Each of the types is free of generic uses and type parameters.
pub open spec fn list_mono_free(s: Seq<TypeModel>) -> bool
    decreases s, 0nat,
{
    if s.len() == 0 {
        true
    } else {
        list_mono_free(s.drop_last()) && mono_free(s.last())
    }
}

/// Each of the field types is free of generic uses and type parameters.
pub open spec fn fields_mono_free(s: Seq<(Option<Seq<char>>, TypeModel)>) -> bool
    decreases s, 0nat,
{
    if s.len() == 0 {
        true
    } else {
        fields_mono_free(s.drop_last()) && mono_free(s.last().1)
    }
}

/// What monomorphizing a type gives is free of generic uses and type parameters.
pub proof fn law_mono_ty_free(st: MonoState, t: TypeModel, fuel: nat)
    requires
        mono_ty(st, t, fuel) is Some,
    ensures
        mono_free(mono_ty(st, t, fuel).unwrap().1),
    decreases fuel, t, 0nat,
{
    match t {
        TypeModel::Array(ty, _) => law_mono_ty_free(st, *ty, fuel),
        TypeModel::Struct(fields) => lemma_mono_fields_free(st, fields, fuel),
        TypeModel::Ptr(ty, _) => law_mono_ty_free(st, *ty, fuel),
        TypeModel::FnPtr(params, return_type) => {
            lemma_mono_list_free(st, params, fuel);
            if let Some(ret) = return_type {
                law_mono_ty_free(mono_list(st, params, fuel).unwrap().0, *ret, fuel);
            }
        },
        _ => {},
    }
}

proof fn lemma_mono_list_free(st: MonoState, s: Seq<TypeModel>, fuel: nat)
    requires
        mono_list(st, s, fuel) is Some,
    ensures
        list_mono_free(mono_list(st, s, fuel).unwrap().1),
    decreases fuel, s, 1nat,
{
    if s.len() > 0 {
        lemma_mono_list_free(st, s.drop_last(), fuel);
        let (st1, prev) = mono_list(st, s.drop_last(), fuel).unwrap();
        law_mono_ty_free(st1, s.last(), fuel);
        let t = mono_ty(st1, s.last(), fuel).unwrap().1;
        assert(prev.push(t).drop_last() =~= prev);
    }
}

proof fn lemma_mono_fields_free(st: MonoState, s: Seq<(Option<Seq<char>>, TypeModel)>, fuel: nat)
    requires
        mono_fields(st, s, fuel) is Some,
    ensures
        fields_mono_free(mono_fields(st, s, fuel).unwrap().1),
    decreases fuel, s, 1nat,
{
    if s.len() > 0 {
        lemma_mono_fields_free(st, s.drop_last(), fuel);
        let (st1, prev) = mono_fields(st, s.drop_last(), fuel).unwrap();
        law_mono_ty_free(st1, s.last().1, fuel);
        let t = mono_ty(st1, s.last().1, fuel).unwrap().1;
        assert(prev.push((s.last().0, t)).drop_last() =~= prev);
    }
}

/// No variable type holds a generic use or a type parameter.
pub open spec fn vars_mono_free(s: Seq<VarModel>) -> bool {
    forall|k: int| 0 <= k < s.len() ==> mono_free(#[trigger] s[k].ty)
}

/// No symbol is used with generic arguments.
pub open spec fn symbols_plain(s: Seq<(Seq<char>, Seq<TypeModel>)>) -> bool {
    forall|k: int| 0 <= k < s.len() ==> (#[trigger] s[k]).1.len() == 0
}

/// No generic use and no type parameter is left in a function: not in its parameter
/// types, its return type or its variable types, and its body uses every symbol
/// without generic arguments.
pub open spec fn fn_mono_free(f: FnModel) -> bool {
    &&& fields_mono_free(f.params)
    &&& (f.return_type matches Some(t) ==> mono_free(t))
    &&& (f.body matches Some(b) ==> vars_mono_free(b.variables) && symbols_plain(b.symbols))
}

proof fn lemma_mono_vars_free(st: MonoState, s: Seq<VarModel>, fuel: nat)
    requires
        mono_vars(st, s, fuel) is Some,
    ensures
        vars_mono_free(mono_vars(st, s, fuel).unwrap().1),
    decreases s.len(),
{
    if s.len() > 0 {
        lemma_mono_vars_free(st, s.drop_last(), fuel);
        let (st1, prev) = mono_vars(st, s.drop_last(), fuel).unwrap();
        law_mono_ty_free(st1, s.last().ty, fuel);
        let t = mono_ty(st1, s.last().ty, fuel).unwrap().1;
        let out = prev.push(VarModel { ty: t, ..s.last() });
        assert forall|k: int| 0 <= k < out.len() implies mono_free(#[trigger] out[k].ty) by {
            if k < prev.len() {
                assert(out[k] == prev[k]);
            }
        }
    }
}

proof fn lemma_mono_symbols_plain(st: MonoState, s: Seq<(Seq<char>, Seq<TypeModel>)>, fuel: nat)
    requires
        mono_symbols(st, s, fuel) is Some,
    ensures
        symbols_plain(mono_symbols(st, s, fuel).unwrap().1),
    decreases s.len(),
{
    if s.len() > 0 {
        lemma_mono_symbols_plain(st, s.drop_last(), fuel);
        let prev = mono_symbols(st, s.drop_last(), fuel).unwrap().1;
        let out = mono_symbols(st, s, fuel).unwrap().1;
        assert(out.drop_last() =~= prev);
        assert forall|k: int| 0 <= k < out.len() implies (#[trigger] out[k]).1.len() == 0 by {
            if k < prev.len() {
                assert(out[k] == prev[k]);
            }
        }
    }
}

/// What monomorphizing a function gives holds no generic use and no type parameter,
/// and its body uses every symbol without generic arguments.
pub proof fn law_mono_fn_free(st: MonoState, f: FnModel, fuel: nat)
    requires
        mono_fn(st, f, fuel) is Some,
    ensures
        fn_mono_free(mono_fn(st, f, fuel).unwrap().1),
{
    lemma_mono_fields_free(st, f.params, fuel);
    let st1 = mono_fields(st, f.params, fuel).unwrap().0;
    let st2 = match f.return_type {
        Some(t) => {
            law_mono_ty_free(st1, t, fuel);
            mono_ty(st1, t, fuel).unwrap().0
        },
        None => st1,
    };
    if let Some(b) = f.body {
        lemma_mono_vars_free(st2, b.variables, fuel);
        let st3 = mono_vars(st2, b.variables, fuel).unwrap().0;
        lemma_mono_symbols_plain(st3, b.symbols, fuel);
    }
}

/// The type declarations at positions before `k` or from `n` on that take no type
/// parameters hold no generic use; there are at least `n` of them.
pub open spec fn types_done(s: Seq<AliasEntry>, k: int, n: int) -> bool {
    &&& s.len() >= n
    &&& forall|i: int|
        0 <= i < s.len() && (i < k || i >= n) && (#[trigger] s[i]).1.0.len() == 0 ==> mono_free(s[i].1.1)
}

/// The function declarations at positions before `k` or from `n` on that take no type
/// parameters hold no generic use; there are at least `n` of them.
pub open spec fn fns_done(s: Seq<(Seq<char>, FnModel)>, k: int, n: int) -> bool {
    &&& s.len() >= n
    &&& forall|i: int|
        0 <= i < s.len() && (i < k || i >= n) && (#[trigger] s[i]).1.generics.len() == 0 ==> fn_mono_free(s[i].1)
}

pub open spec fn mono_done(st: MonoState, tk: int, tn: int, fk: int, fnn: int) -> bool {
    types_done(st.types, tk, tn) && fns_done(st.functions, fk, fnn)
}

proof fn lemma_put_types_done(s: Seq<AliasEntry>, k: int, n: int, name: Seq<char>, t: TypeModel)
    requires
        types_done(s, k, n),
        mono_free(t),
    ensures
        types_done(put(s, name, (Seq::<Seq<char>>::empty(), t)), k, n),
{
    let v = (Seq::<Seq<char>>::empty(), t);
    if exists|i: int| 0 <= i < s.len() && s[i].0 == name {
        let j = choose|i: int| 0 <= i < s.len() && s[i].0 == name;
        let s2 = s.update(j, (name, v));
        assert forall|i: int| 0 <= i < s2.len() && (i < k || i >= n) && (#[trigger] s2[i]).1.0.len() == 0 implies mono_free(s2[i].1.1) by {
            if i != j {
                assert(s2[i] == s[i]);
            }
        }
    } else {
        let s2 = s.push((name, v));
        assert forall|i: int| 0 <= i < s2.len() && (i < k || i >= n) && (#[trigger] s2[i]).1.0.len() == 0 implies mono_free(s2[i].1.1) by {
            if i < s.len() {
                assert(s2[i] == s[i]);
            }
        }
    }
}

proof fn lemma_put_fns_done(s: Seq<(Seq<char>, FnModel)>, k: int, n: int, name: Seq<char>, f: FnModel)
    requires
        fns_done(s, k, n),
        fn_mono_free(f),
    ensures
        fns_done(put(s, name, f), k, n),
{
    if exists|i: int| 0 <= i < s.len() && s[i].0 == name {
        let j = choose|i: int| 0 <= i < s.len() && s[i].0 == name;
        let s2 = s.update(j, (name, f));
        assert forall|i: int| 0 <= i < s2.len() && (i < k || i >= n) && (#[trigger] s2[i]).1.generics.len() == 0 implies fn_mono_free(s2[i].1) by {
            if i != j {
                assert(s2[i] == s[i]);
            }
        }
    } else {
        let s2 = s.push((name, f));
        assert forall|i: int| 0 <= i < s2.len() && (i < k || i >= n) && (#[trigger] s2[i]).1.generics.len() == 0 implies fn_mono_free(s2[i].1) by {
            if i < s.len() {
                assert(s2[i] == s[i]);
            }
        }
    }
}

proof fn lemma_mono_ty_done(st: MonoState, t: TypeModel, fuel: nat, tk: int, tn: int, fk: int, fnn: int)
    requires
        mono_ty(st, t, fuel) is Some,
        mono_done(st, tk, tn, fk, fnn),
    ensures
        mono_done(mono_ty(st, t, fuel).unwrap().0, tk, tn, fk, fnn),
    decreases fuel, t, 0nat,
{
    match t {
        TypeModel::Symbol(name, args) => {
            if args.len() != 0 && !st.seen_types.contains((name, args)) {
                let alias = lookup(st.types, name).unwrap();
                let st1 = MonoState { seen_types: st.seen_types.insert((name, args)), ..st };
                let inst = alias.1.instantiate(bind_names(alias.0, args));
                lemma_mono_ty_done(st1, inst, (fuel - 1) as nat, tk, tn, fk, fnn);
                let st2 = mono_ty(st1, inst, (fuel - 1) as nat).unwrap().0;
                let t2 = mono_ty(st1, inst, (fuel - 1) as nat).unwrap().1;
                law_mono_ty_free(st1, inst, (fuel - 1) as nat);
                lemma_put_types_done(st2.types, tk, tn, mono_name(name, args), t2);
            }
        },
        TypeModel::Array(ty, _) => lemma_mono_ty_done(st, *ty, fuel, tk, tn, fk, fnn),
        TypeModel::Struct(fields) => lemma_mono_fields_done(st, fields, fuel, tk, tn, fk, fnn),
        TypeModel::Ptr(ty, _) => lemma_mono_ty_done(st, *ty, fuel, tk, tn, fk, fnn),
        TypeModel::FnPtr(params, return_type) => {
            lemma_mono_list_done(st, params, fuel, tk, tn, fk, fnn);
            let st1 = mono_list(st, params, fuel).unwrap().0;
            if let Some(ret) = return_type {
                lemma_mono_ty_done(st1, *ret, fuel, tk, tn, fk, fnn);
            }
        },
        _ => {},
    }
}

proof fn lemma_mono_list_done(st: MonoState, s: Seq<TypeModel>, fuel: nat, tk: int, tn: int, fk: int, fnn: int)
    requires
        mono_list(st, s, fuel) is Some,
        mono_done(st, tk, tn, fk, fnn),
    ensures
        mono_done(mono_list(st, s, fuel).unwrap().0, tk, tn, fk, fnn),
    decreases fuel, s, 1nat,
{
    if s.len() > 0 {
        lemma_mono_list_done(st, s.drop_last(), fuel, tk, tn, fk, fnn);
        let st1 = mono_list(st, s.drop_last(), fuel).unwrap().0;
        lemma_mono_ty_done(st1, s.last(), fuel, tk, tn, fk, fnn);
    }
}

proof fn lemma_mono_fields_done(
    st: MonoState,
    s: Seq<(Option<Seq<char>>, TypeModel)>,
    fuel: nat,
    tk: int,
    tn: int,
    fk: int,
    fnn: int,
)
    requires
        mono_fields(st, s, fuel) is Some,
        mono_done(st, tk, tn, fk, fnn),
    ensures
        mono_done(mono_fields(st, s, fuel).unwrap().0, tk, tn, fk, fnn),
    decreases fuel, s, 1nat,
{
    if s.len() > 0 {
        lemma_mono_fields_done(st, s.drop_last(), fuel, tk, tn, fk, fnn);
        let st1 = mono_fields(st, s.drop_last(), fuel).unwrap().0;
        lemma_mono_ty_done(st1, s.last().1, fuel, tk, tn, fk, fnn);
    }
}

proof fn lemma_mono_vars_done(st: MonoState, s: Seq<VarModel>, fuel: nat, tk: int, tn: int, fk: int, fnn: int)
    requires
        mono_vars(st, s, fuel) is Some,
        mono_done(st, tk, tn, fk, fnn),
    ensures
        mono_done(mono_vars(st, s, fuel).unwrap().0, tk, tn, fk, fnn),
    decreases s.len(),
{
    if s.len() > 0 {
        lemma_mono_vars_done(st, s.drop_last(), fuel, tk, tn, fk, fnn);
        let st1 = mono_vars(st, s.drop_last(), fuel).unwrap().0;
        lemma_mono_ty_done(st1, s.last().ty, fuel, tk, tn, fk, fnn);
    }
}

proof fn lemma_mono_symbols_done(
    st: MonoState,
    s: Seq<(Seq<char>, Seq<TypeModel>)>,
    fuel: nat,
    tk: int,
    tn: int,
    fk: int,
    fnn: int,
)
    requires
        mono_symbols(st, s, fuel) is Some,
        mono_done(st, tk, tn, fk, fnn),
    ensures
        mono_done(mono_symbols(st, s, fuel).unwrap().0, tk, tn, fk, fnn),
    decreases fuel, 0nat, s.len(),
{
    if s.len() > 0 {
        lemma_mono_symbols_done(st, s.drop_last(), fuel, tk, tn, fk, fnn);
        let st1 = mono_symbols(st, s.drop_last(), fuel).unwrap().0;
        let name = s.last().0;
        let args = s.last().1;
        if args.len() != 0 && !st1.seen_fns.contains((name, args)) {
            let f = lookup(st1.functions, name).unwrap();
            let st2 = MonoState { seen_fns: st1.seen_fns.insert((name, args)), ..st1 };
            lemma_mono_fn_done(st2, inst_fn(f, args), (fuel - 1) as nat, tk, tn, fk, fnn);
            let st3 = mono_fn(st2, inst_fn(f, args), (fuel - 1) as nat).unwrap().0;
            let f3 = mono_fn(st2, inst_fn(f, args), (fuel - 1) as nat).unwrap().1;
            law_mono_fn_free(st2, inst_fn(f, args), (fuel - 1) as nat);
            lemma_put_fns_done(st3.functions, fk, fnn, mono_name(name, args), f3);
        }
    }
}

proof fn lemma_mono_fn_done(st: MonoState, f: FnModel, fuel: nat, tk: int, tn: int, fk: int, fnn: int)
    requires
        mono_fn(st, f, fuel) is Some,
        mono_done(st, tk, tn, fk, fnn),
    ensures
        mono_done(mono_fn(st, f, fuel).unwrap().0, tk, tn, fk, fnn),
    decreases fuel, 1nat, 0nat,
{
    lemma_mono_fields_done(st, f.params, fuel, tk, tn, fk, fnn);
    let st1 = mono_fields(st, f.params, fuel).unwrap().0;
    let st2 = match f.return_type {
        Some(t) => {
            lemma_mono_ty_done(st1, t, fuel, tk, tn, fk, fnn);
            mono_ty(st1, t, fuel).unwrap().0
        },
        None => st1,
    };
    if let Some(b) = f.body {
        lemma_mono_vars_done(st2, b.variables, fuel, tk, tn, fk, fnn);
        let st3 = mono_vars(st2, b.variables, fuel).unwrap().0;
        lemma_mono_symbols_done(st3, b.symbols, fuel, tk, tn, fk, fnn);
    }
}

proof fn lemma_mono_types_from_done(st: MonoState, i: nat, n: nat, fuel: nat, fnn: int)
    requires
        mono_types_from(st, i, n, fuel) is Some,
        mono_done(st, i as int, n as int, 0, fnn),
        n <= st.types.len() || i >= n,
    ensures
        mono_done(mono_types_from(st, i, n, fuel).unwrap(), n as int, n as int, 0, fnn),
    decreases n - i,
{
    if i >= n || i >= st.types.len() {
        assert forall|j: int|
            0 <= j < st.types.len() && (j < n || j >= n) && (#[trigger] st.types[j]).1.0.len() == 0 implies mono_free(st.types[j].1.1) by {
            assert(j < i || j >= n);
        }
    } else {
        let e = st.types[i as int];
        if e.1.0.len() != 0 {
            lemma_mono_types_from_done(st, i + 1, n, fuel, fnn);
        } else {
            lemma_mono_ty_done(st, e.1.1, fuel, i as int, n as int, 0, fnn);
            law_mono_ty_free(st, e.1.1, fuel);
            let (st1, t1) = mono_ty(st, e.1.1, fuel).unwrap();
            let st2 = MonoState { types: st1.types.update(i as int, (e.0, (e.1.0, t1))), ..st1 };
            assert forall|j: int|
                0 <= j < st2.types.len() && (j < i + 1 || j >= n) && (#[trigger] st2.types[j]).1.0.len() == 0 implies mono_free(st2.types[j].1.1) by {
                if j != i {
                    assert(st2.types[j] == st1.types[j]);
                }
            }
            lemma_mono_types_from_done(st2, i + 1, n, fuel, fnn);
        }
    }
}

proof fn lemma_mono_fns_from_done(st: MonoState, i: nat, n: nat, fuel: nat, tn: int)
    requires
        mono_fns_from(st, i, n, fuel) is Some,
        mono_done(st, tn, tn, i as int, n as int),
        n <= st.functions.len() || i >= n,
    ensures
        mono_done(mono_fns_from(st, i, n, fuel).unwrap(), tn, tn, n as int, n as int),
    decreases n - i,
{
    if i >= n || i >= st.functions.len() {
        assert forall|j: int|
            0 <= j < st.functions.len() && (j < n || j >= n) && (#[trigger] st.functions[j]).1.generics.len() == 0 implies fn_mono_free(st.functions[j].1) by {
            assert(j < i || j >= n);
        }
    } else {
        let e = st.functions[i as int];
        if e.1.generics.len() != 0 {
            lemma_mono_fns_from_done(st, i + 1, n, fuel, tn);
        } else {
            lemma_mono_fn_done(st, e.1, fuel, tn, tn, i as int, n as int);
            law_mono_fn_free(st, e.1, fuel);
            let (st1, f1) = mono_fn(st, e.1, fuel).unwrap();
            let st2 = MonoState { functions: st1.functions.update(i as int, (e.0, f1)), ..st1 };
            assert forall|j: int|
                0 <= j < st2.functions.len() && (j < i + 1 || j >= n) && (#[trigger] st2.functions[j]).1.generics.len() == 0 implies fn_mono_free(st2.functions[j].1) by {
                if j != i {
                    assert(st2.functions[j] == st1.functions[j]);
                }
            }
            lemma_mono_fns_from_done(st2, i + 1, n, fuel, tn);
        }
    }
}

proof fn lemma_without_types<V>(s: Seq<(Seq<char>, V)>, names: Set<Seq<char>>, p: spec_fn(V) -> bool)
    requires
        forall|i: int| 0 <= i < s.len() ==> #[trigger] p(s[i].1),
    ensures
        forall|i: int| 0 <= i < without(s, names).len() ==> #[trigger] p(without(s, names)[i].1),
    decreases s.len(),
{
    if s.len() > 0 {
        lemma_without_types(s.drop_last(), names, p);
        let w = without(s.drop_last(), names);
        let tail: Seq<(Seq<char>, V)> = if names.contains(s.last().0) {
            Seq::empty()
        } else {
            seq![s.last()]
        };
        assert(p(s[s.len() - 1].1));
        assert forall|i: int| 0 <= i < (w + tail).len() implies #[trigger] p((w + tail)[i].1) by {
            if i < w.len() {
                assert((w + tail)[i] == w[i]);
            } else {
                assert((w + tail)[i] == s.last());
            }
        }
    }
}

/// After monomorphizing a module, no generic use and no type parameter is left in a
/// declaration that takes no type parameters: not in a type declaration, not in a
/// function's types, and no function body uses a symbol with generic arguments.
pub proof fn law_mono_module_free(
    types: Seq<AliasEntry>,
    functions: Seq<(Seq<char>, FnModel)>,
    fuel: nat,
)
    requires
        mono_module(types, functions, fuel) is Some,
    ensures
        forall|k: int|
            0 <= k < mono_module(types, functions, fuel).unwrap().0.len() && (#[trigger] mono_module(
                types,
                functions,
                fuel,
            ).unwrap().0[k]).1.0.len() == 0 ==> mono_free(
                mono_module(types, functions, fuel).unwrap().0[k].1.1,
            ),
        forall|k: int|
            0 <= k < mono_module(types, functions, fuel).unwrap().1.len() && (#[trigger] mono_module(
                types,
                functions,
                fuel,
            ).unwrap().1[k]).1.generics.len() == 0 ==> fn_mono_free(
                mono_module(types, functions, fuel).unwrap().1[k].1,
            ),
{
    let st0 = MonoState { types, functions, seen_types: Set::empty(), seen_fns: Set::empty() };
    let nt = types.len();
    let nf = functions.len();
    lemma_mono_types_from_done(st0, 0, nt, fuel, nf as int);
    let st1 = mono_types_from(st0, 0, nt, fuel).unwrap();
    lemma_mono_fns_from_done(st1, 0, nf, fuel, nt as int);
    let st2 = mono_fns_from(st1, 0, nf, fuel).unwrap();
    let pt = |v: (Seq<Seq<char>>, TypeModel)| v.0.len() == 0 ==> mono_free(v.1);
    let pf = |f: FnModel| f.generics.len() == 0 ==> fn_mono_free(f);
    assert forall|i: int| 0 <= i < st2.types.len() implies #[trigger] pt(st2.types[i].1) by {
        assert(i < nt || i >= nt);
    }
    assert forall|i: int| 0 <= i < st2.functions.len() implies #[trigger] pf(st2.functions[i].1) by {
        assert(i < nf || i >= nf);
    }
    lemma_without_types(st2.types, seen_names(st2.seen_types), pt);
    lemma_without_types(st2.functions, seen_names(st2.seen_fns), pf);
    let r = mono_module(types, functions, fuel).unwrap();
    assert forall|k: int| 0 <= k < r.0.len() && (#[trigger] r.0[k]).1.0.len() == 0 implies mono_free(r.0[k].1.1) by {
        assert(pt(r.0[k].1));
    }
    assert forall|k: int| 0 <= k < r.1.len() && (#[trigger] r.1[k]).1.generics.len() == 0 implies fn_mono_free(r.1[k].1) by {
        assert(pf(r.1[k].1));
    }
}

proof fn lemma_mono_list_fixed(st: MonoState, s: Seq<TypeModel>, fuel: nat)
    requires
        list_mono_free(s),
    ensures
        mono_list(st, s, fuel) == Some((st, s)),
    decreases fuel, s, 1nat,
{
    if s.len() > 0 {
        lemma_mono_list_fixed(st, s.drop_last(), fuel);
        law_mono_ty_fixed(st, s.last(), fuel);
        assert(s.drop_last().push(s.last()) =~= s);
    }
}

proof fn lemma_mono_fields_fixed(st: MonoState, s: Seq<(Option<Seq<char>>, TypeModel)>, fuel: nat)
    requires
        fields_mono_free(s),
    ensures
        mono_fields(st, s, fuel) == Some((st, s)),
    decreases fuel, s, 1nat,
{
    if s.len() > 0 {
        lemma_mono_fields_fixed(st, s.drop_last(), fuel);
        law_mono_ty_fixed(st, s.last().1, fuel);
        assert(s.drop_last().push((s.last().0, s.last().1)) =~= s);
    }
}

/// Monomorphizing a type that holds no generic use and no type parameter succeeds,
/// gives the type back unchanged (every part of it, function-pointer return types
/// included) and makes no copies.
pub proof fn law_mono_ty_fixed(st: MonoState, t: TypeModel, fuel: nat)
    requires
        mono_free(t),
    ensures
        mono_ty(st, t, fuel) == Some((st, t)),
    decreases fuel, t, 0nat,
{
    match t {
        TypeModel::Array(ty, _) => law_mono_ty_fixed(st, *ty, fuel),
        TypeModel::Struct(fields) => lemma_mono_fields_fixed(st, fields, fuel),
        TypeModel::Ptr(ty, _) => law_mono_ty_fixed(st, *ty, fuel),
        TypeModel::FnPtr(params, return_type) => {
            lemma_mono_list_fixed(st, params, fuel);
            if let Some(ret) = return_type {
                law_mono_ty_fixed(st, *ret, fuel);
            }
        },
        _ => {},
    }
}

/// `b` is `a` with each use of an alias with generic arguments replaced by a use,
/// without arguments, of the copy named after those arguments: the same constructors,
/// array lengths, pointer mutability, field names and arities, function-pointer return
/// types where there were ones, and every other leaf unchanged.
pub open spec fn mono_shape(a: TypeModel, b: TypeModel) -> bool
    decreases a, 1nat,
{
    match a {
        TypeModel::Symbol(name, args) => if args.len() == 0 {
            b == a
        } else {
            b == TypeModel::Symbol(mono_name(name, args), Seq::empty())
        },
        TypeModel::Array(ty, len) => match b {
            TypeModel::Array(ty2, len2) => len2 == len && mono_shape(*ty, *ty2),
            _ => false,
        },
        TypeModel::Struct(fields) => match b {
            TypeModel::Struct(fields2) => fields_mono_shape(fields, fields2),
            _ => false,
        },
        TypeModel::Ptr(ty, mutable) => match b {
            TypeModel::Ptr(ty2, mutable2) => mutable2 == mutable && mono_shape(*ty, *ty2),
            _ => false,
        },
        TypeModel::FnPtr(params, ret) => match b {
            TypeModel::FnPtr(params2, ret2) => list_mono_shape(params, params2) && match ret {
                Some(r) => match ret2 {
                    Some(r2) => mono_shape(*r, *r2),
                    None => false,
                },
                None => ret2 is None,
            },
            _ => false,
        },
        TypeModel::Param(_) => false,
        _ => b == a,
    }
}

/// The lists are as long as each other and pair up as [`mono_shape`] says.
pub open spec fn list_mono_shape(a: Seq<TypeModel>, b: Seq<TypeModel>) -> bool
    decreases a, 0nat,
{
    a.len() == b.len() && (a.len() == 0 || (list_mono_shape(a.drop_last(), b.drop_last())
        && mono_shape(a.last(), b.last())))
}

/// The field lists are as long as each other, with the same names in the same order,
/// and pair up as [`mono_shape`] says.
pub open spec fn fields_mono_shape(
    a: Seq<(Option<Seq<char>>, TypeModel)>,
    b: Seq<(Option<Seq<char>>, TypeModel)>,
) -> bool
    decreases a, 0nat,
{
    a.len() == b.len() && (a.len() == 0 || (fields_mono_shape(a.drop_last(), b.drop_last())
        && a.last().0 == b.last().0 && mono_shape(a.last().1, b.last().1)))
}

proof fn lemma_mono_list_shape(st: MonoState, s: Seq<TypeModel>, fuel: nat)
    requires
        mono_list(st, s, fuel) is Some,
    ensures
        list_mono_shape(s, mono_list(st, s, fuel).unwrap().1),
    decreases fuel, s, 1nat,
{
    if s.len() > 0 {
        lemma_mono_list_shape(st, s.drop_last(), fuel);
        let (st1, prev) = mono_list(st, s.drop_last(), fuel).unwrap();
        law_mono_ty_shape(st1, s.last(), fuel);
        let t = mono_ty(st1, s.last(), fuel).unwrap().1;
        assert(prev.push(t).drop_last() =~= prev);
    }
}

proof fn lemma_mono_fields_shape(st: MonoState, s: Seq<(Option<Seq<char>>, TypeModel)>, fuel: nat)
    requires
        mono_fields(st, s, fuel) is Some,
    ensures
        fields_mono_shape(s, mono_fields(st, s, fuel).unwrap().1),
    decreases fuel, s, 1nat,
{
    if s.len() > 0 {
        lemma_mono_fields_shape(st, s.drop_last(), fuel);
        let (st1, prev) = mono_fields(st, s.drop_last(), fuel).unwrap();
        law_mono_ty_shape(st1, s.last().1, fuel);
        let t = mono_ty(st1, s.last().1, fuel).unwrap().1;
        assert(prev.push((s.last().0, t)).drop_last() =~= prev);
    }
}

/// Monomorphizing a type keeps its shape: only uses of aliases with generic arguments
/// change, each into a use of the copy named after its arguments.
pub proof fn law_mono_ty_shape(st: MonoState, t: TypeModel, fuel: nat)
    requires
        mono_ty(st, t, fuel) is Some,
    ensures
        mono_shape(t, mono_ty(st, t, fuel).unwrap().1),
    decreases fuel, t, 0nat,
{
    match t {
        TypeModel::Array(ty, _) => law_mono_ty_shape(st, *ty, fuel),
        TypeModel::Struct(fields) => lemma_mono_fields_shape(st, fields, fuel),
        TypeModel::Ptr(ty, _) => law_mono_ty_shape(st, *ty, fuel),
        TypeModel::FnPtr(params, return_type) => {
            lemma_mono_list_shape(st, params, fuel);
            if let Some(ret) = return_type {
                law_mono_ty_shape(mono_list(st, params, fuel).unwrap().0, *ret, fuel);
            }
        },
        _ => {},
    }
}

} // verus!
