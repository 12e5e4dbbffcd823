//! Naming anonymous structs: each struct type that is not itself the body of a type
//! alias becomes a use of a new alias named after its field types.
use crate::display::{push_type, type_text};
use crate::ir::{Body, VariableInfo};
use crate::model::{entries_view, lemma_put_type, put, AliasEntry};
use crate::module::{symbol_names, Function, Module, TypeAlias};
use crate::symbol::Symbol;
use crate::types::{
    copy_opt_string, fields_view, lemma_fields_view_take, lemma_types_view_take, opt_str_view,
    types_view, Type, TypeModel,
};
use vstd::prelude::*;

verus! {

broadcast use {vstd::std_specs::vec::group_vec_axioms, vstd::seq::group_seq_axioms};

/// An alias that naming creates: its name, its type parameters and its type.
pub type AliasModel = (Seq<char>, Seq<Seq<char>>, TypeModel);

/// The parameter names with `p` added at the end, unless it is there already.
pub open spec fn add_param(g: Seq<Seq<char>>, p: Seq<char>) -> Seq<Seq<char>> {
    if g.contains(p) {
        g
    } else {
        g.push(p)
    }
}

/// The name given to an anonymous struct: the display texts of its field types, one
/// after the other.
pub open spec fn struct_name(fields: Seq<(Option<Seq<char>>, TypeModel)>) -> Seq<char>
    decreases fields.len(),
{
    if fields.len() == 0 {
        Seq::empty()
    } else {
        struct_name(fields.drop_last()) + type_text(fields.last().1, false)
    }
}

/// Uses of the named type parameters.
pub open spec fn param_uses(g: Seq<Seq<char>>) -> Seq<TypeModel> {
    g.map_values(|p: Seq<char>| TypeModel::Param(p))
}

/// Naming in each of the types, left to right, from parameters `g` on.
pub open spec fn anon_list(s: Seq<TypeModel>, g: Seq<Seq<char>>) -> (
    Seq<TypeModel>,
    Seq<Seq<char>>,
    Seq<AliasModel>,
)
    decreases s, 0nat,
{
    if s.len() == 0 {
        (Seq::empty(), g, Seq::empty())
    } else {
        let prev = anon_list(s.drop_last(), g);
        let last = anon(s.last(), prev.1, false);
        (prev.0.push(last.0), last.1, prev.2 + last.2)
    }
}

/// Naming in each of the field types, left to right, from parameters `g` on.
pub open spec fn anon_fields(s: Seq<(Option<Seq<char>>, TypeModel)>, g: Seq<Seq<char>>) -> (
    Seq<(Option<Seq<char>>, TypeModel)>,
    Seq<Seq<char>>,
    Seq<AliasModel>,
)
    decreases s, 0nat,
{
    if s.len() == 0 {
        (Seq::empty(), g, Seq::empty())
    } else {
        let prev = anon_fields(s.drop_last(), g);
        let last = anon(s.last().1, prev.1, false);
        (prev.0.push((s.last().0, last.0)), last.1, prev.2 + last.2)
    }
}

/// Naming inside `t`: the types it is made of are named, left to right; a parameter
/// is recorded in `g`.
pub open spec fn anon_inner(t: TypeModel, g: Seq<Seq<char>>) -> (
    TypeModel,
    Seq<Seq<char>>,
    Seq<AliasModel>,
)
    decreases t, 0nat,
{
    match t {
        TypeModel::Symbol(name, generics) => {
            let r = anon_list(generics, g);
            (TypeModel::Symbol(name, r.0), r.1, r.2)
        },
        TypeModel::Array(ty, len) => {
            let r = anon(*ty, g, false);
            (TypeModel::Array(Box::new(r.0), len), r.1, r.2)
        },
        TypeModel::Struct(fields) => {
            let r = anon_fields(fields, g);
            (TypeModel::Struct(r.0), r.1, r.2)
        },
        TypeModel::Ptr(ty, mutable) => {
            let r = anon(*ty, g, false);
            (TypeModel::Ptr(Box::new(r.0), mutable), r.1, r.2)
        },
        TypeModel::FnPtr(params, return_type) => {
            let p = anon_list(params, g);
            match return_type {
                Some(ret) => {
                    let r = anon(*ret, p.1, false);
                    (TypeModel::FnPtr(p.0, Some(Box::new(r.0))), r.1, p.2 + r.2)
                },
                None => (TypeModel::FnPtr(p.0, None), p.1, p.2),
            }
        },
        TypeModel::Param(name) => (t, add_param(g, name), Seq::empty()),
        _ => (t, g, Seq::empty()),
    }
}

/// Naming the anonymous structs in `t`. The type parameters met so far, in the order
/// first met, are `g`; the result is the new type, the parameters met by the end, and
/// the aliases created, in order. Inner types are named first; then, unless `t` is a
/// root, a struct becomes a use of an alias named after its field types, taking as
/// parameters all the parameters met so far.
pub open spec fn anon(t: TypeModel, g: Seq<Seq<char>>, root: bool) -> (
    TypeModel,
    Seq<Seq<char>>,
    Seq<AliasModel>,
)
    decreases t, 1nat,
{
    let inner = anon_inner(t, g);
    match inner.0 {
        TypeModel::Struct(fields) => if root {
            inner
        } else {
            let name = struct_name(fields);
            (
                TypeModel::Symbol(name, param_uses(inner.1)),
                inner.1,
                inner.2.push((name, inner.1, inner.0)),
            )
        },
        _ => inner,
    }
}

/// The aliases waiting to be declared, as models.
pub open spec fn pending_view(s: Seq<(Symbol, TypeAlias)>) -> Seq<AliasModel> {
    s.map_values(|e: (Symbol, TypeAlias)| (e.0@, symbol_names(e.1.generics@), e.1.type_@))
}

fn add_param_exec(gens: &mut Vec<Symbol>, p: &Symbol)
    ensures
        symbol_names(final(gens)@) == add_param(symbol_names(old(gens)@), p@),
{
    let mut i: usize = 0;
    while i < gens.len()
        invariant
            i <= gens@.len(),
            *gens == *old(gens),
            forall|k: int| 0 <= k < i ==> gens@[k]@ != p@,
        decreases gens@.len() - i,
    {
        if gens[i].same(p) {
            assert(symbol_names(gens@)[i as int] == p@);
            return;
        }
        i += 1;
    }
    proof {
        assert forall|k: int| 0 <= k < symbol_names(gens@).len() implies symbol_names(gens@)[k] != p@ by {}
        assert(!symbol_names(gens@).contains(p@));
    }
    gens.push(p.copy());
    assert(symbol_names(gens@) =~= symbol_names(old(gens)@).push(p@));
}

pub(crate) fn copy_symbols(s: &Vec<Symbol>) -> (r: Vec<Symbol>)
    ensures
        symbol_names(r@) == symbol_names(s@),
{
    let mut r: Vec<Symbol> = Vec::new();
    let mut i: usize = 0;
    while i < s.len()
        invariant
            i <= s@.len(),
            r@.len() == i,
            forall|k: int| 0 <= k < i ==> (#[trigger] r@[k])@ == s@[k]@,
        decreases s@.len() - i,
    {
        r.push(s[i].copy());
        i += 1;
    }
    assert(symbol_names(r@) =~= symbol_names(s@));
    r
}

fn param_uses_exec(s: &Vec<Symbol>) -> (r: Vec<Type>)
    ensures
        types_view(r@) == param_uses(symbol_names(s@)),
{
    let mut r: Vec<Type> = Vec::new();
    let mut i: usize = 0;
    while i < s.len()
        invariant
            i <= s@.len(),
            r@.len() == i,
            forall|k: int| 0 <= k < i ==> (#[trigger] r@[k])@ == TypeModel::Param(s@[k]@),
        decreases s@.len() - i,
    {
        r.push(Type::Param(s[i].copy()));
        i += 1;
    }
    proof {
        crate::types::lemma_types_view_len(r@);
        assert forall|k: int| 0 <= k < r@.len() implies types_view(r@)[k] == param_uses(
            symbol_names(s@),
        )[k] by {
            crate::types::lemma_types_view_index(r@, k);
        }
        assert(types_view(r@) =~= param_uses(symbol_names(s@)));
    }
    r
}

fn struct_name_exec(fields: &Vec<(Option<String>, Type)>) -> (r: String)
    ensures
        r@ == struct_name(fields_view(fields@)),
{
    let mut out = String::new();
    let mut i: usize = 0;
    assert(fields@.take(0) =~= Seq::<(Option<String>, Type)>::empty());
    while i < fields.len()
        invariant
            i <= fields@.len(),
            out@ == struct_name(fields_view(fields@.take(i as int))),
        decreases fields@.len() - i,
    {
        proof {
            lemma_fields_view_take(fields@, i as int);
            let v = fields_view(fields@.take(i as int));
            let f = (opt_str_view(fields@[i as int].0), fields@[i as int].1@);
            assert(v.push(f).drop_last() =~= v);
        }
        push_type(&mut out, &fields[i].1, false);
        i += 1;
    }
    assert(fields@.take(fields@.len() as int) =~= fields@);
    out
}

fn anon_types(
    s: &Vec<Type>,
    gens: &mut Vec<Symbol>,
    pending: &mut Vec<(Symbol, TypeAlias)>,
) -> (r: Vec<Type>)
    ensures
        types_view(r@) == anon_list(types_view(s@), symbol_names(old(gens)@)).0,
        symbol_names(final(gens)@) == anon_list(types_view(s@), symbol_names(old(gens)@)).1,
        pending_view(final(pending)@) == pending_view(old(pending)@) + anon_list(
            types_view(s@),
            symbol_names(old(gens)@),
        ).2,
    decreases s, 0nat,
{
    let ghost g0 = symbol_names(gens@);
    let ghost p0 = pending_view(pending@);
    let mut r: Vec<Type> = Vec::new();
    let mut i: usize = 0;
    assert(s@.take(0) =~= Seq::<Type>::empty());
    assert(p0 + Seq::<AliasModel>::empty() =~= p0);
    while i < s.len()
        invariant
            i <= s@.len(),
            g0 == symbol_names(old(gens)@),
            p0 == pending_view(old(pending)@),
            types_view(r@) == anon_list(types_view(s@.take(i as int)), g0).0,
            symbol_names(gens@) == anon_list(types_view(s@.take(i as int)), g0).1,
            pending_view(pending@) == p0 + anon_list(types_view(s@.take(i as int)), g0).2,
        decreases s@.len() - i,
    {
        proof {
            lemma_types_view_take(s@, i as int);
            let v = types_view(s@.take(i as int));
            assert(v.push(s@[i as int]@).drop_last() =~= v);
        }
        let ghost pend_before = pending_view(pending@);
        let t = anon_type(&s[i], gens, pending, false);
        proof {
            assert(r@.push(t).drop_last() =~= r@);
            let prev = anon_list(types_view(s@.take(i as int)), g0);
            let last = anon(s@[i as int]@, prev.1, false);
            assert(pending_view(pending@) =~= p0 + (prev.2 + last.2));
        }
        r.push(t);
        i += 1;
    }
    assert(s@.take(s@.len() as int) =~= s@);
    r
}

fn anon_fields_exec(
    s: &Vec<(Option<String>, Type)>,
    gens: &mut Vec<Symbol>,
    pending: &mut Vec<(Symbol, TypeAlias)>,
) -> (r: Vec<(Option<String>, Type)>)
    ensures
        fields_view(r@) == anon_fields(fields_view(s@), symbol_names(old(gens)@)).0,
        symbol_names(final(gens)@) == anon_fields(fields_view(s@), symbol_names(old(gens)@)).1,
        pending_view(final(pending)@) == pending_view(old(pending)@) + anon_fields(
            fields_view(s@),
            symbol_names(old(gens)@),
        ).2,
    decreases s, 0nat,
{
    let ghost g0 = symbol_names(gens@);
    let ghost p0 = pending_view(pending@);
    let mut r: Vec<(Option<String>, Type)> = Vec::new();
    let mut i: usize = 0;
    assert(s@.take(0) =~= Seq::<(Option<String>, Type)>::empty());
    assert(p0 + Seq::<AliasModel>::empty() =~= p0);
    while i < s.len()
        invariant
            i <= s@.len(),
            g0 == symbol_names(old(gens)@),
            p0 == pending_view(old(pending)@),
            fields_view(r@) == anon_fields(fields_view(s@.take(i as int)), g0).0,
            symbol_names(gens@) == anon_fields(fields_view(s@.take(i as int)), g0).1,
            pending_view(pending@) == p0 + anon_fields(fields_view(s@.take(i as int)), g0).2,
        decreases s@.len() - i,
    {
        proof {
            lemma_fields_view_take(s@, i as int);
            let v = fields_view(s@.take(i as int));
            let f = (opt_str_view(s@[i as int].0), s@[i as int].1@);
            assert(v.push(f).drop_last() =~= v);
        }
        let t = anon_type(&s[i].1, gens, pending, false);
        let f = (copy_opt_string(&s[i].0), t);
        proof {
            assert(r@.push(f).drop_last() =~= r@);
            let prev = anon_fields(fields_view(s@.take(i as int)), g0);
            let last = anon(s@[i as int].1@, prev.1, false);
            assert(pending_view(pending@) =~= p0 + (prev.2 + last.2));
        }
        r.push(f);
        i += 1;
    }
    assert(s@.take(s@.len() as int) =~= s@);
    r
}

fn anon_inner_exec(t: &Type, gens: &mut Vec<Symbol>, pending: &mut Vec<(Symbol, TypeAlias)>) -> (r:
    Type)
    ensures
        r@ == anon_inner(t@, symbol_names(old(gens)@)).0,
        symbol_names(final(gens)@) == anon_inner(t@, symbol_names(old(gens)@)).1,
        pending_view(final(pending)@) == pending_view(old(pending)@) + anon_inner(
            t@,
            symbol_names(old(gens)@),
        ).2,
    decreases t, 1nat,
{
    let ghost g0 = symbol_names(gens@);
    let ghost p0 = pending_view(pending@);
    match t {
        Type::Symbol(name, generics) => Type::Symbol(name.copy(), anon_types(generics, gens, pending)),
        Type::Array(ty, len) => Type::Array(Box::new(anon_type(ty, gens, pending, false)), *len),
        Type::Struct { fields } => Type::Struct { fields: anon_fields_exec(fields, gens, pending) },
        Type::Ptr(ty, mutable) => Type::Ptr(Box::new(anon_type(ty, gens, pending, false)), *mutable),
        Type::FnPtr { params, return_type } => {
            let new_params = anon_types(params, gens, pending);
            match return_type {
                Some(ret) => {
                    let ghost p1 = pending_view(pending@);
                    let r = anon_type(ret, gens, pending, false);
                    proof {
                        let l = anon_list(types_view(params@), g0);
                        let a = anon((**ret)@, l.1, false);
                        assert(pending_view(pending@) =~= p0 + (l.2 + a.2));
                    }
                    Type::FnPtr { params: new_params, return_type: Some(Box::new(r)) }
                },
                None => Type::FnPtr { params: new_params, return_type: None },
            }
        },
        Type::Param(name) => {
            add_param_exec(gens, name);
            assert(pending_view(pending@) =~= p0 + Seq::<AliasModel>::empty());
            Type::Param(name.copy())
        },
        _ => {
            assert(pending_view(pending@) =~= p0 + Seq::<AliasModel>::empty());
            t.deep_copy()
        },
    }
}

/// Name the anonymous structs in `t`, adding the type parameters met to `gens` (each
/// once, in the order first met) and the aliases to declare to `pending`. A root is
/// not itself renamed.
pub fn anon_type(
    t: &Type,
    gens: &mut Vec<Symbol>,
    pending: &mut Vec<(Symbol, TypeAlias)>,
    root: bool,
) -> (r: Type)
    ensures
        r@ == anon(t@, symbol_names(old(gens)@), root).0,
        symbol_names(final(gens)@) == anon(t@, symbol_names(old(gens)@), root).1,
        pending_view(final(pending)@) == pending_view(old(pending)@) + anon(
            t@,
            symbol_names(old(gens)@),
            root,
        ).2,
    decreases t, 2nat,
{
    let ghost g0 = symbol_names(gens@);
    let ghost p0 = pending_view(pending@);
    let inner = anon_inner_exec(t, gens, pending);
    if root {
        return inner;
    }
    match inner {
        Type::Struct { fields } => {
            let name = struct_name_exec(&fields);
            let args = param_uses_exec(gens);
            let generics = copy_symbols(gens);
            let ghost inner_view = anon_inner(t@, g0).0;
            let alias = TypeAlias { generics, type_: Type::Struct { fields } };
            let ghost before = pending@;
            pending.push((Symbol::from_string(name.clone()), alias));
            proof {
                assert(pending@ == before.push((pending@.last().0, alias)));
                assert(pending_view(pending@) =~= pending_view(before).push(
                    (name@, symbol_names(gens@), inner_view),
                ));
            }
            Type::Symbol(Symbol::from_string(name), args)
        },
        other => other,
    }
}


/// Declare the aliases one after the other.
pub open spec fn put_all(s: Seq<AliasEntry>, ins: Seq<AliasModel>) -> Seq<AliasEntry>
    decreases ins.len(),
{
    if ins.len() == 0 {
        s
    } else {
        let last = ins.last();
        put(put_all(s, ins.drop_last()), last.0, (last.1, last.2))
    }
}

/// The declarations after naming in the first `k` of them, each in turn: the
/// declaration's own type is a root, and the aliases that naming creates are
/// declared right after.
pub open spec fn name_types_upto(s0: Seq<AliasEntry>, k: nat) -> Seq<AliasEntry>
    decreases k,
{
    if k == 0 {
        s0
    } else {
        let s = name_types_upto(s0, (k - 1) as nat);
        let i = k - 1;
        if i < s.len() {
            let r = anon(s[i].1.1, Seq::empty(), true);
            put_all(s.update(i, (s[i].0, (s[i].1.0, r.0))), r.2)
        } else {
            s
        }
    }
}

/// Aliases created naming in the types of the parameters, one after the other.
pub open spec fn params_aliases(s: Seq<(Option<String>, Type)>) -> Seq<AliasModel>
    decreases s.len(),
{
    if s.len() == 0 {
        Seq::empty()
    } else {
        params_aliases(s.drop_last()) + anon(s.last().1@, Seq::empty(), false).2
    }
}

/// Aliases created naming in the types of the variables, one after the other.
pub open spec fn vars_aliases(s: Seq<VariableInfo>) -> Seq<AliasModel>
    decreases s.len(),
{
    if s.len() == 0 {
        Seq::empty()
    } else {
        vars_aliases(s.drop_last()) + anon(s.last().ty@, Seq::empty(), false).2
    }
}

/// Aliases created naming in a function: in its parameter types, its return type and
/// the types of its body's variables, in that order.
pub open spec fn function_aliases(f: Function) -> Seq<AliasModel> {
    params_aliases(f.params@) + match f.return_type {
        Some(t) => anon(t@, Seq::empty(), false).2,
        None => Seq::empty(),
    } + match f.body {
        Some(b) => vars_aliases(b.variables@),
        None => Seq::empty(),
    }
}

/// Aliases created naming in the functions, one after the other.
pub open spec fn functions_aliases(s: Seq<(Symbol, Function)>) -> Seq<AliasModel>
    decreases s.len(),
{
    if s.len() == 0 {
        Seq::empty()
    } else {
        functions_aliases(s.drop_last()) + function_aliases(s.last().1)
    }
}

/// `new` is `old` with the anonymous structs in its parameter types, return type and
/// variable types named, each of these types on its own (from no parameters met); its
/// generics, names and instructions are those of `old`.
pub open spec fn function_named(old: Function, new: Function) -> bool {
    &&& new.generics == old.generics
    &&& new.params@.len() == old.params@.len()
    &&& forall|k: int|
        0 <= k < old.params@.len() ==> opt_str_view(#[trigger] new.params@[k].0) == opt_str_view(
            old.params@[k].0,
        ) && new.params@[k].1@ == anon(old.params@[k].1@, Seq::empty(), false).0
    &&& match (old.return_type, new.return_type) {
        (Some(a), Some(b)) => b@ == anon(a@, Seq::empty(), false).0,
        (None, None) => true,
        _ => false,
    }
    &&& match (old.body, new.body) {
        (Some(a), Some(b)) => {
            &&& b.symbols == a.symbols
            &&& b.label_names == a.label_names
            &&& b.instructions == a.instructions
            &&& b.variables@.len() == a.variables@.len()
            &&& forall|k: int|
                0 <= k < a.variables@.len() ==> (#[trigger] b.variables@[k]).arg == a.variables@[k].arg
                    && opt_str_view(b.variables@[k].name) == opt_str_view(a.variables@[k].name)
                    && b.variables@[k].ty@ == anon(a.variables@[k].ty@, Seq::empty(), false).0
        },
        (None, None) => true,
        _ => false,
    }
}

/// Declare each pending alias in turn.
fn declare_pending(module: &mut Module, pending: Vec<(Symbol, TypeAlias)>)
    requires
        old(module).wf(),
    ensures
        final(module).wf(),
        entries_view(final(module).type_list()) == put_all(
            entries_view(old(module).type_list()),
            pending_view(pending@),
        ),
        final(module).function_list() == old(module).function_list(),
{
    let mut pending = pending;
    let ghost all = pending_view(pending@);
    let ghost base = entries_view(module.type_list());
    let ghost mut k: int = 0;
    assert(all.take(0) =~= Seq::<AliasModel>::empty());
    while pending.len() > 0
        invariant
            module.wf(),
            0 <= k <= all.len(),
            pending_view(pending@) == all.skip(k),
            entries_view(module.type_list()) == put_all(base, all.take(k)),
            module.function_list() == old(module).function_list(),
        decreases pending@.len(),
    {
        let ghost pend_before = pending@;
        proof {
            assert(pending_view(pend_before).len() == pend_before.len());
            assert(k < all.len());
        }
        let (name, alias) = pending.remove(0);
        let ghost before = module.type_list();
        proof {
            assert(pending@ == pend_before.remove(0));
            assert(pending_view(pend_before)[0] == all.skip(k)[0]);
            assert(all.skip(k)[0] == (name@, symbol_names(alias.generics@), alias.type_@));
            assert forall|j: int| 0 <= j < pending@.len() implies pending_view(pending@)[j] == all.skip(k + 1)[j] by {
                assert(pending@[j] == pend_before[j + 1]);
                assert(pending_view(pend_before)[j + 1] == all.skip(k)[j + 1]);
            }
            assert(pending_view(pending@) =~= all.skip(k + 1));
            assert(all.take(k + 1).drop_last() =~= all.take(k));
        }
        module.insert_ty(name, alias);
        proof {
            lemma_put_type(before, module.type_list(), name, alias);
            k = k + 1;
        }
    }
    assert(all.take(k) =~= all);
}


proof fn lemma_put_all_concat(s: Seq<AliasEntry>, a: Seq<AliasModel>, b: Seq<AliasModel>)
    ensures
        put_all(put_all(s, a), b) == put_all(s, a + b),
    decreases b.len(),
{
    if b.len() == 0 {
        assert(a + b =~= a);
    } else {
        lemma_put_all_concat(s, a, b.drop_last());
        assert((a + b).drop_last() =~= a + b.drop_last());
        assert((a + b).last() == b.last());
    }
}

proof fn lemma_put_all_len(s: Seq<AliasEntry>, a: Seq<AliasModel>)
    ensures
        put_all(s, a).len() >= s.len(),
    decreases a.len(),
{
    if a.len() > 0 {
        lemma_put_all_len(s, a.drop_last());
    }
}

fn name_types(module: &mut Module)
    requires
        old(module).wf(),
    ensures
        final(module).wf(),
        entries_view(final(module).type_list()) == name_types_upto(
            entries_view(old(module).type_list()),
            old(module).type_list().len(),
        ),
        final(module).function_list() == old(module).function_list(),
{
    let n = module.type_entries().len();
    let ghost s0 = entries_view(module.type_list());
    let mut i: usize = 0;
    while i < n
        invariant
            module.wf(),
            i <= n,
            n == old(module).type_list().len(),
            s0 == entries_view(old(module).type_list()),
            module.type_list().len() >= n,
            entries_view(module.type_list()) == name_types_upto(s0, i as nat),
            module.function_list() == old(module).function_list(),
        decreases n - i,
    {
        let ghost s = entries_view(module.type_list());
        let ghost list = module.type_list();
        let placeholder = TypeAlias { generics: Vec::new(), type_: Type::Error };
        let alias = module.replace_type_at(i, placeholder);
        let mut gens: Vec<Symbol> = Vec::new();
        let mut pending: Vec<(Symbol, TypeAlias)> = Vec::new();
        proof {
            assert(symbol_names(gens@) =~= Seq::<Seq<char>>::empty());
            assert(pending_view(pending@) =~= Seq::<AliasModel>::empty());
        }
        let new_ty = anon_type(&alias.type_, &mut gens, &mut pending, true);
        let ghost r = anon(s[i as int].1.1, Seq::empty(), true);
        module.replace_type_at(i, TypeAlias { generics: alias.generics, type_: new_ty });
        proof {
            assert(pending_view(pending@) =~= r.2);
            assert(entries_view(module.type_list()) =~= s.update(
                i as int,
                (s[i as int].0, (s[i as int].1.0, r.0)),
            ));
            assert(list.update(i as int, (list[i as int].0, placeholder)).update(i as int, (list[i as int].0, TypeAlias { generics: alias.generics, type_: new_ty })) =~= list.update(i as int, (list[i as int].0, TypeAlias { generics: alias.generics, type_: new_ty })));
        }
        declare_pending(module, pending);
        proof {
            lemma_put_all_len(s.update(i as int, (s[i as int].0, (s[i as int].1.0, r.0))), r.2);
        }
        i += 1;
    }
}

fn name_in_function(f: Function, pending: &mut Vec<(Symbol, TypeAlias)>) -> (r: Function)
    ensures
        function_named(f, r),
        pending_view(final(pending)@) == pending_view(old(pending)@) + function_aliases(f),
{
    let ghost p0 = pending_view(pending@);
    let ghost f0 = f;
    let Function { generics, params, return_type, body } = f;
    let mut new_params: Vec<(Option<String>, Type)> = Vec::new();
    let mut i: usize = 0;
    assert(params@.take(0) =~= Seq::<(Option<String>, Type)>::empty());
    assert(p0 + Seq::<AliasModel>::empty() =~= p0);
    while i < params.len()
        invariant
            i <= params@.len(),
            new_params@.len() == i,
            forall|k: int|
                0 <= k < i ==> opt_str_view(#[trigger] new_params@[k].0) == opt_str_view(params@[k].0)
                    && new_params@[k].1@ == anon(params@[k].1@, Seq::empty(), false).0,
            pending_view(pending@) == p0 + params_aliases(params@.take(i as int)),
        decreases params@.len() - i,
    {
        let mut gens: Vec<Symbol> = Vec::new();
        proof {
            assert(symbol_names(gens@) =~= Seq::<Seq<char>>::empty());
        }
        let ghost before = pending_view(pending@);
        let t = anon_type(&params[i].1, &mut gens, pending, false);
        proof {
            assert(params@.take(i + 1).drop_last() =~= params@.take(i as int));
            assert(pending_view(pending@) =~= p0 + params_aliases(params@.take(i + 1)));
        }
        new_params.push((copy_opt_string(&params[i].0), t));
        i += 1;
    }
    assert(params@.take(params@.len() as int) =~= params@);
    let ghost p1 = pending_view(pending@);
    let new_return = match &return_type {
        Some(t) => {
            let mut gens: Vec<Symbol> = Vec::new();
            proof {
                assert(symbol_names(gens@) =~= Seq::<Seq<char>>::empty());
            }
            Some(anon_type(t, &mut gens, pending, false))
        },
        None => {
            assert(pending_view(pending@) =~= p1 + Seq::<AliasModel>::empty());
            None
        },
    };
    let ghost p2 = pending_view(pending@);
    let new_body = match body {
        Some(b) => {
            let Body { variables, symbols, label_names, instructions } = b;
            let mut vars: Vec<VariableInfo> = Vec::new();
            let mut j: usize = 0;
            assert(variables@.take(0) =~= Seq::<VariableInfo>::empty());
            assert(p2 + Seq::<AliasModel>::empty() =~= p2);
            while j < variables.len()
                invariant
                    j <= variables@.len(),
                    vars@.len() == j,
                    forall|k: int|
                        0 <= k < j ==> (#[trigger] vars@[k]).arg == variables@[k].arg && opt_str_view(
                            vars@[k].name,
                        ) == opt_str_view(variables@[k].name) && vars@[k].ty@ == anon(
                            variables@[k].ty@,
                            Seq::empty(),
                            false,
                        ).0,
                    pending_view(pending@) == p2 + vars_aliases(variables@.take(j as int)),
                decreases variables@.len() - j,
            {
                let mut gens: Vec<Symbol> = Vec::new();
                proof {
                    assert(symbol_names(gens@) =~= Seq::<Seq<char>>::empty());
                }
                let t = anon_type(&variables[j].ty, &mut gens, pending, false);
                proof {
                    assert(variables@.take(j + 1).drop_last() =~= variables@.take(j as int));
                    assert(pending_view(pending@) =~= p2 + vars_aliases(variables@.take(j + 1)));
                }
                vars.push(
                    VariableInfo {
                        ty: t,
                        arg: variables[j].arg,
                        name: copy_opt_string(&variables[j].name),
                    },
                );
                j += 1;
            }
            assert(variables@.take(variables@.len() as int) =~= variables@);
            Some(Body { variables: vars, symbols, label_names, instructions })
        },
        None => {
            assert(pending_view(pending@) =~= p2 + Seq::<AliasModel>::empty());
            None
        },
    };
    let r = Function { generics, params: new_params, return_type: new_return, body: new_body };
    assert(pending_view(pending@) =~= p0 + function_aliases(f0));
    r
}

impl Module {
    /// Replaces all anonymous structs by named structs: first in each type declaration
    /// (whose own type stays as it is), then in the parameter, return and variable
    /// types of each function. Each struct met becomes a use of an alias named after
    /// its field types, declared with the type parameters met so far in that type, in
    /// the order first met. Declarations are visited in the order they were first made.
    pub fn name_anonymous_structs(&mut self)
        requires
            old(self).wf(),
        ensures
            final(self).wf(),
            entries_view(final(self).type_list()) == put_all(
                name_types_upto(entries_view(old(self).type_list()), old(self).type_list().len()),
                functions_aliases(old(self).function_list()),
            ),
            final(self).function_list().len() == old(self).function_list().len(),
            forall|j: int|
                0 <= j < old(self).function_list().len() ==> (#[trigger] final(self).function_list()[j]).0
                    == old(self).function_list()[j].0 && function_named(
                    old(self).function_list()[j].1,
                    final(self).function_list()[j].1,
                ),
    {
        name_types(self);
        let ghost t = entries_view(self.type_list());
        let n = self.function_entries().len();
        let mut j: usize = 0;
        assert(old(self).function_list().take(0) =~= Seq::<(Symbol, Function)>::empty());
        while j < n
            invariant
                self.wf(),
                j <= n,
                n == old(self).function_list().len(),
                self.function_list().len() == n,
                entries_view(self.type_list()) == put_all(t, functions_aliases(old(self).function_list().take(j as int))),
                forall|k: int| 0 <= k < n ==> (#[trigger] self.function_list()[k]).0 == old(self).function_list()[k].0,
                forall|k: int| j <= k < n ==> (#[trigger] self.function_list()[k]).1 == old(self).function_list()[k].1,
                forall|k: int| 0 <= k < j ==> function_named(old(self).function_list()[k].1, (#[trigger] self.function_list()[k]).1),
            decreases n - j,
        {
            let placeholder = Function { generics: Vec::new(), params: Vec::new(), return_type: None, body: None };
            let f = self.replace_function_at(j, placeholder);
            let mut pending: Vec<(Symbol, TypeAlias)> = Vec::new();
            assert(pending_view(pending@) =~= Seq::<AliasModel>::empty());
            let new_f = name_in_function(f, &mut pending);
            self.replace_function_at(j, new_f);
            let ghost before = entries_view(self.type_list());
            declare_pending(self, pending);
            proof {
                let fl = old(self).function_list();
                assert(fl.take(j + 1).drop_last() =~= fl.take(j as int));
                assert(pending_view(pending@) =~= function_aliases(fl[j as int].1));
                lemma_put_all_concat(t, functions_aliases(fl.take(j as int)), function_aliases(fl[j as int].1));
            }
            j += 1;
        }
        assert(old(self).function_list().take(n as int) =~= old(self).function_list());
    }
}


/// No struct type occurs in `t`.
pub open spec fn struct_free(t: TypeModel) -> bool
    decreases t, 1nat,
{
    match t {
        TypeModel::Symbol(_, generics) => list_struct_free(generics),
        TypeModel::Array(ty, _) => struct_free(*ty),
        TypeModel::Struct(_) => false,
        TypeModel::Ptr(ty, _) => struct_free(*ty),
        TypeModel::FnPtr(params, return_type) => list_struct_free(params) && match return_type {
            Some(r) => struct_free(*r),
            None => true,
        },
        _ => true,
    }
}

/// No struct type occurs in any of the types.
pub open spec fn list_struct_free(s: Seq<TypeModel>) -> bool
    decreases s, 0nat,
{
    if s.len() == 0 {
        true
    } else {
        list_struct_free(s.drop_last()) && struct_free(s.last())
    }
}

/// No struct type occurs in any of the field types.
pub open spec fn fields_struct_free(s: Seq<(Option<Seq<char>>, TypeModel)>) -> bool
    decreases s.len(),
{
    if s.len() == 0 {
        true
    } else {
        fields_struct_free(s.drop_last()) && struct_free(s.last().1)
    }
}

/// A struct type occurs in `t` at most at its top.
pub open spec fn shallow_struct_free(t: TypeModel) -> bool {
    match t {
        TypeModel::Struct(fields) => fields_struct_free(fields),
        _ => struct_free(t),
    }
}

proof fn lemma_param_uses_free(g: Seq<Seq<char>>)
    ensures
        list_struct_free(param_uses(g)),
    decreases g.len(),
{
    if g.len() > 0 {
        lemma_param_uses_free(g.drop_last());
        assert(param_uses(g).drop_last() =~= param_uses(g.drop_last()));
        assert(param_uses(g).last() == TypeModel::Param(g.last()));
        assert(struct_free(param_uses(g).last()));
    }
}

proof fn lemma_anon_list_free(s: Seq<TypeModel>, g: Seq<Seq<char>>)
    ensures
        list_struct_free(anon_list(s, g).0),
    decreases s, 0nat,
{
    if s.len() > 0 {
        let prev = anon_list(s.drop_last(), g);
        lemma_anon_list_free(s.drop_last(), g);
        lemma_anon_free(s.last(), prev.1, false);
        let last = anon(s.last(), prev.1, false);
        assert(prev.0.push(last.0).drop_last() =~= prev.0);
    }
}

proof fn lemma_anon_fields_free(s: Seq<(Option<Seq<char>>, TypeModel)>, g: Seq<Seq<char>>)
    ensures
        fields_struct_free(anon_fields(s, g).0),
    decreases s, 0nat,
{
    if s.len() > 0 {
        let prev = anon_fields(s.drop_last(), g);
        lemma_anon_fields_free(s.drop_last(), g);
        lemma_anon_free(s.last().1, prev.1, false);
        let last = anon(s.last().1, prev.1, false);
        assert(prev.0.push((s.last().0, last.0)).drop_last() =~= prev.0);
    }
}

proof fn lemma_anon_inner_free(t: TypeModel, g: Seq<Seq<char>>)
    ensures
        shallow_struct_free(anon_inner(t, g).0),
    decreases t, 0nat,
{
    match t {
        TypeModel::Symbol(_, generics) => lemma_anon_list_free(generics, g),
        TypeModel::Array(ty, _) => lemma_anon_free(*ty, g, false),
        TypeModel::Struct(fields) => lemma_anon_fields_free(fields, g),
        TypeModel::Ptr(ty, _) => lemma_anon_free(*ty, g, false),
        TypeModel::FnPtr(params, return_type) => {
            lemma_anon_list_free(params, g);
            if let Some(ret) = return_type {
                lemma_anon_free(*ret, anon_list(params, g).1, false);
            }
        },
        _ => {},
    }
}

/// Naming leaves no struct inside a type, and none at all in a type that is not a root.
pub proof fn lemma_anon_free(t: TypeModel, g: Seq<Seq<char>>, root: bool)
    ensures
        shallow_struct_free(anon(t, g, root).0),
        !root ==> struct_free(anon(t, g, root).0),
    decreases t, 1nat,
{
    lemma_anon_inner_free(t, g);
    let inner = anon_inner(t, g);
    if !root && inner.0 is Struct {
        lemma_param_uses_free(inner.1);
    }
}

proof fn lemma_anon_list_fixed(s: Seq<TypeModel>, g: Seq<Seq<char>>)
    requires
        list_struct_free(s),
    ensures
        anon_list(s, g).0 == s,
        anon_list(s, g).2 == Seq::<AliasModel>::empty(),
    decreases s, 0nat,
{
    if s.len() > 0 {
        let prev = anon_list(s.drop_last(), g);
        lemma_anon_list_fixed(s.drop_last(), g);
        lemma_anon_fixed(s.last(), prev.1);
        assert(s.drop_last().push(s.last()) =~= s);
        assert(prev.2 + anon(s.last(), prev.1, false).2 =~= Seq::<AliasModel>::empty());
    }
}

/// A type without structs is left as it is by naming, and no alias is made.
pub proof fn lemma_anon_fixed(t: TypeModel, g: Seq<Seq<char>>)
    requires
        struct_free(t),
    ensures
        anon(t, g, false).0 == t,
        anon(t, g, false).2 == Seq::<AliasModel>::empty(),
    decreases t, 1nat,
{
    match t {
        TypeModel::Symbol(_, generics) => lemma_anon_list_fixed(generics, g),
        TypeModel::Array(ty, _) => lemma_anon_fixed(*ty, g),
        TypeModel::Ptr(ty, _) => lemma_anon_fixed(*ty, g),
        TypeModel::FnPtr(params, return_type) => {
            lemma_anon_list_fixed(params, g);
            if let Some(ret) = return_type {
                lemma_anon_fixed(*ret, anon_list(params, g).1);
                assert(anon_list(params, g).2 + anon(*ret, anon_list(params, g).1, false).2
                    =~= Seq::<AliasModel>::empty());
            }
        },
        _ => {},
    }
}

/// Naming the anonymous structs of a type a second time changes nothing more: the
/// type stays as the first naming left it, and no alias is made.
pub proof fn law_anon_idempotent(t: TypeModel, g: Seq<Seq<char>>, g2: Seq<Seq<char>>)
    ensures
        anon(anon(t, g, false).0, g2, false).0 == anon(t, g, false).0,
        anon(anon(t, g, false).0, g2, false).2 == Seq::<AliasModel>::empty(),
{
    lemma_anon_free(t, g, false);
    lemma_anon_fixed(anon(t, g, false).0, g2);
}

/// Every alias in the list has a type in which a struct occurs at most at its top.
pub open spec fn aliases_shallow_free(s: Seq<AliasModel>) -> bool {
    forall|k: int| 0 <= k < s.len() ==> shallow_struct_free(#[trigger] s[k].2)
}

/// Every declaration in the list has a type in which a struct occurs at most at its top.
pub open spec fn entries_shallow_free(s: Seq<AliasEntry>) -> bool {
    forall|k: int| 0 <= k < s.len() ==> shallow_struct_free(#[trigger] s[k].1.1)
}

proof fn lemma_concat_shallow_free(a: Seq<AliasModel>, b: Seq<AliasModel>)
    requires
        aliases_shallow_free(a),
        aliases_shallow_free(b),
    ensures
        aliases_shallow_free(a + b),
{
    assert forall|k: int| 0 <= k < (a + b).len() implies shallow_struct_free(#[trigger] (a + b)[k].2) by {
        if k < a.len() {
            assert((a + b)[k] == a[k]);
        } else {
            assert((a + b)[k] == b[k - a.len()]);
        }
    }
}

proof fn lemma_anon_list_aliases(s: Seq<TypeModel>, g: Seq<Seq<char>>)
    ensures
        aliases_shallow_free(anon_list(s, g).2),
    decreases s, 0nat,
{
    if s.len() > 0 {
        let prev = anon_list(s.drop_last(), g);
        lemma_anon_list_aliases(s.drop_last(), g);
        lemma_anon_aliases(s.last(), prev.1, false);
        lemma_concat_shallow_free(prev.2, anon(s.last(), prev.1, false).2);
    }
}

proof fn lemma_anon_fields_aliases(s: Seq<(Option<Seq<char>>, TypeModel)>, g: Seq<Seq<char>>)
    ensures
        aliases_shallow_free(anon_fields(s, g).2),
    decreases s, 0nat,
{
    if s.len() > 0 {
        let prev = anon_fields(s.drop_last(), g);
        lemma_anon_fields_aliases(s.drop_last(), g);
        lemma_anon_aliases(s.last().1, prev.1, false);
        lemma_concat_shallow_free(prev.2, anon(s.last().1, prev.1, false).2);
    }
}

proof fn lemma_anon_inner_aliases(t: TypeModel, g: Seq<Seq<char>>)
    ensures
        aliases_shallow_free(anon_inner(t, g).2),
    decreases t, 0nat,
{
    match t {
        TypeModel::Symbol(_, generics) => lemma_anon_list_aliases(generics, g),
        TypeModel::Array(ty, _) => lemma_anon_aliases(*ty, g, false),
        TypeModel::Struct(fields) => lemma_anon_fields_aliases(fields, g),
        TypeModel::Ptr(ty, _) => lemma_anon_aliases(*ty, g, false),
        TypeModel::FnPtr(params, return_type) => {
            lemma_anon_list_aliases(params, g);
            if let Some(ret) = return_type {
                let p = anon_list(params, g);
                lemma_anon_aliases(*ret, p.1, false);
                lemma_concat_shallow_free(p.2, anon(*ret, p.1, false).2);
            }
        },
        _ => {},
    }
}

/// The aliases naming makes have types in which a struct occurs at most at the top.
proof fn lemma_anon_aliases(t: TypeModel, g: Seq<Seq<char>>, root: bool)
    ensures
        aliases_shallow_free(anon(t, g, root).2),
    decreases t, 1nat,
{
    lemma_anon_inner_aliases(t, g);
    lemma_anon_inner_free(t, g);
    let inner = anon_inner(t, g);
    if !root && inner.0 is Struct {
        let name = struct_name(inner.0->Struct_0);
        let out = inner.2.push((name, inner.1, inner.0));
        assert forall|k: int| 0 <= k < out.len() implies shallow_struct_free(#[trigger] out[k].2) by {
            if k < inner.2.len() {
                assert(out[k] == inner.2[k]);
            }
        }
    }
}

proof fn lemma_put_shallow_free(s: Seq<AliasEntry>, a: AliasModel)
    requires
        entries_shallow_free(s),
        shallow_struct_free(a.2),
    ensures
        entries_shallow_free(put(s, a.0, (a.1, a.2))),
{
}

proof fn lemma_put_all_shallow_free(s: Seq<AliasEntry>, ins: Seq<AliasModel>)
    requires
        entries_shallow_free(s),
        aliases_shallow_free(ins),
    ensures
        entries_shallow_free(put_all(s, ins)),
    decreases ins.len(),
{
    if ins.len() > 0 {
        assert(aliases_shallow_free(ins.drop_last())) by {
            assert forall|k: int| 0 <= k < ins.drop_last().len() implies shallow_struct_free(
                #[trigger] ins.drop_last()[k].2,
            ) by {
                assert(ins.drop_last()[k] == ins[k]);
            }
        }
        lemma_put_all_shallow_free(s, ins.drop_last());
        assert(shallow_struct_free(ins[ins.len() - 1].2));
        lemma_put_shallow_free(put_all(s, ins.drop_last()), ins.last());
    }
}

/// After naming in the first `k` declarations, those and every declaration beyond the
/// original ones (aliases naming made) have a struct at most at the top of their type;
/// the list never shrinks.
proof fn lemma_name_types_upto_free(s0: Seq<AliasEntry>, k: nat)
    requires
        k <= s0.len(),
    ensures
        name_types_upto(s0, k).len() >= s0.len(),
        forall|i: int|
            0 <= i < name_types_upto(s0, k).len() && (i < k || i >= s0.len()) ==> shallow_struct_free(
                #[trigger] name_types_upto(s0, k)[i].1.1,
            ),
    decreases k,
{
    if k > 0 {
        lemma_name_types_upto_free(s0, (k - 1) as nat);
        let s = name_types_upto(s0, (k - 1) as nat);
        let i = k - 1;
        let r = anon(s[i].1.1, Seq::empty(), true);
        lemma_anon_free(s[i].1.1, Seq::empty(), true);
        lemma_anon_aliases(s[i].1.1, Seq::empty(), true);
        let u = s.update(i, (s[i].0, (s[i].1.0, r.0)));
        lemma_put_all_keeps(u, r.2);
        lemma_put_all_shallow_free_from(u, r.2, k as int, s0.len() as int);
    }
}

/// `put_all` keeps the length or grows it.
proof fn lemma_put_all_keeps(s: Seq<AliasEntry>, ins: Seq<AliasModel>)
    ensures
        put_all(s, ins).len() >= s.len(),
    decreases ins.len(),
{
    if ins.len() > 0 {
        lemma_put_all_keeps(s, ins.drop_last());
    }
}

/// Declaring aliases with shallow types keeps every entry that is shallow shallow:
/// an entry is either kept or replaced by one of the aliases, and new ones are appended.
proof fn lemma_put_all_shallow_free_from(s: Seq<AliasEntry>, ins: Seq<AliasModel>, k: int, n0: int)
    requires
        aliases_shallow_free(ins),
        s.len() >= n0,
        forall|i: int| 0 <= i < s.len() && (i < k || i >= n0) ==> shallow_struct_free(#[trigger] s[i].1.1),
    ensures
        forall|i: int|
            0 <= i < put_all(s, ins).len() && (i < k || i >= n0) ==> shallow_struct_free(
                #[trigger] put_all(s, ins)[i].1.1,
            ),
    decreases ins.len(),
{
    if ins.len() > 0 {
        assert(aliases_shallow_free(ins.drop_last())) by {
            assert forall|j: int| 0 <= j < ins.drop_last().len() implies shallow_struct_free(
                #[trigger] ins.drop_last()[j].2,
            ) by {
                assert(ins.drop_last()[j] == ins[j]);
            }
        }
        lemma_put_all_shallow_free_from(s, ins.drop_last(), k, n0);
        lemma_put_all_keeps(s, ins.drop_last());
        assert(shallow_struct_free(ins[ins.len() - 1].2));
    }
}

/// After naming, no struct is left nested in any type declaration: a declaration's type
/// is a struct at most at its top, and so is the type of each alias naming made.
pub proof fn law_named_aliases_flat(types: Seq<AliasEntry>, functions: Seq<(Symbol, Function)>)
    ensures
        entries_shallow_free(put_all(name_types_upto(types, types.len()), functions_aliases(functions))),
{
    lemma_name_types_upto_free(types, types.len());
    lemma_functions_aliases_free(functions);
    lemma_put_all_shallow_free(name_types_upto(types, types.len()), functions_aliases(functions));
}

proof fn lemma_functions_aliases_free(s: Seq<(Symbol, Function)>)
    ensures
        aliases_shallow_free(functions_aliases(s)),
    decreases s.len(),
{
    if s.len() > 0 {
        lemma_functions_aliases_free(s.drop_last());
        let f = s.last().1;
        lemma_params_aliases_free(f.params@);
        let ret = match f.return_type {
            Some(t) => anon(t@, Seq::empty(), false).2,
            None => Seq::empty(),
        };
        if let Some(t) = f.return_type {
            lemma_anon_aliases(t@, Seq::empty(), false);
        }
        let vars = match f.body {
            Some(b) => vars_aliases(b.variables@),
            None => Seq::empty(),
        };
        if let Some(b) = f.body {
            lemma_vars_aliases_free(b.variables@);
        }
        lemma_concat_shallow_free(params_aliases(f.params@), ret);
        lemma_concat_shallow_free(params_aliases(f.params@) + ret, vars);
        lemma_concat_shallow_free(functions_aliases(s.drop_last()), function_aliases(f));
    }
}

proof fn lemma_params_aliases_free(s: Seq<(Option<String>, Type)>)
    ensures
        aliases_shallow_free(params_aliases(s)),
    decreases s.len(),
{
    if s.len() > 0 {
        lemma_params_aliases_free(s.drop_last());
        lemma_anon_aliases(s.last().1@, Seq::empty(), false);
        lemma_concat_shallow_free(params_aliases(s.drop_last()), anon(s.last().1@, Seq::empty(), false).2);
    }
}

proof fn lemma_vars_aliases_free(s: Seq<VariableInfo>)
    ensures
        aliases_shallow_free(vars_aliases(s)),
    decreases s.len(),
{
    if s.len() > 0 {
        lemma_vars_aliases_free(s.drop_last());
        lemma_anon_aliases(s.last().ty@, Seq::empty(), false);
        lemma_concat_shallow_free(vars_aliases(s.drop_last()), anon(s.last().ty@, Seq::empty(), false).2);
    }
}

/// After naming, no struct is left in a function's parameter types, return type or
/// variable types: each became a use of a named alias.
pub proof fn law_named_function_struct_free(old: Function, new: Function)
    requires
        function_named(old, new),
    ensures
        forall|k: int| 0 <= k < new.params@.len() ==> struct_free(#[trigger] new.params@[k].1@),
        new.return_type matches Some(t) ==> struct_free(t@),
        new.body matches Some(b) ==> forall|k: int|
            0 <= k < b.variables@.len() ==> struct_free(#[trigger] b.variables@[k].ty@),
{
    assert forall|k: int| 0 <= k < new.params@.len() implies struct_free(#[trigger] new.params@[k].1@) by {
        assert(opt_str_view(new.params@[k].0) == opt_str_view(old.params@[k].0));
        lemma_anon_free(old.params@[k].1@, Seq::empty(), false);
    }
    if let (Some(a), Some(b)) = (old.return_type, new.return_type) {
        lemma_anon_free(a@, Seq::empty(), false);
    }
    if let (Some(a), Some(b)) = (old.body, new.body) {
        assert forall|k: int| 0 <= k < b.variables@.len() implies struct_free(#[trigger] b.variables@[k].ty@) by {
            lemma_anon_free(a.variables@[k].ty@, Seq::empty(), false);
        }
    }
}

} // verus!
