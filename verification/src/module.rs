//! Compilation units: type aliases and functions, keyed by name.
use crate::assoc::{
    assoc_distinct, assoc_find, assoc_insert, assoc_keep, assoc_map, assoc_retain, lemma_assoc_keep_sub,
    name_set,
};
use crate::ir::{Body, VariableInfo};
use crate::symbol::Symbol;
use crate::types::{
    fields_view, opt_str_view, type_view, types_view, GenericMap, Type, TypeModel,
};
use vstd::prelude::*;

verus! {

broadcast use {vstd::std_specs::vec::group_vec_axioms, vstd::seq::group_seq_axioms};

/// The names of a list of symbols.
pub open spec fn symbol_names(s: Seq<Symbol>) -> Seq<Seq<char>> {
    s.map_values(|x: Symbol| x@)
}

/// The map that zipping `names` with `tys` gives, a later binding of a name shadowing an earlier one.
pub open spec fn zip_bindings(names: Seq<Seq<char>>, tys: Seq<TypeModel>, k: nat) -> Map<
    Seq<char>,
    TypeModel,
>
    decreases k,
{
    if k == 0 {
        Map::empty()
    } else {
        zip_bindings(names, tys, (k - 1) as nat).insert(names[k - 1], tys[k - 1])
    }
}

/// Bindings of `generics` to `args`, pairing them up to the shorter of the two.
pub open spec fn generic_bindings(generics: Seq<Symbol>, args: Seq<TypeModel>) -> Map<
    Seq<char>,
    TypeModel,
> {
    zip_bindings(
        symbol_names(generics),
        args,
        if generics.len() < args.len() {
            generics.len()
        } else {
            args.len()
        },
    )
}

fn zip_generics(generics: &Vec<Symbol>, args: &[Type]) -> (r: GenericMap)
    ensures
        r@ == generic_bindings(generics@, types_view(args@)),
{
    let n = if generics.len() < args.len() {
        generics.len()
    } else {
        args.len()
    };
    let mut map = GenericMap::new();
    let mut i: usize = 0;
    proof {
        crate::types::lemma_types_view_len(args@);
    }
    while i < n
        invariant
            i <= n,
            n <= generics@.len(),
            n <= args@.len(),
            types_view(args@).len() == args@.len(),
            map@ == zip_bindings(symbol_names(generics@), types_view(args@), i as nat),
        decreases n - i,
    {
        proof {
            crate::types::lemma_types_view_index(args@, i as int);
        }
        map.insert(generics[i].copy(), args[i].deep_copy());
        i += 1;
    }
    map
}

/// Type declaration statement.
#[derive(Debug)]
pub struct TypeAlias {
    /// Type parameters.
    pub generics: Vec<Symbol>,
    /// The type we alias.
    pub type_: Type,
}

impl TypeAlias {
    /// The aliased type with its parameters bound to `generics`.
    pub open spec fn spec_instantiate(&self, generics: Seq<TypeModel>) -> TypeModel {
        self.type_@.instantiate(generic_bindings(self.generics@, generics))
    }

    /// Instantiate the type with a set of generic parameters.
    /// Shorthand for calling [`Type::instantiate`].
    pub fn instantiate(&self, generics: &[Type]) -> (r: Type)
        ensures
            r@ == self.spec_instantiate(types_view(generics@)),
    {
        self.type_.copy_instantiate(&zip_generics(&self.generics, generics))
    }
}

/// Function decl & body
#[derive(Debug)]
pub struct Function {
    /// Type parameters.
    pub generics: Vec<Symbol>,
    /// Parameter types with optional names.
    pub params: Vec<(Option<String>, Type)>,
    /// Return type.
    pub return_type: Option<Type>,
    /// Function body.
    pub body: Option<Body>,
}

/// The model of an optional boxed type.
pub open spec fn opt_type_view(t: Option<Type>) -> Option<Box<TypeModel>> {
    match t {
        Some(t) => Some(Box::new(t@)),
        None => None,
    }
}

impl Function {
    /// Types of the parameters.
    pub open spec fn param_types(&self) -> Seq<TypeModel> {
        fields_view(self.params@).map_values(|p: (Option<Seq<char>>, TypeModel)| p.1)
    }

    /// The function pointer type of this signature.
    pub open spec fn spec_ptr_type(&self) -> TypeModel {
        TypeModel::FnPtr(self.param_types(), opt_type_view(self.return_type))
    }

    /// Generate a function body with all argument variables pre-added.
    pub fn create_def(&self) -> (r: Body)
        ensures
            r.variables@.len() == self.params@.len(),
            forall|i: int|
                0 <= i < self.params@.len() ==> {
                    &&& (#[trigger] r.variables@[i]).ty@ == self.params@[i].1@
                    &&& r.variables@[i].arg
                    &&& opt_str_view(r.variables@[i].name) == opt_str_view(self.params@[i].0)
                },
            r.symbols@.len() == 0,
            r.label_names@.len() == 0,
            r.instructions@.len() == 0,
    {
        let mut body = Body::new();
        let mut i: usize = 0;
        while i < self.params.len()
            invariant
                i <= self.params@.len(),
                body.variables@.len() == i,
                forall|k: int|
                    0 <= k < i ==> {
                        &&& (#[trigger] body.variables@[k]).ty@ == self.params@[k].1@
                        &&& body.variables@[k].arg
                        &&& opt_str_view(body.variables@[k].name) == opt_str_view(
                            self.params@[k].0,
                        )
                    },
                body.symbols@.len() == 0,
                body.label_names@.len() == 0,
                body.instructions@.len() == 0,
            decreases self.params@.len() - i,
        {
            let name = match &self.params[i].0 {
                Some(n) => Some(n.clone()),
                None => None,
            };
            body.variables.push(
                VariableInfo { ty: self.params[i].1.deep_copy(), arg: true, name },
            );
            i += 1;
        }
        body
    }

    /// Get function pointer type for this function signature
    pub fn ptr_type(&self) -> (r: Type)
        ensures
            r@ == self.spec_ptr_type(),
    {
        let mut params: Vec<Type> = Vec::new();
        let mut i: usize = 0;
        proof {
            crate::types::lemma_fields_view_len(self.params@);
        }
        while i < self.params.len()
            invariant
                i <= self.params@.len(),
                fields_view(self.params@).len() == self.params@.len(),
                types_view(params@) == self.param_types().take(i as int),
            decreases self.params@.len() - i,
        {
            let t = self.params[i].1.deep_copy();
            proof {
                crate::types::lemma_fields_view_index(self.params@, i as int);
                assert(params@.push(t).drop_last() =~= params@);
                assert(self.param_types().take(i + 1) =~= self.param_types().take(i as int).push(
                    t@,
                ));
            }
            params.push(t);
            i += 1;
        }
        assert(self.param_types().take(i as int) =~= self.param_types());
        Type::FnPtr {
            params,
            return_type: match &self.return_type {
                Some(t) => Some(Box::new(t.deep_copy())),
                None => None,
            },
        }
    }

    /// Generates generic param to arg map for use with [Type::instantiate].
    pub fn generic_map(&self, args: &[Type]) -> (r: GenericMap)
        requires
            args@.len() == self.generics@.len(),
        ensures
            r@ == generic_bindings(self.generics@, types_view(args@)),
    {
        zip_generics(&self.generics, args)
    }
}

/// A single compilation unit.
/// Note: Be careful with mutating the types,
/// as [`Body`] caches them.
#[derive(Debug)]
pub struct Module {
    types: Vec<(Symbol, TypeAlias)>,
    functions: Vec<(Symbol, Function)>,
}

impl Module {
    /// Type declarations in the order they were first declared.
    pub closed spec fn type_list(&self) -> Seq<(Symbol, TypeAlias)> {
        self.types@
    }

    /// Function declarations in the order they were first declared.
    pub closed spec fn function_list(&self) -> Seq<(Symbol, Function)> {
        self.functions@
    }

    /// Type declarations (aliases), by name.
    pub open spec fn types(&self) -> Map<Seq<char>, TypeAlias> {
        assoc_map(self.type_list())
    }

    /// Function declarations, by name.
    pub open spec fn functions(&self) -> Map<Seq<char>, Function> {
        assoc_map(self.function_list())
    }

    /// The type declarations, in the order they were first declared.
    pub fn type_entries(&self) -> (r: &Vec<(Symbol, TypeAlias)>)
        ensures
            r@ == self.type_list(),
    {
        &self.types
    }

    /// The function declarations, in the order they were first declared.
    pub fn function_entries(&self) -> (r: &Vec<(Symbol, Function)>)
        ensures
            r@ == self.function_list(),
    {
        &self.functions
    }

    /// Every name is declared once.
    pub open spec fn wf(&self) -> bool {
        assoc_distinct(self.type_list()) && assoc_distinct(self.function_list())
    }

    /// An empty module.
    pub fn new() -> (r: Module)
        ensures
            r.wf(),
            r.types() == Map::<Seq<char>, TypeAlias>::empty(),
            r.functions() == Map::<Seq<char>, Function>::empty(),
    {
        Module { types: Vec::new(), functions: Vec::new() }
    }

    /// Declare (or redeclare) a type alias.
    pub fn insert_ty(&mut self, name: Symbol, alias: TypeAlias)
        requires
            old(self).wf(),
        ensures
            final(self).wf(),
            final(self).types() == old(self).types().insert(name@, alias),
            final(self).functions() == old(self).functions(),
            final(self).function_list() == old(self).function_list(),
            (exists|i: int| 0 <= i < old(self).type_list().len() && old(self).type_list()[i].0@ == name@) ==> (exists|i: int|
                0 <= i < old(self).type_list().len() && old(self).type_list()[i].0@ == name@
                    && final(self).type_list() == old(self).type_list().update(i, (name, alias))),
            !(exists|i: int| 0 <= i < old(self).type_list().len() && old(self).type_list()[i].0@ == name@)
                ==> final(self).type_list() == old(self).type_list().push((name, alias)),
    {
        assoc_insert(&mut self.types, name, alias);
    }

    /// Declare (or redeclare) a function.
    pub fn insert_function(&mut self, name: Symbol, function: Function)
        requires
            old(self).wf(),
        ensures
            final(self).wf(),
            final(self).functions() == old(self).functions().insert(name@, function),
            final(self).types() == old(self).types(),
            final(self).type_list() == old(self).type_list(),
            (exists|i: int| 0 <= i < old(self).function_list().len() && old(self).function_list()[i].0@ == name@) ==> (exists|i: int|
                0 <= i < old(self).function_list().len() && old(self).function_list()[i].0@ == name@
                    && final(self).function_list() == old(self).function_list().update(i, (name, function))),
            !(exists|i: int| 0 <= i < old(self).function_list().len() && old(self).function_list()[i].0@ == name@)
                ==> final(self).function_list() == old(self).function_list().push((name, function)),
    {
        assoc_insert(&mut self.functions, name, function);
    }

    /// Get type alias by name.
    pub fn get_ty(&self, name: &Symbol) -> (r: &TypeAlias)
        requires
            self.types().contains_key(name@),
        ensures
            *r == self.types()[name@],
    {
        let i = assoc_find(&self.types, name).unwrap();
        &self.types[i].1
    }

    /// Get symbol by name.
    pub fn get_symbol(&self, name: &Symbol) -> (r: &Function)
        requires
            self.functions().contains_key(name@),
        ensures
            *r == self.functions()[name@],
    {
        let i = assoc_find(&self.functions, name).unwrap();
        &self.functions[i].1
    }
}


impl Module {
    /// One step of inlining: an alias use is replaced by the aliased type with its
    /// parameters bound to the use's arguments; `None` when the alias is not declared.
    /// Any other type is left as it is.
    pub open spec fn inline_step(&self, ty: TypeModel) -> Option<TypeModel> {
        match ty {
            TypeModel::Symbol(name, generics) => if self.types().contains_key(name) {
                Some(self.types()[name].spec_instantiate(generics))
            } else {
                None
            },
            _ => Some(ty),
        }
    }

    /// The type after `k` steps of inlining.
    pub open spec fn unfold_ty(&self, ty: TypeModel, k: nat) -> Option<TypeModel>
        decreases k,
    {
        if k == 0 {
            Some(ty)
        } else {
            match self.inline_step(ty) {
                Some(next) => self.unfold_ty(next, (k - 1) as nat),
                None => None,
            }
        }
    }

    /// `k` steps of inlining reach a type that is not an alias use.
    pub open spec fn inline_ends(&self, ty: TypeModel, k: nat) -> bool {
        self.unfold_ty(ty, k) matches Some(t) && !(t is Symbol)
    }

    /// A step taken after `k` steps.
    pub proof fn lemma_unfold_succ(&self, ty: TypeModel, k: nat)
        ensures
            self.unfold_ty(ty, k + 1) == match self.unfold_ty(ty, k) {
                Some(u) => self.inline_step(u),
                None => None,
            },
        decreases k,
    {
        if k > 0 {
            if let Some(next) = self.inline_step(ty) {
                self.lemma_unfold_succ(next, (k - 1) as nat);
            }
        } else {
            if let Some(next) = self.inline_step(ty) {
                assert(self.unfold_ty(next, 0) == Some(next));
            }
        }
    }

    /// Once inlining reaches a type that is not an alias use, further steps keep it;
    /// once it fails, it stays failed.
    pub proof fn lemma_unfold_stable(&self, ty: TypeModel, k: nat, d: nat)
        ensures
            self.inline_ends(ty, k) ==> self.unfold_ty(ty, k + d) == self.unfold_ty(ty, k),
            self.unfold_ty(ty, k) is None ==> self.unfold_ty(ty, k + d) is None,
        decreases d,
    {
        if d > 0 {
            self.lemma_unfold_stable(ty, k, (d - 1) as nat);
            self.lemma_unfold_succ(ty, (k + d - 1) as nat);
        }
    }

    /// Replaces the type alias by it's value until can't anymore.
    /// Reveals the true identity of the type.
    pub fn inline_ty(&self, ty: Type) -> (r: Type)
        requires
            exists|k: nat| self.inline_ends(ty@, k),
        ensures
            !(r@ is Symbol),
            forall|k: nat| self.inline_ends(ty@, k) ==> self.unfold_ty(ty@, k) == Some(r@),
    {
        let ghost orig = ty@;
        let ghost k0: nat = choose|k: nat| self.inline_ends(orig, k);
        let ghost mut steps: nat = 0;
        let mut cur = ty;
        loop
            invariant
                orig == ty@,
                self.inline_ends(orig, k0),
                self.unfold_ty(orig, steps) == Some(cur@),
            decreases k0 - steps,
        {
            proof {
                if cur@ is Symbol && steps >= k0 {
                    self.lemma_unfold_stable(orig, k0, (steps - k0) as nat);
                }
            }
            match cur {
                Type::Symbol(name, generics) => {
                    proof {
                        self.lemma_unfold_succ(orig, steps);
                        self.lemma_unfold_stable(orig, steps + 1, (k0 - steps - 1) as nat);
                    }
                    let alias = self.get_ty(&name);
                    cur = alias.instantiate(generics.as_slice());
                    proof {
                        steps = steps + 1;
                    }
                },
                other => {
                    proof {
                        assert(!(other@ is Symbol));
                        assert(self.inline_ends(orig, steps));
                        assert forall|k: nat| self.inline_ends(orig, k) implies self.unfold_ty(
                            orig,
                            k,
                        ) == Some(other@) by {
                            if k >= steps {
                                self.lemma_unfold_stable(orig, steps, (k - steps) as nat);
                            } else {
                                self.lemma_unfold_stable(orig, k, (steps - k) as nat);
                            }
                        }
                    }
                    return other;
                },
            }
        }
    }
}


impl Module {
    /// Put `alias` in place of the type declaration at position `i`, keeping its name.
    pub(crate) fn replace_type_at(&mut self, i: usize, alias: TypeAlias) -> (r: TypeAlias)
        requires
            i < old(self).type_list().len(),
        ensures
            r == old(self).type_list()[i as int].1,
            final(self).type_list() == old(self).type_list().update(
                i as int,
                (old(self).type_list()[i as int].0, alias),
            ),
            final(self).function_list() == old(self).function_list(),
    {
        let mut alias = alias;
        std::mem::swap(&mut self.types[i].1, &mut alias);
        alias
    }

    /// Put `function` in place of the function declaration at position `i`, keeping its
    /// name.
    pub(crate) fn replace_function_at(&mut self, i: usize, function: Function) -> (r: Function)
        requires
            i < old(self).function_list().len(),
        ensures
            r == old(self).function_list()[i as int].1,
            final(self).function_list() == old(self).function_list().update(
                i as int,
                (old(self).function_list()[i as int].0, function),
            ),
            final(self).type_list() == old(self).type_list(),
    {
        let mut function = function;
        std::mem::swap(&mut self.functions[i].1, &mut function);
        function
    }
}


impl Module {
    /// Drop the type declarations named in `names`.
    pub(crate) fn retain_types(&mut self, names: &Vec<Symbol>)
        requires
            old(self).wf(),
        ensures
            final(self).wf(),
            final(self).type_list() == assoc_keep(old(self).type_list(), name_set(names@)),
            final(self).function_list() == old(self).function_list(),
    {
        proof {
            lemma_assoc_keep_sub(self.types@, name_set(names@));
        }
        assoc_retain(&mut self.types, names);
    }

    /// Drop the function declarations named in `names`.
    pub(crate) fn retain_functions(&mut self, names: &Vec<Symbol>)
        requires
            old(self).wf(),
        ensures
            final(self).wf(),
            final(self).function_list() == assoc_keep(old(self).function_list(), name_set(names@)),
            final(self).type_list() == old(self).type_list(),
    {
        proof {
            lemma_assoc_keep_sub(self.functions@, name_set(names@));
        }
        assoc_retain(&mut self.functions, names);
    }
}


impl Module {
    /// Find a function declaration by name, if there is one.
    pub fn find_function(&self, name: &Symbol) -> (r: Option<&Function>)
        ensures
            r is Some <==> self.functions().contains_key(name@),
            r matches Some(f) ==> *f == self.functions()[name@],
    {
        match assoc_find(&self.functions, name) {
            Some(i) => Some(&self.functions[i].1),
            None => None,
        }
    }
}

proof fn lemma_zip_bindings_positions(names: Seq<Seq<char>>, tys: Seq<TypeModel>, n: nat)
    requires
        n <= names.len(),
        n <= tys.len(),
        forall|i: int, j: int| 0 <= i < j < names.len() ==> names[i] != names[j],
    ensures
        forall|k: int| 0 <= k < n ==> #[trigger] zip_bindings(names, tys, n).contains_key(names[k])
            && zip_bindings(names, tys, n)[names[k]] == tys[k],
        forall|p: Seq<char>| #[trigger] zip_bindings(names, tys, n).contains_key(p) ==> exists|k: int|
            0 <= k < n && names[k] == p,
    decreases n,
{
    if n > 0 {
        lemma_zip_bindings_positions(names, tys, (n - 1) as nat);
        let prev = zip_bindings(names, tys, (n - 1) as nat);
        assert forall|k: int| 0 <= k < n implies #[trigger] zip_bindings(names, tys, n).contains_key(names[k])
            && zip_bindings(names, tys, n)[names[k]] == tys[k] by {
            if k < n - 1 {
                assert(names[k] != names[n - 1]);
            }
        }
        assert forall|p: Seq<char>| #[trigger] zip_bindings(names, tys, n).contains_key(p) implies exists|k: int|
            0 <= k < n && names[k] == p by {
            if p != names[n - 1] {
                assert(prev.contains_key(p));
                let k = choose|k: int| 0 <= k < n - 1 && names[k] == p;
                assert(0 <= k < n && names[k] == p);
            } else {
                assert(0 <= n - 1 < n && names[n - 1] == p);
            }
        }
    }
}

/// Binding generic parameters with distinct names to arguments binds each parameter to
/// the argument at its position, as far as both lists go, and binds nothing else.
pub proof fn law_generic_bindings_positions(generics: Seq<Symbol>, args: Seq<TypeModel>)
    requires
        forall|i: int, j: int| 0 <= i < j < generics.len() ==> generics[i]@ != generics[j]@,
    ensures
        forall|k: int|
            0 <= k < generics.len() && k < args.len() ==> #[trigger] generic_bindings(
                generics,
                args,
            ).contains_key(generics[k]@) && generic_bindings(generics, args)[generics[k]@] == args[k],
        forall|p: Seq<char>| #[trigger] generic_bindings(generics, args).contains_key(p) ==> exists|k: int|
            0 <= k < generics.len() && k < args.len() && generics[k]@ == p,
{
    let names = symbol_names(generics);
    let n: nat = if generics.len() < args.len() {
        generics.len()
    } else {
        args.len()
    };
    assert forall|i: int, j: int| 0 <= i < j < names.len() implies names[i] != names[j] by {
        assert(names[i] == generics[i]@ && names[j] == generics[j]@);
    }
    lemma_zip_bindings_positions(names, args, n);
    assert forall|k: int|
        0 <= k < generics.len() && k < args.len() implies #[trigger] generic_bindings(
            generics,
            args,
        ).contains_key(generics[k]@) && generic_bindings(generics, args)[generics[k]@] == args[k] by {
        assert(names[k] == generics[k]@);
    }
    assert forall|p: Seq<char>| #[trigger] generic_bindings(generics, args).contains_key(p) implies exists|k: int|
        0 <= k < generics.len() && k < args.len() && generics[k]@ == p by {
        let k = choose|k: int| 0 <= k < n && names[k] == p;
        assert(names[k] == generics[k]@);
    }
}

/// One inlining step of a use of a declared alias is the alias's type instantiated with
/// each of the alias's generic parameters bound to the argument at its position, the
/// whole argument list taken.
pub proof fn law_inline_step_binds_arguments(module: &Module, name: Seq<char>, args: Seq<TypeModel>)
    requires
        module.types().contains_key(name),
    ensures
        module.inline_step(TypeModel::Symbol(name, args)) == Some(
            module.types()[name].type_@.instantiate(generic_bindings(module.types()[name].generics@, args)),
        ),
{
}

/// An alias that stands for one of its own parameters inlines to the argument given for
/// that parameter.
pub proof fn law_inline_param_alias(module: &Module, name: Seq<char>, args: Seq<TypeModel>, k: int)
    requires
        module.types().contains_key(name),
        forall|i: int, j: int|
            0 <= i < j < module.types()[name].generics@.len() ==> module.types()[name].generics@[i]@
                != module.types()[name].generics@[j]@,
        0 <= k < module.types()[name].generics@.len(),
        k < args.len(),
        module.types()[name].type_@ == TypeModel::Param(module.types()[name].generics@[k]@),
    ensures
        module.inline_step(TypeModel::Symbol(name, args)) == Some(args[k]),
{
    let alias = module.types()[name];
    law_generic_bindings_positions(alias.generics@, args);
    assert(generic_bindings(alias.generics@, args).contains_key(alias.generics@[k]@));
}

} // verus!
