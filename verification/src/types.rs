use crate::symbol::Symbol;
use vstd::prelude::*;

verus! {

broadcast use {vstd::std_specs::vec::group_vec_axioms, vstd::seq::group_seq_axioms};

/// Integer size
#[derive(Clone, Copy, Debug, PartialEq, Eq, Structural, PartialOrd, Ord, Hash)]
pub enum IntegerSize {
    /// Number of bits.
    Bits(u8),
    /// Kinda like `usize`/`isize` in rust or `size_t`/`ssize_t` in C
    Size,
}

/// Type of a variable, constant, part of a function signature, etc.
#[derive(Debug)]
pub enum Type {
    /// Signed integer
    Integer(IntegerSize),
    /// Unsigned integer
    Unsigned(IntegerSize),
    /// IEEE (or not) floating point number with set number of bits
    Float(u16),
    /// A boolean.
    Bool,
    /// Character, storing it's width (wide vs ascii)
    Char(bool),
    /// Points to a type alias, includes generics
    Symbol(Symbol, Vec<Type>),
    /// An array type (`Type[size]`)
    Array(Box<Type>, usize),
    /// A struct, aka a collection of field-type pairs.
    Struct {
        /// Struct fields
        fields: Vec<(Option<String>, Type)>,
    },
    /// Pointer (with mutability)
    Ptr(Box<Type>, bool),
    /// Function pointer
    FnPtr {
        /// Types of parameters
        params: Vec<Type>,
        /// Return type
        return_type: Option<Box<Type>>,
    },
    /// Type parameter (aka generic)
    Param(Symbol),
    /// An error type, can also be used in a pointer to make it a pointer to anything
    Error,
}

/// Mathematical value of a [`Type`].
pub ghost enum TypeModel {
    Integer(IntegerSize),
    Unsigned(IntegerSize),
    Float(u16),
    Bool,
    Char(bool),
    Symbol(Seq<char>, Seq<TypeModel>),
    Array(Box<TypeModel>, usize),
    Struct(Seq<(Option<Seq<char>>, TypeModel)>),
    Ptr(Box<TypeModel>, bool),
    FnPtr(Seq<TypeModel>, Option<Box<TypeModel>>),
    Param(Seq<char>),
    Error,
}

pub open spec fn opt_str_view(s: Option<String>) -> Option<Seq<char>> {
    match s {
        Some(s) => Some(s@),
        None => None,
    }
}

/// Models of a list of types.
pub open spec fn types_view(s: Seq<Type>) -> Seq<TypeModel>
    decreases s,
{
    if s.len() == 0 {
        Seq::empty()
    } else {
        types_view(s.drop_last()).push(type_view(s.last()))
    }
}

/// Models of a list of struct fields.
pub open spec fn fields_view(s: Seq<(Option<String>, Type)>) -> Seq<(Option<Seq<char>>, TypeModel)>
    decreases s,
{
    if s.len() == 0 {
        Seq::empty()
    } else {
        fields_view(s.drop_last()).push((opt_str_view(s.last().0), type_view(s.last().1)))
    }
}

pub open spec fn type_view(t: Type) -> TypeModel
    decreases t,
{
    match t {
        Type::Integer(s) => TypeModel::Integer(s),
        Type::Unsigned(s) => TypeModel::Unsigned(s),
        Type::Float(b) => TypeModel::Float(b),
        Type::Bool => TypeModel::Bool,
        Type::Char(w) => TypeModel::Char(w),
        Type::Symbol(name, generics) => TypeModel::Symbol(name@, types_view(generics@)),
        Type::Array(ty, len) => TypeModel::Array(Box::new(type_view(*ty)), len),
        Type::Struct { fields } => TypeModel::Struct(fields_view(fields@)),
        Type::Ptr(ty, m) => TypeModel::Ptr(Box::new(type_view(*ty)), m),
        Type::FnPtr { params, return_type } => TypeModel::FnPtr(
            types_view(params@),
            match return_type {
                Some(r) => Some(Box::new(type_view(*r))),
                None => None,
            },
        ),
        Type::Param(name) => TypeModel::Param(name@),
        Type::Error => TypeModel::Error,
    }
}

impl View for Type {
    type V = TypeModel;

    open spec fn view(&self) -> TypeModel {
        type_view(*self)
    }
}

} // verus!

verus! {

pub(crate) proof fn lemma_types_view_take(s: Seq<Type>, i: int)
    requires
        0 <= i < s.len(),
    ensures
        types_view(s.take(i + 1)) == types_view(s.take(i)).push(type_view(s[i])),
{
    assert(s.take(i + 1).drop_last() =~= s.take(i));
}

pub(crate) proof fn lemma_fields_view_take(s: Seq<(Option<String>, Type)>, i: int)
    requires
        0 <= i < s.len(),
    ensures
        fields_view(s.take(i + 1)) == fields_view(s.take(i)).push(
            (opt_str_view(s[i].0), type_view(s[i].1)),
        ),
{
    assert(s.take(i + 1).drop_last() =~= s.take(i));
}

pub(crate) fn copy_opt_string(s: &Option<String>) -> (r: Option<String>)
    ensures
        opt_str_view(r) == opt_str_view(*s),
{
    match s {
        Some(s) => Some(s.clone()),
        None => None,
    }
}

pub(crate) fn copy_types(s: &Vec<Type>) -> (r: Vec<Type>)
    ensures
        types_view(r@) == types_view(s@),
    decreases s, 0nat,
{
    let mut r: Vec<Type> = Vec::new();
    let mut i: usize = 0;
    while i < s.len()
        invariant
            i <= s.len(),
            types_view(r@) == types_view(s@.take(i as int)),
        decreases s.len() - i,
    {
        let t = s[i].deep_copy();
        proof {
            lemma_types_view_take(s@, i as int);
            assert(r@.push(t).drop_last() =~= r@);
        }
        r.push(t);
        i += 1;
    }
    assert(s@.take(s.len() as int) =~= s@);
    r
}

pub(crate) fn copy_fields(s: &Vec<(Option<String>, Type)>) -> (r: Vec<(Option<String>, Type)>)
    ensures
        fields_view(r@) == fields_view(s@),
    decreases s, 0nat,
{
    let mut r: Vec<(Option<String>, Type)> = Vec::new();
    let mut i: usize = 0;
    while i < s.len()
        invariant
            i <= s.len(),
            fields_view(r@) == fields_view(s@.take(i as int)),
        decreases s.len() - i,
    {
        let f = (copy_opt_string(&s[i].0), s[i].1.deep_copy());
        proof {
            lemma_fields_view_take(s@, i as int);
            assert(r@.push(f).drop_last() =~= r@);
        }
        r.push(f);
        i += 1;
    }
    assert(s@.take(s.len() as int) =~= s@);
    r
}

impl Type {
    /// A deep copy of this type.
    pub fn deep_copy(&self) -> (r: Type)
        ensures
            r@ == self@,
        decreases self, 1nat,
    {
        match self {
            Type::Integer(s) => Type::Integer(*s),
            Type::Unsigned(s) => Type::Unsigned(*s),
            Type::Float(b) => Type::Float(*b),
            Type::Bool => Type::Bool,
            Type::Char(w) => Type::Char(*w),
            Type::Symbol(name, generics) => Type::Symbol(name.copy(), copy_types(generics)),
            Type::Array(ty, len) => Type::Array(Box::new((**ty).deep_copy()), *len),
            Type::Struct { fields } => Type::Struct { fields: copy_fields(fields) },
            Type::Ptr(ty, m) => Type::Ptr(Box::new((**ty).deep_copy()), *m),
            Type::FnPtr { params, return_type } => Type::FnPtr {
                params: copy_types(params),
                return_type: match return_type {
                    Some(r) => Some(Box::new((**r).deep_copy())),
                    None => None,
                },
            },
            Type::Param(name) => Type::Param(name.copy()),
            Type::Error => Type::Error,
        }
    }
}

impl Clone for Type {
    fn clone(&self) -> (r: Self)
        ensures
            r@ == self@,
    {
        self.deep_copy()
    }
}

} // verus!

verus! {

/// Whether any of the types mentions a type parameter.
pub open spec fn list_has_params(s: Seq<TypeModel>) -> bool
    decreases s,
{
    if s.len() == 0 {
        false
    } else {
        list_has_params(s.drop_last()) || model_has_params(s.last())
    }
}

/// Whether any of the struct fields mentions a type parameter.
pub open spec fn fields_have_params(s: Seq<(Option<Seq<char>>, TypeModel)>) -> bool
    decreases s,
{
    if s.len() == 0 {
        false
    } else {
        fields_have_params(s.drop_last()) || model_has_params(s.last().1)
    }
}

/// Whether the type mentions a type parameter anywhere.
pub open spec fn model_has_params(t: TypeModel) -> bool
    decreases t,
{
    match t {
        TypeModel::Symbol(_, generics) => list_has_params(generics),
        TypeModel::Array(ty, _) => model_has_params(*ty),
        TypeModel::Struct(fields) => fields_have_params(fields),
        TypeModel::Ptr(ty, _) => model_has_params(*ty),
        TypeModel::FnPtr(params, return_type) => list_has_params(params) || match return_type {
            Some(r) => model_has_params(*r),
            None => false,
        },
        TypeModel::Param(_) => true,
        _ => false,
    }
}

/// Replace every bound type parameter of each type.
pub open spec fn list_inst(s: Seq<TypeModel>, m: Map<Seq<char>, TypeModel>) -> Seq<TypeModel>
    decreases s,
{
    if s.len() == 0 {
        Seq::empty()
    } else {
        list_inst(s.drop_last(), m).push(model_inst(s.last(), m))
    }
}

/// Replace every bound type parameter of each field type.
pub open spec fn fields_inst(
    s: Seq<(Option<Seq<char>>, TypeModel)>,
    m: Map<Seq<char>, TypeModel>,
) -> Seq<(Option<Seq<char>>, TypeModel)>
    decreases s,
{
    if s.len() == 0 {
        Seq::empty()
    } else {
        fields_inst(s.drop_last(), m).push((s.last().0, model_inst(s.last().1, m)))
    }
}

/// The type with each parameter that `m` binds replaced by its binding.
pub open spec fn model_inst(t: TypeModel, m: Map<Seq<char>, TypeModel>) -> TypeModel
    decreases t,
{
    match t {
        TypeModel::Symbol(name, generics) => TypeModel::Symbol(name, list_inst(generics, m)),
        TypeModel::Array(ty, len) => TypeModel::Array(Box::new(model_inst(*ty, m)), len),
        TypeModel::Struct(fields) => TypeModel::Struct(fields_inst(fields, m)),
        TypeModel::Ptr(ty, mutable) => TypeModel::Ptr(Box::new(model_inst(*ty, m)), mutable),
        TypeModel::FnPtr(params, return_type) => TypeModel::FnPtr(
            list_inst(params, m),
            match return_type {
                Some(r) => Some(Box::new(model_inst(*r, m))),
                None => None,
            },
        ),
        TypeModel::Param(name) => if m.contains_key(name) {
            m[name]
        } else {
            TypeModel::Param(name)
        },
        _ => t,
    }
}

impl TypeModel {
    pub open spec fn has_params(self) -> bool {
        model_has_params(self)
    }

    pub open spec fn instantiate(self, m: Map<Seq<char>, TypeModel>) -> TypeModel {
        model_inst(self, m)
    }
}

/// Bindings of type parameters to types, a later binding of a name shadowing an earlier one.
pub open spec fn bindings_map(s: Seq<(Symbol, Type)>) -> Map<Seq<char>, TypeModel>
    decreases s.len(),
{
    if s.len() == 0 {
        Map::empty()
    } else {
        bindings_map(s.drop_last()).insert(s.last().0@, s.last().1@)
    }
}

/// A map from type parameters to the types they stand for.
pub struct GenericMap {
    entries: Vec<(Symbol, Type)>,
}

impl View for GenericMap {
    type V = Map<Seq<char>, TypeModel>;

    closed spec fn view(&self) -> Map<Seq<char>, TypeModel> {
        bindings_map(self.entries@)
    }
}

proof fn lemma_bindings_map_absent(s: Seq<(Symbol, Type)>, j: int, key: Seq<char>)
    requires
        0 <= j <= s.len(),
        forall|k: int| j <= k < s.len() ==> s[k].0@ != key,
    ensures
        bindings_map(s).contains_key(key) == bindings_map(s.take(j)).contains_key(key),
        bindings_map(s)[key] == bindings_map(s.take(j))[key],
    decreases s.len(),
{
    if s.len() > j {
        lemma_bindings_map_absent(s.drop_last(), j, key);
        assert(s.drop_last().take(j) =~= s.take(j));
    } else {
        assert(s.take(j) =~= s);
    }
}

proof fn lemma_bindings_map_found(s: Seq<(Symbol, Type)>, j: int, key: Seq<char>)
    requires
        0 <= j < s.len(),
        s[j].0@ == key,
        forall|k: int| j < k < s.len() ==> s[k].0@ != key,
    ensures
        bindings_map(s).contains_key(key),
        bindings_map(s)[key] == s[j].1@,
{
    lemma_bindings_map_absent(s, j + 1, key);
    assert(s.take(j + 1).drop_last() =~= s.take(j));
}

impl GenericMap {
    /// A map that binds nothing.
    pub fn new() -> (r: GenericMap)
        ensures
            r@ == Map::<Seq<char>, TypeModel>::empty(),
    {
        GenericMap { entries: Vec::new() }
    }

    /// Bind `name` to `ty`, replacing an earlier binding of `name`.
    pub fn insert(&mut self, name: Symbol, ty: Type)
        ensures
            final(self)@ == old(self)@.insert(name@, ty@),
    {
        proof {
            assert(self.entries@.push((name, ty)).drop_last() =~= self.entries@);
        }
        self.entries.push((name, ty));
    }

    /// The type bound to `name`, if any.
    pub fn get(&self, name: &Symbol) -> (r: Option<&Type>)
        ensures
            r is Some <==> self@.contains_key(name@),
            r matches Some(t) ==> t@ == self@[name@],
    {
        let mut j = self.entries.len();
        while j > 0
            invariant
                j <= self.entries.len(),
                forall|k: int| j <= k < self.entries@.len() ==> self.entries@[k].0@ != name@,
            decreases j,
        {
            j -= 1;
            if self.entries[j].0.same(name) {
                proof {
                    lemma_bindings_map_found(self.entries@, j as int, name@);
                }
                return Some(&self.entries[j].1);
            }
        }
        proof {
            lemma_bindings_map_absent(self.entries@, 0, name@);
            assert(self.entries@.take(0) =~= Seq::<(Symbol, Type)>::empty());
        }
        None
    }
}

} // verus!

verus! {

proof fn lemma_list_push(s: Seq<TypeModel>, t: TypeModel, m: Map<Seq<char>, TypeModel>)
    ensures
        list_has_params(s.push(t)) == (list_has_params(s) || model_has_params(t)),
        list_inst(s.push(t), m) == list_inst(s, m).push(model_inst(t, m)),
{
    assert(s.push(t).drop_last() =~= s);
}

proof fn lemma_fields_push(
    s: Seq<(Option<Seq<char>>, TypeModel)>,
    f: (Option<Seq<char>>, TypeModel),
    m: Map<Seq<char>, TypeModel>,
)
    ensures
        fields_have_params(s.push(f)) == (fields_have_params(s) || model_has_params(f.1)),
        fields_inst(s.push(f), m) == fields_inst(s, m).push((f.0, model_inst(f.1, m))),
{
    assert(s.push(f).drop_last() =~= s);
}

fn types_have_params(s: &Vec<Type>) -> (r: bool)
    ensures
        r == list_has_params(types_view(s@)),
    decreases s, 0nat,
{
    let mut i: usize = 0;
    while i < s.len()
        invariant
            i <= s.len(),
            !list_has_params(types_view(s@.take(i as int))),
        decreases s.len() - i,
    {
        proof {
            lemma_types_view_take(s@, i as int);
            lemma_list_push(types_view(s@.take(i as int)), type_view(s@[i as int]), Map::empty());
        }
        if s[i].has_params() {
            proof {
                lemma_types_view_prefix(s@, i + 1);
                lemma_list_has_params_prefix(types_view(s@), i + 1);
            }
            return true;
        }
        i += 1;
    }
    assert(s@.take(s.len() as int) =~= s@);
    false
}

pub(crate) proof fn lemma_types_view_prefix(s: Seq<Type>, i: int)
    requires
        0 <= i <= s.len(),
    ensures
        types_view(s.take(i)) == types_view(s).take(i),
        types_view(s).len() == s.len(),
    decreases s.len(),
{
    if s.len() > 0 {
        lemma_types_view_prefix(s.drop_last(), if i == s.len() { i - 1 } else { i });
        if i == s.len() {
            assert(s.take(i) =~= s);
            assert(types_view(s).take(i) =~= types_view(s));
        } else {
            assert(s.drop_last().take(i) =~= s.take(i));
            assert(types_view(s).take(i) =~= types_view(s.drop_last()).take(i));
        }
    } else {
        assert(s.take(i) =~= s);
    }
}

proof fn lemma_list_has_params_prefix(s: Seq<TypeModel>, i: int)
    requires
        0 <= i <= s.len(),
        list_has_params(s.take(i)),
    ensures
        list_has_params(s),
    decreases s.len(),
{
    if i < s.len() {
        assert(s.drop_last().take(i) =~= s.take(i));
        lemma_list_has_params_prefix(s.drop_last(), i);
    } else {
        assert(s.take(i) =~= s);
    }
}

pub(crate) proof fn lemma_fields_view_prefix(s: Seq<(Option<String>, Type)>, i: int)
    requires
        0 <= i <= s.len(),
    ensures
        fields_view(s.take(i)) == fields_view(s).take(i),
        fields_view(s).len() == s.len(),
    decreases s.len(),
{
    if s.len() > 0 {
        lemma_fields_view_prefix(s.drop_last(), if i == s.len() { i - 1 } else { i });
        if i == s.len() {
            assert(s.take(i) =~= s);
            assert(fields_view(s).take(i) =~= fields_view(s));
        } else {
            assert(s.drop_last().take(i) =~= s.take(i));
            assert(fields_view(s).take(i) =~= fields_view(s.drop_last()).take(i));
        }
    } else {
        assert(s.take(i) =~= s);
    }
}

proof fn lemma_fields_have_params_prefix(s: Seq<(Option<Seq<char>>, TypeModel)>, i: int)
    requires
        0 <= i <= s.len(),
        fields_have_params(s.take(i)),
    ensures
        fields_have_params(s),
    decreases s.len(),
{
    if i < s.len() {
        assert(s.drop_last().take(i) =~= s.take(i));
        lemma_fields_have_params_prefix(s.drop_last(), i);
    } else {
        assert(s.take(i) =~= s);
    }
}

fn fields_have_params_exec(s: &Vec<(Option<String>, Type)>) -> (r: bool)
    ensures
        r == fields_have_params(fields_view(s@)),
    decreases s, 0nat,
{
    let mut i: usize = 0;
    while i < s.len()
        invariant
            i <= s.len(),
            !fields_have_params(fields_view(s@.take(i as int))),
        decreases s.len() - i,
    {
        proof {
            lemma_fields_view_take(s@, i as int);
            lemma_fields_push(
                fields_view(s@.take(i as int)),
                (opt_str_view(s@[i as int].0), type_view(s@[i as int].1)),
                Map::empty(),
            );
        }
        if s[i].1.has_params() {
            proof {
                lemma_fields_view_prefix(s@, i + 1);
                lemma_fields_have_params_prefix(fields_view(s@), i + 1);
            }
            return true;
        }
        i += 1;
    }
    assert(s@.take(s.len() as int) =~= s@);
    false
}

pub(crate) fn types_inst(s: &Vec<Type>, m: &GenericMap) -> (r: Vec<Type>)
    ensures
        types_view(r@) == list_inst(types_view(s@), m@),
    decreases s, 0nat,
{
    let mut r: Vec<Type> = Vec::new();
    let mut i: usize = 0;
    while i < s.len()
        invariant
            i <= s.len(),
            types_view(r@) == list_inst(types_view(s@.take(i as int)), m@),
        decreases s.len() - i,
    {
        let t = s[i].copy_instantiate(m);
        proof {
            lemma_types_view_take(s@, i as int);
            lemma_list_push(types_view(s@.take(i as int)), type_view(s@[i as int]), m@);
            assert(r@.push(t).drop_last() =~= r@);
        }
        r.push(t);
        i += 1;
    }
    assert(s@.take(s.len() as int) =~= s@);
    r
}

pub(crate) fn fields_inst_exec(s: &Vec<(Option<String>, Type)>, m: &GenericMap) -> (r: Vec<(Option<String>, Type)>)
    ensures
        fields_view(r@) == fields_inst(fields_view(s@), m@),
    decreases s, 0nat,
{
    let mut r: Vec<(Option<String>, Type)> = Vec::new();
    let mut i: usize = 0;
    while i < s.len()
        invariant
            i <= s.len(),
            fields_view(r@) == fields_inst(fields_view(s@.take(i as int)), m@),
        decreases s.len() - i,
    {
        let f = (copy_opt_string(&s[i].0), s[i].1.copy_instantiate(m));
        proof {
            lemma_fields_view_take(s@, i as int);
            lemma_fields_push(
                fields_view(s@.take(i as int)),
                (opt_str_view(s@[i as int].0), type_view(s@[i as int].1)),
                m@,
            );
            assert(r@.push(f).drop_last() =~= r@);
        }
        r.push(f);
        i += 1;
    }
    assert(s@.take(s.len() as int) =~= s@);
    r
}

impl Type {
    /// Check if this type contains type params
    pub fn has_params(&self) -> (r: bool)
        ensures
            r == self@.has_params(),
        decreases self, 1nat,
    {
        match self {
            Type::Integer(..) => false,
            Type::Unsigned(..) => false,
            Type::Float(..) => false,
            Type::Bool => false,
            Type::Char(..) => false,
            Type::Symbol(_, generics) => types_have_params(generics),
            Type::Array(ty, _) => ty.has_params(),
            Type::Struct { fields } => fields_have_params_exec(fields),
            Type::Ptr(ty, _) => ty.has_params(),
            Type::FnPtr { params, return_type } => {
                if types_have_params(params) {
                    return true;
                }
                match return_type {
                    Some(ty) => ty.has_params(),
                    None => false,
                }
            },
            Type::Param(..) => true,
            Type::Error => false,
        }
    }

    /// Same as [`Self::instantiate`], but clones the type in the process
    pub fn copy_instantiate(&self, map: &GenericMap) -> (r: Type)
        ensures
            r@ == self@.instantiate(map@),
        decreases self, 1nat,
    {
        match self {
            Type::Symbol(name, generics) => Type::Symbol(name.copy(), types_inst(generics, map)),
            Type::Array(ty, len) => Type::Array(Box::new(ty.copy_instantiate(map)), *len),
            Type::Struct { fields } => Type::Struct { fields: fields_inst_exec(fields, map) },
            Type::Ptr(ty, mutable) => Type::Ptr(Box::new(ty.copy_instantiate(map)), *mutable),
            Type::FnPtr { params, return_type } => Type::FnPtr {
                params: types_inst(params, map),
                return_type: match return_type {
                    Some(ty) => Some(Box::new(ty.copy_instantiate(map))),
                    None => None,
                },
            },
            Type::Param(name) => match map.get(name) {
                Some(ty) => ty.deep_copy(),
                None => Type::Param(name.copy()),
            },
            _ => self.deep_copy(),
        }
    }

    /// Replace all instances of [`Type::Param`] with symbols from `map` (if present)
    pub fn instantiate(&mut self, map: &GenericMap)
        ensures
            final(self)@ == old(self)@.instantiate(map@),
    {
        let r = self.copy_instantiate(map);
        *self = r;
    }
}

} // verus!

verus! {

/// Names of the type parameters mentioned by any of the types.
pub open spec fn list_params(s: Seq<TypeModel>) -> Set<Seq<char>>
    decreases s,
{
    if s.len() == 0 {
        Set::empty()
    } else {
        list_params(s.drop_last()).union(model_params(s.last()))
    }
}

/// Names of the type parameters mentioned by any of the field types.
pub open spec fn fields_params(s: Seq<(Option<Seq<char>>, TypeModel)>) -> Set<Seq<char>>
    decreases s,
{
    if s.len() == 0 {
        Set::empty()
    } else {
        fields_params(s.drop_last()).union(model_params(s.last().1))
    }
}

/// Names of the type parameters the type mentions.
pub open spec fn model_params(t: TypeModel) -> Set<Seq<char>>
    decreases t,
{
    match t {
        TypeModel::Symbol(_, generics) => list_params(generics),
        TypeModel::Array(ty, _) => model_params(*ty),
        TypeModel::Struct(fields) => fields_params(fields),
        TypeModel::Ptr(ty, _) => model_params(*ty),
        TypeModel::FnPtr(params, return_type) => list_params(params).union(
            match return_type {
                Some(r) => model_params(*r),
                None => Set::empty(),
            },
        ),
        TypeModel::Param(name) => Set::empty().insert(name),
        _ => Set::empty(),
    }
}

proof fn lemma_set_witness(s: Set<Seq<char>>)
    requires
        s != Set::<Seq<char>>::empty(),
    ensures
        exists|x: Seq<char>| s.contains(x),
{
    if !(exists|x: Seq<char>| s.contains(x)) {
        assert(s =~= Set::<Seq<char>>::empty());
    }
}

/// No binding of `m` mentions a type parameter.
pub open spec fn bindings_closed(m: Map<Seq<char>, TypeModel>) -> bool {
    forall|k: Seq<char>| #[trigger] m.contains_key(k) ==> !m[k].has_params()
}

proof fn lemma_list_params_nonempty(s: Seq<TypeModel>)
    ensures
        list_has_params(s) == (list_params(s) != Set::<Seq<char>>::empty()),
    decreases s,
{
    if s.len() > 0 {
        lemma_list_params_nonempty(s.drop_last());
        lemma_params_nonempty(s.last());
        if list_params(s.drop_last()) != Set::<Seq<char>>::empty() {
            lemma_set_witness(list_params(s.drop_last()));
            let x = choose|x: Seq<char>| list_params(s.drop_last()).contains(x);
            assert(list_params(s).contains(x));
        }
        if model_params(s.last()) != Set::<Seq<char>>::empty() {
            lemma_set_witness(model_params(s.last()));
            let x = choose|x: Seq<char>| model_params(s.last()).contains(x);
            assert(list_params(s).contains(x));
        }
        if list_params(s.drop_last()) == Set::<Seq<char>>::empty() && model_params(s.last())
            == Set::<Seq<char>>::empty() {
            assert(list_params(s) =~= Set::<Seq<char>>::empty());
        }
    }
}

proof fn lemma_fields_params_nonempty(s: Seq<(Option<Seq<char>>, TypeModel)>)
    ensures
        fields_have_params(s) == (fields_params(s) != Set::<Seq<char>>::empty()),
    decreases s,
{
    if s.len() > 0 {
        lemma_fields_params_nonempty(s.drop_last());
        lemma_params_nonempty(s.last().1);
        if fields_params(s.drop_last()) != Set::<Seq<char>>::empty() {
            lemma_set_witness(fields_params(s.drop_last()));
            let x = choose|x: Seq<char>| fields_params(s.drop_last()).contains(x);
            assert(fields_params(s).contains(x));
        }
        if model_params(s.last().1) != Set::<Seq<char>>::empty() {
            lemma_set_witness(model_params(s.last().1));
            let x = choose|x: Seq<char>| model_params(s.last().1).contains(x);
            assert(fields_params(s).contains(x));
        }
        if fields_params(s.drop_last()) == Set::<Seq<char>>::empty() && model_params(s.last().1)
            == Set::<Seq<char>>::empty() {
            assert(fields_params(s) =~= Set::<Seq<char>>::empty());
        }
    }
}

/// A type has parameters exactly when it mentions the name of some parameter.
pub proof fn lemma_params_nonempty(t: TypeModel)
    ensures
        t.has_params() == (model_params(t) != Set::<Seq<char>>::empty()),
    decreases t,
{
    match t {
        TypeModel::Symbol(_, generics) => lemma_list_params_nonempty(generics),
        TypeModel::Array(ty, _) => lemma_params_nonempty(*ty),
        TypeModel::Struct(fields) => lemma_fields_params_nonempty(fields),
        TypeModel::Ptr(ty, _) => lemma_params_nonempty(*ty),
        TypeModel::FnPtr(params, return_type) => {
            lemma_list_params_nonempty(params);
            let rp = match return_type {
                Some(r) => model_params(*r),
                None => Set::<Seq<char>>::empty(),
            };
            if let Some(r) = return_type {
                lemma_params_nonempty(*r);
            }
            if list_params(params) != Set::<Seq<char>>::empty() {
                lemma_set_witness(list_params(params));
            let x = choose|x: Seq<char>| list_params(params).contains(x);
                assert(model_params(t).contains(x));
            }
            if rp != Set::<Seq<char>>::empty() {
                lemma_set_witness(rp);
            let x = choose|x: Seq<char>| rp.contains(x);
                assert(model_params(t).contains(x));
            }
            if list_params(params) == Set::<Seq<char>>::empty() && rp == Set::<Seq<char>>::empty() {
                assert(model_params(t) =~= Set::<Seq<char>>::empty());
            }
        },
        TypeModel::Param(name) => {
            assert(model_params(t).contains(name));
        },
        _ => {
            assert(model_params(t) =~= Set::<Seq<char>>::empty());
        },
    }
}

proof fn lemma_list_inst_unbound(s: Seq<TypeModel>, m: Map<Seq<char>, TypeModel>)
    requires
        list_params(s).disjoint(m.dom()),
    ensures
        list_inst(s, m) == s,
    decreases s,
{
    if s.len() > 0 {
        lemma_list_inst_unbound(s.drop_last(), m);
        lemma_inst_unbound(s.last(), m);
        assert(s.drop_last().push(s.last()) =~= s);
    } else {
        assert(list_inst(s, m) =~= s);
    }
}

proof fn lemma_fields_inst_unbound(
    s: Seq<(Option<Seq<char>>, TypeModel)>,
    m: Map<Seq<char>, TypeModel>,
)
    requires
        fields_params(s).disjoint(m.dom()),
    ensures
        fields_inst(s, m) == s,
    decreases s,
{
    if s.len() > 0 {
        lemma_fields_inst_unbound(s.drop_last(), m);
        lemma_inst_unbound(s.last().1, m);
        assert(s.drop_last().push(s.last()) =~= s);
    } else {
        assert(fields_inst(s, m) =~= s);
    }
}

/// Instantiating leaves a type unchanged when none of its parameters is bound.
pub proof fn lemma_inst_unbound(t: TypeModel, m: Map<Seq<char>, TypeModel>)
    requires
        model_params(t).disjoint(m.dom()),
    ensures
        t.instantiate(m) == t,
    decreases t,
{
    match t {
        TypeModel::Symbol(_, generics) => lemma_list_inst_unbound(generics, m),
        TypeModel::Array(ty, _) => lemma_inst_unbound(*ty, m),
        TypeModel::Struct(fields) => lemma_fields_inst_unbound(fields, m),
        TypeModel::Ptr(ty, _) => lemma_inst_unbound(*ty, m),
        TypeModel::FnPtr(params, return_type) => {
            lemma_list_inst_unbound(params, m);
            if let Some(r) = return_type {
                lemma_inst_unbound(*r, m);
            }
        },
        TypeModel::Param(name) => {
            assert(model_params(t).contains(name));
        },
        _ => {},
    }
}

proof fn lemma_list_inst_params(s: Seq<TypeModel>, m: Map<Seq<char>, TypeModel>)
    requires
        bindings_closed(m),
    ensures
        list_params(list_inst(s, m)) == list_params(s).difference(m.dom()),
    decreases s,
{
    if s.len() > 0 {
        lemma_list_inst_params(s.drop_last(), m);
        lemma_inst_params(s.last(), m);
        lemma_list_push(list_inst(s.drop_last(), m), model_inst(s.last(), m), m);
        assert(list_inst(s, m).drop_last() =~= list_inst(s.drop_last(), m));
        assert(list_params(list_inst(s, m)) =~= list_params(s).difference(m.dom()));
    } else {
        assert(list_params(list_inst(s, m)) =~= list_params(s).difference(m.dom()));
    }
}

proof fn lemma_fields_inst_params(
    s: Seq<(Option<Seq<char>>, TypeModel)>,
    m: Map<Seq<char>, TypeModel>,
)
    requires
        bindings_closed(m),
    ensures
        fields_params(fields_inst(s, m)) == fields_params(s).difference(m.dom()),
    decreases s,
{
    if s.len() > 0 {
        lemma_fields_inst_params(s.drop_last(), m);
        lemma_inst_params(s.last().1, m);
        assert(fields_inst(s, m).drop_last() =~= fields_inst(s.drop_last(), m));
        assert(fields_params(fields_inst(s, m)) =~= fields_params(s).difference(m.dom()));
    } else {
        assert(fields_params(fields_inst(s, m)) =~= fields_params(s).difference(m.dom()));
    }
}

/// When no binding mentions a parameter, instantiating removes exactly the bound parameters.
pub proof fn lemma_inst_params(t: TypeModel, m: Map<Seq<char>, TypeModel>)
    requires
        bindings_closed(m),
    ensures
        model_params(t.instantiate(m)) == model_params(t).difference(m.dom()),
    decreases t,
{
    match t {
        TypeModel::Symbol(_, generics) => lemma_list_inst_params(generics, m),
        TypeModel::Array(ty, _) => lemma_inst_params(*ty, m),
        TypeModel::Struct(fields) => lemma_fields_inst_params(fields, m),
        TypeModel::Ptr(ty, _) => lemma_inst_params(*ty, m),
        TypeModel::FnPtr(params, return_type) => {
            lemma_list_inst_params(params, m);
            if let Some(r) = return_type {
                lemma_inst_params(*r, m);
            }
            assert(model_params(t.instantiate(m)) =~= model_params(t).difference(m.dom()));
        },
        TypeModel::Param(name) => {
            if m.contains_key(name) {
                lemma_params_nonempty(m[name]);
            }
            assert(model_params(t.instantiate(m)) =~= model_params(t).difference(m.dom()));
        },
        _ => {
            assert(model_params(t.instantiate(m)) =~= model_params(t).difference(m.dom()));
        },
    }
}

/// `b` has the shape of `a` with each type parameter of `a` replaced by some type: the
/// same constructors, alias names, array lengths, pointer mutability, field names and
/// arities, and every other leaf unchanged.
pub open spec fn same_shape(a: TypeModel, b: TypeModel) -> bool
    decreases a, 1nat,
{
    match a {
        TypeModel::Param(_) => true,
        TypeModel::Symbol(name, args) => match b {
            TypeModel::Symbol(name2, args2) => name2 == name && list_same_shape(args, args2),
            _ => false,
        },
        TypeModel::Array(ty, len) => match b {
            TypeModel::Array(ty2, len2) => len2 == len && same_shape(*ty, *ty2),
            _ => false,
        },
        TypeModel::Struct(fields) => match b {
            TypeModel::Struct(fields2) => fields_same_shape(fields, fields2),
            _ => false,
        },
        TypeModel::Ptr(ty, mutable) => match b {
            TypeModel::Ptr(ty2, mutable2) => mutable2 == mutable && same_shape(*ty, *ty2),
            _ => false,
        },
        TypeModel::FnPtr(params, ret) => match b {
            TypeModel::FnPtr(params2, ret2) => list_same_shape(params, params2) && match ret {
                Some(r) => match ret2 {
                    Some(r2) => same_shape(*r, *r2),
                    None => false,
                },
                None => ret2 is None,
            },
            _ => false,
        },
        _ => b == a,
    }
}

/// The lists are as long as each other and pair up into types of the same shape.
pub open spec fn list_same_shape(a: Seq<TypeModel>, b: Seq<TypeModel>) -> bool
    decreases a, 0nat,
{
    a.len() == b.len() && (a.len() == 0 || (list_same_shape(a.drop_last(), b.drop_last())
        && same_shape(a.last(), b.last())))
}

/// The field lists are as long as each other, with the same names in the same order and
/// types of the same shape.
pub open spec fn fields_same_shape(
    a: Seq<(Option<Seq<char>>, TypeModel)>,
    b: Seq<(Option<Seq<char>>, TypeModel)>,
) -> bool
    decreases a, 0nat,
{
    a.len() == b.len() && (a.len() == 0 || (fields_same_shape(a.drop_last(), b.drop_last())
        && a.last().0 == b.last().0 && same_shape(a.last().1, b.last().1)))
}

proof fn lemma_list_inst_shape(s: Seq<TypeModel>, m: Map<Seq<char>, TypeModel>)
    ensures
        list_same_shape(s, list_inst(s, m)),
    decreases s, 0nat,
{
    if s.len() > 0 {
        lemma_list_inst_shape(s.drop_last(), m);
        law_instantiate_keeps_shape(s.last(), m);
        let r = list_inst(s, m);
        assert(r.drop_last() =~= list_inst(s.drop_last(), m));
    }
}

proof fn lemma_fields_inst_shape(s: Seq<(Option<Seq<char>>, TypeModel)>, m: Map<Seq<char>, TypeModel>)
    ensures
        fields_same_shape(s, fields_inst(s, m)),
    decreases s, 0nat,
{
    if s.len() > 0 {
        lemma_fields_inst_shape(s.drop_last(), m);
        law_instantiate_keeps_shape(s.last().1, m);
        let r = fields_inst(s, m);
        assert(r.drop_last() =~= fields_inst(s.drop_last(), m));
    }
}

/// Instantiation keeps the shape of a type: only its type parameters are replaced, and
/// a bound one by its binding; array lengths, pointer mutability, alias names, field
/// names and every other leaf stay as they were.
pub proof fn law_instantiate_keeps_shape(t: TypeModel, m: Map<Seq<char>, TypeModel>)
    ensures
        same_shape(t, t.instantiate(m)),
        t matches TypeModel::Param(p) ==> t.instantiate(m) == if m.contains_key(p) {
            m[p]
        } else {
            t
        },
    decreases t, 1nat,
{
    match t {
        TypeModel::Symbol(_, args) => lemma_list_inst_shape(args, m),
        TypeModel::Array(ty, _) => law_instantiate_keeps_shape(*ty, m),
        TypeModel::Struct(fields) => lemma_fields_inst_shape(fields, m),
        TypeModel::Ptr(ty, _) => law_instantiate_keeps_shape(*ty, m),
        TypeModel::FnPtr(params, ret) => {
            lemma_list_inst_shape(params, m);
            if let Some(r) = ret {
                law_instantiate_keeps_shape(*r, m);
            }
        },
        _ => {},
    }
}

/// Instantiating with no bindings changes nothing.
pub proof fn law_instantiate_empty(t: TypeModel)
    ensures
        t.instantiate(Map::empty()) == t,
{
    lemma_inst_unbound(t, Map::empty());
}

/// A type without parameters is left unchanged by any instantiation.
pub proof fn law_instantiate_no_params(t: TypeModel, m: Map<Seq<char>, TypeModel>)
    requires
        !t.has_params(),
    ensures
        t.instantiate(m) == t,
{
    lemma_params_nonempty(t);
    lemma_inst_unbound(t, m);
}

/// Binding every parameter of a type to parameter-free types leaves no parameter behind.
pub proof fn law_instantiate_complete(t: TypeModel, m: Map<Seq<char>, TypeModel>)
    requires
        bindings_closed(m),
        forall|p: Seq<char>| #[trigger] model_params(t).contains(p) ==> m.contains_key(p),
    ensures
        !t.instantiate(m).has_params(),
{
    lemma_inst_params(t, m);
    lemma_params_nonempty(t.instantiate(m));
    assert(model_params(t.instantiate(m)) =~= Set::<Seq<char>>::empty());
}

/// Instantiating twice with parameter-free bindings is the same as instantiating once.
pub proof fn law_instantiate_idempotent(t: TypeModel, m: Map<Seq<char>, TypeModel>)
    requires
        bindings_closed(m),
    ensures
        t.instantiate(m).instantiate(m) == t.instantiate(m),
{
    lemma_inst_params(t, m);
    lemma_inst_unbound(t.instantiate(m), m);
}

} // verus!

verus! {

pub proof fn lemma_types_view_len(s: Seq<Type>)
    ensures
        types_view(s).len() == s.len(),
{
    lemma_types_view_prefix(s, s.len() as int);
}

pub proof fn lemma_types_view_index(s: Seq<Type>, i: int)
    requires
        0 <= i < s.len(),
    ensures
        types_view(s)[i] == s[i]@,
{
    lemma_types_view_prefix(s, i + 1);
    lemma_types_view_take(s, i);
    lemma_types_view_prefix(s, i);
    assert(types_view(s.take(i + 1))[i] == types_view(s)[i]);
}

pub proof fn lemma_fields_view_len(s: Seq<(Option<String>, Type)>)
    ensures
        fields_view(s).len() == s.len(),
{
    lemma_fields_view_prefix(s, s.len() as int);
}

pub proof fn lemma_fields_view_index(s: Seq<(Option<String>, Type)>, i: int)
    requires
        0 <= i < s.len(),
    ensures
        fields_view(s)[i] == (opt_str_view(s[i].0), s[i].1@),
{
    lemma_fields_view_prefix(s, i + 1);
    lemma_fields_view_take(s, i);
    lemma_fields_view_prefix(s, i);
    assert(fields_view(s.take(i + 1))[i] == fields_view(s)[i]);
}

} // verus!

verus! {

fn same_opt_string(a: &Option<String>, b: &Option<String>) -> (r: bool)
    ensures
        r == (opt_str_view(*a) == opt_str_view(*b)),
{
    match (a, b) {
        (Some(a), Some(b)) => *a == *b,
        (None, None) => true,
        _ => false,
    }
}

pub fn same_type_lists(a: &Vec<Type>, b: &Vec<Type>) -> (r: bool)
    ensures
        r == (types_view(a@) == types_view(b@)),
    decreases a, 0nat,
{
    proof {
        lemma_types_view_len(a@);
        lemma_types_view_len(b@);
    }
    if a.len() != b.len() {
        return false;
    }
    let mut i: usize = 0;
    while i < a.len()
        invariant
            i <= a@.len(),
            a@.len() == b@.len(),
            types_view(a@).len() == a@.len(),
            types_view(b@).len() == b@.len(),
            forall|j: int| 0 <= j < i ==> types_view(a@)[j] == types_view(b@)[j],
        decreases a@.len() - i,
    {
        proof {
            lemma_types_view_index(a@, i as int);
            lemma_types_view_index(b@, i as int);
        }
        if !a[i].same(&b[i]) {
            return false;
        }
        i += 1;
    }
    assert(types_view(a@) =~= types_view(b@));
    true
}

fn same_fields(a: &Vec<(Option<String>, Type)>, b: &Vec<(Option<String>, Type)>) -> (r: bool)
    ensures
        r == (fields_view(a@) == fields_view(b@)),
    decreases a, 0nat,
{
    proof {
        lemma_fields_view_len(a@);
        lemma_fields_view_len(b@);
    }
    if a.len() != b.len() {
        return false;
    }
    let mut i: usize = 0;
    while i < a.len()
        invariant
            i <= a@.len(),
            a@.len() == b@.len(),
            fields_view(a@).len() == a@.len(),
            fields_view(b@).len() == b@.len(),
            forall|j: int| 0 <= j < i ==> fields_view(a@)[j] == fields_view(b@)[j],
        decreases a@.len() - i,
    {
        proof {
            lemma_fields_view_index(a@, i as int);
            lemma_fields_view_index(b@, i as int);
        }
        if !same_opt_string(&a[i].0, &b[i].0) || !a[i].1.same(&b[i].1) {
            return false;
        }
        i += 1;
    }
    assert(fields_view(a@) =~= fields_view(b@));
    true
}

impl Type {
    /// Whether two types are the same type.
    pub fn same(&self, other: &Type) -> (r: bool)
        ensures
            r == (self@ == other@),
        decreases self, 1nat,
    {
        match (self, other) {
            (Type::Integer(a), Type::Integer(b)) => *a == *b,
            (Type::Unsigned(a), Type::Unsigned(b)) => *a == *b,
            (Type::Float(a), Type::Float(b)) => *a == *b,
            (Type::Bool, Type::Bool) => true,
            (Type::Char(a), Type::Char(b)) => *a == *b,
            (Type::Symbol(an, ag), Type::Symbol(bn, bg)) => an.same(bn) && same_type_lists(ag, bg),
            (Type::Array(at, al), Type::Array(bt, bl)) => *al == *bl && at.same(bt),
            (Type::Struct { fields: a }, Type::Struct { fields: b }) => same_fields(a, b),
            (Type::Ptr(at, am), Type::Ptr(bt, bm)) => *am == *bm && at.same(bt),
            (
                Type::FnPtr { params: ap, return_type: ar },
                Type::FnPtr { params: bp, return_type: br },
            ) => {
                if !same_type_lists(ap, bp) {
                    return false;
                }
                match (ar, br) {
                    (Some(a), Some(b)) => a.same(b),
                    (None, None) => true,
                    _ => false,
                }
            },
            (Type::Param(a), Type::Param(b)) => a.same(b),
            (Type::Error, Type::Error) => true,
            _ => false,
        }
    }
}

impl PartialEq for Type {
    fn eq(&self, other: &Self) -> (r: bool) {
        self.same(other)
    }
}

impl vstd::std_specs::cmp::PartialEqSpecImpl for Type {
    open spec fn obeys_eq_spec() -> bool {
        true
    }

    open spec fn eq_spec(&self, other: &Self) -> bool {
        self@ == other@
    }
}

impl Eq for Type {}

} // verus!
