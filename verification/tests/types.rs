use orco::display::{fmt_generic_args, fmt_generic_params};
use orco::symbol::Symbol;
use orco::types::{GenericMap, IntegerSize, Type};
use orco::{Function, Module, TypeAlias};

fn i32_ty() -> Type {
    Type::Integer(IntegerSize::Bits(32))
}

fn sym(name: &str) -> Symbol {
    Symbol::new(name)
}

#[test]
fn type_display_scalars() {
    assert_eq!(i32_ty().text(), "i32");
    assert_eq!(Type::Unsigned(IntegerSize::Size).text(), "usize");
    assert_eq!(Type::Integer(IntegerSize::Size).text(), "isize");
    assert_eq!(Type::Unsigned(IntegerSize::Bits(8)).text(), "u8");
    assert_eq!(Type::Float(64).text(), "f64");
    assert_eq!(Type::Bool.text(), "bool");
    assert_eq!(Type::Char(false).text(), "achar");
    assert_eq!(Type::Char(true).text(), "uchar");
    assert_eq!(Type::Param(sym("T")).text(), "#T");
    assert_eq!(Type::Error.text(), "<error>");
    assert_eq!(IntegerSize::Bits(128).text(), "128");
    assert_eq!(IntegerSize::Size.text(), "size");
}

#[test]
fn type_display_compound() {
    assert_eq!(Type::Symbol(sym("Vec"), vec![i32_ty()]).text(), "Vec<i32>");
    assert_eq!(Type::Symbol(sym("Map"), vec![i32_ty(), Type::Bool]).text(), "Map<i32, bool>");
    assert_eq!(Type::Symbol(sym("A"), vec![]).text(), "A");
    assert_eq!(Type::Array(Box::new(Type::Integer(IntegerSize::Bits(8))), 4).text(), "i8[4]");
    assert_eq!(Type::Ptr(Box::new(i32_ty()), true).text(), "*mut i32");
    assert_eq!(Type::Ptr(Box::new(i32_ty()), false).text(), "*const i32");
    let f = Type::FnPtr { params: vec![i32_ty(), Type::Bool], return_type: Some(Box::new(Type::Unsigned(IntegerSize::Bits(8)))) };
    assert_eq!(f.text(), "(i32, bool) -> u8");
    let g = Type::FnPtr { params: vec![], return_type: None };
    assert_eq!(g.text(), "() -> void");
}

#[test]
fn struct_display_plain_and_pretty() {
    let s = Type::Struct { fields: vec![(Some("x".to_string()), i32_ty()), (None, Type::Bool)] };
    assert_eq!(s.text(), "{ x: i32, bool }");
    assert_eq!(s.pretty_text(), "{\n  x: i32,\n  _1: bool,\n}");
    let empty = Type::Struct { fields: vec![] };
    assert_eq!(empty.text(), "{  }");
    assert_eq!(empty.pretty_text(), "{\n}");
    // The pretty form reaches through pointers, not into arrays.
    let p = Type::Ptr(Box::new(Type::Struct { fields: vec![(None, Type::Bool)] }), false);
    assert_eq!(p.pretty_text(), "*const {\n  _0: bool,\n}");
    let a = Type::Array(Box::new(Type::Struct { fields: vec![(None, Type::Bool)] }), 2);
    assert_eq!(a.pretty_text(), "{ bool }[2]");
}

#[test]
fn generic_lists() {
    assert_eq!(fmt_generic_params(&[]), "");
    assert_eq!(fmt_generic_params(&[sym("T"), sym("U")]), "<T, U>");
    assert_eq!(fmt_generic_args(&vec![]), "");
    assert_eq!(fmt_generic_args(&vec![i32_ty(), Type::Param(sym("U"))]), "<i32, #U>");
}

#[test]
fn instantiate_replaces_bound_params() {
    let mut map = GenericMap::new();
    map.insert(sym("T"), i32_ty());
    let mut t = Type::Symbol(sym("Vec"), vec![Type::Param(sym("T")), Type::Param(sym("U"))]);
    assert!(t.has_params());
    t.instantiate(&map);
    assert_eq!(t.text(), "Vec<i32, #U>");
    assert!(t.has_params());
    let mut map2 = GenericMap::new();
    map2.insert(sym("U"), Type::Bool);
    let done = t.copy_instantiate(&map2);
    assert_eq!(done.text(), "Vec<i32, bool>");
    assert!(!done.has_params());
}

#[test]
fn instantiate_with_empty_map_keeps_type() {
    let t = Type::Ptr(Box::new(Type::Param(sym("T"))), true);
    let u = t.copy_instantiate(&GenericMap::new());
    assert!(u == t);
}

#[test]
fn later_binding_shadows_earlier() {
    let mut map = GenericMap::new();
    map.insert(sym("T"), i32_ty());
    map.insert(sym("T"), Type::Bool);
    assert_eq!(map.get(&sym("T")).unwrap().text(), "bool");
    assert!(map.get(&sym("U")).is_none());
}

#[test]
fn alias_instantiation_and_inlining() {
    let mut module = Module::new();
    module.insert_ty(sym("Box"), TypeAlias { generics: vec![sym("T")], type_: Type::Ptr(Box::new(Type::Param(sym("T"))), false) });
    module.insert_ty(sym("IntBox"), TypeAlias { generics: vec![], type_: Type::Symbol(sym("Box"), vec![i32_ty()]) });
    let alias = module.get_ty(&sym("Box"));
    assert_eq!(alias.instantiate(&[Type::Bool]).text(), "*const bool");
    // Missing arguments leave the parameter in place.
    assert_eq!(alias.instantiate(&[]).text(), "*const #T");
    let inlined = module.inline_ty(Type::Symbol(sym("IntBox"), vec![]));
    assert_eq!(inlined.text(), "*const i32");
    assert_eq!(module.inline_ty(Type::Bool).text(), "bool");
}

#[test]
fn function_signature_helpers() {
    let f = Function {
        generics: vec![sym("T")],
        params: vec![(Some("x".to_string()), Type::Param(sym("T"))), (None, Type::Bool)],
        return_type: Some(Type::Param(sym("T"))),
        body: None,
    };
    assert_eq!(f.ptr_type().text(), "(#T, bool) -> #T");
    assert_eq!(f.text(), "<T>(x: #T, _1: bool) -> #T");
    let map = f.generic_map(&[i32_ty()]);
    assert_eq!(f.ptr_type().copy_instantiate(&map).text(), "(i32, bool) -> i32");
    let body = f.create_def();
    assert_eq!(body.variables.len(), 2);
    assert!(body.variables[0].arg && body.variables[1].arg);
    assert_eq!(body.variables[0].name.as_deref(), Some("x"));
    assert_eq!(body.variables[1].name, None);
    assert_eq!(body.variables[1].ty.text(), "bool");
}
