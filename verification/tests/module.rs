use orco::ir::{Body, Instr, SymbolId, VariableId};
use orco::symbol::Symbol;
use orco::types::{IntegerSize, Type};
use orco::{Function, Module, TypeAlias};

fn sym(name: &str) -> Symbol {
    Symbol::new(name)
}

fn i32_ty() -> Type {
    Type::Integer(IntegerSize::Bits(32))
}

#[test]
fn declarations_replace_by_name() {
    let mut module = Module::new();
    module.insert_ty(sym("A"), TypeAlias { generics: vec![], type_: i32_ty() });
    module.insert_ty(sym("B"), TypeAlias { generics: vec![], type_: Type::Bool });
    module.insert_ty(sym("A"), TypeAlias { generics: vec![], type_: Type::Error });
    assert_eq!(module.get_ty(&sym("A")).type_.text(), "<error>");
    assert_eq!(module.get_ty(&sym("B")).type_.text(), "bool");
    assert_eq!(module.type_entries().len(), 2);
    assert_eq!(module.type_entries()[0].0.as_str(), "A");
}

#[test]
fn module_display() {
    let mut module = Module::new();
    module.insert_ty(sym("Pair"), TypeAlias { generics: vec![sym("T")], type_: Type::Struct { fields: vec![(Some("a".to_string()), Type::Param(sym("T"))), (Some("b".to_string()), i32_ty())] } });
    module.insert_function(sym("ext"), Function { generics: vec![], params: vec![(None, i32_ty())], return_type: None, body: None });
    let mut body = Body::new();
    body.instructions.push(Instr::Return(false));
    module.insert_function(sym("main"), Function { generics: vec![], params: vec![], return_type: Some(i32_ty()), body: Some(body) });
    assert_eq!(
        module.text(&Vec::new()),
        "type Pair<T> = { a: #T, b: i32 };\n\nfn ext(_0: i32) -> void;\nfn main() -> i32 {\n  return;\n}\n\n"
    );
    assert_eq!(Module::new().text(&Vec::new()), "\n");
}

#[test]
fn anonymous_structs_get_named() {
    let mut module = Module::new();
    let inner = Type::Struct { fields: vec![(Some("v".to_string()), Type::Param(sym("T")))] };
    module.insert_ty(
        sym("Wrap"),
        TypeAlias {
            generics: vec![sym("T")],
            type_: Type::Struct { fields: vec![(Some("inner".to_string()), inner), (Some("n".to_string()), i32_ty())] },
        },
    );
    let param = Type::Struct { fields: vec![(Some("a".to_string()), i32_ty()), (Some("b".to_string()), Type::Bool)] };
    module.insert_function(sym("f"), Function { generics: vec![], params: vec![(Some("p".to_string()), param)], return_type: None, body: None });
    module.name_anonymous_structs();
    assert_eq!(
        module.text(&Vec::new()),
        "type Wrap<T> = { inner: #T<#T>, n: i32 };\ntype #T<T> = { v: #T };\ntype i32bool = { a: i32, b: bool };\n\nfn f(p: i32bool) -> void;\n"
    );
}

#[test]
fn naming_twice_changes_nothing_more() {
    let mut module = Module::new();
    let param = Type::Ptr(Box::new(Type::Struct { fields: vec![(None, Type::Bool)] }), true);
    let mut body = Body::new();
    body.declare_var(Type::Struct { fields: vec![(None, i32_ty())] }, None);
    module.insert_function(sym("g"), Function { generics: vec![], params: vec![(None, param)], return_type: Some(Type::Struct { fields: vec![] }), body: Some(body) });
    module.name_anonymous_structs();
    let once = module.text(&Vec::new());
    module.name_anonymous_structs();
    assert_eq!(module.text(&Vec::new()), once);
    assert_eq!(
        once,
        "type bool = { bool };\ntype  = {  };\ntype i32 = { i32 };\n\nfn g(_0: *mut bool) ->  {\n  let _#0: i32;\n}\n\n"
    );
}

#[test]
fn monomorphized_names() {
    let module = Module::new();
    assert_eq!(module.monomorphized_name(&sym("Vec"), &vec![i32_ty()]).as_str(), "Vec<i32>");
    assert_eq!(module.monomorphized_name(&sym("Vec"), &vec![]).as_str(), "Vec");
    assert_eq!(module.monomorphized_name(&sym("Map"), &vec![i32_ty(), Type::Bool]).as_str(), "Map<i32, bool>");
}

#[test]
fn monomorphize_copies_generic_uses() {
    let mut module = Module::new();
    module.insert_ty(sym("Box"), TypeAlias { generics: vec![sym("T")], type_: Type::Ptr(Box::new(Type::Param(sym("T"))), false) });
    module.insert_function(
        sym("id"),
        Function {
            generics: vec![sym("T")],
            params: vec![(Some("x".to_string()), Type::Param(sym("T")))],
            return_type: Some(Type::Param(sym("T"))),
            body: None,
        },
    );
    let mut body = Body::new();
    body.declare_var(Type::Symbol(sym("Box"), vec![i32_ty()]), None);
    body.use_symbol(sym("id"), vec![i32_ty()]);
    body.instructions = vec![Instr::Return(true), Instr::Call(1), Instr::Global(SymbolId(0)), Instr::Var(VariableId(0))];
    module.insert_function(sym("main"), Function { generics: vec![], params: vec![], return_type: None, body: Some(body) });
    assert_eq!(
        module.text(&Vec::new()),
        "type Box<T> = *const #T;\n\nfn id<T>(x: #T) -> #T;\nfn main() -> void {\n  let _#0: Box<i32>;\n  return id<i32>(_#0);\n}\n\n"
    );
    module.monomorphize();
    assert_eq!(
        module.text(&Vec::new()),
        "type Box<i32> = *const i32;\n\nfn main() -> void {\n  let _#0: Box<i32>;\n  return id<i32>(_#0);\n}\n\nfn id<i32>(x: i32) -> i32;\n"
    );
    let main = module.get_symbol(&sym("main"));
    let b = main.body.as_ref().unwrap();
    assert_eq!(b.symbols[0].name.as_str(), "id<i32>");
    assert!(b.symbols[0].generics.is_empty());
    assert!(module.get_symbol(&sym("id<i32>")).generics.is_empty());
}

#[test]
fn monomorphize_nested_generic_types() {
    let mut module = Module::new();
    module.insert_ty(sym("Box"), TypeAlias { generics: vec![sym("T")], type_: Type::Ptr(Box::new(Type::Param(sym("T"))), true) });
    module.insert_ty(sym("Pair"), TypeAlias { generics: vec![sym("A")], type_: Type::Struct { fields: vec![(None, Type::Symbol(sym("Box"), vec![Type::Param(sym("A"))])), (None, Type::Param(sym("A")))] } });
    module.insert_ty(sym("Main"), TypeAlias { generics: vec![], type_: Type::Symbol(sym("Pair"), vec![Type::Bool]) });
    module.monomorphize();
    assert_eq!(
        module.text(&Vec::new()),
        "type Main = Pair<bool>;\ntype Box<bool> = *mut bool;\ntype Pair<bool> = { Box<bool>, bool };\n\n"
    );
}
