use orco::expression::UnreachableCode;
use orco::mappers::{SymbolMapper, VariableMapper};
use orco::registry::{FunctionId, Parameter, Registry, Signature, Symbol as RegSymbol, Type as RegType};
use orco::source::{Span, Src};
use orco::symbol::Symbol;
use orco::type_inference::TypeInference;
use std::path::PathBuf;

fn sym(name: &str) -> Symbol {
    Symbol::new(name)
}

#[test]
fn scopes_shadow_and_pop() {
    let mut ti: TypeInference<u32> = TypeInference::new();
    assert_eq!(ti.get_symbol(&sym("x")), None);
    ti.push_scope();
    ti.declare(sym("x"), 1);
    ti.declare(sym("y"), 2);
    ti.push_scope();
    assert_eq!(ti.get_symbol(&sym("x")), Some(&1));
    ti.declare(sym("x"), 3);
    assert_eq!(ti.get_symbol(&sym("x")), Some(&3));
    assert_eq!(ti.get_symbol(&sym("y")), Some(&2));
    ti.pop_scope();
    assert_eq!(ti.get_symbol(&sym("x")), Some(&1));
    ti.pop_scope();
    assert_eq!(ti.get_symbol(&sym("x")), None);
    // Popping with no scope left changes nothing.
    ti.pop_scope();
    assert_eq!(ti.get_symbol(&sym("y")), None);
}

#[test]
fn redeclaring_in_one_scope_replaces() {
    let mut ti: TypeInference<&str> = TypeInference::new();
    ti.push_scope();
    ti.declare(sym("a"), "first");
    ti.declare(sym("a"), "second");
    assert_eq!(ti.get_symbol(&sym("a")), Some(&"second"));
    ti.pop_scope();
    assert_eq!(ti.get_symbol(&sym("a")), None);
}

#[test]
fn variable_ids_count_up() {
    let mut ti: TypeInference<()> = TypeInference::new();
    assert_eq!(ti.new_variable_id(), 0);
    assert_eq!(ti.new_variable_id(), 1);
    ti.push_scope();
    assert_eq!(ti.new_variable_id(), 2);
}

#[test]
fn registry_declares_functions() {
    let mut registry = Registry::new();
    assert_eq!(registry.get_symbol("std::print"), None);
    let sig = Signature::new(vec![Parameter::new("x".to_string(), RegType::Int(32)), Parameter::unnamed(RegType::Unsigned(8))]);
    let id = registry.declare_fn("std::print".to_string(), sig);
    assert_eq!(id, FunctionId(0));
    assert_eq!(registry.get_symbol("std::print"), Some(RegSymbol::Function(FunctionId(0))));
    let f = registry.get_fn(id);
    assert_eq!(f.params.len(), 2);
    assert_eq!(f.params[0].name.as_deref(), Some("x"));
    assert_eq!(f.params[1].name, None);
    assert_eq!(f.params[1].ty, RegType::Unsigned(8));
    let id2 = registry.declare_fn("std::print".to_string(), Signature::new(vec![]));
    assert_eq!(id2, FunctionId(1));
    assert_eq!(registry.get_symbol("std::print"), Some(RegSymbol::Function(FunctionId(1))));
    assert_eq!(registry.get_fn(id).params.len(), 2);
}

#[test]
fn spans_extend_over_both() {
    let src = Src::new(PathBuf::from("a.rs"), "let x = 1;".to_string());
    let mut a = Span(src.share(), 4..5);
    let b = Span(src.share(), 8..9);
    a.extend(&b);
    assert_eq!(a.1, 4..9);
    let mut c = Span(src.share(), 2..3);
    c.extend(&Span(src.share(), 0..10));
    assert_eq!(c.1, 0..10);
    assert_eq!(src.get().content(), "let x = 1;");
}

#[test]
fn unreachable_code_accumulates() {
    let src = Src::new(PathBuf::from("a.rs"), "abcdef".to_string());
    let other = Src::new(PathBuf::from("b.rs"), "xyz".to_string());
    let mut u = UnreachableCode { there_is_some: false, unreachable_code: None, reason: None };
    u.extend(None);
    assert!(u.there_is_some);
    assert!(u.unreachable_code.is_none());
    u.extend(Some(&Span(src.share(), 2..3)));
    assert_eq!(u.unreachable_code.as_ref().unwrap().1, 2..3);
    u.extend(Some(&Span(src.share(), 4..6)));
    assert_eq!(u.unreachable_code.as_ref().unwrap().1, 2..6);
    // A span in another file is not merged.
    u.extend(Some(&Span(other.share(), 0..1)));
    assert_eq!(u.unreachable_code.as_ref().unwrap().1, 2..6);
    // An equal file (same path, same text) counts as the same file.
    let again = Src::new(PathBuf::from("a.rs"), "abcdef".to_string());
    u.extend(Some(&Span(again, 0..1)));
    assert_eq!(u.unreachable_code.as_ref().unwrap().1, 0..6);
}

#[test]
fn symbol_mapper_falls_back_to_global() {
    let mut m: SymbolMapper<&str> = SymbolMapper::new();
    assert!(m.use_functions_before_declaration);
    assert_eq!(m.declare_variable(sym("main"), "global main"), 0);
    assert_eq!(m.current_scope().len(), 1);
    m.push_scope();
    assert_eq!(m.current_scope().len(), 0);
    assert_eq!(m.get_symbol(&sym("main")), Some(&"global main"));
    assert_eq!(m.declare_variable(sym("main"), "local main"), 1);
    assert_eq!(m.get_symbol(&sym("main")), Some(&"local main"));
    m.pop_scope();
    assert_eq!(m.get_symbol(&sym("main")), Some(&"global main"));
    assert_eq!(m.get_symbol(&sym("other")), None);
}

#[test]
fn variable_mapper_sees_current_scope_only() {
    let mut m: VariableMapper<u8> = VariableMapper::new();
    m.declare_variable(sym("x"), 1);
    assert_eq!(m.get_variable(&sym("x")), Some(&1));
    m.push_scope();
    assert_eq!(m.get_variable(&sym("x")), None);
    m.declare_variable(sym("x"), 2);
    assert_eq!(m.get_variable(&sym("x")), Some(&2));
    assert_eq!(m.current_scope().len(), 1);
    m.pop_scope();
    assert_eq!(m.get_variable(&sym("x")), Some(&1));
}

#[test]
fn sources_compare_by_path_and_text() {
    let a = Src::new("a.rs".into(), "x".to_string());
    let shared = a.share();
    assert!(a.same_file(&shared));
    assert!(a.same_file(&Src::new("a.rs".into(), "x".to_string())));
    assert!(!a.same_file(&Src::new("b.rs".into(), "x".to_string())));
    assert!(!a.same_file(&Src::new("a.rs".into(), "y".to_string())));
    assert_eq!(a.get().path(), std::path::Path::new("a.rs"));
    assert_eq!(Src::new("dir/b.rs".into(), String::new()).text(), "dir/b.rs");
    assert_eq!(a.get().content(), "x");
}
