use orco::ir::item::{Function as ItemFunction, Item, Signature};
use orco::ir::{Body, Instr, Intrinsic, LabelId, SymbolId, SymbolRef, VariableId, VariableInfo};
use orco::symbol::Symbol;
use orco::types::{IntegerSize, Type};
use orco::{Function, Module};

fn i32_ty() -> Type {
    Type::Integer(IntegerSize::Bits(32))
}

fn no_floats() -> Vec<(u32, String)> {
    Vec::new()
}

#[test]
fn int_literal_small_and_large() {
    let mut body = Body::new();
    body.int_literal(5, IntegerSize::Bits(32));
    assert_eq!(body.instructions, vec![Instr::IConst(5, IntegerSize::Bits(32))]);

    let mut body = Body::new();
    body.int_literal(-1, IntegerSize::Bits(64));
    assert_eq!(body.instructions, vec![Instr::IConst(-1, IntegerSize::Bits(64))]);

    let mut body = Body::new();
    body.int_literal(1 << 40, IntegerSize::Bits(64));
    assert_eq!(
        body.instructions,
        vec![
            Instr::Intrinsic(Intrinsic::AggregateLiteral(2)),
            Instr::IConst(256, IntegerSize::Bits(64)),
            Instr::IConst(0, IntegerSize::Bits(64)),
        ]
    );
}

#[test]
fn uint_literal_chunks() {
    let mut body = Body::new();
    body.uint_literal(u128::MAX, IntegerSize::Bits(128));
    let c = Instr::UConst(u32::MAX, IntegerSize::Bits(128));
    assert_eq!(
        body.instructions,
        vec![Instr::Intrinsic(Intrinsic::AggregateLiteral(4)), c, c, c, c]
    );
    let mut body = Body::new();
    body.uint_literal(0, IntegerSize::Size);
    assert_eq!(body.instructions, vec![Instr::UConst(0, IntegerSize::Size)]);
}

#[test]
fn literal_chunks_concatenate_back() {
    // The chunks of a literal, most significant first, rebuild its value.
    let v: i128 = -(1 << 70) + 12345;
    let mut body = Body::new();
    body.int_literal(v, IntegerSize::Bits(128));
    let chunks: Vec<i32> = body.instructions[1..]
        .iter()
        .map(|i| match i {
            Instr::IConst(c, _) => *c,
            _ => panic!("not a chunk"),
        })
        .collect();
    let mut acc: i128 = chunks[0] as i128;
    for c in &chunks[1..] {
        acc = (acc << 32) | (*c as u32 as i128);
    }
    assert_eq!(acc, v);
}

#[test]
fn intrinsic_properties() {
    assert_eq!(Intrinsic::Add.arg_count(), 2);
    assert_eq!(Intrinsic::Neg.arg_count(), 1);
    assert_eq!(Intrinsic::AggregateLiteral(3).arg_count(), 3);
    assert!(Intrinsic::Add.infix());
    assert!(!Intrinsic::Not.infix());
    assert!(!Intrinsic::AggregateLiteral(2).infix());
    assert!(Intrinsic::Eq.type_override().unwrap() == Type::Bool);
    assert!(Intrinsic::Add.type_override().is_none());
    assert_eq!(Intrinsic::Shl.text(), "<<");
    assert_eq!(Intrinsic::Ge.text(), ">=");
    assert_eq!(Intrinsic::AggregateLiteral(2).text(), "aggregate");
    assert_eq!(Instr::from(Intrinsic::Sub), Instr::Intrinsic(Intrinsic::Sub));
}

#[test]
fn instruction_arg_counts_and_text() {
    assert_eq!(Instr::Call(2).arg_count(), 3);
    assert_eq!(Instr::Return(true).arg_count(), 1);
    assert_eq!(Instr::Return(false).arg_count(), 0);
    assert_eq!(Instr::Assign.arg_count(), 2);
    let floats = vec![(0x3f80_0000u32, "1".to_string())];
    assert_eq!(Instr::IConst(-5, IntegerSize::Bits(8)).text(&floats), "-5_i8");
    assert_eq!(Instr::UConst(7, IntegerSize::Size).text(&floats), "7_usize");
    assert_eq!(Instr::FConst(0x3f80_0000, 32).text(&floats), "1_f32");
    assert_eq!(Instr::BConst(true).text(&floats), "true");
    assert_eq!(Instr::Global(SymbolId(2)).text(&floats), "#2");
    assert_eq!(Instr::Var(VariableId(3)).text(&floats), "?#3");
    assert_eq!(Instr::Field(1).text(&floats), "field_1");
    assert_eq!(Instr::AcfCJump(LabelId(4)).text(&floats), "cjump #4");
    assert_eq!(Instr::Call(0).text(&floats), "call");
    assert_eq!(Instr::Error.text(&floats), "error");
}

#[test]
fn ids_are_allocated_in_order() {
    let mut body = Body::new();
    assert_eq!(body.alloc_label(None), LabelId(0));
    assert_eq!(body.alloc_label(Some("end".to_string())), LabelId(1));
    assert_eq!(body.declare_var(i32_ty(), Some("x".to_string())), VariableId(0));
    assert_eq!(body.declare_var(Type::Bool, None), VariableId(1));
    assert!(!body.var(VariableId(0)).arg);
    assert_eq!(body.var_debug_name(VariableId(0)), "x#0");
    assert_eq!(body.var_debug_name(VariableId(1)), "_#1");
    assert_eq!(body.label_debug_name(LabelId(0)), "_#0");
    assert_eq!(body.label_debug_name(LabelId(1)), "end#1");
    body.var_mut(VariableId(1)).name = Some("flag".to_string());
    assert_eq!(body.var_debug_name(VariableId(1)), "flag#1");
}

#[test]
fn symbols_are_used_once() {
    let mut body = Body::new();
    let a = body.use_symbol(Symbol::new("f"), vec![]);
    let b = body.use_symbol(Symbol::new("g"), vec![i32_ty()]);
    let a2 = body.use_symbol(Symbol::new("f"), vec![]);
    let c = body.use_symbol(Symbol::new("g"), vec![Type::Bool]);
    assert_eq!(a, a2);
    assert_eq!(a, SymbolId(0));
    assert_eq!(b, SymbolId(1));
    assert_eq!(c, SymbolId(2));
    assert_eq!(body.symbols.len(), 3);
    assert_eq!(body.symbol(b).text(), "g<i32>");
}

fn sample() -> (Module, Body) {
    let mut module = Module::new();
    module.insert_function(
        Symbol::new("f"),
        Function {
            generics: vec![],
            params: vec![(None, i32_ty())],
            return_type: Some(Type::Bool),
            body: None,
        },
    );
    let mut body = Body::new();
    body.declare_var(i32_ty(), Some("x".to_string()));
    body.declare_var(
        Type::Struct { fields: vec![(Some("a".to_string()), i32_ty()), (None, Type::Bool)] },
        Some("s".to_string()),
    );
    body.variables.push(VariableInfo { ty: Type::Bool, arg: true, name: None });
    body.alloc_label(Some("loop".to_string()));
    body.use_symbol(Symbol::new("f"), vec![]);
    body.instructions = vec![
        Instr::Assign,
        Instr::Var(VariableId(0)),
        Instr::IConst(5, IntegerSize::Bits(32)),
        Instr::AcfLabel(LabelId(0)),
        Instr::AcfCJump(LabelId(0)),
        Instr::Call(1),
        Instr::Global(SymbolId(0)),
        Instr::Field(0),
        Instr::Var(VariableId(1)),
        Instr::Field(1),
        Instr::Var(VariableId(1)),
        Instr::Intrinsic(Intrinsic::Neg),
        Instr::FConst(0x3f80_0000, 32),
        Instr::Return(false),
    ];
    (module, body)
}

#[test]
fn value_types() {
    let (module, body) = sample();
    assert_eq!(body.value_ty(&module, 0).text(), "<error>");
    assert_eq!(body.value_ty(&module, 2).text(), "i32");
    assert_eq!(body.value_ty(&module, 5).text(), "bool");
    assert_eq!(body.value_ty(&module, 6).text(), "(i32) -> bool");
    assert_eq!(body.value_ty(&module, 7).text(), "i32");
    assert_eq!(body.value_ty(&module, 9).text(), "bool");
    assert_eq!(body.value_ty(&module, 11).text(), "f32");
}

#[test]
fn debug_text_of_instructions() {
    let (module, body) = sample();
    let floats = vec![(0x3f80_0000u32, "1".to_string())];
    let mut out = String::new();
    assert_eq!(body.debug_instr(&module, &floats, 0, &mut out), 3);
    assert_eq!(out, "x#0 = 5_i32");
    let mut out = String::new();
    assert_eq!(body.debug_instr(&module, &floats, 3, &mut out), 4);
    assert_eq!(out, "loop#0:");
    let mut out = String::new();
    assert_eq!(body.debug_instr(&module, &floats, 4, &mut out), 9);
    assert_eq!(out, "if f(s#1.a) jump loop#0");
    let mut out = String::new();
    assert_eq!(body.debug_instr(&module, &floats, 9, &mut out), 11);
    assert_eq!(out, "s#1.field_1");
    let mut out = String::new();
    assert_eq!(body.debug_instr(&module, &floats, 11, &mut out), 13);
    assert_eq!(out, "-(1_f32)");
    let mut out = String::new();
    assert_eq!(body.debug_instr(&module, &no_floats(), 11, &mut out), 13);
    assert_eq!(out, "-(_f32)");
}

#[test]
fn body_display() {
    let (module, body) = sample();
    let floats = vec![(0x3f80_0000u32, "1".to_string())];
    assert_eq!(
        body.text(&module, &floats),
        "{\n  let x#0: i32;\n  let s#1: { a: i32, bool };\n  let _#2: bool = <argument>;\n  x#0 = 5_i32;\nloop#0:\n  if f(s#1.a) jump loop#0;\n  s#1.field_1;\n  -(1_f32);\n  return;\n}"
    );
    assert_eq!(Body::new().text(&module, &floats), "{}");
}

#[test]
fn items_format() {
    let (module, body) = sample();
    let sig = Signature::new(vec![("a".to_string(), i32_ty()), ("b".to_string(), Type::Bool)], Type::Bool);
    assert_eq!(sig.format(Some("f")), "fn f(a: i32, b: bool) -> bool");
    assert_eq!(sig.format(None), "fn (a: i32, b: bool) -> bool");
    let ext = Item::ExternalFunction(Signature::new(vec![], Type::Error));
    assert_eq!(ext.format(Some("g"), &module, &no_floats()), "extern fn g() -> <error>;");
    assert!(ext.function_signature().is_some());
    let f = Item::Function(ItemFunction::new(sig, Body::new()));
    assert_eq!(f.format(Some("h"), &module, &no_floats()), "fn h(a: i32, b: bool) -> bool {}");
    assert_eq!(f.function_signature().unwrap().args.len(), 2);
    let _ = body;
}

#[test]
fn print_ends_and_displayable() {
    let (module, body) = sample();
    let floats = vec![(0x3f80_0000u32, "1".to_string())];
    assert_eq!(body.debug_end(&module, &floats, 0), Some(3));
    assert_eq!(body.debug_end(&module, &floats, 4), Some(9));
    assert_eq!(body.debug_end(&module, &floats, 14), None);
    assert!(body.value_ty_checked(&module, 6));
    assert!(body.value_ty_checked(&module, 0));
    assert!(!body.value_ty_checked(&module, 14));
    assert!(body.displayable(&module, &floats));
    let mut broken = Body::new();
    broken.instructions = vec![Instr::Var(VariableId(0))];
    assert_eq!(broken.debug_end(&module, &floats, 0), None);
    assert!(!broken.displayable(&module, &floats));
    let mut infix = Body::new();
    infix.instructions = vec![Instr::Intrinsic(Intrinsic::Add), Instr::IConst(1, IntegerSize::Bits(32))];
    assert!(!infix.displayable(&module, &floats));
    infix.instructions.push(Instr::IConst(2, IntegerSize::Bits(32)));
    assert!(infix.displayable(&module, &floats));
    assert_eq!(infix.debug_end(&module, &floats, 0), Some(3));
    assert!(Body::new().displayable(&module, &floats));
}

#[test]
fn infix_intrinsics_print_between_their_arguments() {
    let module = Module::new();
    let floats = no_floats();
    let mut body = Body::new();
    body.instructions = vec![
        Instr::Intrinsic(Intrinsic::Add),
        Instr::IConst(1, IntegerSize::Bits(32)),
        Instr::IConst(2, IntegerSize::Bits(32)),
    ];
    let mut out = String::new();
    assert_eq!(body.debug_instr(&module, &floats, 0, &mut out), 3);
    assert_eq!(out, "(1_i32 + 2_i32)");
    let mut nested = Body::new();
    nested.instructions = vec![
        Instr::Intrinsic(Intrinsic::Le),
        Instr::Intrinsic(Intrinsic::Mul),
        Instr::IConst(3, IntegerSize::Bits(8)),
        Instr::IConst(4, IntegerSize::Bits(8)),
        Instr::IConst(5, IntegerSize::Bits(8)),
    ];
    let mut out = String::new();
    assert_eq!(nested.debug_instr(&module, &floats, 0, &mut out), 5);
    assert_eq!(out, "((3_i8 * 4_i8) <= 5_i8)");
    assert_eq!(nested.text(&module, &floats), "{\n  ((3_i8 * 4_i8) <= 5_i8);\n}");
}

#[test]
fn comparisons_are_boolean() {
    let module = Module::new();
    for op in [Intrinsic::Eq, Intrinsic::Lt, Intrinsic::Le, Intrinsic::Gt, Intrinsic::Ge] {
        let mut body = Body::new();
        body.instructions = vec![
            Instr::Intrinsic(op),
            Instr::IConst(1, IntegerSize::Bits(32)),
            Instr::IConst(2, IntegerSize::Bits(32)),
        ];
        assert_eq!(body.value_ty(&module, 0).text(), "bool");
        assert!(op.type_override().is_some());
    }
    let mut body = Body::new();
    body.instructions = vec![
        Instr::Intrinsic(Intrinsic::Add),
        Instr::IConst(1, IntegerSize::Bits(32)),
        Instr::IConst(2, IntegerSize::Bits(32)),
    ];
    assert_eq!(body.value_ty(&module, 0).text(), "i32");
    assert!(Intrinsic::Add.type_override().is_none());
}

#[test]
fn int_literal_top_chunk_carries_the_sign() {
    let mut body = Body::new();
    body.int_literal(1i128 << 31, IntegerSize::Bits(64));
    assert_eq!(
        body.instructions,
        vec![
            Instr::Intrinsic(Intrinsic::AggregateLiteral(2)),
            Instr::IConst(0, IntegerSize::Bits(64)),
            Instr::IConst(i32::MIN, IntegerSize::Bits(64)),
        ]
    );
    let mut body = Body::new();
    body.int_literal(-(1i128 << 31) - 1, IntegerSize::Bits(64));
    assert_eq!(
        body.instructions,
        vec![
            Instr::Intrinsic(Intrinsic::AggregateLiteral(2)),
            Instr::IConst(-1, IntegerSize::Bits(64)),
            Instr::IConst(i32::MAX, IntegerSize::Bits(64)),
        ]
    );
    let mut body = Body::new();
    body.int_literal(i32::MIN as i128, IntegerSize::Bits(32));
    assert_eq!(body.instructions, vec![Instr::IConst(i32::MIN, IntegerSize::Bits(32))]);
    let mut body = Body::new();
    body.int_literal(i128::MIN, IntegerSize::Bits(128));
    assert_eq!(body.instructions.len(), 5);
}

#[test]
fn use_symbol_finds_the_first_entry() {
    let mut body = Body::new();
    body.symbols.push(SymbolRef { name: Symbol::new("h"), generics: vec![] });
    body.symbols.push(SymbolRef { name: Symbol::new("f"), generics: vec![] });
    body.symbols.push(SymbolRef { name: Symbol::new("f"), generics: vec![] });
    assert_eq!(body.use_symbol(Symbol::new("f"), vec![]), SymbolId(1));
    assert_eq!(body.use_symbol(Symbol::new("f"), vec![]), SymbolId(1));
    assert_eq!(body.symbols.len(), 3);
}
