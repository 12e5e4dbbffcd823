//! The flat, stack-ordered body IR.
use crate::module::{generic_bindings, Module};
use crate::types::{types_view, Type, TypeModel};
use vstd::prelude::*;

pub mod instr;
pub use instr::Instruction as Instr;

pub mod variable;
pub use variable::{VariableId, VariableInfo};

pub mod symbol_ref;
pub use symbol_ref::{SymbolId, SymbolRef};

pub mod label;
pub use label::LabelId;

pub mod intrinsics;

pub mod debug;

pub mod item;
pub use item::Item;
pub use intrinsics::Intrinsic;

verus! {

broadcast use {vstd::std_specs::vec::group_vec_axioms, vstd::seq::group_seq_axioms};

/// A function body.
#[derive(Debug)]
pub struct Body {
    /// All variables used in the body.
    /// Index this with [`VariableId::0`].
    pub variables: Vec<VariableInfo>,
    /// All symbols referenced in this body, each at most once.
    pub symbols: Vec<SymbolRef>,
    /// Debug names attached to labels.
    /// Index this with [`LabelId::0`].
    pub label_names: Vec<Option<String>>,
    /// A list of instructions, with values following inverse stack-based order.
    /// See [`Instr`]
    pub instructions: Vec<Instr>,
}

impl Body {
    /// An empty body.
    pub fn new() -> (r: Body)
        ensures
            r.variables@.len() == 0,
            r.symbols@.len() == 0,
            r.label_names@.len() == 0,
            r.instructions@.len() == 0,
    {
        Body {
            variables: Vec::new(),
            symbols: Vec::new(),
            label_names: Vec::new(),
            instructions: Vec::new(),
        }
    }
}

impl Body {
    /// Computing the type of the value at `idx` does not fail: every instruction it
    /// reads is in range, every id it follows is allocated, every global it meets is
    /// declared in `module` with as many type parameters as the use supplies, fields
    /// are read from structs and calls are made on function pointers.
    pub open spec fn value_ty_ok(&self, module: &Module, idx: int) -> bool
        decreases self.instructions@.len() - idx,
    {
        if idx < 0 || idx >= self.instructions@.len() {
            false
        } else {
            match self.instructions@[idx] {
                Instr::Global(id) => {
                    &&& id.0 < self.symbols@.len()
                    &&& module.functions().contains_key(self.symbols@[id.0 as int].name@)
                    &&& self.symbols@[id.0 as int].generics@.len() == module.functions()[self.symbols@[id.0 as int].name@].generics@.len()
                },
                Instr::Var(id) => id.0 < self.variables@.len(),
                Instr::Field(field) => {
                    &&& self.value_ty_ok(module, idx + 1)
                    &&& self.spec_value_ty(module, idx + 1) matches TypeModel::Struct(fields)
                    &&& field < fields.len()
                },
                Instr::Call(_) => {
                    &&& self.value_ty_ok(module, idx + 1)
                    &&& self.spec_value_ty(module, idx + 1) is FnPtr
                },
                Instr::Intrinsic(intr) => intr.spec_type_override() is Some || self.value_ty_ok(
                    module,
                    idx + 1,
                ),
                _ => true,
            }
        }
    }

    /// Type of the value the instruction at `idx` produces. A global has the
    /// function pointer type of the function it names, its type parameters bound to
    /// the generic arguments of the use.
    pub open spec fn spec_value_ty(&self, module: &Module, idx: int) -> TypeModel
        decreases self.instructions@.len() - idx,
    {
        if idx < 0 || idx >= self.instructions@.len() {
            TypeModel::Error
        } else {
            match self.instructions@[idx] {
                Instr::IConst(_, size) => TypeModel::Integer(size),
                Instr::UConst(_, size) => TypeModel::Unsigned(size),
                Instr::FConst(_, size) => TypeModel::Float(size),
                Instr::BConst(_) => TypeModel::Bool,
                Instr::Global(id) => {
                    let sym = self.symbols@[id.0 as int];
                    let f = module.functions()[sym.name@];
                    f.spec_ptr_type().instantiate(generic_bindings(f.generics@, types_view(sym.generics@)))
                },
                Instr::Var(id) => self.variables@[id.0 as int].ty@,
                Instr::Field(field) => match self.spec_value_ty(module, idx + 1) {
                    TypeModel::Struct(fields) => fields[field as int].1,
                    _ => TypeModel::Error,
                },
                Instr::Call(_) => match self.spec_value_ty(module, idx + 1) {
                    TypeModel::FnPtr(_, Some(r)) => *r,
                    _ => TypeModel::Error,
                },
                Instr::Intrinsic(intr) => match intr.spec_type_override() {
                    Some(t) => t,
                    None => self.spec_value_ty(module, idx + 1),
                },
                _ => TypeModel::Error,
            }
        }
    }

    /// Get type of a value generated at index.
    /// Requires module access for global symbols.
    pub fn value_ty(&self, module: &Module, idx: usize) -> (r: Type)
        requires
            self.value_ty_ok(module, idx as int),
        ensures
            r@ == self.spec_value_ty(module, idx as int),
        decreases self.instructions@.len() - idx,
    {
        let n = self.instructions.len();
        assert(idx < n);
        match self.instructions[idx] {
            Instr::IConst(_, size) => Type::Integer(size),
            Instr::UConst(_, size) => Type::Unsigned(size),
            Instr::FConst(_, size) => Type::Float(size),
            Instr::BConst(_) => Type::Bool,
            Instr::Global(id) => {
                let sym = self.symbol(id);
                let f = module.get_symbol(&sym.name);
                f.ptr_type().copy_instantiate(&f.generic_map(sym.generics.as_slice()))
            },
            Instr::Var(id) => self.var(id).ty.deep_copy(),
            Instr::Field(field_idx) => {
                let ty = self.value_ty(module, idx + 1);
                match ty {
                    Type::Struct { mut fields } => {
                        proof {
                            crate::types::lemma_fields_view_len(fields@);
                            crate::types::lemma_fields_view_index(fields@, field_idx as int);
                        }
                        fields.swap_remove(field_idx as usize).1
                    },
                    _ => Type::Error,
                }
            },
            Instr::Assign => Type::Error,
            Instr::AcfLabel(..) | Instr::AcfJump(..) | Instr::AcfCJump(..) => Type::Error,
            Instr::Call(..) => {
                let ty = self.value_ty(module, idx + 1);
                match ty {
                    Type::FnPtr { return_type, .. } => match return_type {
                        Some(ty) => *ty,
                        None => Type::Error,
                    },
                    _ => Type::Error,
                }
            },
            Instr::Intrinsic(intr) => match intr.type_override() {
                Some(ty) => ty,
                None => self.value_ty(module, idx + 1),
            },
            Instr::Return(..) => Type::Error,
            Instr::Error => Type::Error,
        }
    }
}

/// The type of a value follows from what makes it: a constant has the type of its kind
/// and size, a variable its declared type, a comparison is a boolean, arithmetic and
/// other non-comparing intrinsics have the type of their first operand, a field read
/// from a struct the field's type, a call of a function pointer its return type, and
/// instructions that make no value the error type.
pub proof fn law_value_ty_by_instruction(body: Body, module: Module, idx: int)
    requires
        0 <= idx < body.instructions@.len(),
    ensures
        body.instructions@[idx] matches Instr::IConst(_, size) ==> body.spec_value_ty(&module, idx)
            == TypeModel::Integer(size),
        body.instructions@[idx] matches Instr::UConst(_, size) ==> body.spec_value_ty(&module, idx)
            == TypeModel::Unsigned(size),
        body.instructions@[idx] matches Instr::FConst(_, size) ==> body.spec_value_ty(&module, idx)
            == TypeModel::Float(size),
        body.instructions@[idx] is BConst ==> body.spec_value_ty(&module, idx) == TypeModel::Bool,
        body.instructions@[idx] matches Instr::Var(id) ==> body.spec_value_ty(&module, idx)
            == body.variables@[id.0 as int].ty@,
        body.instructions@[idx] matches Instr::Intrinsic(op) ==> (op is Eq || op is Lt || op is Le
            || op is Gt || op is Ge ==> body.spec_value_ty(&module, idx) == TypeModel::Bool),
        body.instructions@[idx] matches Instr::Intrinsic(op) ==> (!(op is Eq || op is Lt || op is Le
            || op is Gt || op is Ge) ==> body.spec_value_ty(&module, idx) == body.spec_value_ty(
            &module,
            idx + 1,
        )),
        body.instructions@[idx] matches Instr::Field(f) ==> (body.spec_value_ty(&module, idx + 1) matches TypeModel::Struct(
            fields,
        ) ==> body.spec_value_ty(&module, idx) == fields[f as int].1),
        body.instructions@[idx] is Call ==> (body.spec_value_ty(&module, idx + 1) matches TypeModel::FnPtr(
            _,
            Some(r),
        ) ==> body.spec_value_ty(&module, idx) == *r),
        (body.instructions@[idx] is Assign || body.instructions@[idx] is Return
            || body.instructions@[idx] is AcfLabel || body.instructions@[idx] is AcfJump
            || body.instructions@[idx] is AcfCJump || body.instructions@[idx] is Error)
            ==> body.spec_value_ty(&module, idx) == TypeModel::Error,
{
}

} // verus!
