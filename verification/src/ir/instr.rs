//! Instructions of the body IR.
use crate::types::IntegerSize;
use vstd::prelude::*;

verus! {

/// Single instruction can be thought of a node in the AST-like IR,
/// with it's children being flat written into a list of instructions right after.
/// See [`super::Body::instructions`].
#[derive(Clone, Copy, Debug, PartialEq, Eq, Structural)]
pub enum Instruction {
    /// Signed integer constant.
    IConst(i32, IntegerSize),
    /// Unsigned integer constant.
    UConst(u32, IntegerSize),
    /// Float constant, held as the IEEE bit pattern of the `f32` value, and its size.
    FConst(u32, u16),
    /// Bool constant.
    BConst(bool),
    /// Load a global value (function, variable, etc.).
    Global(super::SymbolId),
    /// Load the variable.
    Var(super::VariableId),
    /// Access a field at index.
    Field(u32),
    /// Assign the value to a place last expression references.
    Assign,
    /// Just places a label here, allowing jump to this point.
    AcfLabel(super::LabelId),
    /// Unconditionally jump to a label.
    AcfJump(super::LabelId),
    /// Conditionally jump to a label.
    AcfCJump(super::LabelId),
    /// Call a function with a specified number of arguments.
    Call(u32),
    /// Returns the value (if any).
    Return(bool),
    /// Intrinsic. See [`super::Intrinsic`].
    Intrinsic(super::Intrinsic),
    /// Error value.
    Error,
}

impl Instruction {
    /// Number of arguments the instruction takes, as a mathematical integer.
    pub open spec fn spec_arg_count(self) -> nat {
        match self {
            Instruction::Field(..) => 1,
            Instruction::Assign => 2,
            Instruction::AcfCJump(..) => 1,
            Instruction::Call(args) => args as nat + 1,
            Instruction::Return(has_value) => if has_value {
                1
            } else {
                0
            },
            Instruction::Intrinsic(intr) => intr.spec_arg_count() as nat,
            _ => 0,
        }
    }

    /// Number of arguments to follow this instruction with in
    /// [`super::Body::instructions`]
    pub fn arg_count(self) -> (r: u32)
        requires
            self.spec_arg_count() <= u32::MAX,
        ensures
            r == self.spec_arg_count(),
    {
        match self {
            Instruction::IConst(..) | Instruction::UConst(..) | Instruction::FConst(..)
            | Instruction::BConst(..) => 0,
            Instruction::Global(..) => 0,
            Instruction::Var(..) => 0,
            Instruction::Field(..) => 1,
            Instruction::Assign => 2,
            Instruction::AcfLabel(..) => 0,
            Instruction::AcfJump(..) => 0,
            Instruction::AcfCJump(..) => 1,
            Instruction::Call(args) => args + 1,
            Instruction::Return(has_value) => if has_value {
                1
            } else {
                0
            },
            Instruction::Intrinsic(intr) => intr.arg_count(),
            Instruction::Error => 0,
        }
    }
}

impl vstd::std_specs::convert::FromSpecImpl<super::Intrinsic> for Instruction {
    open spec fn obeys_from_spec() -> bool {
        true
    }

    open spec fn from_spec(v: super::Intrinsic) -> Self {
        Instruction::Intrinsic(v)
    }
}

impl From<super::Intrinsic> for Instruction {
    fn from(value: super::Intrinsic) -> Self {
        Instruction::Intrinsic(value)
    }
}

} // verus!
