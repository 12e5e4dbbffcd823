//! Core of the OrCo compiler toolchain: types, the flat body IR and the
//! supporting data structures shared by frontends and backends.

pub mod assoc;
pub mod codebase;
pub mod expression;
pub mod diagnostic;
pub mod display;
pub mod ir;
pub mod mappers;
pub mod model;
pub mod module;
pub mod mutability;
pub mod registry;
pub mod source;
pub mod symbol;
pub mod symbol_box;
pub mod text;
pub mod transforms;
pub mod type_inference;
pub mod types;
pub mod unit;

pub use module::{Function, Module, TypeAlias};
