//! Whole-module transformations.
pub mod name_anonymous;
pub mod monomorphization;
