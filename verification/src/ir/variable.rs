//! Variables of a body.
use crate::types::Type;
use vstd::prelude::*;

verus! {

/// Id of a variable (index into variables list).
/// It is known that all function arguments have sequential IDs, starting from index 0.
#[derive(Clone, Copy, Debug, PartialEq, Eq, Structural, PartialOrd, Ord, Hash)]
pub struct VariableId(pub u32);

/// Info about one variable in a body.
#[derive(Debug)]
pub struct VariableInfo {
    /// Type of this variable.
    pub ty: Type,
    /// Wether this variable comes from function arguments.
    pub arg: bool,
    /// Debug name.
    pub name: Option<String>,
}

impl super::Body {
    /// Declare a variable with a set type and optional debug name,
    /// which can later be set using [`Self::var_mut`]
    /// Returns the newly-allocated ID to be used with [`Self::var`].
    /// ID value order guaranteed, see note on [`VariableId`].
    pub fn declare_var(&mut self, ty: Type, name: Option<String>) -> (id: VariableId)
        requires
            old(self).variables@.len() <= u32::MAX,
        ensures
            id.0 == old(self).variables@.len(),
            final(self).variables@ == old(self).variables@.push(
                VariableInfo { ty, arg: false, name },
            ),
            final(self).symbols == old(self).symbols,
            final(self).label_names == old(self).label_names,
            final(self).instructions == old(self).instructions,
    {
        let id = VariableId(self.variables.len() as u32);
        self.variables.push(VariableInfo { ty, arg: false, name });
        id
    }

    /// Get variable info by ID.
    pub fn var(&self, id: VariableId) -> (r: &VariableInfo)
        requires
            id.0 < self.variables@.len(),
        ensures
            *r == self.variables@[id.0 as int],
    {
        &self.variables[id.0 as usize]
    }

    /// Mutable version of [`Self::var`].
    pub fn var_mut(&mut self, id: VariableId) -> (r: &mut VariableInfo)
        requires
            id.0 < old(self).variables@.len(),
        ensures
            *r == old(self).variables@[id.0 as int],
            final(self).variables@ == old(self).variables@.update(id.0 as int, *final(r)),
            final(self).symbols == old(self).symbols,
            final(self).label_names == old(self).label_names,
            final(self).instructions == old(self).instructions,
    {
        &mut self.variables[id.0 as usize]
    }
}

} // verus!
