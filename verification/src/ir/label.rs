//! Labels of a body.
use vstd::prelude::*;

verus! {

/// Id of a label (index into labels list).
#[derive(Clone, Copy, Debug, PartialEq, Eq, Structural, PartialOrd, Ord, Hash)]
pub struct LabelId(pub u32);

impl super::Body {
    /// Allocate a label to be placed in the source code later,
    /// returns the newly-allocated ID. ID value order guaranteed
    pub fn alloc_label(&mut self, name: Option<String>) -> (id: LabelId)
        requires
            old(self).label_names@.len() <= u32::MAX,
        ensures
            id.0 == old(self).label_names@.len(),
            final(self).label_names@ == old(self).label_names@.push(name),
            final(self).variables == old(self).variables,
            final(self).symbols == old(self).symbols,
            final(self).instructions == old(self).instructions,
    {
        let id = LabelId(self.label_names.len() as u32);
        self.label_names.push(name);
        id
    }
}

} // verus!
