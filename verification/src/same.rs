//! The outcome of checking two values for structural sameness.

use vstd::prelude::*;

verus! {

/// Result of checking if two values are structurally the same.
pub enum Sameness {
    /// The values are structurally the same.
    Same,
    /// The values differ - contains a formatted diff.
    Different(String),
    /// Encountered an opaque type that cannot be compared.
    Opaque {
        /// The identifier of the opaque type.
        type_id: &'static str,
    },
}

impl Sameness {
    /// Returns `true` if the two values matched.
    pub fn is_same(&self) -> (r: bool)
        ensures
            r == (*self is Same),
    {
        matches!(self, Sameness::Same)
    }
}

} // verus!
