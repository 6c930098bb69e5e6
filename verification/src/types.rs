//! Core diff types.
//!
//! These types represent the result of a diff computation. They are generic
//! over the handle `P` through which compared values are referenced and the
//! handle `S` through which their types (shapes) are referenced.

use vstd::prelude::*;

use crate::core_sequences::{updates_closeness, updates_is_empty, Updates};

verus! {

/// The difference between two values.
///
/// The `from` value does not necessarily have to have the same type as the `to` value.
pub enum Diff<P, S> {
    /// The two values are equal
    Equal {
        /// The value (stored for display purposes)
        value: Option<P>,
    },
    /// Fallback case.
    ///
    /// We do not know much about the values, apart from that they are unequal to each other.
    Replace {
        /// The `from` value.
        from: P,
        /// The `to` value.
        to: P,
    },
    /// The two values are both structures or both enums with similar variants.
    User {
        /// The shape of the `from` struct.
        from: S,
        /// The shape of the `to` struct.
        to: S,
        /// The name of the variant, this is [`None`] if the values are structs
        variant: Option<&'static str>,
        /// The value of the struct/enum variant (tuple or struct fields)
        value: Value<P, S>,
    },
    /// A diff between two sequences
    Sequence {
        /// The shape of the `from` sequence.
        from: S,
        /// The shape of the `to` sequence.
        to: S,
        /// The updates on the sequence
        updates: Updates<P, S>,
    },
}

impl<P, S> Diff<P, S> {
    /// Returns true if the two values were equal
    pub fn is_equal(&self) -> (r: bool)
        ensures
            r == (*self is Equal),
    {
        matches!(self, Diff::Equal { .. })
    }
}

/// How close the two values of a diff are, capped at `usize::MAX`: the
/// closeness of a struct or enum diff's value; any other diff counts as
/// not close at all.
pub open spec fn diff_closeness_of<P, S>(d: Diff<P, S>) -> int {
    match d {
        Diff::User { value, .. } => if value_closeness(value) <= usize::MAX {
            value_closeness(value)
        } else {
            usize::MAX as int
        },
        _ => 0,
    }
}

impl<P, S> Diff<P, S> {
    /// How close the two values are (higher = more similar), for pairing
    /// removed and added items of a sequence: the closeness of a struct or
    /// enum diff's value, and 0 for any other diff.
    pub fn closeness(&self) -> (r: usize)
        ensures
            r == diff_closeness_of(*self),
    {
        match self {
            Diff::User { value, .. } => match value {
                Value::Tuple { updates } => updates.capped_closeness(),
                Value::Struct { unchanged, .. } => unchanged.len(),
            },
            _ => 0,
        }
    }
}

/// A set of updates, additions, deletions, insertions etc. for a tuple or a struct
pub enum Value<P, S> {
    /// A tuple value
    Tuple {
        /// The updates on the sequence
        updates: Updates<P, S>,
    },
    /// A struct value
    Struct {
        /// The fields that are updated between the structs
        updates: Vec<(String, Diff<P, S>)>,
        /// The fields that are in `from` but not in `to`.
        deletions: Vec<(String, P)>,
        /// The fields that are in `to` but not in `from`.
        insertions: Vec<(String, P)>,
        /// The fields that are unchanged
        unchanged: Vec<String>,
    },
}

/// How similar two values are: the number of unchanged items of a tuple,
/// or the number of unchanged fields of a struct.
pub open spec fn value_closeness<P, S>(v: Value<P, S>) -> int {
    match v {
        Value::Tuple { updates } => updates_closeness(updates),
        Value::Struct { unchanged, .. } => unchanged@.len() as int,
    }
}

/// Whether a value holds no change at all.
pub open spec fn value_is_empty<P, S>(v: Value<P, S>) -> bool {
    match v {
        Value::Tuple { updates } => updates_is_empty(updates),
        Value::Struct { updates, deletions, insertions, .. } =>
            updates@.len() == 0 && deletions@.len() == 0 && insertions@.len() == 0,
    }
}

impl<P, S> Value<P, S> {
    /// Returns a measure of how similar the values are (higher = more similar)
    pub fn closeness(&self) -> (r: usize)
        requires
            value_closeness(*self) <= usize::MAX,
        ensures
            r == value_closeness(*self),
    {
        match self {
            Value::Tuple { updates } => updates.closeness(),
            Value::Struct { unchanged, .. } => unchanged.len(),
        }
    }
}

} // verus!
