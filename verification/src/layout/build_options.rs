//! Options for building a layout from a diff.

use vstd::prelude::*;

verus! {

/// Options for building a layout from a diff.
#[derive(Clone, Debug)]
pub struct BuildOptions {
    /// Maximum line width for attribute grouping.
    pub max_line_width: usize,
    /// Maximum number of unchanged fields to show inline.
    /// If more than this many unchanged fields exist, collapse to "N unchanged".
    pub max_unchanged_fields: usize,
    /// Minimum run length to collapse unchanged sequence elements.
    pub collapse_threshold: usize,
    /// Precision for formatting floating-point numbers.
    /// If set, floats are formatted with this many decimal places.
    /// Useful when using float tolerance in comparisons.
    pub float_precision: Option<usize>,
}

impl Default for BuildOptions {
    fn default() -> (r: Self)
        ensures
            r.max_line_width == 80,
            r.max_unchanged_fields == 5,
            r.collapse_threshold == 3,
            r.float_precision is None,
    {
        BuildOptions { max_line_width: 80, max_unchanged_fields: 5, collapse_threshold: 3, float_precision: None }
    }
}

impl BuildOptions {
    /// Set the float precision for formatting.
    ///
    /// When set, all floating-point numbers will be formatted with this many
    /// decimal places. This is useful when using float tolerance in comparisons
    /// to ensure the display matches the tolerance level.
    pub fn with_float_precision(self, precision: usize) -> (r: Self)
        ensures
            r.float_precision == Some(precision),
            r.max_line_width == self.max_line_width,
            r.max_unchanged_fields == self.max_unchanged_fields,
            r.collapse_threshold == self.collapse_threshold,
    {
        BuildOptions { float_precision: Some(precision), ..self }
    }
}

} // verus!
