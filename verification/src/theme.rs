//! Color themes for diff rendering.

use vstd::prelude::*;

use crate::colors::Rgb8;
use crate::symbols::ChangeKind;

verus! {

/// Color theme for diff rendering.
///
/// Defines colors for different kinds of changes. The default uses
/// colorblind-friendly yellow/blue with type-specific value colors.
#[derive(Debug, Clone, Copy)]
pub struct DiffTheme {
    /// Foreground color for deleted content (accent color)
    pub deleted: Rgb8,
    /// Foreground color for inserted content (accent color)
    pub inserted: Rgb8,
    /// Foreground color for moved content (accent color)
    pub moved: Rgb8,
    /// Foreground color for unchanged content
    pub unchanged: Rgb8,
    /// Foreground color for keys/field names
    pub key: Rgb8,
    /// Foreground color for structural elements like braces, brackets
    pub structure: Rgb8,
    /// Foreground color for comments and type hints
    pub comment: Rgb8,
    /// Base color for string values
    pub string: Rgb8,
    /// Base color for numeric values (integers, floats)
    pub number: Rgb8,
    /// Base color for boolean values
    pub boolean: Rgb8,
    /// Base color for null/None values
    pub null: Rgb8,
    /// Subtle background for deleted lines (None = no background)
    pub deleted_line_bg: Option<Rgb8>,
    /// Stronger background highlight for changed values on deleted lines
    pub deleted_highlight_bg: Option<Rgb8>,
    /// Subtle background for inserted lines (None = no background)
    pub inserted_line_bg: Option<Rgb8>,
    /// Stronger background highlight for changed values on inserted lines
    pub inserted_highlight_bg: Option<Rgb8>,
    /// Subtle background for moved lines (None = no background)
    pub moved_line_bg: Option<Rgb8>,
    /// Stronger background highlight for changed values on moved lines
    pub moved_highlight_bg: Option<Rgb8>,
}

/// Colorblind-friendly theme - orange vs blue. No backgrounds.
pub open spec fn colorblind_orange_blue_theme() -> DiffTheme {
    DiffTheme {
        deleted: (255, 167, 89),
        inserted: (97, 175, 239),
        moved: (198, 120, 221),
        unchanged: (140, 140, 140),
        key: (140, 140, 140),
        structure: (220, 220, 220),
        comment: (100, 100, 100),
        string: (152, 195, 121),
        number: (209, 154, 102),
        boolean: (209, 154, 102),
        null: (86, 182, 194),
        deleted_line_bg: None,
        deleted_highlight_bg: None,
        inserted_line_bg: None,
        inserted_highlight_bg: None,
        moved_line_bg: None,
        moved_highlight_bg: None,
    }
}

/// Colorblind-friendly with line and highlight backgrounds (yellow/blue).
pub open spec fn colorblind_with_bg_theme() -> DiffTheme {
    DiffTheme {
        deleted: (229, 192, 123),
        inserted: (97, 175, 239),
        moved: (198, 120, 221),
        unchanged: (140, 140, 140),
        key: (140, 140, 140),
        structure: (220, 220, 220),
        comment: (100, 100, 100),
        string: (152, 195, 121),
        number: (209, 154, 102),
        boolean: (209, 154, 102),
        null: (86, 182, 194),
        deleted_line_bg: Some((55, 48, 35)),
        deleted_highlight_bg: Some((90, 75, 50)),
        inserted_line_bg: Some((35, 48, 60)),
        inserted_highlight_bg: Some((45, 70, 95)),
        moved_line_bg: Some((50, 40, 60)),
        moved_highlight_bg: Some((80, 55, 95)),
    }
}

/// Pastel color theme - soft but distinguishable (not colorblind-friendly).
pub open spec fn pastel_theme() -> DiffTheme {
    DiffTheme {
        deleted: (255, 138, 128),
        inserted: (128, 203, 156),
        moved: (128, 179, 255),
        unchanged: (140, 140, 140),
        key: (140, 140, 140),
        structure: (220, 220, 220),
        comment: (100, 100, 100),
        string: (152, 195, 121),
        number: (209, 154, 102),
        boolean: (209, 154, 102),
        null: (86, 182, 194),
        deleted_line_bg: None,
        deleted_highlight_bg: None,
        inserted_line_bg: None,
        inserted_highlight_bg: None,
        moved_line_bg: None,
        moved_highlight_bg: None,
    }
}

/// One Dark Pro color theme.
pub open spec fn one_dark_pro_theme() -> DiffTheme {
    DiffTheme {
        deleted: (224, 108, 117),
        inserted: (152, 195, 121),
        moved: (97, 175, 239),
        unchanged: (171, 178, 191),
        key: (171, 178, 191),
        structure: (171, 178, 191),
        comment: (92, 99, 112),
        string: (152, 195, 121),
        number: (209, 154, 102),
        boolean: (209, 154, 102),
        null: (86, 182, 194),
        deleted_line_bg: None,
        deleted_highlight_bg: None,
        inserted_line_bg: None,
        inserted_highlight_bg: None,
        moved_line_bg: None,
        moved_highlight_bg: None,
    }
}

/// Tokyo Night color theme.
pub open spec fn tokyo_night_theme() -> DiffTheme {
    DiffTheme {
        deleted: (247, 118, 142),
        inserted: (158, 206, 106),
        moved: (122, 162, 247),
        unchanged: (192, 202, 245),
        key: (192, 202, 245),
        structure: (192, 202, 245),
        comment: (86, 95, 137),
        string: (158, 206, 106),
        number: (255, 158, 100),
        boolean: (255, 158, 100),
        null: (125, 207, 255),
        deleted_line_bg: None,
        deleted_highlight_bg: None,
        inserted_line_bg: None,
        inserted_highlight_bg: None,
        moved_line_bg: None,
        moved_highlight_bg: None,
    }
}

impl DiffTheme {
    /// Colorblind-friendly theme - orange vs blue. No backgrounds.
    pub fn colorblind_orange_blue() -> (r: Self)
        ensures
            r == colorblind_orange_blue_theme(),
    {
        DiffTheme {
            deleted: (255, 167, 89),
            inserted: (97, 175, 239),
            moved: (198, 120, 221),
            unchanged: (140, 140, 140),
            key: (140, 140, 140),
            structure: (220, 220, 220),
            comment: (100, 100, 100),
            string: (152, 195, 121),
            number: (209, 154, 102),
            boolean: (209, 154, 102),
            null: (86, 182, 194),
            deleted_line_bg: None,
            deleted_highlight_bg: None,
            inserted_line_bg: None,
            inserted_highlight_bg: None,
            moved_line_bg: None,
            moved_highlight_bg: None,
        }
    }

    /// Colorblind-friendly with line and highlight backgrounds (yellow/blue).
    pub fn colorblind_with_bg() -> (r: Self)
        ensures
            r == colorblind_with_bg_theme(),
    {
        DiffTheme {
            deleted: (229, 192, 123),
            inserted: (97, 175, 239),
            moved: (198, 120, 221),
            unchanged: (140, 140, 140),
            key: (140, 140, 140),
            structure: (220, 220, 220),
            comment: (100, 100, 100),
            string: (152, 195, 121),
            number: (209, 154, 102),
            boolean: (209, 154, 102),
            null: (86, 182, 194),
            deleted_line_bg: Some((55, 48, 35)),
            deleted_highlight_bg: Some((90, 75, 50)),
            inserted_line_bg: Some((35, 48, 60)),
            inserted_highlight_bg: Some((45, 70, 95)),
            moved_line_bg: Some((50, 40, 60)),
            moved_highlight_bg: Some((80, 55, 95)),
        }
    }

    /// Pastel color theme - soft but distinguishable (not colorblind-friendly).
    pub fn pastel() -> (r: Self)
        ensures
            r == pastel_theme(),
    {
        DiffTheme {
            deleted: (255, 138, 128),
            inserted: (128, 203, 156),
            moved: (128, 179, 255),
            unchanged: (140, 140, 140),
            key: (140, 140, 140),
            structure: (220, 220, 220),
            comment: (100, 100, 100),
            string: (152, 195, 121),
            number: (209, 154, 102),
            boolean: (209, 154, 102),
            null: (86, 182, 194),
            deleted_line_bg: None,
            deleted_highlight_bg: None,
            inserted_line_bg: None,
            inserted_highlight_bg: None,
            moved_line_bg: None,
            moved_highlight_bg: None,
        }
    }

    /// One Dark Pro color theme.
    pub fn one_dark_pro() -> (r: Self)
        ensures
            r == one_dark_pro_theme(),
    {
        DiffTheme {
            deleted: (224, 108, 117),
            inserted: (152, 195, 121),
            moved: (97, 175, 239),
            unchanged: (171, 178, 191),
            key: (171, 178, 191),
            structure: (171, 178, 191),
            comment: (92, 99, 112),
            string: (152, 195, 121),
            number: (209, 154, 102),
            boolean: (209, 154, 102),
            null: (86, 182, 194),
            deleted_line_bg: None,
            deleted_highlight_bg: None,
            inserted_line_bg: None,
            inserted_highlight_bg: None,
            moved_line_bg: None,
            moved_highlight_bg: None,
        }
    }

    /// Tokyo Night color theme.
    pub fn tokyo_night() -> (r: Self)
        ensures
            r == tokyo_night_theme(),
    {
        DiffTheme {
            deleted: (247, 118, 142),
            inserted: (158, 206, 106),
            moved: (122, 162, 247),
            unchanged: (192, 202, 245),
            key: (192, 202, 245),
            structure: (192, 202, 245),
            comment: (86, 95, 137),
            string: (158, 206, 106),
            number: (255, 158, 100),
            boolean: (255, 158, 100),
            null: (125, 207, 255),
            deleted_line_bg: None,
            deleted_highlight_bg: None,
            inserted_line_bg: None,
            inserted_highlight_bg: None,
            moved_line_bg: None,
            moved_highlight_bg: None,
        }
    }

    /// Get the color for a change kind: the old value of a modification
    /// takes the deleted color, both ends of a move the moved color.
    pub fn color_for(&self, kind: ChangeKind) -> (r: Rgb8)
        ensures
            r == (match kind {
                ChangeKind::Unchanged => self.unchanged,
                ChangeKind::Deleted => self.deleted,
                ChangeKind::Inserted => self.inserted,
                ChangeKind::MovedFrom | ChangeKind::MovedTo => self.moved,
                ChangeKind::Modified => self.deleted,
            }),
    {
        match kind {
            ChangeKind::Unchanged => self.unchanged,
            ChangeKind::Deleted => self.deleted,
            ChangeKind::Inserted => self.inserted,
            ChangeKind::MovedFrom | ChangeKind::MovedTo => self.moved,
            // The old value gets the deleted color
            ChangeKind::Modified => self.deleted,
        }
    }
}

impl Default for DiffTheme {
    fn default() -> (r: Self)
        ensures
            r == colorblind_with_bg_theme(),
    {
        Self::colorblind_with_bg()
    }
}

} // verus!
