//! Symbols used for diff rendering.

use vstd::prelude::*;

verus! {

/// Symbols for diff rendering.
///
/// These are the prefixes shown before lines/elements to indicate
/// what kind of change occurred.
#[derive(Debug, Clone)]
pub struct DiffSymbols {
    /// Symbol for deleted content (default: "-")
    pub deleted: &'static str,
    /// Symbol for inserted content (default: "+")
    pub inserted: &'static str,
    /// Symbol for content moved from this position (default: "←")
    pub moved_from: &'static str,
    /// Symbol for content moved to this position (default: "→")
    pub moved_to: &'static str,
}

/// The standard symbols: `-`, `+`, `←`, `→`.
pub open spec fn standard_symbols(s: DiffSymbols) -> bool {
    &&& s.deleted@ =~= seq!['-']
    &&& s.inserted@ =~= seq!['+']
    &&& s.moved_from@ =~= seq!['\u{2190}']
    &&& s.moved_to@ =~= seq!['\u{2192}']
}

impl DiffSymbols {
    /// Standard diff symbols using `-`, `+`, `←`, `→`.
    pub fn standard() -> (s: Self)
        ensures
            standard_symbols(s),
            s.deleted@ == seq!['-'],
            s.inserted@ == seq!['+'],
            s.moved_from@ == seq!['\u{2190}'],
            s.moved_to@ == seq!['\u{2192}'],
    {
        proof {
            reveal_strlit("-");
            reveal_strlit("+");
            reveal_strlit("\u{2190}");
            reveal_strlit("\u{2192}");
        }
        DiffSymbols { deleted: "-", inserted: "+", moved_from: "\u{2190}", moved_to: "\u{2192}" }
    }

    /// ASCII-only symbols (for terminals that don't support Unicode).
    pub fn ascii() -> (s: Self)
        ensures
            s.deleted@ == seq!['-'],
            s.inserted@ == seq!['+'],
            s.moved_from@ == seq!['<', '-'],
            s.moved_to@ == seq!['-', '>'],
    {
        proof {
            reveal_strlit("-");
            reveal_strlit("+");
            reveal_strlit("<-");
            reveal_strlit("->");
        }
        DiffSymbols { deleted: "-", inserted: "+", moved_from: "<-", moved_to: "->" }
    }
}

impl Default for DiffSymbols {
    fn default() -> (s: Self)
        ensures
            s.deleted@ == seq!['-'],
            s.inserted@ == seq!['+'],
            s.moved_from@ == seq!['\u{2190}'],
            s.moved_to@ == seq!['\u{2192}'],
    {
        Self::standard()
    }
}

/// The kind of change for a diff element.
#[derive(Debug, Clone, Copy, PartialEq, Eq, Structural)]
pub enum ChangeKind {
    /// Content is unchanged
    Unchanged,
    /// Content was deleted (exists in old, not in new)
    Deleted,
    /// Content was inserted (exists in new, not in old)
    Inserted,
    /// Content was moved from this position to elsewhere
    MovedFrom,
    /// Content was moved to this position from elsewhere
    MovedTo,
    /// Content was modified (value changed)
    Modified,
}

impl ChangeKind {
    /// Get the symbol for this change kind.
    pub fn symbol(self, symbols: &DiffSymbols) -> (r: Option<&'static str>)
        ensures
            r == (match self {
                ChangeKind::Unchanged => None,
                ChangeKind::Deleted | ChangeKind::Modified => Some(symbols.deleted),
                ChangeKind::Inserted => Some(symbols.inserted),
                ChangeKind::MovedFrom => Some(symbols.moved_from),
                ChangeKind::MovedTo => Some(symbols.moved_to),
            }),
    {
        match self {
            ChangeKind::Unchanged => None,
            ChangeKind::Deleted | ChangeKind::Modified => Some(symbols.deleted),
            ChangeKind::Inserted => Some(symbols.inserted),
            ChangeKind::MovedFrom => Some(symbols.moved_from),
            ChangeKind::MovedTo => Some(symbols.moved_to),
        }
    }

    /// Returns true if this change should be highlighted (not unchanged).
    pub fn is_changed(self) -> (r: bool)
        ensures
            r == !(self is Unchanged),
    {
        !matches!(self, ChangeKind::Unchanged)
    }
}

} // verus!
