//! Color backends for diff rendering.
//!
//! The render code only knows about semantic meanings (deleted, inserted, etc.),
//! and the backend decides how to actually style the text.

use vstd::prelude::*;
use vstd::string::*;

use crate::std_calls::string_push;
use crate::colors::{fg_bg_text, fg_text, paint_fg, paint_fg_bg, Rgb8};

verus! {

/// Semantic color meaning for diff elements.
#[derive(Debug, Clone, Copy, PartialEq, Eq, Structural)]
pub enum SemanticColor {
    /// Deleted content on line background
    Deleted,
    /// Deleted content on highlight background (the actual changed value)
    DeletedHighlight,
    /// Inserted content on line background
    Inserted,
    /// Inserted content on highlight background (the actual changed value)
    InsertedHighlight,
    /// Moved content on line background
    Moved,
    /// Moved content on highlight background
    MovedHighlight,
    /// Key/field name in deleted context (blended toward orange)
    DeletedKey,
    /// Key/field name in inserted context (blended toward blue)
    InsertedKey,
    /// Key/field name in unchanged context
    Key,
    /// Structural element in deleted context
    DeletedStructure,
    /// Structural element in inserted context
    InsertedStructure,
    /// Structural element in unchanged context
    Structure,
    /// Comment/type hint in deleted context
    DeletedComment,
    /// Comment/type hint in inserted context
    InsertedComment,
    /// Comment in unchanged context
    Comment,
    /// String value in deleted context (blended)
    DeletedString,
    /// String value in inserted context (blended)
    InsertedString,
    /// String value in unchanged context
    String,
    /// Number value in deleted context (blended)
    DeletedNumber,
    /// Number value in inserted context (blended)
    InsertedNumber,
    /// Number value in unchanged context
    Number,
    /// Boolean value in deleted context (blended)
    DeletedBoolean,
    /// Boolean value in inserted context (blended)
    InsertedBoolean,
    /// Boolean value in unchanged context
    Boolean,
    /// Null/None value in deleted context (blended)
    DeletedNull,
    /// Null/None value in inserted context (blended)
    InsertedNull,
    /// Null/None value in unchanged context
    Null,
    /// Whitespace, commas, and other separator characters (no highlight background)
    Whitespace,
    /// Unchanged content (neutral)
    Unchanged,
}

/// A backend that decides how to render semantic colors.
pub trait ColorBackend {
    /// The text that styling `text` with `color` produces.
    spec fn spec_styled(&self, text: Seq<char>, color: SemanticColor) -> Seq<char>;

    /// Write styled text to the output.
    fn write_styled(&self, w: &mut String, text: &str, color: SemanticColor)
        ensures
            final(w)@ == old(w)@ + self.spec_styled(text@, color);

    /// Write a diff prefix (-/+/←/→) with appropriate styling.
    fn write_prefix(&self, w: &mut String, prefix: char, color: SemanticColor)
        ensures
            final(w)@ == old(w)@ + self.spec_styled(seq![prefix], color),
    {
        let mut s = String::new();
        string_push(&mut s, prefix);
        proof {
            assert(s@ =~= seq![prefix]);
        }
        self.write_styled(w, s.as_str(), color);
    }
}

/// Plain backend - no styling, just plain text.
///
/// Use this for tests and non-terminal output.
#[derive(Debug, Clone, Copy, Default)]
pub struct PlainBackend;

impl ColorBackend for PlainBackend {
    open spec fn spec_styled(&self, text: Seq<char>, color: SemanticColor) -> Seq<char> {
        text
    }

    fn write_styled(&self, w: &mut String, text: &str, color: SemanticColor) {
        w.append(text);
    }
}

/// The theme color that an ANSI backend writes text in.
#[derive(Debug, Clone, Copy, PartialEq, Eq, Structural)]
pub enum ForegroundSlot {
    /// The deleted accent
    Deleted,
    /// The inserted accent
    Inserted,
    /// The moved accent
    Moved,
    /// Keys on a deleted highlight
    DeletedHighlightKey,
    /// Keys on an inserted highlight
    InsertedHighlightKey,
    /// Keys
    Key,
    /// Structure in deleted context
    DeletedStructure,
    /// Structure in inserted context
    InsertedStructure,
    /// Structure
    Structure,
    /// Comments on a deleted highlight
    DeletedHighlightComment,
    /// Comments on an inserted highlight
    InsertedHighlightComment,
    /// Comments
    Comment,
    /// Strings on a deleted highlight
    DeletedHighlightString,
    /// Strings on an inserted highlight
    InsertedHighlightString,
    /// Strings
    String,
    /// Numbers on a deleted highlight
    DeletedHighlightNumber,
    /// Numbers on an inserted highlight
    InsertedHighlightNumber,
    /// Numbers
    Number,
    /// Booleans on a deleted highlight
    DeletedHighlightBoolean,
    /// Booleans on an inserted highlight
    InsertedHighlightBoolean,
    /// Booleans
    Boolean,
    /// Nulls on a deleted highlight
    DeletedHighlightNull,
    /// Nulls on an inserted highlight
    InsertedHighlightNull,
    /// Nulls
    Null,
    /// Unchanged content
    Unchanged,
}

/// The theme background that an ANSI backend puts behind text.
#[derive(Debug, Clone, Copy, PartialEq, Eq, Structural)]
pub enum BackgroundSlot {
    /// The (desaturated) deleted line background
    DeletedLine,
    /// The (desaturated) deleted highlight background
    DeletedHighlight,
    /// The (desaturated) inserted line background
    InsertedLine,
    /// The (desaturated) inserted highlight background
    InsertedHighlight,
    /// The (desaturated) moved line background
    MovedLine,
    /// The (desaturated) moved highlight background
    MovedHighlight,
}

/// Which foreground and which background (if any) a semantic color takes.
pub open spec fn spec_ansi_slots(color: SemanticColor) -> (ForegroundSlot, Option<BackgroundSlot>) {
    match color {
        SemanticColor::Deleted => (ForegroundSlot::Deleted, Some(BackgroundSlot::DeletedLine)),
        SemanticColor::DeletedHighlight => (ForegroundSlot::Deleted, Some(BackgroundSlot::DeletedHighlight)),
        SemanticColor::Inserted => (ForegroundSlot::Inserted, Some(BackgroundSlot::InsertedLine)),
        SemanticColor::InsertedHighlight => (ForegroundSlot::Inserted, Some(BackgroundSlot::InsertedHighlight)),
        SemanticColor::Moved => (ForegroundSlot::Moved, Some(BackgroundSlot::MovedLine)),
        SemanticColor::MovedHighlight => (ForegroundSlot::Moved, Some(BackgroundSlot::MovedHighlight)),
        SemanticColor::DeletedKey => (ForegroundSlot::DeletedHighlightKey, Some(BackgroundSlot::DeletedHighlight)),
        SemanticColor::InsertedKey => (ForegroundSlot::InsertedHighlightKey, Some(BackgroundSlot::InsertedHighlight)),
        SemanticColor::Key => (ForegroundSlot::Key, None),
        SemanticColor::DeletedStructure => (ForegroundSlot::DeletedStructure, Some(BackgroundSlot::DeletedLine)),
        SemanticColor::InsertedStructure => (ForegroundSlot::InsertedStructure, Some(BackgroundSlot::InsertedLine)),
        SemanticColor::Structure => (ForegroundSlot::Structure, None),
        SemanticColor::DeletedComment => (ForegroundSlot::DeletedHighlightComment, Some(BackgroundSlot::DeletedHighlight)),
        SemanticColor::InsertedComment => (ForegroundSlot::InsertedHighlightComment, Some(BackgroundSlot::InsertedHighlight)),
        SemanticColor::Comment => (ForegroundSlot::Comment, None),
        SemanticColor::DeletedString => (ForegroundSlot::DeletedHighlightString, Some(BackgroundSlot::DeletedHighlight)),
        SemanticColor::InsertedString => (ForegroundSlot::InsertedHighlightString, Some(BackgroundSlot::InsertedHighlight)),
        SemanticColor::String => (ForegroundSlot::String, None),
        SemanticColor::DeletedNumber => (ForegroundSlot::DeletedHighlightNumber, Some(BackgroundSlot::DeletedHighlight)),
        SemanticColor::InsertedNumber => (ForegroundSlot::InsertedHighlightNumber, Some(BackgroundSlot::InsertedHighlight)),
        SemanticColor::Number => (ForegroundSlot::Number, None),
        SemanticColor::DeletedBoolean => (ForegroundSlot::DeletedHighlightBoolean, Some(BackgroundSlot::DeletedHighlight)),
        SemanticColor::InsertedBoolean => (ForegroundSlot::InsertedHighlightBoolean, Some(BackgroundSlot::InsertedHighlight)),
        SemanticColor::Boolean => (ForegroundSlot::Boolean, None),
        SemanticColor::DeletedNull => (ForegroundSlot::DeletedHighlightNull, Some(BackgroundSlot::DeletedHighlight)),
        SemanticColor::InsertedNull => (ForegroundSlot::InsertedHighlightNull, Some(BackgroundSlot::InsertedHighlight)),
        SemanticColor::Null => (ForegroundSlot::Null, None),
        // Whitespace and separators: no background, the muted comment color
        SemanticColor::Whitespace => (ForegroundSlot::Comment, None),
        SemanticColor::Unchanged => (ForegroundSlot::Unchanged, None),
    }
}

/// Which foreground and which background (if any) a semantic color takes.
pub fn ansi_slots(color: SemanticColor) -> (r: (ForegroundSlot, Option<BackgroundSlot>))
    ensures
        r == spec_ansi_slots(color),
{
    match color {
        SemanticColor::Deleted => (ForegroundSlot::Deleted, Some(BackgroundSlot::DeletedLine)),
        SemanticColor::DeletedHighlight => (ForegroundSlot::Deleted, Some(BackgroundSlot::DeletedHighlight)),
        SemanticColor::Inserted => (ForegroundSlot::Inserted, Some(BackgroundSlot::InsertedLine)),
        SemanticColor::InsertedHighlight => (ForegroundSlot::Inserted, Some(BackgroundSlot::InsertedHighlight)),
        SemanticColor::Moved => (ForegroundSlot::Moved, Some(BackgroundSlot::MovedLine)),
        SemanticColor::MovedHighlight => (ForegroundSlot::Moved, Some(BackgroundSlot::MovedHighlight)),
        SemanticColor::DeletedKey => (ForegroundSlot::DeletedHighlightKey, Some(BackgroundSlot::DeletedHighlight)),
        SemanticColor::InsertedKey => (ForegroundSlot::InsertedHighlightKey, Some(BackgroundSlot::InsertedHighlight)),
        SemanticColor::Key => (ForegroundSlot::Key, None),
        SemanticColor::DeletedStructure => (ForegroundSlot::DeletedStructure, Some(BackgroundSlot::DeletedLine)),
        SemanticColor::InsertedStructure => (ForegroundSlot::InsertedStructure, Some(BackgroundSlot::InsertedLine)),
        SemanticColor::Structure => (ForegroundSlot::Structure, None),
        SemanticColor::DeletedComment => (ForegroundSlot::DeletedHighlightComment, Some(BackgroundSlot::DeletedHighlight)),
        SemanticColor::InsertedComment => (ForegroundSlot::InsertedHighlightComment, Some(BackgroundSlot::InsertedHighlight)),
        SemanticColor::Comment => (ForegroundSlot::Comment, None),
        SemanticColor::DeletedString => (ForegroundSlot::DeletedHighlightString, Some(BackgroundSlot::DeletedHighlight)),
        SemanticColor::InsertedString => (ForegroundSlot::InsertedHighlightString, Some(BackgroundSlot::InsertedHighlight)),
        SemanticColor::String => (ForegroundSlot::String, None),
        SemanticColor::DeletedNumber => (ForegroundSlot::DeletedHighlightNumber, Some(BackgroundSlot::DeletedHighlight)),
        SemanticColor::InsertedNumber => (ForegroundSlot::InsertedHighlightNumber, Some(BackgroundSlot::InsertedHighlight)),
        SemanticColor::Number => (ForegroundSlot::Number, None),
        SemanticColor::DeletedBoolean => (ForegroundSlot::DeletedHighlightBoolean, Some(BackgroundSlot::DeletedHighlight)),
        SemanticColor::InsertedBoolean => (ForegroundSlot::InsertedHighlightBoolean, Some(BackgroundSlot::InsertedHighlight)),
        SemanticColor::Boolean => (ForegroundSlot::Boolean, None),
        SemanticColor::DeletedNull => (ForegroundSlot::DeletedHighlightNull, Some(BackgroundSlot::DeletedHighlight)),
        SemanticColor::InsertedNull => (ForegroundSlot::InsertedHighlightNull, Some(BackgroundSlot::InsertedHighlight)),
        SemanticColor::Null => (ForegroundSlot::Null, None),
        SemanticColor::Whitespace => (ForegroundSlot::Comment, None),
        SemanticColor::Unchanged => (ForegroundSlot::Unchanged, None),
    }
}

/// The resolved colors of a theme: one RGB color per foreground slot, and
/// per background slot a color or none (no background).
#[derive(Debug, Clone)]
pub struct AnsiColors {
    /// Foreground colors, indexed by [`ForegroundSlot`] in declaration order
    pub foregrounds: Vec<Rgb8>,
    /// Background colors, indexed by [`BackgroundSlot`] in declaration order
    pub backgrounds: Vec<Option<Rgb8>>,
}

/// The position of a foreground slot in [`AnsiColors::foregrounds`].
pub open spec fn fg_index(s: ForegroundSlot) -> int {
    match s {
        ForegroundSlot::Deleted => 0,
        ForegroundSlot::Inserted => 1,
        ForegroundSlot::Moved => 2,
        ForegroundSlot::DeletedHighlightKey => 3,
        ForegroundSlot::InsertedHighlightKey => 4,
        ForegroundSlot::Key => 5,
        ForegroundSlot::DeletedStructure => 6,
        ForegroundSlot::InsertedStructure => 7,
        ForegroundSlot::Structure => 8,
        ForegroundSlot::DeletedHighlightComment => 9,
        ForegroundSlot::InsertedHighlightComment => 10,
        ForegroundSlot::Comment => 11,
        ForegroundSlot::DeletedHighlightString => 12,
        ForegroundSlot::InsertedHighlightString => 13,
        ForegroundSlot::String => 14,
        ForegroundSlot::DeletedHighlightNumber => 15,
        ForegroundSlot::InsertedHighlightNumber => 16,
        ForegroundSlot::Number => 17,
        ForegroundSlot::DeletedHighlightBoolean => 18,
        ForegroundSlot::InsertedHighlightBoolean => 19,
        ForegroundSlot::Boolean => 20,
        ForegroundSlot::DeletedHighlightNull => 21,
        ForegroundSlot::InsertedHighlightNull => 22,
        ForegroundSlot::Null => 23,
        ForegroundSlot::Unchanged => 24,
    }
}

/// The position of a background slot in [`AnsiColors::backgrounds`].
pub open spec fn bg_index(s: BackgroundSlot) -> int {
    match s {
        BackgroundSlot::DeletedLine => 0,
        BackgroundSlot::DeletedHighlight => 1,
        BackgroundSlot::InsertedLine => 2,
        BackgroundSlot::InsertedHighlight => 3,
        BackgroundSlot::MovedLine => 4,
        BackgroundSlot::MovedHighlight => 5,
    }
}

/// The position of a foreground slot.
fn fg_position(s: ForegroundSlot) -> (r: usize)
    ensures
        r == fg_index(s),
{
    match s {
        ForegroundSlot::Deleted => 0,
        ForegroundSlot::Inserted => 1,
        ForegroundSlot::Moved => 2,
        ForegroundSlot::DeletedHighlightKey => 3,
        ForegroundSlot::InsertedHighlightKey => 4,
        ForegroundSlot::Key => 5,
        ForegroundSlot::DeletedStructure => 6,
        ForegroundSlot::InsertedStructure => 7,
        ForegroundSlot::Structure => 8,
        ForegroundSlot::DeletedHighlightComment => 9,
        ForegroundSlot::InsertedHighlightComment => 10,
        ForegroundSlot::Comment => 11,
        ForegroundSlot::DeletedHighlightString => 12,
        ForegroundSlot::InsertedHighlightString => 13,
        ForegroundSlot::String => 14,
        ForegroundSlot::DeletedHighlightNumber => 15,
        ForegroundSlot::InsertedHighlightNumber => 16,
        ForegroundSlot::Number => 17,
        ForegroundSlot::DeletedHighlightBoolean => 18,
        ForegroundSlot::InsertedHighlightBoolean => 19,
        ForegroundSlot::Boolean => 20,
        ForegroundSlot::DeletedHighlightNull => 21,
        ForegroundSlot::InsertedHighlightNull => 22,
        ForegroundSlot::Null => 23,
        ForegroundSlot::Unchanged => 24,
    }
}

/// The position of a background slot.
fn bg_position(s: BackgroundSlot) -> (r: usize)
    ensures
        r == bg_index(s),
{
    match s {
        BackgroundSlot::DeletedLine => 0,
        BackgroundSlot::DeletedHighlight => 1,
        BackgroundSlot::InsertedLine => 2,
        BackgroundSlot::InsertedHighlight => 3,
        BackgroundSlot::MovedLine => 4,
        BackgroundSlot::MovedHighlight => 5,
    }
}

/// ANSI backend - emits ANSI escape codes for terminal colors.
///
/// Use this for terminal output with a color theme.
#[derive(Debug)]
pub struct AnsiBackend {
    colors: AnsiColors,
}

impl AnsiBackend {
    /// Whether the backend holds a color for every slot.
    pub closed spec fn complete(&self) -> bool {
        &&& self.colors.foregrounds@.len() == 25
        &&& self.colors.backgrounds@.len() == 6
    }

    /// Every backend holds a color for every slot.
    #[verifier::type_invariant]
    spec fn holds_every_slot(self) -> bool {
        self.complete()
    }

    /// The foreground color of a slot.
    pub closed spec fn fg(&self, s: ForegroundSlot) -> Rgb8 {
        self.colors.foregrounds@[fg_index(s)]
    }

    /// The background color of a slot, if the theme has one.
    pub closed spec fn bg(&self, s: BackgroundSlot) -> Option<Rgb8> {
        self.colors.backgrounds@[bg_index(s)]
    }

    /// Create a new ANSI backend with the resolved colors of a theme:
    /// `None` when there is not a color for every slot.
    pub fn new(colors: AnsiColors) -> (r: Option<Self>)
        ensures
            r is Some <==> (colors.foregrounds@.len() == 25 && colors.backgrounds@.len() == 6),
            r matches Some(b) ==> {
                &&& b.complete()
                &&& forall|s: ForegroundSlot| #[trigger] b.fg(s) == colors.foregrounds@[fg_index(s)]
                &&& forall|s: BackgroundSlot| #[trigger] b.bg(s) == colors.backgrounds@[bg_index(s)]
            },
    {
        if colors.foregrounds.len() == 25 && colors.backgrounds.len() == 6 {
            Some(AnsiBackend { colors })
        } else {
            None
        }
    }
}

/// A copy of a list of colors.
fn copy_colors<T: Copy>(v: &Vec<T>) -> (r: Vec<T>)
    ensures
        r@ == v@,
{
    let mut out: Vec<T> = Vec::new();
    let mut i: usize = 0;
    while i < v.len()
        invariant
            i <= v@.len(),
            out@ == v@.subrange(0, i as int),
        decreases v@.len() - i,
    {
        out.push(v[i]);
        i = i + 1;
        proof {
            assert(out@ =~= v@.subrange(0, i as int));
        }
    }
    proof {
        assert(out@ =~= v@);
    }
    out
}

impl Clone for AnsiBackend {
    fn clone(&self) -> (r: Self)
        ensures
            r.complete(),
            forall|s: ForegroundSlot| #[trigger] r.fg(s) == self.fg(s),
            forall|s: BackgroundSlot| #[trigger] r.bg(s) == self.bg(s),
    {
        proof {
            use_type_invariant(self);
        }
        AnsiBackend {
            colors: AnsiColors {
                foregrounds: copy_colors(&self.colors.foregrounds),
                backgrounds: copy_colors(&self.colors.backgrounds),
            },
        }
    }
}

impl ColorBackend for AnsiBackend {
    open spec fn spec_styled(&self, text: Seq<char>, color: SemanticColor) -> Seq<char> {
        let (f, b) = spec_ansi_slots(color);
        let bg = match b {
            Some(s) => self.bg(s),
            None => None,
        };
        match bg {
            Some(bg) => fg_bg_text(text, self.fg(f), bg),
            None => fg_text(text, self.fg(f)),
        }
    }

    fn write_styled(&self, w: &mut String, text: &str, color: SemanticColor) {
        proof {
            use_type_invariant(self);
        }
        let (f, b) = ansi_slots(color);
        let fg = self.colors.foregrounds[fg_position(f)];
        let bg = match b {
            Some(s) => self.colors.backgrounds[bg_position(s)],
            None => None,
        };
        let styled = match bg {
            Some(bg) => paint_fg_bg(text, fg, bg),
            None => paint_fg(text, fg),
        };
        w.append(styled.as_str());
    }
}

} // verus!
