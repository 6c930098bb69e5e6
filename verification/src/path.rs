//! Path types for navigating diff trees.

use vstd::prelude::*;
use vstd::string::*;

use crate::std_calls::{debug_quoted, str_debug};
use crate::text::{decimal, usize_to_decimal};

verus! {

/// A path segment describing how to reach a child.
#[derive(Debug, Clone, PartialEq, Eq, Hash)]
pub enum PathSegment {
    /// A named field in a struct
    Field(String),
    /// An index in a list/array
    Index(usize),
    /// A key in a map
    Key(String),
    /// An enum variant
    Variant(String),
}

/// The model of a path segment: its kind and its text or index.
pub enum SegmentModel {
    /// A named field
    Field(Seq<char>),
    /// An index
    Index(usize),
    /// A map key
    Key(Seq<char>),
    /// An enum variant
    Variant(Seq<char>),
}

impl View for PathSegment {
    type V = SegmentModel;

    open spec fn view(&self) -> SegmentModel {
        match self {
            PathSegment::Field(s) => SegmentModel::Field(s@),
            PathSegment::Index(i) => SegmentModel::Index(*i),
            PathSegment::Key(s) => SegmentModel::Key(s@),
            PathSegment::Variant(s) => SegmentModel::Variant(s@),
        }
    }
}

impl PathSegment {
    /// A copy of this segment.
    pub fn duplicate(&self) -> (r: Self)
        ensures
            r@ == self@,
    {
        match self {
            PathSegment::Field(s) => PathSegment::Field(s.clone()),
            PathSegment::Index(i) => PathSegment::Index(*i),
            PathSegment::Key(s) => PathSegment::Key(s.clone()),
            PathSegment::Variant(s) => PathSegment::Variant(s.clone()),
        }
    }
}

/// A path from root to a node.
#[derive(Debug, Clone, PartialEq, Eq, Default, Hash)]
pub struct Path(pub Vec<PathSegment>);

impl View for Path {
    type V = Seq<SegmentModel>;

    open spec fn view(&self) -> Seq<SegmentModel> {
        self.0@.map_values(|s: PathSegment| s@)
    }
}

/// How segment `i` of a path reads: fields and indices after a dot (except
/// at the start), keys quoted in brackets, variants after `::`.
pub open spec fn segment_text(seg: SegmentModel, i: int) -> Seq<char> {
    let dot = if i > 0 { seq!['.'] } else { Seq::empty() };
    match seg {
        SegmentModel::Field(name) => dot + name,
        SegmentModel::Index(idx) => dot + decimal(idx as nat),
        SegmentModel::Key(key) => seq!['['] + str_debug(key) + seq![']'],
        SegmentModel::Variant(name) => seq![':', ':'] + name,
    }
}

/// How the first `k` segments of a path read.
pub open spec fn path_text(segs: Seq<SegmentModel>, k: int) -> Seq<char>
    decreases k,
{
    if k <= 0 {
        Seq::empty()
    } else {
        path_text(segs, k - 1) + segment_text(segs[k - 1], k - 1)
    }
}

/// Extending a path extends its text by the new segment's text, and the
/// text of the segments already there does not change.
pub proof fn lemma_path_text_push(segs: Seq<SegmentModel>, seg: SegmentModel)
    ensures
        path_text(segs.push(seg), segs.len() + 1int) == path_text(segs, segs.len() as int) + segment_text(seg, segs.len() as int),
{
    lemma_path_text_prefix(segs, segs.push(seg), segs.len() as int);
}

/// The text of the first `k` segments depends on those segments only.
proof fn lemma_path_text_prefix(a: Seq<SegmentModel>, b: Seq<SegmentModel>, k: int)
    requires
        0 <= k <= a.len(),
        k <= b.len(),
        forall|i: int| 0 <= i < k ==> a[i] == b[i],
    ensures
        path_text(a, k) == path_text(b, k),
    decreases k,
{
    if k > 0 {
        lemma_path_text_prefix(a, b, k - 1);
    }
}

impl Path {
    /// Create a new empty path.
    pub fn new() -> (p: Self)
        ensures
            p@ == Seq::<SegmentModel>::empty(),
    {
        let p = Path(Vec::new());
        proof {
            assert(p@ =~= Seq::<SegmentModel>::empty());
        }
        p
    }

    /// Append a segment to this path.
    pub fn push(&mut self, segment: PathSegment)
        ensures
            final(self)@ == old(self)@.push(segment@),
    {
        self.0.push(segment);
        proof {
            assert(self@ =~= old(self)@.push(segment@));
        }
    }

    /// Create a new path with an additional segment.
    pub fn with(&self, segment: PathSegment) -> (p: Self)
        ensures
            p@ == self@.push(segment@),
    {
        let mut new = self.duplicate();
        new.push(segment);
        new
    }

    /// A copy of this path.
    pub fn duplicate(&self) -> (p: Self)
        ensures
            p@ == self@,
    {
        let mut segs: Vec<PathSegment> = Vec::new();
        let mut i: usize = 0;
        while i < self.0.len()
            invariant
                i <= self.0@.len(),
                segs@.len() == i,
                forall|j: int| 0 <= j < i ==> (#[trigger] segs@[j])@ == self.0@[j]@,
            decreases self.0@.len() - i,
        {
            segs.push(self.0[i].duplicate());
            i = i + 1;
        }
        let p = Path(segs);
        proof {
            assert(p@ =~= self@);
        }
        p
    }

    /// The path as text, such as `items.2.name`, `::Some` or `["key"]`.
    pub fn to_display_string(&self) -> (r: String)
        ensures
            r@ == path_text(self@, self@.len() as int),
    {
        let mut out = String::new();
        let mut i: usize = 0;
        while i < self.0.len()
            invariant
                i <= self.0@.len(),
                out@ == path_text(self@, i as int),
            decreases self.0@.len() - i,
        {
            let ghost before = out@;
            match &self.0[i] {
                PathSegment::Field(name) => {
                    if i > 0 {
                        out.append(".");
                    }
                    out.append(name.as_str());
                },
                PathSegment::Index(idx) => {
                    if i > 0 {
                        out.append(".");
                    }
                    let digits = usize_to_decimal(*idx);
                    out.append(digits.as_str());
                },
                PathSegment::Key(key) => {
                    out.append("[");
                    let quoted = debug_quoted(key.as_str());
                    out.append(quoted.as_str());
                    out.append("]");
                },
                PathSegment::Variant(name) => {
                    out.append("::");
                    out.append(name.as_str());
                },
            }
            proof {
                reveal_strlit(".");
                reveal_strlit("[");
                reveal_strlit("]");
                reveal_strlit("::");
                assert(out@ =~= before + segment_text(self@[i as int], i as int));
            }
            i = i + 1;
        }
        out
    }
}

} // verus!
