//! Attribute types and grouping algorithms.

use vstd::prelude::*;

use super::arena::Span;

verus! {

/// Type of a formatted value for color selection.
#[derive(Debug, Clone, Copy, PartialEq, Eq, Default, Structural)]
pub enum ValueType {
    /// String type (green-based colors)
    String,
    /// Numeric type (orange-based colors)
    Number,
    /// Boolean type (orange-based colors)
    Boolean,
    /// Null/None type (cyan-based colors)
    Null,
    /// Other/unknown types (use accent color)
    #[default]
    Other,
}

/// A pre-formatted value with its measurements.
#[derive(Copy, Clone, Debug, Default)]
pub struct FormattedValue {
    /// Span into the FormatArena (the formatted, escaped value)
    pub span: Span,
    /// Display width of the value (unicode-aware)
    pub width: usize,
    /// Type of the value for color selection
    pub value_type: ValueType,
}

impl FormattedValue {
    /// Create a new formatted value with unknown type.
    pub fn new(span: Span, width: usize) -> (r: Self)
        ensures
            r == (FormattedValue { span, width, value_type: ValueType::Other }),
    {
        FormattedValue { span, width, value_type: ValueType::Other }
    }

    /// Create a new formatted value with a specific type.
    pub fn with_type(span: Span, width: usize, value_type: ValueType) -> (r: Self)
        ensures
            r == (FormattedValue { span, width, value_type }),
    {
        FormattedValue { span, width, value_type }
    }
}

/// The change status of an attribute.
#[derive(Clone, Copy, Debug)]
pub enum AttrStatus {
    /// Unchanged (shown dimmed)
    Unchanged {
        /// The unchanged value
        value: FormattedValue,
    },
    /// Changed (shown as -/+ line pair)
    Changed {
        /// The old value (before)
        old: FormattedValue,
        /// The new value (after)
        new: FormattedValue,
    },
    /// Deleted (only in old, shown with - prefix)
    Deleted {
        /// The deleted value
        value: FormattedValue,
    },
    /// Inserted (only in new, shown with + prefix)
    Inserted {
        /// The inserted value
        value: FormattedValue,
    },
}

/// A single attribute with its formatting info.
#[derive(Debug)]
pub struct Attr {
    /// Attribute name
    pub name: String,
    /// Display width of the name
    pub name_width: usize,
    /// Change status with formatted values
    pub status: AttrStatus,
}

/// The width of the value column of a status: the wider of old and new for a change.
pub open spec fn status_value_width(status: AttrStatus) -> int {
    match status {
        AttrStatus::Unchanged { value } => value.width as int,
        AttrStatus::Changed { old, new } => if old.width >= new.width {
            old.width as int
        } else {
            new.width as int
        },
        AttrStatus::Deleted { value } => value.width as int,
        AttrStatus::Inserted { value } => value.width as int,
    }
}

/// Width of `name="value"`: the name, `="`, the value and the closing `"`.
pub open spec fn attr_line_width(attr: Attr) -> int {
    attr.name_width + 2 + status_value_width(attr.status) + 1
}

/// Whether an attribute is changed (and so needs a -/+ line pair).
pub open spec fn attr_is_changed(attr: Attr) -> bool {
    attr.status is Changed
}

impl Attr {
    /// Clone an attribute (its name is copied).
    pub fn clone_attr(&self) -> (r: Self)
        ensures
            r@ == self@,
    {
        Attr { name: self.name.clone(), name_width: self.name_width, status: self.status }
    }

    /// Create an unchanged attribute.
    pub fn unchanged(name: &str, name_width: usize, value: FormattedValue) -> (r: Self)
        ensures
            r.name@ == name@,
            r.name_width == name_width,
            r.status == (AttrStatus::Unchanged { value }),
    {
        Attr { name: name.to_owned(), name_width, status: AttrStatus::Unchanged { value } }
    }

    /// Create a changed attribute.
    pub fn changed(name: &str, name_width: usize, old: FormattedValue, new: FormattedValue) -> (r: Self)
        ensures
            r.name@ == name@,
            r.name_width == name_width,
            r.status == (AttrStatus::Changed { old, new }),
    {
        Attr { name: name.to_owned(), name_width, status: AttrStatus::Changed { old, new } }
    }

    /// Create a deleted attribute.
    pub fn deleted(name: &str, name_width: usize, value: FormattedValue) -> (r: Self)
        ensures
            r.name@ == name@,
            r.name_width == name_width,
            r.status == (AttrStatus::Deleted { value }),
    {
        Attr { name: name.to_owned(), name_width, status: AttrStatus::Deleted { value } }
    }

    /// Create an inserted attribute.
    pub fn inserted(name: &str, name_width: usize, value: FormattedValue) -> (r: Self)
        ensures
            r.name@ == name@,
            r.name_width == name_width,
            r.status == (AttrStatus::Inserted { value }),
    {
        Attr { name: name.to_owned(), name_width, status: AttrStatus::Inserted { value } }
    }

    /// Check if this attribute is changed (needs -/+ lines).
    pub fn is_changed(&self) -> (r: bool)
        ensures
            r == attr_is_changed(*self),
    {
        matches!(self.status, AttrStatus::Changed { .. })
    }

    /// Get the width this attribute takes on a line.
    /// Format: `name="value"` -> name_width + 2 (for =") + value_width + 1 (closing ")
    pub fn line_width(&self) -> (r: usize)
        requires
            attr_line_width(*self) <= usize::MAX,
        ensures
            r == attr_line_width(*self),
    {
        let value_width = match &self.status {
            AttrStatus::Unchanged { value } => value.width,
            AttrStatus::Changed { old, new } => if old.width >= new.width {
                old.width
            } else {
                new.width
            },
            AttrStatus::Deleted { value } => value.width,
            AttrStatus::Inserted { value } => value.width,
        };
        self.name_width + 2 + value_width + 1
    }
}

/// The model of an attribute: its name's characters, name width and status.
pub struct AttrModel {
    /// The name's characters
    pub name: Seq<char>,
    /// Display width of the name
    pub name_width: usize,
    /// Change status
    pub status: AttrStatus,
}

impl View for Attr {
    type V = AttrModel;

    open spec fn view(&self) -> AttrModel {
        AttrModel { name: self.name@, name_width: self.name_width, status: self.status }
    }
}

/// A group of changed attributes that fit on one -/+ line pair.
///
/// Attributes in a group are aligned vertically:
/// ```text
/// - fill="red"   x="10"
/// + fill="blue"  x="20"
/// ```
#[derive(Debug)]
pub struct ChangedGroup {
    /// Indices into the parent's attrs vec
    pub attr_indices: Vec<usize>,
    /// Max name width in this group (for alignment)
    pub max_name_width: usize,
    /// Max old value width in this group (for alignment)
    pub max_old_width: usize,
    /// Max new value width in this group (for alignment)
    pub max_new_width: usize,
}

/// Largest name width among the attributes at `idxs` (0 when there are none).
pub open spec fn max_name_of(attrs: Seq<Attr>, idxs: Seq<usize>) -> usize
    decreases idxs.len(),
{
    if idxs.len() == 0 {
        0
    } else {
        let prev = max_name_of(attrs, idxs.drop_last());
        let w = attrs[idxs.last() as int].name_width;
        if prev >= w { prev } else { w }
    }
}

/// Largest old-value width among the changed attributes at `idxs` (0 when there are none).
pub open spec fn max_old_of(attrs: Seq<Attr>, idxs: Seq<usize>) -> usize
    decreases idxs.len(),
{
    if idxs.len() == 0 {
        0
    } else {
        let prev = max_old_of(attrs, idxs.drop_last());
        match attrs[idxs.last() as int].status {
            AttrStatus::Changed { old, .. } => if prev >= old.width { prev } else { old.width },
            _ => prev,
        }
    }
}

/// Largest new-value width among the changed attributes at `idxs` (0 when there are none).
pub open spec fn max_new_of(attrs: Seq<Attr>, idxs: Seq<usize>) -> usize
    decreases idxs.len(),
{
    if idxs.len() == 0 {
        0
    } else {
        let prev = max_new_of(attrs, idxs.drop_last());
        match attrs[idxs.last() as int].status {
            AttrStatus::Changed { new, .. } => if prev >= new.width { prev } else { new.width },
            _ => prev,
        }
    }
}

/// The model of a group: its indices and the three maxima.
pub struct GroupModel {
    /// Indices into the attribute list
    pub indices: Seq<usize>,
    /// Max name width
    pub max_name_width: usize,
    /// Max old value width
    pub max_old_width: usize,
    /// Max new value width
    pub max_new_width: usize,
}

impl View for ChangedGroup {
    type V = GroupModel;

    open spec fn view(&self) -> GroupModel {
        GroupModel {
            indices: self.attr_indices@,
            max_name_width: self.max_name_width,
            max_old_width: self.max_old_width,
            max_new_width: self.max_new_width,
        }
    }
}

/// The group that holds the attributes at `idxs`, with the maxima taken over them.
pub open spec fn group_of(attrs: Seq<Attr>, idxs: Seq<usize>) -> GroupModel {
    GroupModel {
        indices: idxs,
        max_name_width: max_name_of(attrs, idxs),
        max_old_width: max_old_of(attrs, idxs),
        max_new_width: max_new_of(attrs, idxs),
    }
}

/// Width of one side of a group's line, each changed attribute padded to the
/// group's name width and to `value_width`, one space between attributes.
pub open spec fn padded_line_width(attrs: Seq<Attr>, g: GroupModel, value_width: int, k: int) -> int
    decreases k,
{
    if k <= 0 {
        0
    } else {
        let prev = padded_line_width(attrs, g, value_width, k - 1);
        let sep = if k - 1 > 0 { 1int } else { 0int };
        let cell = if attrs[g.indices[k - 1] as int].status is Changed {
            g.max_name_width + 2 + value_width + 1
        } else {
            0int
        };
        prev + sep + cell
    }
}

impl ChangedGroup {
    /// Create a new empty group.
    pub fn new() -> (g: Self)
        ensures
            g@ == (GroupModel { indices: Seq::empty(), max_name_width: 0, max_old_width: 0, max_new_width: 0 }),
    {
        ChangedGroup { attr_indices: Vec::new(), max_name_width: 0, max_old_width: 0, max_new_width: 0 }
    }

    /// Add an attribute to this group, updating max widths.
    pub fn add(&mut self, index: usize, attr: &Attr)
        ensures
            final(self).attr_indices@ == old(self).attr_indices@.push(index),
            final(self).max_name_width == if old(self).max_name_width >= attr.name_width {
                old(self).max_name_width
            } else {
                attr.name_width
            },
            final(self).max_old_width == match attr.status {
                AttrStatus::Changed { old: o, .. } => if old(self).max_old_width >= o.width {
                    old(self).max_old_width
                } else {
                    o.width
                },
                _ => old(self).max_old_width,
            },
            final(self).max_new_width == match attr.status {
                AttrStatus::Changed { new: n, .. } => if old(self).max_new_width >= n.width {
                    old(self).max_new_width
                } else {
                    n.width
                },
                _ => old(self).max_new_width,
            },
    {
        self.attr_indices.push(index);
        if attr.name_width > self.max_name_width {
            self.max_name_width = attr.name_width;
        }
        if let AttrStatus::Changed { old, new } = &attr.status {
            if old.width > self.max_old_width {
                self.max_old_width = old.width;
            }
            if new.width > self.max_new_width {
                self.max_new_width = new.width;
            }
        }
    }

    /// Check if this group is empty.
    pub fn is_empty(&self) -> (r: bool)
        ensures
            r == (self.attr_indices@.len() == 0),
    {
        self.attr_indices.len() == 0
    }

    /// Calculate the line width for this group's - line.
    /// Does not include the "- " prefix or leading indent.
    pub fn minus_line_width(&self, attrs: &[Attr]) -> (r: usize)
        requires
            forall|k: int| 0 <= k < self.attr_indices@.len() ==> self.attr_indices@[k] < attrs@.len(),
            padded_line_width(attrs@, self@, self.max_old_width as int, self.attr_indices@.len() as int) <= usize::MAX,
        ensures
            r == padded_line_width(attrs@, self@, self.max_old_width as int, self.attr_indices@.len() as int),
    {
        self.side_line_width(attrs, self.max_old_width)
    }

    /// Calculate the line width for this group's + line.
    pub fn plus_line_width(&self, attrs: &[Attr]) -> (r: usize)
        requires
            forall|k: int| 0 <= k < self.attr_indices@.len() ==> self.attr_indices@[k] < attrs@.len(),
            padded_line_width(attrs@, self@, self.max_new_width as int, self.attr_indices@.len() as int) <= usize::MAX,
        ensures
            r == padded_line_width(attrs@, self@, self.max_new_width as int, self.attr_indices@.len() as int),
    {
        self.side_line_width(attrs, self.max_new_width)
    }

    fn side_line_width(&self, attrs: &[Attr], value_width: usize) -> (r: usize)
        requires
            forall|k: int| 0 <= k < self.attr_indices@.len() ==> self.attr_indices@[k] < attrs@.len(),
            padded_line_width(attrs@, self@, value_width as int, self.attr_indices@.len() as int) <= usize::MAX,
        ensures
            r == padded_line_width(attrs@, self@, value_width as int, self.attr_indices@.len() as int),
    {
        let n = self.attr_indices.len();
        let mut width: usize = 0;
        let mut i: usize = 0;
        while i < n
            invariant
                n == self.attr_indices@.len(),
                0 <= i <= n,
                forall|k: int| 0 <= k < self.attr_indices@.len() ==> self.attr_indices@[k] < attrs@.len(),
                padded_line_width(attrs@, self@, value_width as int, n as int) <= usize::MAX,
                width == padded_line_width(attrs@, self@, value_width as int, i as int),
            decreases n - i,
        {
            proof {
                lemma_padded_monotone(attrs@, self@, value_width as int, i as int + 1, n as int);
            }
            if i > 0 {
                width = width + 1;
            }
            let idx = self.attr_indices[i];
            if let AttrStatus::Changed { .. } = &attrs[idx].status {
                width = width + self.max_name_width + 2 + value_width + 1;
            }
            i = i + 1;
        }
        width
    }
}

/// Line widths only grow as more attributes are counted.
pub proof fn lemma_padded_monotone(attrs: Seq<Attr>, g: GroupModel, value_width: int, j: int, k: int)
    requires
        0 <= j <= k,
        g.max_name_width >= 0,
        value_width >= 0,
    ensures
        padded_line_width(attrs, g, value_width, j) <= padded_line_width(attrs, g, value_width, k),
    decreases k - j,
{
    if j < k {
        lemma_padded_monotone(attrs, g, value_width, j, k - 1);
    }
}

impl Default for ChangedGroup {
    fn default() -> (g: Self)
        ensures
            g@ == (GroupModel { indices: Seq::empty(), max_name_width: 0, max_old_width: 0, max_new_width: 0 }),
    {
        Self::new()
    }
}

/// Greedy packing of the changed attributes from position `i` on, given the
/// indices already in the open group and that group's width so far.
///
/// An attribute joins the open group when it fits in `avail` (one space
/// separates attributes); otherwise the open group is closed and a new one
/// starts with it. A group never stays empty: an attribute wider than `avail`
/// gets a group of its own. Unchanged, deleted and inserted attributes are skipped.
pub open spec fn pack_from(attrs: Seq<Attr>, avail: int, i: int, cur: Seq<usize>, cur_w: int) -> Seq<Seq<usize>>
    decreases attrs.len() - i,
{
    if i >= attrs.len() || i < 0 {
        if cur.len() > 0 { seq![cur] } else { seq![] }
    } else if !attr_is_changed(attrs[i]) {
        pack_from(attrs, avail, i + 1, cur, cur_w)
    } else {
        let w = attr_line_width(attrs[i]);
        let needed = if cur.len() == 0 { w } else { w + 1 };
        if cur_w + needed > avail && cur.len() > 0 {
            seq![cur] + pack_from(attrs, avail, i + 1, seq![i as usize], w)
        } else {
            pack_from(attrs, avail, i + 1, cur.push(i as usize), cur_w + needed)
        }
    }
}

/// The groups that [`group_changed_attrs`] forms, as index sequences.
pub open spec fn packed_groups(attrs: Seq<Attr>, max_line_width: int, indent_width: int) -> Seq<Seq<usize>> {
    let avail = if max_line_width >= indent_width + 2 { max_line_width - (indent_width + 2) } else { 0 };
    pack_from(attrs, avail, 0, seq![], 0)
}

/// Whether every changed attribute's line width can be counted in a `usize`.
pub open spec fn changed_widths_fit(attrs: Seq<Attr>) -> bool {
    forall|k: int| 0 <= k < attrs.len() && attr_is_changed(#[trigger] attrs[k]) ==> attr_line_width(attrs[k]) < usize::MAX
}

/// Whether `groups` are the changed attributes of `attrs` packed into lines
/// of `max_line_width` (see `packed_groups`, with no indent): one group per
/// packed line, each with its attributes and widths; none when some changed
/// attribute's line width cannot be counted in a `usize`.
pub open spec fn grouped_as(attrs: Seq<Attr>, groups: Seq<ChangedGroup>, max_line_width: int) -> bool {
    if changed_widths_fit(attrs) {
        &&& groups.len() == packed_groups(attrs, max_line_width, 0).len()
        &&& forall|g: int| 0 <= g < groups.len() ==> #[trigger] groups[g]@ == group_of(attrs, packed_groups(attrs, max_line_width, 0)[g])
    } else {
        groups.len() == 0
    }
}

/// Group changed attributes into lines that fit within max line width.
///
/// Uses greedy bin-packing: add attributes to the current group until
/// the next one would exceed the width limit, then start a new group.
pub fn group_changed_attrs(attrs: &[Attr], max_line_width: usize, indent_width: usize) -> (groups: Vec<ChangedGroup>)
    requires
        indent_width + 2 <= usize::MAX,
        forall|k: int| 0 <= k < attrs@.len() && attr_is_changed(#[trigger] attrs@[k])
            ==> attr_line_width(attrs@[k]) < usize::MAX,
    ensures
        groups@.len() == packed_groups(attrs@, max_line_width as int, indent_width as int).len(),
        forall|g: int| 0 <= g < groups@.len() ==> #[trigger] groups@[g]@ == group_of(
            attrs@,
            packed_groups(attrs@, max_line_width as int, indent_width as int)[g],
        ),
        forall|g: int, k: int| 0 <= g < groups@.len() && 0 <= k < groups@[g].attr_indices@.len()
            ==> #[trigger] groups@[g].attr_indices@[k] < attrs@.len(),
{
    let available_width = max_line_width.saturating_sub(indent_width + 2);
    let ghost avail = available_width as int;
    let ghost total = pack_from(attrs@, avail, 0, seq![], 0);
    let mut groups: Vec<ChangedGroup> = Vec::new();
    let mut current = ChangedGroup::new();
    let mut current_width: usize = 0;
    let n = attrs.len();
    let mut i: usize = 0;
    let ghost mut done: Seq<Seq<usize>> = seq![];
    while i < n
        invariant
            n == attrs@.len(),
            0 <= i <= n,
            avail == available_width as int,
            total == pack_from(attrs@, avail, 0, seq![], 0),
            forall|k: int| 0 <= k < attrs@.len() && attr_is_changed(#[trigger] attrs@[k])
                ==> attr_line_width(attrs@[k]) < usize::MAX,
            done + pack_from(attrs@, avail, i as int, current@.indices, current_width as int) == total,
            groups@.len() == done.len(),
            forall|g: int| 0 <= g < groups@.len() ==> #[trigger] groups@[g]@ == group_of(attrs@, done[g]),
            current@ == group_of(attrs@, current@.indices),
            current@.indices.len() > 1 ==> current_width <= available_width,
            current@.indices.len() == 0 ==> current_width == 0,
            forall|g: int, k: int| 0 <= g < groups@.len() && 0 <= k < groups@[g].attr_indices@.len()
                ==> #[trigger] groups@[g].attr_indices@[k] < n,
            forall|k: int| 0 <= k < current.attr_indices@.len() ==> #[trigger] current.attr_indices@[k] < i,
        decreases n - i,
    {
        let attr = &attrs[i];
        if !attr.is_changed() {
            i = i + 1;
            continue;
        }
        let attr_width = attr.line_width();
        let needed = if current.is_empty() { attr_width } else { attr_width + 1 };
        let ghost prev_indices = current@.indices;
        if !current.is_empty() && (current_width > available_width || needed > available_width - current_width) {
            let mut finished = ChangedGroup::new();
            std::mem::swap(&mut current, &mut finished);
            proof {
                assert(pack_from(attrs@, avail, i as int, prev_indices, current_width as int)
                    == seq![prev_indices] + pack_from(attrs@, avail, i + 1, seq![i as usize], attr_width as int));
                done = done.push(prev_indices);
                assert(seq![prev_indices] + pack_from(attrs@, avail, i + 1, seq![i as usize], attr_width as int)
                    =~= seq![prev_indices].add(pack_from(attrs@, avail, i + 1, seq![i as usize], attr_width as int)));
            }
            groups.push(finished);
            current_width = 0;
        }
        let needed = if current.is_empty() { attr_width } else { attr_width + 1 };
        let ghost before = current@.indices;
        assert(current@ == group_of(attrs@, before));
        current_width = current_width + needed;
        current.add(i, attr);
        proof {
            let idxs = current@.indices;
            assert(idxs.drop_last() =~= before);
            assert(idxs.last() == i);
            assert(attrs@[i as int] == *attr);
            assert(max_name_of(attrs@, idxs) == current.max_name_width);
            assert(max_old_of(attrs@, idxs) == current.max_old_width);
            assert(max_new_of(attrs@, idxs) == current.max_new_width);
        }
        i = i + 1;
    }
    if !current.is_empty() {
        proof {
            done = done.push(current@.indices);
        }
        groups.push(current);
    }
    proof {
        assert(done =~= total);
    }
    groups
}

/// The indices of the changed attributes from position `i` on, in order.
pub open spec fn changed_from(attrs: Seq<Attr>, i: int) -> Seq<usize>
    decreases attrs.len() - i,
{
    if i >= attrs.len() || i < 0 {
        Seq::empty()
    } else if attr_is_changed(attrs[i]) {
        seq![i as usize] + changed_from(attrs, i + 1)
    } else {
        changed_from(attrs, i + 1)
    }
}

/// The natural width of a group's line: each attribute's line width, one
/// space between attributes.
pub open spec fn group_width(attrs: Seq<Attr>, idxs: Seq<usize>) -> int
    decreases idxs.len(),
{
    if idxs.len() == 0 {
        0
    } else {
        group_width(attrs, idxs.drop_last()) + attr_line_width(attrs[idxs.last() as int]) + (if idxs.len() > 1 {
            1int
        } else {
            0int
        })
    }
}

/// The room for a group's line after the indent and the two-column prefix.
pub open spec fn group_avail(max_line_width: int, indent_width: int) -> int {
    if max_line_width >= indent_width + 2 { max_line_width - (indent_width + 2) } else { 0 }
}

proof fn lemma_pack_from(attrs: Seq<Attr>, avail: int, i: int, cur: Seq<usize>, cur_w: int)
    requires
        0 <= i,
        attrs.len() <= usize::MAX,
        cur_w == group_width(attrs, cur),
        cur.len() > 1 ==> cur_w <= avail,
    ensures
        pack_from(attrs, avail, i, cur, cur_w).flatten() == cur + changed_from(attrs, i),
        forall|g: int| 0 <= g < pack_from(attrs, avail, i, cur, cur_w).len()
            ==> (#[trigger] pack_from(attrs, avail, i, cur, cur_w)[g]).len() > 0,
        forall|g: int| 0 <= g < pack_from(attrs, avail, i, cur, cur_w).len()
            && (#[trigger] pack_from(attrs, avail, i, cur, cur_w)[g]).len() > 1
            ==> group_width(attrs, pack_from(attrs, avail, i, cur, cur_w)[g]) <= avail,
    decreases attrs.len() - i,
{
    let r = pack_from(attrs, avail, i, cur, cur_w);
    if i >= attrs.len() {
        if cur.len() > 0 {
            assert(seq![cur].flatten() == cur) by {
                seq![cur].lemma_flatten_one_element();
            }
            assert(cur + changed_from(attrs, i) =~= cur);
        } else {
            assert(cur + changed_from(attrs, i) =~= Seq::<usize>::empty());
        }
    } else if !attr_is_changed(attrs[i]) {
        lemma_pack_from(attrs, avail, i + 1, cur, cur_w);
    } else {
        let w = attr_line_width(attrs[i]);
        let needed = if cur.len() == 0 { w } else { w + 1 };
        if cur_w + needed > avail && cur.len() > 0 {
            let single = seq![i as usize];
            assert(single.drop_last() =~= Seq::<usize>::empty());
            assert(single.last() as int == i);
            assert(group_width(attrs, Seq::<usize>::empty()) == 0);
            assert(group_width(attrs, single) == w);
            lemma_pack_from(attrs, avail, i + 1, single, w);
            let rest = pack_from(attrs, avail, i + 1, single, w);
            vstd::seq_lib::lemma_flatten_concat(seq![cur], rest);
            assert(seq![cur].flatten() == cur) by {
                seq![cur].lemma_flatten_one_element();
            }
            assert(r == seq![cur] + rest);
            assert(cur + (single + changed_from(attrs, i + 1)) =~= cur + changed_from(attrs, i));
            assert forall|g: int| 0 <= g < r.len() implies (#[trigger] r[g]).len() > 0 by {
                if g > 0 {
                    assert(r[g] == rest[g - 1]);
                }
            }
            assert forall|g: int| 0 <= g < r.len() && (#[trigger] r[g]).len() > 1 implies group_width(attrs, r[g]) <= avail by {
                if g > 0 {
                    assert(r[g] == rest[g - 1]);
                }
            }
        } else {
            let next = cur.push(i as usize);
            assert(next.drop_last() =~= cur);
            lemma_pack_from(attrs, avail, i + 1, next, cur_w + needed);
            assert(next + changed_from(attrs, i + 1) =~= cur + changed_from(attrs, i));
        }
    }
}

/// Grouping keeps every changed attribute exactly once, in order: the groups,
/// read one after another, give the indices of the changed attributes. No
/// group is empty, and every group of two or more attributes fits the room
/// left after the indent and the prefix.
pub proof fn lemma_grouping_partitions(attrs: Seq<Attr>, max_line_width: int, indent_width: int)
    requires
        attrs.len() <= usize::MAX,
    ensures
        packed_groups(attrs, max_line_width, indent_width).flatten() == changed_from(attrs, 0),
        forall|g: int| 0 <= g < packed_groups(attrs, max_line_width, indent_width).len()
            ==> (#[trigger] packed_groups(attrs, max_line_width, indent_width)[g]).len() > 0,
        forall|g: int| 0 <= g < packed_groups(attrs, max_line_width, indent_width).len()
            && (#[trigger] packed_groups(attrs, max_line_width, indent_width)[g]).len() > 1
            ==> group_width(attrs, packed_groups(attrs, max_line_width, indent_width)[g]) <= group_avail(
                max_line_width,
                indent_width,
            ),
{
    let avail = group_avail(max_line_width, indent_width);
    lemma_pack_from(attrs, avail, 0, seq![], 0);
    assert(Seq::<usize>::empty() + changed_from(attrs, 0) =~= changed_from(attrs, 0));
}

} // verus!
