//! Leaf-level changes of a diff, with the path that reaches each.
//!
//! Walking a diff tree yields every terminal change (a replaced, deleted or
//! inserted value) with its path. A one-to-one replacement inside a
//! sequence is handed back as a *nested* item: whether it is a leaf or a
//! subtree depends on the diff of its two values, which the caller computes
//! and resolves with [`resolve_nested`].

use vstd::prelude::*;

use crate::core_sequences::{ReplaceGroup, Updates, UpdatesGroup};
use crate::path::{Path, PathSegment, SegmentModel};
use crate::types::{Diff, Value};
use crate::text::str_eq;

verus! {

/// The kind of leaf change.
#[derive(Debug, Clone, Copy)]
pub enum LeafChangeKind<P> {
    /// A value was replaced
    Replace {
        /// The old value
        from: P,
        /// The new value
        to: P,
    },
    /// A value was deleted
    Delete {
        /// The deleted value
        value: P,
    },
    /// A value was inserted
    Insert {
        /// The inserted value
        value: P,
    },
}

/// A single leaf-level change in a diff, with path information.
#[derive(Debug)]
pub struct LeafChange<P> {
    /// The path from root to this change
    pub path: Path,
    /// The kind of change
    pub kind: LeafChangeKind<P>,
}

/// An item found while walking a diff: a leaf change, or a one-to-one
/// replacement whose two values still have to be compared.
#[derive(Debug)]
pub enum LeafItem<P> {
    /// A leaf change
    Change(LeafChange<P>),
    /// A replacement of `from` by `to` at `path`, to be resolved by their diff
    Nested {
        /// Where the replacement is
        path: Path,
        /// The old value
        from: P,
        /// The new value
        to: P,
    },
}

/// The model of a walk item.
pub enum ItemModel<P> {
    /// A leaf change at a path
    Change(Seq<SegmentModel>, LeafChangeKind<P>),
    /// A replacement at a path, to be resolved
    Nested(Seq<SegmentModel>, P, P),
}

impl<P> View for LeafItem<P> {
    type V = ItemModel<P>;

    open spec fn view(&self) -> ItemModel<P> {
        match self {
            LeafItem::Change(c) => ItemModel::Change(c.path@, c.kind),
            LeafItem::Nested { path, from, to } => ItemModel::Nested(path@, *from, *to),
        }
    }
}

/// The models of a list of walk items.
pub open spec fn items_model<P>(items: Seq<LeafItem<P>>) -> Seq<ItemModel<P>> {
    items.map_values(|i: LeafItem<P>| i@)
}

/// The path with an index appended.
pub open spec fn at_index(path: Seq<SegmentModel>, i: usize) -> Seq<SegmentModel> {
    path.push(SegmentModel::Index(i))
}

/// The variant name of an `Option` that holds a value.
pub open spec fn some_name() -> Seq<char> {
    seq!['S', 'o', 'm', 'e']
}

/// The items of a diff reached by `path`; `opt` tells which shapes are
/// `Option` types.
pub open spec fn diff_items<P, S>(d: Diff<P, S>, path: Seq<SegmentModel>, opt: spec_fn(S) -> bool) -> Seq<ItemModel<P>>
    decreases d, 0nat,
{
    match d {
        Diff::Equal { .. } => Seq::empty(),
        Diff::Replace { from, to } => seq![ItemModel::Change(path, LeafChangeKind::Replace { from, to })],
        Diff::User { from, variant, value, .. } => {
            let is_opt = opt(from);
            // For Option::Some the variant is implied and left out of the path
            let base = match variant {
                Some(v) => if is_opt && v@ == some_name() {
                    path
                } else {
                    path.push(SegmentModel::Variant(v@))
                },
                None => path,
            };
            match value {
                Value::Struct { updates, deletions, insertions, .. } => field_items(updates@, base, opt, updates@.len())
                    + removed_field_items(deletions@, base, deletions@.len()) + added_field_items(
                    insertions@,
                    base,
                    insertions@.len(),
                ),
                Value::Tuple { updates } => if is_opt {
                    single_elem_items(updates, base, opt)
                } else {
                    updates_items(updates, base, opt)
                },
            }
        },
        Diff::Sequence { updates, .. } => updates_items(updates, path, opt),
    }
}

/// The items of the first `k` updated fields, each under its field name.
pub open spec fn field_items<P, S>(
    fields: Seq<(String, Diff<P, S>)>,
    base: Seq<SegmentModel>,
    opt: spec_fn(S) -> bool,
    k: nat,
) -> Seq<ItemModel<P>>
    decreases fields, k,
{
    if k == 0 || k > fields.len() {
        Seq::empty()
    } else {
        field_items(fields, base, opt, (k - 1) as nat) + diff_items(
            fields[k - 1].1,
            base.push(SegmentModel::Field(fields[k - 1].0@)),
            opt,
        )
    }
}

/// The first `k` deleted fields, each a leaf deletion under its field name.
pub open spec fn removed_field_items<P>(fields: Seq<(String, P)>, base: Seq<SegmentModel>, k: nat) -> Seq<ItemModel<P>>
    decreases k,
{
    if k == 0 || k > fields.len() {
        Seq::empty()
    } else {
        removed_field_items(fields, base, (k - 1) as nat).push(ItemModel::Change(
            base.push(SegmentModel::Field(fields[k - 1].0@)),
            LeafChangeKind::Delete { value: fields[k - 1].1 },
        ))
    }
}

/// The first `k` inserted fields, each a leaf insertion under its field name.
pub open spec fn added_field_items<P>(fields: Seq<(String, P)>, base: Seq<SegmentModel>, k: nat) -> Seq<ItemModel<P>>
    decreases k,
{
    if k == 0 || k > fields.len() {
        Seq::empty()
    } else {
        added_field_items(fields, base, (k - 1) as nat).push(ItemModel::Change(
            base.push(SegmentModel::Field(fields[k - 1].0@)),
            LeafChangeKind::Insert { value: fields[k - 1].1 },
        ))
    }
}

/// The items of a single-element tuple (such as `Option::Some`), all under
/// `base` itself: a one-to-one replacement, or the trailing nested diffs of
/// the first group; otherwise the items of the updates as a sequence.
pub open spec fn single_elem_items<P, S>(u: Updates<P, S>, base: Seq<SegmentModel>, opt: spec_fn(S) -> bool) -> Seq<ItemModel<P>>
    decreases u, 1nat,
{
    match u.0.first {
        Some(g) => {
            let one_to_one = match g.0.first {
                Some(r) => r.removals@.len() == 1 && r.additions@.len() == 1,
                None => false,
            };
            if one_to_one {
                let r = g.0.first->0;
                seq![ItemModel::Nested(base, r.removals@[0], r.additions@[0])]
            } else {
                match g.0.last {
                    Some(ds) => same_path_items(ds@, base, opt, ds@.len()),
                    None => updates_items(u, base, opt),
                }
            }
        },
        None => updates_items(u, base, opt),
    }
}

/// The items of the first `k` diffs, all under `base`.
pub open spec fn same_path_items<P, S>(ds: Seq<Diff<P, S>>, base: Seq<SegmentModel>, opt: spec_fn(S) -> bool, k: nat) -> Seq<ItemModel<P>>
    decreases ds, k,
{
    if k == 0 || k > ds.len() {
        Seq::empty()
    } else {
        same_path_items(ds, base, opt, (k - 1) as nat) + diff_items(ds[k - 1], base, opt)
    }
}

/// The items of sequence updates, element indices counted from 0: unchanged
/// runs only advance the index.
pub open spec fn updates_items<P, S>(u: Updates<P, S>, base: Seq<SegmentModel>, opt: spec_fn(S) -> bool) -> Seq<ItemModel<P>>
    decreases u, 0nat,
{
    let (first, idx) = match u.0.first {
        Some(g) => group_items(g, base, opt, 0),
        None => (Seq::empty(), 0usize),
    };
    first + pairs_items(u.0.values@, base, opt, idx, u.0.values@.len()).0
}

/// The items of the first `k` (unchanged run, group) pairs, starting at
/// index `start`, and the index after them.
pub open spec fn pairs_items<P, S>(
    vals: Seq<(Vec<P>, UpdatesGroup<P, S>)>,
    base: Seq<SegmentModel>,
    opt: spec_fn(S) -> bool,
    start: usize,
    k: nat,
) -> (Seq<ItemModel<P>>, usize)
    decreases vals, k,
{
    if k == 0 || k > vals.len() {
        (Seq::empty(), start)
    } else {
        let (prev, idx) = pairs_items(vals, base, opt, start, (k - 1) as nat);
        let (items, next) = group_items(vals[k - 1].1, base, opt, idx.wrapping_add(vals[k - 1].0@.len() as usize));
        (prev + items, next)
    }
}

/// The items of an updates group starting at index `start`, and the index after it.
pub open spec fn group_items<P, S>(g: UpdatesGroup<P, S>, base: Seq<SegmentModel>, opt: spec_fn(S) -> bool, start: usize) -> (
    Seq<ItemModel<P>>,
    usize,
)
    decreases g, 0nat,
{
    let (first, i1) = match g.0.first {
        Some(r) => replace_items(r, base, start),
        None => (Seq::empty(), start),
    };
    let (middle, i2) = group_pairs_items(g.0.values@, base, opt, i1, g.0.values@.len());
    let (last, i3) = match g.0.last {
        Some(ds) => indexed_items(ds@, base, opt, i2, ds@.len()),
        None => (Seq::empty(), i2),
    };
    (first + middle + last, i3)
}

/// The items of the first `k` (nested diffs, replace group) pairs of a
/// group, starting at index `start`, and the index after them.
pub open spec fn group_pairs_items<P, S>(
    vals: Seq<(Vec<Diff<P, S>>, ReplaceGroup<P>)>,
    base: Seq<SegmentModel>,
    opt: spec_fn(S) -> bool,
    start: usize,
    k: nat,
) -> (Seq<ItemModel<P>>, usize)
    decreases vals, k,
{
    if k == 0 || k > vals.len() {
        (Seq::empty(), start)
    } else {
        let (prev, i1) = group_pairs_items(vals, base, opt, start, (k - 1) as nat);
        let (diffs, i2) = indexed_items(vals[k - 1].0@, base, opt, i1, vals[k - 1].0@.len());
        let (repl, i3) = replace_items(vals[k - 1].1, base, i2);
        (prev + diffs + repl, i3)
    }
}

/// The items of the first `k` nested diffs, each under the next index from
/// `start`, and the index after them.
pub open spec fn indexed_items<P, S>(ds: Seq<Diff<P, S>>, base: Seq<SegmentModel>, opt: spec_fn(S) -> bool, start: usize, k: nat) -> (
    Seq<ItemModel<P>>,
    usize,
)
    decreases ds, k,
{
    if k == 0 || k > ds.len() {
        (Seq::empty(), start)
    } else {
        let (prev, idx) = indexed_items(ds, base, opt, start, (k - 1) as nat);
        (prev + diff_items(ds[k - 1], at_index(base, idx), opt), idx.wrapping_add(1))
    }
}

/// The items of a replace group starting at index `start`, and the index
/// after it: pairs at the same index when the counts match, otherwise the
/// deletions and then the insertions, each at the next index.
pub open spec fn replace_items<P>(r: ReplaceGroup<P>, base: Seq<SegmentModel>, start: usize) -> (Seq<ItemModel<P>>, usize) {
    if r.removals@.len() == r.additions@.len() {
        paired_items(r.removals@, r.additions@, base, start, r.removals@.len())
    } else {
        let (dels, i1) = deleted_items(r.removals@, base, start, r.removals@.len());
        let (ins, i2) = inserted_items(r.additions@, base, i1, r.additions@.len());
        (dels + ins, i2)
    }
}

/// The first `k` one-to-one replacements, each at the next index.
pub open spec fn paired_items<P>(rem: Seq<P>, add: Seq<P>, base: Seq<SegmentModel>, start: usize, k: nat) -> (Seq<ItemModel<P>>, usize)
    decreases k,
{
    if k == 0 {
        (Seq::empty(), start)
    } else {
        let (prev, idx) = paired_items(rem, add, base, start, (k - 1) as nat);
        (prev.push(ItemModel::Nested(at_index(base, idx), rem[k - 1], add[k - 1])), idx.wrapping_add(1))
    }
}

/// The first `k` deletions, each at the next index.
pub open spec fn deleted_items<P>(rem: Seq<P>, base: Seq<SegmentModel>, start: usize, k: nat) -> (Seq<ItemModel<P>>, usize)
    decreases k,
{
    if k == 0 {
        (Seq::empty(), start)
    } else {
        let (prev, idx) = deleted_items(rem, base, start, (k - 1) as nat);
        (prev.push(ItemModel::Change(at_index(base, idx), LeafChangeKind::Delete { value: rem[k - 1] })), idx.wrapping_add(1))
    }
}

/// The first `k` insertions, each at the next index.
pub open spec fn inserted_items<P>(add: Seq<P>, base: Seq<SegmentModel>, start: usize, k: nat) -> (Seq<ItemModel<P>>, usize)
    decreases k,
{
    if k == 0 {
        (Seq::empty(), start)
    } else {
        let (prev, idx) = inserted_items(add, base, start, (k - 1) as nat);
        (prev.push(ItemModel::Change(at_index(base, idx), LeafChangeKind::Insert { value: add[k - 1] })), idx.wrapping_add(1))
    }
}

/// How many element positions a replace group takes up: one per pair when
/// it removes as many values as it adds, otherwise one per removed and one
/// per added value.
pub open spec fn replace_width<P>(r: ReplaceGroup<P>) -> nat {
    if r.removals@.len() == r.additions@.len() {
        r.removals@.len()
    } else {
        r.removals@.len() + r.additions@.len()
    }
}

/// How many element positions the first `k` pairs of an updates group take
/// up: one per nested diff, and those of each replace group.
pub open spec fn group_pairs_width<P, S>(vals: Seq<(Vec<Diff<P, S>>, ReplaceGroup<P>)>, k: nat) -> nat
    decreases k,
{
    if k == 0 || k > vals.len() {
        0
    } else {
        group_pairs_width(vals, (k - 1) as nat) + vals[k - 1].0@.len() + replace_width(vals[k - 1].1)
    }
}

/// How many element positions an updates group takes up: those of its
/// replace groups and one per nested diff.
pub open spec fn group_width<P, S>(g: UpdatesGroup<P, S>) -> nat {
    (match g.0.first {
        Some(r) => replace_width(r),
        None => 0,
    }) + group_pairs_width(g.0.values@, g.0.values@.len()) + match g.0.last {
        Some(ds) => ds@.len(),
        None => 0,
    }
}

/// How many element positions the first `k` (unchanged run, group) pairs of
/// sequence updates take up: each unchanged item, and those of each group.
pub open spec fn pairs_width<P, S>(vals: Seq<(Vec<P>, UpdatesGroup<P, S>)>, k: nat) -> nat
    decreases k,
{
    if k == 0 || k > vals.len() {
        0
    } else {
        pairs_width(vals, (k - 1) as nat) + vals[k - 1].0@.len() + group_width(vals[k - 1].1)
    }
}

/// Each nested diff of a run takes up one element position: the index after
/// the first `k` is `k` past the start.
pub proof fn lemma_indexed_items_width<P, S>(ds: Seq<Diff<P, S>>, base: Seq<SegmentModel>, opt: spec_fn(S) -> bool, start: usize, k: nat)
    requires
        k <= ds.len(),
        start + k <= usize::MAX,
    ensures
        indexed_items(ds, base, opt, start, k).1 == start + k,
    decreases k,
{
    if k > 0 {
        lemma_indexed_items_width(ds, base, opt, start, (k - 1) as nat);
    }
}

/// Paired replacements, deletions and insertions each take up one position.
proof fn lemma_one_each_width<P>(rem: Seq<P>, add: Seq<P>, base: Seq<SegmentModel>, start: usize, k: nat)
    requires
        start + k <= usize::MAX,
    ensures
        paired_items(rem, add, base, start, k).1 == start + k,
        deleted_items(rem, base, start, k).1 == start + k,
        inserted_items(add, base, start, k).1 == start + k,
    decreases k,
{
    if k > 0 {
        lemma_one_each_width(rem, add, base, start, (k - 1) as nat);
    }
}

/// The index after a replace group is its width past the start.
pub proof fn lemma_replace_items_width<P>(r: ReplaceGroup<P>, base: Seq<SegmentModel>, start: usize)
    requires
        start + replace_width(r) <= usize::MAX,
    ensures
        replace_items(r, base, start).1 == start + replace_width(r),
{
    let rem = r.removals@;
    let add = r.additions@;
    lemma_one_each_width(rem, add, base, start, rem.len());
    if rem.len() != add.len() {
        let i1 = deleted_items(rem, base, start, rem.len()).1;
        lemma_one_each_width(rem, add, base, i1, add.len());
    }
}

/// The index after the first `k` pairs of an updates group is their width
/// past the start.
pub proof fn lemma_group_pairs_items_width<P, S>(
    vals: Seq<(Vec<Diff<P, S>>, ReplaceGroup<P>)>,
    base: Seq<SegmentModel>,
    opt: spec_fn(S) -> bool,
    start: usize,
    k: nat,
)
    requires
        k <= vals.len(),
        start + group_pairs_width(vals, k) <= usize::MAX,
    ensures
        group_pairs_items(vals, base, opt, start, k).1 == start + group_pairs_width(vals, k),
    decreases k,
{
    if k > 0 {
        lemma_group_pairs_items_width(vals, base, opt, start, (k - 1) as nat);
        let i1 = group_pairs_items(vals, base, opt, start, (k - 1) as nat).1;
        lemma_indexed_items_width(vals[k - 1].0@, base, opt, i1, vals[k - 1].0@.len());
        let i2 = indexed_items(vals[k - 1].0@, base, opt, i1, vals[k - 1].0@.len()).1;
        lemma_replace_items_width(vals[k - 1].1, base, i2);
    }
}

/// Inside sequence updates, the index after an updates group is the group's
/// width past the index it starts at: each of its removed or paired values
/// and each of its nested diffs takes up one element position.
pub proof fn lemma_group_items_width<P, S>(g: UpdatesGroup<P, S>, base: Seq<SegmentModel>, opt: spec_fn(S) -> bool, start: usize)
    requires
        start + group_width(g) <= usize::MAX,
    ensures
        group_items(g, base, opt, start).1 == start + group_width(g),
{
    let i1 = match g.0.first {
        Some(r) => {
            lemma_replace_items_width(r, base, start);
            replace_items(r, base, start).1
        },
        None => start,
    };
    lemma_group_pairs_items_width(g.0.values@, base, opt, i1, g.0.values@.len());
    let i2 = group_pairs_items(g.0.values@, base, opt, i1, g.0.values@.len()).1;
    if let Some(ds) = g.0.last {
        lemma_indexed_items_width(ds@, base, opt, i2, ds@.len());
    }
}

/// Inside sequence updates, the index after the first `k` (unchanged run,
/// group) pairs is their width past the start: each unchanged item and each
/// position its group takes up advance the index, so every change is
/// indexed by its element's position.
pub proof fn lemma_pairs_items_width<P, S>(
    vals: Seq<(Vec<P>, UpdatesGroup<P, S>)>,
    base: Seq<SegmentModel>,
    opt: spec_fn(S) -> bool,
    start: usize,
    k: nat,
)
    requires
        k <= vals.len(),
        start + pairs_width(vals, k) <= usize::MAX,
    ensures
        pairs_items(vals, base, opt, start, k).1 == start + pairs_width(vals, k),
    decreases k,
{
    if k > 0 {
        lemma_pairs_items_width(vals, base, opt, start, (k - 1) as nat);
        let idx = pairs_items(vals, base, opt, start, (k - 1) as nat).1;
        let run_end = idx.wrapping_add(vals[k - 1].0@.len() as usize);
        assert(run_end == idx + vals[k - 1].0@.len());
        lemma_group_items_width(vals[k - 1].1, base, opt, run_end);
    }
}

/// The items of the `k`-th group of sequence updates start at the position
/// of its first element: past every unchanged item and every position taken
/// up by the groups before it.
pub proof fn lemma_group_starts_at_its_position<P, S>(
    vals: Seq<(Vec<P>, UpdatesGroup<P, S>)>,
    base: Seq<SegmentModel>,
    opt: spec_fn(S) -> bool,
    start: usize,
    k: nat,
)
    requires
        k < vals.len(),
        start + pairs_width(vals, (k + 1) as nat) <= usize::MAX,
    ensures
        pairs_items(vals, base, opt, start, (k + 1) as nat).0 == pairs_items(vals, base, opt, start, k).0
            + group_items(vals[k as int].1, base, opt, (start + pairs_width(vals, k) + vals[k as int].0@.len()) as usize).0,
{
    lemma_pairs_items_width(vals, base, opt, start, k);
}

/// The items of sequence updates: those of the leading group from position
/// 0, then those of each (unchanged run, group) pair from the position past
/// the leading group.
pub proof fn lemma_updates_items_positions<P, S>(u: Updates<P, S>, base: Seq<SegmentModel>, opt: spec_fn(S) -> bool)
    requires
        match u.0.first {
            Some(g) => group_width(g) <= usize::MAX,
            None => true,
        },
    ensures
        updates_items(u, base, opt) == match u.0.first {
            Some(g) => group_items(g, base, opt, 0).0 + pairs_items(u.0.values@, base, opt, group_width(g) as usize,
                u.0.values@.len()).0,
            None => pairs_items(u.0.values@, base, opt, 0, u.0.values@.len()).0,
        },
{
    if let Some(g) = u.0.first {
        lemma_group_items_width(g, base, opt, 0);
    } else {
        assert(Seq::<ItemModel<P>>::empty() + pairs_items(u.0.values@, base, opt, 0, u.0.values@.len()).0
            =~= pairs_items(u.0.values@, base, opt, 0, u.0.values@.len()).0);
    }
}

/// What a deterministic shape test decides for a shape.
pub open spec fn decided<S, F: Fn(S) -> bool>(f: F, s: S) -> bool {
    choose|b: bool| f.ensures((s,), b)
}

/// The decisions of a shape test, as a spec function.
pub open spec fn oracle<S, F: Fn(S) -> bool>(f: F) -> spec_fn(S) -> bool {
    |s: S| decided(f, s)
}

/// A shape test that can be called on any shape and answers the same way
/// each time.
pub open spec fn shape_test_ok<S, F: Fn(S) -> bool>(f: F) -> bool {
    &&& forall|s: S| f.requires((s,))
    &&& forall|s: S, b1: bool, b2: bool| f.ensures((s,), b1) && f.ensures((s,), b2) ==> b1 == b2
}

/// Appending an item appends its model.
proof fn lemma_items_push<P>(items: Seq<LeafItem<P>>, x: LeafItem<P>)
    ensures
        items_model(items.push(x)) == items_model(items).push(x@),
{
    assert(items_model(items.push(x)) =~= items_model(items).push(x@));
}

/// A leaf change at a path.
fn change_at<P>(path: Path, kind: LeafChangeKind<P>) -> (r: LeafItem<P>)
    ensures
        r@ == ItemModel::Change(path@, kind),
{
    LeafItem::Change(LeafChange { path, kind })
}

/// Collect the items of the first groups of deleted or inserted fields.
fn collect_field_leaves<P: Copy>(fields: &Vec<(String, P)>, base: &Path, deleted: bool, out: &mut Vec<LeafItem<P>>)
    ensures
        items_model(final(out)@) == items_model(old(out)@) + (if deleted {
            removed_field_items(fields@, base@, fields@.len())
        } else {
            added_field_items(fields@, base@, fields@.len())
        }),
{
    let ghost start = items_model(out@);
    let mut i: usize = 0;
    while i < fields.len()
        invariant
            i <= fields@.len(),
            items_model(out@) == start + (if deleted {
                removed_field_items(fields@, base@, i as nat)
            } else {
                added_field_items(fields@, base@, i as nat)
            }),
        decreases fields@.len() - i,
    {
        let (name, value) = &fields[i];
        let path = base.with(PathSegment::Field(name.clone()));
        let kind = if deleted { LeafChangeKind::Delete { value: *value } } else { LeafChangeKind::Insert { value: *value } };
        let item = change_at(path, kind);
        proof {
            lemma_items_push(out@, item);
        }
        out.push(item);
        i = i + 1;
    }
}

/// Collect the items of a replace group, advancing the index.
fn collect_replace<P: Copy>(r: &ReplaceGroup<P>, base: &Path, index: &mut usize, out: &mut Vec<LeafItem<P>>)
    ensures
        items_model(final(out)@) == items_model(old(out)@) + replace_items(*r, base@, *old(index)).0,
        *final(index) == replace_items(*r, base@, *old(index)).1,
{
    let ghost start = items_model(out@);
    let ghost idx0 = *index;
    if r.removals.len() == r.additions.len() {
        // One-to-one replacements at the same index
        let mut i: usize = 0;
        while i < r.removals.len()
            invariant
                i <= r.removals@.len(),
                r.removals@.len() == r.additions@.len(),
                items_model(out@) == start + paired_items(r.removals@, r.additions@, base@, idx0, i as nat).0,
                *index == paired_items(r.removals@, r.additions@, base@, idx0, i as nat).1,
            decreases r.removals@.len() - i,
        {
            let item = LeafItem::Nested {
                path: base.with(PathSegment::Index(*index)),
                from: r.removals[i],
                to: r.additions[i],
            };
            proof {
                lemma_items_push(out@, item);
            }
            out.push(item);
            *index = (*index).wrapping_add(1);
            i = i + 1;
        }
    } else {
        // Deletions, then insertions, each at the next index
        let mut i: usize = 0;
        while i < r.removals.len()
            invariant
                i <= r.removals@.len(),
                items_model(out@) == start + deleted_items(r.removals@, base@, idx0, i as nat).0,
                *index == deleted_items(r.removals@, base@, idx0, i as nat).1,
            decreases r.removals@.len() - i,
        {
            let item = change_at(base.with(PathSegment::Index(*index)), LeafChangeKind::Delete { value: r.removals[i] });
            proof {
                lemma_items_push(out@, item);
            }
            out.push(item);
            *index = (*index).wrapping_add(1);
            i = i + 1;
        }
        let ghost mid = items_model(out@);
        let ghost idx1 = *index;
        let mut j: usize = 0;
        while j < r.additions.len()
            invariant
                j <= r.additions@.len(),
                items_model(out@) == mid + inserted_items(r.additions@, base@, idx1, j as nat).0,
                *index == inserted_items(r.additions@, base@, idx1, j as nat).1,
            decreases r.additions@.len() - j,
        {
            let item = change_at(base.with(PathSegment::Index(*index)), LeafChangeKind::Insert { value: r.additions[j] });
            proof {
                lemma_items_push(out@, item);
            }
            out.push(item);
            *index = (*index).wrapping_add(1);
            j = j + 1;
        }
        proof {
            assert(items_model(out@) =~= start + replace_items(*r, base@, idx0).0);
        }
    }
}

/// Collect the items of a diff reached by `path`.
fn collect_diff<P: Copy, S: Copy, F: Fn(S) -> bool>(diff: &Diff<P, S>, path: &Path, out: &mut Vec<LeafItem<P>>, is_option: &F)
    requires
        shape_test_ok(*is_option),
    ensures
        items_model(final(out)@) == items_model(old(out)@) + diff_items(*diff, path@, oracle(*is_option)),
    decreases diff, 0nat,
{
    let ghost start = items_model(out@);
    match diff {
        Diff::Equal { .. } => {
            // No change
            proof {
                assert(items_model(out@) =~= start + diff_items(*diff, path@, oracle(*is_option)));
            }
        },
        Diff::Replace { from, to } => {
            // This is a leaf change
            let item = change_at(path.duplicate(), LeafChangeKind::Replace { from: *from, to: *to });
            proof {
                lemma_items_push(out@, item);
            }
            out.push(item);
            proof {
                assert(items_model(out@) =~= start + diff_items(*diff, path@, oracle(*is_option)));
            }
        },
        Diff::User { from, variant, value, .. } => {
            let is_opt = is_option(*from);
            proof {
                assert(is_opt == decided(*is_option, *from));
            }
            // For Option::Some, skip the variant in the path since it's implied
            let some = "Some";
            proof {
                reveal_strlit("Some");
                assert(some@ == some_name());
            }
            let base = match variant {
                Some(v) => {
                    if is_opt && str_eq(*v, some) {
                        path.duplicate()
                    } else {
                        path.with(PathSegment::Variant((*v).to_owned()))
                    }
                },
                None => path.duplicate(),
            };
            match value {
                Value::Struct { updates, deletions, insertions, .. } => {
                    // Updated fields are walked; deletions and insertions are leaves
                    collect_fields(updates, &base, out, is_option);
                    let ghost after_updates = items_model(out@);
                    collect_field_leaves(deletions, &base, true, out);
                    collect_field_leaves(insertions, &base, false, out);
                    proof {
                        assert(items_model(out@) =~= start + diff_items(*diff, path@, oracle(*is_option)));
                    }
                },
                Value::Tuple { updates } => {
                    // For single-element tuples (like Option::Some), skip the index
                    if is_opt {
                        collect_single_elem(updates, &base, out, is_option);
                    } else {
                        collect_updates(updates, &base, out, is_option);
                    }
                    proof {
                        assert(items_model(out@) =~= start + diff_items(*diff, path@, oracle(*is_option)));
                    }
                },
            }
        },
        Diff::Sequence { updates, .. } => {
            collect_updates(updates, path, out, is_option);
            proof {
                assert(items_model(out@) =~= start + diff_items(*diff, path@, oracle(*is_option)));
            }
        },
    }
}

/// Collect the items of updated fields, each under its field name.
fn collect_fields<P: Copy, S: Copy, F: Fn(S) -> bool>(
    fields: &Vec<(String, Diff<P, S>)>,
    base: &Path,
    out: &mut Vec<LeafItem<P>>,
    is_option: &F,
)
    requires
        shape_test_ok(*is_option),
    ensures
        items_model(final(out)@) == items_model(old(out)@) + field_items(fields@, base@, oracle(*is_option), fields@.len()),
    decreases fields@, 0nat,
{
    let ghost start = items_model(out@);
    let mut i: usize = 0;
    while i < fields.len()
        invariant
            i <= fields@.len(),
            shape_test_ok(*is_option),
            items_model(out@) == start + field_items(fields@, base@, oracle(*is_option), i as nat),
        decreases fields@.len() - i,
    {
        let field_path = base.with(PathSegment::Field(fields[i].0.clone()));
        let ghost before = items_model(out@);
        collect_diff(&fields[i].1, &field_path, out, is_option);
        proof {
            assert(items_model(out@) =~= start + field_items(fields@, base@, oracle(*is_option), (i + 1) as nat));
        }
        i = i + 1;
    }
}

/// Collect the items of nested diffs that all sit at `base`.
fn collect_same_path<P: Copy, S: Copy, F: Fn(S) -> bool>(
    ds: &Vec<Diff<P, S>>,
    base: &Path,
    out: &mut Vec<LeafItem<P>>,
    is_option: &F,
)
    requires
        shape_test_ok(*is_option),
    ensures
        items_model(final(out)@) == items_model(old(out)@) + same_path_items(ds@, base@, oracle(*is_option), ds@.len()),
    decreases ds@, 0nat,
{
    let ghost start = items_model(out@);
    let mut i: usize = 0;
    while i < ds.len()
        invariant
            i <= ds@.len(),
            shape_test_ok(*is_option),
            items_model(out@) == start + same_path_items(ds@, base@, oracle(*is_option), i as nat),
        decreases ds@.len() - i,
    {
        collect_diff(&ds[i], base, out, is_option);
        proof {
            assert(items_model(out@) =~= start + same_path_items(ds@, base@, oracle(*is_option), (i + 1) as nat));
        }
        i = i + 1;
    }
}

/// Collect the items of nested diffs, each at the next index.
fn collect_indexed<P: Copy, S: Copy, F: Fn(S) -> bool>(
    ds: &Vec<Diff<P, S>>,
    base: &Path,
    index: &mut usize,
    out: &mut Vec<LeafItem<P>>,
    is_option: &F,
)
    requires
        shape_test_ok(*is_option),
    ensures
        items_model(final(out)@) == items_model(old(out)@) + indexed_items(ds@, base@, oracle(*is_option), *old(index), ds@.len()).0,
        *final(index) == indexed_items(ds@, base@, oracle(*is_option), *old(index), ds@.len()).1,
    decreases ds@, 0nat,
{
    let ghost start = items_model(out@);
    let ghost idx0 = *index;
    let mut i: usize = 0;
    while i < ds.len()
        invariant
            i <= ds@.len(),
            shape_test_ok(*is_option),
            items_model(out@) == start + indexed_items(ds@, base@, oracle(*is_option), idx0, i as nat).0,
            *index == indexed_items(ds@, base@, oracle(*is_option), idx0, i as nat).1,
        decreases ds@.len() - i,
    {
        let elem_path = base.with(PathSegment::Index(*index));
        collect_diff(&ds[i], &elem_path, out, is_option);
        *index = (*index).wrapping_add(1);
        proof {
            assert(items_model(out@) =~= start + indexed_items(ds@, base@, oracle(*is_option), idx0, (i + 1) as nat).0);
        }
        i = i + 1;
    }
}

/// Collect the items of an updates group, advancing the index.
fn collect_group<P: Copy, S: Copy, F: Fn(S) -> bool>(
    g: &UpdatesGroup<P, S>,
    base: &Path,
    index: &mut usize,
    out: &mut Vec<LeafItem<P>>,
    is_option: &F,
)
    requires
        shape_test_ok(*is_option),
    ensures
        items_model(final(out)@) == items_model(old(out)@) + group_items(*g, base@, oracle(*is_option), *old(index)).0,
        *final(index) == group_items(*g, base@, oracle(*is_option), *old(index)).1,
    decreases g, 0nat,
{
    let ghost start = items_model(out@);
    let ghost idx0 = *index;
    // The leading replace group
    if let Some(r) = &g.0.first {
        collect_replace(r, base, index, out);
    }
    let ghost first_items = items_model(out@);
    let ghost idx1 = *index;
    // Interleaved (diffs, replace) pairs
    let mut i: usize = 0;
    while i < g.0.values.len()
        invariant
            i <= g.0.values@.len(),
            shape_test_ok(*is_option),
            items_model(out@) == first_items + group_pairs_items(g.0.values@, base@, oracle(*is_option), idx1, i as nat).0,
            *index == group_pairs_items(g.0.values@, base@, oracle(*is_option), idx1, i as nat).1,
        decreases g.0.values@.len() - i,
    {
        let ghost before = items_model(out@);
        collect_indexed(&g.0.values[i].0, base, index, out, is_option);
        collect_replace(&g.0.values[i].1, base, index, out);
        proof {
            assert(items_model(out@) =~= first_items + group_pairs_items(g.0.values@, base@, oracle(*is_option), idx1, (i + 1) as nat).0);
        }
        i = i + 1;
    }
    let ghost middle_items = items_model(out@);
    // Trailing diffs
    if let Some(ds) = &g.0.last {
        collect_indexed(ds, base, index, out, is_option);
    }
    proof {
        assert(items_model(out@) =~= start + group_items(*g, base@, oracle(*is_option), idx0).0);
    }
}

/// Collect the items of sequence updates, element indices counted from 0.
fn collect_updates<P: Copy, S: Copy, F: Fn(S) -> bool>(u: &Updates<P, S>, base: &Path, out: &mut Vec<LeafItem<P>>, is_option: &F)
    requires
        shape_test_ok(*is_option),
    ensures
        items_model(final(out)@) == items_model(old(out)@) + updates_items(*u, base@, oracle(*is_option)),
    decreases u, 0nat,
{
    let ghost start = items_model(out@);
    let mut index: usize = 0;
    // The first update group, if any
    if let Some(g) = &u.0.first {
        collect_group(g, base, &mut index, out, is_option);
    }
    let ghost first_items = items_model(out@);
    let ghost idx1 = index;
    // Interleaved (unchanged, update) pairs; trailing unchanged items add nothing
    let mut i: usize = 0;
    while i < u.0.values.len()
        invariant
            i <= u.0.values@.len(),
            shape_test_ok(*is_option),
            items_model(out@) == first_items + pairs_items(u.0.values@, base@, oracle(*is_option), idx1, i as nat).0,
            index == pairs_items(u.0.values@, base@, oracle(*is_option), idx1, i as nat).1,
        decreases u.0.values@.len() - i,
    {
        index = index.wrapping_add(u.0.values[i].0.len());
        collect_group(&u.0.values[i].1, base, &mut index, out, is_option);
        proof {
            assert(items_model(out@) =~= first_items + pairs_items(u.0.values@, base@, oracle(*is_option), idx1, (i + 1) as nat).0);
        }
        i = i + 1;
    }
    proof {
        assert(items_model(out@) =~= start + updates_items(*u, base@, oracle(*is_option)));
    }
}

/// Collect the items of a single-element tuple (such as `Option::Some`)
/// without adding an index to the path.
fn collect_single_elem<P: Copy, S: Copy, F: Fn(S) -> bool>(
    u: &Updates<P, S>,
    base: &Path,
    out: &mut Vec<LeafItem<P>>,
    is_option: &F,
)
    requires
        shape_test_ok(*is_option),
    ensures
        items_model(final(out)@) == items_model(old(out)@) + single_elem_items(*u, base@, oracle(*is_option)),
    decreases u, 1nat,
{
    let ghost start = items_model(out@);
    if let Some(g) = &u.0.first {
        // A one-to-one replacement in the first replace group
        if let Some(r) = &g.0.first {
            if r.removals.len() == 1 && r.additions.len() == 1 {
                let item = LeafItem::Nested { path: base.duplicate(), from: r.removals[0], to: r.additions[0] };
                proof {
                    lemma_items_push(out@, item);
                }
                out.push(item);
                proof {
                    assert(items_model(out@) =~= start + single_elem_items(*u, base@, oracle(*is_option)));
                }
                return;
            }
        }
        // Nested diffs
        if let Some(ds) = &g.0.last {
            collect_same_path(ds, base, out, is_option);
            return;
        }
    }
    // Fallback: the regular handling
    collect_updates(u, base, out, is_option);
}

/// Collect the leaf changes of a diff reached by `path`, with the one-to-one
/// replacements inside sequences left as nested items.
///
/// `is_option` tells which shapes are `Option` types: for those the `Some`
/// variant is left out of the path, and a single changed element is not
/// indexed.
pub fn collect_leaf_items<P: Copy, S: Copy, F: Fn(S) -> bool>(diff: &Diff<P, S>, path: &Path, is_option: F) -> (r: Vec<LeafItem<P>>)
    requires
        shape_test_ok(is_option),
    ensures
        items_model(r@) == diff_items(*diff, path@, oracle(is_option)),
{
    let mut out: Vec<LeafItem<P>> = Vec::new();
    proof {
        assert(items_model(out@) =~= Seq::<ItemModel<P>>::empty());
    }
    collect_diff(diff, path, &mut out, &is_option);
    proof {
        assert(items_model(out@) =~= diff_items(*diff, path@, oracle(is_option)));
    }
    out
}

/// Resolve a nested item, given the diff of its two values: a replacement
/// is a leaf change at the item's path; any other diff is walked from there.
pub fn resolve_nested<P: Copy, S: Copy, F: Fn(S) -> bool>(
    path: &Path,
    from: P,
    to: P,
    nested: &Diff<P, S>,
    is_option: F,
) -> (r: Vec<LeafItem<P>>)
    requires
        shape_test_ok(is_option),
    ensures
        items_model(r@) == (if nested is Replace {
            seq![ItemModel::Change(path@, LeafChangeKind::Replace { from, to })]
        } else {
            diff_items(*nested, path@, oracle(is_option))
        }),
{
    if let Diff::Replace { .. } = nested {
        let mut out: Vec<LeafItem<P>> = Vec::new();
        out.push(change_at(path.duplicate(), LeafChangeKind::Replace { from, to }));
        proof {
            assert(items_model(out@) =~= seq![ItemModel::Change(path@, LeafChangeKind::Replace { from, to })]);
        }
        out
    } else {
        collect_leaf_items(nested, path, is_option)
    }
}

} // verus!
