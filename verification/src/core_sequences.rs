//! Sequence diff types.
//!
//! These types represent the result of sequence diffing: removals and
//! additions collected into replace groups, interspersed with nested diffs
//! and with runs of unchanged items. Updates are pushed from the front,
//! because a sequence diff walks back to front.

use vstd::prelude::*;

use crate::types::Diff;

verus! {

/// An interspersed sequence of A and B values.
/// Pattern: [A?, (B, A)*, B?]
pub struct Interspersed<A, B> {
    /// The first A value (if any)
    pub first: Option<A>,
    /// Pairs of (B, A) values
    pub values: Vec<(B, A)>,
    /// The trailing B value (if any)
    pub last: Option<B>,
}

/// A value made by calling `make` once.
fn fresh_value<T, F: FnOnce() -> T>(make: F) -> (r: T)
    requires
        call_requires(make, ()),
    ensures
        call_ensures(make, (), r),
{
    make()
}

impl<A, B> Interspersed<A, B> {
    /// Get the front A value, or insert `fresh` there if there is none.
    pub(crate) fn front_a_with(&mut self, fresh: A) -> (r: &mut A)
        ensures
            *r == (match old(self).first {
                Some(a) => a,
                None => fresh,
            }),
            final(self).first == Some(*final(r)),
            final(self).values@ == old(self).values@,
            final(self).last == old(self).last,
    {
        self.first.get_or_insert(fresh)
    }

    /// Get or insert a default at the front for the A type.
    pub fn front_a(&mut self) -> (r: &mut A)
        where A: Default,
        ensures
            old(self).first matches Some(a) ==> *r == a,
            old(self).first is None ==> call_ensures(A::default, (), *r),
            final(self).first == Some(*final(r)),
            final(self).values@ == old(self).values@,
            final(self).last == old(self).last,
    {
        if self.first.is_none() {
            let d = fresh_value(A::default);
            self.first.insert(d)
        } else {
            self.first.as_mut().unwrap()
        }
    }

    /// Get the front B value: the A in front (if any) is first moved into a
    /// new pair with `fresh_pair`; the B of the first pair is returned, or else
    /// the trailing B, which is set to `fresh_last` if there is none.
    pub(crate) fn front_b_with(&mut self, fresh_pair: B, fresh_last: B) -> (r: &mut B)
        ensures
            final(self).first is None,
            ({
                let vals = match old(self).first {
                    Some(a) => seq![(fresh_pair, a)] + old(self).values@,
                    None => old(self).values@,
                };
                if vals.len() > 0 {
                    &&& *r == vals[0].0
                    &&& final(self).values@ == vals.update(0, (*final(r), vals[0].1))
                    &&& final(self).last == old(self).last
                } else {
                    &&& *r == (match old(self).last {
                        Some(b) => b,
                        None => fresh_last,
                    })
                    &&& final(self).values@ == vals
                    &&& final(self).last == Some(*final(r))
                }
            }),
    {
        if self.first.is_some() {
            let a = self.first.take().unwrap();
            self.values.insert(0, (fresh_pair, a));
        }
        if self.values.len() > 0 {
            &mut self.values[0].0
        } else {
            self.last.get_or_insert(fresh_last)
        }
    }

    /// Get or insert a default at the front for the B type.
    ///
    /// If there is an A in front, it is first moved into a new `(B, A)` pair
    /// with a default B.
    pub fn front_b(&mut self) -> (r: &mut B)
        where B: Default,
        ensures
            final(self).first is None,
            old(self).first is None && old(self).values@.len() > 0 ==> {
                &&& *r == old(self).values@[0].0
                &&& final(self).values@ == old(self).values@.update(0, (*final(r), old(self).values@[0].1))
                &&& final(self).last == old(self).last
            },
            old(self).first is None && old(self).values@.len() == 0 ==> {
                &&& (old(self).last matches Some(b) ==> *r == b)
                &&& (old(self).last is None ==> call_ensures(B::default, (), *r))
                &&& final(self).values@ == old(self).values@
                &&& final(self).last == Some(*final(r))
            },
            old(self).first matches Some(a) ==> {
                &&& final(self).values@.len() == old(self).values@.len() + 1
                &&& call_ensures(B::default, (), *r)
                &&& final(self).values@[0].1 == a
                &&& final(self).values@[0].0 == *final(r)
                &&& final(self).values@.skip(1) == old(self).values@
                &&& final(self).last == old(self).last
            },
    {
        if self.first.is_some() {
            let a = self.first.take().unwrap();
            let d = fresh_value(B::default);
            self.values.insert(0, (d, a));
        }
        if self.values.len() > 0 {
            &mut self.values[0].0
        } else if self.last.is_some() {
            self.last.as_mut().unwrap()
        } else {
            let d = fresh_value(B::default);
            self.last.insert(d)
        }
    }
}

impl<A, B> Default for Interspersed<A, B> {
    fn default() -> (r: Self)
        ensures
            r.first is None,
            r.values@.len() == 0,
            r.last is None,
    {
        Interspersed { first: None, values: Vec::new(), last: None }
    }
}

/// A group of values being replaced (removals paired with additions).
pub struct ReplaceGroup<P> {
    /// The values being removed
    pub removals: Vec<P>,
    /// The values being added
    pub additions: Vec<P>,
}

impl<P> Default for ReplaceGroup<P> {
    fn default() -> (r: Self)
        ensures
            r.removals@.len() == 0,
            r.additions@.len() == 0,
    {
        ReplaceGroup { removals: Vec::new(), additions: Vec::new() }
    }
}

impl<P> ReplaceGroup<P> {
    /// Push an addition at the front.
    pub fn push_add(&mut self, addition: P)
        ensures
            final(self).additions@ == seq![addition] + old(self).additions@,
            final(self).removals@ == old(self).removals@,
    {
        // Note: backtracking may interleave adds/removes when costs are equal.
        // We handle this by just collecting both.
        self.additions.insert(0, addition);
        proof {
            assert(self.additions@ =~= seq![addition] + old(self).additions@);
        }
    }

    /// Push a removal at the front.
    pub fn push_remove(&mut self, removal: P)
        ensures
            final(self).removals@ == seq![removal] + old(self).removals@,
            final(self).additions@ == old(self).additions@,
    {
        self.removals.insert(0, removal);
        proof {
            assert(self.removals@ =~= seq![removal] + old(self).removals@);
        }
    }
}

/// The model of a replace group: its removals and its additions.
pub open spec fn replace_view<P>(g: ReplaceGroup<P>) -> (Seq<P>, Seq<P>) {
    (g.removals@, g.additions@)
}

/// A group of updates containing replace groups interspersed with nested diffs.
pub struct UpdatesGroup<P, S>(
    /// The interspersed structure of replace groups and diffs
    pub Interspersed<ReplaceGroup<P>, Vec<Diff<P, S>>>,
);

/// The model of an updates group.
pub struct GroupView<P, S> {
    /// The leading replace group (removals, additions)
    pub first: Option<(Seq<P>, Seq<P>)>,
    /// Pairs of nested diffs and the replace group that follows them
    pub values: Seq<(Seq<Diff<P, S>>, (Seq<P>, Seq<P>))>,
    /// Trailing nested diffs
    pub last: Option<Seq<Diff<P, S>>>,
}

/// The model of an updates group: the contents of its vectors.
pub open spec fn group_view<P, S>(g: UpdatesGroup<P, S>) -> GroupView<P, S> {
    GroupView {
        first: match g.0.first {
            Some(r) => Some(replace_view(r)),
            None => None,
        },
        values: g.0.values@.map_values(|e: (Vec<Diff<P, S>>, ReplaceGroup<P>)| (e.0@, replace_view(e.1))),
        last: match g.0.last {
            Some(v) => Some(v@),
            None => None,
        },
    }
}

/// The group after an addition is pushed at its front.
pub open spec fn gv_push_add<P, S>(m: GroupView<P, S>, p: P) -> GroupView<P, S> {
    GroupView {
        first: Some(match m.first {
            Some(r) => (r.0, seq![p] + r.1),
            None => (Seq::empty(), seq![p]),
        }),
        ..m
    }
}

/// The group after a removal is pushed at its front.
pub open spec fn gv_push_remove<P, S>(m: GroupView<P, S>, p: P) -> GroupView<P, S> {
    GroupView {
        first: Some(match m.first {
            Some(r) => (seq![p] + r.0, r.1),
            None => (seq![p], Seq::empty()),
        }),
        ..m
    }
}

/// The group after a nested diff is pushed at its front: a leading replace
/// group first moves into a new pair, then the diff goes in front of the
/// first pair's diffs, or of the trailing diffs when there is no pair.
pub open spec fn gv_push_diff<P, S>(m: GroupView<P, S>, d: Diff<P, S>) -> GroupView<P, S> {
    let m1 = match m.first {
        Some(g) => GroupView { first: None, values: seq![(Seq::<Diff<P, S>>::empty(), g)] + m.values, last: m.last },
        None => m,
    };
    if m1.values.len() > 0 {
        GroupView {
            values: m1.values.update(0, (seq![d] + m1.values[0].0, m1.values[0].1)),
            ..m1
        }
    } else {
        GroupView {
            last: Some(seq![d] + match m1.last {
                Some(l) => l,
                None => Seq::empty(),
            }),
            ..m1
        }
    }
}

/// One step of walking back through the closeness table.
pub enum FlatStep {
    /// The addition at this index stays an addition.
    Add(int),
    /// The removal at this index stays a removal.
    Remove(int),
    /// The removal and the addition at these indices are paired into a nested diff.
    Pair(int, int),
}

/// Best total closeness for matching `removals[0..x]` with `additions[0..y]`,
/// where `c[i][j]` is the closeness of removal `i` and addition `j`.
pub open spec fn flatten_table(c: Seq<Seq<usize>>, x: nat, y: nat) -> int
    decreases x + y,
{
    if x == 0 || y == 0 {
        0
    } else {
        let skip_add = flatten_table(c, x, (y - 1) as nat);
        let pair = flatten_table(c, (x - 1) as nat, (y - 1) as nat) + c[x - 1][y - 1];
        if skip_add >= pair { skip_add } else { pair }
    }
}

/// The steps taken when walking the table back from `(x, y)` to `(0, 0)`,
/// in front-to-back order: an addition is kept as such while that does not
/// lose closeness, otherwise the removal and the addition are paired.
pub open spec fn flatten_path(c: Seq<Seq<usize>>, x: nat, y: nat) -> Seq<FlatStep>
    decreases x + y,
{
    if x == 0 && y == 0 {
        seq![]
    } else if x == 0 {
        flatten_path(c, x, (y - 1) as nat).push(FlatStep::Add(y - 1))
    } else if y == 0 {
        flatten_path(c, (x - 1) as nat, y).push(FlatStep::Remove(x - 1))
    } else if flatten_table(c, x, (y - 1) as nat) == flatten_table(c, x, y) {
        flatten_path(c, x, (y - 1) as nat).push(FlatStep::Add(y - 1))
    } else {
        flatten_path(c, (x - 1) as nat, (y - 1) as nat).push(FlatStep::Pair(x - 1, y - 1))
    }
}

/// The removal indices that steps take, alone or paired, front to back.
pub open spec fn removal_order(steps: Seq<FlatStep>) -> Seq<int>
    decreases steps.len(),
{
    if steps.len() == 0 {
        Seq::empty()
    } else {
        let prev = removal_order(steps.drop_last());
        match steps.last() {
            FlatStep::Remove(i) => prev.push(i),
            FlatStep::Pair(i, _) => prev.push(i),
            FlatStep::Add(_) => prev,
        }
    }
}

/// The addition indices that steps take, alone or paired, front to back.
pub open spec fn addition_order(steps: Seq<FlatStep>) -> Seq<int>
    decreases steps.len(),
{
    if steps.len() == 0 {
        Seq::empty()
    } else {
        let prev = addition_order(steps.drop_last());
        match steps.last() {
            FlatStep::Add(j) => prev.push(j),
            FlatStep::Pair(_, j) => prev.push(j),
            FlatStep::Remove(_) => prev,
        }
    }
}

/// Flattening loses nothing and reorders nothing: the steps taken from the
/// closeness table use every removal `0..x` once and every addition `0..y`
/// once, each in order, either alone or paired into a nested diff.
pub proof fn lemma_flatten_keeps_every_item(c: Seq<Seq<usize>>, x: nat, y: nat)
    ensures
        removal_order(flatten_path(c, x, y)) == Seq::new(x, |i: int| i),
        addition_order(flatten_path(c, x, y)) == Seq::new(y, |j: int| j),
    decreases x + y,
{
    let p = flatten_path(c, x, y);
    if x == 0 && y == 0 {
        assert(removal_order(p) =~= Seq::new(x, |i: int| i));
        assert(addition_order(p) =~= Seq::new(y, |j: int| j));
    } else if x == 0 || (y > 0 && x > 0 && flatten_table(c, x, (y - 1) as nat) == flatten_table(c, x, y)) {
        lemma_flatten_keeps_every_item(c, x, (y - 1) as nat);
        let q = flatten_path(c, x, (y - 1) as nat);
        assert(p.drop_last() =~= q);
        assert(removal_order(p) =~= Seq::new(x, |i: int| i));
        assert(addition_order(p) =~= Seq::new(y, |j: int| j));
    } else if y == 0 {
        lemma_flatten_keeps_every_item(c, (x - 1) as nat, y);
        let q = flatten_path(c, (x - 1) as nat, y);
        assert(p.drop_last() =~= q);
        assert(removal_order(p) =~= Seq::new(x, |i: int| i));
        assert(addition_order(p) =~= Seq::new(y, |j: int| j));
    } else {
        lemma_flatten_keeps_every_item(c, (x - 1) as nat, (y - 1) as nat);
        let q = flatten_path(c, (x - 1) as nat, (y - 1) as nat);
        assert(p.drop_last() =~= q);
        assert(removal_order(p) =~= Seq::new(x, |i: int| i));
        assert(addition_order(p) =~= Seq::new(y, |j: int| j));
    }
}

/// Apply one step to a group model; a pair takes its nested diff from `diffs`.
pub open spec fn gv_push_step<P, S>(
    m: GroupView<P, S>,
    step: FlatStep,
    removals: Seq<P>,
    additions: Seq<P>,
    diffs: Map<(int, int), Diff<P, S>>,
) -> GroupView<P, S> {
    match step {
        FlatStep::Add(j) => gv_push_add(m, additions[j]),
        FlatStep::Remove(i) => gv_push_remove(m, removals[i]),
        FlatStep::Pair(i, j) => gv_push_diff(m, diffs[(i, j)]),
    }
}

/// Apply steps back to front (the last step first), as pushes at the front.
pub open spec fn gv_apply_steps<P, S>(
    m: GroupView<P, S>,
    steps: Seq<FlatStep>,
    removals: Seq<P>,
    additions: Seq<P>,
    diffs: Map<(int, int), Diff<P, S>>,
) -> GroupView<P, S>
    decreases steps.len(),
{
    if steps.len() == 0 {
        m
    } else {
        gv_push_step(gv_apply_steps(m, steps.drop_first(), removals, additions, diffs), steps[0], removals, additions, diffs)
    }
}

/// `c` holds a closeness value that `closeness_fn` may return for every
/// (removal, addition) pair.
pub open spec fn closeness_table_ok<P, C: Fn(P, P) -> usize>(
    closeness_fn: C,
    removals: Seq<P>,
    additions: Seq<P>,
    c: Seq<Seq<usize>>,
) -> bool {
    &&& c.len() == removals.len()
    &&& forall|i: int| 0 <= i < c.len() ==> #[trigger] c[i].len() == additions.len()
    &&& forall|i: int, j: int| 0 <= i < removals.len() && 0 <= j < additions.len()
        ==> closeness_fn.ensures((removals[i], additions[j]), #[trigger] c[i][j])
}

/// Every nested diff in `diffs` is one that `diff_fn` may return for its pair.
pub open spec fn pair_diffs_ok<P, S, D: Fn(P, P) -> Diff<P, S>>(
    diff_fn: D,
    removals: Seq<P>,
    additions: Seq<P>,
    diffs: Map<(int, int), Diff<P, S>>,
) -> bool {
    forall|i: int, j: int| #[trigger] diffs.contains_key((i, j))
        ==> 0 <= i < removals.len() && 0 <= j < additions.len()
            && diff_fn.ensures((removals[i], additions[j]), diffs[(i, j)])
}

/// The relation between a group before and after `flatten_with`: with no
/// leading replace group nothing changes; otherwise the leading group is
/// taken out and the steps of the closeness table's best path are pushed
/// back at the front, each pair as the nested diff that `diff_fn` gave.
pub open spec fn group_flattened<P, S, C: Fn(P, P) -> usize, D: Fn(P, P) -> Diff<P, S>>(
    before: GroupView<P, S>,
    after: GroupView<P, S>,
    closeness_fn: C,
    diff_fn: D,
) -> bool {
    match before.first {
        None => after == before,
        Some(g) => exists|c: Seq<Seq<usize>>, diffs: Map<(int, int), Diff<P, S>>|
            {
                &&& closeness_table_ok(closeness_fn, g.0, g.1, c)
                &&& pair_diffs_ok(diff_fn, g.0, g.1, diffs)
                &&& after == gv_apply_steps(
                    GroupView { first: None, ..before },
                    flatten_path(c, g.0.len(), g.1.len()),
                    g.0,
                    g.1,
                    diffs,
                )
            },
    }
}

/// Closeness values stay small enough that summing one per removal cannot overflow.
pub open spec fn closeness_bounded<P, C: Fn(P, P) -> usize>(closeness_fn: C, n: int) -> bool {
    forall|a: P, b: P, r: usize| #[trigger] closeness_fn.ensures((a, b), r) ==> r * n <= usize::MAX
}

/// The table's values are bounded by the number of removals times the bound
/// on a single closeness value.
pub proof fn lemma_table_bound(c: Seq<Seq<usize>>, x: nat, y: nat, k: int)
    requires
        0 <= k,
        forall|i: int, j: int| 0 <= i < x && 0 <= j < y ==> #[trigger] c[i][j] <= k,
    ensures
        0 <= flatten_table(c, x, y) <= x * k,
    decreases x + y,
{
    if x > 0 && y > 0 {
        lemma_table_bound(c, x, (y - 1) as nat, k);
        lemma_table_bound(c, (x - 1) as nat, (y - 1) as nat, k);
        assert((x - 1) * k + k == x * k) by (nonlinear_arith);
    }
    if x > 0 && y == 0 {
        assert(0 <= x * k) by (nonlinear_arith) requires x > 0, k >= 0;
    }
}

/// The table only reads the closeness values below `(x, y)`.
pub proof fn lemma_table_frame(c1: Seq<Seq<usize>>, c2: Seq<Seq<usize>>, x: nat, y: nat)
    requires
        forall|i: int, j: int| 0 <= i < x && 0 <= j < y ==> #[trigger] c1[i][j] == c2[i][j],
    ensures
        flatten_table(c1, x, y) == flatten_table(c2, x, y),
    decreases x + y,
{
    if x > 0 && y > 0 {
        lemma_table_frame(c1, c2, x, (y - 1) as nat);
        lemma_table_frame(c1, c2, (x - 1) as nat, (y - 1) as nat);
    }
}

impl<P: Copy, S> UpdatesGroup<P, S> {
    /// Push an addition.
    pub fn push_add(&mut self, addition: P)
        ensures
            group_view(*final(self)) == gv_push_add(group_view(*old(self)), addition),
    {
        let fresh: ReplaceGroup<P> = ReplaceGroup::default();
        let g = self.0.front_a_with(fresh);
        g.push_add(addition);
        proof {
            assert(group_view(*self).values =~= group_view(*old(self)).values);
            match old(self).0.first {
                Some(a) => {},
                None => {
                    assert(fresh.removals@ =~= Seq::<P>::empty());
                    assert(seq![addition] + fresh.additions@ =~= seq![addition]);
                },
            }
        }
    }

    /// Push a removal.
    pub fn push_remove(&mut self, removal: P)
        ensures
            group_view(*final(self)) == gv_push_remove(group_view(*old(self)), removal),
    {
        let fresh: ReplaceGroup<P> = ReplaceGroup::default();
        let g = self.0.front_a_with(fresh);
        g.push_remove(removal);
        proof {
            assert(group_view(*self).values =~= group_view(*old(self)).values);
            match old(self).0.first {
                Some(a) => {},
                None => {
                    assert(fresh.additions@ =~= Seq::<P>::empty());
                    assert(seq![removal] + fresh.removals@ =~= seq![removal]);
                },
            }
        }
    }

    /// Push a nested diff at the front.
    fn push_diff(&mut self, diff: Diff<P, S>)
        ensures
            group_view(*final(self)) == gv_push_diff(group_view(*old(self)), diff),
    {
        let ghost m = group_view(*old(self));
        let fresh_pair: Vec<Diff<P, S>> = Vec::new();
        let fresh_last: Vec<Diff<P, S>> = Vec::new();
        let front = self.0.front_b_with(fresh_pair, fresh_last);
        let ghost before_insert = *front;
        front.insert(0, diff);
        proof {
            let vals = match old(self).0.first {
                Some(a) => seq![(fresh_pair, a)] + old(self).0.values@,
                None => old(self).0.values@,
            };
            let m1 = match m.first {
                Some(g) => GroupView { first: None, values: seq![(Seq::<Diff<P, S>>::empty(), g)] + m.values, last: m.last },
                None => m,
            };
            let f = |e: (Vec<Diff<P, S>>, ReplaceGroup<P>)| (e.0@, replace_view(e.1));
            assert(m1.values =~= vals.map_values(f));
            let v = group_view(*self);
            if vals.len() > 0 {
                assert(self.0.values@ == vals.update(0, (*front, vals[0].1)));
                assert(front@ =~= seq![diff] + before_insert@);
                assert(v.values =~= m1.values.update(0, (seq![diff] + m1.values[0].0, m1.values[0].1)));
            } else {
                assert(v.values =~= m1.values);
                assert(front@ =~= seq![diff] + before_insert@);
                match old(self).0.last {
                    Some(l) => {},
                    None => { assert(seq![diff] + fresh_last@ =~= seq![diff] + Seq::<Diff<P, S>>::empty()); },
                }
            }
        }
    }
}

/// Applying steps reads only the nested diffs of the pairs among them.
proof fn lemma_apply_frame<P, S>(
    m: GroupView<P, S>,
    steps: Seq<FlatStep>,
    removals: Seq<P>,
    additions: Seq<P>,
    d1: Map<(int, int), Diff<P, S>>,
    d2: Map<(int, int), Diff<P, S>>,
)
    requires
        forall|k: int| #![trigger steps[k]] 0 <= k < steps.len() ==> (steps[k] matches FlatStep::Pair(i, j)
            ==> d1.contains_key((i, j)) && d2.contains_key((i, j)) && d1[(i, j)] == d2[(i, j)]),
    ensures
        gv_apply_steps(m, steps, removals, additions, d1) == gv_apply_steps(m, steps, removals, additions, d2),
    decreases steps.len(),
{
    if steps.len() > 0 {
        let rest = steps.drop_first();
        assert forall|k: int| #![trigger rest[k]] 0 <= k < rest.len() implies (rest[k] matches FlatStep::Pair(i, j)
            ==> d1.contains_key((i, j)) && d2.contains_key((i, j)) && d1[(i, j)] == d2[(i, j)]) by {
            assert(steps[k + 1] == rest[k]);
        }
        lemma_apply_frame(m, steps.drop_first(), removals, additions, d1, d2);
        if let FlatStep::Pair(i, j) = steps[0] {
            assert(d1[(i, j)] == d2[(i, j)]);
        }
    }
}

impl<P: Copy, S> UpdatesGroup<P, S> {
    /// Flatten the leading replace group using closeness and diff-creating functions.
    ///
    /// - `closeness_fn`: takes two values and returns a score (higher = more similar)
    /// - `diff_fn`: takes two values and returns a Diff
    ///
    /// A table of best total closeness is filled for every prefix of removals
    /// and additions; walking it back, additions are kept while that loses no
    /// closeness, otherwise the removal and the addition are paired into the
    /// nested diff that `diff_fn` returns.
    pub fn flatten_with<C, D>(&mut self, closeness_fn: C, diff_fn: D)
        where C: Fn(P, P) -> usize, D: Fn(P, P) -> Diff<P, S>,
        requires
            forall|a: P, b: P| closeness_fn.requires((a, b)),
            forall|a: P, b: P| diff_fn.requires((a, b)),
            old(self).0.first matches Some(g) ==> closeness_bounded(closeness_fn, g.removals@.len() as int),
        ensures
            group_flattened(group_view(*old(self)), group_view(*final(self)), closeness_fn, diff_fn),
    {
        let ghost before = group_view(*self);
        let updates = match self.0.first.take() {
            Some(u) => u,
            None => {
                return ;
            },
        };
        let ghost rem = updates.removals@;
        let ghost add = updates.additions@;
        let n = updates.removals.len();
        let m = updates.additions.len();
        let ghost k: int = if n == 0 { 0 } else { usize::MAX as int / n as int };
        // mem[x][y] tracks the closeness score for matching removals[0..x] with additions[0..y]
        let mut mem: Vec<Vec<usize>> = Vec::new();
        let mut first_row: Vec<usize> = Vec::new();
        first_row.push(0);
        let mut y0: usize = 0;
        while y0 < m
            invariant
                first_row@.len() == y0 + 1,
                y0 <= m,
                forall|j: int| 0 <= j < first_row@.len() ==> first_row@[j] == 0,
            decreases m - y0,
        {
            first_row.push(0);
            y0 = y0 + 1;
        }
        mem.push(first_row);
        let ghost mut c: Seq<Seq<usize>> = seq![];
        let mut x: usize = 0;
        while x < n
            invariant
                n == rem.len(),
                m == add.len(),
                rem == updates.removals@,
                add == updates.additions@,
                forall|a: P, b: P| closeness_fn.requires((a, b)),
                n > 0 ==> closeness_bounded(closeness_fn, n as int),
                n > 0 ==> k == usize::MAX as int / n as int,
                0 <= x <= n,
                mem@.len() == x + 1,
                c.len() == x,
                forall|i: int| 0 <= i < x ==> #[trigger] c[i].len() == m,
                forall|i: int, j: int| 0 <= i < x && 0 <= j < m ==> closeness_fn.ensures((rem[i], add[j]), #[trigger] c[i][j]),
                forall|i: int, j: int| 0 <= i < x && 0 <= j < m ==> #[trigger] c[i][j] <= k,
                forall|i: int| 0 <= i <= x ==> #[trigger] mem@[i]@.len() == m + 1,
                forall|i: int, j: int| 0 <= i <= x && 0 <= j <= m ==> #[trigger] mem@[i]@[j] == flatten_table(c, i as nat, j as nat),
            decreases n - x,
        {
            let mut row: Vec<usize> = Vec::new();
            row.push(0);
            let ghost mut crow: Seq<usize> = seq![];
            let mut y: usize = 0;
            while y < m
                invariant
                    n == rem.len(),
                    m == add.len(),
                    rem == updates.removals@,
                    add == updates.additions@,
                    forall|a: P, b: P| closeness_fn.requires((a, b)),
                    n > 0 ==> closeness_bounded(closeness_fn, n as int),
                    n > 0 ==> k == usize::MAX as int / n as int,
                    0 <= x < n,
                    0 <= y <= m,
                    mem@.len() == x + 1,
                    c.len() == x,
                    crow.len() == y,
                    row@.len() == y + 1,
                    forall|i: int| 0 <= i < x ==> #[trigger] c[i].len() == m,
                    forall|i: int, j: int| 0 <= i < x && 0 <= j < m ==> #[trigger] c[i][j] <= k,
                    forall|j: int| 0 <= j < y ==> #[trigger] crow[j] <= k,
                    forall|j: int| 0 <= j < y ==> closeness_fn.ensures((rem[x as int], add[j]), #[trigger] crow[j]),
                    forall|i: int| 0 <= i <= x ==> #[trigger] mem@[i]@.len() == m + 1,
                    forall|i: int, j: int| 0 <= i <= x && 0 <= j <= m ==> #[trigger] mem@[i]@[j] == flatten_table(c, i as nat, j as nat),
                    forall|j: int| 0 <= j <= y ==> #[trigger] row@[j] == flatten_table(c.push(crow), (x + 1) as nat, j as nat),
                decreases m - y,
            {
                let cv = closeness_fn(updates.removals[x], updates.additions[y]);
                proof {
                    assert(cv * n <= usize::MAX);
                    assert(cv <= k) by (nonlinear_arith)
                        requires cv * n <= usize::MAX, n > 0, k == usize::MAX as int / n as int;
                    let cc = c.push(crow);
                    assert forall|i: int, j: int| 0 <= i < x && 0 <= j < y implies #[trigger] cc[i][j] <= k by {
                        assert(cc[i] == c[i]);
                    }
                    lemma_table_bound(c, x as nat, y as nat, k);
                    assert(x * k + k <= usize::MAX) by (nonlinear_arith)
                        requires x < n, n > 0, k == usize::MAX as int / n as int, k >= 0;
                }
                let prev = row[y];
                let cand = mem[x][y] + cv;
                let v = if prev >= cand { prev } else { cand };
                let ghost old_crow = crow;
                row.push(v);
                proof {
                    crow = crow.push(cv);
                    let c_old = c.push(old_crow);
                    let c_new = c.push(crow);
                    assert forall|j: int| 0 <= j <= y implies #[trigger] row@[j] == flatten_table(c_new, (x + 1) as nat, j as nat) by {
                        assert forall|i2: int, j2: int| 0 <= i2 < x + 1 && 0 <= j2 < j implies #[trigger] c_old[i2][j2] == c_new[i2][j2] by {
                            if i2 < x {
                                assert(c_old[i2] == c[i2]);
                                assert(c_new[i2] == c[i2]);
                            } else {
                                assert(c_old[i2] == old_crow);
                                assert(c_new[i2] == crow);
                            }
                        }
                        lemma_table_frame(c_old, c_new, (x + 1) as nat, j as nat);
                    }
                    assert forall|i2: int, j2: int| 0 <= i2 < x && 0 <= j2 < y implies #[trigger] c[i2][j2] == c_new[i2][j2] by {
                        assert(c_new[i2] == c[i2]);
                    }
                    lemma_table_frame(c, c_new, x as nat, y as nat);
                    assert(c_new[x as int][y as int] == cv);
                    assert(row@[y as int] == flatten_table(c_new, (x + 1) as nat, y as nat));
                    assert(mem@[x as int]@[y as int] == flatten_table(c_new, x as nat, y as nat));
                    assert(row@[y + 1] == v);
                    assert(flatten_table(c_new, (x + 1) as nat, (y + 1) as nat) == {
                        let skip_add = flatten_table(c_new, (x + 1) as nat, y as nat);
                        let pair = flatten_table(c_new, x as nat, y as nat) + c_new[x as int][y as int];
                        if skip_add >= pair { skip_add } else { pair }
                    });
                    assert(row@[y + 1] == flatten_table(c_new, (x + 1) as nat, (y + 1) as nat));
                }
                y = y + 1;
            }
            mem.push(row);
            proof {
                let c_new = c.push(crow);
                assert forall|i: int, j: int| 0 <= i <= x + 1 && 0 <= j <= m implies #[trigger] mem@[i]@[j] == flatten_table(c_new, i as nat, j as nat) by {
                    if i <= x {
                        assert forall|i2: int, j2: int| 0 <= i2 < i && 0 <= j2 < j implies #[trigger] c[i2][j2] == c_new[i2][j2] by {
                            assert(c_new[i2] == c[i2]);
                        }
                        lemma_table_frame(c, c_new, i as nat, j as nat);
                    }
                }
                assert forall|i: int, j: int| 0 <= i < x + 1 && 0 <= j < m implies closeness_fn.ensures((rem[i], add[j]), #[trigger] c_new[i][j]) by {
                    if i < x {
                        assert(c_new[i] == c[i]);
                    } else {
                        assert(c_new[i] == crow);
                    }
                }
                assert forall|i: int, j: int| 0 <= i < x + 1 && 0 <= j < m implies #[trigger] c_new[i][j] <= k by {
                    if i < x {
                        assert(c_new[i] == c[i]);
                    } else {
                        assert(c_new[i] == crow);
                    }
                }
                c = c_new;
            }
            x = x + 1;
        }
        let mut x: usize = n;
        let mut y: usize = m;
        let ghost base = group_view(*self);
        let ghost total = flatten_path(c, n as nat, m as nat);
        let ghost mut suffix: Seq<FlatStep> = seq![];
        let ghost mut diffs: Map<(int, int), Diff<P, S>> = Map::empty();
        proof {
            assert(total =~= flatten_path(c, x as nat, y as nat) + suffix);
        }
        while x > 0 || y > 0
            invariant
                n == rem.len(),
                m == add.len(),
                rem == updates.removals@,
                add == updates.additions@,
                forall|a: P, b: P| diff_fn.requires((a, b)),
                x <= n,
                y <= m,
                mem@.len() == n + 1,
                forall|i: int| 0 <= i <= n ==> #[trigger] mem@[i]@.len() == m + 1,
                forall|i: int, j: int| 0 <= i <= n && 0 <= j <= m ==> #[trigger] mem@[i]@[j] == flatten_table(c, i as nat, j as nat),
                total == flatten_path(c, x as nat, y as nat) + suffix,
                group_view(*self) == gv_apply_steps(base, suffix, rem, add, diffs),
                pair_diffs_ok(diff_fn, rem, add, diffs),
                forall|i: int, j: int| #[trigger] diffs.contains_key((i, j)) ==> i >= x,
                forall|k2: int| #![trigger suffix[k2]] 0 <= k2 < suffix.len() ==> (suffix[k2] matches FlatStep::Pair(i, j)
                    ==> diffs.contains_key((i, j))),
            decreases x + y,
        {
            let ghost old_suffix = suffix;
            let ghost old_diffs = diffs;
            if x == 0 {
                self.push_add(updates.additions[y - 1]);
                proof { suffix = seq![FlatStep::Add(y - 1)] + suffix; }
                y = y - 1;
            } else if y == 0 {
                self.push_remove(updates.removals[x - 1]);
                proof { suffix = seq![FlatStep::Remove(x - 1)] + suffix; }
                x = x - 1;
            } else if mem[x][y - 1] == mem[x][y] {
                self.push_add(updates.additions[y - 1]);
                proof { suffix = seq![FlatStep::Add(y - 1)] + suffix; }
                y = y - 1;
            } else {
                let diff = diff_fn(updates.removals[x - 1], updates.additions[y - 1]);
                proof {
                    suffix = seq![FlatStep::Pair(x - 1, y - 1)] + suffix;
                    diffs = diffs.insert(((x - 1) as int, (y - 1) as int), diff);
                    lemma_apply_frame(base, old_suffix, rem, add, old_diffs, diffs);
                }
                self.push_diff(diff);
                x = x - 1;
                y = y - 1;
            }
            proof {
                assert(total =~= flatten_path(c, x as nat, y as nat) + suffix);
                assert(suffix.drop_first() =~= old_suffix);
                assert forall|k2: int| #![trigger suffix[k2]] 0 <= k2 < suffix.len() implies (suffix[k2] matches FlatStep::Pair(i, j)
                    ==> diffs.contains_key((i, j))) by {
                    if k2 > 0 {
                        assert(suffix[k2] == old_suffix[k2 - 1]);
                    }
                }
            }
        }
        proof {
            assert(suffix =~= total);
            assert(base == GroupView { first: None, ..before });
            assert(closeness_table_ok(closeness_fn, rem, add, c));
        }
    }
}

impl<P, S> Default for UpdatesGroup<P, S> {
    fn default() -> (r: Self)
        ensures
            r.0.first is None,
            r.0.values@.len() == 0,
            r.0.last is None,
    {
        UpdatesGroup(Interspersed { first: None, values: Vec::new(), last: None })
    }
}

/// Sequence updates: update groups interspersed with unchanged items.
pub struct Updates<P, S>(
    /// The interspersed structure
    pub Interspersed<UpdatesGroup<P, S>, Vec<P>>,
);

impl<P, S> Default for Updates<P, S> {
    fn default() -> (r: Self)
        ensures
            r.0.first is None,
            r.0.values@.len() == 0,
            r.0.last is None,
    {
        Updates(Interspersed { first: None, values: Vec::new(), last: None })
    }
}

/// Number of unchanged items in the first `k` (unchanged, update) pairs.
pub open spec fn kept_in_pairs<P, S>(values: Seq<(Vec<P>, UpdatesGroup<P, S>)>, k: int) -> int
    decreases k,
{
    if k <= 0 {
        0
    } else {
        kept_in_pairs(values, k - 1) + values[k - 1].0@.len()
    }
}

/// How similar the two sequences are: the number of unchanged items.
pub open spec fn updates_closeness<P, S>(u: Updates<P, S>) -> int {
    kept_in_pairs(u.0.values@, u.0.values@.len() as int) + match u.0.last {
        Some(v) => v@.len() as int,
        None => 0,
    }
}

/// Whether there are no changes at all (every item unchanged).
pub open spec fn updates_is_empty<P, S>(u: Updates<P, S>) -> bool {
    u.0.first is None && u.0.values@.len() == 0
}

proof fn lemma_kept_monotone<P, S>(values: Seq<(Vec<P>, UpdatesGroup<P, S>)>, j: int, k: int)
    requires
        0 <= j <= k,
    ensures
        kept_in_pairs(values, j) <= kept_in_pairs(values, k),
    decreases k - j,
{
    if j < k {
        lemma_kept_monotone(values, j, k - 1);
    }
}

/// The model of sequence updates.
pub struct UpdatesView<P, S> {
    /// The leading update group
    pub first: Option<GroupView<P, S>>,
    /// Pairs of unchanged runs and the update group that follows them
    pub values: Seq<(Seq<P>, GroupView<P, S>)>,
    /// The trailing run of unchanged items
    pub last: Option<Seq<P>>,
}

/// The model of sequence updates: the contents of their vectors.
pub open spec fn updates_view<P, S>(u: Updates<P, S>) -> UpdatesView<P, S> {
    UpdatesView {
        first: match u.0.first {
            Some(g) => Some(group_view(g)),
            None => None,
        },
        values: u.0.values@.map_values(|e: (Vec<P>, UpdatesGroup<P, S>)| (e.0@, group_view(e.1))),
        last: match u.0.last {
            Some(v) => Some(v@),
            None => None,
        },
    }
}

/// The group model with nothing in it.
pub open spec fn gv_empty<P, S>() -> GroupView<P, S> {
    GroupView { first: None, values: Seq::empty(), last: None }
}

/// The leading group after `f` is applied to it (an empty group where there is none).
pub open spec fn uv_map_front<P, S>(u: UpdatesView<P, S>, f: spec_fn(GroupView<P, S>) -> GroupView<P, S>) -> UpdatesView<P, S> {
    UpdatesView {
        first: Some(f(match u.first {
            Some(g) => g,
            None => gv_empty(),
        })),
        ..u
    }
}

/// The updates after an unchanged item is pushed at their front: a leading
/// group first moves into a new pair, then the item goes in front of the first
/// pair's run, or of the trailing run when there is no pair.
pub open spec fn uv_push_keep<P, S>(u: UpdatesView<P, S>, p: P) -> UpdatesView<P, S> {
    let u1 = match u.first {
        Some(g) => UpdatesView { first: None, values: seq![(Seq::<P>::empty(), g)] + u.values, last: u.last },
        None => u,
    };
    if u1.values.len() > 0 {
        UpdatesView {
            values: u1.values.update(0, (seq![p] + u1.values[0].0, u1.values[0].1)),
            ..u1
        }
    } else {
        UpdatesView {
            last: Some(seq![p] + match u1.last {
                Some(l) => l,
                None => Seq::empty(),
            }),
            ..u1
        }
    }
}

/// The number of removals in the leading replace group of a group.
pub open spec fn front_removals<P, S>(g: GroupView<P, S>) -> int {
    match g.first {
        Some(r) => r.0.len() as int,
        None => 0,
    }
}

/// Closeness values stay small enough for every group of the updates to be flattened.
pub open spec fn updates_closeness_bounded<P, S, C: Fn(P, P) -> usize>(u: UpdatesView<P, S>, closeness_fn: C) -> bool {
    &&& (u.first matches Some(g) ==> closeness_bounded(closeness_fn, front_removals(g)))
    &&& forall|i: int| 0 <= i < u.values.len() ==> closeness_bounded(closeness_fn, front_removals(#[trigger] u.values[i].1))
}

impl<P: Copy, S> Updates<P, S> {
    /// Push an addition at the front.
    ///
    /// All `push_*` methods push from the front, because a sequence diff
    /// finds updates back to front.
    pub fn push_add(&mut self, addition: P)
        ensures
            updates_view(*final(self)) == uv_map_front(updates_view(*old(self)), |g: GroupView<P, S>| gv_push_add(g, addition)),
    {
        let fresh: UpdatesGroup<P, S> = UpdatesGroup::default();
        let g = self.0.front_a_with(fresh);
        g.push_add(addition);
        proof {
            assert(updates_view(*self).values =~= updates_view(*old(self)).values);
            if old(self).0.first is None {
                assert(group_view(fresh).values =~= Seq::<(Seq<Diff<P, S>>, (Seq<P>, Seq<P>))>::empty());
            }
        }
    }

    /// Push a removal at the front.
    pub fn push_remove(&mut self, removal: P)
        ensures
            updates_view(*final(self)) == uv_map_front(updates_view(*old(self)), |g: GroupView<P, S>| gv_push_remove(g, removal)),
    {
        let fresh: UpdatesGroup<P, S> = UpdatesGroup::default();
        let g = self.0.front_a_with(fresh);
        g.push_remove(removal);
        proof {
            assert(updates_view(*self).values =~= updates_view(*old(self)).values);
            if old(self).0.first is None {
                assert(group_view(fresh).values =~= Seq::<(Seq<Diff<P, S>>, (Seq<P>, Seq<P>))>::empty());
            }
        }
    }

    /// Push a kept value at the front.
    pub fn push_keep(&mut self, value: P)
        ensures
            updates_view(*final(self)) == uv_push_keep(updates_view(*old(self)), value),
    {
        let ghost m = updates_view(*old(self));
        let fresh_pair: Vec<P> = Vec::new();
        let fresh_last: Vec<P> = Vec::new();
        let front = self.0.front_b_with(fresh_pair, fresh_last);
        let ghost before_insert = *front;
        front.insert(0, value);
        proof {
            let vals = match old(self).0.first {
                Some(a) => seq![(fresh_pair, a)] + old(self).0.values@,
                None => old(self).0.values@,
            };
            let m1 = match m.first {
                Some(g) => UpdatesView { first: None, values: seq![(Seq::<P>::empty(), g)] + m.values, last: m.last },
                None => m,
            };
            let f = |e: (Vec<P>, UpdatesGroup<P, S>)| (e.0@, group_view(e.1));
            assert(m1.values =~= vals.map_values(f));
            let v = updates_view(*self);
            if vals.len() > 0 {
                assert(self.0.values@ == vals.update(0, (*front, vals[0].1)));
                assert(front@ =~= seq![value] + before_insert@);
                assert(v.values =~= m1.values.update(0, (seq![value] + m1.values[0].0, m1.values[0].1)));
            } else {
                assert(v.values =~= m1.values);
                assert(front@ =~= seq![value] + before_insert@);
                match old(self).0.last {
                    Some(l) => {},
                    None => { assert(seq![value] + fresh_last@ =~= seq![value] + Seq::<P>::empty()); },
                }
            }
        }
    }

    /// Flatten all update groups using the provided closeness and diff functions.
    pub fn flatten_with<C, D>(&mut self, closeness_fn: C, diff_fn: D)
        where C: Fn(P, P) -> usize + Copy, D: Fn(P, P) -> Diff<P, S> + Copy,
        requires
            forall|a: P, b: P| closeness_fn.requires((a, b)),
            forall|a: P, b: P| diff_fn.requires((a, b)),
            updates_closeness_bounded(updates_view(*old(self)), closeness_fn),
        ensures
            ({
                let before = updates_view(*old(self));
                let after = updates_view(*final(self));
                &&& after.last == before.last
                &&& after.values.len() == before.values.len()
                &&& (before.first is None <==> after.first is None)
                &&& (before.first matches Some(g) ==> group_flattened(g, after.first->0, closeness_fn, diff_fn))
                &&& forall|i: int| 0 <= i < before.values.len() ==> {
                    &&& (#[trigger] after.values[i]).0 == before.values[i].0
                    &&& group_flattened(before.values[i].1, after.values[i].1, closeness_fn, diff_fn)
                }
            }),
    {
        let ghost before = updates_view(*self);
        if self.0.first.is_some() {
            let mut g = self.0.first.take().unwrap();
            g.flatten_with(closeness_fn, diff_fn);
            self.0.first = Some(g);
        }
        let n = self.0.values.len();
        let mut i: usize = 0;
        while i < n
            invariant
                n == self.0.values@.len(),
                0 <= i <= n,
                forall|a: P, b: P| closeness_fn.requires((a, b)),
                forall|a: P, b: P| diff_fn.requires((a, b)),
                updates_closeness_bounded(before, closeness_fn),
                before.values.len() == n,
                updates_view(*self).last == before.last,
                (before.first is None <==> updates_view(*self).first is None),
                before.first matches Some(g) ==> group_flattened(g, updates_view(*self).first->0, closeness_fn, diff_fn),
                forall|j: int| 0 <= j < n ==> (#[trigger] updates_view(*self).values[j]).0 == before.values[j].0,
                forall|j: int| 0 <= j < i ==> group_flattened(before.values[j].1, #[trigger] updates_view(*self).values[j].1, closeness_fn, diff_fn),
                forall|j: int| i <= j < n ==> #[trigger] updates_view(*self).values[j] == before.values[j],
            decreases n - i,
        {
            let ghost prev = self.0.values@;
            let ghost pv = updates_view(*self);
            let mut pair = self.0.values.remove(i);
            proof {
                assert(pv.values[i as int] == before.values[i as int]);
                assert(group_view(pair.1) == before.values[i as int].1);
                assert(closeness_bounded(closeness_fn, front_removals(before.values[i as int].1)));
            }
            pair.1.flatten_with(closeness_fn, diff_fn);
            self.0.values.insert(i, pair);
            proof {
                let nv = updates_view(*self);
                assert(self.0.values@ =~= prev.update(i as int, pair));
                assert forall|j: int| 0 <= j < n && j != i implies #[trigger] nv.values[j] == pv.values[j] by {
                    assert(self.0.values@[j] == prev[j]);
                }
            }
            i = i + 1;
        }
    }
}

impl<P, S> Updates<P, S> {
    /// Returns a measure of how similar the sequences are (higher = more similar).
    pub fn closeness(&self) -> (r: usize)
        requires
            updates_closeness(*self) <= usize::MAX,
        ensures
            r == updates_closeness(*self),
    {
        let n = self.0.values.len();
        let mut total: usize = 0;
        let mut i: usize = 0;
        while i < n
            invariant
                n == self.0.values@.len(),
                0 <= i <= n,
                total == kept_in_pairs(self.0.values@, i as int),
                updates_closeness(*self) <= usize::MAX,
            decreases n - i,
        {
            proof {
                lemma_kept_monotone(self.0.values@, i as int + 1, n as int);
            }
            total = total + self.0.values[i].0.len();
            i = i + 1;
        }
        match &self.0.last {
            Some(v) => total + v.len(),
            None => total,
        }
    }

    /// The number of unchanged items, capped at `usize::MAX`.
    pub fn capped_closeness(&self) -> (r: usize)
        ensures
            r == (if updates_closeness(*self) <= usize::MAX {
                updates_closeness(*self)
            } else {
                usize::MAX as int
            }),
    {
        let n = self.0.values.len();
        let mut total: usize = 0;
        let mut i: usize = 0;
        while i < n
            invariant
                n == self.0.values@.len(),
                0 <= i <= n,
                total == (if kept_in_pairs(self.0.values@, i as int) <= usize::MAX {
                    kept_in_pairs(self.0.values@, i as int)
                } else {
                    usize::MAX as int
                }),
            decreases n - i,
        {
            total = total.saturating_add(self.0.values[i].0.len());
            i = i + 1;
        }
        match &self.0.last {
            Some(v) => total.saturating_add(v.len()),
            None => total,
        }
    }

    /// Check if this is a single replace operation (useful for Option::Some).
    pub fn is_single_replace(&self) -> (r: bool)
        ensures
            r == (self.0.first is Some && self.0.values@.len() == 0 && self.0.last is None),
    {
        self.0.first.is_some() && self.0.values.len() == 0 && self.0.last.is_none()
    }

    /// Check if there are no changes (everything is unchanged).
    pub fn is_empty(&self) -> (r: bool)
        ensures
            r == updates_is_empty(*self),
    {
        self.0.first.is_none() && self.0.values.len() == 0
    }
}

} // verus!
