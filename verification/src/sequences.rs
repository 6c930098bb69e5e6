//! Aligning two sequences: an edit script that keeps a longest common
//! subsequence of matching items, and the updates that script makes.
//!
//! Which items match is the caller's to say (a table of yes/no answers,
//! one per pair of items).

use vstd::prelude::*;

use crate::core_sequences::{gv_push_add, gv_push_remove, updates_view, uv_map_front, uv_push_keep, GroupView, Updates, UpdatesView};

verus! {

/// One step of an edit script.
#[derive(Debug, Clone, Copy, PartialEq, Eq, Structural)]
pub enum EditOp {
    /// The `from` item at the first index matches the `to` item at the second, and is kept
    Keep(usize, usize),
    /// The `from` item at this index is removed
    Remove(usize),
    /// The `to` item at this index is added
    Add(usize),
}

/// The rows of a match table as sequences.
pub open spec fn match_rows(same: Seq<Vec<bool>>) -> Seq<Seq<bool>> {
    same.map_values(|r: Vec<bool>| r@)
}

/// A match table for `n` items against `m` items.
pub open spec fn table_shape(same: Seq<Seq<bool>>, n: int, m: int) -> bool {
    &&& same.len() == n
    &&& forall|i: int| 0 <= i < n ==> #[trigger] same[i].len() == m
}

/// The length of a longest common subsequence of the items from `i` on
/// and the items from `j` on, items matching where the table says so.
pub open spec fn lcs_from(same: Seq<Seq<bool>>, n: int, m: int, i: int, j: int) -> nat
    decreases n + m - i - j,
{
    if i < 0 || j < 0 || i >= n || j >= m {
        0
    } else if same[i][j] {
        lcs_from(same, n, m, i + 1, j + 1) + 1
    } else {
        let down = lcs_from(same, n, m, i + 1, j);
        let right = lcs_from(same, n, m, i, j + 1);
        if down > right {
            down
        } else {
            right
        }
    }
}

/// The edit script from `(i, j)` on: a matching pair is kept; otherwise an
/// addition is taken while it loses nothing of the common subsequence, and
/// a removal when it would.
pub open spec fn lcs_script(same: Seq<Seq<bool>>, n: int, m: int, i: int, j: int) -> Seq<EditOp>
    decreases n + m - i - j,
{
    if i < 0 || j < 0 || i > n || j > m || (i == n && j == m) {
        Seq::empty()
    } else if i < n && j < m && same[i][j] {
        seq![EditOp::Keep(i as usize, j as usize)] + lcs_script(same, n, m, i + 1, j + 1)
    } else if j < m && (i == n || lcs_from(same, n, m, i, j + 1) >= lcs_from(same, n, m, i + 1, j)) {
        seq![EditOp::Add(j as usize)] + lcs_script(same, n, m, i, j + 1)
    } else {
        seq![EditOp::Remove(i as usize)] + lcs_script(same, n, m, i + 1, j)
    }
}

/// Where a script that starts at item `a` of the first side and item `b`
/// of the second ends.
pub open spec fn script_end(ops: Seq<EditOp>, a: int, b: int) -> (int, int)
    decreases ops.len(),
{
    if ops.len() == 0 {
        (a, b)
    } else {
        match ops[0] {
            EditOp::Keep(_, _) => script_end(ops.drop_first(), a + 1, b + 1),
            EditOp::Remove(_) => script_end(ops.drop_first(), a + 1, b),
            EditOp::Add(_) => script_end(ops.drop_first(), a, b + 1),
        }
    }
}

/// The number of kept pairs of a script.
pub open spec fn kept_count(ops: Seq<EditOp>) -> nat
    decreases ops.len(),
{
    if ops.len() == 0 {
        0
    } else {
        (if ops[0] is Keep {
            1nat
        } else {
            0nat
        }) + kept_count(ops.drop_first())
    }
}

/// A script that starts at item `a` of the first side and item `b` of the
/// second goes through both sides in order, one item at a time, and keeps
/// only matching pairs.
pub open spec fn script_ok(ops: Seq<EditOp>, same: Seq<Seq<bool>>, a: int, b: int) -> bool
    decreases ops.len(),
{
    if ops.len() == 0 {
        true
    } else {
        match ops[0] {
            EditOp::Keep(x, y) => x == a && y == b && same[a][b] && script_ok(ops.drop_first(), same, a + 1, b + 1),
            EditOp::Remove(x) => x == a && script_ok(ops.drop_first(), same, a + 1, b),
            EditOp::Add(y) => y == b && script_ok(ops.drop_first(), same, a, b + 1),
        }
    }
}

/// The script goes through both sides from `(i, j)` to their ends, keeps
/// only matching pairs, and keeps as many as a longest common subsequence
/// has.
proof fn lemma_script_from(same: Seq<Seq<bool>>, n: int, m: int, i: int, j: int)
    requires
        0 <= i <= n,
        0 <= j <= m,
        m < usize::MAX,
        n <= usize::MAX,
    ensures
        script_ok(lcs_script(same, n, m, i, j), same, i, j),
        script_end(lcs_script(same, n, m, i, j), i, j) == (n, m),
        kept_count(lcs_script(same, n, m, i, j)) == lcs_from(same, n, m, i, j),
    decreases n + m - i - j,
{
    let ops = lcs_script(same, n, m, i, j);
    if i == n && j == m {
    } else if i < n && j < m && same[i][j] {
        lemma_script_from(same, n, m, i + 1, j + 1);
        assert(ops.drop_first() =~= lcs_script(same, n, m, i + 1, j + 1));
    } else if j < m && (i == n || lcs_from(same, n, m, i, j + 1) >= lcs_from(same, n, m, i + 1, j)) {
        lemma_script_from(same, n, m, i, j + 1);
        assert(ops.drop_first() =~= lcs_script(same, n, m, i, j + 1));
    } else {
        lemma_script_from(same, n, m, i + 1, j);
        assert(ops.drop_first() =~= lcs_script(same, n, m, i + 1, j));
    }
}

/// The edit script goes through all `n` items of the first side and all
/// `m` of the second, in order, keeps only matching pairs, and keeps as
/// many as a longest common subsequence has.
pub proof fn lemma_script_aligns(same: Seq<Seq<bool>>, n: int, m: int)
    requires
        0 <= n <= usize::MAX,
        0 <= m < usize::MAX,
    ensures
        script_ok(lcs_script(same, n, m, 0, 0), same, 0, 0),
        script_end(lcs_script(same, n, m, 0, 0), 0, 0) == (n, m),
        kept_count(lcs_script(same, n, m, 0, 0)) == lcs_from(same, n, m, 0, 0),
{
    lemma_script_from(same, n, m, 0, 0);
}

/// A longest common subsequence is no longer than what is left of either side.
proof fn lemma_lcs_bound(same: Seq<Seq<bool>>, n: int, m: int, i: int, j: int)
    requires
        0 <= i <= n,
        0 <= j <= m,
    ensures
        lcs_from(same, n, m, i, j) <= n - i,
        lcs_from(same, n, m, i, j) <= m - j,
    decreases n + m - i - j,
{
    if i < n && j < m {
        lemma_lcs_bound(same, n, m, i + 1, j + 1);
        lemma_lcs_bound(same, n, m, i + 1, j);
        lemma_lcs_bound(same, n, m, i, j + 1);
    }
}

/// The table of longest common subsequence lengths; the row for `i` is at
/// index `n - i`.
fn lcs_table(same: &Vec<Vec<bool>>, n: usize, m: usize) -> (t: Vec<Vec<usize>>)
    requires
        table_shape(match_rows(same@), n as int, m as int),
        m < usize::MAX,
    ensures
        t@.len() == n + 1,
        forall|k: int| 0 <= k <= n ==> #[trigger] t@[k]@.len() == m + 1,
        forall|i: int, j: int|
            0 <= i <= n && 0 <= j <= m ==> #[trigger] t@[n - i]@[j] == lcs_from(match_rows(same@), n as int, m as int, i, j),
{
    let ghost rows = match_rows(same@);
    let mut t: Vec<Vec<usize>> = Vec::new();
    // The row past the last item: nothing left to match
    let mut last: Vec<usize> = Vec::new();
    let mut j: usize = 0;
    while j <= m
        invariant
            j <= m + 1,
            m < usize::MAX,
            last@.len() == j,
            forall|k: int| 0 <= k < j ==> #[trigger] last@[k] == 0,
        decreases m + 1 - j,
    {
        last.push(0);
        j = j + 1;
    }
    t.push(last);
    let mut i: usize = n;
    while i > 0
        invariant
            i <= n,
            m < usize::MAX,
            rows == match_rows(same@),
            table_shape(rows, n as int, m as int),
            t@.len() == n - i + 1,
            forall|k: int| 0 <= k < t@.len() ==> #[trigger] t@[k]@.len() == m + 1,
            forall|a: int, b: int|
                i <= a <= n && 0 <= b <= m ==> #[trigger] t@[n - a]@[b] == lcs_from(rows, n as int, m as int, a, b),
        decreases i,
    {
        let r = i - 1;
        let below = n - i;
        let mut row: Vec<usize> = Vec::new();
        let mut k: usize = 0;
        while k <= m
            invariant
                k <= m + 1,
                m < usize::MAX,
                row@.len() == k,
            decreases m + 1 - k,
        {
            row.push(0);
            k = k + 1;
        }
        // Filled from the right: the value for `b` needs those for `b + 1`
        let mut b: usize = m + 1;
        while b > 0
            invariant
                b <= m + 1,
                r < n,
                below == n - r - 1,
                m < usize::MAX,
                rows == match_rows(same@),
                table_shape(rows, n as int, m as int),
                t@.len() == n - r,
                forall|k: int| 0 <= k < t@.len() ==> #[trigger] t@[k]@.len() == m + 1,
                forall|a: int, c: int|
                    r < a <= n && 0 <= c <= m ==> #[trigger] t@[n - a]@[c] == lcs_from(rows, n as int, m as int, a, c),
                row@.len() == m + 1,
                forall|c: int| b <= c <= m ==> #[trigger] row@[c] == lcs_from(rows, n as int, m as int, r as int, c),
            decreases b,
        {
            let c = b - 1;
            proof {
                assert(rows[r as int] == same@[r as int]@);
                assert(rows[r as int].len() == m);
            }
            let value = if c == m {
                0
            } else if same[r][c] {
                proof {
                    assert(t@[n - (r + 1)]@[c + 1] == lcs_from(rows, n as int, m as int, r + 1, c + 1));
                    lemma_lcs_bound(rows, n as int, m as int, r + 1, c + 1);
                    assert(rows[r as int][c as int] == same@[r as int]@[c as int]);
                }
                t[below][c + 1] + 1
            } else {
                proof {
                    assert(t@[n - (r + 1)]@[c as int] == lcs_from(rows, n as int, m as int, r + 1, c as int));
                    assert(rows[r as int][c as int] == same@[r as int]@[c as int]);
                }
                let down = t[below][c];
                let right = row[c + 1];
                if down > right {
                    down
                } else {
                    right
                }
            };
            proof {
                assert(value == lcs_from(rows, n as int, m as int, r as int, c as int));
            }
            row.set(c, value);
            b = c;
        }
        t.push(row);
        proof {
            assert forall|a: int, c: int| r <= a <= n && 0 <= c <= m implies #[trigger] t@[n - a]@[c] == lcs_from(
                rows,
                n as int,
                m as int,
                a,
                c,
            ) by {
                if a == r {
                    assert(t@[n - a] == row);
                }
            }
        }
        i = r;
    }
    t
}

/// The edit script that keeps a longest common subsequence of the two
/// sides: `same[i][j]` tells whether the `i`-th item of the first side
/// matches the `j`-th of the second.
pub fn edit_script(same: &Vec<Vec<bool>>, n: usize, m: usize) -> (ops: Vec<EditOp>)
    requires
        table_shape(match_rows(same@), n as int, m as int),
        m < usize::MAX,
    ensures
        ops@ == lcs_script(match_rows(same@), n as int, m as int, 0, 0),
{
    let ghost rows = match_rows(same@);
    let t = lcs_table(same, n, m);
    let mut ops: Vec<EditOp> = Vec::new();
    let mut i: usize = 0;
    let mut j: usize = 0;
    while i < n || j < m
        invariant
            i <= n,
            j <= m,
            m < usize::MAX,
            rows == match_rows(same@),
            table_shape(rows, n as int, m as int),
            t@.len() == n + 1,
            forall|k: int| 0 <= k <= n ==> #[trigger] t@[k]@.len() == m + 1,
            forall|a: int, b: int|
                0 <= a <= n && 0 <= b <= m ==> #[trigger] t@[n - a]@[b] == lcs_from(rows, n as int, m as int, a, b),
            lcs_script(rows, n as int, m as int, 0, 0) == ops@ + lcs_script(rows, n as int, m as int, i as int, j as int),
        decreases n + m - i - j,
    {
        let ghost before = ops@;
        proof {
            if i < n {
                assert(rows[i as int] == same@[i as int]@);
                assert(rows[i as int].len() == m);
            }
        }
        if i < n && j < m && same[i][j] {
            proof {
                assert(rows[i as int][j as int] == same@[i as int]@[j as int]);
            }
            ops.push(EditOp::Keep(i, j));
            proof {
                assert(ops@ + lcs_script(rows, n as int, m as int, i + 1, j + 1) =~= before + lcs_script(
                    rows,
                    n as int,
                    m as int,
                    i as int,
                    j as int,
                ));
            }
            i = i + 1;
            j = j + 1;
        } else {
            proof {
                if i < n && j < m {
                    assert(rows[i as int][j as int] == same@[i as int]@[j as int]);
                }
            }
            let take_add = if j < m {
                if i == n {
                    true
                } else {
                    proof {
                        assert(t@[n - i]@[j + 1] == lcs_from(rows, n as int, m as int, i as int, j + 1));
                        assert(t@[n - (i + 1)]@[j as int] == lcs_from(rows, n as int, m as int, i + 1, j as int));
                    }
                    t[n - i][j + 1] >= t[n - i - 1][j]
                }
            } else {
                false
            };
            if take_add {
                ops.push(EditOp::Add(j));
                proof {
                    assert(ops@ + lcs_script(rows, n as int, m as int, i as int, j + 1) =~= before + lcs_script(
                        rows,
                        n as int,
                        m as int,
                        i as int,
                        j as int,
                    ));
                }
                j = j + 1;
            } else {
                ops.push(EditOp::Remove(i));
                proof {
                    assert(ops@ + lcs_script(rows, n as int, m as int, i + 1, j as int) =~= before + lcs_script(
                        rows,
                        n as int,
                        m as int,
                        i as int,
                        j as int,
                    ));
                }
                i = i + 1;
            }
        }
    }
    proof {
        assert(ops@ =~= ops@ + lcs_script(rows, n as int, m as int, i as int, j as int));
    }
    ops
}

/// The model of empty updates.
pub open spec fn uv_empty<P, S>() -> UpdatesView<P, S> {
    UpdatesView { first: None, values: Seq::empty(), last: None }
}

/// The updates that a script makes, its steps pushed at the front from the
/// last to the first: a kept item goes into a run of unchanged items, a
/// removal or an addition into the replace group at the front.
pub open spec fn script_updates<P, S>(ops: Seq<EditOp>, from: Seq<P>, to: Seq<P>) -> UpdatesView<P, S>
    decreases ops.len(),
{
    if ops.len() == 0 {
        uv_empty()
    } else {
        let rest = script_updates(ops.drop_first(), from, to);
        match ops[0] {
            EditOp::Keep(i, _) => uv_push_keep(rest, from[i as int]),
            EditOp::Remove(i) => uv_map_front(rest, |g: GroupView<P, S>| gv_push_remove(g, from[i as int])),
            EditOp::Add(j) => uv_map_front(rest, |g: GroupView<P, S>| gv_push_add(g, to[j as int])),
        }
    }
}

/// The updates that turn `from` into `to`, keeping a longest common
/// subsequence of matching items: `same[i][j]` tells whether `from[i]`
/// matches `to[j]`. Removals and additions between two kept runs form one
/// replace group; nothing is paired into nested diffs yet.
pub fn sequence_updates<P: Copy, S>(from: &Vec<P>, to: &Vec<P>, same: &Vec<Vec<bool>>) -> (u: Updates<P, S>)
    requires
        table_shape(match_rows(same@), from@.len() as int, to@.len() as int),
        to@.len() < usize::MAX,
    ensures
        updates_view(u) == script_updates::<P, S>(
            lcs_script(match_rows(same@), from@.len() as int, to@.len() as int, 0, 0),
            from@,
            to@,
        ),
{
    let n = from.len();
    let m = to.len();
    let ops = edit_script(same, n, m);
    proof {
        lemma_script_aligns(match_rows(same@), n as int, m as int);
        lemma_ops_in_range(ops@, match_rows(same@), 0, 0, n as int, m as int);
    }
    let mut u: Updates<P, S> = Updates::default();
    proof {
        assert(ops@.skip(ops@.len() as int) =~= Seq::<EditOp>::empty());
        assert(updates_view(u).values =~= Seq::<(Seq<P>, GroupView<P, S>)>::empty());
    }
    let mut k: usize = ops.len();
    while k > 0
        invariant
            k <= ops@.len(),
            n == from@.len(),
            m == to@.len(),
            forall|x: int| 0 <= x < ops@.len() ==> op_in_range(#[trigger] ops@[x], n as int, m as int),
            updates_view(u) == script_updates::<P, S>(ops@.skip(k as int), from@, to@),
        decreases k,
    {
        let op = ops[k - 1];
        proof {
            assert(op_in_range(ops@[k - 1], n as int, m as int));
            assert(ops@.skip(k - 1).drop_first() =~= ops@.skip(k as int));
            assert(ops@.skip(k - 1)[0] == op);
        }
        match op {
            EditOp::Keep(i, _) => u.push_keep(from[i]),
            EditOp::Remove(i) => u.push_remove(from[i]),
            EditOp::Add(j) => u.push_add(to[j]),
        }
        k = k - 1;
    }
    proof {
        assert(ops@.skip(0) =~= ops@);
    }
    u
}

/// The indices a step refers to lie within the two sides.
pub open spec fn op_in_range(op: EditOp, n: int, m: int) -> bool {
    match op {
        EditOp::Keep(i, j) => i < n && j < m,
        EditOp::Remove(i) => i < n,
        EditOp::Add(j) => j < m,
    }
}

/// A script that goes through both sides from `(a, b)` to `(n, m)` only
/// refers to items within them.
proof fn lemma_ops_in_range(ops: Seq<EditOp>, same: Seq<Seq<bool>>, a: int, b: int, n: int, m: int)
    requires
        script_ok(ops, same, a, b),
        script_end(ops, a, b) == (n, m),
    ensures
        forall|x: int| 0 <= x < ops.len() ==> op_in_range(#[trigger] ops[x], n, m),
    decreases ops.len(),
{
    if ops.len() > 0 {
        let rest = ops.drop_first();
        let (a1, b1) = match ops[0] {
            EditOp::Keep(_, _) => (a + 1, b + 1),
            EditOp::Remove(_) => (a + 1, b),
            EditOp::Add(_) => (a, b + 1),
        };
        lemma_ops_in_range(rest, same, a1, b1, n, m);
        lemma_end_at_least(rest, a1, b1);
        assert forall|x: int| 0 <= x < ops.len() implies op_in_range(#[trigger] ops[x], n, m) by {
            if x > 0 {
                assert(ops[x] == rest[x - 1]);
            }
        }
    }
}

/// A script never ends before it starts.
proof fn lemma_end_at_least(ops: Seq<EditOp>, a: int, b: int)
    ensures
        script_end(ops, a, b).0 >= a,
        script_end(ops, a, b).1 >= b,
    decreases ops.len(),
{
    if ops.len() > 0 {
        match ops[0] {
            EditOp::Keep(_, _) => lemma_end_at_least(ops.drop_first(), a + 1, b + 1),
            EditOp::Remove(_) => lemma_end_at_least(ops.drop_first(), a + 1, b),
            EditOp::Add(_) => lemma_end_at_least(ops.drop_first(), a, b + 1),
        }
    }
}

/// One item more on either side adds at most one to a longest common
/// subsequence, and never takes one away.
proof fn lemma_lcs_steps(same: Seq<Seq<bool>>, n: int, m: int, i: int, j: int)
    requires
        0 <= i <= n,
        0 <= j <= m,
    ensures
        i < n ==> lcs_from(same, n, m, i + 1, j) <= lcs_from(same, n, m, i, j) <= lcs_from(same, n, m, i + 1, j) + 1,
        j < m ==> lcs_from(same, n, m, i, j + 1) <= lcs_from(same, n, m, i, j) <= lcs_from(same, n, m, i, j + 1) + 1,
    decreases n + m - i - j,
{
    if i < n && j < m {
        lemma_lcs_steps(same, n, m, i + 1, j);
        lemma_lcs_steps(same, n, m, i, j + 1);
        lemma_lcs_steps(same, n, m, i + 1, j + 1);
    }
}

/// No script that goes through both sides keeps more matching pairs than
/// the longest common subsequence has: the edit script keeps a longest one.
pub proof fn lemma_script_longest(ops: Seq<EditOp>, same: Seq<Seq<bool>>, n: int, m: int, i: int, j: int)
    requires
        0 <= i <= n,
        0 <= j <= m,
        script_ok(ops, same, i, j),
        script_end(ops, i, j) == (n, m),
    ensures
        kept_count(ops) <= lcs_from(same, n, m, i, j),
    decreases ops.len(),
{
    if ops.len() > 0 {
        let rest = ops.drop_first();
        lemma_lcs_steps(same, n, m, i, j);
        match ops[0] {
            EditOp::Keep(_, _) => {
                lemma_end_at_least(rest, i + 1, j + 1);
                lemma_script_longest(rest, same, n, m, i + 1, j + 1);
            },
            EditOp::Remove(_) => {
                lemma_end_at_least(rest, i + 1, j);
                lemma_script_longest(rest, same, n, m, i + 1, j);
            },
            EditOp::Add(_) => {
                lemma_end_at_least(rest, i, j + 1);
                lemma_script_longest(rest, same, n, m, i, j + 1);
            },
        }
    }
}

/// The removals of a group's leading replace group.
pub open spec fn group_removals<P, S>(g: GroupView<P, S>) -> Seq<P> {
    match g.first {
        Some(r) => r.0,
        None => Seq::empty(),
    }
}

/// The `from` side of the first `k` (unchanged run, group) pairs.
pub open spec fn pairs_from_side<P, S>(vals: Seq<(Seq<P>, GroupView<P, S>)>, k: int) -> Seq<P>
    decreases k,
{
    if k <= 0 || k > vals.len() {
        Seq::empty()
    } else {
        pairs_from_side(vals, k - 1) + vals[k - 1].0 + group_removals(vals[k - 1].1)
    }
}

/// The `from` side of updates made of replace groups and unchanged runs:
/// the removals and the unchanged items, in order.
pub open spec fn from_side<P, S>(u: UpdatesView<P, S>) -> Seq<P> {
    (match u.first {
        Some(g) => group_removals(g),
        None => Seq::empty(),
    }) + pairs_from_side(u.values, u.values.len() as int) + match u.last {
        Some(l) => l,
        None => Seq::empty(),
    }
}

/// A pair put in front adds its run and its removals in front.
proof fn lemma_pairs_prepend<P, S>(x: (Seq<P>, GroupView<P, S>), vals: Seq<(Seq<P>, GroupView<P, S>)>, k: int)
    requires
        0 <= k <= vals.len(),
    ensures
        pairs_from_side(seq![x] + vals, k + 1) == x.0 + group_removals(x.1) + pairs_from_side(vals, k),
    decreases k,
{
    let w = seq![x] + vals;
    if k == 0 {
        assert(pairs_from_side(w, 0) =~= Seq::<P>::empty());
        assert(w[0] == x);
        assert(pairs_from_side(w, 1) =~= x.0 + group_removals(x.1) + pairs_from_side(vals, 0));
    } else {
        lemma_pairs_prepend(x, vals, k - 1);
        assert(w[k] == vals[k - 1]);
        assert(pairs_from_side(w, k + 1) =~= x.0 + group_removals(x.1) + pairs_from_side(vals, k));
    }
}

/// An item put in front of the first run comes first.
proof fn lemma_pairs_front_item<P, S>(vals: Seq<(Seq<P>, GroupView<P, S>)>, p: P, k: int)
    requires
        0 < k <= vals.len(),
    ensures
        pairs_from_side(vals.update(0, (seq![p] + vals[0].0, vals[0].1)), k) == seq![p] + pairs_from_side(vals, k),
    decreases k,
{
    let w = vals.update(0, (seq![p] + vals[0].0, vals[0].1));
    if k == 1 {
        assert(pairs_from_side(w, 0) =~= Seq::<P>::empty());
        assert(pairs_from_side(vals, 0) =~= Seq::<P>::empty());
        assert(pairs_from_side(w, 1) =~= seq![p] + pairs_from_side(vals, 1));
    } else {
        lemma_pairs_front_item(vals, p, k - 1);
        assert(w[k - 1] == vals[k - 1]);
        assert(pairs_from_side(w, k) =~= seq![p] + pairs_from_side(vals, k));
    }
}

/// A kept item pushed in front comes first on the `from` side.
proof fn lemma_from_side_keep<P, S>(u: UpdatesView<P, S>, p: P)
    ensures
        from_side(uv_push_keep(u, p)) == seq![p] + from_side(u),
{
    let u1 = match u.first {
        Some(g) => UpdatesView { first: None, values: seq![(Seq::<P>::empty(), g)] + u.values, last: u.last },
        None => u,
    };
    if let Some(g) = u.first {
        lemma_pairs_prepend((Seq::<P>::empty(), g), u.values, u.values.len() as int);
        assert(from_side(u1) =~= from_side(u));
    }
    if u1.values.len() > 0 {
        lemma_pairs_front_item(u1.values, p, u1.values.len() as int);
        assert(from_side(uv_push_keep(u, p)) =~= seq![p] + from_side(u1));
    } else {
        assert(pairs_from_side(u1.values, 0) =~= Seq::<P>::empty());
        assert(from_side(uv_push_keep(u, p)) =~= seq![p] + from_side(u1));
    }
}

/// A removal pushed in front comes first on the `from` side; an addition
/// leaves it as it is.
proof fn lemma_from_side_front<P, S>(u: UpdatesView<P, S>, p: P)
    ensures
        from_side(uv_map_front(u, |g: GroupView<P, S>| gv_push_remove(g, p))) == seq![p] + from_side(u),
        from_side(uv_map_front(u, |g: GroupView<P, S>| gv_push_add(g, p))) == from_side(u),
{
    let ur = uv_map_front(u, |g: GroupView<P, S>| gv_push_remove(g, p));
    let ua = uv_map_front(u, |g: GroupView<P, S>| gv_push_add(g, p));
    assert(from_side(ur) =~= seq![p] + from_side(u));
    assert(from_side(ua) =~= from_side(u));
}

/// The `from` side of the updates a script makes is the part of `from`
/// that the script goes through.
proof fn lemma_script_from_side<P, S>(ops: Seq<EditOp>, same: Seq<Seq<bool>>, from: Seq<P>, to: Seq<P>, a: int, b: int)
    requires
        0 <= a,
        script_ok(ops, same, a, b),
        script_end(ops, a, b).0 <= from.len(),
    ensures
        from_side(script_updates::<P, S>(ops, from, to)) == from.subrange(a, script_end(ops, a, b).0),
    decreases ops.len(),
{
    if ops.len() == 0 {
        assert(from_side(uv_empty::<P, S>()) =~= Seq::<P>::empty());
        assert(from.subrange(a, a) =~= Seq::<P>::empty());
    } else {
        let rest = ops.drop_first();
        let e = script_end(ops, a, b).0;
        match ops[0] {
            EditOp::Keep(i, _) => {
                lemma_script_from_side::<P, S>(rest, same, from, to, a + 1, b + 1);
                lemma_end_at_least(rest, a + 1, b + 1);
                lemma_from_side_keep(script_updates::<P, S>(rest, from, to), from[a]);
                assert(from.subrange(a, e) =~= seq![from[a]] + from.subrange(a + 1, e));
            },
            EditOp::Remove(i) => {
                lemma_script_from_side::<P, S>(rest, same, from, to, a + 1, b);
                lemma_end_at_least(rest, a + 1, b);
                lemma_from_side_front(script_updates::<P, S>(rest, from, to), from[a]);
                assert(from.subrange(a, e) =~= seq![from[a]] + from.subrange(a + 1, e));
            },
            EditOp::Add(j) => {
                lemma_script_from_side::<P, S>(rest, same, from, to, a, b + 1);
                lemma_from_side_front(script_updates::<P, S>(rest, from, to), to[j as int]);
            },
        }
    }
}

/// Reading the updates of a sequence diff back, its removals and unchanged
/// items in order give the whole `from` sequence.
pub proof fn lemma_updates_keep_from<P, S>(same: Seq<Seq<bool>>, from: Seq<P>, to: Seq<P>)
    requires
        from.len() <= usize::MAX,
        to.len() < usize::MAX,
    ensures
        from_side(script_updates::<P, S>(lcs_script(same, from.len() as int, to.len() as int, 0, 0), from, to)) == from,
{
    let ops = lcs_script(same, from.len() as int, to.len() as int, 0, 0);
    lemma_script_aligns(same, from.len() as int, to.len() as int);
    lemma_script_from_side::<P, S>(ops, same, from, to, 0, 0);
    assert(from.subrange(0, from.len() as int) =~= from);
}

/// Against itself (every item matching the item at its own position), the
/// script keeps every item from `i` on.
proof fn lemma_self_script(same: Seq<Seq<bool>>, n: int, i: int)
    requires
        0 <= i <= n,
        forall|k: int| 0 <= k < n ==> #[trigger] same[k][k],
    ensures
        lcs_script(same, n, n, i, i) == Seq::new((n - i) as nat, |k: int| EditOp::Keep((i + k) as usize, (i + k) as usize)),
    decreases n - i,
{
    if i < n {
        lemma_self_script(same, n, i + 1);
        assert(same[i][i]);
        assert(lcs_script(same, n, n, i, i) =~= Seq::new((n - i) as nat, |k: int| EditOp::Keep((i + k) as usize, (i + k) as usize)));
    } else {
        assert(lcs_script(same, n, n, i, i) =~= Seq::new((n - i) as nat, |k: int| EditOp::Keep((i + k) as usize, (i + k) as usize)));
    }
}

/// A script of kept items only makes updates with nothing but one
/// trailing run of unchanged items, the items it keeps.
proof fn lemma_keeps_only<P, S>(from: Seq<P>, to: Seq<P>, i: int, n: int)
    requires
        0 <= i <= n <= from.len(),
        n <= usize::MAX,
    ensures
        ({
            let u = script_updates::<P, S>(
                Seq::new((n - i) as nat, |k: int| EditOp::Keep((i + k) as usize, (i + k) as usize)),
                from,
                to,
            );
            &&& u.first is None
            &&& u.values.len() == 0
            &&& (i < n ==> u.last == Some(from.subrange(i, n)))
            &&& (i == n ==> u.last is None)
        }),
    decreases n - i,
{
    let ops = Seq::new((n - i) as nat, |k: int| EditOp::Keep((i + k) as usize, (i + k) as usize));
    if i < n {
        lemma_keeps_only::<P, S>(from, to, i + 1, n);
        let rest = Seq::new((n - i - 1) as nat, |k: int| EditOp::Keep((i + 1 + k) as usize, (i + 1 + k) as usize));
        assert(ops.drop_first() =~= rest);
        assert(ops[0] == EditOp::Keep(i as usize, i as usize));
        let u = script_updates::<P, S>(rest, from, to);
        if i + 1 < n {
            assert(seq![from[i]] + from.subrange(i + 1, n) =~= from.subrange(i, n));
        } else {
            assert(seq![from[i]] + Seq::<P>::empty() =~= from.subrange(i, n));
        }
    }
}

/// A sequence compared with itself, every item matching itself, is kept
/// whole: its updates hold no change.
pub proof fn lemma_self_alignment_unchanged<P, S>(same: Seq<Seq<bool>>, from: Seq<P>)
    requires
        from.len() < usize::MAX,
        forall|k: int| 0 <= k < from.len() ==> #[trigger] same[k][k],
    ensures
        ({
            let u = script_updates::<P, S>(lcs_script(same, from.len() as int, from.len() as int, 0, 0), from, from);
            &&& u.first is None
            &&& u.values.len() == 0
        }),
{
    let n = from.len() as int;
    lemma_self_script(same, n, 0);
    assert(Seq::new((n - 0) as nat, |k: int| EditOp::Keep((0 + k) as usize, (0 + k) as usize)) =~= Seq::new(
        n as nat,
        |k: int| EditOp::Keep(k as usize, k as usize),
    ));
    lemma_keeps_only::<P, S>(from, from, 0, n);
}

/// The additions of a group's leading replace group.
pub open spec fn group_additions<P, S>(g: GroupView<P, S>) -> Seq<P> {
    match g.first {
        Some(r) => r.1,
        None => Seq::empty(),
    }
}

/// The `to` side of the first `k` (unchanged run, group) pairs.
pub open spec fn pairs_to_side<P, S>(vals: Seq<(Seq<P>, GroupView<P, S>)>, k: int) -> Seq<P>
    decreases k,
{
    if k <= 0 || k > vals.len() {
        Seq::empty()
    } else {
        pairs_to_side(vals, k - 1) + vals[k - 1].0 + group_additions(vals[k - 1].1)
    }
}

/// The `to` side of updates made of replace groups and unchanged runs:
/// the additions and the unchanged items, in order.
pub open spec fn to_side<P, S>(u: UpdatesView<P, S>) -> Seq<P> {
    (match u.first {
        Some(g) => group_additions(g),
        None => Seq::empty(),
    }) + pairs_to_side(u.values, u.values.len() as int) + match u.last {
        Some(l) => l,
        None => Seq::empty(),
    }
}

/// A pair put in front adds its run and its additions in front.
proof fn lemma_pairs_to_prepend<P, S>(x: (Seq<P>, GroupView<P, S>), vals: Seq<(Seq<P>, GroupView<P, S>)>, k: int)
    requires
        0 <= k <= vals.len(),
    ensures
        pairs_to_side(seq![x] + vals, k + 1) == x.0 + group_additions(x.1) + pairs_to_side(vals, k),
    decreases k,
{
    let w = seq![x] + vals;
    if k == 0 {
        assert(pairs_to_side(w, 0) =~= Seq::<P>::empty());
        assert(w[0] == x);
        assert(pairs_to_side(w, 1) =~= x.0 + group_additions(x.1) + pairs_to_side(vals, 0));
    } else {
        lemma_pairs_to_prepend(x, vals, k - 1);
        assert(w[k] == vals[k - 1]);
        assert(pairs_to_side(w, k + 1) =~= x.0 + group_additions(x.1) + pairs_to_side(vals, k));
    }
}

/// An item put in front of the first run comes first on the `to` side.
proof fn lemma_pairs_to_front_item<P, S>(vals: Seq<(Seq<P>, GroupView<P, S>)>, p: P, k: int)
    requires
        0 < k <= vals.len(),
    ensures
        pairs_to_side(vals.update(0, (seq![p] + vals[0].0, vals[0].1)), k) == seq![p] + pairs_to_side(vals, k),
    decreases k,
{
    let w = vals.update(0, (seq![p] + vals[0].0, vals[0].1));
    if k == 1 {
        assert(pairs_to_side(w, 0) =~= Seq::<P>::empty());
        assert(pairs_to_side(vals, 0) =~= Seq::<P>::empty());
        assert(pairs_to_side(w, 1) =~= seq![p] + pairs_to_side(vals, 1));
    } else {
        lemma_pairs_to_front_item(vals, p, k - 1);
        assert(w[k - 1] == vals[k - 1]);
        assert(pairs_to_side(w, k) =~= seq![p] + pairs_to_side(vals, k));
    }
}

/// A kept item pushed in front comes first on the `to` side.
proof fn lemma_to_side_keep<P, S>(u: UpdatesView<P, S>, p: P)
    ensures
        to_side(uv_push_keep(u, p)) == seq![p] + to_side(u),
{
    let u1 = match u.first {
        Some(g) => UpdatesView { first: None, values: seq![(Seq::<P>::empty(), g)] + u.values, last: u.last },
        None => u,
    };
    if let Some(g) = u.first {
        lemma_pairs_to_prepend((Seq::<P>::empty(), g), u.values, u.values.len() as int);
        assert(to_side(u1) =~= to_side(u));
    }
    if u1.values.len() > 0 {
        lemma_pairs_to_front_item(u1.values, p, u1.values.len() as int);
        assert(to_side(uv_push_keep(u, p)) =~= seq![p] + to_side(u1));
    } else {
        assert(pairs_to_side(u1.values, 0) =~= Seq::<P>::empty());
        assert(to_side(uv_push_keep(u, p)) =~= seq![p] + to_side(u1));
    }
}

/// An addition pushed in front comes first on the `to` side; a removal
/// leaves it as it is.
proof fn lemma_to_side_front<P, S>(u: UpdatesView<P, S>, p: P)
    ensures
        to_side(uv_map_front(u, |g: GroupView<P, S>| gv_push_add(g, p))) == seq![p] + to_side(u),
        to_side(uv_map_front(u, |g: GroupView<P, S>| gv_push_remove(g, p))) == to_side(u),
{
    let ua = uv_map_front(u, |g: GroupView<P, S>| gv_push_add(g, p));
    let ur = uv_map_front(u, |g: GroupView<P, S>| gv_push_remove(g, p));
    assert(to_side(ua) =~= seq![p] + to_side(u));
    assert(to_side(ur) =~= to_side(u));
}

/// The items a script reads on the `to` side: each added `to` item, and
/// for each kept pair the `from` item that stands for it.
pub open spec fn script_to_items<P>(ops: Seq<EditOp>, from: Seq<P>, to: Seq<P>) -> Seq<P>
    decreases ops.len(),
{
    if ops.len() == 0 {
        Seq::empty()
    } else {
        let rest = script_to_items(ops.drop_first(), from, to);
        match ops[0] {
            EditOp::Keep(i, _) => seq![from[i as int]] + rest,
            EditOp::Remove(_) => rest,
            EditOp::Add(j) => seq![to[j as int]] + rest,
        }
    }
}

/// The `to` side of the updates a script makes is what the script reads
/// on that side.
proof fn lemma_script_to_side<P, S>(ops: Seq<EditOp>, from: Seq<P>, to: Seq<P>)
    ensures
        to_side(script_updates::<P, S>(ops, from, to)) == script_to_items(ops, from, to),
    decreases ops.len(),
{
    if ops.len() == 0 {
        assert(to_side(uv_empty::<P, S>()) =~= Seq::<P>::empty());
    } else {
        let rest = ops.drop_first();
        lemma_script_to_side::<P, S>(rest, from, to);
        let u = script_updates::<P, S>(rest, from, to);
        match ops[0] {
            EditOp::Keep(i, _) => lemma_to_side_keep(u, from[i as int]),
            EditOp::Remove(i) => lemma_to_side_front(u, from[i as int]),
            EditOp::Add(j) => lemma_to_side_front(u, to[j as int]),
        }
    }
}

/// What a script that goes through both sides from `(a, b)` reads on the
/// `to` side has one item per `to` item from `b` on: that `to` item itself
/// where it is added, and a matching `from` item where it is kept.
proof fn lemma_script_to_items<P>(ops: Seq<EditOp>, same: Seq<Seq<bool>>, from: Seq<P>, to: Seq<P>, a: int, b: int)
    requires
        0 <= a,
        0 <= b,
        script_ok(ops, same, a, b),
        script_end(ops, a, b).0 <= from.len(),
        script_end(ops, a, b).1 == to.len(),
    ensures
        script_to_items(ops, from, to).len() == to.len() - b,
        forall|k: int|
            0 <= k < to.len() - b ==> (#[trigger] script_to_items(ops, from, to)[k] == to[b + k] || exists|i: int|
                0 <= i < from.len() && same[i][b + k] && script_to_items(ops, from, to)[k] == from[i]),
    decreases ops.len(),
{
    if ops.len() == 0 {
    } else {
        let rest = ops.drop_first();
        let items = script_to_items(ops, from, to);
        match ops[0] {
            EditOp::Keep(x, y) => {
                lemma_end_at_least(rest, a + 1, b + 1);
                lemma_script_to_items(rest, same, from, to, a + 1, b + 1);
                let r = script_to_items(rest, from, to);
                assert forall|k: int| 0 <= k < to.len() - b implies (#[trigger] items[k] == to[b + k] || exists|i: int|
                    0 <= i < from.len() && same[i][b + k] && items[k] == from[i]) by {
                    if k == 0 {
                        assert(items[0] == from[a]);
                        assert(same[a][b]);
                    } else {
                        assert(items[k] == r[k - 1]);
                        assert(b + 1 + (k - 1) == b + k);
                    }
                }
            },
            EditOp::Remove(_) => {
                lemma_end_at_least(rest, a + 1, b);
                lemma_script_to_items(rest, same, from, to, a + 1, b);
            },
            EditOp::Add(y) => {
                lemma_end_at_least(rest, a, b + 1);
                lemma_script_to_items(rest, same, from, to, a, b + 1);
                let r = script_to_items(rest, from, to);
                assert forall|k: int| 0 <= k < to.len() - b implies (#[trigger] items[k] == to[b + k] || exists|i: int|
                    0 <= i < from.len() && same[i][b + k] && items[k] == from[i]) by {
                    if k == 0 {
                        assert(items[0] == to[b]);
                    } else {
                        assert(items[k] == r[k - 1]);
                        assert(b + 1 + (k - 1) == b + k);
                    }
                }
            },
        }
    }
}

/// Reading the updates of a sequence diff back on the `to` side gives one
/// item per `to` item: the `to` item itself where it was added, and a
/// `from` item that matches it where it was kept.
pub proof fn lemma_updates_read_to<P, S>(same: Seq<Seq<bool>>, from: Seq<P>, to: Seq<P>)
    requires
        from.len() <= usize::MAX,
        to.len() < usize::MAX,
    ensures
        ({
            let u = script_updates::<P, S>(lcs_script(same, from.len() as int, to.len() as int, 0, 0), from, to);
            &&& to_side(u).len() == to.len()
            &&& forall|j: int| 0 <= j < to.len() ==> (#[trigger] to_side(u)[j] == to[j] || exists|i: int|
                0 <= i < from.len() && same[i][j] && to_side(u)[j] == from[i])
        }),
{
    let ops = lcs_script(same, from.len() as int, to.len() as int, 0, 0);
    lemma_script_aligns(same, from.len() as int, to.len() as int);
    lemma_script_to_side::<P, S>(ops, from, to);
    lemma_script_to_items(ops, same, from, to, 0, 0);
    let u = script_updates::<P, S>(ops, from, to);
    assert forall|j: int| 0 <= j < to.len() implies (#[trigger] to_side(u)[j] == to[j] || exists|i: int|
        0 <= i < from.len() && same[i][j] && to_side(u)[j] == from[i]) by {
        assert(to_side(u)[j] == script_to_items(ops, from, to)[j]);
        assert(0 + j == j);
    }
}

} // verus!
