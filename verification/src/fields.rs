//! Comparing named entries: the fields of two structs or struct variants,
//! the entries of two maps, the keys of two objects.
//!
//! Entries found on both sides are diffed; the rest are deletions (only in
//! `from`) or insertions (only in `to`).

use vstd::prelude::*;

use crate::text::str_eq;
use crate::types::{value_is_empty, Diff, Value};

verus! {

/// What a deterministic diff function gives for two values.
pub open spec fn decided_diff<P, S, D: Fn(P, P) -> Diff<P, S>>(f: D, a: P, b: P) -> Diff<P, S> {
    choose|d: Diff<P, S>| f.ensures((a, b), d)
}

/// A diff function that can be called on any two values and answers the
/// same way each time.
pub open spec fn diff_fn_ok<P, S, D: Fn(P, P) -> Diff<P, S>>(f: D) -> bool {
    &&& forall|a: P, b: P| f.requires((a, b))
    &&& forall|a: P, b: P, d1: Diff<P, S>, d2: Diff<P, S>| f.ensures((a, b), d1) && f.ensures((a, b), d2) ==> d1 == d2
}

/// The position of the first entry named `name`, if any.
pub open spec fn find_entry<P>(entries: Seq<(String, P)>, name: Seq<char>) -> Option<int>
    decreases entries.len(),
{
    if entries.len() == 0 {
        None
    } else {
        match find_entry(entries.drop_last(), name) {
            Some(i) => Some(i),
            None => if entries.last().0@ == name { Some(entries.len() - 1) } else { None },
        }
    }
}

/// The entries of `from` among the first `k` that `to` also has, with
/// their diffs, split into the changed ones and the names of the equal ones.
pub open spec fn compared_entries<P, S, D: Fn(P, P) -> Diff<P, S>>(
    from: Seq<(String, P)>,
    to: Seq<(String, P)>,
    f: D,
    k: int,
) -> (Seq<(Seq<char>, Diff<P, S>)>, Seq<Seq<char>>)
    decreases k,
{
    if k <= 0 {
        (Seq::empty(), Seq::empty())
    } else {
        let (updates, unchanged) = compared_entries(from, to, f, k - 1);
        let (name, value) = from[k - 1];
        match find_entry(to, name@) {
            Some(j) => {
                let d = decided_diff(f, value, to[j].1);
                if d is Equal {
                    (updates, unchanged.push(name@))
                } else {
                    (updates.push((name@, d)), unchanged)
                }
            },
            None => (updates, unchanged),
        }
    }
}

/// The entries among the first `k` of `a` whose names `b` lacks.
pub open spec fn missing_entries<P>(a: Seq<(String, P)>, b: Seq<(String, P)>, k: int) -> Seq<(Seq<char>, P)>
    decreases k,
{
    if k <= 0 {
        Seq::empty()
    } else {
        let prev = missing_entries(a, b, k - 1);
        if find_entry(b, a[k - 1].0@) is None {
            prev.push((a[k - 1].0@, a[k - 1].1))
        } else {
            prev
        }
    }
}

/// The model of a list of named diffs.
pub open spec fn named_diffs<P, S>(v: Seq<(String, Diff<P, S>)>) -> Seq<(Seq<char>, Diff<P, S>)> {
    v.map_values(|e: (String, Diff<P, S>)| (e.0@, e.1))
}

/// The model of a list of named values.
pub open spec fn named_values<P>(v: Seq<(String, P)>) -> Seq<(Seq<char>, P)> {
    v.map_values(|e: (String, P)| (e.0@, e.1))
}

/// The model of a list of names.
pub open spec fn names<>(v: Seq<String>) -> Seq<Seq<char>> {
    v.map_values(|e: String| e@)
}

/// The position of the first entry named `name`.
fn find_entry_exec<P: Copy>(entries: &Vec<(String, P)>, name: &str) -> (r: Option<usize>)
    ensures
        match r {
            Some(i) => find_entry(entries@, name@) == Some(i as int),
            None => find_entry(entries@, name@) is None,
        },
{
    let mut i: usize = 0;
    while i < entries.len()
        invariant
            i <= entries@.len(),
            find_entry(entries@.subrange(0, i as int), name@) is None,
        decreases entries@.len() - i,
    {
        proof {
            let t = entries@.subrange(0, i as int + 1);
            assert(t.drop_last() =~= entries@.subrange(0, i as int));
        }
        if str_eq(entries[i].0.as_str(), name) {
            proof {
                lemma_find_prefix(entries@, name@, i as int + 1);
            }
            return Some(i);
        }
        i = i + 1;
    }
    proof {
        assert(entries@.subrange(0, i as int) =~= entries@);
    }
    None
}

/// A match is an entry of the list with that name.
pub proof fn lemma_find_in_range<P>(entries: Seq<(String, P)>, name: Seq<char>)
    ensures
        find_entry(entries, name) matches Some(i) ==> 0 <= i < entries.len() && entries[i].0@ == name,
        find_entry(entries, name) is None ==> forall|i: int| 0 <= i < entries.len() ==> (#[trigger] entries[i]).0@ != name,
    decreases entries.len(),
{
    if entries.len() > 0 {
        lemma_find_in_range(entries.drop_last(), name);
        assert forall|i: int| 0 <= i < entries.len() - 1 implies entries.drop_last()[i] == #[trigger] entries[i] by {}
    }
}

/// A match in a prefix is the first match in the whole list.
proof fn lemma_find_prefix<P>(entries: Seq<(String, P)>, name: Seq<char>, k: int)
    requires
        0 <= k <= entries.len(),
        find_entry(entries.subrange(0, k), name) is Some,
    ensures
        find_entry(entries, name) == find_entry(entries.subrange(0, k), name),
    decreases entries.len() - k,
{
    if k < entries.len() {
        let t = entries.subrange(0, k + 1);
        assert(t.drop_last() =~= entries.subrange(0, k));
        lemma_find_prefix(entries, name, k + 1);
    } else {
        assert(entries.subrange(0, k) =~= entries);
    }
}

/// Whether a struct value names every field once: the names of its changed,
/// unchanged, deleted and inserted fields, read one list after another,
/// hold no name twice (a tuple value names none).
pub open spec fn struct_names_distinct<P, S>(v: Value<P, S>) -> bool {
    match v {
        Value::Struct { updates, deletions, insertions, unchanged } => (model_names(named_diffs(updates@)) + names(unchanged@)
            + model_names(named_values(deletions@)) + model_names(named_values(insertions@))).no_duplicates(),
        Value::Tuple { .. } => true,
    }
}

/// Compare two lists of named entries (field names are unique on each side).
///
/// Returns a struct value: the diffs of the entries on both sides that differ,
/// the names of those that are equal, the entries only in `from` (deletions)
/// and those only in `to` (insertions).
pub fn diff_fields<P: Copy, S, D: Fn(P, P) -> Diff<P, S>>(
    from: &Vec<(String, P)>,
    to: &Vec<(String, P)>,
    diff_fn: D,
) -> (r: Value<P, S>)
    requires
        diff_fn_ok(diff_fn),
    ensures
        r matches Value::Struct { updates, deletions, insertions, unchanged } && {
            let (u, same) = compared_entries(from@, to@, diff_fn, from@.len() as int);
            &&& named_diffs(updates@) == u
            &&& names(unchanged@) == same
            &&& named_values(deletions@) == missing_entries(from@, to@, from@.len() as int)
            &&& named_values(insertions@) == missing_entries(to@, from@, to@.len() as int)
        },
        unique_names(from@) && unique_names(to@) ==> struct_names_distinct(r),
{
    let mut updates: Vec<(String, Diff<P, S>)> = Vec::new();
    let mut unchanged: Vec<String> = Vec::new();
    let mut deletions: Vec<(String, P)> = Vec::new();
    let mut insertions: Vec<(String, P)> = Vec::new();
    let mut i: usize = 0;
    while i < from.len()
        invariant
            i <= from@.len(),
            diff_fn_ok(diff_fn),
            named_diffs(updates@) == compared_entries(from@, to@, diff_fn, i as int).0,
            names(unchanged@) == compared_entries(from@, to@, diff_fn, i as int).1,
            named_values(deletions@) == missing_entries(from@, to@, i as int),
        decreases from@.len() - i,
    {
        let (name, value) = &from[i];
        proof {
            lemma_find_in_range(to@, name@);
        }
        match find_entry_exec(to, name.as_str()) {
            Some(j) => {
                let d = diff_fn(*value, to[j].1);
                proof {
                    assert(d == decided_diff(diff_fn, *value, to@[j as int].1));
                }
                if d.is_equal() {
                    unchanged.push(name.clone());
                } else {
                    updates.push((name.clone(), d));
                }
            },
            None => {
                deletions.push((name.clone(), *value));
            },
        }
        proof {
            assert(named_diffs(updates@) =~= compared_entries(from@, to@, diff_fn, i + 1).0);
            assert(names(unchanged@) =~= compared_entries(from@, to@, diff_fn, i + 1).1);
            assert(named_values(deletions@) =~= missing_entries(from@, to@, i + 1));
        }
        i = i + 1;
    }
    let mut k: usize = 0;
    while k < to.len()
        invariant
            k <= to@.len(),
            named_values(insertions@) == missing_entries(to@, from@, k as int),
        decreases to@.len() - k,
    {
        let (name, value) = &to[k];
        if find_entry_exec(from, name.as_str()).is_none() {
            insertions.push((name.clone(), *value));
        }
        proof {
            assert(named_values(insertions@) =~= missing_entries(to@, from@, k + 1));
        }
        k = k + 1;
    }
    proof {
        if unique_names(from@) && unique_names(to@) {
            lemma_field_names_distinct::<P, S, D>(from@, to@, diff_fn);
        }
    }
    Value::Struct { updates, deletions, insertions, unchanged }
}

/// Every entry of `from` is accounted for exactly once: it is either a
/// changed entry, an equal one, or a deletion.
pub proof fn lemma_every_entry_accounted<P, S, D: Fn(P, P) -> Diff<P, S>>(
    from: Seq<(String, P)>,
    to: Seq<(String, P)>,
    f: D,
    k: int,
)
    requires
        0 <= k <= from.len(),
    ensures
        compared_entries(from, to, f, k).0.len() + compared_entries(from, to, f, k).1.len() + missing_entries(from, to, k).len()
            == k,
    decreases k,
{
    if k > 0 {
        lemma_every_entry_accounted(from, to, f, k - 1);
    }
}

/// The diff that a compared struct (or struct variant, map or object) gives:
/// equal when nothing changed, otherwise the value with both shapes.
pub fn finish_user_diff<P, S>(value: Value<P, S>, from_value: P, from: S, to: S, variant: Option<&'static str>) -> (r: Diff<P, S>)
    ensures
        value_is_empty(value) ==> r == (Diff::<P, S>::Equal { value: Some(from_value) }),
        !value_is_empty(value) ==> r == (Diff::User { from, to, variant, value }),
{
    let empty = match &value {
        Value::Tuple { updates } => updates.is_empty(),
        Value::Struct { updates, deletions, insertions, .. } => updates.len() == 0 && deletions.len() == 0 && insertions.len()
            == 0,
    };
    if empty {
        Diff::Equal { value: Some(from_value) }
    } else {
        Diff::User { from, to, variant, value }
    }
}

/// The entries among the first `k` whose name does not come again later.
pub open spec fn last_entries<P>(entries: Seq<(String, P)>, k: int) -> Seq<(Seq<char>, P)>
    decreases k,
{
    if k <= 0 {
        Seq::empty()
    } else {
        let prev = last_entries(entries, k - 1);
        let later = entries.subrange(k, entries.len() as int);
        if find_entry(later, entries[k - 1].0@) is None {
            prev.push((entries[k - 1].0@, entries[k - 1].1))
        } else {
            prev
        }
    }
}

/// Keep, for each name, only its last entry (as inserting the entries one by
/// one into a map does), in order.
pub fn keep_last_entries<P: Copy>(entries: &Vec<(String, P)>) -> (r: Vec<(String, P)>)
    ensures
        named_values(r@) == last_entries(entries@, entries@.len() as int),
{
    let mut out: Vec<(String, P)> = Vec::new();
    let mut i: usize = 0;
    while i < entries.len()
        invariant
            i <= entries@.len(),
            named_values(out@) == last_entries(entries@, i as int),
        decreases entries@.len() - i,
    {
        // Is the name taken again by a later entry?
        let mut later = false;
        let mut j: usize = i + 1;
        while j < entries.len()
            invariant
                i < j <= entries@.len(),
                later == (find_entry(entries@.subrange(i + 1, j as int), entries@[i as int].0@) is Some),
            decreases entries@.len() - j,
        {
            proof {
                let t = entries@.subrange(i + 1, j + 1);
                assert(t.drop_last() =~= entries@.subrange(i + 1, j as int));
            }
            if str_eq(entries[j].0.as_str(), entries[i].0.as_str()) {
                later = true;
            }
            j = j + 1;
        }
        if !later {
            out.push((entries[i].0.clone(), entries[i].1));
        }
        proof {
            assert(named_values(out@) =~= last_entries(entries@, i + 1));
        }
        i = i + 1;
    }
    out
}

/// The names held by a list, as a set.
pub open spec fn name_set(v: Seq<String>) -> Set<Seq<char>> {
    names(v).to_set()
}

/// Whether a name is in a list.
fn contains_name(v: &Vec<String>, name: &str) -> (r: bool)
    ensures
        r == names(v@).contains(name@),
{
    let mut i: usize = 0;
    while i < v.len()
        invariant
            i <= v@.len(),
            forall|k: int| 0 <= k < i ==> v@[k]@ != name@,
        decreases v@.len() - i,
    {
        if str_eq(v[i].as_str(), name) {
            proof {
                assert(names(v@)[i as int] == name@);
            }
            return true;
        }
        i = i + 1;
    }
    proof {
        if names(v@).contains(name@) {
            let k = choose|k: int| 0 <= k < names(v@).len() && names(v@)[k] == name@;
            assert(v@[k]@ == name@);
        }
    }
    false
}

/// Whether two lists hold the same names, counting each name once (two sets
/// compared by the printed form of their items).
pub fn same_name_sets(a: &Vec<String>, b: &Vec<String>) -> (r: bool)
    ensures
        r == (name_set(a@) == name_set(b@)),
{
    let mut i: usize = 0;
    while i < a.len()
        invariant
            i <= a@.len(),
            forall|k: int| 0 <= k < i ==> names(b@).contains(#[trigger] a@[k]@),
        decreases a@.len() - i,
    {
        if !contains_name(b, a[i].as_str()) {
            proof {
                assert(names(a@)[i as int] == a@[i as int]@);
                assert(names(a@).contains(a@[i as int]@));
                assert(name_set(a@).contains(a@[i as int]@));
                assert(!name_set(b@).contains(a@[i as int]@));
            }
            return false;
        }
        i = i + 1;
    }
    let mut j: usize = 0;
    while j < b.len()
        invariant
            j <= b@.len(),
            forall|k: int| 0 <= k < a@.len() ==> names(b@).contains(#[trigger] a@[k]@),
            forall|k: int| 0 <= k < j ==> names(a@).contains(#[trigger] b@[k]@),
        decreases b@.len() - j,
    {
        if !contains_name(a, b[j].as_str()) {
            proof {
                assert(names(b@)[j as int] == b@[j as int]@);
                assert(names(b@).contains(b@[j as int]@));
                assert(name_set(b@).contains(b@[j as int]@));
                assert(!name_set(a@).contains(b@[j as int]@));
            }
            return false;
        }
        j = j + 1;
    }
    proof {
        assert forall|x: Seq<char>| name_set(a@).contains(x) implies name_set(b@).contains(x) by {
            let k = choose|k: int| 0 <= k < names(a@).len() && names(a@)[k] == x;
            assert(names(b@).contains(a@[k]@));
        }
        assert forall|x: Seq<char>| name_set(b@).contains(x) implies name_set(a@).contains(x) by {
            let k = choose|k: int| 0 <= k < names(b@).len() && names(b@)[k] == x;
            assert(names(a@).contains(b@[k]@));
        }
        assert(name_set(a@) =~= name_set(b@));
    }
    true
}

/// Each name occurs once.
pub open spec fn unique_names<P>(entries: Seq<(String, P)>) -> bool {
    forall|i: int, j: int| 0 <= i < j < entries.len() ==> entries[i].0@ != entries[j].0@
}

/// With names that occur once, an entry's name finds that entry.
proof fn lemma_find_unique<P>(entries: Seq<(String, P)>, i: int)
    requires
        unique_names(entries),
        0 <= i < entries.len(),
    ensures
        find_entry(entries, entries[i].0@) == Some(i),
    decreases entries.len(),
{
    let rest = entries.drop_last();
    let name = entries[i].0@;
    assert(unique_names(rest)) by {
        assert forall|a: int, b: int| 0 <= a < b < rest.len() implies rest[a].0@ != rest[b].0@ by {
            assert(rest[a] == entries[a]);
            assert(rest[b] == entries[b]);
        }
    }
    if i < entries.len() - 1 {
        assert(rest[i] == entries[i]);
        lemma_find_unique(rest, i);
    } else {
        lemma_find_in_range(rest, name);
        if let Some(j) = find_entry(rest, name) {
            assert(rest[j] == entries[j]);
        }
    }
}

/// Named entries compared with themselves, each value's diff with itself
/// being equal, are all unchanged: no entry is updated, deleted or
/// inserted.
pub proof fn lemma_entries_against_themselves<P, S, D: Fn(P, P) -> Diff<P, S>>(entries: Seq<(String, P)>, f: D, k: int)
    requires
        unique_names(entries),
        0 <= k <= entries.len(),
        forall|i: int| 0 <= i < entries.len() ==> #[trigger] decided_diff(f, entries[i].1, entries[i].1) is Equal,
    ensures
        compared_entries(entries, entries, f, k).0.len() == 0,
        compared_entries(entries, entries, f, k).1.len() == k,
        missing_entries(entries, entries, k).len() == 0,
    decreases k,
{
    if k > 0 {
        lemma_entries_against_themselves(entries, f, k - 1);
        lemma_find_unique(entries, k - 1);
        assert(decided_diff(f, entries[k - 1].1, entries[k - 1].1) is Equal);
    }
}


/// The names of named models.
pub open spec fn model_names<P>(v: Seq<(Seq<char>, P)>) -> Seq<Seq<char>> {
    v.map_values(|e: (Seq<char>, P)| e.0)
}

/// The names of named entries.
pub open spec fn entry_names_of<P>(v: Seq<(String, P)>) -> Seq<Seq<char>> {
    v.map_values(|e: (String, P)| e.0@)
}

/// The names of the changed, the equal and the missing entries among the
/// first `k` of `from` are, together, the first `k` names of `from`.
proof fn lemma_from_names_split<P, S, D: Fn(P, P) -> Diff<P, S>>(from: Seq<(String, P)>, to: Seq<(String, P)>, f: D, k: int)
    requires
        0 <= k <= from.len(),
    ensures
        model_names(compared_entries(from, to, f, k).0).to_multiset().add(compared_entries(from, to, f, k).1.to_multiset()).add(
            model_names(missing_entries(from, to, k)).to_multiset(),
        ) =~= entry_names_of(from.take(k)).to_multiset(),
    decreases k,
{
    broadcast use vstd::seq_lib::group_to_multiset_ensures, vstd::multiset::group_multiset_axioms;
    if k == 0 {
        assert(entry_names_of(from.take(0)) =~= Seq::<Seq<char>>::empty());
        assert(model_names(Seq::<(Seq<char>, Diff<P, S>)>::empty()) =~= Seq::<Seq<char>>::empty());
        assert(model_names(Seq::<(Seq<char>, P)>::empty()) =~= Seq::<Seq<char>>::empty());
    } else {
        lemma_from_names_split(from, to, f, k - 1);
        let x = from[k - 1].0@;
        assert(entry_names_of(from.take(k)) =~= entry_names_of(from.take(k - 1)).push(x));
        let (u, same) = compared_entries(from, to, f, k - 1);
        let del = missing_entries(from, to, k - 1);
        let (u2, same2) = compared_entries(from, to, f, k);
        let del2 = missing_entries(from, to, k);
        lemma_find_in_range(to, x);
        if u2.len() > u.len() {
            assert(model_names(u2) =~= model_names(u).push(x));
        } else {
            assert(model_names(u2) =~= model_names(u));
        }
        if del2.len() > del.len() {
            assert(model_names(del2) =~= model_names(del).push(x));
        } else {
            assert(model_names(del2) =~= model_names(del));
        }
    }
}

/// The inserted names among the first `k` of `to` are names of `to` that
/// `from` lacks, each as often as it occurs among those names of `to`.
proof fn lemma_to_names_split<P>(to: Seq<(String, P)>, from: Seq<(String, P)>, k: int)
    requires
        0 <= k <= to.len(),
    ensures
        model_names(missing_entries(to, from, k)).to_multiset().subset_of(entry_names_of(to.take(k)).to_multiset()),
        forall|i: int| 0 <= i < missing_entries(to, from, k).len()
            ==> find_entry(from, #[trigger] missing_entries(to, from, k)[i].0) is None,
    decreases k,
{
    broadcast use vstd::seq_lib::group_to_multiset_ensures, vstd::multiset::group_multiset_axioms;
    if k == 0 {
        assert(model_names(Seq::<(Seq<char>, P)>::empty()) =~= Seq::<Seq<char>>::empty());
    } else {
        lemma_to_names_split(to, from, k - 1);
        let x = to[k - 1].0@;
        assert(entry_names_of(to.take(k)) =~= entry_names_of(to.take(k - 1)).push(x));
        let m = missing_entries(to, from, k - 1);
        let m2 = missing_entries(to, from, k);
        if m2.len() > m.len() {
            assert(model_names(m2) =~= model_names(m).push(x));
            assert forall|i: int| 0 <= i < m2.len() implies find_entry(from, #[trigger] m2[i].0) is None by {
                if i < m.len() {
                    assert(m2[i] == m[i]);
                }
            }
        } else {
            assert(model_names(m2) =~= model_names(m));
        }
    }
}

/// With names that occur once on each side, comparing named entries names
/// every field once: the names of the changed, the equal, the deleted and
/// the inserted entries, read one list after another, hold no name twice (so
/// no list repeats a name and no two lists share one).
pub proof fn lemma_field_names_distinct<P, S, D: Fn(P, P) -> Diff<P, S>>(from: Seq<(String, P)>, to: Seq<(String, P)>, f: D)
    requires
        unique_names(from),
        unique_names(to),
    ensures
        (model_names(compared_entries(from, to, f, from.len() as int).0) + compared_entries(from, to, f, from.len() as int).1
            + model_names(missing_entries(from, to, from.len() as int)) + model_names(missing_entries(to, from, to.len() as int)))
            .no_duplicates(),
{
    broadcast use vstd::seq_lib::group_to_multiset_ensures, vstd::multiset::group_multiset_axioms;
    let n = from.len() as int;
    let (u, same) = compared_entries(from, to, f, n);
    let a = model_names(u) + same + model_names(missing_entries(from, to, n));
    let ins = model_names(missing_entries(to, from, to.len() as int));
    lemma_from_names_split(from, to, f, n);
    lemma_to_names_split(to, from, to.len() as int);
    assert(from.take(n) =~= from);
    assert(to.take(to.len() as int) =~= to);
    vstd::seq_lib::lemma_multiset_commutative(model_names(u), same);
    vstd::seq_lib::lemma_multiset_commutative(model_names(u) + same, model_names(missing_entries(from, to, n)));
    assert(a.to_multiset() =~= entry_names_of(from).to_multiset());
    // The names of `from`, and those of `to`, occur once each
    assert(entry_names_of(from).no_duplicates());
    assert(entry_names_of(to).no_duplicates());
    entry_names_of(from).lemma_multiset_has_no_duplicates();
    entry_names_of(to).lemma_multiset_has_no_duplicates();
    assert forall|x: Seq<char>| a.to_multiset().contains(x) implies a.to_multiset().count(x) == 1 by {}
    a.lemma_multiset_has_no_duplicates_conv();
    assert forall|x: Seq<char>| ins.to_multiset().contains(x) implies ins.to_multiset().count(x) == 1 by {
        assert(ins.to_multiset().count(x) <= entry_names_of(to).to_multiset().count(x));
    }
    ins.lemma_multiset_has_no_duplicates_conv();
    // An inserted name is not a name of `from`, and every name of `a` is
    assert forall|i: int, j: int| 0 <= i < a.len() && 0 <= j < ins.len() implies a[i] != ins[j] by {
        let m = missing_entries(to, from, to.len() as int);
        assert(ins[j] == m[j].0);
        assert(find_entry(from, m[j].0) is None);
        lemma_find_in_range(from, m[j].0);
        assert(a.contains(a[i]));
        assert(a.to_multiset().contains(a[i]));
        assert(entry_names_of(from).contains(a[i]));
        let k = choose|k: int| 0 <= k < entry_names_of(from).len() && entry_names_of(from)[k] == a[i];
        assert(from[k].0@ == a[i]);
    }
    vstd::seq_lib::lemma_no_dup_in_concat(a, ins);
}

} // verus!
