//! Ordering names the way `str::cmp` does, and listing named entries in that
//! order, equal names keeping the order they came in.

use vstd::prelude::*;

verus! {

/// Whether `a` comes strictly before `b` in the order of `str::cmp`:
/// code point by code point, a proper prefix first.
pub open spec fn text_before(a: Seq<char>, b: Seq<char>) -> bool
    decreases a.len(),
{
    if a.len() == 0 {
        b.len() > 0
    } else if b.len() == 0 {
        false
    } else if a[0] != b[0] {
        (a[0] as u32) < (b[0] as u32)
    } else {
        text_before(a.drop_first(), b.drop_first())
    }
}

/// Whether `a` comes strictly before `b` in the order of `str::cmp`.
pub fn str_before(a: &str, b: &str) -> (r: bool)
    ensures
        r == text_before(a@, b@),
{
    let n = a.unicode_len();
    let m = b.unicode_len();
    let mut i: usize = 0;
    proof {
        assert(a@.skip(0) =~= a@);
        assert(b@.skip(0) =~= b@);
    }
    while i < n && i < m
        invariant
            n == a@.len(),
            m == b@.len(),
            i <= n,
            i <= m,
            text_before(a@, b@) == text_before(a@.skip(i as int), b@.skip(i as int)),
        decreases n - i,
    {
        let ca = a.get_char(i);
        let cb = b.get_char(i);
        proof {
            assert(a@.skip(i as int)[0] == ca);
            assert(b@.skip(i as int)[0] == cb);
            assert(a@.skip(i as int).drop_first() =~= a@.skip(i + 1));
            assert(b@.skip(i as int).drop_first() =~= b@.skip(i + 1));
        }
        if ca != cb {
            return (ca as u32) < (cb as u32);
        }
        i = i + 1;
    }
    i == n && i < m
}

/// The names of named entries.
pub open spec fn entry_names<X>(entries: Seq<(String, X)>) -> Seq<Seq<char>> {
    entries.map_values(|e: (String, X)| e.0@)
}

/// `order` with the index `k` inserted in front of the first index whose
/// name comes after the name of `k`.
pub open spec fn insert_by_name(order: Seq<usize>, names: Seq<Seq<char>>, k: usize) -> Seq<usize>
    decreases order.len(),
{
    if order.len() == 0 {
        seq![k]
    } else if text_before(names[k as int], names[order[0] as int]) {
        seq![k] + order
    } else {
        seq![order[0]] + insert_by_name(order.drop_first(), names, k)
    }
}

/// The indices `0..n`, ordered by name; equal names keep their order
/// (a stable sort).
pub open spec fn sorted_order(names: Seq<Seq<char>>, n: nat) -> Seq<usize>
    decreases n,
{
    if n == 0 {
        Seq::empty()
    } else {
        insert_by_name(sorted_order(names, (n - 1) as nat), names, (n - 1) as usize)
    }
}

/// Whether names along an order never go back.
pub open spec fn names_ascend(order: Seq<usize>, names: Seq<Seq<char>>) -> bool {
    forall|i: int, j: int| 0 <= i < j < order.len() ==> !text_before(names[order[j] as int], names[order[i] as int])
}

/// The order of named entries, by name: each index once, equal names
/// keeping the order in which they came.
pub fn name_order<X>(entries: &Vec<(String, X)>) -> (r: Vec<usize>)
    ensures
        r@ == sorted_order(entry_names(entries@), entries@.len()),
{
    let ghost names = entry_names(entries@);
    let mut order: Vec<usize> = Vec::new();
    let mut k: usize = 0;
    while k < entries.len()
        invariant
            k <= entries@.len(),
            names == entry_names(entries@),
            order@ == sorted_order(names, k as nat),
            forall|j: int| 0 <= j < order@.len() ==> order@[j] < k,
            order@.len() == k,
        decreases entries@.len() - k,
    {
        proof {
            lemma_sorted_order_len(names, k as nat);
        }
        let ghost o = order@;
        // Find the first index whose name comes after the new one
        let mut p: usize = 0;
        let mut found = false;
        proof {
            assert(o.skip(0) =~= o);
            assert(o.take(0) + insert_by_name(o, names, k as usize) =~= insert_by_name(o, names, k as usize));
        }
        while !found && p < order.len()
            invariant
                o == order@,
                p <= o.len(),
                names == entry_names(entries@),
                k < entries@.len(),
                forall|j: int| 0 <= j < o.len() ==> o[j] < k,
                insert_by_name(o, names, k as usize) == (if found {
                    o.take(p as int) + seq![k as usize] + o.skip(p as int)
                } else {
                    o.take(p as int) + insert_by_name(o.skip(p as int), names, k as usize)
                }),
                found ==> p < o.len(),
            decreases o.len() - p, if found { 0int } else { 1int },
        {
            let at = order[p];
            proof {
                assert(o.skip(p as int)[0] == at);
                assert(names[at as int] == entries@[at as int].0@);
                assert(names[k as int] == entries@[k as int].0@);
            }
            if str_before(entries[k].0.as_str(), entries[at].0.as_str()) {
                found = true;
            } else {
                proof {
                    assert(o.skip(p as int).drop_first() =~= o.skip(p + 1));
                    assert(o.take(p as int) + seq![at] =~= o.take(p + 1));
                    assert(o.take(p as int) + (seq![at] + insert_by_name(o.skip(p + 1), names, k as usize))
                        =~= o.take(p + 1) + insert_by_name(o.skip(p + 1), names, k as usize));
                }
                p = p + 1;
            }
        }
        if !found {
            proof {
                assert(o.skip(p as int) =~= Seq::<usize>::empty());
                assert(o.take(p as int) =~= o);
            }
        }
        order.insert(p, k);
        proof {
            assert(order@ =~= o.take(p as int) + seq![k as usize] + o.skip(p as int));
            assert(order@ == sorted_order(names, (k + 1) as nat));
            assert forall|j: int| 0 <= j < order@.len() implies order@[j] < k + 1 by {
                if j < p {
                    assert(order@[j] == o[j]);
                } else if j > p {
                    assert(order@[j] == o[j - 1]);
                }
            }
        }
        k = k + 1;
    }
    order
}

/// The order has one index per entry.
pub(crate) proof fn lemma_sorted_order_len(names: Seq<Seq<char>>, n: nat)
    ensures
        sorted_order(names, n).len() == n,
    decreases n,
{
    if n > 0 {
        lemma_sorted_order_len(names, (n - 1) as nat);
        lemma_insert_len(sorted_order(names, (n - 1) as nat), names, (n - 1) as usize);
    }
}

/// Inserting adds one index.
proof fn lemma_insert_len(order: Seq<usize>, names: Seq<Seq<char>>, k: usize)
    ensures
        insert_by_name(order, names, k).len() == order.len() + 1,
    decreases order.len(),
{
    if order.len() > 0 && !text_before(names[k as int], names[order[0] as int]) {
        lemma_insert_len(order.drop_first(), names, k);
    }
}

/// No text comes before itself.
proof fn lemma_before_irreflexive(a: Seq<char>)
    ensures
        !text_before(a, a),
    decreases a.len(),
{
    if a.len() > 0 {
        assert(a.drop_first() == a.drop_first());
        lemma_before_irreflexive(a.drop_first());
    }
}

/// Coming before is transitive.
proof fn lemma_before_transitive(a: Seq<char>, b: Seq<char>, c: Seq<char>)
    requires
        text_before(a, b),
        text_before(b, c),
    ensures
        text_before(a, c),
    decreases a.len(),
{
    if a.len() > 0 && b.len() > 0 && c.len() > 0 && a[0] == b[0] && b[0] == c[0] {
        lemma_before_transitive(a.drop_first(), b.drop_first(), c.drop_first());
    }
}

/// What an insertion holds: the old indices and the new one.
proof fn lemma_insert_contents(order: Seq<usize>, names: Seq<Seq<char>>, k: usize)
    ensures
        forall|x: usize| #[trigger] insert_by_name(order, names, k).contains(x) <==> (x == k || order.contains(x)),
        !order.contains(k) && order.no_duplicates() ==> insert_by_name(order, names, k).no_duplicates(),
    decreases order.len(),
{
    let r = insert_by_name(order, names, k);
    if order.len() == 0 {
        assert forall|x: usize| #[trigger] r.contains(x) <==> (x == k || order.contains(x)) by {
            if r.contains(x) {
                let j = choose|j: int| 0 <= j < r.len() && r[j] == x;
                assert(j == 0);
            }
            if x == k {
                assert(r[0] == k);
            }
        }
    } else if text_before(names[k as int], names[order[0] as int]) {
        assert forall|x: usize| #[trigger] r.contains(x) <==> (x == k || order.contains(x)) by {
            if r.contains(x) {
                let j = choose|j: int| 0 <= j < r.len() && r[j] == x;
                if j > 0 {
                    assert(order[j - 1] == x);
                }
            }
            if x == k {
                assert(r[0] == k);
            }
            if order.contains(x) {
                let j = choose|j: int| 0 <= j < order.len() && order[j] == x;
                assert(r[j + 1] == x);
            }
        }
        if !order.contains(k) && order.no_duplicates() {
            assert forall|i: int, j: int| 0 <= i < r.len() && 0 <= j < r.len() && i != j implies r[i] != r[j] by {
                if i > 0 && j > 0 {
                    assert(r[i] == order[i - 1]);
                    assert(r[j] == order[j - 1]);
                } else if i == 0 {
                    assert(order[j - 1] == r[j]);
                } else {
                    assert(order[i - 1] == r[i]);
                }
            }
        }
    } else {
        let rest = order.drop_first();
        lemma_insert_contents(rest, names, k);
        let ir = insert_by_name(rest, names, k);
        assert(r == seq![order[0]] + ir);
        assert forall|x: usize| #[trigger] r.contains(x) <==> (x == k || order.contains(x)) by {
            if r.contains(x) {
                let j = choose|j: int| 0 <= j < r.len() && r[j] == x;
                if j > 0 {
                    assert(ir[j - 1] == x);
                    assert(ir.contains(x));
                    if x != k {
                        assert(rest.contains(x));
                        let m = choose|m: int| 0 <= m < rest.len() && rest[m] == x;
                        assert(order[m + 1] == x);
                    }
                } else {
                    assert(order[0] == x);
                }
            }
            if x == k {
                assert(ir.contains(k));
                let m = choose|m: int| 0 <= m < ir.len() && ir[m] == k;
                assert(r[m + 1] == k);
            }
            if order.contains(x) {
                let j = choose|j: int| 0 <= j < order.len() && order[j] == x;
                if j == 0 {
                    assert(r[0] == x);
                } else {
                    assert(rest[j - 1] == x);
                    assert(ir.contains(x));
                    let m = choose|m: int| 0 <= m < ir.len() && ir[m] == x;
                    assert(r[m + 1] == x);
                }
            }
        }
        if !order.contains(k) && order.no_duplicates() {
            assert(!rest.contains(k)) by {
                if rest.contains(k) {
                    let m = choose|m: int| 0 <= m < rest.len() && rest[m] == k;
                    assert(order[m + 1] == k);
                }
            }
            assert(rest.no_duplicates()) by {
                assert forall|i: int, j: int| 0 <= i < rest.len() && 0 <= j < rest.len() && i != j implies rest[i] != rest[j] by {
                    assert(rest[i] == order[i + 1]);
                    assert(rest[j] == order[j + 1]);
                }
            }
            assert(!ir.contains(order[0])) by {
                if ir.contains(order[0]) {
                    if order[0] != k {
                        assert(rest.contains(order[0]));
                        let m = choose|m: int| 0 <= m < rest.len() && rest[m] == order[0];
                        assert(order[m + 1] == order[0]);
                    } else {
                        assert(order.contains(k));
                    }
                }
            }
            assert forall|i: int, j: int| 0 <= i < r.len() && 0 <= j < r.len() && i != j implies r[i] != r[j] by {
                if i > 0 && j > 0 {
                    assert(r[i] == ir[i - 1]);
                    assert(r[j] == ir[j - 1]);
                } else if i == 0 {
                    assert(r[j] == ir[j - 1]);
                    assert(ir.contains(r[j]));
                } else {
                    assert(r[i] == ir[i - 1]);
                    assert(ir.contains(r[i]));
                }
            }
        }
    }
}

/// Inserting into an order whose names never go back keeps them so.
proof fn lemma_insert_ascends(order: Seq<usize>, names: Seq<Seq<char>>, k: usize)
    requires
        names_ascend(order, names),
    ensures
        names_ascend(insert_by_name(order, names, k), names),
    decreases order.len(),
{
    let r = insert_by_name(order, names, k);
    let nk = names[k as int];
    if order.len() == 0 {
    } else if text_before(nk, names[order[0] as int]) {
        assert forall|i: int, j: int| 0 <= i < j < r.len() implies !text_before(names[r[j] as int], names[r[i] as int]) by {
            if i == 0 {
                assert(r[j] == order[j - 1]);
                if text_before(names[order[j - 1] as int], nk) {
                    lemma_before_transitive(names[order[j - 1] as int], nk, names[order[0] as int]);
                    if j - 1 == 0 {
                        lemma_before_irreflexive(names[order[0] as int]);
                    }
                }
            } else {
                assert(r[i] == order[i - 1]);
                assert(r[j] == order[j - 1]);
            }
        }
    } else {
        let rest = order.drop_first();
        assert(names_ascend(rest, names)) by {
            assert forall|i: int, j: int| 0 <= i < j < rest.len() implies !text_before(names[rest[j] as int], names[rest[i] as int]) by {
                assert(rest[i] == order[i + 1]);
                assert(rest[j] == order[j + 1]);
            }
        }
        lemma_insert_ascends(rest, names, k);
        lemma_insert_contents(rest, names, k);
        let ir = insert_by_name(rest, names, k);
        assert(r == seq![order[0]] + ir);
        assert forall|i: int, j: int| 0 <= i < j < r.len() implies !text_before(names[r[j] as int], names[r[i] as int]) by {
            if i == 0 {
                assert(r[j] == ir[j - 1]);
                assert(ir.contains(r[j]));
                if r[j] != k {
                    assert(rest.contains(r[j]));
                    let m = choose|m: int| 0 <= m < rest.len() && rest[m] == r[j];
                    assert(order[m + 1] == r[j]);
                }
            } else {
                assert(r[i] == ir[i - 1]);
                assert(r[j] == ir[j - 1]);
            }
        }
    }
}

/// Named entries are listed by name: along the order names never go back,
/// and each index below `n` appears exactly once.
pub proof fn lemma_sorted_order_sorts(names: Seq<Seq<char>>, n: nat)
    requires
        n <= usize::MAX,
    ensures
        sorted_order(names, n).len() == n,
        names_ascend(sorted_order(names, n), names),
        sorted_order(names, n).no_duplicates(),
        forall|i: usize| #[trigger] sorted_order(names, n).contains(i) <==> i < n,
    decreases n,
{
    lemma_sorted_order_len(names, n);
    if n > 0 {
        let prev = sorted_order(names, (n - 1) as nat);
        lemma_sorted_order_sorts(names, (n - 1) as nat);
        lemma_insert_ascends(prev, names, (n - 1) as usize);
        lemma_insert_contents(prev, names, (n - 1) as usize);
        assert(!prev.contains((n - 1) as usize));
    }
}

} // verus!
