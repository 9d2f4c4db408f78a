use crate::sql::clause::{paths, sort_keys, Order, SortKey};
use crate::sql::order::{lemma_chain, lemma_flip, lemma_void_first, Compared};
use crate::sql::value::{lemma_array_view, views, Idiom, Val, Value};
use vstd::prelude::*;
use vstd::set_lib::{
    lemma_int_range, lemma_set_subset_finite, lemma_subset_equality, set_int_range,
};

verus! {

/// The rows from `start` on, and of those at most `limit`; a limit of zero is
/// no limit.
pub open spec fn window(rows: Seq<Val>, start: int, limit: int) -> Seq<Val> {
    if start < 0 || start >= rows.len() {
        Seq::empty()
    } else if limit <= 0 || limit >= rows.len() - start {
        rows.skip(start)
    } else {
        rows.subrange(start, start + limit)
    }
}

/// Without a limit every row from the offset to the end is returned.
pub proof fn lemma_window_unlimited(rows: Seq<Val>, start: int)
    requires
        0 <= start <= rows.len(),
    ensures
        window(rows, start, 0) == rows.skip(start),
{
    if start == rows.len() {
        assert(rows.skip(start) =~= Seq::<Val>::empty());
    }
}

/// An offset at or beyond the end gives no rows, whatever the limit.
pub proof fn lemma_window_beyond(rows: Seq<Val>, start: int, limit: int)
    requires
        start >= rows.len(),
    ensures
        window(rows, start, limit) == Seq::<Val>::empty(),
{
}

/// The rows that one row fans out to on the field at `path`: one row for each
/// element where the field holds an array, with the element in the field's
/// place, and the row itself where it does not.
pub open spec fn split_row(row: Val, path: Seq<Seq<u8>>) -> Seq<Val> {
    match row.get(path) {
        Val::Array(items) => Seq::new(items.len(), |i: int| row.set(path, items[i])),
        _ => seq![row],
    }
}

/// What the first `n` rows fan out to on the field at `path`, in their order.
pub open spec fn split_rows(rows: Seq<Val>, path: Seq<Seq<u8>>, n: int) -> Seq<Val>
    decreases n,
{
    if n <= 0 || n > rows.len() {
        Seq::empty()
    } else {
        split_rows(rows, path, n - 1) + split_row(rows[n - 1], path)
    }
}

/// The rows after fanning out on the first `k` of `fields`, one field after
/// another.
pub open spec fn split_all(rows: Seq<Val>, fields: Seq<Seq<Seq<u8>>>, k: int) -> Seq<Val>
    decreases k,
{
    if k <= 0 || k > fields.len() {
        rows
    } else {
        let before = split_all(rows, fields, k - 1);
        split_rows(before, fields[k - 1], before.len() as int)
    }
}

/// The order of two values as sort keys: the order of values where the key is
/// ascending and its reverse where it is descending, but with a missing value
/// before every other in both directions.
pub open spec fn key_compare(x: Val, y: Val, ascending: bool) -> Compared {
    if ascending || x is Void || y is Void {
        x.compare(y)
    } else {
        x.compare(y).flip()
    }
}

/// The order of two rows by the sort keys from the `k`-th on: by the first key
/// on which they differ.
pub open spec fn row_compare(a: Val, b: Val, keys: Seq<SortKey>, k: int) -> Compared
    decreases keys.len() - k,
{
    if k < 0 || k >= keys.len() {
        Compared::Equal
    } else {
        let d = key_compare(a.get(keys[k].path), b.get(keys[k].path), keys[k].ascending);
        if d is Equal {
            row_compare(a, b, keys, k + 1)
        } else {
            d
        }
    }
}

/// Whether the row at index `x` has to come before the row at index `y`: it
/// sorts lower, or it ties and stood first.
pub open spec fn before(rows: Seq<Val>, keys: Seq<SortKey>, x: int, y: int) -> bool {
    row_compare(rows[x], rows[y], keys, 0) is Less || (row_compare(rows[x], rows[y], keys, 0)
        is Equal && x < y)
}

/// Whether `perm` lists every index of `rows` once, in sorted order, rows that
/// tie keeping the order they had.
pub open spec fn sorts(rows: Seq<Val>, keys: Seq<SortKey>, perm: Seq<int>) -> bool {
    &&& perm.len() == rows.len()
    &&& forall|i: int| 0 <= i < perm.len() ==> 0 <= #[trigger] perm[i] < rows.len()
    &&& forall|i: int, j: int| 0 <= i < j < perm.len() ==> perm[i] != perm[j]
    &&& forall|i: int, j: int| 0 <= i < j < perm.len() ==> before(rows, keys, perm[i], perm[j])
}

/// The rows in the order that `perm` lists them.
pub open spec fn arranged(rows: Seq<Val>, perm: Seq<int>) -> Seq<Val> {
    Seq::new(perm.len(), |i: int| rows[perm[i]])
}

/// Whether `out` is `rows` sorted by `keys`, stably.
pub open spec fn sorted_from(out: Seq<Val>, rows: Seq<Val>, keys: Seq<SortKey>) -> bool {
    exists|perm: Seq<int>| sorts(rows, keys, perm) && out == arranged(rows, perm)
}

/// Comparing two rows the other way round gives the opposite outcome.
pub proof fn lemma_row_flip(a: Val, b: Val, keys: Seq<SortKey>, k: int)
    ensures
        row_compare(b, a, keys, k) == row_compare(a, b, keys, k).flip(),
    decreases keys.len() - k,
{
    if 0 <= k < keys.len() {
        lemma_flip(a.get(keys[k].path), b.get(keys[k].path));
        lemma_row_flip(a, b, keys, k + 1);
    }
}

/// The order of rows is transitive, and two rows tie only where each ties
/// with every row between them.
pub proof fn lemma_row_chain(a: Val, b: Val, c: Val, keys: Seq<SortKey>, k: int)
    requires
        !(row_compare(a, b, keys, k) is Greater),
        !(row_compare(b, c, keys, k) is Greater),
    ensures
        !(row_compare(a, c, keys, k) is Greater),
        row_compare(a, c, keys, k) is Equal ==> row_compare(a, b, keys, k) is Equal
            && row_compare(b, c, keys, k) is Equal,
    decreases keys.len() - k,
{
    if 0 <= k < keys.len() {
        let x = a.get(keys[k].path);
        let y = b.get(keys[k].path);
        let z = c.get(keys[k].path);
        lemma_flip(x, y);
        lemma_flip(y, z);
        lemma_flip(x, z);
        lemma_void_first(x);
        lemma_void_first(y);
        lemma_void_first(z);
        if keys[k].ascending || x is Void || y is Void || z is Void {
            if x.le(y) && y.le(z) {
                lemma_chain(x, y, z);
            }
        } else {
            lemma_chain(z, y, x);
        }
        if x.compare(y) is Equal && y.compare(z) is Equal {
            lemma_row_chain(a, b, c, keys, k + 1);
        }
    }
}

/// With one ascending key the sorted rows do not decrease on that key, and
/// rows in which the key is missing come before all others.
pub proof fn lemma_sorted_ascending(out: Seq<Val>, rows: Seq<Val>, path: Seq<Seq<u8>>)
    requires
        sorted_from(out, rows, seq![SortKey { path: path, ascending: true }]),
    ensures
        out.len() == rows.len(),
        forall|i: int, j: int|
            0 <= i < j < out.len() ==> (#[trigger] out[i]).get(path).le((#[trigger] out[j]).get(path)),
        forall|i: int, j: int|
            0 <= i < j < out.len() && (#[trigger] out[j]).get(path) is Void ==> (#[trigger] out[i]).get(
                path,
            ) is Void,
{
    let keys = seq![SortKey { path: path, ascending: true }];
    let perm = choose|perm: Seq<int>| sorts(rows, keys, perm) && out == arranged(rows, perm);
    assert forall|i: int, j: int| 0 <= i < j < out.len() implies (#[trigger] out[i]).get(path).le(
        (#[trigger] out[j]).get(path),
    ) by {
        assert(before(rows, keys, perm[i], perm[j]));
        assert(row_compare(rows[perm[i]], rows[perm[j]], keys, 1) is Equal);
        assert(key_compare(out[i].get(path), out[j].get(path), true) == out[i].get(path).compare(
            out[j].get(path),
        ));
    }
    assert forall|i: int, j: int|
        0 <= i < j < out.len() && (#[trigger] out[j]).get(path) is Void implies (#[trigger] out[i]).get(
        path,
    ) is Void by {
        assert(out[i].get(path).le(out[j].get(path)));
        lemma_void_first(out[i].get(path));
    }
}

/// With one descending key rows in which the key is missing still come
/// first, and the other rows do not increase on that key.
pub proof fn lemma_sorted_descending(out: Seq<Val>, rows: Seq<Val>, path: Seq<Seq<u8>>)
    requires
        sorted_from(out, rows, seq![SortKey { path: path, ascending: false }]),
    ensures
        out.len() == rows.len(),
        forall|i: int, j: int|
            0 <= i < j < out.len() && (#[trigger] out[j]).get(path) is Void ==> (#[trigger] out[i]).get(
                path,
            ) is Void,
        forall|i: int, j: int|
            0 <= i < j < out.len() && !((#[trigger] out[i]).get(path) is Void) && !((
            #[trigger] out[j]).get(path) is Void) ==> out[j].get(path).le(out[i].get(path)),
{
    let keys = seq![SortKey { path: path, ascending: false }];
    let perm = choose|perm: Seq<int>| sorts(rows, keys, perm) && out == arranged(rows, perm);
    assert forall|i: int, j: int| 0 <= i < j < out.len() implies !(key_compare(
        (#[trigger] out[i]).get(path),
        (#[trigger] out[j]).get(path),
        false,
    ) is Greater) by {
        assert(before(rows, keys, perm[i], perm[j]));
        assert(row_compare(rows[perm[i]], rows[perm[j]], keys, 1) is Equal);
    }
    assert forall|i: int, j: int|
        0 <= i < j < out.len() && (#[trigger] out[j]).get(path) is Void implies (#[trigger] out[i]).get(
        path,
    ) is Void by {
        assert(!(key_compare(out[i].get(path), out[j].get(path), false) is Greater));
        lemma_void_first(out[i].get(path));
    }
    assert forall|i: int, j: int|
        0 <= i < j < out.len() && !((#[trigger] out[i]).get(path) is Void) && !((
        #[trigger] out[j]).get(path) is Void) implies out[j].get(path).le(out[i].get(path)) by {
        assert(!(key_compare(out[i].get(path), out[j].get(path), false) is Greater));
        lemma_flip(out[i].get(path), out[j].get(path));
    }
}

/// Every index occurs in a list that holds each index at most once and as
/// many indices as there are.
proof fn lemma_onto(perm: Seq<int>, x: int)
    requires
        forall|i: int| 0 <= i < perm.len() ==> 0 <= #[trigger] perm[i] < perm.len(),
        forall|i: int, j: int| 0 <= i < j < perm.len() ==> perm[i] != perm[j],
        0 <= x < perm.len(),
    ensures
        exists|i: int| 0 <= i < perm.len() && perm[i] == x,
{
    let n = perm.len() as int;
    assert(perm.no_duplicates());
    perm.unique_seq_to_set();
    lemma_int_range(0, n);
    let found = perm.to_set();
    let all = set_int_range(0, n);
    assert(found.subset_of(all)) by {
        assert forall|y: int| found.contains(y) implies all.contains(y) by {
            let i = choose|i: int| 0 <= i < perm.len() && perm[i] == y;
            assert(0 <= perm[i] < n);
        }
    }
    lemma_set_subset_finite(all, found);
    lemma_subset_equality(found, all);
    assert(all.contains(x));
    assert(found.contains(x));
}

/// Two sorted lists of the same rows agree at every position up to `k`.
proof fn lemma_sorts_agree(rows: Seq<Val>, keys: Seq<SortKey>, p: Seq<int>, q: Seq<int>, k: int)
    requires
        sorts(rows, keys, p),
        sorts(rows, keys, q),
        0 <= k < rows.len(),
    ensures
        forall|j: int| 0 <= j <= k ==> p[j] == q[j],
    decreases k,
{
    if k > 0 {
        lemma_sorts_agree(rows, keys, p, q, k - 1);
    }
    let x = p[k];
    let y = q[k];
    if x != y {
        lemma_onto(q, x);
        lemma_onto(p, y);
        let m = choose|m: int| 0 <= m < q.len() && q[m] == x;
        let w = choose|w: int| 0 <= w < p.len() && p[w] == y;
        lemma_row_flip(rows[x], rows[y], keys, 0);
        if m < k {
            assert(p[m] == q[m]);
            assert(p[m] != p[k]);
        }
        if w < k {
            assert(q[w] == p[w]);
            assert(q[w] != q[k]);
        }
        assert(before(rows, keys, q[k], q[m]));
        assert(before(rows, keys, p[k], p[w]));
    }
}

/// Sorting has one result: two lists that are both the rows sorted stably by
/// the same keys are the same list.
pub proof fn lemma_sorted_unique(a: Seq<Val>, b: Seq<Val>, rows: Seq<Val>, keys: Seq<SortKey>)
    requires
        sorted_from(a, rows, keys),
        sorted_from(b, rows, keys),
    ensures
        a == b,
{
    let p = choose|perm: Seq<int>| sorts(rows, keys, perm) && a == arranged(rows, perm);
    let q = choose|perm: Seq<int>| sorts(rows, keys, perm) && b == arranged(rows, perm);
    if rows.len() > 0 {
        lemma_sorts_agree(rows, keys, p, q, rows.len() - 1);
    }
    assert(a =~= b);
}

/// The rows from `start` on, and of those at most `limit`; a limit of zero is
/// no limit.
#[verifier::loop_isolation(false)]
pub fn paginate(rows: &Vec<Value>, start: usize, limit: usize) -> (r: Vec<Value>)
    ensures
        views(r@) == window(views(rows@), start as int, limit as int),
{
    let mut out: Vec<Value> = Vec::new();
    if start >= rows.len() {
        assert(views(out@) =~= Seq::<Val>::empty());
        return out;
    }
    let end: usize = if limit == 0 || limit >= rows.len() - start {
        rows.len()
    } else {
        start + limit
    };
    let mut i: usize = start;
    while i < end
        invariant
            start <= i <= end <= rows.len(),
            out.len() == i - start,
            forall|j: int| 0 <= j < out.len() ==> out@[j]@ == rows@[start + j]@,
        decreases end - i,
    {
        out.push(rows[i].duplicate());
        i += 1;
    }
    assert(views(out@) =~= window(views(rows@), start as int, limit as int));
    out
}

/// The rows that `row` fans out to on the field at `path`, added to `out`.
#[verifier::loop_isolation(false)]
fn split_into(out: &mut Vec<Value>, row: &Value, path: &Idiom)
    ensures
        views(final(out)@) == views(old(out)@) + split_row(row@, path@),
{
    let ghost start = views(out@);
    match row.get(path) {
        Value::Array(items) => {
            proof {
                lemma_array_view(items);
            }
            let ghost iv = views(items@);
            let mut i: usize = 0;
            while i < items.len()
                invariant
                    i <= items.len(),
                    out.len() == start.len() + i,
                    forall|j: int| 0 <= j < start.len() ==> out@[j]@ == start[j],
                    forall|j: int| 0 <= j < i ==> out@[start.len() + j]@ == row@.set(path@, iv[j]),
                decreases items.len() - i,
            {
                let mut next = row.duplicate();
                next.set(path, items[i].duplicate());
                out.push(next);
                i += 1;
            }
            assert(views(out@) =~= start + split_row(row@, path@));
        },
        _ => {
            out.push(row.duplicate());
            assert(views(out@) =~= start + split_row(row@, path@));
        },
    }
}

/// The rows after fanning out on each of `fields`, one field after another.
#[verifier::loop_isolation(false)]
pub fn split(rows: Vec<Value>, fields: &Vec<Idiom>) -> (r: Vec<Value>)
    ensures
        views(r@) == split_all(views(rows@), paths(fields@), fields.len() as int),
{
    let ghost start = views(rows@);
    let ghost ps = paths(fields@);
    let mut cur = rows;
    let mut k: usize = 0;
    while k < fields.len()
        invariant
            k <= fields.len(),
            views(cur@) == split_all(start, ps, k as int),
        decreases fields.len() - k,
    {
        let ghost before = views(cur@);
        let mut out: Vec<Value> = Vec::new();
        let mut i: usize = 0;
        assert(views(out@) =~= Seq::<Val>::empty());
        while i < cur.len()
            invariant
                i <= cur.len(),
                views(cur@) == before,
                views(out@) == split_rows(before, ps[k as int], i as int),
            decreases cur.len() - i,
        {
            split_into(&mut out, &cur[i], &fields[k]);
            i += 1;
        }
        cur = out;
        k += 1;
    }
    cur
}

/// The order of two rows by the sort keys from the `k`-th on.
#[verifier::loop_isolation(false)]
pub fn order_rows(a: &Value, b: &Value, orders: &Vec<Order>) -> (r: Compared)
    ensures
        r == row_compare(a@, b@, sort_keys(orders@), 0),
{
    let ghost keys = sort_keys(orders@);
    let mut k: usize = 0;
    while k < orders.len()
        invariant
            k <= orders.len(),
            row_compare(a@, b@, keys, 0) == row_compare(a@, b@, keys, k as int),
        decreases orders.len() - k,
    {
        let x = a.get(&orders[k].order);
        let y = b.get(&orders[k].order);
        let c = x.compare(&y);
        let d = if orders[k].direction || x.is_void() || y.is_void() {
            c
        } else {
            c.reversed()
        };
        match d {
            Compared::Equal => {},
            _ => {
                return d;
            },
        }
        k += 1;
    }
    Compared::Equal
}

/// Whether `perm` lists the first `n` indices once each, in sorted order, rows
/// that tie keeping the order they had.
pub open spec fn sorts_first(rows: Seq<Val>, keys: Seq<SortKey>, perm: Seq<usize>, n: int) -> bool {
    &&& perm.len() == n
    &&& forall|a: int| 0 <= a < perm.len() ==> 0 <= #[trigger] perm[a] < n
    &&& forall|a: int, b: int| 0 <= a < b < perm.len() ==> perm[a] != perm[b]
    &&& forall|a: int, b: int|
        0 <= a < b < perm.len() ==> before(rows, keys, perm[a] as int, perm[b] as int)
}

/// A sorted list of the first `n` indices stays sorted when `n` is put in
/// behind the rows that do not sort after it and before the rows that do.
proof fn lemma_insert_sorted(rows: Seq<Val>, keys: Seq<SortKey>, perm: Seq<usize>, n: usize, j: int)
    requires
        sorts_first(rows, keys, perm, n as int),
        0 <= j <= perm.len(),
        n < rows.len(),
        forall|b: int|
            j <= b < perm.len() ==> row_compare(rows[(#[trigger] perm[b]) as int], rows[n as int], keys, 0)
                is Greater,
        j > 0 ==> !(row_compare(rows[perm[j - 1] as int], rows[n as int], keys, 0) is Greater),
    ensures
        sorts_first(rows, keys, perm.insert(j, n), n + 1),
{
    let next = perm.insert(j, n);
    assert forall|a: int| 0 <= a < j implies before(rows, keys, (#[trigger] perm[a]) as int, n as int) by {
        let last = perm[j - 1] as int;
        if a < j - 1 {
            assert(before(rows, keys, perm[a] as int, last));
        } else {
            lemma_row_flip(rows[last], rows[last], keys, 0);
        }
        lemma_row_chain(rows[perm[a] as int], rows[last], rows[n as int], keys, 0);
    }
    assert forall|b: int| j <= b < perm.len() implies before(
        rows,
        keys,
        n as int,
        (#[trigger] perm[b]) as int,
    ) by {
        lemma_row_flip(rows[perm[b] as int], rows[n as int], keys, 0);
    }
    assert forall|a: int| 0 <= a < next.len() implies 0 <= #[trigger] next[a] < n + 1 by {
        if a < j {
            assert(next[a] == perm[a]);
        } else if a > j {
            assert(next[a] == perm[a - 1]);
        }
    }
    assert forall|a: int, b: int| 0 <= a < b < next.len() implies next[a] != next[b] && before(
        rows,
        keys,
        next[a] as int,
        next[b] as int,
    ) by {
        if b < j {
            assert(next[a] == perm[a] && next[b] == perm[b]);
        } else if b == j {
            assert(next[a] == perm[a] && next[b] == n);
        } else if a < j {
            assert(next[a] == perm[a] && next[b] == perm[b - 1]);
        } else if a == j {
            assert(next[a] == n && next[b] == perm[b - 1]);
        } else {
            assert(next[a] == perm[a - 1] && next[b] == perm[b - 1]);
        }
    }
}

/// Where the row `n` belongs in the sorted list `perm`: behind the rows that
/// do not sort after it.
#[verifier::loop_isolation(false)]
fn insertion_point(rows: &Vec<Value>, orders: &Vec<Order>, perm: &Vec<usize>, n: usize) -> (j: usize)
    requires
        n < rows.len(),
        forall|a: int| 0 <= a < perm.len() ==> 0 <= #[trigger] perm@[a] < rows.len(),
    ensures
        j <= perm.len(),
        forall|b: int|
            j <= b < perm.len() ==> row_compare(
                views(rows@)[(#[trigger] perm@[b]) as int],
                views(rows@)[n as int],
                sort_keys(orders@),
                0,
            ) is Greater,
        j > 0 ==> !(row_compare(
            views(rows@)[perm@[j - 1] as int],
            views(rows@)[n as int],
            sort_keys(orders@),
            0,
        ) is Greater),
{
    let ghost rs = views(rows@);
    let ghost keys = sort_keys(orders@);
    let mut j: usize = perm.len();
    while j > 0
        invariant
            j <= perm.len(),
            forall|b: int|
                j <= b < perm.len() ==> row_compare(
                    rs[(#[trigger] perm@[b]) as int],
                    rs[n as int],
                    keys,
                    0,
                ) is Greater,
        decreases j,
    {
        let c = order_rows(&rows[perm[j - 1]], &rows[n], orders);
        match c {
            Compared::Greater => {},
            _ => {
                return j;
            },
        }
        j -= 1;
    }
    j
}

/// The indices of `rows` in sorted order, rows that tie keeping their order.
#[verifier::loop_isolation(false)]
fn sort_indices(rows: &Vec<Value>, orders: &Vec<Order>) -> (r: Vec<usize>)
    ensures
        sorts_first(views(rows@), sort_keys(orders@), r@, rows.len() as int),
{
    let ghost rs = views(rows@);
    let ghost keys = sort_keys(orders@);
    let mut perm: Vec<usize> = Vec::new();
    let mut i: usize = 0;
    while i < rows.len()
        invariant
            i <= rows.len(),
            sorts_first(rs, keys, perm@, i as int),
        decreases rows.len() - i,
    {
        let j = insertion_point(rows, orders, &perm, i);
        proof {
            lemma_insert_sorted(rs, keys, perm@, i, j as int);
        }
        perm.insert(j, i);
        i += 1;
    }
    perm
}

/// The rows sorted by the keys of `orders`, stably.
#[verifier::loop_isolation(false)]
pub fn order(rows: &Vec<Value>, orders: &Vec<Order>) -> (r: Vec<Value>)
    ensures
        sorted_from(views(r@), views(rows@), sort_keys(orders@)),
{
    let perm = sort_indices(rows, orders);
    let ghost p = perm@.map_values(|x: usize| x as int);
    assert(sorts(views(rows@), sort_keys(orders@), p));
    let mut out: Vec<Value> = Vec::new();
    let mut i: usize = 0;
    while i < perm.len()
        invariant
            i <= perm.len(),
            out.len() == i,
            forall|j: int| 0 <= j < i ==> out@[j]@ == rows@[p[j]]@,
        decreases perm.len() - i,
    {
        assert(0 <= p[i as int] < rows.len());
        out.push(rows[perm[i]].duplicate());
        i += 1;
    }
    assert(views(out@) =~= arranged(views(rows@), p));
    out
}

} // verus!
