use crate::sql::clause::paths;
use crate::sql::value::{
    entry_views, lemma_array_view, lemma_object_view, same_all, views, Entry, Idiom, Val, Value,
};
use vstd::prelude::*;

verus! {

/// The key of a row: what each of the group fields leads to.
pub open spec fn group_key(row: Val, fields: Seq<Seq<Seq<u8>>>) -> Seq<Val> {
    Seq::new(fields.len(), |i: int| row.get(fields[i]))
}

/// The index of the first group at or after `i` whose rows have the key `key`.
pub open spec fn group_from(
    groups: Seq<Seq<Val>>,
    key: Seq<Val>,
    fields: Seq<Seq<Seq<u8>>>,
    i: int,
) -> Option<int>
    decreases groups.len() - i,
{
    if i < 0 || i >= groups.len() {
        None
    } else if groups[i].len() > 0 && group_key(groups[i][0], fields) == key {
        Some(i)
    } else {
        group_from(groups, key, fields, i + 1)
    }
}

/// The first `n` rows in groups of equal key. The groups stand in the order in
/// which their first rows were met, and so do the rows of each group.
pub open spec fn partition(rows: Seq<Val>, fields: Seq<Seq<Seq<u8>>>, n: int) -> Seq<Seq<Val>>
    decreases n,
{
    if n <= 0 || n > rows.len() {
        Seq::empty()
    } else {
        let groups = partition(rows, fields, n - 1);
        match group_from(groups, group_key(rows[n - 1], fields), fields, 0) {
            Some(j) => groups.update(j, groups[j].push(rows[n - 1])),
            None => groups.push(seq![rows[n - 1]]),
        }
    }
}

/// What the field `key` holds in each of `members`.
pub open spec fn column(members: Seq<Val>, key: Seq<u8>) -> Seq<Val> {
    Seq::new(members.len(), |i: int| members[i].field(key))
}

/// `first` with each of the first `n` fields named in `es` holding the array
/// of what that field holds in each of `members`.
pub open spec fn gather(members: Seq<Val>, first: Val, es: Seq<Entry>, n: int) -> Val
    decreases n,
{
    if n <= 0 || n > es.len() {
        first
    } else {
        gather(members, first, es, n - 1).with_field(
            es[n - 1].key,
            Val::Array(column(members, es[n - 1].key)),
        )
    }
}

/// `row` with each of the first `k` group fields holding what it holds in
/// `first`.
pub open spec fn with_keys(row: Val, first: Val, fields: Seq<Seq<Seq<u8>>>, k: int) -> Val
    decreases k,
{
    if k <= 0 || k > fields.len() {
        row
    } else {
        with_keys(row, first, fields, k - 1).set(fields[k - 1], first.get(fields[k - 1]))
    }
}

/// The one row that a group collapses to: the first row of the group, in
/// which every field holds the array of what the field holds in each row of
/// the group, and the group fields hold the key.
pub open spec fn collapse(members: Seq<Val>, fields: Seq<Seq<Seq<u8>>>) -> Val {
    let first = members[0];
    let gathered = match first {
        Val::Object(es) => gather(members, first, es, es.len() as int),
        _ => first,
    };
    with_keys(gathered, first, fields, fields.len() as int)
}

/// One row for each group of rows of equal key, in the order in which the
/// groups were first met.
pub open spec fn grouped(rows: Seq<Val>, fields: Seq<Seq<Seq<u8>>>) -> Seq<Val> {
    let groups = partition(rows, fields, rows.len() as int);
    Seq::new(groups.len(), |i: int| collapse(groups[i], fields))
}

/// The contents of a list of groups.
pub open spec fn group_views(s: Seq<Vec<Value>>) -> Seq<Seq<Val>> {
    Seq::new(s.len(), |i: int| views(s[i]@))
}

/// Every group of a partition holds a row.
pub proof fn lemma_partition_inhabited(rows: Seq<Val>, fields: Seq<Seq<Seq<u8>>>, n: int)
    ensures
        forall|j: int|
            0 <= j < partition(rows, fields, n).len() ==> (#[trigger] partition(rows, fields, n)[j]).len()
                > 0,
    decreases n,
{
    if 0 < n <= rows.len() {
        lemma_partition_inhabited(rows, fields, n - 1);
        lemma_group_from(partition(rows, fields, n - 1), group_key(rows[n - 1], fields), fields, 0);
    }
}

/// What `group_from` finds lies within the groups.
pub proof fn lemma_group_from(
    groups: Seq<Seq<Val>>,
    key: Seq<Val>,
    fields: Seq<Seq<Seq<u8>>>,
    i: int,
)
    requires
        0 <= i,
    ensures
        match group_from(groups, key, fields, i) {
            Some(j) => i <= j < groups.len(),
            None => true,
        },
    decreases groups.len() - i,
{
    if i < groups.len() {
        lemma_group_from(groups, key, fields, i + 1);
    }
}

/// The key of `row`.
#[verifier::loop_isolation(false)]
fn key_of(row: &Value, fields: &Vec<Idiom>) -> (r: Vec<Value>)
    ensures
        views(r@) == group_key(row@, paths(fields@)),
{
    let mut out: Vec<Value> = Vec::new();
    let mut i: usize = 0;
    while i < fields.len()
        invariant
            i <= fields.len(),
            out.len() == i,
            forall|j: int| 0 <= j < i ==> out@[j]@ == row@.get(fields@[j]@),
        decreases fields.len() - i,
    {
        out.push(row.get(&fields[i]));
        i += 1;
    }
    assert(views(out@) =~= group_key(row@, paths(fields@)));
    out
}

/// The rows in groups of equal key.
#[verifier::loop_isolation(false)]
fn divide(rows: &Vec<Value>, fields: &Vec<Idiom>) -> (r: Vec<Vec<Value>>)
    ensures
        group_views(r@) == partition(views(rows@), paths(fields@), rows.len() as int),
{
    let ghost rs = views(rows@);
    let ghost fs = paths(fields@);
    let mut groups: Vec<Vec<Value>> = Vec::new();
    let mut keys: Vec<Vec<Value>> = Vec::new();
    let mut n: usize = 0;
    assert(group_views(groups@) =~= Seq::<Seq<Val>>::empty());
    while n < rows.len()
        invariant
            n <= rows.len(),
            keys.len() == groups.len(),
            group_views(groups@) == partition(rs, fs, n as int),
            forall|j: int|
                0 <= j < groups.len() ==> (#[trigger] groups@[j]).len() > 0 && views(keys@[j]@)
                    == group_key(groups@[j]@[0]@, fs),
        decreases rows.len() - n,
    {
        let ghost gs = group_views(groups@);
        let key = key_of(&rows[n], fields);
        let mut found: Option<usize> = None;
        let mut j: usize = 0;
        while j < keys.len()
            invariant
                j <= keys.len(),
                found is None,
                group_from(gs, views(key@), fs, 0) == group_from(gs, views(key@), fs, j as int),
            decreases keys.len() - j,
        {
            assert(gs[j as int].len() > 0);
            assert(gs[j as int][0] == groups@[j as int]@[0]@);
            if same_all(&keys[j], &key) {
                found = Some(j);
                break;
            }
            j += 1;
        }
        match found {
            Some(j) => {
                assert(group_from(gs, views(key@), fs, 0) == Some(j as int));
                let mut g = groups.remove(j);
                let ghost before = views(g@);
                g.push(rows[n].duplicate());
                assert(views(g@) =~= before.push(rs[n as int]));
                groups.insert(j, g);
                assert(group_views(groups@) =~= gs.update(j as int, gs[j as int].push(rs[n as int])));
            },
            None => {
                assert(group_from(gs, views(key@), fs, 0) is None);
                let mut g: Vec<Value> = Vec::new();
                g.push(rows[n].duplicate());
                assert(views(g@) =~= seq![rs[n as int]]);
                groups.push(g);
                keys.push(key);
                assert(group_views(groups@) =~= gs.push(seq![rs[n as int]]));
            },
        }
        n += 1;
    }
    groups
}

/// What the field `key` holds in each of `members`.
#[verifier::loop_isolation(false)]
fn column_of(members: &Vec<Value>, key: &Vec<u8>) -> (r: Vec<Value>)
    ensures
        views(r@) == column(views(members@), key@),
{
    let mut out: Vec<Value> = Vec::new();
    let mut i: usize = 0;
    while i < members.len()
        invariant
            i <= members.len(),
            out.len() == i,
            forall|j: int| 0 <= j < i ==> out@[j]@ == members@[j]@.field(key@),
        decreases members.len() - i,
    {
        out.push(members[i].field(key));
        i += 1;
    }
    assert(views(out@) =~= column(views(members@), key@));
    out
}

/// The one row that the group `members` collapses to.
#[verifier::loop_isolation(false)]
fn collapse_group(members: &Vec<Value>, fields: &Vec<Idiom>) -> (r: Value)
    requires
        members.len() > 0,
    ensures
        r@ == collapse(views(members@), paths(fields@)),
{
    let ghost ms = views(members@);
    let ghost fs = paths(fields@);
    let first = &members[0];
    let mut row = first.duplicate();
    match first {
        Value::Object(es) => {
            proof {
                lemma_object_view(*es);
            }
            let ghost evs = entry_views(es@);
            let mut n: usize = 0;
            while n < es.len()
                invariant
                    n <= es.len(),
                    row@ == gather(ms, first@, evs, n as int),
                decreases es.len() - n,
            {
                let items = column_of(members, &es[n].0);
                proof {
                    lemma_array_view(items);
                }
                let next = row.with_field(&es[n].0, Value::Array(items));
                row = next;
                n += 1;
            }
        },
        _ => {},
    }
    let ghost gathered = row@;
    let mut k: usize = 0;
    while k < fields.len()
        invariant
            k <= fields.len(),
            row@ == with_keys(gathered, first@, fs, k as int),
        decreases fields.len() - k,
    {
        row.set(&fields[k], first.get(&fields[k]));
        k += 1;
    }
    row
}

/// One row for each group of rows of equal key, in the order in which the
/// groups were first met.
#[verifier::loop_isolation(false)]
pub fn group(rows: &Vec<Value>, fields: &Vec<Idiom>) -> (r: Vec<Value>)
    ensures
        views(r@) == grouped(views(rows@), paths(fields@)),
{
    let groups = divide(rows, fields);
    proof {
        lemma_partition_inhabited(views(rows@), paths(fields@), rows.len() as int);
    }
    let ghost gs = group_views(groups@);
    let mut out: Vec<Value> = Vec::new();
    let mut i: usize = 0;
    while i < groups.len()
        invariant
            i <= groups.len(),
            out.len() == i,
            forall|j: int| 0 <= j < i ==> out@[j]@ == collapse(gs[j], paths(fields@)),
        decreases groups.len() - i,
    {
        assert(gs[i as int].len() > 0);
        out.push(collapse_group(&groups[i], fields));
        i += 1;
    }
    assert(views(out@) =~= grouped(views(rows@), paths(fields@)));
    out
}

} // verus!
