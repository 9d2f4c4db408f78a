use crate::dbs::transaction::{stored, Row, Transaction};
use crate::err::Error;
use crate::sql::clause::paths;
use crate::sql::value::{views, Idiom, Key, Val, Value};
use vstd::prelude::*;

verus! {

/// The row with the record in the place of its identity at `path`: where the
/// field holds the identity of a record that is stored, it holds the content of
/// that record instead.
pub open spec fn fetch_row(row: Val, path: Seq<Seq<u8>>, store: Seq<Row>) -> Val {
    match row.get(path) {
        Val::Thing(tb, id) => match stored(store, Key { tb: tb, id: id }) {
            Some(v) => row.set(path, v),
            None => row,
        },
        _ => row,
    }
}

/// The rows with the records fetched at `path`.
pub open spec fn fetch_rows(rows: Seq<Val>, path: Seq<Seq<u8>>, store: Seq<Row>) -> Seq<Val> {
    Seq::new(rows.len(), |i: int| fetch_row(rows[i], path, store))
}

/// The rows with the records fetched at the first `k` of `fields`, one field
/// after another.
pub open spec fn fetch_all(rows: Seq<Val>, fields: Seq<Seq<Seq<u8>>>, store: Seq<Row>, k: int) -> Seq<
    Val,
>
    decreases k,
{
    if k <= 0 || k > fields.len() {
        rows
    } else {
        fetch_rows(fetch_all(rows, fields, store, k - 1), fields[k - 1], store)
    }
}

/// The row with the record fetched at `path`.
fn fetch_one(row: &Value, path: &Idiom, txn: &Transaction) -> (r: Value)
    requires
        txn.open,
    ensures
        r@ == fetch_row(row@, path@, txn.rows()),
{
    match row.get(path) {
        Value::Thing(t) => match txn.get(&t) {
            Ok(Some(v)) => {
                let mut next = row.duplicate();
                next.set(path, v);
                next
            },
            _ => row.duplicate(),
        },
        _ => row.duplicate(),
    }
}

/// The rows with the records fetched at each of `fields`, one field after
/// another; the storage error where the transaction is over.
#[verifier::loop_isolation(false)]
pub fn fetch(rows: Vec<Value>, fields: &Vec<Idiom>, txn: &Transaction) -> (r: Result<
    Vec<Value>,
    Error,
>)
    ensures
        match r {
            Ok(out) => txn.read_error() is None && views(out@) == fetch_all(
                views(rows@),
                paths(fields@),
                txn.rows(),
                fields.len() as int,
            ),
            Err(e) => txn.read_error() == Some(e),
        },
{
    if !txn.open {
        return Err(Error::Storage(crate::err::StorageError::Finished));
    }
    let ghost start = views(rows@);
    let ghost fs = paths(fields@);
    let mut cur = rows;
    let mut k: usize = 0;
    while k < fields.len()
        invariant
            k <= fields.len(),
            views(cur@) == fetch_all(start, fs, txn.rows(), k as int),
        decreases fields.len() - k,
    {
        let ghost before = views(cur@);
        let mut out: Vec<Value> = Vec::new();
        let mut i: usize = 0;
        while i < cur.len()
            invariant
                i <= cur.len(),
                out.len() == i,
                views(cur@) == before,
                forall|j: int| 0 <= j < i ==> out@[j]@ == fetch_row(before[j], fs[k as int], txn.rows()),
            decreases cur.len() - i,
        {
            out.push(fetch_one(&cur[i], &fields[k], txn));
            i += 1;
        }
        assert(views(out@) =~= fetch_rows(before, fs[k as int], txn.rows()));
        cur = out;
        k += 1;
    }
    Ok(cur)
}

} // verus!
