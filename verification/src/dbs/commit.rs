use crate::dbs::iterator::{
    finished, gathered, ordered_as, resolved_rows, shapes, treatment_of, Iterator, Plan,
};
use crate::dbs::options::{Level, Options};
use crate::dbs::runtime::Runtime;
use crate::dbs::shape::window;
use crate::dbs::statement::Statement;
use crate::dbs::transaction::{rows_with, Row, Transaction};
use crate::doc::merge::name_id;
use crate::err::{Error, StorageError};
use crate::sql::clause::Values;
use crate::sql::evaluate::{doc_view, eval_items, lemma_items_error, scope_of, Scope};
use crate::sql::value::{views, Idiom, Key, Val, Value};
use vstd::prelude::*;

verus! {

/// The store after the first `n` rows were written: each row that names its
/// record in its field `id` is stored under that identity.
pub open spec fn committed(store: Seq<Row>, rows: Seq<Val>, n: int) -> Seq<Row>
    decreases n,
{
    if n <= 0 || n > rows.len() {
        store
    } else {
        let before = committed(store, rows, n - 1);
        match rows[n - 1].get(seq![name_id()]) {
            Val::Thing(tb, id) => rows_with(before, Key { tb: tb, id: id }, rows[n - 1]),
            _ => before,
        }
    }
}

/// The computed sources of a statement, in their order.
pub open spec fn targets_of(what: Seq<Val>, scope: Scope, doc: Option<Val>) -> Result<
    Seq<Val>,
    Error,
> {
    eval_items(what, scope, doc, what.len() as int)
}

/// The documents that a statement that changes documents leaves behind.
pub open spec fn changed_rows(
    stm: &Statement<'_>,
    what: Seq<Val>,
    scope: Scope,
    store: Seq<Row>,
    doc: Option<Val>,
) -> Result<Seq<Val>, Error> {
    match targets_of(what, scope, doc) {
        Err(e) => Err(e),
        Ok(targets) => resolved_rows(store, targets, treatment_of(stm), scope),
    }
}

/// Why a statement that changes documents fails, if it does: the caller may
/// not run it, the runtime says to stop, a source cannot be computed, the
/// transaction is over, a document cannot be changed, or the transaction may
/// not write; the first of these that holds.
pub open spec fn change_failure(
    stm: &Statement<'_>,
    what: Seq<Val>,
    ctx: &Runtime,
    opt: &Options,
    txn: &Transaction,
    doc: Option<Val>,
) -> Option<Error> {
    let scope = Scope { done: ctx.done(), futures: true, params: ctx.params() };
    if !opt.allows(Level::Db) {
        Some(Error::Permission)
    } else if ctx.done() is Some {
        ctx.done()
    } else {
        match targets_of(what, scope, doc) {
            Err(e) => Some(e),
            Ok(_) => if txn.read_error() is Some {
                txn.read_error()
            } else {
                match changed_rows(stm, what, scope, txn.rows(), doc) {
                    Err(e) => Some(e),
                    Ok(_) => txn.write_error(),
                }
            },
        }
    }
}

/// A plan that leaves the rows as they are.
pub open spec fn no_plan() -> Plan {
    Plan {
        split: Seq::empty(),
        group: None,
        order: None,
        start: 0,
        limit: 0,
        fetch: Seq::empty(),
    }
}

/// Rows that are not shaped stay as they are.
pub proof fn lemma_no_plan(rows: Seq<Val>, store: Seq<Row>, out: Seq<Val>)
    requires
        shapes(rows, no_plan(), store, out),
    ensures
        out == rows,
{
    let sorted = choose|sorted: Seq<Val>| #[trigger]
        ordered_as(sorted, gathered(rows, no_plan()), no_plan()) && out == finished(
            sorted,
            no_plan(),
            store,
        );
    assert(sorted == rows);
    assert(window(rows, 0, 0) =~= rows);
}

/// Stores each of `rows` that names its record in its field `id`.
#[verifier::loop_isolation(false)]
fn commit(txn: &mut Transaction, rows: &Vec<Value>) -> (r: Result<(), Error>)
    ensures
        final(txn).open == old(txn).open,
        final(txn).writable == old(txn).writable,
        match r {
            Ok(_) => old(txn).write_error() is None && final(txn).rows() == committed(
                old(txn).rows(),
                views(rows@),
                rows.len() as int,
            ),
            Err(e) => old(txn).write_error() == Some(e) && final(txn).rows() == old(txn).rows(),
        },
{
    if !txn.open {
        return Err(Error::Storage(StorageError::Finished));
    }
    if !txn.writable {
        return Err(Error::Storage(StorageError::ReadOnly));
    }
    let mut parts: Vec<Vec<u8>> = Vec::new();
    let name: Vec<u8> = vec![105u8, 100u8];
    assert(name@ =~= name_id());
    parts.push(name);
    let path = Idiom { parts };
    assert(path@ =~= seq![name_id()]);
    let ghost store = txn.rows();
    let ghost rs = views(rows@);
    let mut n: usize = 0;
    while n < rows.len()
        invariant
            n <= rows.len(),
            txn.open && txn.writable,
            txn.rows() == committed(store, rs, n as int),
        decreases rows.len() - n,
    {
        match rows[n].get(&path) {
            Value::Thing(t) => match txn.put(&t, rows[n].duplicate()) {
                Ok(_) => {},
                Err(e) => {
                    return Err(e);
                },
            },
            _ => {},
        }
        n += 1;
    }
    Ok(())
}

/// Runs a statement that changes documents: checks that the caller may run
/// it, computes the sources, resolves them, changes each document that meets
/// the condition, and stores what was changed. Nothing is stored unless every
/// document could be changed. The result is the array of the changed
/// documents.
#[verifier::loop_isolation(false)]
pub(crate) fn change<'a>(
    stm: Statement<'a>,
    what: &Values,
    ctx: &Runtime,
    opt: &Options,
    txn: &mut Transaction,
    doc: Option<&Value>,
) -> (r: Result<Value, Error>)
    requires
        stm.mutates(),
    ensures
        final(txn).open == old(txn).open,
        final(txn).writable == old(txn).writable,
        match r {
            Ok(v) => change_failure(&stm, views(what.0@), ctx, opt, old(txn), doc_view(doc))
                is None && ({
                let rows = changed_rows(
                    &stm,
                    views(what.0@),
                    Scope { done: ctx.done(), futures: true, params: ctx.params() },
                    old(txn).rows(),
                    doc_view(doc),
                );
                rows is Ok && v@ == Val::Array(rows->Ok_0) && final(txn).rows() == committed(
                    old(txn).rows(),
                    rows->Ok_0,
                    rows->Ok_0.len() as int,
                )
            }),
            Err(e) => change_failure(&stm, views(what.0@), ctx, opt, old(txn), doc_view(doc))
                == Some(e) && final(txn).rows() == old(txn).rows(),
        },
{
    match opt.check(Level::Db) {
        Err(e) => {
            return Err(e);
        },
        Ok(_) => {},
    }
    match ctx.check() {
        Err(e) => {
            return Err(e);
        },
        Ok(_) => {},
    }
    let mut i = Iterator::new(stm);
    let opt = opt.futures(true);
    let ghost scope = scope_of(ctx, &opt);
    let ghost sources = views(what.0@);
    let mut n: usize = 0;
    while n < what.0.len()
        invariant
            n <= what.0.len(),
            eval_items(sources, scope, doc_view(doc), n as int) == Ok::<Seq<Val>, Error>(
                i.targets(),
            ),
            i.stmt == stm,
            i.plan() == no_plan(),
        decreases what.0.len() - n,
    {
        match what.0[n].compute(ctx, &opt, doc) {
            Ok(v) => {
                i.prepare(v);
            },
            Err(e) => {
                proof {
                    assert(eval_items(sources, scope, doc_view(doc), n + 1) == Err::<
                        Seq<Val>,
                        Error,
                    >(e));
                    lemma_items_error(sources, scope, doc_view(doc), n + 1, what.0.len() as int);
                }
                return Err(e);
            },
        }
        n += 1;
    }
    let out = match i.output(ctx, &opt, &*txn) {
        Ok(out) => out,
        Err(e) => {
            return Err(e);
        },
    };
    proof {
        lemma_no_plan(i.rows(), txn.rows(), out@->Array_0);
    }
    match commit(txn, &i.results) {
        Ok(_) => Ok(out),
        Err(e) => Err(e),
    }
}

} // verus!
