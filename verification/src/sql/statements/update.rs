use crate::dbs::commit::{change, change_failure, changed_rows, committed};
use crate::dbs::options::Options;
use crate::dbs::runtime::Runtime;
use crate::dbs::statement::Statement;
use crate::dbs::transaction::Transaction;
use crate::err::Error;
use crate::sql::clause::{Cond, Data, Values};
use crate::sql::evaluate::{doc_view, Scope};
use crate::sql::value::{views, Val, Value};
use vstd::prelude::*;

verus! {

/// An `UPDATE` statement: the records to change, how to change them, and the
/// condition that a record must meet to be changed.
#[derive(Clone, Debug, PartialEq, Eq)]
pub struct UpdateStatement {
    pub what: Values,
    pub data: Option<Data>,
    pub cond: Option<Cond>,
}

impl UpdateStatement {
    /// Runs the statement: every source is resolved, each document that meets
    /// the condition is changed by the data clause, and the changed documents
    /// are stored. The result is the array of the changed documents; on an
    /// error nothing is stored.
    pub fn compute(
        &self,
        ctx: &Runtime,
        opt: &Options,
        txn: &mut Transaction,
        doc: Option<&Value>,
    ) -> (r: Result<Value, Error>)
        ensures
            final(txn).open == old(txn).open,
            final(txn).writable == old(txn).writable,
            match r {
                Ok(v) => change_failure(
                    &Statement::Update(self),
                    views(self.what.0@),
                    ctx,
                    opt,
                    old(txn),
                    doc_view(doc),
                ) is None && ({
                    let rows = changed_rows(
                        &Statement::Update(self),
                        views(self.what.0@),
                        Scope { done: ctx.done(), futures: true, params: ctx.params() },
                        old(txn).rows(),
                        doc_view(doc),
                    );
                    rows is Ok && v@ == Val::Array(rows->Ok_0) && final(txn).rows() == committed(
                        old(txn).rows(),
                        rows->Ok_0,
                        rows->Ok_0.len() as int,
                    )
                }),
                Err(e) => change_failure(
                    &Statement::Update(self),
                    views(self.what.0@),
                    ctx,
                    opt,
                    old(txn),
                    doc_view(doc),
                ) == Some(e) && final(txn).rows() == old(txn).rows(),
            },
    {
        change(Statement::Update(self), &self.what, ctx, opt, txn, doc)
    }
}

} // verus!
