use crate::dbs::commit::{change, change_failure, changed_rows, committed};
use crate::dbs::options::Options;
use crate::dbs::runtime::Runtime;
use crate::dbs::statement::Statement;
use crate::dbs::transaction::Transaction;
use crate::err::Error;
use crate::sql::clause::{Data, Values};
use crate::sql::evaluate::{doc_view, Scope};
use crate::sql::value::{views, Val, Value};
use vstd::prelude::*;

verus! {

/// A `CREATE` statement: the records to create and what to put in them.
#[derive(Clone, Debug, PartialEq, Eq)]
pub struct CreateStatement {
    pub what: Values,
    pub data: Option<Data>,
}

impl CreateStatement {
    /// Runs the statement: every source is resolved, a record that is named
    /// and not stored yet begins empty, each document is changed by the data
    /// clause, and the changed documents are stored. The result is the array
    /// of the changed documents; on an error nothing is stored.
    pub fn compute(
        &self,
        ctx: &Runtime,
        opt: &Options,
        txn: &mut Transaction,
        doc: Option<&Value>,
    ) -> (r: Result<Value, Error>)
        ensures
            final(txn).open == old(txn).open,
            final(txn).writable == old(txn).writable,
            match r {
                Ok(v) => change_failure(
                    &Statement::Create(self),
                    views(self.what.0@),
                    ctx,
                    opt,
                    old(txn),
                    doc_view(doc),
                ) is None && ({
                    let rows = changed_rows(
                        &Statement::Create(self),
                        views(self.what.0@),
                        Scope { done: ctx.done(), futures: true, params: ctx.params() },
                        old(txn).rows(),
                        doc_view(doc),
                    );
                    rows is Ok && v@ == Val::Array(rows->Ok_0) && final(txn).rows() == committed(
                        old(txn).rows(),
                        rows->Ok_0,
                        rows->Ok_0.len() as int,
                    )
                }),
                Err(e) => change_failure(
                    &Statement::Create(self),
                    views(self.what.0@),
                    ctx,
                    opt,
                    old(txn),
                    doc_view(doc),
                ) == Some(e) && final(txn).rows() == old(txn).rows(),
            },
    {
        change(Statement::Create(self), &self.what, ctx, opt, txn, doc)
    }
}

} // verus!
