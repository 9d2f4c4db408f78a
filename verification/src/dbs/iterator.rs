use crate::dbs::fetch::{fetch, fetch_all};
use crate::dbs::group::{group, grouped};
use crate::dbs::options::Options;
use crate::dbs::runtime::Runtime;
use crate::dbs::shape::{
    lemma_sorted_unique, order, paginate, sorted_from, split, split_all, window,
};
use crate::dbs::statement::Statement;
use crate::dbs::transaction::{rows, stored, table_rows, Row, Transaction};
use crate::doc::document::Document;
use crate::doc::merge::merged;
use crate::err::Error;
use crate::sql::clause::{
    paths, sort_keys, Clause, Fetchs, Groups, Limit, Orders, SortKey, Splits, Start,
};
use crate::sql::evaluate::{scope_of, Scope};
use crate::sql::text::{copy_text, decimal, decimal_text};
use crate::sql::value::{
    duplicate_all, lemma_array_view, views, Key, Model, Thing, Val, Value,
};
use vstd::prelude::*;

verus! {

/// What a source resolves to: a record with its identity, or a value that is
/// no record.
pub struct Found {
    pub key: Option<Key>,
    pub value: Val,
}

/// The content of a resolved document.
pub open spec fn found_of(d: Document) -> Found {
    Found { key: d.key(), value: d.content() }
}

/// The contents of a list of resolved documents.
pub open spec fn founds(s: Seq<Document>) -> Seq<Found> {
    Seq::new(s.len(), |i: int| found_of(s[i]))
}

/// The rows of a table as what a source resolves to.
pub open spec fn found_rows(rs: Seq<Row>) -> Seq<Found> {
    Seq::new(rs.len(), |i: int| Found { key: Some(rs[i].key), value: rs[i].value })
}

/// What the identity of one record resolves to: the record where it is
/// stored; where it is not, nothing, or an empty record where the statement
/// creates what is absent.
pub open spec fn thing_found(store: Seq<Row>, key: Key, absent: bool) -> Seq<Found> {
    match stored(store, key) {
        Some(v) => seq![Found { key: Some(key), value: v }],
        None => if absent {
            seq![Found { key: Some(key), value: Val::Void }]
        } else {
            Seq::empty()
        },
    }
}

/// What the first `count` records of a range resolve to. The records of a
/// range are named by the decimal digits of the numbers from `from` on.
pub open spec fn model_found(store: Seq<Row>, tb: Seq<u8>, from: int, count: int, absent: bool) -> Seq<
    Found,
>
    decreases count,
{
    if count <= 0 {
        Seq::empty()
    } else {
        model_found(store, tb, from, count - 1, absent) + thing_found(
            store,
            Key { tb: tb, id: decimal(from + count - 1) },
            absent,
        )
    }
}

/// What one source other than an array resolves to: a table to its records in
/// stored order, the identity of a record to that record, a range to its
/// records in rising order, and any other value to itself.
pub open spec fn source_found(store: Seq<Row>, src: Val, absent: bool) -> Seq<Found> {
    match src {
        Val::Table(tb) => found_rows(table_rows(store, tb)),
        Val::Thing(tb, id) => thing_found(store, Key { tb: tb, id: id }, absent),
        Val::Model(tb, from, to) => model_found(store, tb, from, to - from + 1, absent),
        _ => seq![Found { key: None, value: src }],
    }
}

/// What the first `n` of `items` resolve to, each as a source of its own.
pub open spec fn items_found(store: Seq<Row>, items: Seq<Val>, absent: bool, n: int) -> Seq<Found>
    decreases n,
{
    if n <= 0 || n > items.len() {
        Seq::empty()
    } else {
        items_found(store, items, absent, n - 1) + source_found(store, items[n - 1], absent)
    }
}

/// What a prepared target resolves to: each element of an array is a source
/// of its own, one level deep, and anything else is one source.
pub open spec fn target_found(store: Seq<Row>, src: Val, absent: bool) -> Seq<Found> {
    match src {
        Val::Array(items) => items_found(store, items, absent, items.len() as int),
        _ => source_found(store, src, absent),
    }
}

/// What the first `n` prepared targets resolve to, in the order in which they
/// were prepared.
pub open spec fn targets_found(store: Seq<Row>, targets: Seq<Val>, absent: bool, n: int) -> Seq<
    Found,
>
    decreases n,
{
    if n <= 0 || n > targets.len() {
        Seq::empty()
    } else {
        targets_found(store, targets, absent, n - 1) + target_found(store, targets[n - 1], absent)
    }
}

/// What a statement makes of what was found.
pub struct Treatment {
    /// Whether the statement changes documents.
    pub mutates: bool,
    /// The data clause of a statement that changes documents.
    pub clause: Option<Clause>,
    /// The condition that a document must meet.
    pub cond: Option<Val>,
}

/// What the statement `stm` makes of what was found.
pub open spec fn treatment_of(stm: &Statement<'_>) -> Treatment {
    Treatment { mutates: stm.mutates(), clause: stm.clause(), cond: stm.condition() }
}

/// The row that one resolved document contributes: none where it fails the
/// condition; otherwise its content, changed by the data clause where the
/// statement changes documents.
pub open spec fn treat(f: Found, t: Treatment, scope: Scope) -> Result<Option<Val>, Error> {
    let verdict = match t.cond {
        Some(c) => match c.eval(scope, Some(f.value)) {
            Err(e) => Err(e),
            Ok(v) => Ok(v.truthy()),
        },
        None => Ok(true),
    };
    match verdict {
        Err(e) => Err(e),
        Ok(false) => Ok(None),
        Ok(true) => if t.mutates {
            match merged(f.value, f.key, t.clause, scope) {
                Err(e) => Err(e),
                Ok(d) => Ok(Some(d)),
            }
        } else {
            Ok(Some(f.value))
        },
    }
}

/// The rows that the first `n` resolved documents contribute, in their order,
/// or the first error met.
pub open spec fn treat_all(found: Seq<Found>, t: Treatment, scope: Scope, n: int) -> Result<
    Seq<Val>,
    Error,
>
    decreases n,
{
    if n <= 0 || n > found.len() {
        Ok(Seq::empty())
    } else {
        match treat_all(found, t, scope, n - 1) {
            Err(e) => Err(e),
            Ok(before) => match treat(found[n - 1], t, scope) {
                Err(e) => Err(e),
                Ok(Some(row)) => Ok(before.push(row)),
                Ok(None) => Ok(before),
            },
        }
    }
}

/// How the accumulated rows are shaped.
pub struct Plan {
    /// The fields to fan out on.
    pub split: Seq<Seq<Seq<u8>>>,
    /// The fields to group by, where rows are grouped.
    pub group: Option<Seq<Seq<Seq<u8>>>>,
    /// The sort keys, where rows are sorted.
    pub order: Option<Seq<SortKey>>,
    /// The number of rows to pass over.
    pub start: int,
    /// The number of rows to keep; zero for all.
    pub limit: int,
    /// The fields in which records are fetched.
    pub fetch: Seq<Seq<Seq<u8>>>,
}

/// The rows after the fan-out and the grouping of a plan.
pub open spec fn gathered(rows: Seq<Val>, plan: Plan) -> Seq<Val> {
    let fanned = split_all(rows, plan.split, plan.split.len() as int);
    match plan.group {
        Some(fields) => grouped(fanned, fields),
        None => fanned,
    }
}

/// Whether `sorted` is `rows` in the order that the plan asks for: sorted
/// stably by the sort keys, or as they are where the plan has none.
pub open spec fn ordered_as(sorted: Seq<Val>, rows: Seq<Val>, plan: Plan) -> bool {
    match plan.order {
        Some(keys) => sorted_from(sorted, rows, keys),
        None => sorted == rows,
    }
}

/// The rows of a sorted result that the plan returns: the window from its
/// offset on, with records fetched.
pub open spec fn finished(sorted: Seq<Val>, plan: Plan, store: Seq<Row>) -> Seq<Val> {
    fetch_all(window(sorted, plan.start, plan.limit), plan.fetch, store, plan.fetch.len() as int)
}

/// Whether `out` is what the plan makes of `rows`: fanned out, grouped,
/// sorted, cut to the window and with records fetched, in this order.
pub open spec fn shapes(rows: Seq<Val>, plan: Plan, store: Seq<Row>, out: Seq<Val>) -> bool {
    exists|sorted: Seq<Val>| #[trigger]
        ordered_as(sorted, gathered(rows, plan), plan) && out == finished(sorted, plan, store)
}

/// A plan has one result: what two shapings of the same rows give is the same.
pub proof fn lemma_shapes_unique(
    rows: Seq<Val>,
    plan: Plan,
    store: Seq<Row>,
    a: Seq<Val>,
    b: Seq<Val>,
)
    requires
        shapes(rows, plan, store, a),
        shapes(rows, plan, store, b),
    ensures
        a == b,
{
    let x = choose|sorted: Seq<Val>| #[trigger]
        ordered_as(sorted, gathered(rows, plan), plan) && a == finished(sorted, plan, store);
    let y = choose|sorted: Seq<Val>| #[trigger]
        ordered_as(sorted, gathered(rows, plan), plan) && b == finished(sorted, plan, store);
    if let Some(keys) = plan.order {
        lemma_sorted_unique(x, y, gathered(rows, plan), keys);
    }
}

/// The rows that the targets contribute, before shaping: every target is
/// resolved, in the order of the targets, and the statement treats each
/// document that was found.
pub open spec fn resolved_rows(store: Seq<Row>, targets: Seq<Val>, t: Treatment, scope: Scope) -> Result<
    Seq<Val>,
    Error,
> {
    let found = targets_found(store, targets, t.mutates, targets.len() as int);
    treat_all(found, t, scope, found.len() as int)
}

/// Why resolving and shaping fails, if it does: the runtime says to stop, the
/// transaction is over, or a document could not be treated.
pub open spec fn failure_of(
    done: Option<Error>,
    read_error: Option<Error>,
    resolved: Result<Seq<Val>, Error>,
) -> Option<Error> {
    if done is Some {
        done
    } else if read_error is Some {
        read_error
    } else {
        match resolved {
            Err(e) => Some(e),
            Ok(_) => None,
        }
    }
}

/// Resolves the sources of a statement into documents, lets the statement
/// treat each of them, and shapes the accumulated rows.
pub struct Iterator<'a> {
    /// The statement that is executed.
    pub stmt: Statement<'a>,
    pub split: Option<&'a Splits>,
    pub group: Option<&'a Groups>,
    pub order: Option<&'a Orders>,
    pub limit: Option<&'a Limit>,
    pub start: Option<&'a Start>,
    pub fetch: Option<&'a Fetchs>,
    /// The prepared targets, in the order in which they were prepared.
    pub readies: Vec<Value>,
    /// How many of the prepared targets have been resolved.
    pub cursor: usize,
    /// The rows that the resolved targets have contributed.
    pub results: Vec<Value>,
}

/// The record `thing` as a resolved document, added to `out`.
fn resolve_thing(out: &mut Vec<Document>, txn: &Transaction, thing: &Thing, absent: bool)
    requires
        txn.open,
    ensures
        founds(final(out)@) == founds(old(out)@) + thing_found(txn.rows(), thing@, absent),
{
    let ghost before = founds(out@);
    match txn.get(thing) {
        Ok(Some(v)) => {
            out.push(Document::new(Some(thing.duplicate()), &v));
            assert(founds(out@) =~= before + thing_found(txn.rows(), thing@, absent));
        },
        _ => {
            if absent {
                out.push(Document::new(Some(thing.duplicate()), &Value::Void));
            }
            assert(founds(out@) =~= before + thing_found(txn.rows(), thing@, absent));
        },
    }
}

/// The records of the range `m` as resolved documents, added to `out`.
#[verifier::loop_isolation(false)]
fn resolve_model(out: &mut Vec<Document>, txn: &Transaction, m: &Model, absent: bool)
    requires
        txn.open,
    ensures
        founds(final(out)@) == founds(old(out)@) + model_found(
            txn.rows(),
            m.tb@,
            m.from as int,
            m.to - m.from + 1,
            absent,
        ),
{
    let ghost start = founds(out@);
    let ghost store = txn.rows();
    if m.from > m.to {
        assert(founds(out@) =~= start + Seq::<Found>::empty());
        return;
    }
    let mut n: u64 = m.from;
    let mut more = true;
    assert(founds(out@) =~= start + model_found(store, m.tb@, m.from as int, 0, absent));
    while more
        invariant
            m.from <= n <= m.to,
            more ==> founds(out@) == start + model_found(
                store,
                m.tb@,
                m.from as int,
                n - m.from,
                absent,
            ),
            !more ==> founds(out@) == start + model_found(
                store,
                m.tb@,
                m.from as int,
                m.to - m.from + 1,
                absent,
            ),
        decreases (m.to - n) + (if more { 1int } else { 0int }),
    {
        let thing = Thing { tb: copy_text(&m.tb), id: decimal_text(n) };
        let ghost before = founds(out@);
        resolve_thing(out, txn, &thing, absent);
        assert(founds(out@) =~= start + model_found(
            store,
            m.tb@,
            m.from as int,
            n - m.from + 1,
            absent,
        ));
        if n == m.to {
            more = false;
        } else {
            n += 1;
        }
    }
}

/// What the source `src` resolves to, added to `out`.
#[verifier::loop_isolation(false)]
fn resolve_source(out: &mut Vec<Document>, txn: &Transaction, src: &Value, absent: bool)
    requires
        txn.open,
    ensures
        founds(final(out)@) == founds(old(out)@) + source_found(txn.rows(), src@, absent),
{
    let ghost start = founds(out@);
    match src {
        Value::Table(tb) => {
            match txn.scan(tb) {
                Ok(found) => {
                    let ghost rs = rows(found@);
                    let mut i: usize = 0;
                    while i < found.len()
                        invariant
                            i <= found.len(),
                            out.len() == start.len() + i,
                            forall|j: int| 0 <= j < start.len() ==> found_of(out@[j]) == start[j],
                            forall|j: int|
                                0 <= j < i ==> found_of(out@[start.len() + j]) == found_rows(rs)[j],
                        decreases found.len() - i,
                    {
                        out.push(Document::new(Some(found[i].id.duplicate()), &found[i].value));
                        i += 1;
                    }
                    assert(founds(out@) =~= start + found_rows(rs));
                },
                Err(_) => {},
            }
        },
        Value::Thing(t) => {
            resolve_thing(out, txn, t, absent);
        },
        Value::Model(m) => {
            resolve_model(out, txn, m, absent);
        },
        other => {
            out.push(Document::new(None, other));
            assert(founds(out@) =~= start + source_found(txn.rows(), src@, absent));
        },
    }
}

/// What the prepared target `src` resolves to, added to `out`.
#[verifier::loop_isolation(false)]
fn resolve_target(out: &mut Vec<Document>, txn: &Transaction, src: &Value, absent: bool)
    requires
        txn.open,
    ensures
        founds(final(out)@) == founds(old(out)@) + target_found(txn.rows(), src@, absent),
{
    let ghost start = founds(out@);
    match src {
        Value::Array(items) => {
            proof {
                lemma_array_view(*items);
            }
            let ghost iv = views(items@);
            let mut i: usize = 0;
            assert(founds(out@) =~= start + items_found(txn.rows(), iv, absent, 0));
            while i < items.len()
                invariant
                    i <= items.len(),
                    founds(out@) == start + items_found(txn.rows(), iv, absent, i as int),
                decreases items.len() - i,
            {
                let ghost before = founds(out@);
                resolve_source(out, txn, &items[i], absent);
                assert(founds(out@) =~= start + items_found(txn.rows(), iv, absent, i + 1));
                i += 1;
            }
        },
        other => {
            resolve_source(out, txn, other, absent);
        },
    }
}

/// An error among the first `n` documents is the outcome for every longer
/// prefix.
pub proof fn lemma_treat_error(found: Seq<Found>, t: Treatment, scope: Scope, n: int, m: int)
    requires
        0 <= n <= m <= found.len(),
        treat_all(found, t, scope, n) is Err,
    ensures
        treat_all(found, t, scope, m) == treat_all(found, t, scope, n),
    decreases m - n,
{
    if n < m {
        lemma_treat_error(found, t, scope, n, m - 1);
    }
}

/// The rows of two runs of documents, one after the other, or the first error.
pub open spec fn one_after_another(
    first: Result<Seq<Val>, Error>,
    second: Result<Seq<Val>, Error>,
) -> Result<Seq<Val>, Error> {
    match first {
        Err(e) => Err(e),
        Ok(a) => match second {
            Err(e) => Err(e),
            Ok(b) => Ok(a + b),
        },
    }
}

/// What follows a run of documents has no part in what the run contributes.
proof fn lemma_treat_front(a: Seq<Found>, b: Seq<Found>, t: Treatment, scope: Scope, n: int)
    requires
        0 <= n <= a.len(),
    ensures
        treat_all(a + b, t, scope, n) == treat_all(a, t, scope, n),
    decreases n,
{
    if n > 0 {
        lemma_treat_front(a, b, t, scope, n - 1);
        assert((a + b)[n - 1] == a[n - 1]);
    }
}

/// The first `n` documents of a second run contribute after the first run
/// what they contribute by themselves.
proof fn lemma_treat_back(a: Seq<Found>, b: Seq<Found>, t: Treatment, scope: Scope, n: int)
    requires
        0 <= n <= b.len(),
    ensures
        treat_all(a + b, t, scope, a.len() + n) == one_after_another(
            treat_all(a, t, scope, a.len() as int),
            treat_all(b, t, scope, n),
        ),
    decreases n,
{
    if n == 0 {
        lemma_treat_front(a, b, t, scope, a.len() as int);
        if let Ok(rows) = treat_all(a, t, scope, a.len() as int) {
            assert(rows + Seq::<Val>::empty() =~= rows);
        }
    } else {
        lemma_treat_back(a, b, t, scope, n - 1);
        assert((a + b)[a.len() + n - 1] == b[n - 1]);
        if let Ok(x) = treat_all(a, t, scope, a.len() as int) {
            if let Ok(y) = treat_all(b, t, scope, n - 1) {
                if let Ok(Some(row)) = treat(b[n - 1], t, scope) {
                    assert((x + y).push(row) =~= x + y.push(row));
                }
            }
        }
    }
}

/// Two runs of documents contribute the rows of the first and then the rows of
/// the second, or the first error.
pub proof fn lemma_treat_append(a: Seq<Found>, b: Seq<Found>, t: Treatment, scope: Scope)
    ensures
        treat_all(a + b, t, scope, (a + b).len() as int) == one_after_another(
            treat_all(a, t, scope, a.len() as int),
            treat_all(b, t, scope, b.len() as int),
        ),
{
    lemma_treat_back(a, b, t, scope, b.len() as int);
}

/// The rows that the first `n` targets contribute.
pub open spec fn rows_of_first(store: Seq<Row>, targets: Seq<Val>, t: Treatment, scope: Scope, n: int) -> Result<
    Seq<Val>,
    Error,
> {
    let found = targets_found(store, targets, t.mutates, n);
    treat_all(found, t, scope, found.len() as int)
}

/// The rows that one target contributes.
pub open spec fn rows_of_target(store: Seq<Row>, target: Val, t: Treatment, scope: Scope) -> Result<
    Seq<Val>,
    Error,
> {
    let found = target_found(store, target, t.mutates);
    treat_all(found, t, scope, found.len() as int)
}

/// The first `n` targets and the next contribute one after the other.
pub proof fn lemma_rows_step(store: Seq<Row>, targets: Seq<Val>, t: Treatment, scope: Scope, n: int)
    requires
        0 <= n < targets.len(),
    ensures
        rows_of_first(store, targets, t, scope, n + 1) == one_after_another(
            rows_of_first(store, targets, t, scope, n),
            rows_of_target(store, targets[n], t, scope),
        ),
{
    lemma_treat_append(
        targets_found(store, targets, t.mutates, n),
        target_found(store, targets[n], t.mutates),
        t,
        scope,
    );
}

/// An error among the first `n` targets is the outcome for all targets.
pub proof fn lemma_rows_error(
    store: Seq<Row>,
    targets: Seq<Val>,
    t: Treatment,
    scope: Scope,
    n: int,
    m: int,
)
    requires
        0 <= n <= m <= targets.len(),
        rows_of_first(store, targets, t, scope, n) is Err,
    ensures
        rows_of_first(store, targets, t, scope, m) == rows_of_first(store, targets, t, scope, n),
    decreases m - n,
{
    if n < m {
        lemma_rows_error(store, targets, t, scope, n, m - 1);
        lemma_rows_step(store, targets, t, scope, m - 1);
    }
}

impl<'a> Iterator<'a> {
    /// An iterator for the statement `stmt` with nothing prepared, nothing
    /// resolved and no shaping.
    pub fn new(stmt: Statement<'a>) -> (r: Iterator<'a>)
        ensures
            r.stmt == stmt,
            r.targets() == Seq::<Val>::empty(),
            r.rows() == Seq::<Val>::empty(),
            r.cursor == 0,
            r.split is None,
            r.group is None,
            r.order is None,
            r.limit is None,
            r.start is None,
            r.fetch is None,
    {
        let r = Iterator {
            stmt,
            split: None,
            group: None,
            order: None,
            limit: None,
            start: None,
            fetch: None,
            readies: Vec::new(),
            cursor: 0,
            results: Vec::new(),
        };
        assert(r.targets() =~= Seq::<Val>::empty());
        assert(r.rows() =~= Seq::<Val>::empty());
        r
    }

    /// The prepared targets, in the order in which they were prepared.
    pub open spec fn targets(&self) -> Seq<Val> {
        views(self.readies@)
    }

    /// The rows accumulated so far.
    pub open spec fn rows(&self) -> Seq<Val> {
        views(self.results@)
    }

    /// How the accumulated rows are shaped.
    pub open spec fn plan(&self) -> Plan {
        Plan {
            split: match self.split {
                Some(s) => paths(s.0@),
                None => Seq::empty(),
            },
            group: match self.group {
                Some(g) => Some(paths(g.0@)),
                None => None,
            },
            order: match self.order {
                Some(o) => Some(sort_keys(o.0@)),
                None => None,
            },
            start: match self.start {
                Some(s) => s.0 as int,
                None => 0,
            },
            limit: match self.limit {
                Some(l) => l.0 as int,
                None => 0,
            },
            fetch: match self.fetch {
                Some(f) => paths(f.0@),
                None => Seq::empty(),
            },
        }
    }

    /// Whether everything but the progress is the same as in `other`: the
    /// statement, the shaping and the prepared targets.
    pub open spec fn same_task(&self, other: &Iterator<'a>) -> bool {
        &&& self.stmt == other.stmt
        &&& self.split == other.split
        &&& self.group == other.group
        &&& self.order == other.order
        &&& self.limit == other.limit
        &&& self.start == other.start
        &&& self.fetch == other.fetch
        &&& self.targets() == other.targets()
    }

    /// Registers one more source. Nothing is resolved yet.
    pub fn prepare(&mut self, val: Value)
        ensures
            final(self).targets() == old(self).targets().push(val@),
            final(self).stmt == old(self).stmt,
            final(self).split == old(self).split,
            final(self).group == old(self).group,
            final(self).order == old(self).order,
            final(self).limit == old(self).limit,
            final(self).start == old(self).start,
            final(self).fetch == old(self).fetch,
            final(self).cursor == old(self).cursor,
            final(self).rows() == old(self).rows(),
    {
        self.readies.push(val);
        assert(self.targets() =~= old(self).targets().push(val@));
    }

    /// The rows that the prepared sources contribute, before shaping.
    pub open spec fn resolved(&self, ctx: &Runtime, opt: &Options, txn: &Transaction) -> Result<
        Seq<Val>,
        Error,
    > {
        resolved_rows(txn.rows(), self.targets(), treatment_of(&self.stmt), scope_of(ctx, opt))
    }

    /// Why `output` fails, if it does: the runtime says to stop, the
    /// transaction is over, or a document could not be treated.
    pub open spec fn failure(&self, ctx: &Runtime, opt: &Options, txn: &Transaction) -> Option<
        Error,
    > {
        failure_of(ctx.done(), txn.read_error(), self.resolved(ctx, opt, txn))
    }

    /// Resolves the next prepared target and lets the statement treat the
    /// documents that were found. Returns whether targets are left.
    ///
    /// The runtime is asked first: once it says to stop, nothing is resolved.
    /// On an error the progress and the accumulated rows stay as they were;
    /// they are to be dropped by the caller.
    #[verifier::loop_isolation(false)]
    pub fn advance(&mut self, ctx: &Runtime, opt: &Options, txn: &Transaction) -> (r: Result<
        bool,
        Error,
    >)
        ensures
            final(self).same_task(old(self)),
            match r {
                Ok(more) => ctx.done() is None && more == (final(self).cursor < old(
                    self,
                ).readies.len()) && if old(self).cursor < old(self).readies.len() {
                    &&& txn.read_error() is None
                    &&& final(self).cursor == old(self).cursor + 1
                    &&& rows_of_target(
                        txn.rows(),
                        old(self).targets()[old(self).cursor as int],
                        treatment_of(&old(self).stmt),
                        scope_of(ctx, opt),
                    ) is Ok
                    &&& final(self).rows() == old(self).rows() + rows_of_target(
                        txn.rows(),
                        old(self).targets()[old(self).cursor as int],
                        treatment_of(&old(self).stmt),
                        scope_of(ctx, opt),
                    )->Ok_0
                } else {
                    final(self).cursor == old(self).cursor && final(self).rows() == old(self).rows()
                },
                Err(e) => final(self).cursor == old(self).cursor && final(self).rows() == old(
                    self,
                ).rows() && if ctx.done() is Some {
                    ctx.done() == Some(e)
                } else {
                    old(self).cursor < old(self).readies.len() && if txn.read_error() is Some {
                        txn.read_error() == Some(e)
                    } else {
                        rows_of_target(
                            txn.rows(),
                            old(self).targets()[old(self).cursor as int],
                            treatment_of(&old(self).stmt),
                            scope_of(ctx, opt),
                        ) == Err::<Seq<Val>, Error>(e)
                    }
                },
            },
    {
        match ctx.check() {
            Err(e) => {
                return Err(e);
            },
            Ok(_) => {},
        }
        if self.cursor >= self.readies.len() {
            return Ok(false);
        }
        if !txn.open {
            return Err(Error::Storage(crate::err::StorageError::Finished));
        }
        let ghost scope = scope_of(ctx, opt);
        let ghost treatment = treatment_of(&self.stmt);
        let absent = match self.stmt {
            Statement::Select(_) => false,
            _ => true,
        };
        let mut docs: Vec<Document> = Vec::new();
        assert(founds(docs@) =~= Seq::<Found>::empty());
        resolve_target(&mut docs, txn, &self.readies[self.cursor], absent);
        let ghost found = founds(docs@);
        assert(found =~= target_found(txn.rows(), self.targets()[self.cursor as int], absent));
        let mut fresh: Vec<Value> = Vec::new();
        let mut i: usize = 0;
        assert(views(fresh@) =~= Seq::<Val>::empty());
        while i < docs.len()
            invariant
                i <= docs.len(),
                founds(docs@) == found,
                treat_all(found, treatment, scope, i as int) == Ok::<Seq<Val>, Error>(views(fresh@)),
            decreases docs.len() - i,
        {
            let ghost before = views(fresh@);
            let keep = match self.stmt.cond() {
                Some(c) => match c.0.compute(ctx, opt, Some(&docs[i].current)) {
                    Ok(v) => v.is_truthy(),
                    Err(e) => {
                        proof {
                            assert(treat_all(found, treatment, scope, i + 1) == Err::<
                                Seq<Val>,
                                Error,
                            >(e));
                            lemma_treat_error(found, treatment, scope, i + 1, docs.len() as int);
                        }
                        return Err(e);
                    },
                },
                None => true,
            };
            if keep {
                match self.stmt {
                    Statement::Select(_) => {
                        fresh.push(docs[i].current.duplicate());
                        assert(views(fresh@) =~= before.push(found[i as int].value));
                    },
                    _ => {
                        let mut doc = Document::new(
                            match &docs[i].id {
                                Some(t) => Some(t.duplicate()),
                                None => None,
                            },
                            &docs[i].current,
                        );
                        match doc.merge(ctx, opt, txn, &self.stmt) {
                            Ok(_) => {
                                let ghost row = doc.content();
                                fresh.push(doc.current);
                                assert(views(fresh@) =~= before.push(row));
                            },
                            Err(e) => {
                                proof {
                                    assert(treat_all(found, treatment, scope, i + 1) == Err::<
                                        Seq<Val>,
                                        Error,
                                    >(e));
                                    lemma_treat_error(
                                        found,
                                        treatment,
                                        scope,
                                        i + 1,
                                        docs.len() as int,
                                    );
                                }
                                return Err(e);
                            },
                        }
                    },
                }
            }
            i += 1;
        }
        let ghost before = views(self.results@);
        let ghost added = views(fresh@);
        self.results.append(&mut fresh);
        assert(views(self.results@) =~= before + added);
        self.cursor += 1;
        Ok(self.cursor < self.readies.len())
    }

    /// Why `finish` fails, if it does: the runtime says to stop, or records
    /// are to be fetched and the transaction is over.
    pub open spec fn finish_failure(&self, ctx: &Runtime, txn: &Transaction) -> Option<Error> {
        if ctx.done() is Some {
            ctx.done()
        } else if self.fetch is Some {
            txn.read_error()
        } else {
            None
        }
    }

    /// Shapes the rows accumulated so far: fans them out, groups them, sorts
    /// them, cuts them to the window and fetches records, in this order. The
    /// runtime is asked before every stage. The result is the array of the
    /// rows; on an error nothing is returned.
    pub fn finish(&self, ctx: &Runtime, opt: &Options, txn: &Transaction) -> (r: Result<
        Value,
        Error,
    >)
        ensures
            match r {
                Ok(v) => self.finish_failure(ctx, txn) is None && v@ is Array && shapes(
                    self.rows(),
                    self.plan(),
                    txn.rows(),
                    v@->Array_0,
                ),
                Err(e) => self.finish_failure(ctx, txn) == Some(e),
            },
    {
        let ghost plan = self.plan();
        let ghost store = txn.rows();
        let ghost resolved = self.rows();
        match ctx.check() {
            Err(e) => {
                return Err(e);
            },
            Ok(_) => {},
        }
        let results = duplicate_all(&self.results);
        let fanned = match self.split {
            Some(s) => split(results, &s.0),
            None => results,
        };
        match ctx.check() {
            Err(e) => {
                return Err(e);
            },
            Ok(_) => {},
        }
        let grouped = match self.group {
            Some(g) => group(&fanned, &g.0),
            None => fanned,
        };
        assert(views(grouped@) == gathered(resolved, plan));
        match ctx.check() {
            Err(e) => {
                return Err(e);
            },
            Ok(_) => {},
        }
        let sorted = match self.order {
            Some(o) => order(&grouped, &o.0),
            None => grouped,
        };
        let ghost sv = views(sorted@);
        assert(ordered_as(sv, gathered(resolved, plan), plan));
        match ctx.check() {
            Err(e) => {
                return Err(e);
            },
            Ok(_) => {},
        }
        let start = match self.start {
            Some(s) => s.0,
            None => 0,
        };
        let limit = match self.limit {
            Some(l) => l.0,
            None => 0,
        };
        let cut = paginate(&sorted, start, limit);
        match ctx.check() {
            Err(e) => {
                return Err(e);
            },
            Ok(_) => {},
        }
        let fetched = match self.fetch {
            Some(f) => match fetch(cut, &f.0, txn) {
                Ok(rows) => rows,
                Err(e) => {
                    return Err(e);
                },
            },
            None => cut,
        };
        proof {
            assert(views(fetched@) == finished(sv, plan, store));
            lemma_array_view(fetched);
        }
        Ok(Value::Array(fetched))
    }

    /// Resolves all prepared sources from the first on, treats each document
    /// as the statement says, and shapes the rows. The result is the array of
    /// the rows; on an error nothing is returned.
    #[verifier::loop_isolation(false)]
    pub fn output(&mut self, ctx: &Runtime, opt: &Options, txn: &Transaction) -> (r: Result<
        Value,
        Error,
    >)
        ensures
            final(self).same_task(old(self)),
            match r {
                Ok(v) => old(self).failure(ctx, opt, txn) is None && v@ is Array && shapes(
                    old(self).resolved(ctx, opt, txn)->Ok_0,
                    old(self).plan(),
                    txn.rows(),
                    v@->Array_0,
                ) && final(self).rows() == old(self).resolved(ctx, opt, txn)->Ok_0,
                Err(e) => old(self).failure(ctx, opt, txn) == Some(e),
            },
    {
        match ctx.check() {
            Err(e) => {
                return Err(e);
            },
            Ok(_) => {},
        }
        if !txn.open {
            return Err(Error::Storage(crate::err::StorageError::Finished));
        }
        let ghost store = txn.rows();
        let ghost scope = scope_of(ctx, opt);
        let ghost treatment = treatment_of(&self.stmt);
        let ghost targets = self.targets();
        self.cursor = 0;
        self.results = Vec::new();
        assert(self.rows() =~= Seq::<Val>::empty());
        let mut more = self.readies.len() > 0;
        while more
            invariant
                self.same_task(old(self)),
                self.cursor <= self.readies.len(),
                more == (self.cursor < self.readies.len()),
                rows_of_first(store, targets, treatment, scope, self.cursor as int) == Ok::<
                    Seq<Val>,
                    Error,
                >(self.rows()),
            decreases self.readies.len() - self.cursor,
        {
            proof {
                lemma_rows_step(store, targets, treatment, scope, self.cursor as int);
            }
            let ghost at = self.cursor as int;
            match self.advance(ctx, opt, txn) {
                Ok(m) => {
                    more = m;
                },
                Err(e) => {
                    proof {
                        assert(rows_of_first(store, targets, treatment, scope, at + 1) == Err::<
                            Seq<Val>,
                            Error,
                        >(e));
                        lemma_rows_error(
                            store,
                            targets,
                            treatment,
                            scope,
                            at + 1,
                            targets.len() as int,
                        );
                    }
                    return Err(e);
                },
            }
        }
        assert(self.resolved(ctx, opt, txn) == Ok::<Seq<Val>, Error>(self.rows()));
        self.finish(ctx, opt, txn)
    }
}

} // verus!
