use crate::dbs::options::Options;
use crate::dbs::runtime::Runtime;
use crate::dbs::statement::Statement;
use crate::dbs::transaction::Transaction;
use crate::doc::document::{key_at, Document};
use crate::err::{Error, EvaluationError};
use crate::sql::clause::{changes, clause_at, Assignment, Change, Clause, Data};
use crate::sql::evaluate::{scope_of, Scope};
use crate::sql::operator::Operator;
use crate::sql::path::{lemma_del_idempotent, lemma_del_then_get, lemma_with_field_idempotent};
use crate::sql::value::{Idiom, Key, Thing, Val, Value};
use vstd::prelude::*;

verus! {

/// The name of the field that holds the identity of a record: `id`.
pub open spec fn name_id() -> Seq<u8> {
    seq![105u8, 100u8]
}

/// The document with its defaults in place: the field `id` holds the identity
/// of the record, where the record has one.
pub open spec fn def(d: Val, id: Option<Key>) -> Val {
    match id {
        Some(k) => d.set(seq![name_id()], Val::Thing(k.tb, k.id)),
        None => d,
    }
}

/// The document after one assignment of a `SET` clause.
///
/// The right-hand side is computed against the document as it stands. `=`
/// deletes the field where the result is `Void` and stores the result
/// otherwise, `+=` and `-=` add to the field and take from it. No other
/// operator is accepted.
pub open spec fn apply_change(d: Val, c: Change, scope: Scope) -> Result<Val, Error> {
    match c.value.eval(scope, Some(d)) {
        Err(e) => Err(e),
        Ok(v) => match c.operator {
            Operator::Equal => if v is Void {
                Ok(d.del(c.path))
            } else {
                Ok(d.set(c.path, v))
            },
            Operator::Inc => d.increment(c.path, v),
            Operator::Dec => d.decrement(c.path, v),
            _ => Err(Error::InternalInvariantViolation),
        },
    }
}

/// The document after the first `n` assignments of a `SET` clause, in their
/// order, or the first error met.
pub open spec fn apply_changes(d: Val, cs: Seq<Change>, scope: Scope, n: int) -> Result<Val, Error>
    decreases n,
{
    if n <= 0 || n > cs.len() {
        Ok(d)
    } else {
        match apply_changes(d, cs, scope, n - 1) {
            Err(e) => Err(e),
            Ok(before) => apply_change(before, cs[n - 1], scope),
        }
    }
}

/// The document after a data clause. The value of `PATCH`, `MERGE`, `REPLACE`
/// and `CONTENT` is computed against the document; what is merged has to be an
/// object, and `REPLACE` and `CONTENT` put the value in the document's place.
pub open spec fn apply_clause(d: Val, clause: Option<Clause>, scope: Scope) -> Result<Val, Error> {
    match clause {
        None => Ok(d),
        Some(Clause::Assign(cs)) => apply_changes(d, cs, scope, cs.len() as int),
        Some(Clause::Patch(v)) => match v.eval(scope, Some(d)) {
            Err(e) => Err(e),
            Ok(ops) => d.patch(ops),
        },
        Some(Clause::Merge(v)) => match v.eval(scope, Some(d)) {
            Err(e) => Err(e),
            Ok(o) => if o is Object {
                Ok(d.merge(o))
            } else {
                Err(Error::Evaluation(EvaluationError::TypeMismatch))
            },
        },
        Some(Clause::Replace(v)) => v.eval(scope, Some(d)),
        Some(Clause::Content(v)) => v.eval(scope, Some(d)),
    }
}

/// The next content of a document: the defaults are put in place, the data
/// clause is applied, and the defaults are put in place once more.
pub open spec fn merged(d: Val, id: Option<Key>, clause: Option<Clause>, scope: Scope) -> Result<
    Val,
    Error,
> {
    match apply_clause(def(d, id), clause, scope) {
        Err(e) => Err(e),
        Ok(next) => Ok(def(next, id)),
    }
}

/// Putting the defaults in place twice is putting them in place once.
pub proof fn lemma_def_idempotent(d: Val, id: Option<Key>)
    ensures
        def(def(d, id), id) == def(d, id),
{
    if let Some(k) = id {
        let path = seq![name_id()];
        let v = Val::Thing(k.tb, k.id);
        assert(path.drop_first().len() == 0);
        assert(d.field(name_id()).set(path.drop_first(), v) == v);
        let once = d.set(path, v);
        assert(once.field(name_id()).set(path.drop_first(), v) == v);
        lemma_with_field_idempotent(d, name_id(), v);
    }
}

/// Without a data clause the statement only puts the defaults in place, and
/// the second pass changes nothing.
pub proof fn lemma_merged_without_data(d: Val, id: Option<Key>, scope: Scope)
    ensures
        merged(d, id, None, scope) == Ok::<Val, Error>(def(d, id)),
{
    lemma_def_idempotent(d, id);
}

/// An assignment with `=` whose right-hand side is found to be `Void` deletes
/// the field: afterwards the path leads to `Void`. Where the right-hand side is
/// `Void` again on the result, the same assignment leaves the result as it is.
pub proof fn lemma_assign_void_deletes(d: Val, c: Change, scope: Scope)
    requires
        c.path.len() > 0,
        c.operator == Operator::Equal,
        c.value.eval(scope, Some(d)) == Ok::<Val, Error>(Val::Void),
    ensures
        apply_change(d, c, scope) == Ok::<Val, Error>(d.del(c.path)),
        d.del(c.path).get(c.path) == Val::Void,
        c.value.eval(scope, Some(d.del(c.path))) == Ok::<Val, Error>(Val::Void) ==> apply_change(
            d.del(c.path),
            c,
            scope,
        ) == Ok::<Val, Error>(d.del(c.path)),
{
    lemma_del_then_get(d, c.path);
    lemma_del_idempotent(d, c.path);
}

/// An assignment of the literal `Void` with `=` deletes the field, and doing it
/// again changes nothing, whatever the document holds.
pub proof fn lemma_assign_void_literal(d: Val, path: Seq<Seq<u8>>, scope: Scope)
    requires
        path.len() > 0,
        scope.done is None,
    ensures
        ({
            let c = Change { path: path, operator: Operator::Equal, value: Val::Void };
            let once = apply_change(d, c, scope);
            &&& once == Ok::<Val, Error>(d.del(path))
            &&& d.del(path).get(path) == Val::Void
            &&& apply_change(d.del(path), c, scope) == once
        }),
{
    let c = Change { path: path, operator: Operator::Equal, value: Val::Void };
    lemma_assign_void_deletes(d, c, scope);
}

/// An error among the first `n` assignments is the outcome for every longer
/// prefix.
pub proof fn lemma_changes_error(d: Val, cs: Seq<Change>, scope: Scope, n: int, m: int)
    requires
        0 <= n <= m <= cs.len(),
        apply_changes(d, cs, scope, n) is Err,
    ensures
        apply_changes(d, cs, scope, m) == apply_changes(d, cs, scope, n),
    decreases m - n,
{
    if n < m {
        lemma_changes_error(d, cs, scope, n, m - 1);
    }
}

impl Value {
    /// Puts the defaults in place: the field `id` holds `id`, where there is one.
    pub fn def(&mut self, id: Option<&Thing>)
        ensures
            final(self)@ == def(old(self)@, key_at(id)),
    {
        match id {
            Some(t) => {
                let mut parts: Vec<Vec<u8>> = Vec::new();
                let name: Vec<u8> = vec![105u8, 100u8];
                assert(name@ =~= name_id());
                parts.push(name);
                let path = Idiom { parts };
                assert(path@ =~= seq![name_id()]);
                self.set(&path, Value::Thing(t.duplicate()));
            },
            None => {},
        }
    }
}

/// The document `d` after the assignment `a`.
fn assign(d: &mut Value, a: &Assignment, ctx: &Runtime, opt: &Options) -> (r: Result<(), Error>)
    ensures
        match r {
            Ok(_) => apply_change(
                old(d)@,
                Change { path: a.field@, operator: a.operator, value: a.value@ },
                scope_of(ctx, opt),
            ) == Ok::<Val, Error>(final(d)@),
            Err(e) => apply_change(
                old(d)@,
                Change { path: a.field@, operator: a.operator, value: a.value@ },
                scope_of(ctx, opt),
            ) == Err::<Val, Error>(e) && final(d)@ == old(d)@,
        },
{
    let v = match a.value.compute(ctx, opt, Some(&*d)) {
        Ok(v) => v,
        Err(e) => {
            return Err(e);
        },
    };
    match a.operator {
        Operator::Equal => {
            if v.is_void() {
                d.del(&a.field);
            } else {
                d.set(&a.field, v);
            }
            Ok(())
        },
        Operator::Inc => d.increment(&a.field, v),
        Operator::Dec => d.decrement(&a.field, v),
        _ => Err(Error::InternalInvariantViolation),
    }
}

/// The document `d` after the data clause `data`.
#[verifier::loop_isolation(false)]
fn apply(d: Value, data: Option<&Data>, ctx: &Runtime, opt: &Options) -> (r: Result<Value, Error>)
    ensures
        match r {
            Ok(v) => apply_clause(d@, clause_at(data), scope_of(ctx, opt)) == Ok::<Val, Error>(v@),
            Err(e) => apply_clause(d@, clause_at(data), scope_of(ctx, opt)) == Err::<Val, Error>(
                e,
            ),
        },
{
    let ghost scope = scope_of(ctx, opt);
    let ghost start = d@;
    let mut cur = d;
    match data {
        None => Ok(cur),
        Some(Data::SetExpression(items)) => {
            let ghost cs = changes(items@);
            let mut i: usize = 0;
            while i < items.len()
                invariant
                    i <= items.len(),
                    apply_changes(start, cs, scope, i as int) == Ok::<Val, Error>(cur@),
                decreases items.len() - i,
            {
                match assign(&mut cur, &items[i], ctx, opt) {
                    Ok(_) => {},
                    Err(e) => {
                        proof {
                            assert(apply_changes(start, cs, scope, i + 1) == Err::<Val, Error>(e));
                            lemma_changes_error(start, cs, scope, i + 1, items.len() as int);
                        }
                        return Err(e);
                    },
                }
                i += 1;
            }
            Ok(cur)
        },
        Some(Data::PatchExpression(v)) => {
            let ops = match v.compute(ctx, opt, Some(&cur)) {
                Ok(ops) => ops,
                Err(e) => {
                    return Err(e);
                },
            };
            match cur.patch(&ops) {
                Ok(_) => Ok(cur),
                Err(e) => Err(e),
            }
        },
        Some(Data::MergeExpression(v)) => {
            let o = match v.compute(ctx, opt, Some(&cur)) {
                Ok(o) => o,
                Err(e) => {
                    return Err(e);
                },
            };
            match o {
                Value::Object(_) => {
                    cur.merge(&o);
                    Ok(cur)
                },
                _ => Err(Error::Evaluation(EvaluationError::TypeMismatch)),
            }
        },
        Some(Data::ReplaceExpression(v)) => v.compute(ctx, opt, Some(&cur)),
        Some(Data::ContentExpression(v)) => v.compute(ctx, opt, Some(&cur)),
    }
}

impl Document {
    /// Changes the document as the statement says.
    ///
    /// Only a statement that changes documents is accepted: any other is an
    /// internal-invariant violation. The content as loaded and the identity
    /// stay as they are, and on an error so does the current content.
    ///
    /// Constraints that a schema puts on fields are not enforced here, and
    /// fields that a schema does not declare are kept.
    pub fn merge(
        &mut self,
        ctx: &Runtime,
        opt: &Options,
        txn: &Transaction,
        stm: &Statement<'_>,
    ) -> (r: Result<(), Error>)
        ensures
            final(self).loaded() == old(self).loaded(),
            final(self).key() == old(self).key(),
            match r {
                Ok(_) => stm.mutates() && merged(
                    old(self).content(),
                    old(self).key(),
                    stm.clause(),
                    scope_of(ctx, opt),
                ) == Ok::<Val, Error>(final(self).content()),
                Err(e) => final(self).content() == old(self).content() && if stm.mutates() {
                    merged(old(self).content(), old(self).key(), stm.clause(), scope_of(ctx, opt))
                        == Err::<Val, Error>(e)
                } else {
                    e == Error::InternalInvariantViolation
                },
            },
    {
        let data = match stm {
            Statement::Create(_) => stm.data(),
            Statement::Update(_) => stm.data(),
            _ => {
                return Err(Error::InternalInvariantViolation);
            },
        };
        let mut cur = self.current.duplicate();
        cur.def(self.id.as_ref());
        let mut next = match apply(cur, data, ctx, opt) {
            Ok(next) => next,
            Err(e) => {
                return Err(e);
            },
        };
        next.def(self.id.as_ref());
        self.current = next;
        Ok(())
    }
}

} // verus!
