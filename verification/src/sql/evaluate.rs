use crate::dbs::options::Options;
use crate::dbs::runtime::Runtime;
use crate::err::{Error, EvaluationError};
use crate::sql::number::{number_or_overflow, product, ratio};
use crate::sql::operator::Operator;
use crate::sql::order::Compared;
use crate::sql::text::copy_text;
use crate::sql::value::{entry_views, lemma_array_view, lemma_object_view, views, Entry, Val, Value};
use vstd::prelude::*;

verus! {

/// What an evaluation depends on besides the expression and the document.
pub struct Scope {
    /// Why evaluation has to stop, if it has to.
    pub done: Option<Error>,
    /// Whether futures are computed.
    pub futures: bool,
    /// The parameters, as the fields of an object.
    pub params: Val,
}

/// The scope that a runtime and options make up.
pub open spec fn scope_of(ctx: &Runtime, opt: &Options) -> Scope {
    Scope { done: ctx.done(), futures: opt.futures, params: ctx.params() }
}

/// The name of the parameter that stands for the current document: `this`.
pub open spec fn this_name() -> Seq<u8> {
    seq![116u8, 104u8, 105u8, 115u8]
}

/// The content of an optional document.
pub open spec fn doc_view(doc: Option<&Value>) -> Option<Val> {
    match doc {
        Some(d) => Some(d@),
        None => None,
    }
}

/// The content of the outcome of an evaluation.
pub open spec fn outcome(r: Result<Value, Error>) -> Result<Val, Error> {
    match r {
        Ok(v) => Ok(v@),
        Err(e) => Err(e),
    }
}

/// The result of an arithmetic operator on two numbers.
pub open spec fn arithmetic(op: Operator, x: int, y: int) -> Result<int, Error> {
    match op {
        Operator::Add => number_or_overflow(x + y),
        Operator::Sub => number_or_overflow(x - y),
        Operator::Mul => number_or_overflow(product(x, y)),
        Operator::Div => if y == 0 {
            Err(Error::Evaluation(EvaluationError::DivisionByZero))
        } else {
            number_or_overflow(ratio(x, y))
        },
        _ => Err(Error::InternalInvariantViolation),
    }
}

/// The result of a binary operator on two computed values. Comparisons go by
/// the order of values, `AND` and `OR` by truth, arithmetic is for numbers
/// only, and the operators of `SET` clauses have no meaning here.
pub open spec fn operate(op: Operator, a: Val, b: Val) -> Result<Val, Error> {
    match op {
        Operator::Equal => Ok(Val::Bool(a.compare(b) is Equal)),
        Operator::NotEqual => Ok(Val::Bool(!(a.compare(b) is Equal))),
        Operator::LessThan => Ok(Val::Bool(a.compare(b) is Less)),
        Operator::LessThanOrEqual => Ok(Val::Bool(!(a.compare(b) is Greater))),
        Operator::MoreThan => Ok(Val::Bool(a.compare(b) is Greater)),
        Operator::MoreThanOrEqual => Ok(Val::Bool(!(a.compare(b) is Less))),
        Operator::And => Ok(Val::Bool(a.truthy() && b.truthy())),
        Operator::Or => Ok(Val::Bool(a.truthy() || b.truthy())),
        Operator::Add | Operator::Sub | Operator::Mul | Operator::Div => match (a, b) {
            (Val::Number(x), Val::Number(y)) => match arithmetic(op, x, y) {
                Ok(n) => Ok(Val::Number(n)),
                Err(e) => Err(e),
            },
            _ => Err(Error::Evaluation(EvaluationError::TypeMismatch)),
        },
        Operator::Inc | Operator::Dec => Err(Error::InternalInvariantViolation),
    }
}

/// The values of the first `n` elements of `a`, or the first error met.
pub open spec fn eval_items(a: Seq<Val>, scope: Scope, doc: Option<Val>, n: int) -> Result<
    Seq<Val>,
    Error,
>
    decreases a, n,
{
    if n <= 0 || n > a.len() {
        Ok(Seq::empty())
    } else {
        match eval_items(a, scope, doc, n - 1) {
            Err(e) => Err(e),
            Ok(before) => match a[n - 1].eval(scope, doc) {
                Err(e) => Err(e),
                Ok(v) => Ok(before.push(v)),
            },
        }
    }
}

/// The first `n` entries of `a` with their contents computed, or the first
/// error met.
pub open spec fn eval_entries(a: Seq<Entry>, scope: Scope, doc: Option<Val>, n: int) -> Result<
    Seq<Entry>,
    Error,
>
    decreases a, n,
{
    if n <= 0 || n > a.len() {
        Ok(Seq::empty())
    } else {
        match eval_entries(a, scope, doc, n - 1) {
            Err(e) => Err(e),
            Ok(before) => match a[n - 1].value.eval(scope, doc) {
                Err(e) => Err(e),
                Ok(v) => Ok(before.push(Entry { key: a[n - 1].key, value: v })),
            },
        }
    }
}

impl Val {
    /// Whether the value counts as true.
    pub open spec fn truthy(self) -> bool {
        match self {
            Val::Bool(b) => b,
            Val::Number(n) => n != 0,
            Val::Strand(s) => s.len() > 0,
            Val::Array(a) => a.len() > 0,
            Val::Object(o) => o.len() > 0,
            Val::Thing(_, _) => true,
            _ => false,
        }
    }

    /// The value of an expression.
    ///
    /// Nothing is computed once the scope says that work has to stop. Data
    /// stands for itself, with the elements of arrays and the fields of objects
    /// computed in their order. A field path is followed in the document and
    /// `$this` is the document; both need one. Any other parameter has the
    /// content that the scope gives it. A future is computed where futures are
    /// enabled and stands for itself where they are not. The first error ends
    /// the evaluation.
    pub open spec fn eval(self, scope: Scope, doc: Option<Val>) -> Result<Val, Error>
        decreases self,
    {
        if scope.done is Some {
            Err(scope.done->0)
        } else {
            match self {
                Val::Array(a) => match eval_items(a, scope, doc, a.len() as int) {
                    Ok(items) => Ok(Val::Array(items)),
                    Err(e) => Err(e),
                },
                Val::Object(o) => match eval_entries(o, scope, doc, o.len() as int) {
                    Ok(entries) => Ok(Val::Object(entries)),
                    Err(e) => Err(e),
                },
                Val::Param(name) => if name == this_name() {
                    match doc {
                        Some(d) => Ok(d),
                        None => Err(Error::Evaluation(EvaluationError::NoContextDocument)),
                    }
                } else {
                    Ok(scope.params.field(name))
                },
                Val::Idiom(path) => match doc {
                    Some(d) => Ok(d.get(path)),
                    None => Err(Error::Evaluation(EvaluationError::NoContextDocument)),
                },
                Val::Subquery(v) => v.eval(scope, doc),
                Val::Expression(l, op, r) => match l.eval(scope, doc) {
                    Err(e) => Err(e),
                    Ok(a) => match r.eval(scope, doc) {
                        Err(e) => Err(e),
                        Ok(b) => operate(op, a, b),
                    },
                },
                Val::Future(v) => if scope.futures {
                    v.eval(scope, doc)
                } else {
                    Ok(self)
                },
                _ => Ok(self),
            }
        }
    }
}

/// An error among the first `n` elements is the outcome for every longer prefix.
pub proof fn lemma_items_error(a: Seq<Val>, scope: Scope, doc: Option<Val>, n: int, m: int)
    requires
        0 <= n <= m <= a.len(),
        eval_items(a, scope, doc, n) is Err,
    ensures
        eval_items(a, scope, doc, m) == eval_items(a, scope, doc, n),
    decreases m - n,
{
    if n < m {
        lemma_items_error(a, scope, doc, n, m - 1);
    }
}

/// An error among the first `n` entries is the outcome for every longer prefix.
pub proof fn lemma_entries_error(a: Seq<Entry>, scope: Scope, doc: Option<Val>, n: int, m: int)
    requires
        0 <= n <= m <= a.len(),
        eval_entries(a, scope, doc, n) is Err,
    ensures
        eval_entries(a, scope, doc, m) == eval_entries(a, scope, doc, n),
    decreases m - n,
{
    if n < m {
        lemma_entries_error(a, scope, doc, n, m - 1);
    }
}

/// The values of the elements of `v`, or the first error met.
#[verifier::loop_isolation(false)]
fn compute_items(v: &Vec<Value>, ctx: &Runtime, opt: &Options, doc: Option<&Value>) -> (r: Result<
    Vec<Value>,
    Error,
>)
    ensures
        match r {
            Ok(out) => eval_items(views(v@), scope_of(ctx, opt), doc_view(doc), v.len() as int)
                == Ok::<Seq<Val>, Error>(views(out@)),
            Err(e) => eval_items(views(v@), scope_of(ctx, opt), doc_view(doc), v.len() as int)
                == Err::<Seq<Val>, Error>(e),
        },
    decreases v,
{
    let ghost a = views(v@);
    let ghost scope = scope_of(ctx, opt);
    let ghost d = doc_view(doc);
    let mut out: Vec<Value> = Vec::new();
    let mut i: usize = 0;
    assert(views(out@) =~= Seq::<Val>::empty());
    while i < v.len()
        invariant
            i <= v.len(),
            eval_items(a, scope, d, i as int) == Ok::<Seq<Val>, Error>(views(out@)),
        decreases v.len() - i,
    {
        let ghost before = views(out@);
        match v[i].compute(ctx, opt, doc) {
            Ok(x) => {
                out.push(x);
                assert(views(out@) =~= before.push(x@));
            },
            Err(e) => {
                proof {
                    assert(eval_items(a, scope, d, i + 1) == Err::<Seq<Val>, Error>(e));
                    lemma_items_error(a, scope, d, i + 1, v.len() as int);
                }
                return Err(e);
            },
        }
        i += 1;
    }
    Ok(out)
}

/// The entries of `v` with their contents computed, or the first error met.
#[verifier::loop_isolation(false)]
fn compute_entries(
    v: &Vec<(Vec<u8>, Value)>,
    ctx: &Runtime,
    opt: &Options,
    doc: Option<&Value>,
) -> (r: Result<Vec<(Vec<u8>, Value)>, Error>)
    ensures
        match r {
            Ok(out) => eval_entries(
                entry_views(v@),
                scope_of(ctx, opt),
                doc_view(doc),
                v.len() as int,
            ) == Ok::<Seq<Entry>, Error>(entry_views(out@)),
            Err(e) => eval_entries(
                entry_views(v@),
                scope_of(ctx, opt),
                doc_view(doc),
                v.len() as int,
            ) == Err::<Seq<Entry>, Error>(e),
        },
    decreases v,
{
    let ghost a = entry_views(v@);
    let ghost scope = scope_of(ctx, opt);
    let ghost d = doc_view(doc);
    let mut out: Vec<(Vec<u8>, Value)> = Vec::new();
    let mut i: usize = 0;
    assert(entry_views(out@) =~= Seq::<Entry>::empty());
    while i < v.len()
        invariant
            i <= v.len(),
            eval_entries(a, scope, d, i as int) == Ok::<Seq<Entry>, Error>(entry_views(out@)),
        decreases v.len() - i,
    {
        let ghost before = entry_views(out@);
        match v[i].1.compute(ctx, opt, doc) {
            Ok(x) => {
                let ghost e = Entry { key: v@[i as int].0@, value: x@ };
                out.push((copy_text(&v[i].0), x));
                assert(entry_views(out@) =~= before.push(e));
            },
            Err(e) => {
                proof {
                    assert(eval_entries(a, scope, d, i + 1) == Err::<Seq<Entry>, Error>(e));
                    lemma_entries_error(a, scope, d, i + 1, v.len() as int);
                }
                return Err(e);
            },
        }
        i += 1;
    }
    Ok(out)
}

/// Whether `name` is the name of the parameter that stands for the document.
fn is_this(name: &Vec<u8>) -> (r: bool)
    ensures
        r == (name@ == this_name()),
{
    if name.len() == 4 && name[0] == 116 && name[1] == 104 && name[2] == 105 && name[3] == 115 {
        assert(name@ =~= this_name());
        true
    } else {
        assert(this_name().len() == 4);
        assert(this_name()[0] == 116 && this_name()[1] == 104 && this_name()[2] == 105
            && this_name()[3] == 115);
        false
    }
}

impl Value {
    /// Whether the value counts as true.
    pub fn is_truthy(&self) -> (r: bool)
        ensures
            r == self@.truthy(),
    {
        match self {
            Value::Bool(b) => *b,
            Value::Number(n) => n.0 != 0,
            Value::Strand(s) => s.len() > 0,
            Value::Array(a) => {
                proof {
                    lemma_array_view(*a);
                }
                a.len() > 0
            },
            Value::Object(o) => {
                proof {
                    lemma_object_view(*o);
                }
                o.len() > 0
            },
            Value::Thing(_) => true,
            _ => false,
        }
    }

    /// The result of the binary operator `op` on two computed values.
    pub fn operate(op: Operator, a: &Value, b: &Value) -> (r: Result<Value, Error>)
        ensures
            outcome(r) == operate(op, a@, b@),
    {
        match op {
            Operator::Equal => Ok(Value::Bool(matches!(a.compare(b), Compared::Equal))),
            Operator::NotEqual => Ok(Value::Bool(!matches!(a.compare(b), Compared::Equal))),
            Operator::LessThan => Ok(Value::Bool(matches!(a.compare(b), Compared::Less))),
            Operator::LessThanOrEqual => Ok(Value::Bool(!matches!(a.compare(b), Compared::Greater))),
            Operator::MoreThan => Ok(Value::Bool(matches!(a.compare(b), Compared::Greater))),
            Operator::MoreThanOrEqual => Ok(Value::Bool(!matches!(a.compare(b), Compared::Less))),
            Operator::And => Ok(Value::Bool(a.is_truthy() && b.is_truthy())),
            Operator::Or => Ok(Value::Bool(a.is_truthy() || b.is_truthy())),
            Operator::Add | Operator::Sub | Operator::Mul | Operator::Div => match (a, b) {
                (Value::Number(x), Value::Number(y)) => {
                    let n = match op {
                        Operator::Add => x.plus(*y),
                        Operator::Sub => x.minus(*y),
                        Operator::Mul => x.times(*y),
                        _ => x.over(*y),
                    };
                    match n {
                        Ok(n) => Ok(Value::Number(n)),
                        Err(e) => Err(e),
                    }
                },
                _ => Err(Error::Evaluation(EvaluationError::TypeMismatch)),
            },
            Operator::Inc | Operator::Dec => Err(Error::InternalInvariantViolation),
        }
    }

    /// Computes the value of an expression, against the document `doc` where
    /// there is one.
    pub fn compute(&self, ctx: &Runtime, opt: &Options, doc: Option<&Value>) -> (r: Result<
        Value,
        Error,
    >)
        ensures
            outcome(r) == self@.eval(scope_of(ctx, opt), doc_view(doc)),
        decreases self,
    {
        match ctx.check() {
            Err(e) => {
                return Err(e);
            },
            Ok(_) => {},
        }
        match self {
            Value::Array(v) => {
                proof {
                    lemma_array_view(*v);
                }
                match compute_items(v, ctx, opt, doc) {
                    Ok(out) => {
                        proof {
                            lemma_array_view(out);
                        }
                        Ok(Value::Array(out))
                    },
                    Err(e) => Err(e),
                }
            },
            Value::Object(v) => {
                proof {
                    lemma_object_view(*v);
                }
                match compute_entries(v, ctx, opt, doc) {
                    Ok(out) => {
                        proof {
                            lemma_object_view(out);
                        }
                        Ok(Value::Object(out))
                    },
                    Err(e) => Err(e),
                }
            },
            Value::Param(name) => {
                if is_this(name) {
                    match doc {
                        Some(d) => Ok(d.duplicate()),
                        None => Err(Error::Evaluation(EvaluationError::NoContextDocument)),
                    }
                } else {
                    Ok(ctx.vars.field(name))
                }
            },
            Value::Idiom(path) => match doc {
                Some(d) => Ok(d.get(path)),
                None => Err(Error::Evaluation(EvaluationError::NoContextDocument)),
            },
            Value::Subquery(v) => v.compute(ctx, opt, doc),
            Value::Expression(l, op, r) => {
                let a = match l.compute(ctx, opt, doc) {
                    Ok(a) => a,
                    Err(e) => {
                        return Err(e);
                    },
                };
                let b = match r.compute(ctx, opt, doc) {
                    Ok(b) => b,
                    Err(e) => {
                        return Err(e);
                    },
                };
                Value::operate(*op, &a, &b)
            },
            Value::Future(v) => {
                if opt.futures {
                    v.compute(ctx, opt, doc)
                } else {
                    Ok(self.duplicate())
                }
            },
            _ => Ok(self.duplicate()),
        }
    }
}

} // verus!
