use crate::sql::operator::Operator;
use crate::sql::value::{Idiom, Val, Value};
use vstd::prelude::*;

verus! {

/// One item of the list of what a `SELECT` returns.
#[derive(Clone, Debug, PartialEq, Eq)]
pub enum Field {
    /// `*`
    All,
    /// An expression.
    Alone(Value),
    /// An expression and the name it is given: `expr AS name`.
    Alias(Value, Idiom),
}

/// The list of what a `SELECT` returns.
#[derive(Clone, Debug, PartialEq, Eq)]
pub struct Fields(pub Vec<Field>);

/// The sources of a statement.
#[derive(Clone, Debug, PartialEq, Eq)]
pub struct Values(pub Vec<Value>);

/// `WHERE expr`
#[derive(Clone, Debug, PartialEq, Eq)]
pub struct Cond(pub Value);

/// `SPLIT ON a, b`
#[derive(Clone, Debug, PartialEq, Eq)]
pub struct Splits(pub Vec<Idiom>);

/// `GROUP BY a, b`
#[derive(Clone, Debug, PartialEq, Eq)]
pub struct Groups(pub Vec<Idiom>);

/// One key of an `ORDER BY` clause.
#[derive(Clone, Debug, PartialEq, Eq)]
pub struct Order {
    pub order: Idiom,
    /// `true` for ascending, `false` for descending.
    pub direction: bool,
}

/// `ORDER BY a, b DESC`
#[derive(Clone, Debug, PartialEq, Eq)]
pub struct Orders(pub Vec<Order>);

/// `LIMIT BY n`; zero stands for no limit.
#[derive(Clone, Copy, Debug, PartialEq, Eq, Structural)]
pub struct Limit(pub usize);

/// `START AT n`
#[derive(Clone, Copy, Debug, PartialEq, Eq, Structural)]
pub struct Start(pub usize);

/// `FETCH a, b`
#[derive(Clone, Debug, PartialEq, Eq)]
pub struct Fetchs(pub Vec<Idiom>);

/// `VERSION n`
#[derive(Clone, Copy, Debug, PartialEq, Eq, Structural)]
pub struct Version(pub u64);

/// `TIMEOUT nms`: the number of ticks that the statement may take.
#[derive(Clone, Copy, Debug, PartialEq, Eq, Structural)]
pub struct Timeout(pub u64);

/// One assignment of a `SET` clause.
#[derive(Clone, Debug, PartialEq, Eq)]
pub struct Assignment {
    pub field: Idiom,
    pub operator: Operator,
    pub value: Value,
}

/// How a statement changes a document.
#[derive(Clone, Debug, PartialEq, Eq)]
pub enum Data {
    /// `SET a = 1, b += 2`
    SetExpression(Vec<Assignment>),
    /// `PATCH [...]`
    PatchExpression(Value),
    /// `MERGE {...}`
    MergeExpression(Value),
    /// `REPLACE {...}`
    ReplaceExpression(Value),
    /// `CONTENT {...}`
    ContentExpression(Value),
}

/// The content of one key of an `ORDER BY` clause.
pub struct SortKey {
    pub path: Seq<Seq<u8>>,
    pub ascending: bool,
}

/// The content of an [`Assignment`].
pub struct Change {
    pub path: Seq<Seq<u8>>,
    pub operator: Operator,
    pub value: Val,
}

/// The content of a [`Data`] clause.
pub enum Clause {
    Assign(Seq<Change>),
    Patch(Val),
    Merge(Val),
    Replace(Val),
    Content(Val),
}

/// The contents of a list of paths.
pub open spec fn paths(s: Seq<Idiom>) -> Seq<Seq<Seq<u8>>> {
    Seq::new(s.len(), |i: int| s[i]@)
}

/// The contents of a list of sort keys.
pub open spec fn sort_keys(s: Seq<Order>) -> Seq<SortKey> {
    Seq::new(s.len(), |i: int| SortKey { path: s[i].order@, ascending: s[i].direction })
}

/// The contents of a list of assignments.
pub open spec fn changes(s: Seq<Assignment>) -> Seq<Change> {
    Seq::new(s.len(), |i: int| Change { path: s[i].field@, operator: s[i].operator, value: s[i].value@ })
}

impl View for Data {
    type V = Clause;

    open spec fn view(&self) -> Clause {
        match self {
            Data::SetExpression(items) => Clause::Assign(changes(items@)),
            Data::PatchExpression(v) => Clause::Patch(v@),
            Data::MergeExpression(v) => Clause::Merge(v@),
            Data::ReplaceExpression(v) => Clause::Replace(v@),
            Data::ContentExpression(v) => Clause::Content(v@),
        }
    }
}

/// The content of an optional data clause.
pub open spec fn clause_of(data: Option<Data>) -> Option<Clause> {
    match data {
        Some(d) => Some(d@),
        None => None,
    }
}

/// The content of an optional reference to a data clause.
pub open spec fn clause_at(data: Option<&Data>) -> Option<Clause> {
    match data {
        Some(d) => Some(d@),
        None => None,
    }
}

} // verus!
