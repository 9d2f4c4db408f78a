use crate::sql::operator::Operator;
use crate::sql::text::{copy_text, copy_texts, same_text, same_texts, texts};
use vstd::prelude::*;

verus! {

/// The mathematical content of a [`Value`]: what contracts speak of.
///
/// Text is a sequence of bytes, a number is its count of millionths, an object
/// is the sequence of its entries in the order in which they were added.
pub enum Val {
    Void,
    Null,
    Bool(bool),
    Number(int),
    Strand(Seq<u8>),
    Array(Seq<Val>),
    Object(Seq<Entry>),
    Table(Seq<u8>),
    Thing(Seq<u8>, Seq<u8>),
    Model(Seq<u8>, int, int),
    Param(Seq<u8>),
    Idiom(Seq<Seq<u8>>),
    Subquery(Box<Val>),
    Expression(Box<Val>, Operator, Box<Val>),
    Future(Box<Val>),
}

/// One entry of an object: a field name and the field's content.
pub struct Entry {
    pub key: Seq<u8>,
    pub value: Val,
}

/// A fixed-point decimal number, held as a count of millionths.
#[derive(Clone, Copy, Debug, PartialEq, Eq, Structural)]
pub struct Number(pub i64);

/// How many units of a [`Number`] make up one.
pub const NUMBER_SCALE: i64 = 1_000_000;

/// The identity of a record: its table and its identifier within the table.
#[derive(Clone, Debug, PartialEq, Eq)]
pub struct Thing {
    pub tb: Vec<u8>,
    pub id: Vec<u8>,
}

/// A range of records of one table, addressed by the numbers `from ..= to`.
#[derive(Clone, Debug, PartialEq, Eq)]
pub struct Model {
    pub tb: Vec<u8>,
    pub from: u64,
    pub to: u64,
}

/// A path of field names into a document.
#[derive(Clone, Debug, PartialEq, Eq)]
pub struct Idiom {
    pub parts: Vec<Vec<u8>>,
}

/// A value of the query language: data, a reference to stored data, or an
/// expression that computes data.
#[derive(Debug, PartialEq, Eq)]
pub enum Value {
    /// No value at all: an absent field.
    Void,
    Null,
    Bool(bool),
    Number(Number),
    Strand(Vec<u8>),
    Array(Vec<Value>),
    Object(Vec<(Vec<u8>, Value)>),
    /// Every record of a table.
    Table(Vec<u8>),
    /// One record.
    Thing(Thing),
    /// A range of records.
    Model(Model),
    /// A named parameter, `$name`.
    Param(Vec<u8>),
    /// A field path, resolved against the current document.
    Idiom(Idiom),
    /// A value in parentheses.
    Subquery(Box<Value>),
    /// A binary operation.
    Expression(Box<Value>, Operator, Box<Value>),
    /// A value computed only when futures are enabled.
    Future(Box<Value>),
}

/// The content of a [`Thing`].
pub struct Key {
    pub tb: Seq<u8>,
    pub id: Seq<u8>,
}

impl View for Thing {
    type V = Key;

    open spec fn view(&self) -> Key {
        Key { tb: self.tb@, id: self.id@ }
    }
}

impl View for Idiom {
    type V = Seq<Seq<u8>>;

    open spec fn view(&self) -> Seq<Seq<u8>> {
        texts(self.parts@)
    }
}

impl View for Value {
    type V = Val;

    open spec fn view(&self) -> Val
        decreases self,
    {
        match self {
            Value::Void => Val::Void,
            Value::Null => Val::Null,
            Value::Bool(b) => Val::Bool(*b),
            Value::Number(n) => Val::Number(n.0 as int),
            Value::Strand(s) => Val::Strand(s@),
            Value::Array(v) => Val::Array(
                Seq::new(
                    v@.len(),
                    |i: int|
                        if 0 <= i < v@.len() {
                            v@[i].view()
                        } else {
                            Val::Void
                        },
                ),
            ),
            Value::Object(o) => Val::Object(
                Seq::new(
                    o@.len(),
                    |i: int|
                        if 0 <= i < o@.len() {
                            Entry { key: o@[i].0@, value: o@[i].1.view() }
                        } else {
                            Entry { key: Seq::empty(), value: Val::Void }
                        },
                ),
            ),
            Value::Table(t) => Val::Table(t@),
            Value::Thing(t) => Val::Thing(t.tb@, t.id@),
            Value::Model(m) => Val::Model(m.tb@, m.from as int, m.to as int),
            Value::Param(p) => Val::Param(p@),
            Value::Idiom(p) => Val::Idiom(p@),
            Value::Subquery(v) => Val::Subquery(Box::new((**v).view())),
            Value::Expression(l, o, r) => Val::Expression(
                Box::new((**l).view()),
                *o,
                Box::new((**r).view()),
            ),
            Value::Future(v) => Val::Future(Box::new((**v).view())),
        }
    }
}

/// The contents of a list of values.
pub open spec fn views(s: Seq<Value>) -> Seq<Val> {
    Seq::new(s.len(), |i: int| s[i]@)
}

/// The contents of the entries of an object.
pub open spec fn entry_views(s: Seq<(Vec<u8>, Value)>) -> Seq<Entry> {
    Seq::new(s.len(), |i: int| Entry { key: s[i].0@, value: s[i].1@ })
}

/// An array holds the contents of its elements.
pub proof fn lemma_array_view(v: Vec<Value>)
    ensures
        Value::Array(v)@ == Val::Array(views(v@)),
{
    assert(Value::Array(v)@->Array_0 =~= views(v@));
}

/// An object holds the contents of its entries.
pub proof fn lemma_object_view(o: Vec<(Vec<u8>, Value)>)
    ensures
        Value::Object(o)@ == Val::Object(entry_views(o@)),
{
    assert(Value::Object(o)@->Object_0 =~= entry_views(o@));
}

impl Thing {
    /// A copy.
    pub fn duplicate(&self) -> (r: Thing)
        ensures
            r@ == self@,
    {
        Thing { tb: copy_text(&self.tb), id: copy_text(&self.id) }
    }

    /// Whether the two name the same record.
    pub fn same(&self, other: &Thing) -> (r: bool)
        ensures
            r == (self@ == other@),
    {
        same_text(self.tb.as_slice(), other.tb.as_slice()) && same_text(
            self.id.as_slice(),
            other.id.as_slice(),
        )
    }
}

impl Idiom {
    /// A copy.
    pub fn duplicate(&self) -> (r: Idiom)
        ensures
            r@ == self@,
    {
        Idiom { parts: copy_texts(&self.parts) }
    }
}

/// Copies of the values of a list, in the same order.
#[verifier::loop_isolation(false)]
pub fn duplicate_all(v: &Vec<Value>) -> (r: Vec<Value>)
    ensures
        views(r@) == views(v@),
    decreases v,
{
    let mut out: Vec<Value> = Vec::new();
    let mut i: usize = 0;
    while i < v.len()
        invariant
            i <= v.len(),
            out.len() == i,
            forall|j: int| 0 <= j < i ==> out@[j]@ == v@[j]@,
        decreases v.len() - i,
    {
        out.push(v[i].duplicate());
        i += 1;
    }
    assert(views(out@) =~= views(v@));
    out
}

/// Copies of the entries of an object, in the same order.
#[verifier::loop_isolation(false)]
pub fn duplicate_entries(o: &Vec<(Vec<u8>, Value)>) -> (r: Vec<(Vec<u8>, Value)>)
    ensures
        entry_views(r@) == entry_views(o@),
    decreases o,
{
    let mut out: Vec<(Vec<u8>, Value)> = Vec::new();
    let mut i: usize = 0;
    while i < o.len()
        invariant
            i <= o.len(),
            out.len() == i,
            forall|j: int| 0 <= j < i ==> out@[j].0@ == o@[j].0@ && out@[j].1@ == o@[j].1@,
        decreases o.len() - i,
    {
        let key = copy_text(&o[i].0);
        let val = o[i].1.duplicate();
        out.push((key, val));
        i += 1;
    }
    assert(entry_views(out@) =~= entry_views(o@));
    out
}

/// Whether two lists hold the same contents in the same order.
#[verifier::loop_isolation(false)]
pub fn same_all(a: &Vec<Value>, b: &Vec<Value>) -> (r: bool)
    ensures
        r == (views(a@) == views(b@)),
    decreases a,
{
    if a.len() != b.len() {
        assert(views(a@).len() != views(b@).len());
        return false;
    }
    let mut i: usize = 0;
    while i < a.len()
        invariant
            i <= a.len(),
            forall|j: int| 0 <= j < i ==> a@[j]@ == b@[j]@,
        decreases a.len() - i,
    {
        if !a[i].same(&b[i]) {
            assert(views(a@)[i as int] != views(b@)[i as int]);
            return false;
        }
        i += 1;
    }
    assert(views(a@) =~= views(b@));
    true
}

/// Whether two objects hold the same entries in the same order.
#[verifier::loop_isolation(false)]
pub fn same_entries(a: &Vec<(Vec<u8>, Value)>, b: &Vec<(Vec<u8>, Value)>) -> (r: bool)
    ensures
        r == (entry_views(a@) == entry_views(b@)),
    decreases a,
{
    if a.len() != b.len() {
        assert(entry_views(a@).len() != entry_views(b@).len());
        return false;
    }
    let mut i: usize = 0;
    while i < a.len()
        invariant
            i <= a.len(),
            forall|j: int| 0 <= j < i ==> a@[j].0@ == b@[j].0@ && a@[j].1@ == b@[j].1@,
        decreases a.len() - i,
    {
        if !same_text(a[i].0.as_slice(), b[i].0.as_slice()) || !a[i].1.same(&b[i].1) {
            assert(entry_views(a@)[i as int] != entry_views(b@)[i as int]);
            return false;
        }
        i += 1;
    }
    assert(entry_views(a@) =~= entry_views(b@));
    true
}

impl Clone for Value {
    fn clone(&self) -> (r: Value)
        ensures
            r@ == self@,
    {
        self.duplicate()
    }
}

impl Value {
    /// A deep copy.
    pub fn duplicate(&self) -> (r: Value)
        ensures
            r@ == self@,
        decreases self,
    {
        match self {
            Value::Void => Value::Void,
            Value::Null => Value::Null,
            Value::Bool(b) => Value::Bool(*b),
            Value::Number(n) => Value::Number(*n),
            Value::Strand(s) => Value::Strand(copy_text(s)),
            Value::Array(v) => {
                let out = duplicate_all(v);
                proof {
                    lemma_array_view(*v);
                    lemma_array_view(out);
                }
                Value::Array(out)
            },
            Value::Object(o) => {
                let out = duplicate_entries(o);
                proof {
                    lemma_object_view(*o);
                    lemma_object_view(out);
                }
                Value::Object(out)
            },
            Value::Table(t) => Value::Table(copy_text(t)),
            Value::Thing(t) => Value::Thing(t.duplicate()),
            Value::Model(m) => Value::Model(Model { tb: copy_text(&m.tb), from: m.from, to: m.to }),
            Value::Param(p) => Value::Param(copy_text(p)),
            Value::Idiom(p) => Value::Idiom(p.duplicate()),
            Value::Subquery(v) => Value::Subquery(Box::new(v.duplicate())),
            Value::Expression(l, o, r) => Value::Expression(
                Box::new(l.duplicate()),
                *o,
                Box::new(r.duplicate()),
            ),
            Value::Future(v) => Value::Future(Box::new(v.duplicate())),
        }
    }

    /// Structural equality: the two values have the same content.
    pub fn same(&self, other: &Value) -> (r: bool)
        ensures
            r == (self@ == other@),
        decreases self,
    {
        match (self, other) {
            (Value::Void, Value::Void) => true,
            (Value::Null, Value::Null) => true,
            (Value::Bool(a), Value::Bool(b)) => *a == *b,
            (Value::Number(a), Value::Number(b)) => a.0 == b.0,
            (Value::Strand(a), Value::Strand(b)) => same_text(a.as_slice(), b.as_slice()),
            (Value::Array(a), Value::Array(b)) => {
                proof {
                    lemma_array_view(*a);
                    lemma_array_view(*b);
                }
                same_all(a, b)
            },
            (Value::Object(a), Value::Object(b)) => {
                proof {
                    lemma_object_view(*a);
                    lemma_object_view(*b);
                }
                same_entries(a, b)
            },
            (Value::Table(a), Value::Table(b)) => same_text(a.as_slice(), b.as_slice()),
            (Value::Thing(a), Value::Thing(b)) => a.same(b),
            (Value::Model(a), Value::Model(b)) => same_text(a.tb.as_slice(), b.tb.as_slice())
                && a.from == b.from && a.to == b.to,
            (Value::Param(a), Value::Param(b)) => same_text(a.as_slice(), b.as_slice()),
            (Value::Idiom(a), Value::Idiom(b)) => same_texts(&a.parts, &b.parts),
            (Value::Subquery(a), Value::Subquery(b)) => a.same(b),
            (Value::Expression(al, ao, ar), Value::Expression(bl, bo, br)) => {
                let ops = ao.index() == bo.index();
                proof {
                    if ops {
                        Operator::lemma_rank_injective(*ao, *bo);
                    }
                }
                ops && al.same(bl) && ar.same(br)
            },
            (Value::Future(a), Value::Future(b)) => a.same(b),
            _ => false,
        }
    }

    /// Whether the value stands for "nothing there".
    pub fn is_void(&self) -> (r: bool)
        ensures
            r == (self@ is Void),
    {
        match self {
            Value::Void => true,
            _ => false,
        }
    }
}

} // verus!
