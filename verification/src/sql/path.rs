use crate::sql::text::{copy_text, same_text, texts};
use crate::sql::value::{duplicate_entries, entry_views, lemma_object_view, Entry, Idiom, Val, Value};
use vstd::prelude::*;

verus! {

/// The index of the first entry at or after `i` whose key is `key`.
pub open spec fn find_from(es: Seq<Entry>, key: Seq<u8>, i: int) -> Option<int>
    decreases es.len() - i,
{
    if i < 0 || i >= es.len() {
        None
    } else if es[i].key == key {
        Some(i)
    } else {
        find_from(es, key, i + 1)
    }
}

/// The index of the first entry whose key is `key`.
pub open spec fn find(es: Seq<Entry>, key: Seq<u8>) -> Option<int> {
    find_from(es, key, 0)
}

/// The entries whose key is not `key`, in their order.
pub open spec fn without(es: Seq<Entry>, key: Seq<u8>) -> Seq<Entry>
    decreases es.len(),
{
    if es.len() == 0 {
        es
    } else {
        let rest = without(es.drop_last(), key);
        if es.last().key == key {
            rest
        } else {
            rest.push(es.last())
        }
    }
}

impl Val {
    /// The content of the field `key`; `Void` where there is no such field.
    pub open spec fn field(self, key: Seq<u8>) -> Val {
        match self {
            Val::Object(es) => match find(es, key) {
                Some(i) => es[i].value,
                None => Val::Void,
            },
            _ => Val::Void,
        }
    }

    /// The value with the field `key` holding `v`. An object keeps its other
    /// entries, `Void` and `Null` become an object, anything else stays as it is.
    pub open spec fn with_field(self, key: Seq<u8>, v: Val) -> Val {
        match self {
            Val::Object(es) => match find(es, key) {
                Some(i) => Val::Object(es.update(i, Entry { key: key, value: v })),
                None => Val::Object(es.push(Entry { key: key, value: v })),
            },
            Val::Void | Val::Null => Val::Object(seq![Entry { key: key, value: v }]),
            _ => self,
        }
    }

    /// The value without any field `key`.
    pub open spec fn without_field(self, key: Seq<u8>) -> Val {
        match self {
            Val::Object(es) => Val::Object(without(es, key)),
            _ => self,
        }
    }

    /// What is found by following `path` field by field; `Void` where the path
    /// leaves the data.
    pub open spec fn get(self, path: Seq<Seq<u8>>) -> Val
        decreases path.len(),
    {
        if path.len() == 0 {
            self
        } else {
            self.field(path[0]).get(path.drop_first())
        }
    }

    /// The value with `v` stored at `path`, objects being created on the way
    /// where fields are missing. A part of the path that meets data which is
    /// neither an object nor missing leaves the value unchanged.
    pub open spec fn set(self, path: Seq<Seq<u8>>, v: Val) -> Val
        decreases path.len(),
    {
        if path.len() == 0 {
            v
        } else {
            match self {
                Val::Object(_) | Val::Void | Val::Null => self.with_field(
                    path[0],
                    self.field(path[0]).set(path.drop_first(), v),
                ),
                _ => self,
            }
        }
    }

    /// The value without the field that `path` leads to.
    pub open spec fn del(self, path: Seq<Seq<u8>>) -> Val
        decreases path.len(),
    {
        if path.len() == 0 {
            self
        } else if path.len() == 1 {
            self.without_field(path[0])
        } else {
            match self {
                Val::Object(es) => match find(es, path[0]) {
                    Some(i) => Val::Object(
                        es.update(
                            i,
                            Entry { key: path[0], value: es[i].value.del(path.drop_first()) },
                        ),
                    ),
                    None => self,
                },
                _ => self,
            }
        }
    }
}

/// What `find_from` returns: the first matching index, or `None` where no entry
/// from `i` on has the key.
pub proof fn lemma_find_from(es: Seq<Entry>, key: Seq<u8>, i: int)
    requires
        0 <= i,
    ensures
        match find_from(es, key, i) {
            Some(r) => i <= r < es.len() && es[r].key == key && forall|j: int|
                i <= j < r ==> es[j].key != key,
            None => forall|j: int| i <= j < es.len() ==> es[j].key != key,
        },
    decreases es.len() - i,
{
    if i < es.len() && es[i].key != key {
        lemma_find_from(es, key, i + 1);
    }
}

/// The first index with the key is what `find` returns.
pub proof fn lemma_find_is(es: Seq<Entry>, key: Seq<u8>, r: int)
    requires
        0 <= r < es.len(),
        es[r].key == key,
        forall|j: int| 0 <= j < r ==> es[j].key != key,
    ensures
        find(es, key) == Some(r),
{
    lemma_find_from(es, key, 0);
}

/// `without` leaves no entry with the key, and keeps entries that have none.
pub proof fn lemma_without(es: Seq<Entry>, key: Seq<u8>)
    ensures
        forall|j: int| 0 <= j < without(es, key).len() ==> without(es, key)[j].key != key,
        (forall|j: int| 0 <= j < es.len() ==> es[j].key != key) ==> without(es, key) == es,
    decreases es.len(),
{
    if es.len() > 0 {
        lemma_without(es.drop_last(), key);
        if forall|j: int| 0 <= j < es.len() ==> es[j].key != key {
            assert forall|j: int| 0 <= j < es.drop_last().len() implies es.drop_last()[j].key
                != key by {
                assert(es.drop_last()[j] == es[j]);
            }
            assert(es.drop_last().push(es.last()) =~= es);
        }
    }
}

/// Nothing is found by following a path from `Void`.
pub proof fn lemma_get_void(path: Seq<Seq<u8>>)
    ensures
        Val::Void.get(path) == Val::Void,
    decreases path.len(),
{
    if path.len() > 0 {
        lemma_get_void(path.drop_first());
    }
}

/// After a deletion the field is absent: following the path finds `Void`.
pub proof fn lemma_del_then_get(d: Val, path: Seq<Seq<u8>>)
    requires
        path.len() > 0,
    ensures
        d.del(path).get(path) == Val::Void,
    decreases path.len(),
{
    let key = path[0];
    let rest = path.drop_first();
    lemma_get_void(rest);
    if path.len() == 1 {
        if let Val::Object(es) = d {
            lemma_without(es, key);
            lemma_find_from(without(es, key), key, 0);
        }
    } else {
        if let Val::Object(es) = d {
            lemma_find_from(es, key, 0);
            if let Some(i) = find(es, key) {
                let child = es[i].value.del(rest);
                let es2 = es.update(i, Entry { key: key, value: child });
                lemma_find_is(es2, key, i);
                lemma_del_then_get(es[i].value, rest);
            }
        }
    }
}

/// Deleting twice is deleting once.
pub proof fn lemma_del_idempotent(d: Val, path: Seq<Seq<u8>>)
    ensures
        d.del(path).del(path) == d.del(path),
    decreases path.len(),
{
    if path.len() == 0 {
    } else if path.len() == 1 {
        if let Val::Object(es) = d {
            lemma_without(es, path[0]);
            lemma_without(without(es, path[0]), path[0]);
        }
    } else {
        let key = path[0];
        let rest = path.drop_first();
        if let Val::Object(es) = d {
            lemma_find_from(es, key, 0);
            if let Some(i) = find(es, key) {
                let child = es[i].value.del(rest);
                let es2 = es.update(i, Entry { key: key, value: child });
                lemma_find_is(es2, key, i);
                lemma_del_idempotent(es[i].value, rest);
                assert(es2.update(i, Entry { key: key, value: child.del(rest) }) =~= es2);
            }
        }
    }
}

/// Storing the same content in a field twice is storing it once.
pub proof fn lemma_with_field_idempotent(d: Val, key: Seq<u8>, v: Val)
    ensures
        d.with_field(key, v).with_field(key, v) == d.with_field(key, v),
{
    let e = Entry { key: key, value: v };
    match d {
        Val::Object(es) => {
            lemma_find_from(es, key, 0);
            match find(es, key) {
                Some(i) => {
                    lemma_find_is(es.update(i, e), key, i);
                    assert(es.update(i, e).update(i, e) =~= es.update(i, e));
                },
                None => {
                    lemma_find_is(es.push(e), key, es.len() as int);
                    assert(es.push(e).update(es.len() as int, e) =~= es.push(e));
                },
            }
        },
        Val::Void | Val::Null => {
            lemma_find_is(seq![e], key, 0);
            assert(seq![e].update(0, e) =~= seq![e]);
        },
        _ => {},
    }
}

/// A field holds what was stored in it, where the value can hold fields.
pub proof fn lemma_with_field_then_field(d: Val, key: Seq<u8>, v: Val)
    requires
        d is Object || d is Void || d is Null,
    ensures
        d.with_field(key, v).field(key) == v,
{
    let e = Entry { key: key, value: v };
    match d {
        Val::Object(es) => {
            lemma_find_from(es, key, 0);
            match find(es, key) {
                Some(i) => {
                    lemma_find_is(es.update(i, e), key, i);
                },
                None => {
                    lemma_find_is(es.push(e), key, es.len() as int);
                },
            }
        },
        _ => {
            lemma_find_is(seq![e], key, 0);
        },
    }
}

/// The index of the first entry of `es` whose key is `key`.
#[verifier::loop_isolation(false)]
pub fn find_key(es: &Vec<(Vec<u8>, Value)>, key: &Vec<u8>) -> (r: Option<usize>)
    ensures
        match r {
            Some(i) => find(entry_views(es@), key@) == Some(i as int) && i < es.len(),
            None => find(entry_views(es@), key@) is None,
        },
{
    let ghost evs = entry_views(es@);
    let mut i: usize = 0;
    while i < es.len()
        invariant
            i <= es.len(),
            find_from(evs, key@, 0) == find_from(evs, key@, i as int),
        decreases es.len() - i,
    {
        if same_text(es[i].0.as_slice(), key.as_slice()) {
            return Some(i);
        }
        i += 1;
    }
    None
}

impl Value {
    /// A copy of the content of the field `key`.
    pub fn field(&self, key: &Vec<u8>) -> (r: Value)
        ensures
            r@ == self@.field(key@),
    {
        match self {
            Value::Object(es) => {
                proof {
                    lemma_object_view(*es);
                }
                match find_key(es, key) {
                    Some(i) => es[i].1.duplicate(),
                    None => Value::Void,
                }
            },
            _ => Value::Void,
        }
    }

    /// A copy of the value in which the field `key` holds `v`.
    pub fn with_field(&self, key: &Vec<u8>, v: Value) -> (r: Value)
        ensures
            r@ == self@.with_field(key@, v@),
    {
        match self {
            Value::Object(es) => {
                let mut out = duplicate_entries(es);
                let ghost e = Entry { key: key@, value: v@ };
                match find_key(es, key) {
                    Some(i) => {
                        out.set(i, (copy_text(key), v));
                        assert(entry_views(out@) =~= entry_views(es@).update(i as int, e));
                    },
                    None => {
                        out.push((copy_text(key), v));
                        assert(entry_views(out@) =~= entry_views(es@).push(e));
                    },
                }
                proof {
                    lemma_object_view(*es);
                    lemma_object_view(out);
                }
                Value::Object(out)
            },
            Value::Void | Value::Null => {
                let ghost e = Entry { key: key@, value: v@ };
                let mut out: Vec<(Vec<u8>, Value)> = Vec::new();
                out.push((copy_text(key), v));
                proof {
                    assert(entry_views(out@) =~= seq![e]);
                    lemma_object_view(out);
                }
                Value::Object(out)
            },
            _ => self.duplicate(),
        }
    }

    /// A copy of the value without any field `key`.
    #[verifier::loop_isolation(false)]
    pub fn without_field(&self, key: &Vec<u8>) -> (r: Value)
        ensures
            r@ == self@.without_field(key@),
    {
        match self {
            Value::Object(es) => {
                let ghost evs = entry_views(es@);
                let mut out: Vec<(Vec<u8>, Value)> = Vec::new();
                let mut i: usize = 0;
                assert(evs.take(0) =~= Seq::<Entry>::empty());
                while i < es.len()
                    invariant
                        i <= es.len(),
                        entry_views(out@) == without(evs.take(i as int), key@),
                    decreases es.len() - i,
                {
                    assert(evs.take(i + 1).drop_last() =~= evs.take(i as int));
                    if !same_text(es[i].0.as_slice(), key.as_slice()) {
                        let ghost before = entry_views(out@);
                        out.push((copy_text(&es[i].0), es[i].1.duplicate()));
                        assert(entry_views(out@) =~= before.push(evs[i as int]));
                    }
                    i += 1;
                }
                proof {
                    assert(evs.take(es.len() as int) =~= evs);
                    lemma_object_view(*es);
                    lemma_object_view(out);
                }
                Value::Object(out)
            },
            _ => self.duplicate(),
        }
    }

    /// A copy of what the parts of `path` from `from` on lead to.
    pub(crate) fn pick(&self, path: &Vec<Vec<u8>>, from: usize) -> (r: Value)
        requires
            from <= path.len(),
        ensures
            r@ == self@.get(texts(path@).skip(from as int)),
        decreases path.len() - from,
    {
        if from == path.len() {
            self.duplicate()
        } else {
            proof {
                lemma_skip_step(path@, from as int);
            }
            match self {
                Value::Object(es) => {
                    proof {
                        lemma_object_view(*es);
                    }
                    match find_key(es, &path[from]) {
                        Some(i) => es[i].1.pick(path, from + 1),
                        None => {
                            proof {
                                lemma_get_void(texts(path@).skip(from + 1));
                            }
                            Value::Void
                        },
                    }
                },
                _ => {
                    proof {
                        lemma_get_void(texts(path@).skip(from + 1));
                    }
                    Value::Void
                },
            }
        }
    }

    /// A copy of the value with `v` stored where the parts of `path` from `from`
    /// on lead to.
    pub(crate) fn put(&self, path: &Vec<Vec<u8>>, from: usize, v: Value) -> (r: Value)
        requires
            from <= path.len(),
        ensures
            r@ == self@.set(texts(path@).skip(from as int), v@),
        decreases path.len() - from,
    {
        if from == path.len() {
            v
        } else {
            proof {
                lemma_skip_step(path@, from as int);
            }
            match self {
                Value::Object(_) | Value::Void | Value::Null => {
                    let child = self.field(&path[from]).put(path, from + 1, v);
                    self.with_field(&path[from], child)
                },
                _ => self.duplicate(),
            }
        }
    }

    /// A copy of the value without the field that the parts of `path` from
    /// `from` on lead to.
    pub(crate) fn cut(&self, path: &Vec<Vec<u8>>, from: usize) -> (r: Value)
        requires
            from <= path.len(),
        ensures
            r@ == self@.del(texts(path@).skip(from as int)),
        decreases path.len() - from,
    {
        if from == path.len() {
            self.duplicate()
        } else {
            proof {
                lemma_skip_step(path@, from as int);
            }
            if from + 1 == path.len() {
                self.without_field(&path[from])
            } else {
                match self {
                    Value::Object(es) => {
                        proof {
                            lemma_object_view(*es);
                        }
                        match find_key(es, &path[from]) {
                            Some(i) => {
                                let child = es[i].1.cut(path, from + 1);
                                let ghost e = Entry { key: path@[from as int]@, value: child@ };
                                let mut out = duplicate_entries(es);
                                out.set(i, (copy_text(&path[from]), child));
                                proof {
                                    assert(entry_views(out@) =~= entry_views(es@).update(
                                        i as int,
                                        e,
                                    ));
                                    lemma_object_view(out);
                                }
                                Value::Object(out)
                            },
                            None => self.duplicate(),
                        }
                    },
                    _ => self.duplicate(),
                }
            }
        }
    }

    /// A copy of what `path` leads to; `Void` where it leads nowhere.
    pub fn get(&self, path: &Idiom) -> (r: Value)
        ensures
            r@ == self@.get(path@),
    {
        proof {
            assert(texts(path.parts@).skip(0) =~= texts(path.parts@));
        }
        self.pick(&path.parts, 0)
    }

    /// Stores `v` at `path`.
    pub fn set(&mut self, path: &Idiom, v: Value)
        ensures
            final(self)@ == old(self)@.set(path@, v@),
    {
        proof {
            assert(texts(path.parts@).skip(0) =~= texts(path.parts@));
        }
        let next = self.put(&path.parts, 0, v);
        *self = next;
    }

    /// Removes the field that `path` leads to.
    pub fn del(&mut self, path: &Idiom)
        ensures
            final(self)@ == old(self)@.del(path@),
    {
        proof {
            assert(texts(path.parts@).skip(0) =~= texts(path.parts@));
        }
        let next = self.cut(&path.parts, 0);
        *self = next;
    }
}

/// The first part of the rest of a path, and the rest after it.
pub proof fn lemma_skip_step(path: Seq<Vec<u8>>, from: int)
    requires
        0 <= from < path.len(),
    ensures
        texts(path).skip(from).len() == path.len() - from,
        texts(path).skip(from)[0] == path[from]@,
        texts(path).skip(from).drop_first() == texts(path).skip(from + 1),
{
    assert(texts(path).skip(from).drop_first() =~= texts(path).skip(from + 1));
}

} // verus!
