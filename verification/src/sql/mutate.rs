use crate::err::Error;
use crate::sql::number::number_or_overflow;
use crate::sql::text::{same_text, texts};
use crate::sql::value::{
    entry_views, lemma_array_view, lemma_object_view, views, Entry, Idiom, Number, Val, Value,
};
use vstd::prelude::*;

verus! {

/// The elements of `a` other than `v`, in their order.
pub open spec fn drop_equal(a: Seq<Val>, v: Val) -> Seq<Val>
    decreases a.len(),
{
    if a.len() == 0 {
        a
    } else {
        let rest = drop_equal(a.drop_last(), v);
        if a.last() == v {
            rest
        } else {
            rest.push(a.last())
        }
    }
}

/// The elements of `a` that do not occur in `b`, in their order.
pub open spec fn drop_found(a: Seq<Val>, b: Seq<Val>) -> Seq<Val>
    decreases a.len(),
{
    if a.len() == 0 {
        a
    } else {
        let rest = drop_found(a.drop_last(), b);
        if b.contains(a.last()) {
            rest
        } else {
            rest.push(a.last())
        }
    }
}

/// `base` with the first `n` entries of `es` merged into it, one after another.
pub open spec fn merge_entries(base: Val, es: Seq<Entry>, n: int) -> Val
    decreases es, n,
{
    if n <= 0 || n > es.len() {
        base
    } else {
        let before = merge_entries(base, es, n - 1);
        before.with_field(es[n - 1].key, before.field(es[n - 1].key).merge(es[n - 1].value))
    }
}

/// The text `op`.
pub open spec fn name_op() -> Seq<u8> {
    seq![111u8, 112u8]
}

/// The text `path`.
pub open spec fn name_path() -> Seq<u8> {
    seq![112u8, 97u8, 116u8, 104u8]
}

/// The text `value`.
pub open spec fn name_value() -> Seq<u8> {
    seq![118u8, 97u8, 108u8, 117u8, 101u8]
}

/// The text `add`.
pub open spec fn name_add() -> Seq<u8> {
    seq![97u8, 100u8, 100u8]
}

/// The text `remove`.
pub open spec fn name_remove() -> Seq<u8> {
    seq![114u8, 101u8, 109u8, 111u8, 118u8, 101u8]
}

/// The text `replace`.
pub open spec fn name_replace() -> Seq<u8> {
    seq![114u8, 101u8, 112u8, 108u8, 97u8, 99u8, 101u8]
}

/// The pieces of `s` between occurrences of `sep`, for the piece that starts
/// at `start` and has been read up to `i`, and the pieces after it.
pub open spec fn split_from(s: Seq<u8>, sep: u8, start: int, i: int) -> Seq<Seq<u8>>
    decreases s.len() - i,
{
    if i < start || start < 0 {
        Seq::empty()
    } else if i >= s.len() {
        seq![s.subrange(start, s.len() as int)]
    } else if s[i] == sep {
        seq![s.subrange(start, i)] + split_from(s, sep, i + 1, i + 1)
    } else {
        split_from(s, sep, start, i + 1)
    }
}

/// The path that a pointer spells: a slash before each field name. Text that
/// does not begin with a slash is no pointer.
pub open spec fn pointer(s: Seq<u8>) -> Option<Seq<Seq<u8>>> {
    if s.len() > 0 && s[0] == 47u8 {
        Some(split_from(s, 47u8, 1, 1))
    } else {
        None
    }
}

/// The document after one patch operation, or the patch error where the
/// operation is malformed.
///
/// An operation is an object. Its field `op` is the text `add`, `replace` or
/// `remove`, its field `path` is a pointer, and for `add` and `replace` its
/// field `value` is there. `add` and `replace` store the value at the path,
/// `remove` deletes what is there.
pub open spec fn apply_op(d: Val, op: Val) -> Result<Val, Error> {
    if !(op is Object) {
        Err(Error::Patch)
    } else {
        match (op.field(name_op()), op.field(name_path())) {
            (Val::Strand(kind), Val::Strand(p)) => match pointer(p) {
                None => Err(Error::Patch),
                Some(path) => if kind == name_remove() {
                    Ok(d.del(path))
                } else if kind == name_add() || kind == name_replace() {
                    if op.field(name_value()) is Void {
                        Err(Error::Patch)
                    } else {
                        Ok(d.set(path, op.field(name_value())))
                    }
                } else {
                    Err(Error::Patch)
                },
            },
            _ => Err(Error::Patch),
        }
    }
}

/// The document after the first `n` operations of `ops`, or the patch error
/// where one of them is malformed.
pub open spec fn patch_items(d: Val, ops: Seq<Val>, n: int) -> Result<Val, Error>
    decreases n,
{
    if n <= 0 || n > ops.len() {
        Ok(d)
    } else {
        match patch_items(d, ops, n - 1) {
            Err(e) => Err(e),
            Ok(before) => apply_op(before, ops[n - 1]),
        }
    }
}

impl Val {
    /// The document with `v` added to what `path` leads to.
    ///
    /// A number grows by a number, an array by the elements of an array or by
    /// one other value, and a missing field becomes the number, the array, or an
    /// array of the one value. Nothing else changes.
    pub open spec fn increment(self, path: Seq<Seq<u8>>, v: Val) -> Result<Val, Error> {
        match self.get(path) {
            Val::Number(a) => match v {
                Val::Number(b) => match number_or_overflow(a + b) {
                    Ok(n) => Ok(self.set(path, Val::Number(n))),
                    Err(e) => Err(e),
                },
                _ => Ok(self),
            },
            Val::Array(a) => match v {
                Val::Array(b) => Ok(self.set(path, Val::Array(a + b))),
                _ => Ok(self.set(path, Val::Array(a.push(v)))),
            },
            Val::Void => match v {
                Val::Number(_) | Val::Array(_) => Ok(self.set(path, v)),
                _ => Ok(self.set(path, Val::Array(seq![v]))),
            },
            _ => Ok(self),
        }
    }

    /// The document with `v` taken from what `path` leads to.
    ///
    /// A number shrinks by a number, an array loses the elements that occur in
    /// an array or that equal one other value, and a missing field becomes the
    /// negated number. Nothing else changes.
    pub open spec fn decrement(self, path: Seq<Seq<u8>>, v: Val) -> Result<Val, Error> {
        match self.get(path) {
            Val::Number(a) => match v {
                Val::Number(b) => match number_or_overflow(a - b) {
                    Ok(n) => Ok(self.set(path, Val::Number(n))),
                    Err(e) => Err(e),
                },
                _ => Ok(self),
            },
            Val::Array(a) => match v {
                Val::Array(b) => Ok(self.set(path, Val::Array(drop_found(a, b)))),
                _ => Ok(self.set(path, Val::Array(drop_equal(a, v)))),
            },
            Val::Void => match v {
                Val::Number(b) => match number_or_overflow(0 - b) {
                    Ok(n) => Ok(self.set(path, Val::Number(n))),
                    Err(e) => Err(e),
                },
                _ => Ok(self),
            },
            _ => Ok(self),
        }
    }

    /// The deep merge of `other` into the value: two objects are merged field
    /// by field, in the order of the fields of `other`; anywhere else `other`
    /// takes the place of the value.
    pub open spec fn merge(self, other: Val) -> Val
        decreases other,
    {
        match (self, other) {
            (Val::Object(_), Val::Object(es)) => merge_entries(self, es, es.len() as int),
            _ => other,
        }
    }

    /// The document after the patch operations in `ops`, or the patch error
    /// where `ops` is no array or holds a malformed operation.
    pub open spec fn patch(self, ops: Val) -> Result<Val, Error> {
        match ops {
            Val::Array(a) => patch_items(self, a, a.len() as int),
            _ => Err(Error::Patch),
        }
    }
}

/// An error among the first `n` operations is the outcome for every longer prefix.
pub proof fn lemma_patch_error(d: Val, ops: Seq<Val>, n: int, m: int)
    requires
        0 <= n <= m <= ops.len(),
        patch_items(d, ops, n) is Err,
    ensures
        patch_items(d, ops, m) == patch_items(d, ops, n),
    decreases m - n,
{
    if n < m {
        lemma_patch_error(d, ops, n, m - 1);
    }
}

/// Whether `x` occurs in `b`.
#[verifier::loop_isolation(false)]
fn occurs(b: &Vec<Value>, x: &Value) -> (r: bool)
    ensures
        r == views(b@).contains(x@),
{
    let mut i: usize = 0;
    while i < b.len()
        invariant
            i <= b.len(),
            forall|j: int| 0 <= j < i ==> views(b@)[j] != x@,
        decreases b.len() - i,
    {
        if b[i].same(x) {
            assert(views(b@)[i as int] == x@);
            return true;
        }
        i += 1;
    }
    false
}

/// Copies of the elements of `a` other than `v`.
#[verifier::loop_isolation(false)]
fn remove_equal(a: &Vec<Value>, v: &Value) -> (r: Vec<Value>)
    ensures
        views(r@) == drop_equal(views(a@), v@),
{
    let ghost av = views(a@);
    let mut out: Vec<Value> = Vec::new();
    let mut i: usize = 0;
    assert(av.take(0) =~= Seq::<Val>::empty());
    assert(views(out@) =~= Seq::<Val>::empty());
    while i < a.len()
        invariant
            i <= a.len(),
            views(out@) == drop_equal(av.take(i as int), v@),
        decreases a.len() - i,
    {
        assert(av.take(i + 1).drop_last() =~= av.take(i as int));
        if !a[i].same(v) {
            let ghost before = views(out@);
            out.push(a[i].duplicate());
            assert(views(out@) =~= before.push(av[i as int]));
        }
        i += 1;
    }
    assert(av.take(a.len() as int) =~= av);
    out
}

/// Copies of the elements of `a` that do not occur in `b`.
#[verifier::loop_isolation(false)]
fn remove_found(a: &Vec<Value>, b: &Vec<Value>) -> (r: Vec<Value>)
    ensures
        views(r@) == drop_found(views(a@), views(b@)),
{
    let ghost av = views(a@);
    let mut out: Vec<Value> = Vec::new();
    let mut i: usize = 0;
    assert(av.take(0) =~= Seq::<Val>::empty());
    assert(views(out@) =~= Seq::<Val>::empty());
    while i < a.len()
        invariant
            i <= a.len(),
            views(out@) == drop_found(av.take(i as int), views(b@)),
        decreases a.len() - i,
    {
        assert(av.take(i + 1).drop_last() =~= av.take(i as int));
        if !occurs(b, &a[i]) {
            let ghost before = views(out@);
            out.push(a[i].duplicate());
            assert(views(out@) =~= before.push(av[i as int]));
        }
        i += 1;
    }
    assert(av.take(a.len() as int) =~= av);
    out
}

/// `base` with the entries of `es` merged into it, one after another.
#[verifier::loop_isolation(false)]
fn merge_into(base: Value, es: &Vec<(Vec<u8>, Value)>) -> (r: Value)
    ensures
        r@ == merge_entries(base@, entry_views(es@), es.len() as int),
    decreases es,
{
    let ghost evs = entry_views(es@);
    let ghost start = base@;
    let mut cur = base;
    let mut i: usize = 0;
    while i < es.len()
        invariant
            i <= es.len(),
            cur@ == merge_entries(start, evs, i as int),
        decreases es.len() - i,
    {
        let child = cur.field(&es[i].0).merged(&es[i].1);
        let next = cur.with_field(&es[i].0, child);
        cur = next;
        i += 1;
    }
    cur
}

/// The pieces of `s` after its first byte, split at slashes.
#[verifier::loop_isolation(false)]
fn split_pointer(s: &Vec<u8>) -> (r: Vec<Vec<u8>>)
    requires
        s.len() > 0,
    ensures
        texts(r@) == split_from(s@, 47u8, 1, 1),
{
    let mut out: Vec<Vec<u8>> = Vec::new();
    let mut piece: Vec<u8> = Vec::new();
    let mut start: usize = 1;
    let mut i: usize = 1;
    assert(texts(out@) =~= Seq::<Seq<u8>>::empty());
    assert(s@.subrange(1, 1) =~= piece@);
    while i < s.len()
        invariant
            1 <= start <= i <= s.len(),
            piece@ == s@.subrange(start as int, i as int),
            split_from(s@, 47u8, 1, 1) == texts(out@) + split_from(s@, 47u8, start as int, i as int),
        decreases s.len() - i,
    {
        let ghost before = texts(out@);
        if s[i] == 47u8 {
            out.push(piece);
            piece = Vec::new();
            assert(texts(out@) =~= before.push(s@.subrange(start as int, i as int)));
            assert(before + (seq![s@.subrange(start as int, i as int)] + split_from(
                s@,
                47u8,
                i + 1,
                i + 1,
            )) =~= texts(out@) + split_from(s@, 47u8, i + 1, i + 1));
            start = i + 1;
            assert(s@.subrange(start as int, start as int) =~= piece@);
        } else {
            piece.push(s[i]);
            assert(s@.subrange(start as int, i + 1) =~= s@.subrange(start as int, i as int).push(
                s@[i as int],
            ));
        }
        i += 1;
    }
    let ghost before = texts(out@);
    out.push(piece);
    assert(texts(out@) =~= before + seq![s@.subrange(start as int, s.len() as int)]);
    out
}

/// The document `d` after the patch operation `op`.
fn apply_operation(d: &Value, op: &Value) -> (r: Result<Value, Error>)
    ensures
        match r {
            Ok(v) => apply_op(d@, op@) == Ok::<Val, Error>(v@),
            Err(e) => apply_op(d@, op@) == Err::<Val, Error>(e),
        },
{
    match op {
        Value::Object(_) => {},
        _ => {
            return Err(Error::Patch);
        },
    }
    let key_op: Vec<u8> = vec![111u8, 112u8];
    let key_path: Vec<u8> = vec![112u8, 97u8, 116u8, 104u8];
    let key_value: Vec<u8> = vec![118u8, 97u8, 108u8, 117u8, 101u8];
    let add: Vec<u8> = vec![97u8, 100u8, 100u8];
    let remove: Vec<u8> = vec![114u8, 101u8, 109u8, 111u8, 118u8, 101u8];
    let replace: Vec<u8> = vec![114u8, 101u8, 112u8, 108u8, 97u8, 99u8, 101u8];
    proof {
        assert(key_op@ =~= name_op());
        assert(key_path@ =~= name_path());
        assert(key_value@ =~= name_value());
        assert(add@ =~= name_add());
        assert(remove@ =~= name_remove());
        assert(replace@ =~= name_replace());
    }
    let kind = op.field(&key_op);
    let target = op.field(&key_path);
    match (kind, target) {
        (Value::Strand(kind), Value::Strand(p)) => {
            if p.len() == 0 || p[0] != 47u8 {
                return Err(Error::Patch);
            }
            let path = Idiom { parts: split_pointer(&p) };
            if same_text(kind.as_slice(), remove.as_slice()) {
                let mut next = d.duplicate();
                next.del(&path);
                Ok(next)
            } else if same_text(kind.as_slice(), add.as_slice()) || same_text(
                kind.as_slice(),
                replace.as_slice(),
            ) {
                let v = op.field(&key_value);
                if v.is_void() {
                    Err(Error::Patch)
                } else {
                    let mut next = d.duplicate();
                    next.set(&path, v);
                    Ok(next)
                }
            } else {
                Err(Error::Patch)
            }
        },
        _ => Err(Error::Patch),
    }
}

impl Value {
    /// Adds `v` to what `path` leads to. On an error nothing changes.
    pub fn increment(&mut self, path: &Idiom, v: Value) -> (r: Result<(), Error>)
        ensures
            match r {
                Ok(_) => old(self)@.increment(path@, v@) == Ok::<Val, Error>(final(self)@),
                Err(e) => old(self)@.increment(path@, v@) == Err::<Val, Error>(e) && final(self)@
                    == old(self)@,
            },
    {
        match self.get(path) {
            Value::Number(a) => match v {
                Value::Number(b) => match a.plus(b) {
                    Ok(n) => {
                        self.set(path, Value::Number(n));
                        Ok(())
                    },
                    Err(e) => Err(e),
                },
                _ => Ok(()),
            },
            Value::Array(a) => {
                let ghost av = views(a@);
                proof {
                    lemma_array_view(a);
                }
                let mut items = a;
                match v {
                    Value::Array(b) => {
                        let ghost bv = views(b@);
                        proof {
                            lemma_array_view(b);
                        }
                        let mut more = b;
                        items.append(&mut more);
                        proof {
                            assert(views(items@) =~= av + bv);
                            lemma_array_view(items);
                        }
                        self.set(path, Value::Array(items));
                    },
                    other => {
                        let ghost ov = other@;
                        items.push(other);
                        proof {
                            assert(views(items@) =~= av.push(ov));
                            lemma_array_view(items);
                        }
                        self.set(path, Value::Array(items));
                    },
                }
                Ok(())
            },
            Value::Void => {
                match v {
                    Value::Number(n) => {
                        self.set(path, Value::Number(n));
                    },
                    Value::Array(b) => {
                        self.set(path, Value::Array(b));
                    },
                    other => {
                        let ghost ov = other@;
                        let mut items: Vec<Value> = Vec::new();
                        items.push(other);
                        proof {
                            assert(views(items@) =~= seq![ov]);
                            lemma_array_view(items);
                        }
                        self.set(path, Value::Array(items));
                    },
                }
                Ok(())
            },
            _ => Ok(()),
        }
    }

    /// Takes `v` from what `path` leads to. On an error nothing changes.
    pub fn decrement(&mut self, path: &Idiom, v: Value) -> (r: Result<(), Error>)
        ensures
            match r {
                Ok(_) => old(self)@.decrement(path@, v@) == Ok::<Val, Error>(final(self)@),
                Err(e) => old(self)@.decrement(path@, v@) == Err::<Val, Error>(e) && final(self)@
                    == old(self)@,
            },
    {
        match self.get(path) {
            Value::Number(a) => match v {
                Value::Number(b) => match a.minus(b) {
                    Ok(n) => {
                        self.set(path, Value::Number(n));
                        Ok(())
                    },
                    Err(e) => Err(e),
                },
                _ => Ok(()),
            },
            Value::Array(a) => {
                proof {
                    lemma_array_view(a);
                }
                let kept = match &v {
                    Value::Array(b) => {
                        proof {
                            lemma_array_view(*b);
                        }
                        remove_found(&a, b)
                    },
                    other => remove_equal(&a, other),
                };
                proof {
                    lemma_array_view(kept);
                }
                self.set(path, Value::Array(kept));
                Ok(())
            },
            Value::Void => match v {
                Value::Number(b) => match Number(0).minus(b) {
                    Ok(n) => {
                        self.set(path, Value::Number(n));
                        Ok(())
                    },
                    Err(e) => Err(e),
                },
                _ => Ok(()),
            },
            _ => Ok(()),
        }
    }

    /// A copy of the value with `other` merged into it.
    pub fn merged(&self, other: &Value) -> (r: Value)
        ensures
            r@ == self@.merge(other@),
        decreases other,
    {
        match (self, other) {
            (Value::Object(_), Value::Object(es)) => {
                proof {
                    lemma_object_view(*es);
                }
                merge_into(self.duplicate(), es)
            },
            _ => other.duplicate(),
        }
    }

    /// Merges `other` into the value.
    pub fn merge(&mut self, other: &Value)
        ensures
            final(self)@ == old(self)@.merge(other@),
    {
        let next = self.merged(other);
        *self = next;
    }

    /// Puts `other` in the place of the value.
    pub fn replace(&mut self, other: &Value)
        ensures
            final(self)@ == other@,
    {
        *self = other.duplicate();
    }

    /// Applies the patch operations in `ops`. On an error nothing changes.
    #[verifier::loop_isolation(false)]
    pub fn patch(&mut self, ops: &Value) -> (r: Result<(), Error>)
        ensures
            match r {
                Ok(_) => old(self)@.patch(ops@) == Ok::<Val, Error>(final(self)@),
                Err(e) => old(self)@.patch(ops@) == Err::<Val, Error>(e) && final(self)@ == old(
                    self,
                )@,
            },
    {
        match ops {
            Value::Array(a) => {
                let ghost av = views(a@);
                let ghost start = self@;
                proof {
                    lemma_array_view(*a);
                }
                let mut cur = self.duplicate();
                let mut i: usize = 0;
                while i < a.len()
                    invariant
                        i <= a.len(),
                        patch_items(start, av, i as int) == Ok::<Val, Error>(cur@),
                    decreases a.len() - i,
                {
                    match apply_operation(&cur, &a[i]) {
                        Ok(next) => {
                            cur = next;
                        },
                        Err(e) => {
                            proof {
                                assert(patch_items(start, av, i + 1) == Err::<Val, Error>(e));
                                lemma_patch_error(start, av, i + 1, a.len() as int);
                            }
                            return Err(e);
                        },
                    }
                    i += 1;
                }
                *self = cur;
                Ok(())
            },
            _ => Err(Error::Patch),
        }
    }
}

} // verus!
