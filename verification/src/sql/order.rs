use crate::sql::text::texts;
use crate::sql::value::{entry_views, lemma_array_view, lemma_object_view, views, Entry, Val, Value};
use vstd::prelude::*;

verus! {

/// The outcome of comparing two things.
#[derive(Clone, Copy, Debug, PartialEq, Eq, Structural)]
pub enum Compared {
    Less,
    Equal,
    Greater,
}

impl Compared {
    /// The outcome with the two sides exchanged.
    pub open spec fn flip(self) -> Compared {
        match self {
            Compared::Less => Compared::Greater,
            Compared::Equal => Compared::Equal,
            Compared::Greater => Compared::Less,
        }
    }

    /// This outcome, or `next` where this one is a tie.
    pub open spec fn or(self, next: Compared) -> Compared {
        if self is Equal {
            next
        } else {
            self
        }
    }

    /// The outcome with the two sides exchanged.
    pub fn reversed(self) -> (r: Compared)
        ensures
            r == self.flip(),
    {
        match self {
            Compared::Less => Compared::Greater,
            Compared::Equal => Compared::Equal,
            Compared::Greater => Compared::Less,
        }
    }

    /// This outcome, or `next` where this one is a tie.
    pub fn or_else(self, next: Compared) -> (r: Compared)
        ensures
            r == self.or(next),
    {
        match self {
            Compared::Equal => next,
            _ => self,
        }
    }
}

/// The order of two integers.
pub open spec fn compare_int(a: int, b: int) -> Compared {
    if a < b {
        Compared::Less
    } else if a == b {
        Compared::Equal
    } else {
        Compared::Greater
    }
}

/// The order of two byte strings from index `i` on: byte by byte, a proper
/// prefix first.
pub open spec fn compare_text(a: Seq<u8>, b: Seq<u8>, i: int) -> Compared
    decreases a.len() - i,
{
    if i < 0 {
        Compared::Equal
    } else if i >= a.len() {
        if i >= b.len() {
            Compared::Equal
        } else {
            Compared::Less
        }
    } else if i >= b.len() {
        Compared::Greater
    } else if a[i] != b[i] {
        compare_int(a[i] as int, b[i] as int)
    } else {
        compare_text(a, b, i + 1)
    }
}

/// The order of two lists of byte strings from index `i` on.
pub open spec fn compare_texts(a: Seq<Seq<u8>>, b: Seq<Seq<u8>>, i: int) -> Compared
    decreases a.len() - i,
{
    if i < 0 {
        Compared::Equal
    } else if i >= a.len() {
        if i >= b.len() {
            Compared::Equal
        } else {
            Compared::Less
        }
    } else if i >= b.len() {
        Compared::Greater
    } else if !(compare_text(a[i], b[i], 0) is Equal) {
        compare_text(a[i], b[i], 0)
    } else {
        compare_texts(a, b, i + 1)
    }
}

/// The order of two lists of values from index `i` on: element by element, a
/// proper prefix first.
pub open spec fn compare_items(a: Seq<Val>, b: Seq<Val>, i: int) -> Compared
    decreases a, a.len() - i,
{
    if i < 0 {
        Compared::Equal
    } else if i >= a.len() {
        if i >= b.len() {
            Compared::Equal
        } else {
            Compared::Less
        }
    } else if i >= b.len() {
        Compared::Greater
    } else if !(a[i].compare(b[i]) is Equal) {
        a[i].compare(b[i])
    } else {
        compare_items(a, b, i + 1)
    }
}

/// The order of two lists of entries from index `i` on: entry by entry, by key
/// and then by content, a proper prefix first.
pub open spec fn compare_entries(a: Seq<Entry>, b: Seq<Entry>, i: int) -> Compared
    decreases a, a.len() - i,
{
    if i < 0 {
        Compared::Equal
    } else if i >= a.len() {
        if i >= b.len() {
            Compared::Equal
        } else {
            Compared::Less
        }
    } else if i >= b.len() {
        Compared::Greater
    } else if !(compare_text(a[i].key, b[i].key, 0) is Equal) {
        compare_text(a[i].key, b[i].key, 0)
    } else if !(a[i].value.compare(b[i].value) is Equal) {
        a[i].value.compare(b[i].value)
    } else {
        compare_entries(a, b, i + 1)
    }
}

impl Val {
    /// The place of the value's kind in the order of kinds. `Void` comes first.
    pub open spec fn rank(self) -> int {
        match self {
            Val::Void => 0,
            Val::Null => 1,
            Val::Bool(_) => 2,
            Val::Number(_) => 3,
            Val::Strand(_) => 4,
            Val::Array(_) => 5,
            Val::Object(_) => 6,
            Val::Table(_) => 7,
            Val::Thing(_, _) => 8,
            Val::Model(_, _, _) => 9,
            Val::Param(_) => 10,
            Val::Idiom(_) => 11,
            Val::Subquery(_) => 12,
            Val::Expression(_, _, _) => 13,
            Val::Future(_) => 14,
        }
    }

    /// The order of two values: by kind first, `Void` before everything else,
    /// then by content.
    pub open spec fn compare(self, other: Val) -> Compared
        decreases self,
    {
        if self.rank() != other.rank() {
            compare_int(self.rank(), other.rank())
        } else {
            match (self, other) {
                (Val::Bool(a), Val::Bool(b)) => compare_int(
                    if a { 1 } else { 0 },
                    if b { 1 } else { 0 },
                ),
                (Val::Number(a), Val::Number(b)) => compare_int(a, b),
                (Val::Strand(a), Val::Strand(b)) => compare_text(a, b, 0),
                (Val::Array(a), Val::Array(b)) => compare_items(a, b, 0),
                (Val::Object(a), Val::Object(b)) => compare_entries(a, b, 0),
                (Val::Table(a), Val::Table(b)) => compare_text(a, b, 0),
                (Val::Thing(at, ai), Val::Thing(bt, bi)) => compare_text(at, bt, 0).or(
                    compare_text(ai, bi, 0),
                ),
                (Val::Model(at, af, au), Val::Model(bt, bf, bu)) => compare_text(at, bt, 0).or(
                    compare_int(af, bf),
                ).or(compare_int(au, bu)),
                (Val::Param(a), Val::Param(b)) => compare_text(a, b, 0),
                (Val::Idiom(a), Val::Idiom(b)) => compare_texts(a, b, 0),
                (Val::Subquery(a), Val::Subquery(b)) => a.compare(*b),
                (Val::Expression(al, ao, ar), Val::Expression(bl, bo, br)) => al.compare(*bl).or(
                    compare_int(ao.rank(), bo.rank()),
                ).or(ar.compare(*br)),
                (Val::Future(a), Val::Future(b)) => a.compare(*b),
                _ => Compared::Equal,
            }
        }
    }

    /// `self` does not come after `other`.
    pub open spec fn le(self, other: Val) -> bool {
        !(self.compare(other) is Greater)
    }
}

/// What two comparisons in a row give, where neither is `Greater`.
pub open spec fn chain(x: Compared, y: Compared) -> Compared {
    if x is Less || y is Less {
        Compared::Less
    } else {
        Compared::Equal
    }
}

/// Comparing two byte strings the other way round gives the opposite outcome.
pub proof fn lemma_text_flip(a: Seq<u8>, b: Seq<u8>, i: int)
    ensures
        compare_text(b, a, i) == compare_text(a, b, i).flip(),
    decreases a.len() - i,
{
    if 0 <= i < a.len() && i < b.len() && a[i] == b[i] {
        lemma_text_flip(a, b, i + 1);
    }
}

/// The order of byte strings is transitive.
pub proof fn lemma_text_chain(a: Seq<u8>, b: Seq<u8>, c: Seq<u8>, i: int)
    requires
        !(compare_text(a, b, i) is Greater),
        !(compare_text(b, c, i) is Greater),
    ensures
        compare_text(a, c, i) == chain(compare_text(a, b, i), compare_text(b, c, i)),
    decreases a.len() - i,
{
    if 0 <= i < a.len() && i < b.len() && i < c.len() && a[i] == b[i] && b[i] == c[i] {
        lemma_text_chain(a, b, c, i + 1);
    }
}

/// Comparing two lists of byte strings the other way round gives the opposite
/// outcome.
pub proof fn lemma_texts_flip(a: Seq<Seq<u8>>, b: Seq<Seq<u8>>, i: int)
    ensures
        compare_texts(b, a, i) == compare_texts(a, b, i).flip(),
    decreases a.len() - i,
{
    if 0 <= i < a.len() && i < b.len() {
        lemma_text_flip(a[i], b[i], 0);
        if compare_text(a[i], b[i], 0) is Equal {
            lemma_texts_flip(a, b, i + 1);
        }
    }
}

/// The order of lists of byte strings is transitive.
pub proof fn lemma_texts_chain(a: Seq<Seq<u8>>, b: Seq<Seq<u8>>, c: Seq<Seq<u8>>, i: int)
    requires
        !(compare_texts(a, b, i) is Greater),
        !(compare_texts(b, c, i) is Greater),
    ensures
        compare_texts(a, c, i) == chain(compare_texts(a, b, i), compare_texts(b, c, i)),
    decreases a.len() - i,
{
    if 0 <= i < a.len() && i < b.len() && i < c.len() {
        lemma_text_chain(a[i], b[i], c[i], 0);
        if compare_text(a[i], b[i], 0) is Equal && compare_text(b[i], c[i], 0) is Equal {
            lemma_texts_chain(a, b, c, i + 1);
        }
    }
}

/// Comparing two lists of values the other way round gives the opposite
/// outcome.
pub proof fn lemma_items_flip(a: Seq<Val>, b: Seq<Val>, i: int)
    ensures
        compare_items(b, a, i) == compare_items(a, b, i).flip(),
    decreases a, a.len() - i,
{
    if 0 <= i < a.len() && i < b.len() {
        lemma_flip(a[i], b[i]);
        if a[i].compare(b[i]) is Equal {
            lemma_items_flip(a, b, i + 1);
        }
    }
}

/// Comparing two lists of entries the other way round gives the opposite
/// outcome.
pub proof fn lemma_entries_flip(a: Seq<Entry>, b: Seq<Entry>, i: int)
    ensures
        compare_entries(b, a, i) == compare_entries(a, b, i).flip(),
    decreases a, a.len() - i,
{
    if 0 <= i < a.len() && i < b.len() {
        lemma_text_flip(a[i].key, b[i].key, 0);
        lemma_flip(a[i].value, b[i].value);
        if compare_text(a[i].key, b[i].key, 0) is Equal && a[i].value.compare(b[i].value) is Equal {
            lemma_entries_flip(a, b, i + 1);
        }
    }
}

/// Comparing the other way round gives the opposite outcome.
pub proof fn lemma_flip(a: Val, b: Val)
    ensures
        b.compare(a) == a.compare(b).flip(),
    decreases a,
{
    if a.rank() == b.rank() {
        match (a, b) {
            (Val::Strand(x), Val::Strand(y)) => lemma_text_flip(x, y, 0),
            (Val::Array(x), Val::Array(y)) => lemma_items_flip(x, y, 0),
            (Val::Object(x), Val::Object(y)) => lemma_entries_flip(x, y, 0),
            (Val::Table(x), Val::Table(y)) => lemma_text_flip(x, y, 0),
            (Val::Thing(at, ai), Val::Thing(bt, bi)) => {
                lemma_text_flip(at, bt, 0);
                lemma_text_flip(ai, bi, 0);
            },
            (Val::Model(at, _, _), Val::Model(bt, _, _)) => lemma_text_flip(at, bt, 0),
            (Val::Param(x), Val::Param(y)) => lemma_text_flip(x, y, 0),
            (Val::Idiom(x), Val::Idiom(y)) => lemma_texts_flip(x, y, 0),
            (Val::Subquery(x), Val::Subquery(y)) => lemma_flip(*x, *y),
            (Val::Expression(al, _, ar), Val::Expression(bl, _, br)) => {
                lemma_flip(*al, *bl);
                lemma_flip(*ar, *br);
            },
            (Val::Future(x), Val::Future(y)) => lemma_flip(*x, *y),
            _ => {},
        }
    }
}

/// The order of lists of values is transitive.
pub proof fn lemma_items_chain(a: Seq<Val>, b: Seq<Val>, c: Seq<Val>, i: int)
    requires
        !(compare_items(a, b, i) is Greater),
        !(compare_items(b, c, i) is Greater),
    ensures
        compare_items(a, c, i) == chain(compare_items(a, b, i), compare_items(b, c, i)),
    decreases a, a.len() - i,
{
    if 0 <= i < a.len() && i < b.len() && i < c.len() {
        lemma_chain(a[i], b[i], c[i]);
        if a[i].compare(b[i]) is Equal && b[i].compare(c[i]) is Equal {
            lemma_items_chain(a, b, c, i + 1);
        }
    }
}

/// The order of lists of entries is transitive.
pub proof fn lemma_entries_chain(a: Seq<Entry>, b: Seq<Entry>, c: Seq<Entry>, i: int)
    requires
        !(compare_entries(a, b, i) is Greater),
        !(compare_entries(b, c, i) is Greater),
    ensures
        compare_entries(a, c, i) == chain(compare_entries(a, b, i), compare_entries(b, c, i)),
    decreases a, a.len() - i,
{
    if 0 <= i < a.len() && i < b.len() && i < c.len() {
        lemma_text_chain(a[i].key, b[i].key, c[i].key, 0);
        if compare_text(a[i].key, b[i].key, 0) is Equal && compare_text(b[i].key, c[i].key, 0)
            is Equal {
            lemma_chain(a[i].value, b[i].value, c[i].value);
            if a[i].value.compare(b[i].value) is Equal && b[i].value.compare(c[i].value)
                is Equal {
                lemma_entries_chain(a, b, c, i + 1);
            }
        }
    }
}

/// The order is transitive: where `a` does not come after `b`, nor `b` after
/// `c`, `a` comes before `c` if either pair is strictly ordered, and ties with
/// it otherwise.
pub proof fn lemma_chain(a: Val, b: Val, c: Val)
    requires
        a.le(b),
        b.le(c),
    ensures
        a.compare(c) == chain(a.compare(b), b.compare(c)),
    decreases a,
{
    if a.rank() == b.rank() && b.rank() == c.rank() {
        match (a, b, c) {
            (Val::Strand(x), Val::Strand(y), Val::Strand(z)) => lemma_text_chain(x, y, z, 0),
            (Val::Array(x), Val::Array(y), Val::Array(z)) => lemma_items_chain(x, y, z, 0),
            (Val::Object(x), Val::Object(y), Val::Object(z)) => lemma_entries_chain(x, y, z, 0),
            (Val::Table(x), Val::Table(y), Val::Table(z)) => lemma_text_chain(x, y, z, 0),
            (Val::Thing(at, ai), Val::Thing(bt, bi), Val::Thing(ct, ci)) => {
                lemma_text_chain(at, bt, ct, 0);
                if compare_text(at, bt, 0) is Equal && compare_text(bt, ct, 0) is Equal {
                    lemma_text_chain(ai, bi, ci, 0);
                }
            },
            (Val::Model(at, _, _), Val::Model(bt, _, _), Val::Model(ct, _, _)) => {
                lemma_text_chain(at, bt, ct, 0);
            },
            (Val::Param(x), Val::Param(y), Val::Param(z)) => lemma_text_chain(x, y, z, 0),
            (Val::Idiom(x), Val::Idiom(y), Val::Idiom(z)) => lemma_texts_chain(x, y, z, 0),
            (Val::Subquery(x), Val::Subquery(y), Val::Subquery(z)) => lemma_chain(*x, *y, *z),
            (
                Val::Expression(al, _, ar),
                Val::Expression(bl, _, br),
                Val::Expression(cl, _, cr),
            ) => {
                lemma_chain(*al, *bl, *cl);
                if al.compare(*bl) is Equal && bl.compare(*cl) is Equal {
                    if ar.le(*br) && br.le(*cr) {
                        lemma_chain(*ar, *br, *cr);
                    }
                }
            },
            (Val::Future(x), Val::Future(y), Val::Future(z)) => lemma_chain(*x, *y, *z),
            _ => {},
        }
    }
}

/// Every value ties with itself.
pub proof fn lemma_reflexive(a: Val)
    ensures
        a.compare(a) is Equal,
{
    lemma_flip(a, a);
}

/// `Void` comes before every other value, and only `Void` ties with it.
pub proof fn lemma_void_first(a: Val)
    ensures
        Val::Void.le(a),
        a.le(Val::Void) <==> a is Void,
{
}

/// The order of two byte strings.
#[verifier::loop_isolation(false)]
pub fn order_text(a: &[u8], b: &[u8]) -> (r: Compared)
    ensures
        r == compare_text(a@, b@, 0),
{
    let mut i: usize = 0;
    while i < a.len() && i < b.len()
        invariant
            i <= a.len(),
            i <= b.len(),
            compare_text(a@, b@, 0) == compare_text(a@, b@, i as int),
        decreases a.len() - i,
    {
        if a[i] < b[i] {
            return Compared::Less;
        }
        if a[i] > b[i] {
            return Compared::Greater;
        }
        i += 1;
    }
    if i < b.len() {
        Compared::Less
    } else if i < a.len() {
        Compared::Greater
    } else {
        Compared::Equal
    }
}

/// The order of two lists of byte strings.
#[verifier::loop_isolation(false)]
pub fn order_texts(a: &Vec<Vec<u8>>, b: &Vec<Vec<u8>>) -> (r: Compared)
    ensures
        r == compare_texts(texts(a@), texts(b@), 0),
{
    let ghost x = texts(a@);
    let ghost y = texts(b@);
    let mut i: usize = 0;
    while i < a.len() && i < b.len()
        invariant
            i <= a.len(),
            i <= b.len(),
            compare_texts(x, y, 0) == compare_texts(x, y, i as int),
        decreases a.len() - i,
    {
        let c = order_text(a[i].as_slice(), b[i].as_slice());
        match c {
            Compared::Equal => {},
            _ => {
                return c;
            },
        }
        i += 1;
    }
    if i < b.len() {
        Compared::Less
    } else if i < a.len() {
        Compared::Greater
    } else {
        Compared::Equal
    }
}

/// The order of two machine integers.
pub fn order_int(a: i128, b: i128) -> (r: Compared)
    ensures
        r == compare_int(a as int, b as int),
{
    if a < b {
        Compared::Less
    } else if a == b {
        Compared::Equal
    } else {
        Compared::Greater
    }
}

/// The order of two lists of values.
#[verifier::loop_isolation(false)]
pub fn order_items(a: &Vec<Value>, b: &Vec<Value>) -> (r: Compared)
    ensures
        r == compare_items(views(a@), views(b@), 0),
    decreases a,
{
    let ghost x = views(a@);
    let ghost y = views(b@);
    let mut i: usize = 0;
    while i < a.len() && i < b.len()
        invariant
            i <= a.len(),
            i <= b.len(),
            compare_items(x, y, 0) == compare_items(x, y, i as int),
        decreases a.len() - i,
    {
        let c = a[i].compare(&b[i]);
        match c {
            Compared::Equal => {},
            _ => {
                return c;
            },
        }
        i += 1;
    }
    if i < b.len() {
        Compared::Less
    } else if i < a.len() {
        Compared::Greater
    } else {
        Compared::Equal
    }
}

/// The order of the entries of two objects.
#[verifier::loop_isolation(false)]
pub fn order_entries(a: &Vec<(Vec<u8>, Value)>, b: &Vec<(Vec<u8>, Value)>) -> (r: Compared)
    ensures
        r == compare_entries(entry_views(a@), entry_views(b@), 0),
    decreases a,
{
    let ghost x = entry_views(a@);
    let ghost y = entry_views(b@);
    let mut i: usize = 0;
    while i < a.len() && i < b.len()
        invariant
            i <= a.len(),
            i <= b.len(),
            compare_entries(x, y, 0) == compare_entries(x, y, i as int),
        decreases a.len() - i,
    {
        let k = order_text(a[i].0.as_slice(), b[i].0.as_slice());
        match k {
            Compared::Equal => {},
            _ => {
                return k;
            },
        }
        let c = a[i].1.compare(&b[i].1);
        match c {
            Compared::Equal => {},
            _ => {
                return c;
            },
        }
        i += 1;
    }
    if i < b.len() {
        Compared::Less
    } else if i < a.len() {
        Compared::Greater
    } else {
        Compared::Equal
    }
}

impl Value {
    /// The place of the value's kind in the order of kinds.
    pub fn kind(&self) -> (r: u8)
        ensures
            r == self@.rank(),
    {
        match self {
            Value::Void => 0,
            Value::Null => 1,
            Value::Bool(_) => 2,
            Value::Number(_) => 3,
            Value::Strand(_) => 4,
            Value::Array(_) => 5,
            Value::Object(_) => 6,
            Value::Table(_) => 7,
            Value::Thing(_) => 8,
            Value::Model(_) => 9,
            Value::Param(_) => 10,
            Value::Idiom(_) => 11,
            Value::Subquery(_) => 12,
            Value::Expression(_, _, _) => 13,
            Value::Future(_) => 14,
        }
    }

    /// The order of two values: by kind first, `Void` before everything else,
    /// then by content.
    pub fn compare(&self, other: &Value) -> (r: Compared)
        ensures
            r == self@.compare(other@),
        decreases self,
    {
        let ka = self.kind();
        let kb = other.kind();
        if ka != kb {
            return order_int(ka as i128, kb as i128);
        }
        match (self, other) {
            (Value::Bool(a), Value::Bool(b)) => order_int(
                if *a { 1 } else { 0 },
                if *b { 1 } else { 0 },
            ),
            (Value::Number(a), Value::Number(b)) => order_int(a.0 as i128, b.0 as i128),
            (Value::Strand(a), Value::Strand(b)) => order_text(a.as_slice(), b.as_slice()),
            (Value::Array(a), Value::Array(b)) => {
                proof {
                    lemma_array_view(*a);
                    lemma_array_view(*b);
                }
                order_items(a, b)
            },
            (Value::Object(a), Value::Object(b)) => {
                proof {
                    lemma_object_view(*a);
                    lemma_object_view(*b);
                }
                order_entries(a, b)
            },
            (Value::Table(a), Value::Table(b)) => order_text(a.as_slice(), b.as_slice()),
            (Value::Thing(a), Value::Thing(b)) => order_text(
                a.tb.as_slice(),
                b.tb.as_slice(),
            ).or_else(order_text(a.id.as_slice(), b.id.as_slice())),
            (Value::Model(a), Value::Model(b)) => order_text(
                a.tb.as_slice(),
                b.tb.as_slice(),
            ).or_else(order_int(a.from as i128, b.from as i128)).or_else(
                order_int(a.to as i128, b.to as i128),
            ),
            (Value::Param(a), Value::Param(b)) => order_text(a.as_slice(), b.as_slice()),
            (Value::Idiom(a), Value::Idiom(b)) => order_texts(&a.parts, &b.parts),
            (Value::Subquery(a), Value::Subquery(b)) => a.compare(b),
            (Value::Expression(al, ao, ar), Value::Expression(bl, bo, br)) => al.compare(
                bl,
            ).or_else(order_int(ao.index() as i128, bo.index() as i128)).or_else(ar.compare(br)),
            (Value::Future(a), Value::Future(b)) => a.compare(b),
            _ => Compared::Equal,
        }
    }
}

} // verus!
