use crate::sql::clause::{paths, sort_keys, Field, Order, SortKey};
use crate::sql::grammar::{columns, Column};
use crate::sql::operator::Operator;
use crate::sql::text::{decimal, push_decimal};
use crate::sql::value::{
    entry_views, lemma_array_view, lemma_object_view, views, Entry, Idiom, Val, Value,
};
use crate::sql::words::{
    text_and, text_false, text_future, text_null, text_or, text_true, text_void, word_and,
    word_false, word_future, word_null, word_or, word_true, word_void,
};
use vstd::prelude::*;

verus! {

/// `width` digits of `f`, the lowest last, with zeros in front where `f` has
/// fewer.
pub open spec fn padded(f: int, width: int) -> Seq<u8>
    decreases width,
{
    if width <= 0 {
        Seq::empty()
    } else {
        padded(f / 10, width - 1).push((48 + f % 10) as u8)
    }
}

/// `width` digits of `f` without the zeros at their end; at least one digit.
pub open spec fn trimmed(f: int, width: int) -> Seq<u8>
    decreases width,
{
    if width > 1 && f % 10 == 0 {
        trimmed(f / 10, width - 1)
    } else {
        padded(f, width)
    }
}

/// How a number is written: a minus sign where it is negative, the digits of
/// its whole part, and where it has a fraction a point and the digits of the
/// fraction, without zeros at their end.
pub open spec fn show_number(n: int) -> Seq<u8> {
    let m = if n < 0 {
        -n
    } else {
        n
    };
    let sign = if n < 0 {
        seq![45u8]
    } else {
        Seq::empty()
    };
    let fraction = if m % 1000000 == 0 {
        Seq::empty()
    } else {
        seq![46u8] + trimmed(m % 1000000, 6)
    };
    sign + decimal(m / 1000000) + fraction
}

/// How an operator is written.
pub open spec fn show_operator(op: Operator) -> Seq<u8> {
    match op {
        Operator::Equal => seq![61u8],
        Operator::Inc => seq![43u8, 61u8],
        Operator::Dec => seq![45u8, 61u8],
        Operator::NotEqual => seq![33u8, 61u8],
        Operator::LessThan => seq![60u8],
        Operator::LessThanOrEqual => seq![60u8, 61u8],
        Operator::MoreThan => seq![62u8],
        Operator::MoreThanOrEqual => seq![62u8, 61u8],
        Operator::Add => seq![43u8],
        Operator::Sub => seq![45u8],
        Operator::Mul => seq![42u8],
        Operator::Div => seq![47u8],
        Operator::And => word_and(),
        Operator::Or => word_or(),
    }
}

/// How the first `n` names of a path are written: with points between them.
pub open spec fn show_path(p: Seq<Seq<u8>>, n: int) -> Seq<u8>
    decreases n,
{
    if n <= 0 || n > p.len() {
        Seq::empty()
    } else if n == 1 {
        p[0]
    } else {
        show_path(p, n - 1) + seq![46u8] + p[n - 1]
    }
}

/// How the first `n` values of a list are written: with a comma and a space
/// between them.
pub open spec fn show_items(a: Seq<Val>, n: int) -> Seq<u8>
    decreases a, n,
{
    if n <= 0 || n > a.len() {
        Seq::empty()
    } else if n == 1 {
        show_value(a[0])
    } else {
        show_items(a, n - 1) + seq![44u8, 32u8] + show_value(a[n - 1])
    }
}

/// How one entry of an object is written: `key: value`.
pub open spec fn show_entry(e: Entry) -> Seq<u8>
    decreases e,
{
    e.key + seq![58u8, 32u8] + show_value(e.value)
}

/// How the first `n` entries of an object are written.
pub open spec fn show_entries(a: Seq<Entry>, n: int) -> Seq<u8>
    decreases a, n,
{
    if n <= 0 || n > a.len() {
        Seq::empty()
    } else if n == 1 {
        show_entry(a[0])
    } else {
        show_entries(a, n - 1) + seq![44u8, 32u8] + show_entry(a[n - 1])
    }
}

/// How a value is written.
pub open spec fn show_value(v: Val) -> Seq<u8>
    decreases v,
{
    match v {
        Val::Void => word_void(),
        Val::Null => word_null(),
        Val::Bool(b) => if b {
            word_true()
        } else {
            word_false()
        },
        Val::Number(n) => show_number(n),
        Val::Strand(s) => seq![34u8] + s + seq![34u8],
        Val::Array(a) => seq![91u8] + show_items(a, a.len() as int) + seq![93u8],
        Val::Object(o) => if o.len() == 0 {
            seq![123u8, 125u8]
        } else {
            seq![123u8, 32u8] + show_entries(o, o.len() as int) + seq![32u8, 125u8]
        },
        Val::Table(t) => t,
        Val::Thing(tb, id) => tb + seq![58u8] + id,
        Val::Model(tb, from, to) => seq![124u8] + tb + seq![58u8] + decimal(from) + seq![46u8, 46u8]
            + decimal(to) + seq![124u8],
        Val::Param(p) => seq![36u8] + p,
        Val::Idiom(p) => show_path(p, p.len() as int),
        Val::Subquery(v) => seq![40u8] + show_value(*v) + seq![41u8],
        Val::Expression(l, op, r) => show_value(*l) + seq![32u8] + show_operator(op) + seq![32u8]
            + show_value(*r),
        Val::Future(v) => word_future() + seq![32u8, 123u8, 32u8] + show_value(*v) + seq![
            32u8,
            125u8,
        ],
    }
}

/// How one field is written.
pub open spec fn show_column(c: Column) -> Seq<u8> {
    match c {
        Column::All => seq![42u8],
        Column::Alone(v) => show_value(v),
        Column::Alias(v, p) => show_value(v) + seq![32u8, 65u8, 83u8, 32u8] + show_path(
            p,
            p.len() as int,
        ),
    }
}

/// How the first `n` fields are written.
pub open spec fn show_columns(a: Seq<Column>, n: int) -> Seq<u8>
    decreases n,
{
    if n <= 0 || n > a.len() {
        Seq::empty()
    } else if n == 1 {
        show_column(a[0])
    } else {
        show_columns(a, n - 1) + seq![44u8, 32u8] + show_column(a[n - 1])
    }
}

/// How the first `n` paths of a list are written.
pub open spec fn show_paths(a: Seq<Seq<Seq<u8>>>, n: int) -> Seq<u8>
    decreases n,
{
    if n <= 0 || n > a.len() {
        Seq::empty()
    } else if n == 1 {
        show_path(a[0], a[0].len() as int)
    } else {
        show_paths(a, n - 1) + seq![44u8, 32u8] + show_path(a[n - 1], a[n - 1].len() as int)
    }
}

/// How one sort key is written: the path, and ` DESC` where it is descending.
pub open spec fn show_sort_key(k: SortKey) -> Seq<u8> {
    show_path(k.path, k.path.len() as int) + if k.ascending {
        Seq::empty()
    } else {
        seq![32u8, 68u8, 69u8, 83u8, 67u8]
    }
}

/// How the first `n` sort keys are written.
pub open spec fn show_sort_keys(a: Seq<SortKey>, n: int) -> Seq<u8>
    decreases n,
{
    if n <= 0 || n > a.len() {
        Seq::empty()
    } else if n == 1 {
        show_sort_key(a[0])
    } else {
        show_sort_keys(a, n - 1) + seq![44u8, 32u8] + show_sort_key(a[n - 1])
    }
}

/// Adds the bytes of `text` to `out`.
#[verifier::loop_isolation(false)]
pub fn push_all(out: &mut Vec<u8>, text: &Vec<u8>)
    ensures
        final(out)@ == old(out)@ + text@,
{
    let mut i: usize = 0;
    assert(out@ =~= old(out)@ + text@.take(0));
    while i < text.len()
        invariant
            i <= text.len(),
            out@ == old(out)@ + text@.take(i as int),
        decreases text.len() - i,
    {
        out.push(text[i]);
        assert(out@ =~= old(out)@ + text@.take(i + 1));
        i += 1;
    }
    assert(text@.take(text.len() as int) =~= text@);
}

/// Adds a comma and a space to `out`.
fn push_comma(out: &mut Vec<u8>)
    ensures
        final(out)@ == old(out)@ + seq![44u8, 32u8],
{
    out.push(44);
    out.push(32);
    assert(out@ =~= old(out)@ + seq![44u8, 32u8]);
}

/// Adds `width` digits of `f` to `out`.
fn write_padded(out: &mut Vec<u8>, f: u64, width: u8)
    ensures
        final(out)@ == old(out)@ + padded(f as int, width as int),
    decreases width,
{
    if width == 0 {
        assert(out@ =~= old(out)@ + padded(f as int, 0));
    } else {
        write_padded(out, f / 10, width - 1);
        out.push(48 + (f % 10) as u8);
        assert(out@ =~= old(out)@ + padded(f as int, width as int));
    }
}

/// Adds `width` digits of `f` without the zeros at their end to `out`.
fn write_trimmed(out: &mut Vec<u8>, f: u64, width: u8)
    ensures
        final(out)@ == old(out)@ + trimmed(f as int, width as int),
    decreases width,
{
    if width > 1 && f % 10 == 0 {
        write_trimmed(out, f / 10, width - 1);
    } else {
        write_padded(out, f, width);
    }
}

/// Adds the number of `n` millionths to `out`.
pub fn write_number(out: &mut Vec<u8>, n: i64)
    ensures
        final(out)@ == old(out)@ + show_number(n as int),
{
    let m: u64 = if n < 0 {
        (-(n as i128)) as u64
    } else {
        n as u64
    };
    let ghost start = out@;
    if n < 0 {
        out.push(45);
    }
    push_decimal(out, m / 1000000);
    if m % 1000000 != 0 {
        out.push(46);
        write_trimmed(out, m % 1000000, 6);
    }
    assert(out@ =~= start + show_number(n as int));
}

/// Adds the operator `op` to `out`.
pub fn write_operator(out: &mut Vec<u8>, op: Operator)
    ensures
        final(out)@ == old(out)@ + show_operator(op),
{
    let ghost start = out@;
    match op {
        Operator::Equal => {
            out.push(61);
        },
        Operator::Inc => {
            out.push(43);
            out.push(61);
        },
        Operator::Dec => {
            out.push(45);
            out.push(61);
        },
        Operator::NotEqual => {
            out.push(33);
            out.push(61);
        },
        Operator::LessThan => {
            out.push(60);
        },
        Operator::LessThanOrEqual => {
            out.push(60);
            out.push(61);
        },
        Operator::MoreThan => {
            out.push(62);
        },
        Operator::MoreThanOrEqual => {
            out.push(62);
            out.push(61);
        },
        Operator::Add => {
            out.push(43);
        },
        Operator::Sub => {
            out.push(45);
        },
        Operator::Mul => {
            out.push(42);
        },
        Operator::Div => {
            out.push(47);
        },
        Operator::And => {
            push_all(out, &text_and());
        },
        Operator::Or => {
            push_all(out, &text_or());
        },
    }
    assert(out@ =~= start + show_operator(op));
}

/// Adds the path `p` to `out`.
#[verifier::loop_isolation(false)]
pub fn write_path(out: &mut Vec<u8>, p: &Idiom)
    ensures
        final(out)@ == old(out)@ + show_path(p@, p@.len() as int),
{
    let ghost start = out@;
    let ghost pv = p@;
    let mut n: usize = 0;
    assert(out@ =~= start + show_path(pv, 0));
    while n < p.parts.len()
        invariant
            n <= p.parts.len(),
            out@ == start + show_path(pv, n as int),
        decreases p.parts.len() - n,
    {
        if n > 0 {
            out.push(46);
        }
        push_all(out, &p.parts[n]);
        assert(out@ =~= start + show_path(pv, n + 1));
        n += 1;
    }
}

/// Adds the values of `a` to `out`, with commas between them.
#[verifier::loop_isolation(false)]
fn write_items(out: &mut Vec<u8>, a: &Vec<Value>)
    ensures
        final(out)@ == old(out)@ + show_items(views(a@), a.len() as int),
    decreases a,
{
    let ghost start = out@;
    let ghost av = views(a@);
    let mut n: usize = 0;
    assert(out@ =~= start + show_items(av, 0));
    while n < a.len()
        invariant
            n <= a.len(),
            out@ == start + show_items(av, n as int),
        decreases a.len() - n,
    {
        if n > 0 {
            push_comma(out);
        }
        write_value(out, &a[n]);
        assert(out@ =~= start + show_items(av, n + 1));
        n += 1;
    }
}

/// Adds the entries of `a` to `out`, with commas between them.
#[verifier::loop_isolation(false)]
fn write_entries(out: &mut Vec<u8>, a: &Vec<(Vec<u8>, Value)>)
    ensures
        final(out)@ == old(out)@ + show_entries(entry_views(a@), a.len() as int),
    decreases a,
{
    let ghost start = out@;
    let ghost av = entry_views(a@);
    let mut n: usize = 0;
    assert(out@ =~= start + show_entries(av, 0));
    while n < a.len()
        invariant
            n <= a.len(),
            out@ == start + show_entries(av, n as int),
        decreases a.len() - n,
    {
        if n > 0 {
            push_comma(out);
        }
        let ghost before = out@;
        push_all(out, &a[n].0);
        out.push(58);
        out.push(32);
        write_value(out, &a[n].1);
        assert(out@ =~= before + show_entry(av[n as int]));
        assert(out@ =~= start + show_entries(av, n + 1));
        n += 1;
    }
}

/// Adds the value `v` to `out`.
pub fn write_value(out: &mut Vec<u8>, v: &Value)
    ensures
        final(out)@ == old(out)@ + show_value(v@),
    decreases v,
{
    let ghost start = out@;
    match v {
        Value::Void => {
            push_all(out, &text_void());
        },
        Value::Null => {
            push_all(out, &text_null());
        },
        Value::Bool(b) => {
            if *b {
                push_all(out, &text_true());
            } else {
                push_all(out, &text_false());
            }
        },
        Value::Number(n) => {
            write_number(out, n.0);
        },
        Value::Strand(s) => {
            out.push(34);
            push_all(out, s);
            out.push(34);
        },
        Value::Array(a) => {
            proof {
                lemma_array_view(*a);
            }
            out.push(91);
            write_items(out, a);
            out.push(93);
        },
        Value::Object(o) => {
            proof {
                lemma_object_view(*o);
            }
            if o.len() == 0 {
                out.push(123);
                out.push(125);
            } else {
                out.push(123);
                out.push(32);
                write_entries(out, o);
                out.push(32);
                out.push(125);
            }
        },
        Value::Table(t) => {
            push_all(out, t);
        },
        Value::Thing(t) => {
            push_all(out, &t.tb);
            out.push(58);
            push_all(out, &t.id);
        },
        Value::Model(m) => {
            out.push(124);
            push_all(out, &m.tb);
            out.push(58);
            push_decimal(out, m.from);
            out.push(46);
            out.push(46);
            push_decimal(out, m.to);
            out.push(124);
        },
        Value::Param(p) => {
            out.push(36);
            push_all(out, p);
        },
        Value::Idiom(p) => {
            write_path(out, p);
        },
        Value::Subquery(inner) => {
            out.push(40);
            write_value(out, inner);
            out.push(41);
        },
        Value::Expression(l, op, r) => {
            write_value(out, l);
            out.push(32);
            write_operator(out, *op);
            out.push(32);
            write_value(out, r);
        },
        Value::Future(inner) => {
            push_all(out, &text_future());
            out.push(32);
            out.push(123);
            out.push(32);
            write_value(out, inner);
            out.push(32);
            out.push(125);
        },
    }
    assert(out@ =~= start + show_value(v@));
}

/// Adds the field `f` to `out`.
pub fn write_field(out: &mut Vec<u8>, f: &Field)
    ensures
        final(out)@ == old(out)@ + show_column(f@),
{
    let ghost start = out@;
    match f {
        Field::All => {
            out.push(42);
        },
        Field::Alone(v) => {
            write_value(out, v);
        },
        Field::Alias(v, p) => {
            write_value(out, v);
            out.push(32);
            out.push(65);
            out.push(83);
            out.push(32);
            write_path(out, p);
        },
    }
    assert(out@ =~= start + show_column(f@));
}

/// Adds the fields of `a` to `out`, with commas between them.
#[verifier::loop_isolation(false)]
pub fn write_fields(out: &mut Vec<u8>, a: &Vec<Field>)
    ensures
        final(out)@ == old(out)@ + show_columns(columns(a@), a.len() as int),
{
    let ghost start = out@;
    let ghost av = columns(a@);
    let mut n: usize = 0;
    assert(out@ =~= start + show_columns(av, 0));
    while n < a.len()
        invariant
            n <= a.len(),
            out@ == start + show_columns(av, n as int),
        decreases a.len() - n,
    {
        if n > 0 {
            push_comma(out);
        }
        write_field(out, &a[n]);
        assert(out@ =~= start + show_columns(av, n + 1));
        n += 1;
    }
}

/// Adds the values of `a` to `out`, with commas between them.
pub fn write_values(out: &mut Vec<u8>, a: &Vec<Value>)
    ensures
        final(out)@ == old(out)@ + show_items(views(a@), a.len() as int),
{
    write_items(out, a);
}

/// Adds the paths of `a` to `out`, with commas between them.
#[verifier::loop_isolation(false)]
pub fn write_paths(out: &mut Vec<u8>, a: &Vec<Idiom>)
    ensures
        final(out)@ == old(out)@ + show_paths(paths(a@), a.len() as int),
{
    let ghost start = out@;
    let ghost av = paths(a@);
    let mut n: usize = 0;
    assert(out@ =~= start + show_paths(av, 0));
    while n < a.len()
        invariant
            n <= a.len(),
            out@ == start + show_paths(av, n as int),
        decreases a.len() - n,
    {
        if n > 0 {
            push_comma(out);
        }
        write_path(out, &a[n]);
        assert(out@ =~= start + show_paths(av, n + 1));
        n += 1;
    }
}

/// Adds the sort keys of `a` to `out`, with commas between them.
#[verifier::loop_isolation(false)]
pub fn write_sort_keys(out: &mut Vec<u8>, a: &Vec<Order>)
    ensures
        final(out)@ == old(out)@ + show_sort_keys(sort_keys(a@), a.len() as int),
{
    let ghost start = out@;
    let ghost av = sort_keys(a@);
    let mut n: usize = 0;
    assert(out@ =~= start + show_sort_keys(av, 0));
    while n < a.len()
        invariant
            n <= a.len(),
            out@ == start + show_sort_keys(av, n as int),
        decreases a.len() - n,
    {
        if n > 0 {
            push_comma(out);
        }
        let ghost before = out@;
        write_path(out, &a[n].order);
        if !a[n].direction {
            out.push(32);
            out.push(68);
            out.push(69);
            out.push(83);
            out.push(67);
        }
        assert(out@ =~= before + show_sort_key(av[n as int]));
        assert(out@ =~= start + show_sort_keys(av, n + 1));
        n += 1;
    }
}

} // verus!
