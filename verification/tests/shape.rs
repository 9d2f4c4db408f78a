use surreal_core::dbs::fetch::fetch;
use surreal_core::dbs::group::group;
use surreal_core::dbs::shape::{order, paginate, split};
use surreal_core::dbs::transaction::Transaction;
use surreal_core::err::{Error, StorageError};
use surreal_core::sql::clause::Order;
use surreal_core::sql::value::{Idiom, Number, Thing, Value};

fn text(s: &str) -> Vec<u8> {
    s.as_bytes().to_vec()
}

fn path(parts: &[&str]) -> Idiom {
    Idiom { parts: parts.iter().map(|p| text(p)).collect() }
}

fn num(n: i64) -> Value {
    Value::Number(Number(n * 1_000_000))
}

fn strand(s: &str) -> Value {
    Value::Strand(text(s))
}

fn obj(entries: Vec<(&str, Value)>) -> Value {
    Value::Object(entries.into_iter().map(|(k, v)| (text(k), v)).collect())
}

fn numbers(ns: &[i64]) -> Vec<Value> {
    ns.iter().map(|n| num(*n)).collect()
}

fn asc(field: &str) -> Order {
    Order { order: path(&[field]), direction: true }
}

fn desc(field: &str) -> Order {
    Order { order: path(&[field]), direction: false }
}

#[test]
fn without_a_limit_every_row_from_the_offset_on_is_returned() {
    let rows = numbers(&[0, 1, 2, 3, 4]);
    for n in 0..=5 {
        assert_eq!(paginate(&rows, n, 0), numbers(&[0, 1, 2, 3, 4])[n..].to_vec());
    }
}

#[test]
fn an_offset_beyond_the_end_gives_no_rows() {
    let rows = numbers(&[0, 1, 2]);
    assert_eq!(paginate(&rows, 3, 0), vec![]);
    assert_eq!(paginate(&rows, 4, 0), vec![]);
    assert_eq!(paginate(&rows, 4, 2), vec![]);
    assert_eq!(paginate(&rows, usize::MAX, usize::MAX), vec![]);
    assert_eq!(paginate(&vec![], 0, 0), vec![]);
}

#[test]
fn the_limit_counts_from_the_offset() {
    let rows = numbers(&[0, 1, 2, 3, 4]);
    assert_eq!(paginate(&rows, 0, 2), numbers(&[0, 1]));
    assert_eq!(paginate(&rows, 1, 3), numbers(&[1, 2, 3]));
    assert_eq!(paginate(&rows, 3, 2), numbers(&[3, 4]));
    assert_eq!(paginate(&rows, 3, 9), numbers(&[3, 4]));
    assert_eq!(paginate(&rows, 2, usize::MAX), numbers(&[2, 3, 4]));
}

#[test]
fn one_ascending_key_sorts_upwards_with_missing_values_first() {
    let rows = vec![
        obj(vec![("n", num(3)), ("k", strand("a"))]),
        obj(vec![("k", strand("b"))]),
        obj(vec![("n", num(1)), ("k", strand("c"))]),
        obj(vec![("n", Value::Null), ("k", strand("d"))]),
        obj(vec![("k", strand("e"))]),
        obj(vec![("n", num(2)), ("k", strand("f"))]),
    ];
    let out = order(&rows, &vec![asc("n")]);
    let keys: Vec<Value> = out.iter().map(|r| r.get(&path(&["k"]))).collect();
    assert_eq!(
        keys,
        vec![strand("b"), strand("e"), strand("d"), strand("c"), strand("f"), strand("a")]
    );
    let ns: Vec<Value> = out.iter().map(|r| r.get(&path(&["n"]))).collect();
    assert_eq!(ns, vec![Value::Void, Value::Void, Value::Null, num(1), num(2), num(3)]);
}

#[test]
fn one_descending_key_sorts_downwards_with_missing_values_still_first() {
    let rows = vec![
        obj(vec![("n", num(1)), ("k", strand("a"))]),
        obj(vec![("k", strand("b"))]),
        obj(vec![("n", num(3)), ("k", strand("c"))]),
        obj(vec![("n", Value::Null), ("k", strand("d"))]),
        obj(vec![("k", strand("e"))]),
        obj(vec![("n", num(3)), ("k", strand("f"))]),
    ];
    let out = order(&rows, &vec![desc("n")]);
    let keys: Vec<Value> = out.iter().map(|r| r.get(&path(&["k"]))).collect();
    assert_eq!(
        keys,
        vec![strand("b"), strand("e"), strand("c"), strand("f"), strand("a"), strand("d")]
    );
}

#[test]
fn sorting_is_stable_and_goes_key_by_key() {
    let row = |a: i64, b: i64, tag: &str| obj(vec![("a", num(a)), ("b", num(b)), ("t", strand(tag))]);
    let rows = vec![row(2, 1, "p"), row(1, 1, "q"), row(2, 2, "r"), row(1, 1, "s"), row(2, 1, "u")];
    let tags = |rows: &Vec<Value>| -> Vec<Value> { rows.iter().map(|r| r.get(&path(&["t"]))).collect() };
    assert_eq!(
        tags(&order(&rows, &vec![asc("a")])),
        vec![strand("q"), strand("s"), strand("p"), strand("r"), strand("u")]
    );
    assert_eq!(
        tags(&order(&rows, &vec![desc("a")])),
        vec![strand("p"), strand("r"), strand("u"), strand("q"), strand("s")]
    );
    assert_eq!(
        tags(&order(&rows, &vec![asc("a"), desc("b")])),
        vec![strand("q"), strand("s"), strand("r"), strand("p"), strand("u")]
    );
    assert_eq!(tags(&order(&rows, &vec![])), tags(&rows));
    assert_eq!(order(&vec![], &vec![asc("a")]), vec![]);
}

#[test]
fn split_fans_out_on_arrays() {
    let rows = vec![
        obj(vec![("id", num(1)), ("tags", Value::Array(vec![strand("a"), strand("b")]))]),
        obj(vec![("id", num(2)), ("tags", strand("c"))]),
        obj(vec![("id", num(3)), ("tags", Value::Array(vec![]))]),
        obj(vec![("id", num(4))]),
    ];
    let out = split(rows, &vec![path(&["tags"])]);
    assert_eq!(
        out,
        vec![
            obj(vec![("id", num(1)), ("tags", strand("a"))]),
            obj(vec![("id", num(1)), ("tags", strand("b"))]),
            obj(vec![("id", num(2)), ("tags", strand("c"))]),
            obj(vec![("id", num(4))]),
        ]
    );
}

#[test]
fn split_on_two_fields_gives_every_pairing() {
    let rows = vec![obj(vec![
        ("a", Value::Array(vec![num(1), num(2)])),
        ("b", Value::Array(vec![strand("x"), strand("y")])),
    ])];
    let out = split(rows, &vec![path(&["a"]), path(&["b"])]);
    assert_eq!(
        out,
        vec![
            obj(vec![("a", num(1)), ("b", strand("x"))]),
            obj(vec![("a", num(1)), ("b", strand("y"))]),
            obj(vec![("a", num(2)), ("b", strand("x"))]),
            obj(vec![("a", num(2)), ("b", strand("y"))]),
        ]
    );
}

#[test]
fn group_collapses_rows_of_equal_key() {
    let rows = vec![
        obj(vec![("city", strand("A")), ("n", num(1))]),
        obj(vec![("city", strand("B")), ("n", num(2))]),
        obj(vec![("city", strand("A")), ("n", num(3))]),
        obj(vec![("n", num(4))]),
        obj(vec![("city", strand("B"))]),
    ];
    let out = group(&rows, &vec![path(&["city"])]);
    assert_eq!(
        out,
        vec![
            obj(vec![("city", strand("A")), ("n", Value::Array(vec![num(1), num(3)]))]),
            obj(vec![("city", strand("B")), ("n", Value::Array(vec![num(2), Value::Void]))]),
            obj(vec![("n", Value::Array(vec![num(4)])), ("city", Value::Void)]),
        ]
    );
    assert_eq!(group(&vec![], &vec![path(&["city"])]), vec![]);
}

#[test]
fn fetch_puts_the_record_in_the_place_of_its_identity() {
    let tobie = Thing { tb: text("person"), id: text("tobie") };
    let nobody = Thing { tb: text("person"), id: text("nobody") };
    let mut txn = Transaction::new(true);
    assert_eq!(txn.put(&tobie, obj(vec![("name", strand("Tobie"))])), Ok(()));
    let rows = vec![
        obj(vec![("author", Value::Thing(tobie.duplicate()))]),
        obj(vec![("author", Value::Thing(nobody.duplicate()))]),
        obj(vec![("author", strand("text"))]),
        obj(vec![]),
    ];
    let copy: Vec<Value> = rows.iter().map(|r| r.duplicate()).collect();
    let out = fetch(rows, &vec![path(&["author"])], &txn);
    assert_eq!(
        out,
        Ok(vec![
            obj(vec![("author", obj(vec![("name", strand("Tobie"))]))]),
            obj(vec![("author", Value::Thing(nobody))]),
            obj(vec![("author", strand("text"))]),
            obj(vec![]),
        ])
    );
    txn.finish();
    assert_eq!(
        fetch(copy, &vec![path(&["author"])], &txn),
        Err(Error::Storage(StorageError::Finished))
    );
}
