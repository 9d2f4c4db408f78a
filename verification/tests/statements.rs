use surreal_core::dbs::iterator::Iterator;
use surreal_core::dbs::options::{Level, Options};
use surreal_core::dbs::runtime::Runtime;
use surreal_core::dbs::statement::Statement;
use surreal_core::dbs::transaction::{Record, Transaction};
use surreal_core::err::{Error, EvaluationError, StorageError};
use surreal_core::sql::clause::{
    Assignment, Cond, Data, Fetchs, Field, Fields, Limit, Order, Orders, Start, Timeout, Values,
};
use surreal_core::sql::operator::Operator;
use surreal_core::sql::statements::create::CreateStatement;
use surreal_core::sql::statements::select::{select, SelectStatement};
use surreal_core::sql::statements::update::UpdateStatement;
use surreal_core::sql::value::{Idiom, Model, Number, Thing, Value};

fn text(s: &str) -> Vec<u8> {
    s.as_bytes().to_vec()
}

fn path(parts: &[&str]) -> Idiom {
    Idiom { parts: parts.iter().map(|p| text(p)).collect() }
}

fn num(n: i64) -> Value {
    Value::Number(Number(n * 1_000_000))
}

fn strand(s: &str) -> Value {
    Value::Strand(text(s))
}

fn obj(entries: Vec<(&str, Value)>) -> Value {
    Value::Object(entries.into_iter().map(|(k, v)| (text(k), v)).collect())
}

fn thing(tb: &str, id: &str) -> Thing {
    Thing { tb: text(tb), id: text(id) }
}

fn person(id: &str, age: i64) -> Value {
    obj(vec![("id", Value::Thing(thing("person", id))), ("age", num(age))])
}

fn store() -> Transaction {
    let mut txn = Transaction::new(true);
    assert_eq!(txn.put(&thing("person", "a"), person("a", 30)), Ok(()));
    assert_eq!(txn.put(&thing("city", "x"), obj(vec![("name", strand("X"))])), Ok(()));
    assert_eq!(txn.put(&thing("person", "b"), person("b", 10)), Ok(()));
    assert_eq!(txn.put(&thing("person", "1"), person("1", 20)), Ok(()));
    assert_eq!(txn.put(&thing("person", "3"), person("3", 40)), Ok(()));
    txn
}

fn from(what: Vec<Value>) -> SelectStatement {
    SelectStatement {
        expr: Fields(vec![Field::All]),
        what: Values(what),
        cond: None,
        split: None,
        group: None,
        order: None,
        limit: None,
        start: None,
        fetch: None,
        version: None,
        timeout: None,
    }
}

fn run(stm: &SelectStatement, txn: &Transaction) -> Result<Value, Error> {
    stm.compute(&Runtime::new(), &Options::new(Level::No), txn, None)
}

#[test]
fn a_table_resolves_to_its_records_in_stored_order() {
    let txn = store();
    assert_eq!(
        run(&from(vec![Value::Table(text("person"))]), &txn),
        Ok(Value::Array(vec![person("a", 30), person("b", 10), person("1", 20), person("3", 40)]))
    );
    assert_eq!(run(&from(vec![Value::Table(text("nothing"))]), &txn), Ok(Value::Array(vec![])));
    assert_eq!(run(&from(vec![]), &txn), Ok(Value::Array(vec![])));
}

#[test]
fn a_record_resolves_to_itself_and_an_absent_one_to_nothing() {
    let txn = store();
    assert_eq!(
        run(
            &from(vec![
                Value::Thing(thing("person", "b")),
                Value::Thing(thing("person", "zz")),
                Value::Thing(thing("city", "x")),
            ]),
            &txn
        ),
        Ok(Value::Array(vec![person("b", 10), obj(vec![("name", strand("X"))])]))
    );
}

#[test]
fn a_range_resolves_to_the_records_it_names() {
    let txn = store();
    assert_eq!(
        run(&from(vec![Value::Model(Model { tb: text("person"), from: 0, to: 12 })]), &txn),
        Ok(Value::Array(vec![person("1", 20), person("3", 40)]))
    );
    assert_eq!(
        run(&from(vec![Value::Model(Model { tb: text("person"), from: 3, to: 1 })]), &txn),
        Ok(Value::Array(vec![]))
    );
    assert_eq!(
        run(&from(vec![Value::Model(Model { tb: text("person"), from: 3, to: 3 })]), &txn),
        Ok(Value::Array(vec![person("3", 40)]))
    );
}

#[test]
fn an_array_is_flattened_one_level_and_other_values_stand_for_themselves() {
    let txn = store();
    let nested = Value::Array(vec![Value::Table(text("city"))]);
    assert_eq!(
        run(
            &from(vec![
                num(1),
                Value::Array(vec![
                    Value::Thing(thing("person", "b")),
                    strand("s"),
                    nested.duplicate(),
                ]),
                Value::Table(text("city")),
            ]),
            &txn
        ),
        Ok(Value::Array(vec![
            num(1),
            person("b", 10),
            strand("s"),
            nested,
            obj(vec![("name", strand("X"))]),
        ]))
    );
}

#[test]
fn sources_are_computed_before_they_are_resolved() {
    let txn = store();
    let mut ctx = Runtime::new();
    ctx.define(&text("who"), Value::Thing(thing("person", "a")));
    let stm = from(vec![Value::Param(text("who"))]);
    assert_eq!(
        stm.compute(&ctx, &Options::new(Level::No), &txn, None),
        Ok(Value::Array(vec![person("a", 30)]))
    );
    let doc = obj(vec![("friend", Value::Thing(thing("person", "b")))]);
    let stm = from(vec![Value::Idiom(path(&["friend"]))]);
    assert_eq!(
        stm.compute(&Runtime::new(), &Options::new(Level::No), &txn, Some(&doc)),
        Ok(Value::Array(vec![person("b", 10)]))
    );
    assert_eq!(run(&stm, &txn), Err(Error::Evaluation(EvaluationError::NoContextDocument)));
    let future = Value::Future(Box::new(Value::Table(text("city"))));
    assert_eq!(
        run(&from(vec![future]), &txn),
        Ok(Value::Array(vec![obj(vec![("name", strand("X"))])]))
    );
}

#[test]
fn the_clauses_shape_the_rows_in_their_fixed_order() {
    let txn = store();
    let mut stm = from(vec![Value::Table(text("person"))]);
    stm.cond = Some(Cond(Value::Expression(
        Box::new(Value::Idiom(path(&["age"]))),
        Operator::MoreThanOrEqual,
        Box::new(num(20)),
    )));
    stm.order = Some(Orders(vec![Order { order: path(&["age"]), direction: false }]));
    assert_eq!(
        run(&stm, &txn),
        Ok(Value::Array(vec![person("3", 40), person("a", 30), person("1", 20)]))
    );
    stm.start = Some(Start(1));
    assert_eq!(run(&stm, &txn), Ok(Value::Array(vec![person("a", 30), person("1", 20)])));
    stm.limit = Some(Limit(1));
    assert_eq!(run(&stm, &txn), Ok(Value::Array(vec![person("a", 30)])));
    stm.limit = Some(Limit(0));
    stm.start = Some(Start(7));
    assert_eq!(run(&stm, &txn), Ok(Value::Array(vec![])));
}

#[test]
fn fetch_comes_last() {
    let mut txn = store();
    assert_eq!(
        txn.put(&thing("post", "p"), obj(vec![("by", Value::Thing(thing("person", "b")))])),
        Ok(())
    );
    let mut stm = from(vec![Value::Table(text("post"))]);
    stm.fetch = Some(Fetchs(vec![path(&["by"])]));
    assert_eq!(run(&stm, &txn), Ok(Value::Array(vec![obj(vec![("by", person("b", 10))])])));
}

#[test]
fn a_tripped_signal_gives_cancelled_and_no_rows() {
    let txn = store();
    let stm = from(vec![Value::Table(text("person")), Value::Table(text("city"))]);
    let opt = Options::new(Level::No);
    let mut ctx = Runtime::new();
    let mut i = Iterator::new(Statement::Select(&stm));
    for w in stm.what.0.iter() {
        i.prepare(w.compute(&ctx, &opt, None).unwrap());
    }
    assert_eq!(i.advance(&ctx, &opt, &txn), Ok(true));
    assert_eq!(i.cursor, 1);
    assert_eq!(i.results.len(), 4);
    ctx.cancel();
    assert_eq!(i.advance(&ctx, &opt, &txn), Err(Error::Cancelled));
    assert_eq!(i.cursor, 1);
    assert_eq!(i.results.len(), 4);
    assert_eq!(i.finish(&ctx, &opt, &txn), Err(Error::Cancelled));
    assert_eq!(i.output(&ctx, &opt, &txn), Err(Error::Cancelled));
    assert_eq!(stm.compute(&ctx, &opt, &txn, None), Err(Error::Cancelled));
    assert_eq!(from(vec![]).compute(&ctx, &opt, &txn, None), Err(Error::Cancelled));
}

#[test]
fn stepping_through_the_targets_gives_what_output_gives() {
    let txn = store();
    let mut stm = from(vec![
        Value::Table(text("city")),
        Value::Array(vec![Value::Thing(thing("person", "zz")), Value::Thing(thing("person", "b"))]),
        Value::Table(text("person")),
    ]);
    stm.limit = Some(Limit(4));
    let opt = Options::new(Level::No);
    let ctx = Runtime::new();
    let mut i = Iterator::new(Statement::Select(&stm));
    i.limit = stm.limit.as_ref();
    assert_eq!(i.advance(&ctx, &opt, &txn), Ok(false));
    for w in stm.what.0.iter() {
        i.prepare(w.duplicate());
    }
    assert_eq!(i.advance(&ctx, &opt, &txn), Ok(true));
    assert_eq!(i.results, vec![obj(vec![("name", strand("X"))])]);
    assert_eq!(i.advance(&ctx, &opt, &txn), Ok(true));
    assert_eq!(i.results, vec![obj(vec![("name", strand("X"))]), person("b", 10)]);
    assert_eq!(i.advance(&ctx, &opt, &txn), Ok(false));
    assert_eq!(i.advance(&ctx, &opt, &txn), Ok(false));
    assert_eq!(i.cursor, 3);
    assert_eq!(i.results.len(), 6);
    let stepped = i.finish(&ctx, &opt, &txn);
    assert_eq!(
        stepped,
        Ok(Value::Array(vec![
            obj(vec![("name", strand("X"))]),
            person("b", 10),
            person("a", 30),
            person("b", 10),
        ]))
    );
    assert_eq!(i.output(&ctx, &opt, &txn), stepped);
    assert_eq!(run(&stm, &txn), stepped);
}

#[test]
fn a_transaction_that_ends_between_steps_stops_the_resolution() {
    let mut txn = store();
    let stm = from(vec![Value::Table(text("person")), Value::Table(text("city"))]);
    let opt = Options::new(Level::No);
    let ctx = Runtime::new();
    let mut i = Iterator::new(Statement::Select(&stm));
    for w in stm.what.0.iter() {
        i.prepare(w.duplicate());
    }
    assert_eq!(i.advance(&ctx, &opt, &txn), Ok(true));
    txn.finish();
    assert_eq!(i.advance(&ctx, &opt, &txn), Err(Error::Storage(StorageError::Finished)));
    assert_eq!(i.cursor, 1);
}

#[test]
fn a_statement_that_is_out_of_time_gives_timeout() {
    let txn = store();
    let mut stm = from(vec![Value::Table(text("person"))]);
    stm.timeout = Some(Timeout(0));
    assert_eq!(run(&stm, &txn), Err(Error::Timeout));
    stm.timeout = Some(Timeout(1));
    assert!(run(&stm, &txn).is_ok());
    let mut ctx = Runtime::new().with_timeout(10);
    ctx.tick(10);
    stm.timeout = None;
    assert_eq!(stm.compute(&ctx, &Options::new(Level::No), &txn, None), Err(Error::Timeout));
}

#[test]
fn a_finished_transaction_gives_a_storage_error() {
    let mut txn = store();
    txn.finish();
    assert_eq!(
        run(&from(vec![Value::Table(text("person"))]), &txn),
        Err(Error::Storage(StorageError::Finished))
    );
    assert_eq!(txn.get(&thing("person", "a")), Err(Error::Storage(StorageError::Finished)));
    assert!(txn.scan(&text("person")).is_err());
    assert_eq!(txn.put(&thing("person", "a"), num(1)), Err(Error::Storage(StorageError::Finished)));
    assert_eq!(txn.delete(&thing("person", "a")), Err(Error::Storage(StorageError::Finished)));
}

#[test]
fn a_failing_condition_fails_the_statement() {
    let txn = store();
    let mut stm = from(vec![Value::Table(text("person"))]);
    stm.cond = Some(Cond(Value::Expression(
        Box::new(Value::Idiom(path(&["age"]))),
        Operator::Div,
        Box::new(num(0)),
    )));
    assert_eq!(run(&stm, &txn), Err(Error::Evaluation(EvaluationError::DivisionByZero)));
}

#[test]
fn the_transaction_stores_and_deletes() {
    let mut txn = Transaction::new(true);
    let a = thing("t", "a");
    let b = thing("t", "b");
    assert_eq!(txn.get(&a), Ok(None));
    assert_eq!(txn.put(&a, num(1)), Ok(()));
    assert_eq!(txn.put(&b, num(2)), Ok(()));
    assert_eq!(txn.put(&a, num(3)), Ok(()));
    assert_eq!(txn.get(&a), Ok(Some(num(3))));
    assert_eq!(
        txn.scan(&text("t")),
        Ok(vec![
            Record { id: a.duplicate(), value: num(3) },
            Record { id: b.duplicate(), value: num(2) },
        ])
    );
    assert_eq!(txn.delete(&a), Ok(()));
    assert_eq!(txn.get(&a), Ok(None));
    assert_eq!(txn.get(&b), Ok(Some(num(2))));
    let mut reader = Transaction::new(false);
    assert_eq!(reader.put(&a, num(1)), Err(Error::Storage(StorageError::ReadOnly)));
    assert_eq!(reader.delete(&a), Err(Error::Storage(StorageError::ReadOnly)));
    assert_eq!(reader.get(&a), Ok(None));
}

fn set(field: &str, operator: Operator, value: Value) -> Assignment {
    Assignment { field: path(&[field]), operator, value }
}

#[test]
fn create_needs_authority_and_stores_what_it_made() {
    let stm = CreateStatement {
        what: Values(vec![Value::Thing(thing("person", "new"))]),
        data: Some(Data::SetExpression(vec![set("age", Operator::Equal, num(1))])),
    };
    let mut txn = store();
    let before = txn.records.len();
    assert_eq!(
        stm.compute(&Runtime::new(), &Options::new(Level::No), &mut txn, None),
        Err(Error::Permission)
    );
    assert_eq!(txn.records.len(), before);
    let made = obj(vec![("id", Value::Thing(thing("person", "new"))), ("age", num(1))]);
    assert_eq!(
        stm.compute(&Runtime::new(), &Options::new(Level::Db), &mut txn, None),
        Ok(Value::Array(vec![made.duplicate()]))
    );
    assert_eq!(txn.get(&thing("person", "new")), Ok(Some(made)));
    assert_eq!(txn.records.len(), before + 1);
}

#[test]
fn update_changes_the_records_that_meet_the_condition() {
    let stm = UpdateStatement {
        what: Values(vec![Value::Table(text("person"))]),
        data: Some(Data::SetExpression(vec![set("age", Operator::Inc, num(1))])),
        cond: Some(Cond(Value::Expression(
            Box::new(Value::Idiom(path(&["age"]))),
            Operator::LessThan,
            Box::new(num(25)),
        ))),
    };
    let mut txn = store();
    assert_eq!(
        stm.compute(&Runtime::new(), &Options::new(Level::Kv), &mut txn, None),
        Ok(Value::Array(vec![person("b", 11), person("1", 21)]))
    );
    assert_eq!(txn.get(&thing("person", "b")), Ok(Some(person("b", 11))));
    assert_eq!(txn.get(&thing("person", "1")), Ok(Some(person("1", 21))));
    assert_eq!(txn.get(&thing("person", "a")), Ok(Some(person("a", 30))));
}

#[test]
fn a_failed_update_stores_nothing() {
    let stm = UpdateStatement {
        what: Values(vec![Value::Table(text("person"))]),
        data: Some(Data::SetExpression(vec![set(
            "age",
            Operator::Equal,
            Value::Expression(
                Box::new(num(100)),
                Operator::Div,
                Box::new(Value::Expression(
                    Box::new(Value::Idiom(path(&["age"]))),
                    Operator::Sub,
                    Box::new(num(20)),
                )),
            ),
        )])),
        cond: None,
    };
    let mut txn = store();
    assert_eq!(
        stm.compute(&Runtime::new(), &Options::new(Level::Kv), &mut txn, None),
        Err(Error::Evaluation(EvaluationError::DivisionByZero))
    );
    assert_eq!(txn.records, store().records);
    let mut reader = store();
    reader.writable = false;
    let harmless = UpdateStatement { what: Values(vec![Value::Table(text("person"))]), data: None, cond: None };
    assert_eq!(
        harmless.compute(&Runtime::new(), &Options::new(Level::Kv), &mut reader, None),
        Err(Error::Storage(StorageError::ReadOnly))
    );
    assert_eq!(reader.records, store().records);
}

#[test]
fn a_statement_that_was_read_can_be_run() {
    let txn = store();
    let (rest, stm) =
        select("SELECT * FROM person, city:x WHERE age >= 20 ORDER BY age DESC LIMIT 2 START 1")
            .unwrap();
    assert!(rest.is_empty());
    assert_eq!(run(&stm, &txn), Ok(Value::Array(vec![person("a", 30), person("1", 20)])));
}
