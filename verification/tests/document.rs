use surreal_core::dbs::options::{Level, Options};
use surreal_core::dbs::runtime::Runtime;
use surreal_core::dbs::statement::Statement;
use surreal_core::dbs::transaction::Transaction;
use surreal_core::doc::document::Document;
use surreal_core::err::{Error, EvaluationError};
use surreal_core::sql::clause::{Assignment, Data, Fields, Values};
use surreal_core::sql::operator::Operator;
use surreal_core::sql::statements::create::CreateStatement;
use surreal_core::sql::statements::select::SelectStatement;
use surreal_core::sql::statements::update::UpdateStatement;
use surreal_core::sql::value::{Idiom, Number, Thing, Value};

fn text(s: &str) -> Vec<u8> {
    s.as_bytes().to_vec()
}

fn path(parts: &[&str]) -> Idiom {
    Idiom { parts: parts.iter().map(|p| text(p)).collect() }
}

fn num(n: i64) -> Value {
    Value::Number(Number(n * 1_000_000))
}

fn strand(s: &str) -> Value {
    Value::Strand(text(s))
}

fn obj(entries: Vec<(&str, Value)>) -> Value {
    Value::Object(entries.into_iter().map(|(k, v)| (text(k), v)).collect())
}

fn set(field: &[&str], operator: Operator, value: Value) -> Assignment {
    Assignment { field: path(field), operator, value }
}

fn update(data: Option<Data>) -> UpdateStatement {
    UpdateStatement { what: Values(vec![]), data, cond: None }
}

fn merged(doc: Value, id: Option<Thing>, data: Option<Data>) -> (Result<(), Error>, Document) {
    let stm = update(data);
    let mut doc = Document::new(id, &doc);
    let res = doc.merge(
        &Runtime::new(),
        &Options::new(Level::Kv),
        &Transaction::new(false),
        &Statement::Update(&stm),
    );
    (res, doc)
}

fn after(doc: Value, data: Data) -> Value {
    let (res, doc) = merged(doc, None, Some(data));
    assert_eq!(res, Ok(()));
    doc.current
}

#[test]
fn set_with_inc_adds_to_the_field() {
    let out = after(
        obj(vec![("a", num(1))]),
        Data::SetExpression(vec![set(&["a"], Operator::Inc, num(2))]),
    );
    assert_eq!(out, obj(vec![("a", num(3))]));
}

#[test]
fn set_with_void_deletes_the_field() {
    let out = after(
        obj(vec![("a", num(1))]),
        Data::SetExpression(vec![set(&["a"], Operator::Equal, Value::Void)]),
    );
    assert_eq!(out, obj(vec![]));
}

#[test]
fn merge_adds_the_fields_of_the_object() {
    let out = after(obj(vec![("a", num(1))]), Data::MergeExpression(obj(vec![("b", num(2))])));
    assert_eq!(out, obj(vec![("a", num(1)), ("b", num(2))]));
}

#[test]
fn replace_puts_the_value_in_the_place_of_the_document() {
    let out = after(obj(vec![("a", num(1))]), Data::ReplaceExpression(obj(vec![("c", num(3))])));
    assert_eq!(out, obj(vec![("c", num(3))]));
}

#[test]
fn content_replaces_like_replace() {
    let out = after(obj(vec![("a", num(1))]), Data::ContentExpression(obj(vec![("c", num(3))])));
    assert_eq!(out, obj(vec![("c", num(3))]));
}

#[test]
fn deleting_twice_is_deleting_once() {
    let data = || Data::SetExpression(vec![set(&["a", "b"], Operator::Equal, Value::Void)]);
    let doc = obj(vec![("a", obj(vec![("b", num(1)), ("c", num(2))])), ("d", num(3))]);
    let once = after(doc, data());
    assert_eq!(once, obj(vec![("a", obj(vec![("c", num(2))])), ("d", num(3))]));
    assert_eq!(once.get(&path(&["a", "b"])), Value::Void);
    let twice = after(once.duplicate(), data());
    assert_eq!(twice, once);
}

#[test]
fn deleting_removes_every_entry_of_the_name() {
    let doc = obj(vec![("a", num(1)), ("b", num(2)), ("a", num(3))]);
    let out = after(doc, Data::SetExpression(vec![set(&["a"], Operator::Equal, Value::Void)]));
    assert_eq!(out, obj(vec![("b", num(2))]));
}

#[test]
fn defaults_put_the_identity_in_place_once() {
    let id = Thing { tb: text("person"), id: text("tobie") };
    let (res, doc) = merged(obj(vec![("a", num(1))]), Some(id.duplicate()), None);
    assert_eq!(res, Ok(()));
    let expected = obj(vec![("a", num(1)), ("id", Value::Thing(id.duplicate()))]);
    assert_eq!(doc.current, expected);
    let (res, again) = merged(doc.current.duplicate(), Some(id.duplicate()), None);
    assert_eq!(res, Ok(()));
    assert_eq!(again.current, expected);
    let mut direct = obj(vec![("a", num(1))]);
    direct.def(Some(&id));
    assert_eq!(direct, expected);
    direct.def(Some(&id));
    assert_eq!(direct, expected);
}

#[test]
fn defaults_are_put_back_after_the_clause_removed_them() {
    let id = Thing { tb: text("person"), id: text("tobie") };
    let (res, doc) = merged(
        obj(vec![("a", num(1))]),
        Some(id.duplicate()),
        Some(Data::ReplaceExpression(obj(vec![("c", num(3))]))),
    );
    assert_eq!(res, Ok(()));
    assert_eq!(doc.current, obj(vec![("c", num(3)), ("id", Value::Thing(id))]));
}

#[test]
fn what_was_loaded_is_never_changed() {
    let loaded = obj(vec![("a", num(1))]);
    let (res, doc) = merged(
        loaded.duplicate(),
        None,
        Some(Data::SetExpression(vec![set(&["a"], Operator::Equal, num(9))])),
    );
    assert_eq!(res, Ok(()));
    assert_eq!(doc.initial, loaded);
    assert_eq!(doc.current, obj(vec![("a", num(9))]));
    assert_eq!(doc.id, None);
}

#[test]
fn assignments_see_what_earlier_assignments_did() {
    let out = after(
        obj(vec![]),
        Data::SetExpression(vec![
            set(&["a"], Operator::Equal, num(1)),
            set(&["b"], Operator::Equal, Value::Idiom(path(&["a"]))),
            set(&["a"], Operator::Inc, Value::Idiom(path(&["b"]))),
        ]),
    );
    assert_eq!(out, obj(vec![("a", num(2)), ("b", num(1))]));
}

#[test]
fn set_creates_the_objects_on_the_way() {
    let out = after(
        obj(vec![]),
        Data::SetExpression(vec![set(&["a", "b", "c"], Operator::Equal, num(1))]),
    );
    assert_eq!(out, obj(vec![("a", obj(vec![("b", obj(vec![("c", num(1))]))]))]));
}

#[test]
fn set_leaves_alone_what_cannot_hold_fields() {
    let out = after(
        obj(vec![("a", num(1))]),
        Data::SetExpression(vec![set(&["a", "b"], Operator::Equal, num(2))]),
    );
    assert_eq!(out, obj(vec![("a", num(1))]));
}

#[test]
fn inc_and_dec_on_arrays_and_missing_fields() {
    let out = after(
        obj(vec![("tags", Value::Array(vec![strand("a")]))]),
        Data::SetExpression(vec![
            set(&["tags"], Operator::Inc, strand("b")),
            set(&["tags"], Operator::Inc, Value::Array(vec![strand("c"), strand("a")])),
            set(&["count"], Operator::Inc, num(5)),
            set(&["list"], Operator::Inc, strand("x")),
            set(&["debt"], Operator::Dec, num(2)),
        ]),
    );
    assert_eq!(
        out,
        obj(vec![
            ("tags", Value::Array(vec![strand("a"), strand("b"), strand("c"), strand("a")])),
            ("count", num(5)),
            ("list", Value::Array(vec![strand("x")])),
            ("debt", num(-2)),
        ])
    );
    let out = after(
        out,
        Data::SetExpression(vec![
            set(&["tags"], Operator::Dec, strand("a")),
            set(&["count"], Operator::Dec, num(7)),
        ]),
    );
    assert_eq!(out.get(&path(&["tags"])), Value::Array(vec![strand("b"), strand("c")]));
    assert_eq!(out.get(&path(&["count"])), num(-2));
    let out = after(
        out,
        Data::SetExpression(vec![set(
            &["tags"],
            Operator::Dec,
            Value::Array(vec![strand("c"), strand("z")]),
        )]),
    );
    assert_eq!(out.get(&path(&["tags"])), Value::Array(vec![strand("b")]));
}

#[test]
fn inc_that_overflows_fails_and_changes_nothing() {
    let doc = obj(vec![("a", Value::Number(Number(i64::MAX)))]);
    let (res, out) = merged(
        doc.duplicate(),
        None,
        Some(Data::SetExpression(vec![
            set(&["b"], Operator::Equal, num(1)),
            set(&["a"], Operator::Inc, Value::Number(Number(1))),
        ])),
    );
    assert_eq!(res, Err(Error::Evaluation(EvaluationError::Overflow)));
    assert_eq!(out.current, doc);
    assert_eq!(out.initial, doc);
}

#[test]
fn other_operators_are_an_invariant_violation() {
    let doc = obj(vec![("a", num(1))]);
    let (res, out) = merged(
        doc.duplicate(),
        None,
        Some(Data::SetExpression(vec![set(&["a"], Operator::Add, num(2))])),
    );
    assert_eq!(res, Err(Error::InternalInvariantViolation));
    assert_eq!(out.current, doc);
}

#[test]
fn a_failing_expression_comes_before_the_operator() {
    let (res, _) = merged(
        obj(vec![]),
        None,
        Some(Data::SetExpression(vec![set(
            &["a"],
            Operator::Add,
            Value::Expression(Box::new(num(1)), Operator::Div, Box::new(num(0))),
        )])),
    );
    assert_eq!(res, Err(Error::Evaluation(EvaluationError::DivisionByZero)));
}

#[test]
fn merge_accepts_only_statements_that_change_documents() {
    let select = SelectStatement {
        expr: Fields(vec![]),
        what: Values(vec![]),
        cond: None,
        split: None,
        group: None,
        order: None,
        limit: None,
        start: None,
        fetch: None,
        version: None,
        timeout: None,
    };
    let loaded = obj(vec![("a", num(1))]);
    let mut doc = Document::new(None, &loaded);
    let res = doc.merge(
        &Runtime::new(),
        &Options::new(Level::Kv),
        &Transaction::new(false),
        &Statement::Select(&select),
    );
    assert_eq!(res, Err(Error::InternalInvariantViolation));
    assert_eq!(doc.current, loaded);
    let create = CreateStatement {
        what: Values(vec![]),
        data: Some(Data::MergeExpression(obj(vec![("b", num(2))]))),
    };
    let res = doc.merge(
        &Runtime::new(),
        &Options::new(Level::Kv),
        &Transaction::new(false),
        &Statement::Create(&create),
    );
    assert_eq!(res, Ok(()));
    assert_eq!(doc.current, obj(vec![("a", num(1)), ("b", num(2))]));
}

#[test]
fn merge_is_deep_and_the_right_side_wins() {
    let out = after(
        obj(vec![("a", obj(vec![("x", num(1)), ("y", num(2))])), ("b", num(3))]),
        Data::MergeExpression(obj(vec![
            ("a", obj(vec![("y", num(20)), ("z", num(30))])),
            ("b", obj(vec![("c", num(4))])),
        ])),
    );
    assert_eq!(
        out,
        obj(vec![
            ("a", obj(vec![("x", num(1)), ("y", num(20)), ("z", num(30))])),
            ("b", obj(vec![("c", num(4))])),
        ])
    );
}

#[test]
fn merge_of_what_is_no_object_is_a_type_mismatch() {
    let doc = obj(vec![("a", num(1))]);
    let (res, out) = merged(doc.duplicate(), None, Some(Data::MergeExpression(num(5))));
    assert_eq!(res, Err(Error::Evaluation(EvaluationError::TypeMismatch)));
    assert_eq!(out.current, doc);
}

fn operation(op: &str, pointer: &str, value: Option<Value>) -> Value {
    let mut entries = vec![("op", strand(op)), ("path", strand(pointer))];
    if let Some(v) = value {
        entries.push(("value", v));
    }
    obj(entries)
}

#[test]
fn patch_applies_the_operations_in_order() {
    let out = after(
        obj(vec![("a", num(1)), ("b", obj(vec![("c", num(2))]))]),
        Data::PatchExpression(Value::Array(vec![
            operation("add", "/d", Some(num(4))),
            operation("replace", "/b/c", Some(strand("two"))),
            operation("remove", "/a", None),
            operation("add", "/e/f", Some(Value::Null)),
        ])),
    );
    assert_eq!(
        out,
        obj(vec![
            ("b", obj(vec![("c", strand("two"))])),
            ("d", num(4)),
            ("e", obj(vec![("f", Value::Null)])),
        ])
    );
}

#[test]
fn a_malformed_patch_fails_and_changes_nothing() {
    let doc = obj(vec![("a", num(1))]);
    let bad = vec![
        num(1),
        Value::Array(vec![num(1)]),
        Value::Array(vec![operation("move", "/a", Some(num(1)))]),
        Value::Array(vec![operation("add", "a", Some(num(1)))]),
        Value::Array(vec![operation("add", "", Some(num(1)))]),
        Value::Array(vec![operation("add", "/a", None)]),
        Value::Array(vec![obj(vec![("op", strand("remove"))])]),
        Value::Array(vec![obj(vec![("op", num(1)), ("path", strand("/a"))])]),
        Value::Array(vec![operation("add", "/b", Some(num(2))), operation("nope", "/a", None)]),
    ];
    for ops in bad {
        let (res, out) = merged(doc.duplicate(), None, Some(Data::PatchExpression(ops)));
        assert_eq!(res, Err(Error::Patch));
        assert_eq!(out.current, doc);
    }
}

#[test]
fn the_clause_is_not_applied_once_the_signal_is_tripped() {
    let stm = update(Some(Data::SetExpression(vec![set(&["a"], Operator::Equal, num(2))])));
    let loaded = obj(vec![("a", num(1))]);
    let mut doc = Document::new(None, &loaded);
    let mut ctx = Runtime::new();
    ctx.cancel();
    let res = doc.merge(
        &ctx,
        &Options::new(Level::Kv),
        &Transaction::new(false),
        &Statement::Update(&stm),
    );
    assert_eq!(res, Err(Error::Cancelled));
    assert_eq!(doc.current, loaded);
}
