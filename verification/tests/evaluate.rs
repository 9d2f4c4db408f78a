use surreal_core::dbs::options::{Level, Options};
use surreal_core::dbs::runtime::Runtime;
use surreal_core::err::{Error, EvaluationError};
use surreal_core::sql::operator::Operator;
use surreal_core::sql::order::Compared;
use surreal_core::sql::value::{Idiom, Model, Number, Thing, Value};

fn text(s: &str) -> Vec<u8> {
    s.as_bytes().to_vec()
}

fn path(parts: &[&str]) -> Idiom {
    Idiom { parts: parts.iter().map(|p| text(p)).collect() }
}

fn num(n: i64) -> Value {
    Value::Number(Number(n * 1_000_000))
}

fn millionths(n: i64) -> Value {
    Value::Number(Number(n))
}

fn strand(s: &str) -> Value {
    Value::Strand(text(s))
}

fn obj(entries: Vec<(&str, Value)>) -> Value {
    Value::Object(entries.into_iter().map(|(k, v)| (text(k), v)).collect())
}

fn binary(l: Value, op: Operator, r: Value) -> Value {
    Value::Expression(Box::new(l), op, Box::new(r))
}

fn eval(v: &Value, doc: Option<&Value>) -> Result<Value, Error> {
    v.compute(&Runtime::new(), &Options::new(Level::No), doc)
}

#[test]
fn arithmetic_is_exact_to_a_millionth() {
    let sum = Value::Subquery(Box::new(binary(num(1), Operator::Add, num(3))));
    assert_eq!(eval(&binary(sum, Operator::Div, num(4)), None), Ok(num(1)));
    assert_eq!(eval(&binary(num(1), Operator::Div, num(3)), None), Ok(millionths(333_333)));
    assert_eq!(eval(&binary(num(-1), Operator::Div, num(3)), None), Ok(millionths(-333_333)));
    assert_eq!(eval(&binary(num(2), Operator::Div, num(-3)), None), Ok(millionths(-666_666)));
    assert_eq!(
        eval(&binary(millionths(1_500_000), Operator::Mul, millionths(1_500_000)), None),
        Ok(millionths(2_250_000))
    );
    assert_eq!(
        eval(&binary(millionths(-1), Operator::Mul, millionths(999_999)), None),
        Ok(millionths(0))
    );
    assert_eq!(eval(&binary(num(5), Operator::Sub, num(7)), None), Ok(num(-2)));
    assert_eq!(Number::whole(3), Some(Number(3_000_000)));
    assert_eq!(Number::whole(i64::MAX), None);
}

#[test]
fn arithmetic_errors() {
    assert_eq!(
        eval(&binary(num(1), Operator::Div, num(0)), None),
        Err(Error::Evaluation(EvaluationError::DivisionByZero))
    );
    assert_eq!(
        eval(&binary(millionths(i64::MAX), Operator::Add, millionths(1)), None),
        Err(Error::Evaluation(EvaluationError::Overflow))
    );
    assert_eq!(
        eval(&binary(millionths(i64::MIN), Operator::Sub, millionths(1)), None),
        Err(Error::Evaluation(EvaluationError::Overflow))
    );
    assert_eq!(
        eval(&binary(millionths(i64::MAX), Operator::Mul, num(2)), None),
        Err(Error::Evaluation(EvaluationError::Overflow))
    );
    assert_eq!(
        eval(&binary(millionths(i64::MAX), Operator::Div, millionths(1)), None),
        Err(Error::Evaluation(EvaluationError::Overflow))
    );
    assert_eq!(
        eval(&binary(num(1), Operator::Add, strand("a")), None),
        Err(Error::Evaluation(EvaluationError::TypeMismatch))
    );
    assert_eq!(
        eval(&binary(num(1), Operator::Inc, num(1)), None),
        Err(Error::InternalInvariantViolation)
    );
}

#[test]
fn the_first_error_ends_the_evaluation() {
    let bad = binary(num(1), Operator::Div, num(0));
    let worse = binary(num(1), Operator::Add, strand("a"));
    assert_eq!(
        eval(&Value::Array(vec![num(1), bad.duplicate(), worse.duplicate()]), None),
        Err(Error::Evaluation(EvaluationError::DivisionByZero))
    );
    assert_eq!(
        eval(&binary(worse, Operator::Add, bad), None),
        Err(Error::Evaluation(EvaluationError::TypeMismatch))
    );
}

#[test]
fn comparisons_and_truth() {
    assert_eq!(eval(&binary(num(1), Operator::LessThan, num(2)), None), Ok(Value::Bool(true)));
    assert_eq!(eval(&binary(num(2), Operator::LessThanOrEqual, num(2)), None), Ok(Value::Bool(true)));
    assert_eq!(eval(&binary(num(2), Operator::MoreThan, num(2)), None), Ok(Value::Bool(false)));
    assert_eq!(eval(&binary(num(2), Operator::MoreThanOrEqual, num(3)), None), Ok(Value::Bool(false)));
    assert_eq!(eval(&binary(strand("a"), Operator::Equal, strand("a")), None), Ok(Value::Bool(true)));
    assert_eq!(eval(&binary(strand("a"), Operator::NotEqual, strand("a")), None), Ok(Value::Bool(false)));
    assert_eq!(eval(&binary(num(1), Operator::And, strand("")), None), Ok(Value::Bool(false)));
    assert_eq!(eval(&binary(num(0), Operator::Or, strand("x")), None), Ok(Value::Bool(true)));
    assert!(!Value::Void.is_truthy());
    assert!(!Value::Null.is_truthy());
    assert!(!Value::Array(vec![]).is_truthy());
    assert!(Value::Thing(Thing { tb: text("a"), id: text("b") }).is_truthy());
}

#[test]
fn fields_need_a_document() {
    let doc = obj(vec![("a", obj(vec![("b", num(7))]))]);
    let field = Value::Idiom(path(&["a", "b"]));
    assert_eq!(eval(&field, Some(&doc)), Ok(num(7)));
    assert_eq!(eval(&Value::Idiom(path(&["a", "x"])), Some(&doc)), Ok(Value::Void));
    assert_eq!(eval(&field, None), Err(Error::Evaluation(EvaluationError::NoContextDocument)));
    let this = Value::Param(text("this"));
    assert_eq!(eval(&this, Some(&doc)), Ok(doc.duplicate()));
    assert_eq!(eval(&this, None), Err(Error::Evaluation(EvaluationError::NoContextDocument)));
}

#[test]
fn parameters_come_from_the_runtime() {
    let mut ctx = Runtime::new();
    ctx.define(&text("limit"), num(3));
    let opt = Options::new(Level::No);
    assert_eq!(Value::Param(text("limit")).compute(&ctx, &opt, None), Ok(num(3)));
    assert_eq!(Value::Param(text("other")).compute(&ctx, &opt, None), Ok(Value::Void));
    ctx.define(&text("limit"), num(4));
    assert_eq!(Value::Param(text("limit")).compute(&ctx, &opt, None), Ok(num(4)));
}

#[test]
fn futures_are_computed_only_where_they_are_enabled() {
    let future = Value::Future(Box::new(binary(num(1), Operator::Add, num(1))));
    let ctx = Runtime::new();
    let off = Options::new(Level::No);
    assert_eq!(future.compute(&ctx, &off, None), Ok(future.duplicate()));
    let on = off.futures(true);
    assert!(on.futures);
    assert_eq!(on.auth, Level::No);
    assert_eq!(future.compute(&ctx, &on, None), Ok(num(2)));
}

#[test]
fn data_is_computed_element_by_element() {
    let doc = obj(vec![("a", num(1))]);
    let v = obj(vec![
        ("x", Value::Array(vec![Value::Idiom(path(&["a"])), binary(num(1), Operator::Add, num(1))])),
        ("y", Value::Table(text("t"))),
    ]);
    assert_eq!(
        eval(&v, Some(&doc)),
        Ok(obj(vec![("x", Value::Array(vec![num(1), num(2)])), ("y", Value::Table(text("t")))]))
    );
}

#[test]
fn nothing_is_computed_once_the_runtime_says_stop() {
    let opt = Options::new(Level::No);
    let mut ctx = Runtime::new();
    assert_eq!(ctx.check(), Ok(()));
    ctx.cancel();
    assert_eq!(ctx.check(), Err(Error::Cancelled));
    assert_eq!(num(1).compute(&ctx, &opt, None), Err(Error::Cancelled));
    let mut ctx = Runtime::new();
    ctx.tick(10);
    let timed = ctx.with_timeout(5);
    assert_eq!(timed.deadline, Some(15));
    assert_eq!(num(1).compute(&timed, &opt, None), Ok(num(1)));
    let earlier = timed.with_timeout(100);
    assert_eq!(earlier.deadline, Some(15));
    let mut late = timed.with_timeout(2);
    assert_eq!(late.deadline, Some(12));
    late.tick(12);
    assert_eq!(late.check(), Err(Error::Timeout));
    assert_eq!(num(1).compute(&late, &opt, None), Err(Error::Timeout));
    late.cancel();
    assert_eq!(late.check(), Err(Error::Cancelled));
    let mut far = Runtime::new();
    far.tick(u64::MAX - 1);
    assert_eq!(far.with_timeout(5).deadline, Some(u64::MAX));
}

#[test]
fn options_check_the_authority() {
    assert_eq!(Options::new(Level::No).check(Level::No), Ok(()));
    assert_eq!(Options::new(Level::No).check(Level::Db), Err(Error::Permission));
    assert_eq!(Options::new(Level::Db).check(Level::Db), Ok(()));
    assert_eq!(Options::new(Level::Db).check(Level::Ns), Err(Error::Permission));
    assert_eq!(Options::new(Level::Ns).check(Level::Kv), Err(Error::Permission));
    assert_eq!(Options::new(Level::Kv).check(Level::Kv), Ok(()));
    assert_eq!(Options::new(Level::Kv).check(Level::No), Ok(()));
}

#[test]
fn values_are_ordered_by_kind_and_then_by_content() {
    let ordered = vec![
        Value::Void,
        Value::Null,
        Value::Bool(false),
        Value::Bool(true),
        millionths(-5),
        num(0),
        num(3),
        strand(""),
        strand("a"),
        strand("ab"),
        strand("b"),
        Value::Array(vec![]),
        Value::Array(vec![num(1)]),
        Value::Array(vec![num(1), Value::Void]),
        Value::Array(vec![num(2)]),
        obj(vec![]),
        obj(vec![("a", num(1))]),
        obj(vec![("a", num(2))]),
        obj(vec![("b", num(0))]),
        Value::Table(text("t")),
        Value::Thing(Thing { tb: text("t"), id: text("a") }),
        Value::Thing(Thing { tb: text("t"), id: text("b") }),
        Value::Thing(Thing { tb: text("u"), id: text("a") }),
        Value::Model(Model { tb: text("t"), from: 1, to: 2 }),
        Value::Model(Model { tb: text("t"), from: 1, to: 3 }),
        Value::Param(text("p")),
        Value::Idiom(path(&["a"])),
        Value::Idiom(path(&["a", "b"])),
        Value::Subquery(Box::new(num(1))),
        binary(num(1), Operator::Add, num(1)),
        binary(num(1), Operator::Sub, num(0)),
        Value::Future(Box::new(num(1))),
    ];
    for (i, a) in ordered.iter().enumerate() {
        for (j, b) in ordered.iter().enumerate() {
            let expected = if i < j {
                Compared::Less
            } else if i == j {
                Compared::Equal
            } else {
                Compared::Greater
            };
            assert_eq!(a.compare(b), expected);
            assert_eq!(a.same(b), i == j);
        }
        assert_eq!(a.duplicate(), *a);
    }
}
