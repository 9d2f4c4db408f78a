use surreal_core::sql::clause::{Field, Limit, Orders, Start, Timeout, Version};
use surreal_core::sql::operator::Operator;
use surreal_core::sql::statements::select::{select, SelectStatement};
use surreal_core::sql::value::{Idiom, Number, Thing, Value};

fn text(s: &str) -> Vec<u8> {
    s.as_bytes().to_vec()
}

fn path(parts: &[&str]) -> Idiom {
    Idiom { parts: parts.iter().map(|p| text(p)).collect() }
}

fn round_trip(sql: &str) -> SelectStatement {
    let res = select(sql);
    assert!(res.is_ok());
    let (rest, out) = res.unwrap();
    assert!(rest.is_empty());
    assert_eq!(sql, out.to_string());
    assert_eq!(sql.as_bytes(), out.to_bytes().as_slice());
    out
}

#[test]
fn select_statement_param() {
    let sql = "SELECT * FROM $test";
    let res = select(sql);
    assert!(res.is_ok());
    let out = res.unwrap().1;
    assert_eq!(sql, out.to_string())
}

#[test]
fn select_statement_table() {
    let sql = "SELECT * FROM test";
    let res = select(sql);
    assert!(res.is_ok());
    let out = res.unwrap().1;
    assert_eq!(sql, out.to_string());
}

#[test]
fn select_statement_thing() {
    let sql = "SELECT * FROM test:thingy ORDER BY name";
    let res = select(sql);
    assert!(res.is_ok());
    let out = res.unwrap().1;
    assert_eq!(sql, out.to_string())
}

#[test]
fn select_statement_clash() {
    let sql = "SELECT * FROM order ORDER BY order";
    let res = select(sql);
    assert!(res.is_ok());
    let out = res.unwrap().1;
    assert_eq!(sql, out.to_string())
}

#[test]
fn select_statement_table_thing() {
    let sql = "SELECT *, ((1 + 3) / 4), 1.3999 AS tester FROM test, test:thingy";
    let res = select(sql);
    assert!(res.is_ok());
    let out = res.unwrap().1;
    assert_eq!(sql, out.to_string())
}

#[test]
fn select_parses_the_sources_by_kind() {
    let out = round_trip("SELECT * FROM $test, test, test:thingy");
    assert_eq!(
        out.what.0,
        vec![
            Value::Param(text("test")),
            Value::Table(text("test")),
            Value::Thing(Thing { tb: text("test"), id: text("thingy") }),
        ]
    );
    assert_eq!(out.expr.0, vec![Field::All]);
    assert_eq!(out.cond, None);
    assert_eq!(out.limit(), 0);
    assert_eq!(out.start(), 0);
}

#[test]
fn select_parses_fields_and_expressions() {
    let out = round_trip("SELECT *, ((1 + 3) / 4), 1.3999 AS tester FROM test, test:thingy");
    let one = Value::Number(Number(1_000_000));
    let three = Value::Number(Number(3_000_000));
    let four = Value::Number(Number(4_000_000));
    let sum = Value::Subquery(Box::new(Value::Expression(
        Box::new(one),
        Operator::Add,
        Box::new(three),
    )));
    let quotient =
        Value::Subquery(Box::new(Value::Expression(Box::new(sum), Operator::Div, Box::new(four))));
    assert_eq!(
        out.expr.0,
        vec![
            Field::All,
            Field::Alone(quotient),
            Field::Alias(Value::Number(Number(1_399_900)), path(&["tester"])),
        ]
    );
}

#[test]
fn select_round_trips_every_clause() {
    let out = round_trip(
        "SELECT name, age FROM person WHERE age >= 18 SPLIT ON tags GROUP BY city ORDER BY name, age DESC LIMIT 10 START 5 FETCH friend VERSION 7 TIMEOUT 250ms",
    );
    assert_eq!(out.limit, Some(Limit(10)));
    assert_eq!(out.start, Some(Start(5)));
    assert_eq!(out.version, Some(Version(7)));
    assert_eq!(out.timeout, Some(Timeout(250)));
    assert_eq!(out.limit(), 10);
    assert_eq!(out.start(), 5);
    let order = out.order.unwrap();
    assert_eq!(order.0.len(), 2);
    assert!(order.0[0].direction);
    assert!(!order.0[1].direction);
    assert_eq!(order.0[1].order, path(&["age"]));
}

#[test]
fn select_round_trips_subsets_of_clauses() {
    round_trip("SELECT * FROM test WHERE a = 1");
    round_trip("SELECT * FROM test SPLIT ON a, b");
    round_trip("SELECT * FROM test GROUP BY a.b");
    round_trip("SELECT * FROM test LIMIT 3");
    round_trip("SELECT * FROM test START 2");
    round_trip("SELECT * FROM test FETCH a");
    round_trip("SELECT * FROM test VERSION 12");
    round_trip("SELECT * FROM test TIMEOUT 5ms");
    round_trip("SELECT * FROM test WHERE a != \"x\" LIMIT 1 TIMEOUT 5ms");
    round_trip("SELECT * FROM test ORDER BY a DESC START 4");
    round_trip("SELECT a AS b FROM test WHERE (a < 3) AND true");
    round_trip("SELECT -1.5, 0.000001, 12 FROM test");
}

#[test]
fn select_reads_keywords_in_any_case_and_writes_them_in_one() {
    let res = select("select  *  from   test   order by name");
    assert!(res.is_ok());
    let (rest, out) = res.unwrap();
    assert!(rest.is_empty());
    assert_eq!("SELECT * FROM test ORDER BY name", out.to_string());
    assert_eq!(out.order, Some(Orders(vec![surreal_core::sql::clause::Order {
        order: path(&["name"]),
        direction: true,
    }])));
}

#[test]
fn select_leaves_what_it_does_not_read() {
    let res = select("SELECT * FROM test;");
    assert!(res.is_ok());
    let (rest, out) = res.unwrap();
    assert_eq!(rest, b";");
    assert_eq!("SELECT * FROM test", out.to_string());
}

#[test]
fn select_refuses_what_is_no_statement() {
    assert!(select("").is_err());
    assert!(select("SELECT").is_err());
    assert!(select("SELECT * test").is_err());
    assert!(select("SELECT * FROM").is_err());
    assert!(select("SELECTED * FROM test").is_err());
    assert!(select("CREATE test").is_err());
    assert!(select("SELECT 99999999999999999999 FROM test").is_err());
}

#[test]
fn select_numbers_have_at_most_six_decimals() {
    assert!(select("SELECT 1.1234567 FROM test").is_err());
    let out = round_trip("SELECT 1.123456 FROM test");
    assert_eq!(out.expr.0, vec![Field::Alone(Value::Number(Number(1_123_456)))]);
    let out = select("SELECT 1.50 FROM test").unwrap().1;
    assert_eq!(out.expr.0, vec![Field::Alone(Value::Number(Number(1_500_000)))]);
    assert_eq!("SELECT 1.5 FROM test", out.to_string());
}
