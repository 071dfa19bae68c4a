use webcortex::db::{affected, bind_value, decode_column, has_schema, pool_size, row_to_json, shape_rows, strip_scheme, Binding, Cell, QueryError};
use webcortex::json::{parse, Json};
use webcortex::manifest::QueryReturns;

fn json(text: &str) -> Json {
    parse(text).expect("test value parses")
}

#[test]
fn an_in_memory_database_has_one_connection() {
    assert_eq!(strip_scheme("sqlite::memory:"), ":memory:");
    assert_eq!(pool_size(":memory:", 16), 1);
    assert_eq!(pool_size("app.db", 16), 16);
    assert!(has_schema("create table t (a)") && !has_schema("  \n"));
}

#[test]
fn values_are_bound_by_their_kind() {
    assert!(matches!(bind_value(&json("null")), Binding::Null));
    assert!(matches!(bind_value(&json("true")), Binding::Bool(true)));
    assert!(matches!(bind_value(&json("-4")), Binding::Int(-4)));
    assert!(matches!(bind_value(&json("1.5")), Binding::Real(_)));
    assert!(matches!(bind_value(&json("\"x\"")), Binding::Text(t) if t == "x"));
    assert!(matches!(bind_value(&json("[1]")), Binding::Text(t) if t == "[1]"));
}

#[test]
fn a_column_is_read_as_it_was_declared() {
    let cell = || Cell { int: Some(json("1")), real: None, boolean: Some(json("true")), text: None };
    assert_eq!(decode_column("BOOLEAN", &cell()).to_text(), "true");
    assert_eq!(decode_column("INTEGER", &cell()).to_text(), "1");
    let nothing = Cell { int: None, real: None, boolean: None, text: None };
    assert!(decode_column("TEXT", &nothing).is_null());
}

#[test]
fn rows_are_shaped_as_asked() {
    let row = || row_to_json(&vec!["a".into(), "b".into()], &vec![json("1"), json("2")]);
    assert_eq!(row().to_text(), r#"{"a":1,"b":2}"#);
    assert_eq!(shape_rows(vec![row()], QueryReturns::Many).to_text(), r#"[{"a":1,"b":2}]"#);
    assert_eq!(shape_rows(vec![row()], QueryReturns::One).to_text(), r#"{"a":1,"b":2}"#);
    assert!(shape_rows(vec![], QueryReturns::One).is_null());
    assert_eq!(affected(2, 9).to_text(), r#"{"affected":2,"last_insert_id":9}"#);
}

#[test]
fn only_the_callers_own_faults_are_told() {
    let bad = QueryError::from_sqlx("UNIQUE constraint failed: t.a", Some("UNIQUE constraint failed: t.a"));
    assert_eq!(bad.status(), 400);
    let inner = QueryError::from_sqlx("no such table: t", Some("no such table: t"));
    assert_eq!(inner.status(), 500);
    assert!(!inner.message().contains("no such table"), "{}", inner.message());
}
