use cellar::dialect::{quote_string_literal, Dialect};
use cellar::engine::{CellarError, Engine};
use cellar::ordered_map::OrderedMap;
use cellar::params::{
    order_values, prepare, prepare_native, prepare_tokens, DetectedParameter, ParamError,
    ParameterStyle, PlaceholderStyle, SqlToken, TokenKind,
};
use cellar::query::{prepare_mysql_query, prepare_sql_server_query, Query, QueryParameter};
use cellar::value::CellValue;

fn names(params: &[DetectedParameter]) -> Vec<&str> {
    params.iter().map(|p| p.name.as_str()).collect()
}

#[test]
fn quotes_identifiers_per_dialect() {
    assert_eq!(Dialect::Postgres.quote_ident("users"), "\"users\"");
    assert_eq!(Dialect::Sqlite.quote_ident("users"), "\"users\"");
    assert_eq!(Dialect::MySql.quote_ident("users"), "`users`");
    assert_eq!(Dialect::Mssql.quote_ident("users"), "[users]");
}

#[test]
fn escapes_embedded_quote_characters() {
    assert_eq!(Dialect::Postgres.quote_ident("a\"b"), "\"a\"\"b\"");
    assert_eq!(Dialect::MySql.quote_ident("a`b"), "`a``b`");
    assert_eq!(Dialect::Mssql.quote_ident("a]b"), "[a]]b]");
}

#[test]
fn qualifies_schema_and_object() {
    assert_eq!(
        Dialect::Postgres.quote_qualified("public", "orders"),
        "\"public\".\"orders\""
    );
}

#[test]
fn escapes_string_literals() {
    assert_eq!(quote_string_literal("paid's"), "'paid''s'");
    assert_eq!(quote_string_literal("plain"), "'plain'");
}

#[test]
fn detects_named_parameters_in_order() {
    let prepared = prepare(
        "SELECT * FROM users WHERE id = :user_id AND created_at > :since",
        Engine::Postgres,
    )
    .unwrap();
    assert_eq!(names(&prepared.parameters), vec!["user_id", "since"]);
    assert_eq!(prepared.parameters[0].style, ParameterStyle::Named);
    assert_eq!(prepared.parameters[0].ordinal, 1);
    assert_eq!(prepared.parameters[1].ordinal, 2);
    assert_eq!(
        prepared.sql,
        "SELECT * FROM users WHERE id = $1 AND created_at > $2"
    );
}

#[test]
fn detects_positional_parameters() {
    let prepared = prepare("SELECT * FROM t WHERE a = $1 AND b = $2", Engine::Postgres).unwrap();
    assert_eq!(names(&prepared.parameters), vec!["1", "2"]);
    assert!(prepared
        .parameters
        .iter()
        .all(|p| p.style == ParameterStyle::Positional));
    assert_eq!(prepared.sql, "SELECT * FROM t WHERE a = $1 AND b = $2");
}

#[test]
fn dedupes_repeated_named_parameter() {
    let prepared = prepare(
        "SELECT * FROM t WHERE a = :x OR b = :x OR c = :y",
        Engine::Postgres,
    )
    .unwrap();
    assert_eq!(names(&prepared.parameters), vec!["x", "y"]);
    assert_eq!(
        prepared.sql,
        "SELECT * FROM t WHERE a = $1 OR b = $1 OR c = $2"
    );
}

#[test]
fn ignores_placeholders_inside_strings_and_comments() {
    let prepared = prepare(
        "SELECT ':not_a_param' AS s -- :also_not\nFROM t WHERE id = :real",
        Engine::Postgres,
    )
    .unwrap();
    assert_eq!(names(&prepared.parameters), vec!["real"]);
}

#[test]
fn ignores_dollar_quoted_bodies() {
    let prepared = prepare(
        "SELECT $$ body with $1 inside $$ AS b WHERE id = :id",
        Engine::Postgres,
    )
    .unwrap();
    assert_eq!(names(&prepared.parameters), vec!["id"]);
}

#[test]
fn infers_column_hint_from_comparison() {
    let prepared = prepare("SELECT * FROM users WHERE id = :uid", Engine::Postgres).unwrap();
    assert_eq!(prepared.parameters[0].column_hint.as_deref(), Some("id"));
}

#[test]
fn infers_column_hint_with_qualified_column_and_reversed_order() {
    let prepared = prepare("SELECT * FROM users u WHERE :uid = u.id", Engine::Postgres).unwrap();
    assert_eq!(prepared.parameters[0].column_hint.as_deref(), Some("id"));
}

#[test]
fn no_parameters_round_trips_sql() {
    let sql = "SELECT a, b FROM t WHERE c = 'x' AND d = 3 -- note\n ORDER BY a";
    let prepared = prepare(sql, Engine::Postgres).unwrap();
    assert!(prepared.parameters.is_empty());
    assert_eq!(prepared.sql, sql);
}

#[test]
fn order_values_resolves_by_name() {
    let prepared = prepare("SELECT * FROM t WHERE a = :x AND b = :y", Engine::Postgres).unwrap();
    let mut by_name: OrderedMap<String, i32> = OrderedMap::new();
    by_name.insert("x".to_string(), 10);
    by_name.insert("y".to_string(), 20);
    let ordered = order_values(&prepared.parameters, &by_name).unwrap();
    assert_eq!(ordered, vec![&10, &20]);
}

#[test]
fn order_values_reports_missing() {
    let prepared = prepare("SELECT * FROM t WHERE a = :x", Engine::Postgres).unwrap();
    let by_name: OrderedMap<String, i32> = OrderedMap::new();
    let err = order_values(&prepared.parameters, &by_name).unwrap_err();
    assert!(matches!(err, ParamError::MissingValue(n) if n == "x"));
}

#[test]
fn native_placeholders_follow_the_engine() {
    let sql = "SELECT * FROM t WHERE a = :x AND b = :x";
    let mysql = prepare_native(sql, Engine::MySql).unwrap();
    assert_eq!(mysql.sql, "SELECT * FROM t WHERE a = ? AND b = ?");
    assert_eq!(names(&mysql.parameters), vec!["x"]);
    assert_eq!(names(&mysql.bind_parameters), vec!["x", "x"]);
    let mssql = prepare_native(sql, Engine::Mssql).unwrap();
    assert_eq!(mssql.sql, "SELECT * FROM t WHERE a = @P1 AND b = @P1");
    let postgres = prepare_native(sql, Engine::Postgres).unwrap();
    assert_eq!(postgres.sql, "SELECT * FROM t WHERE a = $1 AND b = $1");
}

#[test]
fn the_family_of_an_engine_decides_its_dialect() {
    assert_eq!(Engine::Neon.family(), Engine::Postgres);
    assert_eq!(Engine::Neon.family().family(), Engine::Postgres);
    assert_eq!(Engine::PlanetScale.dialect(), Some(Dialect::MySql));
    assert_eq!(Engine::Firestore.dialect(), None);
}

#[test]
fn unreadable_sql_is_reported() {
    let error = prepare("SELECT 'open", Engine::Postgres).unwrap_err();
    assert!(matches!(error, ParamError::Tokenize(_)));
}

fn token(kind: TokenKind, text: &str) -> SqlToken {
    SqlToken { kind, text: text.to_string() }
}

#[test]
fn only_placeholders_of_the_tokens_are_rewritten() {
    let tokens = vec![
        token(TokenKind::Other, "SELECT"),
        token(TokenKind::Whitespace, " "),
        token(TokenKind::Placeholder("$1".to_string()), "$1"),
    ];
    let prepared = prepare_tokens(&tokens, PlaceholderStyle::Question);
    assert_eq!(prepared.sql, "SELECT ?");
    assert_eq!(names(&prepared.parameters), vec!["1"]);
}

fn query(sql: &str, params: Vec<(&str, CellValue)>) -> Query {
    let mut query = Query::new(sql.to_string());
    query.params = params
        .into_iter()
        .map(|(name, value)| QueryParameter { name: name.to_string(), value })
        .collect();
    query
}

#[test]
fn every_placeholder_gets_the_value_of_its_parameter() {
    let q = query(
        "SELECT * FROM t WHERE a = :x AND b = :y AND c = :x",
        vec![("y", CellValue::Int(2)), ("x", CellValue::Int(1))],
    );
    let (sql, values) = prepare_mysql_query(&q).unwrap();
    assert_eq!(sql, "SELECT * FROM t WHERE a = ? AND b = ? AND c = ?");
    assert_eq!(values, vec![CellValue::Int(1), CellValue::Int(2), CellValue::Int(1)]);
    let (sql, values) = prepare_sql_server_query(&q).unwrap();
    assert_eq!(sql, "SELECT * FROM t WHERE a = @P1 AND b = @P2 AND c = @P1");
    assert_eq!(values, vec![CellValue::Int(1), CellValue::Int(2)]);
}

#[test]
fn a_query_without_values_is_sent_as_it_is() {
    let q = query("SELECT   1", vec![]);
    let (sql, values) = prepare_mysql_query(&q).unwrap();
    assert_eq!(sql, "SELECT   1");
    assert!(values.is_empty());
}

#[test]
fn a_missing_value_is_a_query_error() {
    let q = query("SELECT :a, :b", vec![("a", CellValue::Null)]);
    let error = prepare_mysql_query(&q).unwrap_err();
    assert!(matches!(error, CellarError::Query(message) if message.contains('b')));
}
