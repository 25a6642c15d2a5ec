use haske_core::query::{
    batch_insert, build_delete_query, build_select_query, build_update_query, prepare_query,
    validate_query_syntax, QueryError,
};

#[test]
fn prepare_rewrites_named_params() {
    let (sql, names) = prepare_query("SELECT * FROM t WHERE id = :id AND age > :age").unwrap();
    assert_eq!(sql, "SELECT * FROM t WHERE id = $1 AND age > $2");
    assert_eq!(names, vec!["id".to_string(), "age".to_string()]);
}

#[test]
fn prepare_without_params_is_identity() {
    let (sql, names) = prepare_query("SELECT 1").unwrap();
    assert_eq!(sql, "SELECT 1");
    assert!(names.is_empty());
}

#[test]
fn prepare_rejects_empty_param_name() {
    assert_eq!(
        prepare_query("SELECT * FROM t WHERE id = :"),
        Err(QueryError::EmptyParamName)
    );
    assert_eq!(
        prepare_query("a : b"),
        Err(QueryError::EmptyParamName)
    );
}

#[test]
fn prepare_repeated_name_gets_fresh_number() {
    let (sql, names) = prepare_query(":a :a").unwrap();
    assert_eq!(sql, "$1 $2");
    assert_eq!(names, vec!["a".to_string(), "a".to_string()]);
}

#[test]
fn select_query_full_form() {
    let q = build_select_query(
        "users",
        vec!["id".to_string(), "name".to_string()],
        vec!["age > 18".to_string(), "active = true".to_string()],
        Some("name".to_string()),
        Some(10),
        Some(20),
    );
    assert_eq!(
        q,
        "SELECT id, name FROM users WHERE age > 18 AND active = true ORDER BY name LIMIT 10 OFFSET 20"
    );
}

#[test]
fn select_query_defaults_to_star() {
    let q = build_select_query("t", Vec::new(), Vec::new(), None, None, None);
    assert_eq!(q, "SELECT * FROM t");
}

#[test]
fn update_query_with_and_without_where() {
    let q = build_update_query(
        "t",
        vec!["a = 1".to_string(), "b = 2".to_string()],
        vec!["id = 3".to_string()],
    );
    assert_eq!(q, "UPDATE t SET a = 1, b = 2 WHERE id = 3");
    let q2 = build_update_query("t", vec!["a = 1".to_string()], Vec::new());
    assert_eq!(q2, "UPDATE t SET a = 1");
}

#[test]
fn delete_query_with_and_without_where() {
    assert_eq!(
        build_delete_query("t", vec!["id = 1".to_string()]),
        "DELETE FROM t WHERE id = 1"
    );
    assert_eq!(build_delete_query("t", Vec::new()), "DELETE FROM t");
}

#[test]
fn batch_insert_numbers_placeholders_row_major() {
    let q = batch_insert(
        "t",
        vec!["a".to_string(), "b".to_string()],
        vec![2, 2, 2],
    )
    .unwrap();
    assert_eq!(
        q,
        "INSERT INTO t (a, b) VALUES ($1, $2), ($3, $4), ($5, $6)"
    );
}

#[test]
fn batch_insert_errors() {
    assert_eq!(
        batch_insert("t", vec!["a".to_string()], Vec::new()),
        Err(QueryError::NoValues)
    );
    assert_eq!(
        batch_insert("t", Vec::new(), vec![1]),
        Err(QueryError::NoColumns)
    );
    assert_eq!(
        batch_insert("t", vec!["a".to_string(), "b".to_string()], vec![2, 3]),
        Err(QueryError::RowLengthMismatch)
    );
}

#[test]
fn query_syntax_screen() {
    assert!(validate_query_syntax("SELECT * FROM t"));
    assert!(validate_query_syntax("select name from t where id = $1"));
    assert!(validate_query_syntax("WITH x AS (SELECT 1) SELECT * FROM x"));
    assert!(!validate_query_syntax("SELECT * FROM t; DROP TABLE t"));
    assert!(!validate_query_syntax("SELECT * FROM t --comment"));
    assert!(validate_query_syntax("SELECT a -- b -- FROM t"));
    assert!(!validate_query_syntax("EXPLAIN SELECT 1"));
    assert!(!validate_query_syntax(""));
}
