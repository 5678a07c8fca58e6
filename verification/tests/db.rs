use grading_core::db::{
    col_i64, col_opt_i64, col_opt_string, col_string, col_string_or_empty, migrate, Db, GradeError, SqlValue,
};

#[test]
fn opens_in_memory_and_creates_tables() {
    let db = Db::open_in_memory().unwrap();
    let count: i64 = db
        .conn
        .query_row(
            "SELECT count(*) FROM sqlite_master WHERE type='table' AND name IN
             ('exam','problem','score_preset','student','page','score','rubric_step','score_item')",
            [],
            |r| r.get(0),
        )
        .unwrap();
    assert_eq!(count, 8);
}

#[test]
fn score_has_comment_column_and_migration_is_idempotent() {
    let db = Db::open_in_memory().unwrap();
    let has: i64 = db
        .conn
        .query_row("SELECT count(*) FROM pragma_table_info('score') WHERE name='comment'", [], |r| r.get(0))
        .unwrap();
    assert_eq!(has, 1);
    migrate(&db.conn).unwrap();
    let has2: i64 = db
        .conn
        .query_row("SELECT count(*) FROM pragma_table_info('score') WHERE name='comment'", [], |r| r.get(0))
        .unwrap();
    assert_eq!(has2, 1);
}

#[test]
fn problem_has_rubric_column_and_migration_is_idempotent() {
    let db = Db::open_in_memory().unwrap();
    let has: i64 = db
        .conn
        .query_row("SELECT count(*) FROM pragma_table_info('problem') WHERE name='rubric'", [], |r| r.get(0))
        .unwrap();
    assert_eq!(has, 1);
    migrate(&db.conn).unwrap();
    let has2: i64 = db
        .conn
        .query_row("SELECT count(*) FROM pragma_table_info('problem') WHERE name='rubric'", [], |r| r.get(0))
        .unwrap();
    assert_eq!(has2, 1);
}

#[test]
fn migration_adds_missing_columns_to_an_older_database() {
    // An older file: tables without `score.comment` and `problem.rubric`.
    let conn = rusqlite::Connection::open_in_memory().unwrap();
    conn.execute_batch(
        "CREATE TABLE problem (id INTEGER PRIMARY KEY, exam_id INTEGER, number INTEGER, title TEXT, max_score INTEGER);
         CREATE TABLE score (student_id INTEGER, problem_id INTEGER, total INTEGER, state TEXT, preset_id INTEGER, submitted_at TEXT);",
    )
    .unwrap();
    migrate(&conn).unwrap();
    let n: i64 = conn
        .query_row(
            "SELECT count(*) FROM pragma_table_info('score') WHERE name='comment'",
            [],
            |r| r.get(0),
        )
        .unwrap();
    assert_eq!(n, 1);
    let m: i64 = conn
        .query_row(
            "SELECT count(*) FROM pragma_table_info('problem') WHERE name='rubric'",
            [],
            |r| r.get(0),
        )
        .unwrap();
    assert_eq!(m, 1);
}

#[test]
fn column_readers_accept_only_their_type() {
    let row = vec![SqlValue::Integer(7), SqlValue::Null, SqlValue::Text("x".into())];
    assert_eq!(col_i64(&row, 0).unwrap(), 7);
    assert!(matches!(col_i64(&row, 1), Err(GradeError::ColumnType { column: 1 })));
    assert!(matches!(col_i64(&row, 3), Err(GradeError::ColumnType { column: 3 })));
    assert_eq!(col_opt_i64(&row, 1).unwrap(), None);
    assert_eq!(col_opt_i64(&row, 0).unwrap(), Some(7));
    assert!(col_opt_i64(&row, 2).is_err());
    assert_eq!(col_string(&row, 2).unwrap(), "x");
    assert!(col_string(&row, 1).is_err());
    assert_eq!(col_opt_string(&row, 1).unwrap(), None);
    assert_eq!(col_string_or_empty(&row, 1).unwrap(), "");
    assert_eq!(col_string_or_empty(&row, 2).unwrap(), "x");
}
