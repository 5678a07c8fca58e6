use grading_core::db::Db;
use grading_core::persist::{ensure_exam, exam_count, exam_info};

#[test]
fn ensure_exam_creates_once_then_returns_same() {
    let db = Db::open_in_memory().unwrap();
    let a = ensure_exam(&db, "某场奥赛", "2026-07-02").unwrap();
    let b = ensure_exam(&db, "改个名也无所谓", "2026-07-03").unwrap();
    assert_eq!(a, b);
    let info = exam_info(&db, a).unwrap();
    assert_eq!(info.name, "某场奥赛");
    assert_eq!(info.date, "2026-07-02");
    assert_eq!(exam_count(&db).unwrap(), 1);
}

#[test]
fn exam_info_null_date_returns_empty_string() {
    let db = Db::open_in_memory().unwrap();
    db.conn.execute("INSERT INTO exam(name, date) VALUES('X', NULL)", []).unwrap();
    let id = ensure_exam(&db, "无所谓", "2026-07-02").unwrap();
    let info = exam_info(&db, id).unwrap();
    assert_eq!(info.name, "X");
    assert_eq!(info.date, "");
}

#[test]
fn exam_info_of_unknown_exam_is_no_rows() {
    let db = Db::open_in_memory().unwrap();
    assert_eq!(exam_count(&db).unwrap(), 0);
    assert!(matches!(exam_info(&db, 42), Err(grading_core::db::GradeError::NoRows)));
}
