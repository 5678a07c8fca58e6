use grading_core::db::Db;
use grading_core::grading::{build_queue, grading_unit, set_score, student_pages};
use grading_core::setup::{add_problem, create_exam, import_roster};
use grading_core::{RosterRow, ScoreState};

fn seed(db: &Db) -> (i64, i64, i64) {
    let exam = create_exam(db, "假物理", "2026-07-02").unwrap();
    let prob = add_problem(db, exam, 1, "题一", 10).unwrap();
    import_roster(
        db,
        exam,
        &[
            RosterRow { name: "张三".into(), exam_number: Some("A01".into()) },
            RosterRow { name: "李四".into(), exam_number: Some("A02".into()) },
        ],
    )
    .unwrap();
    (exam, prob, exam)
}

#[test]
fn build_queue_orders_by_roster_and_defaults_ungraded() {
    let db = Db::open_in_memory().unwrap();
    let (exam, _prob, _) = seed(&db);
    let q = build_queue(&db, exam, 1).unwrap();
    assert_eq!(q.len(), 2);
    assert_eq!(q[0].student_name, "张三");
    assert_eq!(q[0].state, ScoreState::Ungraded);
    assert_eq!(q[0].total, None);
}

#[test]
fn set_score_upserts_and_persists_state_and_preset() {
    let db = Db::open_in_memory().unwrap();
    let (exam, prob, _) = seed(&db);
    let q = build_queue(&db, exam, 1).unwrap();
    let sid = q[0].student_id;
    set_score(&db, sid, prob, Some(9), Some(42), ScoreState::Graded).unwrap();
    let q2 = build_queue(&db, exam, 1).unwrap();
    assert_eq!(q2[0].total, Some(9));
    assert_eq!(q2[0].state, ScoreState::Graded);
    assert_eq!(q2[0].preset_id, Some(42));
    set_score(&db, sid, prob, Some(5), None, ScoreState::Flagged).unwrap();
    let q3 = build_queue(&db, exam, 1).unwrap();
    assert_eq!(q3[0].total, Some(5));
    assert_eq!(q3[0].state, ScoreState::Flagged);
    assert_eq!(q3[0].preset_id, None);
}

#[test]
fn queue_of_missing_problem_is_an_error() {
    let db = Db::open_in_memory().unwrap();
    let (exam, _prob, _) = seed(&db);
    assert!(matches!(build_queue(&db, exam, 7), Err(grading_core::db::GradeError::NoRows)));
}

#[test]
fn grading_unit_defaults_and_stored_state() {
    let u = grading_unit(1, "甲".into(), 2, 3, vec![], None);
    assert_eq!((u.total, u.state, u.preset_id), (None, ScoreState::Ungraded, None));
    let u = grading_unit(1, "甲".into(), 2, 3, vec!["p.jpg".into()], Some((Some(4), "Flagged".into(), Some(8))));
    assert_eq!((u.total, u.state, u.preset_id), (Some(4), ScoreState::Flagged, Some(8)));
    let u = grading_unit(1, "甲".into(), 2, 3, vec![], Some((Some(4), "garbage".into(), None)));
    assert_eq!(u.state, ScoreState::Ungraded);
    assert_eq!(u.pages.len(), 0);
}

#[test]
fn student_pages_in_scan_order_with_name_page_as_zero() {
    let db = Db::open_in_memory().unwrap();
    let (exam, _prob, _) = seed(&db);
    let sid = build_queue(&db, exam, 1).unwrap()[0].student_id;
    db.conn
        .execute(
            "INSERT INTO page(exam_id,student_id,problem_number,image_path,seq,status) VALUES(?1,?2,1,'b.jpg',5,'labeled')",
            (exam, sid),
        )
        .unwrap();
    db.conn
        .execute(
            "INSERT INTO page(exam_id,student_id,problem_number,image_path,seq,status) VALUES(?1,?2,NULL,'a.jpg',2,'labeled')",
            (exam, sid),
        )
        .unwrap();
    let pages = student_pages(&db, sid).unwrap();
    assert_eq!(pages.len(), 2);
    assert_eq!((pages[0].problem_number, pages[0].image_path.as_str()), (0, "a.jpg"));
    assert_eq!((pages[1].problem_number, pages[1].image_path.as_str()), (1, "b.jpg"));
}

#[test]
fn score_state_names_round_trip() {
    for s in [ScoreState::Ungraded, ScoreState::Flagged, ScoreState::Graded] {
        assert_eq!(ScoreState::from_str(s.as_str()), s);
    }
    assert_eq!(ScoreState::Graded.as_str(), "Graded");
    assert_eq!(ScoreState::from_str("graded"), ScoreState::Ungraded);
    assert_eq!(ScoreState::from_str(""), ScoreState::Ungraded);
}
