use grading_core::db::Db;
use grading_core::fake::{fake_exam_number_of, fake_page_path_of, seed_fake_exam};
use grading_core::grading::{build_queue, student_pages};
use grading_core::setup::{list_problems, list_students};

#[test]
fn seed_produces_thick_data_for_axis2() {
    let db = Db::open_in_memory().unwrap();
    let exam = seed_fake_exam(&db).unwrap();
    assert_eq!(list_problems(&db, exam).unwrap().len(), 3);
    assert_eq!(list_students(&db, exam).unwrap().len(), 5);
    let q = build_queue(&db, exam, 1).unwrap();
    assert_eq!(q.len(), 5);
    let s1 = q[0].student_id;
    let pages = student_pages(&db, s1).unwrap();
    assert!(pages.iter().any(|p| p.problem_number == 1));
    assert!(pages.iter().any(|p| p.problem_number == 2));
    assert!(pages.iter().any(|p| p.problem_number == 3));
    let overflow = build_queue(&db, exam, 2).unwrap().into_iter().any(|u| u.pages.len() == 2);
    assert!(overflow);
}

#[test]
fn fake_names_and_paths() {
    assert_eq!(fake_exam_number_of(1), "A01");
    assert_eq!(fake_exam_number_of(12), "A12");
    assert_eq!(fake_page_path_of(3, 17, 2, 0), "fake://exam3/stu17/q2/0.jpg");
    assert_eq!(fake_page_path_of(-1, 9223372036854775807, 1, i64::MIN), "fake://exam-1/stu9223372036854775807/q1/-9223372036854775808.jpg");
    let db = Db::open_in_memory().unwrap();
    let exam = seed_fake_exam(&db).unwrap();
    let students = list_students(&db, exam).unwrap();
    assert_eq!(students[0].exam_number.as_deref(), Some("A01"));
    assert_eq!(students[4].exam_number.as_deref(), Some("A05"));
}
