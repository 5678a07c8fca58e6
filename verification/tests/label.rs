use grading_core::db::Db;
use grading_core::ingest::add_ingested_page;
use grading_core::label::{add_student, assemble_label_summary, label_status, labeling_summary, list_pages, set_page_label};
use grading_core::setup::{add_problem, create_exam, import_roster};
use grading_core::{RosterRow, Student};

#[test]
fn list_set_label_and_add_student() {
    let db = Db::open_in_memory().unwrap();
    let exam = create_exam(&db, "E", "2026-07-03").unwrap();
    let p0 = add_ingested_page(&db, exam, "a.jpg", 0).unwrap();
    add_ingested_page(&db, exam, "b.jpg", 1).unwrap();

    let pages = list_pages(&db, exam).unwrap();
    assert_eq!(pages.len(), 2);
    assert_eq!(pages[0].seq, 0);
    assert_eq!(pages[0].status, "ingested");
    assert_eq!(pages[0].student_id, None);

    let sid = add_student(&db, exam, "张三", Some("A1")).unwrap();
    set_page_label(&db, p0, Some(sid), Some(0)).unwrap();
    let pages2 = list_pages(&db, exam).unwrap();
    assert_eq!(pages2[0].student_id, Some(sid));
    assert_eq!(pages2[0].problem_number, Some(0));
    assert_eq!(pages2[0].status, "labeled");
    set_page_label(&db, p0, None, None).unwrap();
    assert_eq!(list_pages(&db, exam).unwrap()[0].status, "ingested");
}

#[test]
fn summary_counts_pages_and_flags_mismatch_and_absent() {
    let db = Db::open_in_memory().unwrap();
    let exam = create_exam(&db, "E", "2026-07-03").unwrap();
    add_problem(&db, exam, 1, "一", 10).unwrap();
    add_problem(&db, exam, 2, "二", 10).unwrap();
    import_roster(
        &db,
        exam,
        &[
            RosterRow { name: "甲".into(), exam_number: None },
            RosterRow { name: "乙".into(), exam_number: None },
            RosterRow { name: "丙".into(), exam_number: None },
            RosterRow { name: "丁".into(), exam_number: None },
        ],
    )
    .unwrap();
    let s: Vec<i64> = grading_core::setup::list_students(&db, exam).unwrap().iter().map(|x| x.id).collect();
    for (seq, pn) in [(0, 0), (1, 1), (2, 2)] {
        let id = add_ingested_page(&db, exam, &format!("j{seq}.jpg"), seq).unwrap();
        set_page_label(&db, id, Some(s[0]), Some(pn)).unwrap();
    }
    for (seq, pn) in [(3, 0), (4, 1)] {
        let id = add_ingested_page(&db, exam, &format!("y{seq}.jpg"), seq).unwrap();
        set_page_label(&db, id, Some(s[1]), Some(pn)).unwrap();
    }
    {
        let id = add_ingested_page(&db, exam, "d0.jpg", 8).unwrap();
        set_page_label(&db, id, Some(s[3]), Some(0)).unwrap();
    }
    add_ingested_page(&db, exam, "x.jpg", 9).unwrap();

    let sum = labeling_summary(&db, exam).unwrap();
    let jia = sum.stacks.iter().find(|r| r.student_id == s[0]).unwrap();
    assert_eq!((jia.answer_pages, jia.problem_count, jia.count_ok), (2, 2, true));
    let yi = sum.stacks.iter().find(|r| r.student_id == s[1]).unwrap();
    assert_eq!((yi.answer_pages, yi.count_ok), (1, false));
    assert_eq!(yi.problem_count, 2);
    let ding = sum.stacks.iter().find(|r| r.student_id == s[3]).unwrap();
    assert_eq!((ding.answer_pages, ding.count_ok), (0, false));
    assert!(sum.absent_students.iter().all(|st| st.name != "丁"));
    assert!(sum.stacks.iter().all(|r| r.student_id != s[2]));
    assert_eq!(sum.absent_students.len(), 1);
    assert_eq!(sum.absent_students[0].name, "丙");
    assert_eq!(sum.unlabeled_pages, 1);
}

#[test]
fn label_status_follows_student() {
    assert_eq!(label_status(Some(3)), "labeled");
    assert_eq!(label_status(None), "ingested");
}

#[test]
fn summary_splits_roster_into_stacks_and_absent() {
    let st = |id: i64| Student { id, name: format!("s{id}"), exam_number: None, roster_order: None };
    let students = vec![st(1), st(2), st(3)];
    let sum = assemble_label_summary(3, &students, &vec![4, 0, 2], &vec![3, 0, 2], 5);
    assert_eq!(sum.stacks.len() + sum.absent_students.len(), 3);
    assert_eq!(sum.stacks[0].student_id, 1);
    assert!(sum.stacks[0].count_ok);
    assert_eq!(sum.stacks[1].student_id, 3);
    assert!(!sum.stacks[1].count_ok);
    assert_eq!(sum.absent_students[0].id, 2);
    assert_eq!(sum.unlabeled_pages, 5);
}
