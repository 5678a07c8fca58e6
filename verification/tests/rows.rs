use grading_core::db::{SqlParam, SqlValue};
use grading_core::fake::{demo_page_plan, demo_presets_of, demo_problem_of, demo_roster};
use grading_core::grading::queue_from_rows;
use grading_core::ingest::{ingest_step, IngestOutcome, IngestProgress};
use grading_core::label::{count_answer_pages, count_unlabeled_pages, new_student_params, page_label_params};
use grading_core::persist::existing_exam;
use grading_core::setup::{auto_preset_params, parse_roster_csv, problem_insert_params, roster_inserts, student_insert_params};
use grading_core::{RosterRow, ScoreState};

fn text(s: &str) -> SqlValue {
    SqlValue::Text(s.to_owned())
}

fn is_text(p: &SqlParam, s: &str) -> bool {
    matches!(p, SqlParam::Text(t) if t == s)
}

fn is_int(p: &SqlParam, x: i64) -> bool {
    matches!(p, SqlParam::Integer(v) if *v == x)
}

#[test]
fn queue_is_one_unit_per_roster_row_with_pages_and_score() {
    let students = vec![
        vec![SqlValue::Integer(7), text("张三")],
        vec![SqlValue::Integer(8), text("李四")],
    ];
    let pages = vec![vec![vec![text("a.jpg")], vec![text("b.jpg")]], vec![]];
    let scores = vec![
        Some(vec![SqlValue::Integer(9), text("Graded"), SqlValue::Integer(42)]),
        None,
    ];
    let q = queue_from_rows(3, 1, &students, &pages, &scores).unwrap();
    assert_eq!(q.len(), 2);
    assert_eq!(q[0].student_id, 7);
    assert_eq!(q[0].student_name, "张三");
    assert_eq!(q[0].problem_id, 3);
    assert_eq!(q[0].problem_number, 1);
    assert_eq!(q[0].pages, vec!["a.jpg".to_string(), "b.jpg".to_string()]);
    assert_eq!(q[0].total, Some(9));
    assert_eq!(q[0].state, ScoreState::Graded);
    assert_eq!(q[0].preset_id, Some(42));
    assert_eq!(q[1].student_name, "李四");
    assert!(q[1].pages.is_empty());
    assert_eq!(q[1].total, None);
    assert_eq!(q[1].state, ScoreState::Ungraded);
    assert_eq!(q[1].preset_id, None);
}

#[test]
fn queue_refuses_a_page_row_without_path() {
    let students = vec![vec![SqlValue::Integer(7), text("张三")]];
    let pages = vec![vec![vec![SqlValue::Null]]];
    let scores = vec![None];
    assert!(queue_from_rows(3, 1, &students, &pages, &scores).is_err());
}

#[test]
fn roster_inserts_number_on_from_start_and_skip_known_lines() {
    let existing = vec![("甲".to_string(), None)];
    let rows = vec![
        RosterRow { name: "甲".into(), exam_number: None },
        RosterRow { name: "乙".into(), exam_number: Some("B2".into()) },
        RosterRow { name: "乙".into(), exam_number: Some("B2".into()) },
        RosterRow { name: "丙".into(), exam_number: None },
    ];
    let ps = roster_inserts(5, 1, &existing, &rows).unwrap();
    assert_eq!(ps.len(), 2);
    assert!(is_int(&ps[0][0], 5) && is_text(&ps[0][1], "乙") && is_text(&ps[0][2], "B2") && is_int(&ps[0][3], 1));
    assert!(is_int(&ps[1][0], 5) && is_text(&ps[1][1], "丙") && matches!(ps[1][2], SqlParam::Null) && is_int(&ps[1][3], 2));
    assert!(roster_inserts(5, i64::MAX - 1, &existing, &rows).is_err());
}

#[test]
fn student_and_problem_params_are_the_values_bound() {
    let row = RosterRow { name: "张三".into(), exam_number: None };
    let p = student_insert_params(4, &row, 0);
    assert!(is_int(&p[0], 4) && is_text(&p[1], "张三") && matches!(p[2], SqlParam::Null) && is_int(&p[3], 0));
    let q = new_student_params(4, "李四", Some("A2"), 6);
    assert!(is_int(&q[0], 4) && is_text(&q[1], "李四") && is_text(&q[2], "A2") && is_int(&q[3], 6));
    let pr = problem_insert_params(4, 2, "动力学", 20);
    assert!(is_int(&pr[0], 4) && is_int(&pr[1], 2) && is_text(&pr[2], "动力学") && is_int(&pr[3], 20));
}

#[test]
fn new_problems_start_with_full_marks_and_zero_presets() {
    let ps = auto_preset_params(11, 25);
    assert_eq!(ps.len(), 2);
    assert!(is_int(&ps[0][0], 11) && is_int(&ps[0][1], 9) && is_text(&ps[0][2], "满分") && is_int(&ps[0][3], 25));
    assert!(is_int(&ps[1][0], 11) && is_int(&ps[1][1], 0) && is_text(&ps[1][2], "零分") && is_int(&ps[1][3], 0));
}

#[test]
fn page_label_params_set_the_status_from_the_student() {
    let p = page_label_params(3, Some(8), Some(2));
    assert!(is_int(&p[0], 3) && is_int(&p[1], 8) && is_int(&p[2], 2) && is_text(&p[3], "labeled"));
    let q = page_label_params(3, None, None);
    assert!(matches!(q[1], SqlParam::Null) && matches!(q[2], SqlParam::Null) && is_text(&q[3], "ingested"));
}

#[test]
fn answer_and_unlabeled_counts() {
    let rows = vec![
        vec![SqlValue::Integer(0)],
        vec![SqlValue::Integer(1)],
        vec![SqlValue::Integer(3)],
        vec![SqlValue::Null],
    ];
    assert_eq!(count_answer_pages(&rows), 2);
    assert_eq!(count_unlabeled_pages(&rows), 1);
}

#[test]
fn existing_exam_takes_the_first_row() {
    assert_eq!(existing_exam(&Some(vec![SqlValue::Integer(4)])).unwrap().unwrap(), 4);
    assert!(existing_exam(&Some(vec![SqlValue::Null])).unwrap().is_err());
    assert!(existing_exam(&None).is_none());
}

#[test]
fn demo_roster_and_pages() {
    let rows = demo_roster();
    assert_eq!(rows.len(), 5);
    assert_eq!(rows[0].name, "张三");
    assert_eq!(rows[4].exam_number.as_deref(), Some("A05"));
    let plan = demo_page_plan(&vec![10, 11, 12]);
    assert_eq!(plan, vec![(10, 1), (10, 2), (10, 3), (11, 1), (11, 2), (11, 3), (12, 1), (12, 2), (12, 2), (12, 3)]);
}

#[test]
fn roster_trims_unicode_white_space() {
    let rows = parse_roster_csv("\u{3000}张三\u{3000},A01\n李四 ,\n");
    assert_eq!(rows.len(), 2);
    assert_eq!(rows[0].name, "张三");
    assert_eq!(rows[0].exam_number.as_deref(), Some("A01"));
    assert_eq!(rows[1].name, "李四");
    assert_eq!(rows[1].exam_number, None);
}

#[test]
fn roster_reads_the_same_with_crlf_bom_and_leading_blank_lines() {
    let plain = parse_roster_csv("姓名,学号\n张三,A01\n李四,A02\n");
    let other = parse_roster_csv("\u{feff}\r\n  \r\n姓名,学号\r\n张三,A01\r\n李四,A02\r\n");
    assert_eq!(plain.len(), 2);
    assert_eq!(other.len(), plain.len());
    for (a, b) in plain.iter().zip(other.iter()) {
        assert_eq!(a.name, b.name);
        assert_eq!(a.exam_number, b.exam_number);
    }
}

#[test]
fn taking_in_the_same_folder_again_adds_nothing() {
    let mut p = IngestProgress { seq: 4, count: 0 };
    for _ in 0..3 {
        p = ingest_step(p, IngestOutcome::AlreadyTaken);
    }
    assert_eq!(p.seq, 4);
    assert_eq!(p.count, 0);
}

#[test]
fn demo_problems_and_their_presets() {
    assert_eq!(demo_problem_of(0), (1, "运动学", 10));
    assert_eq!(demo_problem_of(2), (3, "能量", 20));
    assert_eq!(demo_presets_of(1), vec![(1, "只建系受力", 6), (2, "建系+列方程", 11)]);
}

#[test]
fn roster_text_laws_on_concrete_text() {
    let t = "张三,A01\n李四,A02\n";
    let base = parse_roster_csv(t);
    for other in [t.replace('\n', "\r\n"), format!("\u{feff}{t}"), format!("\n \n{t}")] {
        let rows = parse_roster_csv(&other);
        assert_eq!(rows.len(), base.len());
        for (a, b) in base.iter().zip(rows.iter()) {
            assert_eq!(a.name, b.name);
            assert_eq!(a.exam_number, b.exam_number);
        }
    }
}
