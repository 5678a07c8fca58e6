use grading_core::db::Db;
use grading_core::export::{assemble_export, build_export};
use grading_core::grading::set_score;
use grading_core::setup::{add_problem, create_exam, import_roster, list_students};
use grading_core::{ExamInfo, Problem, RosterRow, ScoreState, Student};

fn scenario(db: &Db) -> i64 {
    let exam = create_exam(db, "E", "2026-07-02").unwrap();
    let p1 = add_problem(db, exam, 1, "一", 10).unwrap();
    let p2 = add_problem(db, exam, 2, "二", 10).unwrap();
    import_roster(
        db,
        exam,
        &[
            RosterRow { name: "甲".into(), exam_number: Some("A1".into()) },
            RosterRow { name: "乙".into(), exam_number: Some("A2".into()) },
            RosterRow { name: "丙".into(), exam_number: Some("A3".into()) },
        ],
    )
    .unwrap();
    let s = list_students(db, exam).unwrap();
    for (i, stu) in s.iter().take(2).enumerate() {
        for pn in 1..=2 {
            db.conn
                .execute(
                    "INSERT INTO page(exam_id,student_id,problem_number,image_path,seq,status) VALUES(?1,?2,?3,?4,?5,'labeled')",
                    (exam, stu.id, pn, format!("f{i}{pn}.jpg"), (i * 2 + pn as usize) as i64),
                )
                .unwrap();
        }
    }
    set_score(db, s[0].id, p1, Some(8), None, ScoreState::Graded).unwrap();
    set_score(db, s[0].id, p2, Some(6), None, ScoreState::Graded).unwrap();
    set_score(db, s[1].id, p1, Some(5), None, ScoreState::Flagged).unwrap();
    exam
}

#[test]
fn export_states_totals_and_no_ranking_when_holes() {
    let db = Db::open_in_memory().unwrap();
    let exam = scenario(&db);
    let d = build_export(&db, exam).unwrap();

    assert_eq!(d.rows.len(), 3);
    let r0 = &d.rows[0];
    assert_eq!(r0.total, Some(14));
    assert!(r0.complete);
    assert_eq!(r0.cells[0].state, "Graded");
    let r1 = &d.rows[1];
    assert_eq!(r1.total, Some(5));
    assert!(!r1.complete);
    assert_eq!(r1.cells[0].state, "Flagged");
    assert_eq!(r1.cells[1].state, "Ungraded");
    assert_eq!(r1.cells[1].total, None);
    let r2 = &d.rows[2];
    assert!(r2.absent);
    assert_eq!(r2.total, None);
    assert_eq!(r2.cells[0].state, "Absent");
    assert!(!d.ranking_available);
    assert!(d.rows.iter().all(|r| r.rank.is_none()));
    assert_eq!(d.coverage.roster, 3);
    assert_eq!(d.coverage.absent, 1);
    assert_eq!(d.coverage.units_total, 4);
    assert_eq!(d.coverage.graded, 2);
    assert_eq!(d.coverage.flagged, 1);
    assert_eq!(d.coverage.ungraded, 1);
    // The average and the rate come from the stored count and sum.
    let ps1 = d.problem_stats.iter().find(|p| p.number == 1).unwrap();
    assert_eq!(ps1.scored_count, 2);
    let avg = ps1.score_sum as f64 / ps1.scored_count as f64;
    let rate = avg / ps1.max_score as f64;
    assert!((avg - 6.5).abs() < 1e-9);
    assert!((rate - 0.65).abs() < 1e-9);
}

#[test]
fn ranking_appears_only_when_all_graded() {
    let db = Db::open_in_memory().unwrap();
    let exam = create_exam(&db, "E", "2026-07-02").unwrap();
    let p1 = add_problem(&db, exam, 1, "一", 10).unwrap();
    import_roster(
        &db,
        exam,
        &[RosterRow { name: "甲".into(), exam_number: None }, RosterRow { name: "乙".into(), exam_number: None }],
    )
    .unwrap();
    let s = list_students(&db, exam).unwrap();
    for stu in &s {
        db.conn
            .execute(
                "INSERT INTO page(exam_id,student_id,problem_number,image_path,seq,status) VALUES(?1,?2,1,?3,0,'labeled')",
                (exam, stu.id, format!("p{}.jpg", stu.id)),
            )
            .unwrap();
    }
    set_score(&db, s[0].id, p1, Some(7), None, ScoreState::Graded).unwrap();
    set_score(&db, s[1].id, p1, Some(9), None, ScoreState::Graded).unwrap();
    let d = build_export(&db, exam).unwrap();
    assert!(d.ranking_available);
    let jiafirst = d.rows.iter().find(|r| r.name == "乙").unwrap();
    assert_eq!(jiafirst.rank, Some(1));
    assert_eq!(d.rows.iter().find(|r| r.name == "甲").unwrap().rank, Some(2));
}

fn student(id: i64, name: &str) -> Student {
    Student { id, name: name.into(), exam_number: None, roster_order: Some(id) }
}

fn exam_info() -> ExamInfo {
    ExamInfo { id: 1, name: "E".into(), date: "".into() }
}

#[test]
fn competition_ranking_shares_ties_and_skips() {
    let problems = vec![Problem { id: 1, number: 1, title: "一".into(), max_score: 10, rubric: None }];
    let students = vec![student(1, "a"), student(2, "b"), student(3, "c"), student(4, "d"), student(5, "e")];
    let pages = vec![1, 1, 1, 1, 0];
    let g = |t: i64| Some((Some(t), ScoreState::Graded));
    let units = vec![vec![g(8)], vec![g(9)], vec![g(8)], vec![g(3)], vec![]];
    let d = assemble_export(exam_info(), &problems, &students, &pages, &units).unwrap();
    assert!(d.ranking_available);
    let ranks: Vec<Option<i64>> = d.rows.iter().map(|r| r.rank).collect();
    assert_eq!(ranks, vec![Some(2), Some(1), Some(2), Some(4), None]);
    assert_eq!(d.coverage.absent, 1);
    assert_eq!(d.coverage.units_total, 4);
    assert_eq!(d.problem_stats[0].score_sum, 28);
    assert_eq!(d.problem_numbers, vec![1]);
    assert_eq!(d.problem_max, vec![10]);
}

#[test]
fn export_without_present_students_has_no_ranking() {
    let problems = vec![Problem { id: 1, number: 1, title: "一".into(), max_score: 10, rubric: None }];
    let d = assemble_export(exam_info(), &problems, &vec![student(1, "a")], &vec![0], &vec![vec![]]).unwrap();
    assert!(!d.ranking_available);
    assert_eq!(d.rows[0].rank, None);
    assert!(!d.rows[0].complete);
    assert_eq!(d.coverage.units_total, 0);
    assert_eq!(d.problem_stats[0].scored_count, 0);
}

#[test]
fn export_overflow_is_reported() {
    let problems = vec![
        Problem { id: 1, number: 1, title: "一".into(), max_score: 10, rubric: None },
        Problem { id: 2, number: 2, title: "二".into(), max_score: 10, rubric: None },
    ];
    let g = |t: i64| Some((Some(t), ScoreState::Graded));
    let r = assemble_export(exam_info(), &problems, &vec![student(1, "a")], &vec![2], &vec![vec![g(i64::MAX), g(1)]]);
    assert!(matches!(r, Err(grading_core::db::GradeError::Overflow)));
    // Ungraded scores do not count towards the sums.
    let u = Some((Some(i64::MAX), ScoreState::Ungraded));
    let d = assemble_export(exam_info(), &problems, &vec![student(1, "a")], &vec![2], &vec![vec![u, g(1)]]).unwrap();
    assert_eq!(d.rows[0].total, Some(1));
    assert_eq!(d.rows[0].cells[0].total, Some(i64::MAX));
    assert!(!d.rows[0].complete);
}

#[test]
fn a_flagged_unit_without_total_is_not_counted_as_scored() {
    let problems = vec![Problem { id: 1, number: 1, title: "一".into(), max_score: 10, rubric: None }];
    let units = vec![vec![Some((None, ScoreState::Flagged))], vec![Some((Some(7), ScoreState::Flagged))]];
    let students = vec![student(1, "a"), student(2, "b")];
    let d = assemble_export(exam_info(), &problems, &students, &vec![1, 1], &units).unwrap();
    assert_eq!(d.problem_stats[0].scored_count, 1);
    assert_eq!(d.problem_stats[0].score_sum, 7);
}
