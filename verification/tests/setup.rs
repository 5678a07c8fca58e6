use grading_core::db::Db;
use grading_core::setup::{
    add_preset, add_problem, create_exam, import_roster, list_presets, list_problems, list_students,
    parse_csv_line, parse_roster_csv, plan_roster_import, rubric_to_store, set_problem_rubric,
};
use grading_core::{Problem, RosterRow};

#[test]
fn add_problem_auto_seeds_two_presets() {
    let db = Db::open_in_memory().unwrap();
    let exam = create_exam(&db, "假物理", "2026-07-02").unwrap();
    let p = add_problem(&db, exam, 3, "力学大题", 20).unwrap();
    let presets = list_presets(&db, p).unwrap();
    assert_eq!(presets.len(), 2);
    assert!(presets.iter().any(|x| x.label == "满分" && x.points == 20 && x.slot == 9));
    assert!(presets.iter().any(|x| x.label == "零分" && x.points == 0 && x.slot == 0));
}

#[test]
fn add_custom_preset_and_list_problems() {
    let db = Db::open_in_memory().unwrap();
    let exam = create_exam(&db, "假物理", "2026-07-02").unwrap();
    let p = add_problem(&db, exam, 3, "力学大题", 20).unwrap();
    add_preset(&db, p, 2, "前两问", 9).unwrap();
    assert_eq!(list_presets(&db, p).unwrap().len(), 3);
    let probs = list_problems(&db, exam).unwrap();
    assert_eq!(
        probs,
        vec![Problem { id: p, number: 3, title: "力学大题".into(), max_score: 20, rubric: None }]
    );
}

#[test]
fn set_and_clear_problem_rubric() {
    let db = Db::open_in_memory().unwrap();
    let exam = create_exam(&db, "假物理", "2026-07-02").unwrap();
    let p = add_problem(&db, exam, 1, "题1", 10).unwrap();
    assert_eq!(list_problems(&db, exam).unwrap()[0].rubric, None);
    set_problem_rubric(&db, p, "- 前两问各 3 分\n- 末问 4 分").unwrap();
    assert_eq!(
        list_problems(&db, exam).unwrap()[0].rubric.as_deref(),
        Some("- 前两问各 3 分\n- 末问 4 分")
    );
    set_problem_rubric(&db, p, "   ").unwrap();
    assert_eq!(list_problems(&db, exam).unwrap()[0].rubric, None);
}

#[test]
fn parse_roster_csv_basics() {
    let csv = "\u{feff}姓名,学号\n张三,A01\n李四,\n\n\"王, 五\",A03\n";
    let rows = parse_roster_csv(csv);
    assert_eq!(rows.len(), 3);
    assert_eq!(rows[0], RosterRow { name: "张三".into(), exam_number: Some("A01".into()) });
    assert_eq!(rows[1], RosterRow { name: "李四".into(), exam_number: None });
    assert_eq!(rows[2], RosterRow { name: "王, 五".into(), exam_number: Some("A03".into()) });
}

#[test]
fn parse_roster_csv_bare_quote_keeps_delimiter() {
    let rows = parse_roster_csv("李四\",A03\n");
    assert_eq!(rows.len(), 1);
    assert_eq!(rows[0].exam_number.as_deref(), Some("A03"));
}

#[test]
fn parse_roster_csv_no_header_keeps_first_row() {
    let rows = parse_roster_csv("陈一,B01\n周二,B02\n");
    assert_eq!(rows.len(), 2);
    assert_eq!(rows[0].name, "陈一");
}

#[test]
fn import_roster_appends_after_existing() {
    let db = Db::open_in_memory().unwrap();
    let exam = create_exam(&db, "假物理", "2026-07-02").unwrap();
    import_roster(&db, exam, &[RosterRow { name: "甲".into(), exam_number: None }]).unwrap();
    import_roster(&db, exam, &[RosterRow { name: "乙".into(), exam_number: None }]).unwrap();
    let students = list_students(&db, exam).unwrap();
    assert_eq!(students.iter().map(|s| s.name.as_str()).collect::<Vec<_>>(), vec!["甲", "乙"]);
    assert_eq!(students[1].roster_order, Some(1));
}

#[test]
fn import_roster_dedups_on_reimport() {
    let db = Db::open_in_memory().unwrap();
    let exam = create_exam(&db, "假物理", "2026-07-02").unwrap();
    let csv = &[
        RosterRow { name: "张三".into(), exam_number: Some("A01".into()) },
        RosterRow { name: "李四".into(), exam_number: None },
    ];
    assert_eq!(import_roster(&db, exam, csv).unwrap(), 2);
    assert_eq!(import_roster(&db, exam, csv).unwrap(), 0);
    let mixed = &[
        RosterRow { name: "张三".into(), exam_number: Some("A01".into()) },
        RosterRow { name: "王五".into(), exam_number: Some("A03".into()) },
    ];
    assert_eq!(import_roster(&db, exam, mixed).unwrap(), 1);
    assert_eq!(list_students(&db, exam).unwrap().len(), 3);
}

#[test]
fn import_roster_and_list_students() {
    let db = Db::open_in_memory().unwrap();
    let exam = create_exam(&db, "假物理", "2026-07-02").unwrap();
    let rows = vec![
        RosterRow { name: "张三".into(), exam_number: Some("A01".into()) },
        RosterRow { name: "李四".into(), exam_number: Some("A02".into()) },
    ];
    assert_eq!(import_roster(&db, exam, &rows).unwrap(), 2);
    let students = list_students(&db, exam).unwrap();
    assert_eq!(students.len(), 2);
    assert_eq!(students[0].name, "张三");
    assert_eq!(students[0].roster_order, Some(0));
}

#[test]
fn csv_line_fields() {
    assert_eq!(parse_csv_line("a,b,,c"), vec!["a", "b", "", "c"]);
    assert_eq!(parse_csv_line(""), vec![""]);
    assert_eq!(parse_csv_line("\"x,\"\"y\"\"\",z"), vec!["x,\"y\"", "z"]);
    assert_eq!(parse_csv_line("ab\"c,d"), vec!["ab\"c", "d"]);
    assert_eq!(parse_csv_line("\"open,never closed"), vec!["open,never closed"]);
}

#[test]
fn roster_csv_header_variants_and_crlf() {
    let rows = parse_roster_csv("\r\nName,Number\r\n  Alice , 7 \r\n,X9\r\n");
    assert_eq!(rows, vec![RosterRow { name: "Alice".into(), exam_number: Some("7".into()) }]);
    let rows = parse_roster_csv("甲,考号\n乙,1\n");
    assert_eq!(rows, vec![RosterRow { name: "乙".into(), exam_number: Some("1".into()) }]);
    // A header-like line later on is an ordinary line.
    let rows = parse_roster_csv("甲,1\nname,2\n");
    assert_eq!(rows.len(), 2);
    assert_eq!(rows[1].name, "name");
    assert!(parse_roster_csv("").is_empty());
}

#[test]
fn roster_plan_dedups_within_and_against_existing() {
    let existing = vec![("张三".to_string(), Some("A01".to_string()))];
    let rows = vec![
        RosterRow { name: "张三".into(), exam_number: Some("A01".into()) },
        RosterRow { name: "张三".into(), exam_number: Some("A02".into()) },
        RosterRow { name: "李四".into(), exam_number: None },
        RosterRow { name: "李四".into(), exam_number: None },
    ];
    assert_eq!(plan_roster_import(&existing, &rows), vec![1, 2]);
}

#[test]
fn rubric_blank_is_cleared() {
    assert_eq!(rubric_to_store(" \n\t"), None);
    assert_eq!(rubric_to_store(""), None);
    assert_eq!(rubric_to_store(" x "), Some(" x ".to_string()));
}

#[test]
fn refused_statement_is_an_sql_error_and_rolls_back() {
    let db = Db::open_in_memory().unwrap();
    // No exam 99: the foreign key refuses the problem, and nothing is kept.
    assert!(matches!(add_problem(&db, 99, 1, "x", 10), Err(grading_core::db::GradeError::Sql(_))));
    let n: i64 = db.conn.query_row("SELECT count(*) FROM score_preset", [], |r| r.get(0)).unwrap();
    assert_eq!(n, 0);
}

#[test]
fn quoted_fields_read_back_exactly() {
    assert_eq!(parse_csv_line("\"a,\"\"b\",\"\",\"\"\"\""), vec!["a,\"b", "", "\""]);
    assert_eq!(parse_csv_line("\"王, 五\""), vec!["王, 五"]);
}
