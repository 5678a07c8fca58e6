use grading_core::db::Db;
use grading_core::decode::decode_roster_text;
use grading_core::label::set_page_label;
use grading_core::ingest::add_ingested_page;
use grading_core::manage::{
    delete_preset, delete_problem, delete_student, rename_student, safe_file_name, set_problem_max,
    shift_student_problems, valid_preset_key,
};
use grading_core::setup::{add_preset, add_problem, create_exam, import_roster, list_presets, list_problems, list_students};
use grading_core::RosterRow;

#[test]
fn full_marks_preset_follows_max() {
    let db = Db::open_in_memory().unwrap();
    let exam = create_exam(&db, "E", "2026-07-02").unwrap();
    let p = add_problem(&db, exam, 1, "一", 10).unwrap();
    let extra = add_preset(&db, p, 3, "半", 5).unwrap();
    set_problem_max(&db, p, 12).unwrap();
    assert_eq!(list_problems(&db, exam).unwrap()[0].max_score, 12);
    let presets = list_presets(&db, p).unwrap();
    assert!(presets.iter().any(|x| x.label == "满分" && x.points == 12));
    assert!(presets.iter().any(|x| x.label == "半" && x.points == 5));
    delete_preset(&db, extra).unwrap();
    assert_eq!(list_presets(&db, p).unwrap().len(), 2);
    delete_problem(&db, p).unwrap();
    assert!(list_problems(&db, exam).unwrap().is_empty());
}

#[test]
fn students_can_be_renamed_shifted_and_removed() {
    let db = Db::open_in_memory().unwrap();
    let exam = create_exam(&db, "E", "2026-07-02").unwrap();
    import_roster(&db, exam, &[RosterRow { name: "甲".into(), exam_number: None }]).unwrap();
    let sid = list_students(&db, exam).unwrap()[0].id;
    let page = add_ingested_page(&db, exam, "a.jpg", 0).unwrap();
    set_page_label(&db, page, Some(sid), Some(1)).unwrap();
    shift_student_problems(&db, sid, 1).unwrap();
    assert_eq!(grading_core::label::list_pages(&db, exam).unwrap()[0].problem_number, Some(2));
    rename_student(&db, sid, "乙").unwrap();
    assert_eq!(list_students(&db, exam).unwrap()[0].name, "乙");
    delete_student(&db, sid).unwrap();
    assert!(list_students(&db, exam).unwrap().is_empty());
    assert!(grading_core::label::list_pages(&db, exam).unwrap().is_empty());
}

#[test]
fn file_name_guard_and_preset_keys() {
    assert!(safe_file_name("张三_A01.pdf"));
    assert!(safe_file_name("a.b.c"));
    assert!(!safe_file_name("../x"));
    assert!(!safe_file_name("a/b"));
    assert!(!safe_file_name("a\\b"));
    assert!(!safe_file_name("C:x"));
    assert!(!safe_file_name("x.."));
    assert!(valid_preset_key(1) && valid_preset_key(9));
    assert!(!valid_preset_key(0) && !valid_preset_key(10));
}

#[test]
fn roster_bytes_decode_utf8_then_gb18030() {
    assert_eq!(decode_roster_text("张三,A01".as_bytes()), "张三,A01");
    // 张三 in GB18030.
    assert_eq!(decode_roster_text(&[0xD5, 0xC5, 0xC8, 0xFD, b',', b'1']), "张三,1");
}
