use grading_core::db::Db;
use grading_core::ingest::{
    add_ingested_page, compare_nat, images_in_scan_order, ingest_step, next_seq, next_seq_after,
    pdfs_in_scan_order, sort_scan_order, image_file_name, pdf_file_name, IngestOutcome, IngestProgress,
};
use grading_core::setup::create_exam;
use std::cmp::Ordering;

#[test]
fn natural_sort_orders_numbers_by_value() {
    let got = sort_scan_order(vec![
        "10.jpg".into(),
        "2.jpg".into(),
        "1.jpg".into(),
        "img11.png".into(),
        "img2.png".into(),
    ]);
    assert_eq!(got, vec!["1.jpg", "2.jpg", "10.jpg", "img2.png", "img11.png"]);
}

#[test]
fn next_seq_and_add_ingested_page() {
    let db = Db::open_in_memory().unwrap();
    let exam = create_exam(&db, "E", "2026-07-03").unwrap();
    assert_eq!(next_seq(&db, exam).unwrap(), 0);
    let id = add_ingested_page(&db, exam, "a.jpg", 0).unwrap();
    assert!(id > 0);
    add_ingested_page(&db, exam, "b.jpg", 1).unwrap();
    assert_eq!(next_seq(&db, exam).unwrap(), 2);
    let (sid, pn, st): (Option<i64>, Option<i64>, String) = db
        .conn
        .query_row(
            "SELECT student_id, problem_number, status FROM page WHERE image_path='a.jpg'",
            [],
            |r| Ok((r.get(0)?, r.get(1)?, r.get(2)?)),
        )
        .unwrap();
    assert_eq!((sid, pn, st.as_str()), (None, None, "ingested"));
}

#[test]
fn natural_compare_cases() {
    assert_eq!(compare_nat("a2", "a10"), Ordering::Less);
    assert_eq!(compare_nat("a10", "a2"), Ordering::Greater);
    assert_eq!(compare_nat("IMG1.JPG", "img1.jpg"), Ordering::Equal);
    assert_eq!(compare_nat("007", "7"), Ordering::Equal);
    assert_eq!(compare_nat("1.jpg", "img2.png"), Ordering::Less); // digits before letters
    assert_eq!(compare_nat("abc", "abcd"), Ordering::Less); // prefix first
    assert_eq!(compare_nat("", ""), Ordering::Equal);
    assert_eq!(compare_nat("-1", "1"), Ordering::Less); // '-' sorts before digits
    assert_eq!(compare_nat("a_1", "a1"), Ordering::Greater); // '_' sorts after digits
    // Numbers beyond u64 compare as u64::MAX.
    assert_eq!(compare_nat("99999999999999999999999", "18446744073709551615"), Ordering::Equal);
    assert_eq!(compare_nat("18446744073709551614", "99999999999999999999999"), Ordering::Less);
}

#[test]
fn natural_sort_is_stable_for_equal_names() {
    let got = sort_scan_order(vec!["B.jpg".into(), "a.jpg".into(), "b.jpg".into(), "A.jpg".into()]);
    assert_eq!(got, vec!["a.jpg", "A.jpg", "B.jpg", "b.jpg"]);
    let got = sort_scan_order(vec!["x01".into(), "x1".into(), "x001".into()]);
    assert_eq!(got, vec!["x01", "x1", "x001"]);
    assert!(sort_scan_order(vec![]).is_empty());
}

#[test]
fn next_seq_after_max() {
    assert_eq!(next_seq_after(None).unwrap(), 0);
    assert_eq!(next_seq_after(Some(4)).unwrap(), 5);
    assert_eq!(next_seq_after(Some(-3)).unwrap(), -2);
    assert!(next_seq_after(Some(i64::MAX)).is_err());
}

#[test]
fn image_and_pdf_names() {
    assert!(image_file_name("scan1.JPG"));
    assert!(image_file_name("a.b.jpeg"));
    assert!(image_file_name("x.png"));
    assert!(image_file_name("x.WebP"));
    assert!(!image_file_name("x.gif"));
    assert!(!image_file_name("jpg.txt"));
    assert!(image_file_name("jpg")); // no dot: the whole name is the extension
    assert!(pdf_file_name("Scan.PDF"));
    assert!(!pdf_file_name("scan.pdfx"));
    let imgs = images_in_scan_order(vec!["10.jpg".into(), "notes.txt".into(), "2.PNG".into(), "b.pdf".into()]);
    assert_eq!(imgs, vec!["2.PNG", "10.jpg"]);
    let pdfs = pdfs_in_scan_order(vec!["p10.pdf".into(), "x.jpg".into(), "p9.PDF".into()]);
    assert_eq!(pdfs, vec!["p9.PDF", "p10.pdf"]);
}

#[test]
fn ingest_progress_steps() {
    let p = IngestProgress { seq: 4, count: 1 };
    let p = ingest_step(p, IngestOutcome::AlreadyTaken);
    assert_eq!((p.seq, p.count), (4, 1));
    let p = ingest_step(p, IngestOutcome::Stored);
    assert_eq!((p.seq, p.count), (5, 2));
    let p = ingest_step(p, IngestOutcome::Failed);
    assert_eq!((p.seq, p.count), (6, 2));
}
