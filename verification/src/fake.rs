//! A demonstration exam with enough data to try every screen.

use vstd::prelude::*;
use crate::db::{Db, GradeError, SqlParam, execute};
use crate::models::RosterRow;
use crate::setup::{
    add_preset, add_problem, create_exam, import_roster, list_students, roster_keys, roster_row_view, RosterKey,
};
use crate::text::{decimal, decimal_digits, decimal_string, decimal_digits_of, string_from_chars};

verus! {

/// The exam number of the `k`-th demonstration student (from 1): `A`
/// followed by `k` in at least two digits.
pub open spec fn fake_exam_number(k: nat) -> Seq<char> {
    seq!['A'] + (if k < 10 {
        seq!['0']
    } else {
        Seq::empty()
    }) + decimal_digits(k)
}

pub fn fake_exam_number_of(k: u64) -> (s: String)
    ensures
        s@ == fake_exam_number(k as nat),
{
    let digits = decimal_digits_of(k);
    let mut all: Vec<char> = Vec::new();
    all.push('A');
    if k < 10 {
        all.push('0');
    }
    let ghost head = all@;
    let mut i: usize = 0;
    while i < digits.len()
        invariant
            i <= digits.len(),
            all@ == head + digits@.take(i as int),
        decreases digits.len() - i,
    {
        all.push(digits[i]);
        i = i + 1;
        assert(all@ =~= head + digits@.take(i as int));
    }
    assert(digits@.take(digits.len() as int) =~= digits@);
    assert(head =~= seq!['A'] + (if k < 10 { seq!['0'] } else { Seq::<char>::empty() }));
    string_from_chars(all.as_slice())
}

/// The image path of a demonstration page.
pub open spec fn fake_page_path(exam_id: i64, student_id: i64, prob_no: i64, seq: i64) -> Seq<char> {
    "fake://exam"@ + decimal(exam_id as int) + "/stu"@ + decimal(student_id as int) + "/q"@ + decimal(
        prob_no as int,
    ) + "/"@ + decimal(seq as int) + ".jpg"@
}

pub fn fake_page_path_of(exam_id: i64, student_id: i64, prob_no: i64, seq: i64) -> (s: String)
    ensures
        s@ == fake_page_path(exam_id, student_id, prob_no, seq),
{
    let mut s = String::from_str("fake://exam");
    s.append(decimal_string(exam_id).as_str());
    s.append("/stu");
    s.append(decimal_string(student_id).as_str());
    s.append("/q");
    s.append(decimal_string(prob_no).as_str());
    s.append("/");
    s.append(decimal_string(seq).as_str());
    s.append(".jpg");
    s
}

/// Stores a labelled demonstration page at scan position `seq` and moves
/// `seq` on by one; `Overflow`, with nothing stored, where `seq` is already
/// `i64::MAX`.
fn insert_page(db: &Db, exam_id: i64, student_id: i64, prob_no: i64, seq: &mut i64) -> (r: Result<(), GradeError>)
    ensures
        r is Ok ==> *final(seq) == *old(seq) + 1,
        r is Err ==> *final(seq) == *old(seq),
        *old(seq) == i64::MAX ==> (r matches Err(e) && e is Overflow),
        r matches Err(e) ==> e is Sql || (e is Overflow && *old(seq) == i64::MAX),
{
    if *seq == i64::MAX {
        return Err(GradeError::Overflow);
    }
    let path = fake_page_path_of(exam_id, student_id, prob_no, *seq);
    let r = execute(
        &db.conn,
        "INSERT INTO page(exam_id, student_id, problem_number, image_path, seq, status)
         VALUES(?1,?2,?3,?4,?5,'labeled')",
        &[
            SqlParam::Integer(exam_id),
            SqlParam::Integer(student_id),
            SqlParam::Integer(prob_no),
            SqlParam::Text(path),
            SqlParam::Integer(*seq),
        ],
    );
    if let Err(e) = r {
        return Err(e);
    }
    *seq = *seq + 1;
    Ok(())
}

/// The `k`-th demonstration problem (from 0): number, title and full marks.
pub open spec fn demo_problem(k: int) -> (i64, Seq<char>, i64) {
    if k == 0 {
        (1, "运动学"@, 10)
    } else if k == 1 {
        (2, "动力学"@, 20)
    } else {
        (3, "能量"@, 20)
    }
}

/// The presets the `k`-th demonstration problem gets besides its automatic
/// ones: key, label and points.
pub open spec fn demo_presets(k: int) -> Seq<(i64, Seq<char>, i64)> {
    if k == 0 {
        seq![(1i64, "只列式"@, 4i64)]
    } else if k == 1 {
        seq![(1i64, "只建系受力"@, 6i64), (2i64, "建系+列方程"@, 11i64)]
    } else {
        seq![(1i64, "前两问"@, 12i64)]
    }
}

/// The `k`-th demonstration problem.
pub fn demo_problem_of(k: usize) -> (p: (i64, &'static str, i64))
    ensures
        (p.0, p.1@, p.2) == demo_problem(k as int),
{
    if k == 0 {
        (1, "运动学", 10)
    } else if k == 1 {
        (2, "动力学", 20)
    } else {
        (3, "能量", 20)
    }
}

/// The extra presets of the `k`-th demonstration problem.
pub fn demo_presets_of(k: usize) -> (ps: Vec<(i64, &'static str, i64)>)
    ensures
        ps@.len() == demo_presets(k as int).len(),
        forall|j: int|
            0 <= j < ps@.len() ==> ((#[trigger] ps@[j]).0, ps@[j].1@, ps@[j].2) == demo_presets(k as int)[j],
{
    let mut ps: Vec<(i64, &'static str, i64)> = Vec::new();
    if k == 0 {
        ps.push((1, "只列式", 4));
    } else if k == 1 {
        ps.push((1, "只建系受力", 6));
        ps.push((2, "建系+列方程", 11));
    } else {
        ps.push((1, "前两问", 12));
    }
    ps
}

/// The name of the `k`-th demonstration student (from 0).
pub open spec fn demo_name(k: int) -> Seq<char> {
    if k == 0 {
        "张三"@
    } else if k == 1 {
        "李四"@
    } else if k == 2 {
        "王五"@
    } else if k == 3 {
        "赵六"@
    } else {
        "钱七"@
    }
}

/// The roster keys of the demonstration students: five names with exam
/// numbers A01 to A05.
pub open spec fn demo_keys() -> Seq<RosterKey> {
    Seq::new(5, |k: int| (demo_name(k), Some(fake_exam_number((k + 1) as nat))))
}

fn demo_name_of(k: usize) -> (r: &'static str)
    ensures
        r@ == demo_name(k as int),
{
    if k == 0 {
        "张三"
    } else if k == 1 {
        "李四"
    } else if k == 2 {
        "王五"
    } else if k == 3 {
        "赵六"
    } else {
        "钱七"
    }
}

/// The roster lines of the demonstration exam.
pub fn demo_roster() -> (rows: Vec<RosterRow>)
    ensures
        roster_keys(rows@) == demo_keys(),
{
    let mut rows: Vec<RosterRow> = Vec::new();
    let mut i: usize = 0;
    while i < 5
        invariant
            i <= 5,
            rows.len() == i,
            forall|k: int| 0 <= k < i ==> roster_row_view(#[trigger] rows@[k]) == demo_keys()[k],
        decreases 5 - i,
    {
        let number = fake_exam_number_of(i as u64 + 1);
        rows.push(RosterRow { name: demo_name_of(i).to_owned(), exam_number: Some(number) });
        i = i + 1;
    }
    assert(roster_keys(rows@) =~= demo_keys());
    rows
}

/// The demonstration pages of the student with id `sid`, the `idx`-th on
/// the roster, as (student, problem) in scan order: one page per problem,
/// and for the third student a second page on problem 2.
pub open spec fn demo_student_pages(sid: i64, idx: int) -> Seq<(i64, i64)> {
    if idx == 2 {
        seq![(sid, 1i64), (sid, 2i64), (sid, 2i64), (sid, 3i64)]
    } else {
        seq![(sid, 1i64), (sid, 2i64), (sid, 3i64)]
    }
}

/// The demonstration pages of the students `ids`, in roster order.
pub open spec fn demo_pages(ids: Seq<i64>) -> Seq<(i64, i64)>
    decreases ids.len(),
{
    if ids.len() == 0 {
        Seq::empty()
    } else {
        demo_pages(ids.drop_last()) + demo_student_pages(ids.last(), ids.len() - 1)
    }
}

/// The demonstration pages of the students `ids`, in scan order.
pub fn demo_page_plan(ids: &Vec<i64>) -> (plan: Vec<(i64, i64)>)
    ensures
        plan@ == demo_pages(ids@),
{
    let mut plan: Vec<(i64, i64)> = Vec::new();
    let mut i: usize = 0;
    while i < ids.len()
        invariant
            i <= ids.len(),
            plan@ == demo_pages(ids@.take(i as int)),
        decreases ids.len() - i,
    {
        let sid = ids[i];
        let ghost before = plan@;
        plan.push((sid, 1));
        plan.push((sid, 2));
        if i == 2 {
            plan.push((sid, 2));
        }
        plan.push((sid, 3));
        assert(ids@.take(i as int + 1).drop_last() =~= ids@.take(i as int));
        assert(plan@ =~= before + demo_student_pages(sid, i as int));
        i = i + 1;
    }
    assert(ids@.take(ids.len() as int) =~= ids@);
    plan
}

/// Fills the database with a demonstration exam and gives its id: the three
/// problems of `demo_problem_of` with the presets of `demo_presets_of`
/// besides their automatic ones, the five students of
/// `demo_roster`, and the labelled pages of `demo_page_plan` for the
/// students on the roster, in scan positions 0, 1, ... `Overflow` only where
/// the roster positions or the scan positions would pass `i64::MAX`.
pub fn seed_fake_exam(db: &Db) -> (r: Result<i64, GradeError>)
{
    let exam = create_exam(db, "假奥赛物理", "2026-07-02")?;
    let mut k: usize = 0;
    while k < 3
        invariant
            k <= 3,
        decreases 3 - k,
    {
        let (number, title, max_score) = demo_problem_of(k);
        let pid = add_problem(db, exam, number, title, max_score)?;
        let extra = demo_presets_of(k);
        let mut j: usize = 0;
        while j < extra.len()
            invariant
                j <= extra.len(),
            decreases extra.len() - j,
        {
            let (slot, label, points) = extra[j];
            add_preset(db, pid, slot, label, points)?;
            j = j + 1;
        }
        k = k + 1;
    }

    let rows = demo_roster();
    match import_roster(db, exam, rows.as_slice()) {
        Ok(_) => {},
        Err(e) => {
            return Err(e);
        },
    }
    let students = list_students(db, exam)?;
    let mut ids: Vec<i64> = Vec::new();
    let mut i: usize = 0;
    while i < students.len()
        invariant
            i <= students.len(),
        decreases students.len() - i,
    {
        ids.push(students[i].id);
        i = i + 1;
    }
    let plan = demo_page_plan(&ids);
    if plan.len() as u64 >= i64::MAX as u64 {
        return Err(GradeError::Overflow);
    }
    let mut seq: i64 = 0;
    let mut k: usize = 0;
    while k < plan.len()
        invariant
            k <= plan.len(),
            plan.len() < i64::MAX,
            seq == k,
        decreases plan.len() - k,
    {
        let (sid, prob_no) = plan[k];
        match insert_page(db, exam, sid, prob_no, &mut seq) {
            Ok(()) => {},
            Err(e) => {
                return Err(e);
            },
        }
        k = k + 1;
    }
    Ok(exam)
}

} // verus!
