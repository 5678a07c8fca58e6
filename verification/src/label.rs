//! Labelling scanned pages: which student and problem each page belongs to,
//! and a summary that shows missing or extra pages and absent students.

use vstd::prelude::*;
use crate::db::{
    id_params, rows_view, text_param,    Db, GradeError, SqlParam, SqlValue, col_i64, col_opt_i64, col_string, col_string_or_empty, execute,
    query_all, query_i64, is_read_error, sql_last_insert_rowid, int_at, opt_int_at, text_at, text_or_empty_at,
    is_int_at, is_opt_int_at, is_text_at, is_opt_text_at,
};
use crate::models::{LabelSummary, PageRow, StackRow, Student};
use crate::export::clone_opt_string;
use crate::setup;
use crate::setup::student_values;
use crate::grading::opt_param;

verus! {

/// `row` is the page `p` as `SELECT id, seq, image_path, student_id,
/// problem_number, status` gives it; a missing position reads as 0 and a
/// missing status as the empty string.
pub open spec fn page_row(row: Seq<SqlValue>, p: PageRow) -> bool {
    &&& int_at(row, 0, p.id)
    &&& (opt_int_at(row, 1, Some(p.seq)) || (row[1] is Null && p.seq == 0))
    &&& text_at(row, 2, p.image_path)
    &&& opt_int_at(row, 3, p.student_id)
    &&& opt_int_at(row, 4, p.problem_number)
    &&& text_or_empty_at(row, 5, p.status)
}

pub open spec fn page_row_ok(row: Seq<SqlValue>) -> bool {
    is_int_at(row, 0) && is_opt_int_at(row, 1) && is_text_at(row, 2) && is_opt_int_at(row, 3)
        && is_opt_int_at(row, 4) && is_opt_text_at(row, 5)
}

/// The page in a result row.
pub fn page_from_row(row: &Vec<SqlValue>) -> (r: Result<PageRow, GradeError>)
    ensures
        r is Ok <==> page_row_ok(row@),
        r matches Ok(p) ==> page_row(row@, p),
        r matches Err(e) ==> e is ColumnType,
{
    let id = col_i64(row, 0)?;
    let seq = match col_opt_i64(row, 1)? {
        Some(v) => v,
        None => 0,
    };
    let image_path = col_string(row, 2)?;
    let student_id = col_opt_i64(row, 3)?;
    let problem_number = col_opt_i64(row, 4)?;
    let status = col_string_or_empty(row, 5)?;
    Ok(PageRow { id, seq, image_path, student_id, problem_number, status })
}

/// `ps` are the pages that `rows` hold, one per row, in order.
pub open spec fn pages_in_rows(rows: Seq<Seq<SqlValue>>, ps: Seq<PageRow>) -> bool {
    rows.len() == ps.len() && forall|k: int| 0 <= k < ps.len() ==> page_row(rows[k], #[trigger] ps[k])
}

/// The scanned pages of an exam, in scan order.
pub fn list_pages(db: &Db, exam_id: i64) -> (r: Result<Vec<PageRow>, GradeError>)
    ensures
        r matches Ok(v) ==> exists|rs: Seq<Seq<SqlValue>>| #[trigger] pages_in_rows(rs, v@),
        r matches Err(e) ==> e is Sql || e is ColumnType,
{
    let rows = query_all(
        &db.conn,
        "SELECT id, seq, image_path, student_id, problem_number, status
         FROM page WHERE exam_id=?1 ORDER BY seq",
        id_params(exam_id).as_slice(),
    );
    let rows = match rows {
        Ok(rows) => rows,
        Err(e) => return Err(e),
    };
    let mut out: Vec<PageRow> = Vec::new();
    let mut i: usize = 0;
    while i < rows.len()
        invariant
            i <= rows.len(),
            out.len() == i,
            forall|k: int| 0 <= k < i ==> page_row(rows@[k]@, #[trigger] out@[k]),
        decreases rows.len() - i,
    {
        let p = match page_from_row(&rows[i]) {
            Ok(x) => x,
            Err(e) => return Err(e),
        };
        out.push(p);
        i = i + 1;
    }
    assert(pages_in_rows(rows_view(rows@), out@));
    let res: Result<Vec<PageRow>, GradeError> = Ok(out);
    assert(res->Ok_0@ == out@);
    res
}

/// The status of a page: labelled once it belongs to a student, otherwise
/// just taken in.
pub open spec fn label_status_of(student_id: Option<i64>) -> Seq<char> {
    if student_id is Some {
        "labeled"@
    } else {
        "ingested"@
    }
}

pub fn label_status(student_id: Option<i64>) -> (r: &'static str)
    ensures
        r@ == label_status_of(student_id),
{
    if student_id.is_some() {
        "labeled"
    } else {
        "ingested"
    }
}

/// The values bound to the label update of page `page_id`: the page, the
/// student and problem (`NULL` for `None`) and the status that follows
/// from the student.
pub open spec fn page_label_update(page_id: i64, student_id: Option<i64>, problem_number: Option<i64>, p: Seq<SqlParam>) -> bool {
    &&& p.len() == 4
    &&& p[0] == SqlParam::Integer(page_id)
    &&& p[1] == opt_param(student_id)
    &&& p[2] == opt_param(problem_number)
    &&& text_param(p[3], label_status_of(student_id))
}

/// The values bound to the label update of a page.
pub fn page_label_params(page_id: i64, student_id: Option<i64>, problem_number: Option<i64>) -> (p: Vec<SqlParam>)
    ensures
        page_label_update(page_id, student_id, problem_number, p@),
{
    let status = label_status(student_id);
    let mut p: Vec<SqlParam> = Vec::new();
    p.push(SqlParam::Integer(page_id));
    p.push(match student_id {
        Some(v) => SqlParam::Integer(v),
        None => SqlParam::Null,
    });
    p.push(match problem_number {
        Some(v) => SqlParam::Integer(v),
        None => SqlParam::Null,
    });
    p.push(SqlParam::Text(status.to_owned()));
    p
}

/// The values bound to the insert of a student added by hand.
pub fn new_student_params(exam_id: i64, name: &str, exam_number: Option<&str>, pos: i64) -> (p: Vec<SqlParam>)
    ensures
        student_values(
            exam_id,
            name@,
            match exam_number {
                Some(s) => Some(s@),
                None => None,
            },
            pos as int,
            p@,
        ),
{
    let mut p: Vec<SqlParam> = Vec::new();
    p.push(SqlParam::Integer(exam_id));
    p.push(SqlParam::Text(name.to_owned()));
    p.push(match exam_number {
        Some(s) => SqlParam::Text(s.to_owned()),
        None => SqlParam::Null,
    });
    p.push(SqlParam::Integer(pos));
    p
}

/// Gives a page to a student and a problem (0 for the name page), or takes
/// the label away when `student_id` is `None`; the values stored are those
/// of `page_label_params`.
pub fn set_page_label(db: &Db, page_id: i64, student_id: Option<i64>, problem_number: Option<i64>) -> (r: Result<(), GradeError>)
    ensures
        r matches Err(e) ==> e is Sql,
{
    let params = page_label_params(page_id, student_id, problem_number);
    execute(&db.conn, "UPDATE page SET student_id=?2, problem_number=?3, status=?4 WHERE id=?1", params.as_slice())
}

/// Adds a student at the end of the roster (one past the highest roster
/// position, with the values of `new_student_params`) and gives its id.
pub fn add_student(db: &Db, exam_id: i64, name: &str, exam_number: Option<&str>) -> (r: Result<i64, GradeError>)
    ensures
        r matches Err(e) ==> is_read_error(e),
{
    let next = query_i64(
        &db.conn,
        "SELECT COALESCE(MAX(roster_order)+1, 0) FROM student WHERE exam_id=?1",
        id_params(exam_id).as_slice(),
    )?;
    let params = new_student_params(exam_id, name, exam_number, next);
    execute(
        &db.conn,
        "INSERT INTO student(exam_id, name, exam_number, roster_order) VALUES(?1,?2,?3,?4)",
        params.as_slice(),
    )?;
    Ok(sql_last_insert_rowid(&db.conn))
}

/// The stack line of a present student: answer pages against problems.
pub open spec fn stack_of(s: Student, answer_pages: i64, problem_count: i64) -> StackRow {
    StackRow {
        student_id: s.id,
        student_name: s.name,
        answer_pages,
        problem_count,
        count_ok: answer_pages == problem_count,
    }
}

/// The stacks of the present students among the first `n`, in roster order.
pub open spec fn stacks_of(students: Seq<Student>, totals: Seq<i64>, answers: Seq<i64>, problem_count: i64, n: int) -> Seq<StackRow>
    decreases n,
{
    if n <= 0 {
        Seq::empty()
    } else if totals[n - 1] == 0 {
        stacks_of(students, totals, answers, problem_count, n - 1)
    } else {
        stacks_of(students, totals, answers, problem_count, n - 1).push(
            stack_of(students[n - 1], answers[n - 1], problem_count),
        )
    }
}

/// The students among the first `n` with no page at all, in roster order.
pub open spec fn absent_of(students: Seq<Student>, totals: Seq<i64>, n: int) -> Seq<Student>
    decreases n,
{
    if n <= 0 {
        Seq::empty()
    } else if totals[n - 1] == 0 {
        absent_of(students, totals, n - 1).push(students[n - 1])
    } else {
        absent_of(students, totals, n - 1)
    }
}

/// A copy of a student.
pub fn clone_student(s: &Student) -> (r: Student)
    ensures
        r == *s,
{
    Student {
        id: s.id,
        name: s.name.clone(),
        exam_number: clone_opt_string(&s.exam_number),
        roster_order: s.roster_order,
    }
}

/// The labelling summary from the roster, each student's page count and
/// answer-page count (pages with a problem number of 1 or more), the number
/// of problems, and the number of pages with no student.
pub fn assemble_label_summary(
    problem_count: i64,
    students: &Vec<Student>,
    totals: &Vec<i64>,
    answers: &Vec<i64>,
    unlabeled_pages: i64,
) -> (s: LabelSummary)
    requires
        totals.len() == students.len(),
        answers.len() == students.len(),
    ensures
        s.stacks@ == stacks_of(students@, totals@, answers@, problem_count, students.len() as int),
        s.absent_students@ == absent_of(students@, totals@, students.len() as int),
        s.unlabeled_pages == unlabeled_pages,
{
    let mut stacks: Vec<StackRow> = Vec::new();
    let mut absent: Vec<Student> = Vec::new();
    let mut i: usize = 0;
    while i < students.len()
        invariant
            totals.len() == students.len(),
            answers.len() == students.len(),
            i <= students.len(),
            stacks@ == stacks_of(students@, totals@, answers@, problem_count, i as int),
            absent@ == absent_of(students@, totals@, i as int),
        decreases students.len() - i,
    {
        let stu = &students[i];
        if totals[i] == 0 {
            absent.push(clone_student(stu));
        } else {
            stacks.push(StackRow {
                student_id: stu.id,
                student_name: stu.name.clone(),
                answer_pages: answers[i],
                problem_count,
                count_ok: answers[i] == problem_count,
            });
        }
        i = i + 1;
    }
    LabelSummary { stacks, absent_students: absent, unlabeled_pages }
}

/// Every student is either absent or has a stack, never both: the two
/// lists together are as long as the roster.
pub proof fn lemma_summary_partition(students: Seq<Student>, totals: Seq<i64>, answers: Seq<i64>, problem_count: i64, n: int)
    requires
        0 <= n <= students.len(),
    ensures
        stacks_of(students, totals, answers, problem_count, n).len() + absent_of(students, totals, n).len() == n,
    decreases n,
{
    if n > 0 {
        lemma_summary_partition(students, totals, answers, problem_count, n - 1);
    }
}

/// `s` is the labelling summary of some roster with some page and
/// answer-page counts and a number of problems.
pub open spec fn is_label_summary(s: LabelSummary) -> bool {
    exists|students: Seq<Student>, totals: Seq<i64>, answers: Seq<i64>, problem_count: i64|
        totals.len() == students.len() && answers.len() == students.len() && problem_count >= 0
            && #[trigger] stacks_of(students, totals, answers, problem_count, students.len() as int)
            == s.stacks@ && s.absent_students@ == absent_of(students, totals, students.len() as int)
}

/// A row of `SELECT problem_number, id` for an answer page: a problem
/// number of 1 or more (0 is the name page, `NULL` not yet labelled).
pub open spec fn is_answer_row(row: Seq<SqlValue>) -> bool {
    row.len() > 0 && (row[0] matches SqlValue::Integer(x) && x >= 1)
}

/// A row of `SELECT student_id` for a page given to no student.
pub open spec fn is_unlabeled_row(row: Seq<SqlValue>) -> bool {
    row.len() > 0 && row[0] is Null
}

/// How many of `rows` are answer-page rows.
pub open spec fn answer_count(rows: Seq<Seq<SqlValue>>) -> int
    decreases rows.len(),
{
    if rows.len() == 0 {
        0
    } else {
        answer_count(rows.drop_last()) + (if is_answer_row(rows.last()) {
            1int
        } else {
            0int
        })
    }
}

/// How many of `rows` are rows of pages given to no student.
pub open spec fn unlabeled_count(rows: Seq<Seq<SqlValue>>) -> int
    decreases rows.len(),
{
    if rows.len() == 0 {
        0
    } else {
        unlabeled_count(rows.drop_last()) + (if is_unlabeled_row(rows.last()) {
            1int
        } else {
            0int
        })
    }
}

proof fn lemma_counts_bounded(rows: Seq<Seq<SqlValue>>)
    ensures
        0 <= answer_count(rows) <= rows.len(),
        0 <= unlabeled_count(rows) <= rows.len(),
    decreases rows.len(),
{
    if rows.len() > 0 {
        lemma_counts_bounded(rows.drop_last());
    }
}

/// The number of rows of `SELECT problem_number, id` that are answer
/// pages.
pub fn count_answer_pages(rows: &Vec<Vec<SqlValue>>) -> (n: i64)
    requires
        rows.len() < i64::MAX,
    ensures
        n == answer_count(rows_view(rows@)),
{
    let ghost rv = rows_view(rows@);
    let mut n: i64 = 0;
    let mut k: usize = 0;
    while k < rows.len()
        invariant
            rv == rows_view(rows@),
            rows.len() < i64::MAX,
            k <= rows.len(),
            n == answer_count(rv.take(k as int)),
        decreases rows.len() - k,
    {
        proof {
            lemma_counts_bounded(rv.take(k as int));
            assert(rv.take(k as int + 1).drop_last() =~= rv.take(k as int));
            assert(rv[k as int] == rows@[k as int]@);
        }
        let row = &rows[k];
        let is_answer = row.len() > 0 && match &row[0] {
            SqlValue::Integer(x) => *x >= 1,
            _ => false,
        };
        if is_answer {
            n = n + 1;
        }
        k = k + 1;
    }
    assert(rv.take(rows.len() as int) =~= rv);
    n
}

/// The number of rows of `SELECT student_id` whose page has no student.
pub fn count_unlabeled_pages(rows: &Vec<Vec<SqlValue>>) -> (n: i64)
    requires
        rows.len() < i64::MAX,
    ensures
        n == unlabeled_count(rows_view(rows@)),
{
    let ghost rv = rows_view(rows@);
    let mut n: i64 = 0;
    let mut k: usize = 0;
    while k < rows.len()
        invariant
            rv == rows_view(rows@),
            rows.len() < i64::MAX,
            k <= rows.len(),
            n == unlabeled_count(rv.take(k as int)),
        decreases rows.len() - k,
    {
        proof {
            lemma_counts_bounded(rv.take(k as int));
            assert(rv.take(k as int + 1).drop_last() =~= rv.take(k as int));
            assert(rv[k as int] == rows@[k as int]@);
        }
        let row = &rows[k];
        let unlabeled = row.len() > 0 && match &row[0] {
            SqlValue::Null => true,
            _ => false,
        };
        if unlabeled {
            n = n + 1;
        }
        k = k + 1;
    }
    assert(rv.take(rows.len() as int) =~= rv);
    n
}

/// Each student's page count, from the student's page rows.
pub open spec fn page_totals(pages: Seq<Seq<Seq<SqlValue>>>) -> Seq<i64> {
    pages.map_values(|rows: Seq<Seq<SqlValue>>| rows.len() as i64)
}

/// Each student's answer-page count, from the student's page rows.
pub open spec fn page_answers(pages: Seq<Seq<Seq<SqlValue>>>) -> Seq<i64> {
    pages.map_values(|rows: Seq<Seq<SqlValue>>| answer_count(rows) as i64)
}

/// `s` is the labelling summary of the roster `students`, where `pages[i]`
/// are the rows of `SELECT problem_number, id` for the pages of `students[i]`,
/// `unlabeled` the rows of `SELECT student_id` for the pages of the exam,
/// and `problem_count` the number of problems: a student with no page is
/// absent, the others have a stack of their answer pages (problem number 1
/// or more), and the pages with no student are counted.
pub open spec fn summary_of_rows(
    s: LabelSummary,
    students: Seq<Student>,
    pages: Seq<Seq<Seq<SqlValue>>>,
    unlabeled: Seq<Seq<SqlValue>>,
    problem_count: i64,
) -> bool {
    let n = students.len() as int;
    &&& pages.len() == students.len()
    &&& problem_count >= 0
    &&& forall|i: int| 0 <= i < pages.len() ==> (#[trigger] pages[i]).len() < i64::MAX
    &&& s.stacks@ == stacks_of(students, page_totals(pages), page_answers(pages), problem_count, n)
    &&& s.absent_students@ == absent_of(students, page_totals(pages), n)
    &&& s.unlabeled_pages == unlabeled_count(unlabeled)
}

/// Where labelling of an exam stands: for each present student (one with
/// at least one page) the answer pages against the number of problems; the
/// students with no page, who are absent; and the pages given to no one.
/// `Overflow` where a count would not fit in an `i64`.
pub fn labeling_summary(db: &Db, exam_id: i64) -> (r: Result<LabelSummary, GradeError>)
    ensures
        r matches Err(e) ==> e is Sql || e is ColumnType || e is Overflow,
        r matches Ok(s) ==> exists|
            students: Seq<Student>,
            pages: Seq<Seq<Seq<SqlValue>>>,
            unlabeled: Seq<Seq<SqlValue>>,
            problem_count: i64,
        | #[trigger] summary_of_rows(s, students, pages, unlabeled, problem_count),
        r matches Ok(s) ==> is_label_summary(s),
        r matches Ok(s) ==> forall|k: int|
            0 <= k < s.stacks.len() ==> (#[trigger] s.stacks@[k]).count_ok == (s.stacks@[k].answer_pages
                == s.stacks@[k].problem_count) && s.stacks@[k].problem_count == s.stacks@[0].problem_count,
{
    let problems = setup::list_problems(db, exam_id)?;
    if problems.len() as u64 >= i64::MAX as u64 {
        return Err(GradeError::Overflow);
    }
    let problem_count = problems.len() as i64;
    let students = setup::list_students(db, exam_id)?;
    let mut pages: Vec<Vec<Vec<SqlValue>>> = Vec::new();
    let mut totals: Vec<i64> = Vec::new();
    let mut answers: Vec<i64> = Vec::new();
    let lookups = setup::roster_id_params(&students);
    let mut i: usize = 0;
    while i < students.len()
        invariant
            lookups.len() == students.len(),
            i <= students.len(),
            pages.len() == i,
            totals.len() == i,
            answers.len() == i,
            forall|k: int| 0 <= k < i ==> (#[trigger] pages@[k]).len() < i64::MAX,
            forall|k: int| 0 <= k < i ==> #[trigger] totals@[k] == pages@[k].len() as i64,
            forall|k: int| 0 <= k < i ==> #[trigger] answers@[k] == answer_count(rows_view(pages@[k]@)) as i64,
        decreases students.len() - i,
    {
        let rows = query_all(&db.conn, "SELECT problem_number, id FROM page WHERE student_id=?1", lookups[i].as_slice())?;
        if rows.len() as u64 >= i64::MAX as u64 {
            return Err(GradeError::Overflow);
        }
        let total = rows.len() as i64;
        let answer = count_answer_pages(&rows);
        pages.push(rows);
        totals.push(total);
        answers.push(answer);
        i = i + 1;
    }
    let rest = query_all(
        &db.conn,
        "SELECT student_id FROM page WHERE exam_id=?1",
        id_params(exam_id).as_slice(),
    )?;
    if rest.len() as u64 >= i64::MAX as u64 {
        return Err(GradeError::Overflow);
    }
    let unlabeled = count_unlabeled_pages(&rest);
    let s = assemble_label_summary(problem_count, &students, &totals, &answers, unlabeled);
    proof {
        let pv = pages@.map_values(|rows: Vec<Vec<SqlValue>>| rows_view(rows@));
        assert(page_totals(pv) =~= totals@) by {
            assert forall|k: int| 0 <= k < totals.len() implies page_totals(pv)[k] == totals@[k] by {
                assert(pv[k] == rows_view(pages@[k]@));
            }
        }
        assert(page_answers(pv) =~= answers@) by {
            assert forall|k: int| 0 <= k < answers.len() implies page_answers(pv)[k] == answers@[k] by {
                assert(pv[k] == rows_view(pages@[k]@));
            }
        }
        assert forall|k: int| 0 <= k < pv.len() implies (#[trigger] pv[k]).len() < i64::MAX by {
            assert(pv[k] == rows_view(pages@[k]@));
        }
        assert(summary_of_rows(s, students@, pv, rows_view(rest@), problem_count));
        lemma_stacks_uniform(students@, totals@, answers@, problem_count, students.len() as int);
    }
    assert(stacks_of(students@, totals@, answers@, problem_count, students.len() as int) == s.stacks@);
    let res: Result<LabelSummary, GradeError> = Ok(s);
    assert(res->Ok_0 == s);
    res
}

proof fn lemma_stacks_uniform(students: Seq<Student>, totals: Seq<i64>, answers: Seq<i64>, problem_count: i64, n: int)
    ensures
        forall|k: int|
            0 <= k < stacks_of(students, totals, answers, problem_count, n).len() ==> {
                let st = #[trigger] stacks_of(students, totals, answers, problem_count, n)[k];
                st.problem_count == problem_count && st.count_ok == (st.answer_pages == problem_count)
            },
    decreases n,
{
    if n > 0 {
        lemma_stacks_uniform(students, totals, answers, problem_count, n - 1);
        let prev = stacks_of(students, totals, answers, problem_count, n - 1);
        let cur = stacks_of(students, totals, answers, problem_count, n);
        assert forall|k: int| 0 <= k < cur.len() implies {
            let st = #[trigger] cur[k];
            st.problem_count == problem_count && st.count_ok == (st.answer_pages == problem_count)
        } by {
            if k < prev.len() {
                assert(cur[k] == prev[k]);
            }
        }
    }
}

} // verus!

verus! {

/// Every page with a problem number of 1 or more counts once as an answer
/// page, whatever number it has: no page counts on an empty list, adding an
/// answer page (a second page on a problem already seen included) adds
/// one, and adding any other page adds nothing.
pub proof fn lemma_answer_pages_count_each_page(rows: Seq<Seq<SqlValue>>, page: Seq<SqlValue>)
    ensures
        answer_count(Seq::empty()) == 0,
        is_answer_row(page) ==> answer_count(rows.push(page)) == answer_count(rows) + 1,
        !is_answer_row(page) ==> answer_count(rows.push(page)) == answer_count(rows),
        answer_count(rows) <= rows.len(),
{
    assert(rows.push(page).drop_last() =~= rows);
    lemma_counts_bounded(rows);
}

/// Where the present students' stacks stand in the summary: for a student
/// with at least one page there is a stack with the student's id and name,
/// the given answer-page count, the number of problems, and `count_ok`
/// exactly when the two agree.
pub proof fn lemma_present_student_has_stack(
    students: Seq<Student>,
    totals: Seq<i64>,
    answers: Seq<i64>,
    problem_count: i64,
    n: int,
    i: int,
)
    requires
        0 <= i < n <= students.len(),
        n <= totals.len(),
        n <= answers.len(),
        totals[i] != 0,
    ensures
        exists|k: int|
            0 <= k < stacks_of(students, totals, answers, problem_count, n).len() && #[trigger] stacks_of(
                students,
                totals,
                answers,
                problem_count,
                n,
            )[k] == stack_of(students[i], answers[i], problem_count),
    decreases n,
{
    let cur = stacks_of(students, totals, answers, problem_count, n);
    let prev = stacks_of(students, totals, answers, problem_count, n - 1);
    if i == n - 1 {
        assert(cur == prev.push(stack_of(students[i], answers[i], problem_count)));
        assert(cur[prev.len() as int] == stack_of(students[i], answers[i], problem_count));
    } else {
        lemma_present_student_has_stack(students, totals, answers, problem_count, n - 1, i);
        let k = choose|k: int|
            0 <= k < prev.len() && #[trigger] prev[k] == stack_of(students[i], answers[i], problem_count);
        if totals[n - 1] != 0 {
            assert(cur == prev.push(stack_of(students[n - 1], answers[n - 1], problem_count)));
            assert(cur[k] == prev[k]);
        }
    }
}

/// In a labelling summary, each present student (one with a page) has a
/// stack whose answer-page count is the number of the student's pages with
/// a problem number of 1 or more, each page counted, and whose `count_ok`
/// says whether that equals the number of problems.
pub proof fn lemma_summary_answer_pages(
    s: LabelSummary,
    students: Seq<Student>,
    pages: Seq<Seq<Seq<SqlValue>>>,
    unlabeled: Seq<Seq<SqlValue>>,
    problem_count: i64,
    i: int,
)
    requires
        summary_of_rows(s, students, pages, unlabeled, problem_count),
        0 <= i < students.len(),
        pages[i].len() > 0,
    ensures
        exists|k: int|
            0 <= k < s.stacks.len() && {
                let st = #[trigger] s.stacks@[k];
                &&& st.student_id == students[i].id
                &&& st.answer_pages == answer_count(pages[i])
                &&& st.problem_count == problem_count
                &&& st.count_ok == (answer_count(pages[i]) == problem_count)
            },
{
    let totals = page_totals(pages);
    let answers = page_answers(pages);
    assert(pages[i].len() < i64::MAX);
    assert(totals[i] == pages[i].len() as i64);
    lemma_counts_bounded(pages[i]);
    assert(answers[i] == answer_count(pages[i]) as i64);
    lemma_present_student_has_stack(students, totals, answers, problem_count, students.len() as int, i);
    let k = choose|k: int|
        0 <= k < stacks_of(students, totals, answers, problem_count, students.len() as int).len()
            && #[trigger] stacks_of(students, totals, answers, problem_count, students.len() as int)[k]
            == stack_of(students[i], answers[i], problem_count);
    assert(s.stacks@[k] == stack_of(students[i], answers[i], problem_count));
}

} // verus!
