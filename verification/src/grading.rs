//! Grading: the queue of units for one problem, storing a score, and the
//! pages of one student.

use vstd::prelude::*;
use crate::db::{
    id_params, id_pair_params, rows_view, opt_int_of, int_at, is_int_at,    Db, GradeError, SqlParam, SqlValue, col_i64, col_opt_i64, col_string, execute, query_all, query_one,
    query_opt, opt_int_at, text_at, is_opt_int_at, is_text_at,
};
use crate::models::{GradingUnit, PageRef, ScoreState, state_name, state_of_name};

verus! {

/// A stored score as `SELECT total, state, preset_id` gives it.
pub type StoredScore = (Option<i64>, String, Option<i64>);

/// Total, state and preset of a unit: those stored, or no total, `Ungraded`
/// and no preset where nothing is stored. A unit is never given 0 by
/// default.
pub open spec fn unit_fields(score: Option<StoredScore>) -> (Option<i64>, ScoreState, Option<i64>) {
    match score {
        Some((t, s, p)) => (t, state_of_name(s@), p),
        None => (None, ScoreState::Ungraded, None),
    }
}

/// The grading unit of one student on one problem.
pub fn grading_unit(
    student_id: i64,
    student_name: String,
    problem_id: i64,
    problem_number: i64,
    pages: Vec<String>,
    score: Option<StoredScore>,
) -> (u: GradingUnit)
    ensures
        u.student_id == student_id,
        u.student_name == student_name,
        u.problem_id == problem_id,
        u.problem_number == problem_number,
        u.pages == pages,
        (u.total, u.state, u.preset_id) == unit_fields(score),
{
    let (total, state, preset_id) = match score {
        Some((t, s, pid)) => (t, ScoreState::from_str(s.as_str()), pid),
        None => (None, ScoreState::Ungraded, None),
    };
    GradingUnit { student_id, student_name, problem_id, problem_number, pages, total, state, preset_id }
}

/// The stored score in a row of `SELECT total, state, preset_id`, or `None`
/// where the row does not have that shape.
pub open spec fn stored_score_of(row: Seq<SqlValue>) -> Option<StoredScore> {
    if is_opt_int_at(row, 0) && is_opt_int_at(row, 2) {
        match row[1] {
            SqlValue::Text(state) => Some((opt_int_of(row[0]), state, opt_int_of(row[2]))),
            _ => None,
        }
    } else {
        None
    }
}

/// The stored score of a unit from the answer to its score lookup: nothing
/// where the lookup gave no row (or failed), else the row's score.
pub open spec fn score_of_answer(answer: Option<Seq<SqlValue>>) -> Option<StoredScore> {
    match answer {
        Some(row) => stored_score_of(row),
        None => None,
    }
}

/// The stored score in a row of `SELECT total, state, preset_id`, or `None`
/// where the row does not have that shape.
pub fn stored_score_from_row(row: &Vec<SqlValue>) -> (r: Option<StoredScore>)
    ensures
        r == stored_score_of(row@),
        r is Some <==> (is_opt_int_at(row@, 0) && is_text_at(row@, 1) && is_opt_int_at(row@, 2)),
        r matches Some(s) ==> opt_int_at(row@, 0, s.0) && text_at(row@, 1, s.1) && opt_int_at(row@, 2, s.2),
{
    let total = match col_opt_i64(row, 0) {
        Ok(t) => t,
        Err(_) => return None,
    };
    let state = match col_string(row, 1) {
        Ok(s) => s,
        Err(_) => return None,
    };
    let preset = match col_opt_i64(row, 2) {
        Ok(p) => p,
        Err(_) => return None,
    };
    Some((total, state, preset))
}

/// `row` is a roster row of `SELECT id, name` that can be read.
pub open spec fn queue_student_ok(row: Seq<SqlValue>) -> bool {
    is_int_at(row, 0) && is_text_at(row, 1)
}

/// Every page row of `SELECT image_path` holds a path.
pub open spec fn page_paths_ok(rows: Seq<Seq<SqlValue>>) -> bool {
    forall|k: int| 0 <= k < rows.len() ==> is_text_at(#[trigger] rows[k], 0)
}

/// `paths` are the image paths that `rows` hold, one per row, in order.
pub open spec fn paths_in_rows(rows: Seq<Seq<SqlValue>>, paths: Seq<String>) -> bool {
    paths.len() == rows.len() && forall|k: int| 0 <= k < rows.len() ==> text_at(rows[k], 0, #[trigger] paths[k])
}

/// `u` is the unit of problem `problem_id` (number `problem_number`) for the
/// student in `student`, with the pages in `pages` and the score in the
/// answer `score` to its score lookup.
pub open spec fn unit_of_rows(
    u: GradingUnit,
    problem_id: i64,
    problem_number: i64,
    student: Seq<SqlValue>,
    pages: Seq<Seq<SqlValue>>,
    score: Option<Seq<SqlValue>>,
) -> bool {
    &&& int_at(student, 0, u.student_id)
    &&& text_at(student, 1, u.student_name)
    &&& u.problem_id == problem_id
    &&& u.problem_number == problem_number
    &&& paths_in_rows(pages, u.pages@)
    &&& (u.total, u.state, u.preset_id) == unit_fields(score_of_answer(score))
}

/// Every roster row and every page row of the queue can be read.
pub open spec fn queue_rows_ok(students: Seq<Seq<SqlValue>>, pages: Seq<Seq<Seq<SqlValue>>>) -> bool {
    &&& forall|i: int| 0 <= i < students.len() ==> queue_student_ok(#[trigger] students[i])
    &&& forall|i: int| 0 <= i < pages.len() ==> page_paths_ok(#[trigger] pages[i])
}

/// `q` is the queue of the roster rows `students`, one unit per row in
/// order, the `i`-th with the page rows `pages[i]` and the score answer
/// `scores[i]`.
pub open spec fn queue_of_rows(
    q: Seq<GradingUnit>,
    problem_id: i64,
    problem_number: i64,
    students: Seq<Seq<SqlValue>>,
    pages: Seq<Seq<Seq<SqlValue>>>,
    scores: Seq<Option<Seq<SqlValue>>>,
) -> bool {
    &&& q.len() == students.len()
    &&& forall|i: int|
        0 <= i < q.len() ==> unit_of_rows(#[trigger] q[i], problem_id, problem_number, students[i], pages[i], scores[i])
}

/// The page rows of each student, as sequences.
pub open spec fn page_rows_view(pages: Seq<Vec<Vec<SqlValue>>>) -> Seq<Seq<Seq<SqlValue>>> {
    pages.map_values(|rows: Vec<Vec<SqlValue>>| rows_view(rows@))
}

/// The score answers, as sequences.
pub open spec fn score_rows_view(scores: Seq<Option<Vec<SqlValue>>>) -> Seq<Option<Seq<SqlValue>>> {
    scores.map_values(
        |a: Option<Vec<SqlValue>>|
            match a {
                Some(row) => Some(row@),
                None => None,
            },
    )
}

/// The `(id, name)` of each roster row of `SELECT id, name`.
fn queue_students(rows: &Vec<Vec<SqlValue>>) -> (r: Result<Vec<(i64, String)>, GradeError>)
    ensures
        r is Ok <==> forall|i: int| 0 <= i < rows.len() ==> queue_student_ok(#[trigger] rows@[i]@),
        r matches Ok(v) ==> v.len() == rows.len() && forall|i: int|
            0 <= i < rows.len() ==> int_at(rows@[i]@, 0, (#[trigger] v@[i]).0) && text_at(rows@[i]@, 1, v@[i].1),
        r matches Err(e) ==> e is ColumnType,
{
    let mut out: Vec<(i64, String)> = Vec::new();
    let mut i: usize = 0;
    while i < rows.len()
        invariant
            i <= rows.len(),
            out.len() == i,
            forall|k: int| 0 <= k < i ==> queue_student_ok(#[trigger] rows@[k]@),
            forall|k: int|
                0 <= k < i ==> int_at(rows@[k]@, 0, (#[trigger] out@[k]).0) && text_at(rows@[k]@, 1, out@[k].1),
        decreases rows.len() - i,
    {
        let id = match col_i64(&rows[i], 0) {
            Ok(x) => x,
            Err(e) => return Err(e),
        };
        let name = match col_string(&rows[i], 1) {
            Ok(x) => x,
            Err(e) => return Err(e),
        };
        out.push((id, name));
        i = i + 1;
    }
    Ok(out)
}

/// The image paths in page rows of `SELECT image_path`.
fn page_paths(rows: &Vec<Vec<SqlValue>>) -> (r: Result<Vec<String>, GradeError>)
    ensures
        r is Ok <==> page_paths_ok(rows_view(rows@)),
        r matches Ok(v) ==> paths_in_rows(rows_view(rows@), v@),
        r matches Err(e) ==> e is ColumnType,
{
    let ghost rv = rows_view(rows@);
    let mut out: Vec<String> = Vec::new();
    let mut k: usize = 0;
    while k < rows.len()
        invariant
            rv == rows_view(rows@),
            k <= rows.len(),
            out.len() == k,
            forall|j: int| 0 <= j < k ==> is_text_at(#[trigger] rv[j], 0),
            forall|j: int| 0 <= j < k ==> text_at(rv[j], 0, #[trigger] out@[j]),
        decreases rows.len() - k,
    {
        let path = match col_string(&rows[k], 0) {
            Ok(x) => x,
            Err(e) => {
                assert(!is_text_at(rv[k as int], 0));
                return Err(e);
            },
        };
        out.push(path);
        k = k + 1;
    }
    Ok(out)
}

/// The grading queue of problem `problem_id` (number `problem_number`) from
/// the rows read for it: the roster rows of `SELECT id, name` in roster
/// order, for each the page rows of `SELECT image_path` in scan order, and
/// the answer to its score lookup. `ColumnType` where a roster row or page
/// row cannot be read; a score row that cannot be read counts as no score.
pub fn queue_from_rows(
    problem_id: i64,
    problem_number: i64,
    students: &Vec<Vec<SqlValue>>,
    pages: &Vec<Vec<Vec<SqlValue>>>,
    scores: &Vec<Option<Vec<SqlValue>>>,
) -> (r: Result<Vec<GradingUnit>, GradeError>)
    requires
        pages.len() == students.len(),
        scores.len() == students.len(),
    ensures
        r is Ok <==> queue_rows_ok(rows_view(students@), page_rows_view(pages@)),
        r matches Ok(q) ==> queue_of_rows(
            q@,
            problem_id,
            problem_number,
            rows_view(students@),
            page_rows_view(pages@),
            score_rows_view(scores@),
        ),
        r matches Err(e) ==> e is ColumnType,
{
    let ghost sv = rows_view(students@);
    let ghost pv = page_rows_view(pages@);
    let ghost cv = score_rows_view(scores@);
    assert(sv.len() == students.len());
    assert(forall|i: int| 0 <= i < students.len() ==> #[trigger] sv[i] == students@[i]@);
    let ids = match queue_students(students) {
        Ok(v) => v,
        Err(e) => {
            assert(!(forall|i: int| 0 <= i < sv.len() ==> queue_student_ok(#[trigger] sv[i]))) by {
                if forall|i: int| 0 <= i < sv.len() ==> queue_student_ok(#[trigger] sv[i]) {
                    assert forall|i: int| 0 <= i < students.len() implies queue_student_ok(
                        #[trigger] students@[i]@,
                    ) by {
                        assert(sv[i] == students@[i]@);
                    }
                }
            }
            return Err(e);
        },
    };
    assert(forall|i: int| 0 <= i < sv.len() ==> queue_student_ok(#[trigger] sv[i]));
    let mut units: Vec<GradingUnit> = Vec::new();
    let mut i: usize = 0;
    while i < ids.len()
        invariant
            sv == rows_view(students@),
            pv == page_rows_view(pages@),
            cv == score_rows_view(scores@),
            pages.len() == students.len(),
            scores.len() == students.len(),
            ids.len() == students.len(),
            forall|k: int| 0 <= k < sv.len() ==> queue_student_ok(#[trigger] sv[k]),
            forall|k: int|
                0 <= k < ids.len() ==> int_at(students@[k]@, 0, (#[trigger] ids@[k]).0) && text_at(students@[k]@, 1, ids@[k].1),
            i <= ids.len(),
            units.len() == i,
            forall|k: int| 0 <= k < i ==> page_paths_ok(#[trigger] pv[k]),
            forall|k: int|
                0 <= k < i ==> unit_of_rows(#[trigger] units@[k], problem_id, problem_number, sv[k], pv[k], cv[k]),
        decreases ids.len() - i,
    {
        assert(pv[i as int] == rows_view(pages@[i as int]@));
        let paths = match page_paths(&pages[i]) {
            Ok(v) => v,
            Err(e) => {
                assert(!queue_rows_ok(sv, pv)) by {
                    assert(!page_paths_ok(pv[i as int]));
                }
                return Err(e);
            },
        };
        let score = match &scores[i] {
            Some(row) => stored_score_from_row(row),
            None => None,
        };
        assert(score == score_of_answer(cv[i as int]));
        let (sid, sname) = (ids[i].0, ids[i].1.clone());
        let u = grading_unit(sid, sname, problem_id, problem_number, paths, score);
        assert(sv[i as int] == students@[i as int]@);
        units.push(u);
        i = i + 1;
    }
    let res: Result<Vec<GradingUnit>, GradeError> = Ok(units);
    assert(res->Ok_0@ == units@);
    res
}

/// The values bound to the lookups of each student `ids[k]` of a queue:
/// the student's pages on problem number `problem_number` (`?1` the
/// student, `?2` the number) and the student's score on problem
/// `problem_id` (`?1` the student, `?2` the problem).
fn queue_lookup_params(ids: &Vec<(i64, String)>, problem_number: i64, problem_id: i64) -> (r: (
    Vec<Vec<SqlParam>>,
    Vec<Vec<SqlParam>>,
))
    ensures
        r.0.len() == ids.len(),
        r.1.len() == ids.len(),
        forall|k: int|
            0 <= k < ids.len() ==> (#[trigger] r.0@[k])@ == seq![
                SqlParam::Integer(ids@[k].0),
                SqlParam::Integer(problem_number),
            ] && r.1@[k]@ == seq![SqlParam::Integer(ids@[k].0), SqlParam::Integer(problem_id)],
{
    let mut pages: Vec<Vec<SqlParam>> = Vec::new();
    let mut scores: Vec<Vec<SqlParam>> = Vec::new();
    let mut k: usize = 0;
    while k < ids.len()
        invariant
            k <= ids.len(),
            pages.len() == k,
            scores.len() == k,
            forall|q: int|
                0 <= q < k ==> (#[trigger] pages@[q])@ == seq![
                    SqlParam::Integer(ids@[q].0),
                    SqlParam::Integer(problem_number),
                ] && scores@[q]@ == seq![SqlParam::Integer(ids@[q].0), SqlParam::Integer(problem_id)],
        decreases ids.len() - k,
    {
        pages.push(id_pair_params(ids[k].0, problem_number));
        scores.push(id_pair_params(ids[k].0, problem_id));
        k = k + 1;
    }
    (pages, scores)
}

/// `row` is the stored score row of student `student_id` on problem
/// `problem_id`, as `SELECT total, state, preset_id, student_id,
/// problem_id` gives it.
pub open spec fn score_row_of(row: Seq<SqlValue>, student_id: i64, problem_id: i64) -> bool {
    int_at(row, 3, student_id) && int_at(row, 4, problem_id)
}

/// `row` is the problem `problem_id` of exam `exam_id` with number
/// `number`, as `SELECT id, exam_id, number` gives it.
pub open spec fn problem_row_of(row: Seq<SqlValue>, problem_id: i64, exam_id: i64, number: i64) -> bool {
    int_at(row, 0, problem_id) && int_at(row, 1, exam_id) && int_at(row, 2, number)
}

/// Whether column `i` of `row` holds the integer `x`.
fn holds_int(row: &Vec<SqlValue>, i: usize, x: i64) -> (r: bool)
    ensures
        r == int_at(row@, i as int, x),
{
    if i < row.len() {
        match &row[i] {
            SqlValue::Integer(v) => *v == x,
            _ => false,
        }
    } else {
        false
    }
}

/// The stored score row of student `student_id` on problem `problem_id`:
/// the row of `SELECT total, state, preset_id, student_id, problem_id`
/// for that unit, kept only where it is that unit's row; nothing where the
/// lookup gives no such row or fails.
fn score_lookup(conn: &rusqlite::Connection, student_id: i64, problem_id: i64) -> (r: Option<Vec<SqlValue>>)
    ensures
        r matches Some(row) ==> score_row_of(row@, student_id, problem_id),
{
    match query_opt(
        conn,
        "SELECT total, state, preset_id, student_id, problem_id FROM score WHERE student_id=?1 AND problem_id=?2",
        id_pair_params(student_id, problem_id).as_slice(),
    ) {
        Ok(Some(row)) => {
            if holds_int(&row, 3, student_id) && holds_int(&row, 4, problem_id) {
                Some(row)
            } else {
                None
            }
        },
        _ => None,
    }
}

/// The grading queue of problem `problem_number`: one unit per student of
/// the exam, in roster order, with the student's pages for that problem in
/// scan order and the score stored so far (no total and `Ungraded` where
/// none is stored). `NoRows` where the exam has no such problem.
pub fn build_queue(db: &Db, exam_id: i64, problem_number: i64) -> (r: Result<Vec<GradingUnit>, GradeError>)
    ensures
        r matches Err(e) ==> e is Sql || e is NoRows || e is ColumnType,
        r matches Ok(units) ==> exists|
            problem_id: i64,
            students: Seq<Seq<SqlValue>>,
            pages: Seq<Seq<Seq<SqlValue>>>,
            scores: Seq<Option<Seq<SqlValue>>>,
        |
            pages.len() == students.len() && scores.len() == students.len() && #[trigger] queue_of_rows(
                units@,
                problem_id,
                problem_number,
                students,
                pages,
                scores,
            ) && forall|k: int|
                0 <= k < scores.len() ==> ((#[trigger] scores[k]) matches Some(row) ==> score_row_of(
                    row,
                    units@[k].student_id,
                    units@[k].problem_id,
                )),
        r matches Ok(units) ==> (units.len() > 0 ==> exists|prow: Seq<SqlValue>|
            #[trigger] problem_row_of(prow, units@[0].problem_id, exam_id, problem_number)),
        r matches Ok(units) ==> forall|k: int|
            0 <= k < units.len() ==> (#[trigger] units@[k]).problem_number == problem_number
                && units@[k].problem_id == units@[0].problem_id,
{
    let prow = query_one(
        &db.conn,
        "SELECT id, exam_id, number FROM problem WHERE exam_id=?1 AND number=?2",
        id_pair_params(exam_id, problem_number).as_slice(),
    )?;
    let problem_id = col_i64(&prow, 0)?;
    if !(holds_int(&prow, 1, exam_id) && holds_int(&prow, 2, problem_number)) {
        return Err(GradeError::NoRows);
    }
    assert(problem_row_of(prow@, problem_id, exam_id, problem_number));
    let students = query_all(
        &db.conn,
        "SELECT id, name FROM student WHERE exam_id=?1 ORDER BY roster_order",
        id_params(exam_id).as_slice(),
    )?;
    let ids = queue_students(&students)?;
    let (page_lookups, _) = queue_lookup_params(&ids, problem_number, problem_id);
    let mut pages: Vec<Vec<Vec<SqlValue>>> = Vec::new();
    let mut scores: Vec<Option<Vec<SqlValue>>> = Vec::new();
    let mut i: usize = 0;
    while i < ids.len()
        invariant
            i <= ids.len(),
            ids.len() == students.len(),
            pages.len() == i,
            scores.len() == i,
            page_lookups.len() == ids.len(),
            forall|k: int|
                0 <= k < i ==> ((#[trigger] scores@[k]) matches Some(row) ==> score_row_of(
                    row@,
                    ids@[k].0,
                    problem_id,
                )),
        decreases ids.len() - i,
    {
        let page_rows = query_all(
            &db.conn,
            "SELECT image_path FROM page WHERE student_id=?1 AND problem_number=?2 ORDER BY seq",
            page_lookups[i].as_slice(),
        )?;
        page_paths(&page_rows)?;
        let score = score_lookup(&db.conn, ids[i].0, problem_id);
        pages.push(page_rows);
        scores.push(score);
        i = i + 1;
    }
    let r = queue_from_rows(problem_id, problem_number, &students, &pages, &scores);
    match r {
        Ok(units) => {
            let ghost sv = rows_view(students@);
            let ghost pv = page_rows_view(pages@);
            let ghost cv = score_rows_view(scores@);
            assert(queue_of_rows(units@, problem_id, problem_number, sv, pv, cv));
            assert(pv.len() == sv.len() && cv.len() == sv.len());
            let res: Result<Vec<GradingUnit>, GradeError> = Ok(units);
            assert(res->Ok_0@ == units@);
            assert(forall|k: int| 0 <= k < units.len() ==> (#[trigger] units@[k]).problem_id == problem_id);
            assert forall|k: int| 0 <= k < cv.len() implies ((#[trigger] cv[k]) matches Some(row) ==> score_row_of(
                row,
                units@[k].student_id,
                units@[k].problem_id,
            )) by {
                assert(cv[k] == match scores@[k] {
                    Some(row) => Some(row@),
                    None => None,
                });
                assert(unit_of_rows(units@[k], problem_id, problem_number, sv[k], pv[k], cv[k]));
                assert(sv[k] == students@[k]@);
                assert(int_at(students@[k]@, 0, ids@[k].0));
            }
            assert(units.len() > 0 ==> problem_row_of(prow@, units@[0].problem_id, exam_id, problem_number));
            res
        },
        Err(e) => Err(e),
    }
}

/// An optional integer as a bound value: `NULL` for `None`.
pub open spec fn opt_param(x: Option<i64>) -> SqlParam {
    match x {
        Some(v) => SqlParam::Integer(v),
        None => SqlParam::Null,
    }
}

/// The values bound to the score upsert.
pub fn score_params(
    student_id: i64,
    problem_id: i64,
    total: Option<i64>,
    preset_id: Option<i64>,
    state: ScoreState,
) -> (p: Vec<SqlParam>)
    ensures
        p@.len() == 5,
        p@[0] == SqlParam::Integer(student_id),
        p@[1] == SqlParam::Integer(problem_id),
        p@[2] == opt_param(total),
        p@[3] matches SqlParam::Text(s) && s@ == state_name(state),
        p@[4] == opt_param(preset_id),
{
    let mut p: Vec<SqlParam> = Vec::new();
    p.push(SqlParam::Integer(student_id));
    p.push(SqlParam::Integer(problem_id));
    p.push(match total {
        Some(t) => SqlParam::Integer(t),
        None => SqlParam::Null,
    });
    p.push(SqlParam::Text(state.as_str().to_owned()));
    p.push(match preset_id {
        Some(x) => SqlParam::Integer(x),
        None => SqlParam::Null,
    });
    p
}

/// Stores the score of one unit, replacing any earlier one: total, state,
/// the preset used (none for a typed score) and the time.
pub fn set_score(
    db: &Db,
    student_id: i64,
    problem_id: i64,
    total: Option<i64>,
    preset_id: Option<i64>,
    state: ScoreState,
) -> (r: Result<(), GradeError>)
    ensures
        r matches Err(e) ==> e is Sql,
{
    let params = score_params(student_id, problem_id, total, preset_id, state);
    execute(
        &db.conn,
        "INSERT INTO score(student_id, problem_id, total, state, preset_id, submitted_at)
         VALUES(?1,?2,?3,?4,?5, datetime('now'))
         ON CONFLICT(student_id, problem_id)
         DO UPDATE SET total=?3, state=?4, preset_id=?5, submitted_at=datetime('now')",
        params.as_slice(),
    )
}

/// `row` is the page `p` as `SELECT problem_number, image_path` gives it;
/// a missing problem number reads as 0, the name page.
pub open spec fn page_ref_row(row: Seq<SqlValue>, p: PageRef) -> bool {
    text_at(row, 1, p.image_path) && (opt_int_at(row, 0, Some(p.problem_number)) || (row[0] is Null
        && p.problem_number == 0))
}

/// `ps` are the pages that `rows` hold, one per row, in order.
pub open spec fn page_refs_in_rows(rows: Seq<Seq<SqlValue>>, ps: Seq<PageRef>) -> bool {
    rows.len() == ps.len() && forall|k: int| 0 <= k < ps.len() ==> page_ref_row(rows[k], #[trigger] ps[k])
}

/// The page in a row of `SELECT problem_number, image_path`; a page with no
/// problem number counts as the name page (0).
pub fn page_ref_from_row(row: &Vec<SqlValue>) -> (r: Result<PageRef, GradeError>)
    ensures
        r is Ok <==> (is_opt_int_at(row@, 0) && is_text_at(row@, 1)),
        r matches Ok(p) ==> page_ref_row(row@, p),
        r matches Err(e) ==> e is ColumnType,
{
    let n = col_opt_i64(row, 0)?;
    let path = col_string(row, 1)?;
    let problem_number = match n {
        Some(v) => v,
        None => 0,
    };
    Ok(PageRef { problem_number, image_path: path })
}

/// All pages of a student, in scan order.
pub fn student_pages(db: &Db, student_id: i64) -> (r: Result<Vec<PageRef>, GradeError>)
    ensures
        r matches Ok(v) ==> exists|rs: Seq<Seq<SqlValue>>| #[trigger] page_refs_in_rows(rs, v@),
        r matches Err(e) ==> e is Sql || e is ColumnType,
{
    let rows = query_all(
        &db.conn,
        "SELECT problem_number, image_path FROM page WHERE student_id=?1 ORDER BY seq",
        id_params(student_id).as_slice(),
    );
    let rows = match rows {
        Ok(rows) => rows,
        Err(e) => return Err(e),
    };
    let mut out: Vec<PageRef> = Vec::new();
    let mut i: usize = 0;
    while i < rows.len()
        invariant
            i <= rows.len(),
            out.len() == i,
            forall|k: int| 0 <= k < i ==> page_ref_row(rows@[k]@, #[trigger] out@[k]),
        decreases rows.len() - i,
    {
        let p = match page_ref_from_row(&rows[i]) {
            Ok(x) => x,
            Err(e) => return Err(e),
        };
        out.push(p);
        i = i + 1;
    }
    assert(page_refs_in_rows(rows_view(rows@), out@));
    let res: Result<Vec<PageRef>, GradeError> = Ok(out);
    assert(res->Ok_0@ == out@);
    res
}

} // verus!

verus! {

/// What a queue shows of each unit's score: where the score lookup of the
/// unit gave a readable row (stored for that student on that problem, as
/// `build_queue` keeps it), the unit's total, state and preset are that
/// row's; where it gave nothing, the unit has no total, is `Ungraded` and
/// has no preset, never a default 0.
pub proof fn lemma_queue_unit_score(
    q: Seq<GradingUnit>,
    problem_id: i64,
    problem_number: i64,
    students: Seq<Seq<SqlValue>>,
    pages: Seq<Seq<Seq<SqlValue>>>,
    scores: Seq<Option<Seq<SqlValue>>>,
    k: int,
)
    requires
        queue_of_rows(q, problem_id, problem_number, students, pages, scores),
        0 <= k < q.len(),
    ensures
        scores[k] is None ==> q[k].total is None && q[k].state == ScoreState::Ungraded && q[k].preset_id is None,
        scores[k] matches Some(row) ==> (is_opt_int_at(row, 0) && is_opt_int_at(row, 2) && row[1] is Text ==> {
            &&& q[k].total == opt_int_of(row[0])
            &&& q[k].state == state_of_name(row[1]->Text_0@)
            &&& q[k].preset_id == opt_int_of(row[2])
        }),
        q[k].problem_id == problem_id,
{
    assert(unit_of_rows(q[k], problem_id, problem_number, students[k], pages[k], scores[k]));
}

} // verus!
