//! Editing an open exam: removing presets, problems and students, renaming
//! students, changing full marks, and shifting a student's page labels; and
//! the check that keeps file names inside their folder.

use vstd::prelude::*;
use crate::db::{
    Db, GradeError, SqlParam, SqlValue, execute, id_params, id_pair_params, id_text_params, query_all,
    sql_begin, sql_commit, sql_tx_conn,
};

verus! {

/// Removes a score preset.
pub fn delete_preset(db: &Db, preset_id: i64) -> (r: Result<(), GradeError>)
    ensures
        r matches Err(e) ==> e is Sql,
{
    execute(&db.conn, "DELETE FROM score_preset WHERE id=?1", id_params(preset_id).as_slice())
}

/// Removes a problem with its presets and scores.
pub fn delete_problem(db: &Db, problem_id: i64) -> (r: Result<(), GradeError>)
    ensures
        r matches Err(e) ==> e is Sql,
{
    execute(&db.conn, "DELETE FROM score_preset WHERE problem_id=?1", id_params(problem_id).as_slice())?;
    execute(&db.conn, "DELETE FROM score WHERE problem_id=?1", id_params(problem_id).as_slice())?;
    execute(&db.conn, "DELETE FROM problem WHERE id=?1", id_params(problem_id).as_slice())
}

/// A page row of `SELECT id, problem_number, student_id` that moves when
/// the problem numbers of student `student_id` move by `delta`: a page of
/// the student with an id and a problem number `n` (the name page 0
/// included) whose new number `n + delta` is an `i64`.
pub open spec fn page_moves(row: Seq<SqlValue>, student_id: i64, delta: i64) -> bool {
    &&& row.len() > 2
    &&& row[0] is Integer
    &&& row[1] is Integer
    &&& row[2] == SqlValue::Integer(student_id)
    &&& i64::MIN <= row[1]->Integer_0 + delta <= i64::MAX
}

/// The page updates that move the problem numbers of student `student_id`
/// by `delta`, one per row of `SELECT id, problem_number, student_id` in
/// order: a page of the student that has a problem number `n` gets `n +
/// delta`, bound as `?1` the page id and `?2` the new number; an
/// unlabelled page, a page of another student, and a row that cannot be
/// read or whose new number would leave `i64` get no update.
pub fn shift_updates(rows: &Vec<Vec<SqlValue>>, student_id: i64, delta: i64) -> (ups: Vec<Option<Vec<SqlParam>>>)
    ensures
        ups.len() == rows.len(),
        forall|k: int|
            0 <= k < rows.len() && page_moves(#[trigger] rows@[k]@, student_id, delta) ==> (ups@[k] matches Some(p)
                && p@.len() == 2 && p@[0] == SqlParam::Integer(rows@[k]@[0]->Integer_0) && (p@[1] matches SqlParam::Integer(
                m,
            ) && m == rows@[k]@[1]->Integer_0 + delta)),
        forall|k: int| 0 <= k < rows.len() && !page_moves(#[trigger] rows@[k]@, student_id, delta) ==> ups@[k] is None,
{
    let mut ups: Vec<Option<Vec<SqlParam>>> = Vec::new();
    let mut k: usize = 0;
    while k < rows.len()
        invariant
            k <= rows.len(),
            ups.len() == k,
            forall|q: int|
                0 <= q < k && page_moves(#[trigger] rows@[q]@, student_id, delta) ==> (ups@[q] matches Some(p)
                    && p@.len() == 2 && p@[0] == SqlParam::Integer(rows@[q]@[0]->Integer_0) && (p@[1] matches SqlParam::Integer(
                    m,
                ) && m == rows@[q]@[1]->Integer_0 + delta)),
            forall|q: int| 0 <= q < k && !page_moves(#[trigger] rows@[q]@, student_id, delta) ==> ups@[q] is None,
        decreases rows.len() - k,
    {
        let row = &rows[k];
        let mut up: Option<Vec<SqlParam>> = None;
        if row.len() > 2 {
            match (&row[0], &row[1], &row[2]) {
                (SqlValue::Integer(id), SqlValue::Integer(n), SqlValue::Integer(owner)) => {
                    if *owner == student_id {
                        match n.checked_add(delta) {
                            Some(m) => {
                                let mut p: Vec<SqlParam> = Vec::new();
                                p.push(SqlParam::Integer(*id));
                                p.push(SqlParam::Integer(m));
                                up = Some(p);
                            },
                            None => {},
                        }
                    }
                },
                _ => {},
            }
        }
        ups.push(up);
        k = k + 1;
    }
    ups
}

/// Moves the problem number of every labelled page of a student by
/// `delta`, which repairs a stack that is off by one page (a missing name
/// page, or an extra scan): the student's pages are read, `shift_updates`
/// decides each page's new number, and the updates are stored in one
/// transaction.
pub fn shift_student_problems(db: &Db, student_id: i64, delta: i64) -> (r: Result<(), GradeError>)
    ensures
        r matches Err(e) ==> e is Sql,
{
    let tx = match sql_begin(&db.conn) {
        Ok(tx) => tx,
        Err(e) => return Err(GradeError::Sql(e)),
    };
    {
        let conn = sql_tx_conn(&tx);
        let rows = query_all(
            conn,
            "SELECT id, problem_number, student_id FROM page WHERE student_id=?1",
            id_params(student_id).as_slice(),
        )?;
        let ups = shift_updates(&rows, student_id, delta);
        let mut k: usize = 0;
        while k < ups.len()
            invariant
                k <= ups.len(),
            decreases ups.len() - k,
        {
            match &ups[k] {
                Some(p) => {
                    execute(conn, "UPDATE page SET problem_number=?2 WHERE id=?1", p.as_slice())?;
                },
                None => {},
            }
            k = k + 1;
        }
    }
    match sql_commit(tx) {
        Ok(()) => Ok(()),
        Err(e) => Err(GradeError::Sql(e)),
    }
}

/// Changes the full marks of a problem; its full-marks preset follows, so
/// the full-marks key still gives full marks.
pub fn set_problem_max(db: &Db, problem_id: i64, max_score: i64) -> (r: Result<(), GradeError>)
    ensures
        r matches Err(e) ==> e is Sql,
{
    execute(
        &db.conn,
        "UPDATE problem SET max_score=?2 WHERE id=?1",
        id_pair_params(problem_id, max_score).as_slice(),
    )?;
    execute(
        &db.conn,
        "UPDATE score_preset SET points=?2 WHERE problem_id=?1 AND label='满分'",
        id_pair_params(problem_id, max_score).as_slice(),
    )
}

/// Renames a student.
pub fn rename_student(db: &Db, student_id: i64, name: &str) -> (r: Result<(), GradeError>)
    ensures
        r matches Err(e) ==> e is Sql,
{
    execute(
        &db.conn,
        "UPDATE student SET name=?2 WHERE id=?1",
        id_text_params(student_id, name).as_slice(),
    )
}

/// Removes a student with the student's pages and scores.
pub fn delete_student(db: &Db, student_id: i64) -> (r: Result<(), GradeError>)
    ensures
        r matches Err(e) ==> e is Sql,
{
    execute(&db.conn, "DELETE FROM page WHERE student_id=?1", id_params(student_id).as_slice())?;
    execute(&db.conn, "DELETE FROM score WHERE student_id=?1", id_params(student_id).as_slice())?;
    execute(&db.conn, "DELETE FROM student WHERE id=?1", id_params(student_id).as_slice())
}

/// A preset key is one of the digit keys 1 to 9.
pub open spec fn is_preset_key(slot: i64) -> bool {
    1 <= slot <= 9
}

pub fn valid_preset_key(slot: i64) -> (r: bool)
    ensures
        r == is_preset_key(slot),
{
    1 <= slot && slot <= 9
}

/// A file name that stays inside its folder: no `/`, `\`, `..` or `:`.
pub open spec fn is_safe_file_name(name: Seq<char>) -> bool {
    &&& !name.contains('/')
    &&& !name.contains('\\')
    &&& !name.contains(':')
    &&& !exists|i: int| 0 <= i < name.len() - 1 && #[trigger] name[i] == '.' && name[i + 1] == '.'
}

/// Whether `name` may be used as a file name inside a folder of the exam.
pub fn safe_file_name(name: &str) -> (r: bool)
    ensures
        r == is_safe_file_name(name@),
{
    let s = crate::text::chars_of(name);
    let mut k: usize = 0;
    while k < s.len()
        invariant
            k <= s.len(),
            s@ == name@,
            forall|i: int| 0 <= i < k ==> #[trigger] s@[i] != '/' && s@[i] != '\\' && s@[i] != ':',
            forall|i: int| 0 <= i < k && i + 1 < s.len() ==> !(#[trigger] s@[i] == '.' && s@[i + 1] == '.'),
        decreases s.len() - k,
    {
        let c = s[k];
        if c == '/' || c == '\\' || c == ':' {
            assert(name@.contains(c));
            return false;
        }
        if c == '.' && k + 1 < s.len() && s[k + 1] == '.' {
            return false;
        }
        k = k + 1;
    }
    true
}

} // verus!
