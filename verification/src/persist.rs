//! One exam per database file: finding or creating it, and reading it.

use vstd::prelude::*;
use crate::db::{
    Db, GradeError, SqlValue, id_params, no_params, col_i64, col_string, col_string_or_empty, query_one, query_opt,
    query_i64, is_read_error, int_at, text_at, text_or_empty_at, is_int_at, is_text_at, is_opt_text_at,
};
use crate::models::ExamInfo;
use crate::setup;

verus! {

/// `row` is the exam `e` as `SELECT id, name, date` gives it.
pub open spec fn exam_row(row: Seq<SqlValue>, e: ExamInfo) -> bool {
    &&& int_at(row, 0, e.id)
    &&& text_at(row, 1, e.name)
    &&& text_or_empty_at(row, 2, e.date)
}

/// `row` has the shape of an exam row.
pub open spec fn exam_row_ok(row: Seq<SqlValue>) -> bool {
    is_int_at(row, 0) && is_text_at(row, 1) && is_opt_text_at(row, 2)
}

/// The exam in a row of `SELECT id, name, date`; a missing date reads as
/// the empty string.
pub fn exam_from_row(row: &Vec<SqlValue>) -> (r: Result<ExamInfo, GradeError>)
    ensures
        r is Ok <==> exam_row_ok(row@),
        r matches Ok(e) ==> exam_row(row@, e),
        r matches Err(e) ==> e is ColumnType,
{
    let id = col_i64(row, 0)?;
    let name = col_string(row, 1)?;
    let date = col_string_or_empty(row, 2)?;
    Ok(ExamInfo { id, name, date })
}

/// What the answer `first` to the lookup of the lowest exam id decides: the
/// id in its row (`ColumnType` where it holds none), or `None` where the
/// database has no exam yet and one is to be created.
pub open spec fn existing_exam_of(first: Option<Seq<SqlValue>>) -> Option<Result<i64, GradeError>> {
    match first {
        Some(row) => Some(
            if is_int_at(row, 0) {
                Ok(row[0]->Integer_0)
            } else {
                Err(GradeError::ColumnType { column: 0 })
            },
        ),
        None => None,
    }
}

/// The exam id that the answer to `SELECT id FROM exam ORDER BY id LIMIT 1`
/// gives, or `None` where no exam is stored.
pub fn existing_exam(first: &Option<Vec<SqlValue>>) -> (r: Option<Result<i64, GradeError>>)
    ensures
        r == existing_exam_of(match first {
            Some(row) => Some(row@),
            None => None,
        }),
{
    match first {
        Some(row) => Some(col_i64(row, 0)),
        None => None,
    }
}

/// The exam of this database: the one already there (the lowest id), or a
/// new one named `name` on `date` where there is none, as `existing_exam`
/// decides from the lookup of the lowest exam id.
pub fn ensure_exam(db: &Db, name: &str, date: &str) -> (r: Result<i64, GradeError>)
    ensures
        r matches Err(e) ==> e is Sql || e == (GradeError::ColumnType { column: 0 }),
{
    let existing = query_opt(&db.conn, "SELECT id FROM exam ORDER BY id LIMIT 1", no_params().as_slice())?;
    match existing_exam(&existing) {
        Some(found) => found,
        None => setup::create_exam(db, name, date),
    }
}

/// The exam with id `exam_id`.
pub fn exam_info(db: &Db, exam_id: i64) -> (r: Result<ExamInfo, GradeError>)
    ensures
        r matches Err(e) ==> (e is Sql || e is NoRows || e is ColumnType),
        r matches Ok(e) ==> exists|row: Seq<SqlValue>| #[trigger] exam_row(row, e),
{
    let row = query_one(&db.conn, "SELECT id, name, date FROM exam WHERE id=?1", id_params(exam_id).as_slice())?;
    let r = exam_from_row(&row);
    match r {
        Ok(e) => {
            assert(exam_row(row@, e));
            let res: Result<ExamInfo, GradeError> = Ok(e);
            assert(res->Ok_0 == e);
            res
        },
        Err(e) => Err(e),
    }
}

/// How many exams the database holds.
pub fn exam_count(db: &Db) -> (r: Result<i64, GradeError>)
    ensures
        r matches Err(e) ==> is_read_error(e),
{
    query_i64(&db.conn, "SELECT count(*) FROM exam", no_params().as_slice())
}

} // verus!
