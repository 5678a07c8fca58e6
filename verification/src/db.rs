//! The exam database: an SQLite file (or memory) reached through rusqlite,
//! its schema, and typed reading of result rows.

use vstd::prelude::*;
use rusqlite::types::Value;

verus! {

#[verifier::external_type_specification]
#[verifier::external_body]
pub struct ExConnection(rusqlite::Connection);

#[verifier::external_type_specification]
#[verifier::external_body]
pub struct ExSqlError(rusqlite::Error);

#[verifier::external_type_specification]
#[verifier::external_body]
pub struct ExTransaction<'conn>(rusqlite::Transaction<'conn>);

#[verifier::external_type_specification]
#[verifier::external_body]
pub struct ExValue(rusqlite::types::Value);

/// An open exam database.
pub struct Db {
    pub conn: rusqlite::Connection,
}

/// A value bound to an SQL statement.
#[derive(Debug)]
pub enum SqlParam {
    Null,
    Integer(i64),
    Text(String),
}

/// A value read from a result row. A floating-point value is read as
/// `Real` without the number: no column of the schema holds one.
#[derive(Debug)]
pub enum SqlValue {
    Null,
    Integer(i64),
    Real,
    Text(String),
    Blob(Vec<u8>),
}

/// Why an operation on the exam database failed.
#[derive(Debug)]
pub enum GradeError {
    /// SQLite refused a statement, or the database could not be reached.
    Sql(rusqlite::Error),
    /// A query that must give a row gave none.
    NoRows,
    /// Column `column` of a result row is missing or holds a value of
    /// another type than the one asked for.
    ColumnType { column: usize },
    /// A score sum or a count does not fit in an `i64`.
    Overflow,
}

/// The tables of an exam database. Every statement creates its table only
/// where it is missing, so opening an existing file keeps its data.
pub const SCHEMA: &'static str = "
CREATE TABLE IF NOT EXISTS exam (
    id INTEGER PRIMARY KEY,
    name TEXT NOT NULL,
    date TEXT
);
CREATE TABLE IF NOT EXISTS problem (
    id INTEGER PRIMARY KEY,
    exam_id INTEGER NOT NULL REFERENCES exam(id),
    number INTEGER NOT NULL,
    title TEXT,
    max_score INTEGER NOT NULL,
    rubric TEXT
);
CREATE TABLE IF NOT EXISTS score_preset (
    id INTEGER PRIMARY KEY,
    problem_id INTEGER NOT NULL REFERENCES problem(id),
    slot INTEGER NOT NULL,
    label TEXT NOT NULL,
    points INTEGER NOT NULL
);
CREATE TABLE IF NOT EXISTS student (
    id INTEGER PRIMARY KEY,
    exam_id INTEGER NOT NULL REFERENCES exam(id),
    name TEXT NOT NULL,
    exam_number TEXT,
    roster_order INTEGER
);
CREATE TABLE IF NOT EXISTS page (
    id INTEGER PRIMARY KEY,
    exam_id INTEGER NOT NULL REFERENCES exam(id),
    student_id INTEGER REFERENCES student(id),
    problem_number INTEGER,
    image_path TEXT NOT NULL,
    seq INTEGER,
    status TEXT
);
CREATE TABLE IF NOT EXISTS score (
    student_id INTEGER NOT NULL REFERENCES student(id),
    problem_id INTEGER NOT NULL REFERENCES problem(id),
    total INTEGER,
    state TEXT NOT NULL DEFAULT 'Ungraded',
    preset_id INTEGER,
    submitted_at TEXT,
    comment TEXT,
    PRIMARY KEY (student_id, problem_id)
);
CREATE TABLE IF NOT EXISTS rubric_step (
    id INTEGER PRIMARY KEY,
    problem_id INTEGER NOT NULL REFERENCES problem(id),
    ord INTEGER NOT NULL,
    label TEXT NOT NULL,
    points INTEGER NOT NULL
);
CREATE TABLE IF NOT EXISTS score_item (
    student_id INTEGER NOT NULL REFERENCES student(id),
    problem_id INTEGER NOT NULL REFERENCES problem(id),
    step_id INTEGER NOT NULL REFERENCES rubric_step(id),
    points INTEGER,
    PRIMARY KEY (student_id, problem_id, step_id)
);
";

/// `Connection::open_in_memory`: a new, empty in-memory database. Whether
/// SQLite manages to open it is not stated.
#[verifier::external_body]
fn sql_open_in_memory() -> (r: Result<rusqlite::Connection, rusqlite::Error>) {
    rusqlite::Connection::open_in_memory()
}

/// `Connection::open`: the database file at `path`, created where missing.
/// What the file holds, and whether it can be opened, is not stated.
#[verifier::external_body]
fn sql_open(path: &str) -> (r: Result<rusqlite::Connection, rusqlite::Error>) {
    rusqlite::Connection::open(path)
}

/// `Connection::execute_batch`: runs every statement of `sql`. The effect on
/// the database is SQLite's and is not stated.
#[verifier::external_body]
fn sql_execute_batch(conn: &rusqlite::Connection, sql: &str) -> (r: Result<(), rusqlite::Error>) {
    conn.execute_batch(sql)
}

/// The rusqlite value that binds `p`, variant for variant.
#[verifier::external_body]
fn sql_param_value(p: &SqlParam) -> (r: rusqlite::types::Value) {
    match p {
        SqlParam::Null => Value::Null,
        SqlParam::Integer(v) => Value::Integer(*v),
        SqlParam::Text(s) => Value::Text(s.clone()),
    }
}

/// A value read from a result row, variant for variant; of a floating-point
/// value only its being one is kept.
#[verifier::external_body]
fn sql_value_of(v: &rusqlite::types::Value) -> (r: SqlValue) {
    match v {
        Value::Null => SqlValue::Null,
        Value::Integer(x) => SqlValue::Integer(*x),
        Value::Real(_) => SqlValue::Real,
        Value::Text(s) => SqlValue::Text(s.clone()),
        Value::Blob(b) => SqlValue::Blob(b.clone()),
    }
}

/// `Connection::execute`: runs one statement with `params` bound to `?1`,
/// `?2`, ... The number of changed rows and the effect on the database are
/// SQLite's and are not stated.
#[verifier::external_body]
fn sql_execute(conn: &rusqlite::Connection, sql: &str, params: &[rusqlite::types::Value]) -> (r: Result<
    usize,
    rusqlite::Error,
>) {
    conn.execute(sql, rusqlite::params_from_iter(params.iter()))
}

/// `Connection::query_row`, made optional (as `OptionalExtension::optional`
/// does): the values of the first row of the query, or `None` where it gives
/// no row. What the row holds comes from the database and is not stated.
#[verifier::external_body]
fn sql_query_first(conn: &rusqlite::Connection, sql: &str, params: &[rusqlite::types::Value]) -> (r: Result<
    Option<Vec<rusqlite::types::Value>>,
    rusqlite::Error,
>) {
    let mut stmt = conn.prepare(sql)?;
    let n = stmt.column_count();
    let mut rows = stmt.query(rusqlite::params_from_iter(params.iter()))?;
    match rows.next()? {
        Some(row) => Ok(Some((0..n).map(|i| row.get::<usize, Value>(i)).collect::<Result<Vec<Value>, _>>()?)),
        None => Ok(None),
    }
}

/// `Statement::query` over a prepared `sql`: the values of all rows of the
/// query, in the order SQLite gives them. What they hold is not stated.
#[verifier::external_body]
fn sql_query_all(conn: &rusqlite::Connection, sql: &str, params: &[rusqlite::types::Value]) -> (r: Result<
    Vec<Vec<rusqlite::types::Value>>,
    rusqlite::Error,
>) {
    let mut stmt = conn.prepare(sql)?;
    let n = stmt.column_count();
    let mut rows = stmt.query(rusqlite::params_from_iter(params.iter()))?;
    let mut out = Vec::new();
    while let Some(row) = rows.next()? {
        out.push((0..n).map(|i| row.get::<usize, Value>(i)).collect::<Result<Vec<Value>, _>>()?);
    }
    Ok(out)
}

/// `Connection::last_insert_rowid`: the row id of the latest successful
/// insert on this connection, which the contract does not state.
#[verifier::external_body]
pub(crate) fn sql_last_insert_rowid(conn: &rusqlite::Connection) -> (r: i64) {
    conn.last_insert_rowid()
}

/// `Connection::unchecked_transaction`: begins a deferred transaction that
/// rolls back when dropped without a commit.
#[verifier::external_body]
pub(crate) fn sql_begin(conn: &rusqlite::Connection) -> (r: Result<rusqlite::Transaction<'_>, rusqlite::Error>) {
    conn.unchecked_transaction()
}

/// `Transaction::commit`.
#[verifier::external_body]
pub(crate) fn sql_commit(tx: rusqlite::Transaction<'_>) -> (r: Result<(), rusqlite::Error>) {
    tx.commit()
}

/// The connection that a transaction runs on (`Transaction::deref`).
#[verifier::external_body]
pub(crate) fn sql_tx_conn<'a>(tx: &'a rusqlite::Transaction<'_>) -> (r: &'a rusqlite::Connection) {
    tx
}


/// Column `i` of `row` holds the integer `x`.
pub open spec fn int_at(row: Seq<SqlValue>, i: int, x: i64) -> bool {
    0 <= i < row.len() && row[i] == SqlValue::Integer(x)
}

/// Column `i` of `row` holds `x`, `NULL` standing for `None`.
pub open spec fn opt_int_at(row: Seq<SqlValue>, i: int, x: Option<i64>) -> bool {
    0 <= i < row.len() && match x {
        Some(v) => row[i] == SqlValue::Integer(v),
        None => row[i] is Null,
    }
}

/// Column `i` of `row` holds the text `s`.
pub open spec fn text_at(row: Seq<SqlValue>, i: int, s: String) -> bool {
    0 <= i < row.len() && row[i] == SqlValue::Text(s)
}

/// Column `i` of `row` holds `o`, `NULL` standing for `None`.
pub open spec fn opt_text_at(row: Seq<SqlValue>, i: int, o: Option<String>) -> bool {
    0 <= i < row.len() && match o {
        Some(s) => row[i] == SqlValue::Text(s),
        None => row[i] is Null,
    }
}

/// Column `i` of `row` holds the text `s`, or `NULL` and `s` is empty.
pub open spec fn text_or_empty_at(row: Seq<SqlValue>, i: int, s: String) -> bool {
    0 <= i < row.len() && (row[i] == SqlValue::Text(s) || (row[i] is Null && s@ == Seq::<char>::empty()))
}

/// `p` binds the text `s`.
pub open spec fn text_param(p: SqlParam, s: Seq<char>) -> bool {
    p matches SqlParam::Text(t) && t@ == s
}

/// `p` binds the text `o`, `NULL` standing for `None`.
pub open spec fn opt_text_param(p: SqlParam, o: Option<Seq<char>>) -> bool {
    match o {
        Some(s) => text_param(p, s),
        None => p is Null,
    }
}

/// Bound values of several statements, each as a sequence.
pub open spec fn params_view(ps: Seq<Vec<SqlParam>>) -> Seq<Seq<SqlParam>> {
    ps.map_values(|p: Vec<SqlParam>| p@)
}

/// The integer in a value, `None` for `NULL` or any other value.
pub open spec fn opt_int_of(v: SqlValue) -> Option<i64> {
    match v {
        SqlValue::Integer(x) => Some(x),
        _ => None,
    }
}

/// Column `i` of `row` can be read as an integer.
pub open spec fn is_int_at(row: Seq<SqlValue>, i: int) -> bool {
    0 <= i < row.len() && row[i] is Integer
}

/// Column `i` of `row` can be read as an optional integer.
pub open spec fn is_opt_int_at(row: Seq<SqlValue>, i: int) -> bool {
    0 <= i < row.len() && (row[i] is Integer || row[i] is Null)
}

/// Column `i` of `row` can be read as text.
pub open spec fn is_text_at(row: Seq<SqlValue>, i: int) -> bool {
    0 <= i < row.len() && row[i] is Text
}

/// Column `i` of `row` can be read as optional text.
pub open spec fn is_opt_text_at(row: Seq<SqlValue>, i: int) -> bool {
    0 <= i < row.len() && (row[i] is Text || row[i] is Null)
}

/// Column `i` of `row` as an integer; `NULL`, text and other values are
/// refused, as rusqlite refuses them for an `i64`.
pub fn col_i64(row: &Vec<SqlValue>, i: usize) -> (r: Result<i64, GradeError>)
    ensures
        r is Ok <==> is_int_at(row@, i as int),
        r matches Ok(v) ==> int_at(row@, i as int, v),
        r matches Err(e) ==> e == (GradeError::ColumnType { column: i }),
{
    if i < row.len() {
        match &row[i] {
            SqlValue::Integer(v) => Ok(*v),
            _ => Err(GradeError::ColumnType { column: i }),
        }
    } else {
        Err(GradeError::ColumnType { column: i })
    }
}

/// Column `i` of `row` as an optional integer: `NULL` is `None`.
pub fn col_opt_i64(row: &Vec<SqlValue>, i: usize) -> (r: Result<Option<i64>, GradeError>)
    ensures
        r is Ok <==> is_opt_int_at(row@, i as int),
        r matches Ok(v) ==> opt_int_at(row@, i as int, v),
        r matches Err(e) ==> e == (GradeError::ColumnType { column: i }),
{
    if i < row.len() {
        match &row[i] {
            SqlValue::Integer(v) => Ok(Some(*v)),
            SqlValue::Null => Ok(None),
            _ => Err(GradeError::ColumnType { column: i }),
        }
    } else {
        Err(GradeError::ColumnType { column: i })
    }
}

/// Column `i` of `row` as text.
pub fn col_string(row: &Vec<SqlValue>, i: usize) -> (r: Result<String, GradeError>)
    ensures
        r is Ok <==> is_text_at(row@, i as int),
        r matches Ok(s) ==> text_at(row@, i as int, s),
        r matches Err(e) ==> e == (GradeError::ColumnType { column: i }),
{
    if i < row.len() {
        match &row[i] {
            SqlValue::Text(s) => Ok(s.clone()),
            _ => Err(GradeError::ColumnType { column: i }),
        }
    } else {
        Err(GradeError::ColumnType { column: i })
    }
}

/// Column `i` of `row` as optional text: `NULL` is `None`.
pub fn col_opt_string(row: &Vec<SqlValue>, i: usize) -> (r: Result<Option<String>, GradeError>)
    ensures
        r is Ok <==> is_opt_text_at(row@, i as int),
        r matches Ok(o) ==> opt_text_at(row@, i as int, o),
        r matches Err(e) ==> e == (GradeError::ColumnType { column: i }),
{
    if i < row.len() {
        match &row[i] {
            SqlValue::Text(s) => Ok(Some(s.clone())),
            SqlValue::Null => Ok(None),
            _ => Err(GradeError::ColumnType { column: i }),
        }
    } else {
        Err(GradeError::ColumnType { column: i })
    }
}

/// Column `i` of `row` as text, `NULL` read as the empty string.
pub fn col_string_or_empty(row: &Vec<SqlValue>, i: usize) -> (r: Result<String, GradeError>)
    ensures
        r is Ok <==> is_opt_text_at(row@, i as int),
        r matches Ok(s) ==> text_or_empty_at(row@, i as int, s),
        r matches Err(e) ==> e == (GradeError::ColumnType { column: i }),
{
    match col_opt_string(row, i) {
        Ok(Some(s)) => Ok(s),
        Ok(None) => Ok(String::new()),
        Err(e) => Err(e),
    }
}

/// The rusqlite values that bind `params`.
fn bind(params: &[SqlParam]) -> (vals: Vec<rusqlite::types::Value>)
    ensures
        vals.len() == params.len(),
{
    let mut vals: Vec<rusqlite::types::Value> = Vec::new();
    let mut i: usize = 0;
    while i < params.len()
        invariant
            i <= params.len(),
            vals.len() == i,
        decreases params.len() - i,
    {
        vals.push(sql_param_value(&params[i]));
        i = i + 1;
    }
    vals
}

/// The values of result rows, each as a sequence.
pub open spec fn rows_view(rows: Seq<Vec<SqlValue>>) -> Seq<Seq<SqlValue>> {
    rows.map_values(|row: Vec<SqlValue>| row@)
}

/// The values of a result row.
fn read_row(vals: &Vec<rusqlite::types::Value>) -> (row: Vec<SqlValue>)
    ensures
        row.len() == vals.len(),
{
    let mut row: Vec<SqlValue> = Vec::new();
    let mut i: usize = 0;
    while i < vals.len()
        invariant
            i <= vals.len(),
            row.len() == i,
        decreases vals.len() - i,
    {
        row.push(sql_value_of(&vals[i]));
        i = i + 1;
    }
    row
}

/// A failure of a statement or of reading its first column as an integer:
/// SQLite's refusal, no row, or column 0 of the wrong type. Never an
/// overflow.
pub open spec fn is_read_error(e: GradeError) -> bool {
    e is Sql || e is NoRows || e == (GradeError::ColumnType { column: 0 })
}

/// The values bound to a statement on one id: `?1` is `id`.
pub fn id_params(id: i64) -> (p: Vec<SqlParam>)
    ensures
        p@ == seq![SqlParam::Integer(id)],
{
    let mut p: Vec<SqlParam> = Vec::new();
    p.push(SqlParam::Integer(id));
    p
}

/// The values bound to a statement on two integers: `?1` is `a`, `?2` is
/// `b`.
pub fn id_pair_params(a: i64, b: i64) -> (p: Vec<SqlParam>)
    ensures
        p@ == seq![SqlParam::Integer(a), SqlParam::Integer(b)],
{
    let mut p: Vec<SqlParam> = Vec::new();
    p.push(SqlParam::Integer(a));
    p.push(SqlParam::Integer(b));
    p
}

/// The values bound to a statement on an id and a text: `?1` is `id`, `?2`
/// is `t`.
pub fn id_text_params(id: i64, t: &str) -> (p: Vec<SqlParam>)
    ensures
        p@.len() == 2,
        p@[0] == SqlParam::Integer(id),
        text_param(p@[1], t@),
{
    let mut p: Vec<SqlParam> = Vec::new();
    p.push(SqlParam::Integer(id));
    p.push(SqlParam::Text(t.to_owned()));
    p
}

/// The values bound to a statement on two texts: `?1` is `a`, `?2` is `b`.
pub fn text_pair_params(a: &str, b: &str) -> (p: Vec<SqlParam>)
    ensures
        p@.len() == 2,
        text_param(p@[0], a@),
        text_param(p@[1], b@),
{
    let mut p: Vec<SqlParam> = Vec::new();
    p.push(SqlParam::Text(a.to_owned()));
    p.push(SqlParam::Text(b.to_owned()));
    p
}

/// No bound values, for a statement without parameters.
pub fn no_params() -> (p: Vec<SqlParam>)
    ensures
        p@.len() == 0,
{
    Vec::new()
}

/// Runs a statement, reporting a refusal as `GradeError::Sql`.
pub fn execute(conn: &rusqlite::Connection, sql: &str, params: &[SqlParam]) -> (r: Result<(), GradeError>)
    ensures
        r matches Err(e) ==> e is Sql,
{
    let vals = bind(params);
    match sql_execute(conn, sql, vals.as_slice()) {
        Ok(_) => Ok(()),
        Err(e) => Err(GradeError::Sql(e)),
    }
}

/// The first row of a query, or `None` where it gives no row.
pub fn query_opt(conn: &rusqlite::Connection, sql: &str, params: &[SqlParam]) -> (r: Result<Option<Vec<SqlValue>>, GradeError>)
    ensures
        r matches Err(e) ==> e is Sql,
{
    let vals = bind(params);
    match sql_query_first(conn, sql, vals.as_slice()) {
        Ok(Some(row)) => Ok(Some(read_row(&row))),
        Ok(None) => Ok(None),
        Err(e) => Err(GradeError::Sql(e)),
    }
}

/// The first row of a query, which must give one.
pub fn query_one(conn: &rusqlite::Connection, sql: &str, params: &[SqlParam]) -> (r: Result<Vec<SqlValue>, GradeError>)
    ensures
        r matches Err(e) ==> (e is Sql || e is NoRows),
{
    match query_opt(conn, sql, params)? {
        Some(row) => Ok(row),
        None => Err(GradeError::NoRows),
    }
}

/// All rows of a query.
pub fn query_all(conn: &rusqlite::Connection, sql: &str, params: &[SqlParam]) -> (r: Result<Vec<Vec<SqlValue>>, GradeError>)
    ensures
        r matches Err(e) ==> e is Sql,
{
    let vals = bind(params);
    match sql_query_all(conn, sql, vals.as_slice()) {
        Ok(rows) => {
            let mut out: Vec<Vec<SqlValue>> = Vec::new();
            let mut i: usize = 0;
            while i < rows.len()
                invariant
                    i <= rows.len(),
                    out.len() == i,
                decreases rows.len() - i,
            {
                out.push(read_row(&rows[i]));
                i = i + 1;
            }
            Ok(out)
        },
        Err(e) => Err(GradeError::Sql(e)),
    }
}

/// The single integer that a query gives in its first column: `NoRows`
/// where the query gives no row, `ColumnType` for column 0 where that column
/// holds no integer.
pub fn query_i64(conn: &rusqlite::Connection, sql: &str, params: &[SqlParam]) -> (r: Result<i64, GradeError>)
    ensures
        r matches Err(e) ==> is_read_error(e),
{
    let row = query_one(conn, sql, params)?;
    col_i64(&row, 0)
}

impl Db {
    /// A new exam database in memory, with the schema in place.
    pub fn open_in_memory() -> (r: Result<Db, GradeError>)
        ensures
            r matches Err(e) ==> is_read_error(e),
    {
        match sql_open_in_memory() {
            Ok(conn) => Db::init(conn),
            Err(e) => Err(GradeError::Sql(e)),
        }
    }

    /// The exam database in the file at `path`, created where missing, with
    /// the schema in place and older files brought up to it.
    pub fn open(path: &str) -> (r: Result<Db, GradeError>)
        ensures
            r matches Err(e) ==> is_read_error(e),
    {
        match sql_open(path) {
            Ok(conn) => Db::init(conn),
            Err(e) => Err(GradeError::Sql(e)),
        }
    }

    fn init(conn: rusqlite::Connection) -> (r: Result<Db, GradeError>)
        ensures
            r matches Ok(db) ==> db.conn == conn,
            r matches Err(e) ==> is_read_error(e),
    {
        if let Err(e) = sql_execute_batch(&conn, "PRAGMA foreign_keys=ON;") {
            return Err(GradeError::Sql(e));
        }
        if let Err(e) = sql_execute_batch(&conn, SCHEMA) {
            return Err(GradeError::Sql(e));
        }
        migrate(&conn)?;
        Ok(Db { conn })
    }
}

/// Adds the columns that databases made before them lack: `score.comment`
/// and `problem.rubric`. Running it again changes nothing.
pub fn migrate(conn: &rusqlite::Connection) -> (r: Result<(), GradeError>)
    ensures
        r matches Err(e) ==> is_read_error(e),
{
    add_column_if_missing(conn, "score", "comment", "ALTER TABLE score ADD COLUMN comment TEXT")?;
    add_column_if_missing(conn, "problem", "rubric", "ALTER TABLE problem ADD COLUMN rubric TEXT")?;
    Ok(())
}

fn add_column_if_missing(conn: &rusqlite::Connection, table: &str, column: &str, alter_sql: &str) -> (r: Result<(), GradeError>)
    ensures
        r matches Err(e) ==> is_read_error(e),
{
    let has = query_i64(
        conn,
        "SELECT count(*) FROM pragma_table_info(?1) WHERE name=?2",
        text_pair_params(table, column).as_slice(),
    )?;
    if has == 0 {
        execute(conn, alter_sql, no_params().as_slice())?;
    }
    Ok(())
}

} // verus!
