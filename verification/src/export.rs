//! The summary export: one line per student with a cell per problem, totals,
//! completeness and ranking, per-problem figures and grading coverage.

use vstd::prelude::*;
use crate::models::{
    Cell, Coverage, ExamInfo, ExportData, Problem, ProblemStat, ScoreState, Student, StudentRow,
    state_name, state_of_name,
};
use crate::db::{
    Db, GradeError, SqlParam, SqlValue, col_opt_i64, col_string, query_i64, query_all, is_opt_int_at, is_text_at,
    int_at, rows_view,
};
use crate::{persist, setup};

verus! {

/// What the score table says of one grading unit: the stored total and
/// state, or nothing where no score was stored.
pub type UnitScore = Option<(Option<i64>, ScoreState)>;

/// The total of a unit: `None` where nothing is stored.
pub open spec fn unit_total(u: UnitScore) -> Option<i64> {
    match u {
        Some((t, _)) => t,
        None => None,
    }
}

/// The state of a unit: `Ungraded` where nothing is stored.
pub open spec fn unit_state(u: UnitScore) -> ScoreState {
    match u {
        Some((_, s)) => s,
        None => ScoreState::Ungraded,
    }
}

/// Graded and flagged (provisional) scores count; ungraded ones do not.
pub open spec fn counts(s: ScoreState) -> bool {
    s == ScoreState::Graded || s == ScoreState::Flagged
}

/// The points a unit adds to its student's and its problem's sums.
pub open spec fn unit_points(u: UnitScore) -> int {
    if counts(unit_state(u)) {
        match unit_total(u) {
            Some(t) => t as int,
            None => 0,
        }
    } else {
        0
    }
}

/// A student with no page at all is absent.
pub open spec fn is_absent(pages: i64) -> bool {
    pages == 0
}

/// The sum of the points of the first `n` units of a student.
pub open spec fn student_sum(units: Seq<UnitScore>, n: int) -> int
    decreases n,
{
    if n <= 0 {
        0
    } else {
        student_sum(units, n - 1) + unit_points(units[n - 1])
    }
}

/// Whether the first `n` units of a student are all graded.
pub open spec fn all_graded(units: Seq<UnitScore>, n: int) -> bool {
    forall|j: int| 0 <= j < n ==> unit_state(#[trigger] units[j]) == ScoreState::Graded
}

/// The sum, over the present students among the first `n`, of the points
/// they have on problem `j`.
pub open spec fn problem_sum(pages: Seq<i64>, units: Seq<Seq<UnitScore>>, j: int, n: int) -> int
    decreases n,
{
    if n <= 0 {
        0
    } else {
        problem_sum(pages, units, j, n - 1) + if is_absent(pages[n - 1]) {
            0
        } else {
            unit_points(units[n - 1][j])
        }
    }
}

/// How many of the present students among the first `n` have a score on
/// problem `j`: a total, in a state that counts (graded or flagged).
pub open spec fn problem_scored(pages: Seq<i64>, units: Seq<Seq<UnitScore>>, j: int, n: int) -> int
    decreases n,
{
    if n <= 0 {
        0
    } else {
        problem_scored(pages, units, j, n - 1) + if !is_absent(pages[n - 1]) && counts(
            unit_state(units[n - 1][j]),
        ) && unit_total(units[n - 1][j]) is Some {
            1int
        } else {
            0
        }
    }
}

/// How many of the first `m` units of a student are in state `s`.
pub open spec fn row_state_count(units: Seq<UnitScore>, s: ScoreState, m: int) -> int
    decreases m,
{
    if m <= 0 {
        0
    } else {
        row_state_count(units, s, m - 1) + if unit_state(units[m - 1]) == s {
            1int
        } else {
            0
        }
    }
}

/// How many units of the present students among the first `n` are in
/// state `s`, each student having `m` units.
pub open spec fn state_count(pages: Seq<i64>, units: Seq<Seq<UnitScore>>, s: ScoreState, m: int, n: int) -> int
    decreases n,
{
    if n <= 0 {
        0
    } else {
        state_count(pages, units, s, m, n - 1) + if is_absent(pages[n - 1]) {
            0
        } else {
            row_state_count(units[n - 1], s, m)
        }
    }
}

/// How many of the first `n` students are absent.
pub open spec fn absent_count(pages: Seq<i64>, n: int) -> int
    decreases n,
{
    if n <= 0 {
        0
    } else {
        absent_count(pages, n - 1) + if is_absent(pages[n - 1]) {
            1int
        } else {
            0
        }
    }
}

pub open spec fn fits_i64(x: int) -> bool {
    i64::MIN <= x <= i64::MAX
}

/// The running sums of the export stay within `i64`: each present
/// student's total as its cells are added, and each problem's sum as the
/// students are added.
pub open spec fn export_sums_fit(pages: Seq<i64>, units: Seq<Seq<UnitScore>>, m: int) -> bool {
    &&& forall|i: int, n: int|
        0 <= i < pages.len() && !is_absent(pages[i]) && 0 <= n <= m ==> fits_i64(
            #[trigger] student_sum(units[i], n),
        )
    &&& forall|j: int, n: int|
        0 <= j < m && 0 <= n <= pages.len() ==> fits_i64(#[trigger] problem_sum(pages, units, j, n))
}

/// The unit scores as sequences.
pub open spec fn units_view(units: Seq<Vec<UnitScore>>) -> Seq<Seq<UnitScore>> {
    units.map_values(|v: Vec<UnitScore>| v@)
}

/// The unit scores are given for every present student and every problem.
pub open spec fn units_shaped(pages: Seq<i64>, units: Seq<Seq<UnitScore>>, m: int) -> bool {
    &&& units.len() == pages.len()
    &&& forall|i: int| 0 <= i < pages.len() && !is_absent(pages[i]) ==> (#[trigger] units[i]).len() == m
}

/// The key of a student with `pages` pages and unit scores `units` over `m`
/// problems: absent, total (the sum of its points), complete.
pub open spec fn key_matches(k: (bool, Option<i64>, bool), pages: i64, units: Seq<UnitScore>, m: int) -> bool {
    &&& k.0 == is_absent(pages)
    &&& k.1 == if is_absent(pages) {
        None
    } else {
        Some(student_sum(units, m) as i64)
    }
    &&& k.2 == (!is_absent(pages) && all_graded(units, m))
}

/// The ranking key of a line: absent, total, complete.
pub open spec fn row_key(r: StudentRow) -> (bool, Option<i64>, bool) {
    (r.absent, r.total, r.complete)
}

/// The total of a line as a number (0 where there is none).
pub open spec fn key_total(k: (bool, Option<i64>, bool)) -> int {
    match k.1 {
        Some(t) => t as int,
        None => 0,
    }
}

/// A ranking is given only when someone is present and every present
/// student is completely graded.
pub open spec fn ranking_available(keys: Seq<(bool, Option<i64>, bool)>) -> bool {
    &&& exists|k: int| 0 <= k < keys.len() && !(#[trigger] keys[k]).0
    &&& forall|k: int| 0 <= k < keys.len() && !(#[trigger] keys[k]).0 ==> keys[k].2
}

/// How many present students among the first `n` have a total above `t`.
pub open spec fn count_above(keys: Seq<(bool, Option<i64>, bool)>, t: int, n: int) -> int
    decreases n,
{
    if n <= 0 {
        0
    } else {
        count_above(keys, t, n - 1) + if !keys[n - 1].0 && key_total(keys[n - 1]) > t {
            1int
        } else {
            0
        }
    }
}

/// Standard competition ranking: one more than the number of present
/// students with a higher total, so tied totals share a rank and the next
/// rank skips; absent students, and everyone when no ranking is given, have
/// no rank.
pub open spec fn competition_rank(keys: Seq<(bool, Option<i64>, bool)>, i: int) -> Option<i64> {
    if ranking_available(keys) && !keys[i].0 {
        Some((1 + count_above(keys, key_total(keys[i]), keys.len() as int)) as i64)
    } else {
        None
    }
}

/// The line of student `stu` with `pages` pages and unit scores `units` over
/// `m` problems (its rank aside).
pub open spec fn row_matches(r: StudentRow, stu: Student, pages: i64, units: Seq<UnitScore>, m: int) -> bool {
    let absent = is_absent(pages);
    &&& r.student_id == stu.id
    &&& r.name == stu.name
    &&& r.exam_number == stu.exam_number
    &&& r.absent == absent
    &&& r.cells.len() == m
    &&& forall|j: int|
        0 <= j < m ==> {
            let c = #[trigger] r.cells@[j];
            if absent {
                c.total == None::<i64> && c.state@ == "Absent"@
            } else {
                c.total == unit_total(units[j]) && c.state@ == state_name(unit_state(units[j]))
            }
        }
    &&& r.total == if absent {
        None
    } else {
        Some(student_sum(units, m) as i64)
    }
    &&& r.complete == (!absent && all_graded(units, m))
}

/// The export of `exam` with `problems`, the roster `students`, their page
/// counts and their unit scores.
pub open spec fn export_matches(
    d: ExportData,
    exam: ExamInfo,
    problems: Seq<Problem>,
    students: Seq<Student>,
    pages: Seq<i64>,
    units: Seq<Seq<UnitScore>>,
) -> bool {
    let m = problems.len() as int;
    let n = students.len() as int;
    let keys = d.rows@.map_values(|r: StudentRow| row_key(r));
    &&& d.exam == exam
    &&& d.problem_numbers@ == problems.map_values(|p: Problem| p.number)
    &&& d.problem_max@ == problems.map_values(|p: Problem| p.max_score)
    &&& d.rows.len() == n
    &&& forall|i: int|
        0 <= i < n ==> row_matches(#[trigger] d.rows@[i], students[i], pages[i], units[i], m)
    &&& d.ranking_available == ranking_available(keys)
    &&& forall|i: int| 0 <= i < n ==> (#[trigger] d.rows@[i]).rank == competition_rank(keys, i)
    &&& d.problem_stats.len() == m
    &&& forall|j: int| 0 <= j < m ==> stat_matches(#[trigger] d.problem_stats@[j], problems[j], pages, units, j)
    &&& d.coverage.roster == n
    &&& d.coverage.absent == absent_count(pages, n)
    &&& d.coverage.graded == state_count(pages, units, ScoreState::Graded, m, n)
    &&& d.coverage.flagged == state_count(pages, units, ScoreState::Flagged, m, n)
    &&& d.coverage.ungraded == state_count(pages, units, ScoreState::Ungraded, m, n)
    &&& d.coverage.units_total == d.coverage.graded + d.coverage.flagged + d.coverage.ungraded
}


/// A present student's running total stays within `i64` over its `m` units.
pub open spec fn student_sums_fit(units: Seq<UnitScore>, m: int) -> bool {
    forall|n: int| 0 <= n <= m ==> fits_i64(#[trigger] student_sum(units, n))
}

/// The points of one unit, as the exec code sees them.
fn points_of(u: &UnitScore) -> (p: i64)
    ensures
        p == unit_points(*u),
{
    match u {
        Some((t, s)) => {
            if *s == ScoreState::Graded || *s == ScoreState::Flagged {
                match t {
                    Some(v) => *v,
                    None => 0,
                }
            } else {
                0
            }
        },
        None => 0,
    }
}

fn state_of(u: &UnitScore) -> (s: ScoreState)
    ensures
        s == unit_state(*u),
{
    match u {
        Some((_, s)) => *s,
        None => ScoreState::Ungraded,
    }
}

fn total_of(u: &UnitScore) -> (t: Option<i64>)
    ensures
        t == unit_total(*u),
{
    match u {
        Some((t, _)) => *t,
        None => None,
    }
}

/// The ranking key of one student: absent, total, complete; `Overflow`
/// where the running total leaves `i64`.
fn student_key(pages: i64, units: &Vec<UnitScore>, m: usize) -> (r: Result<(bool, Option<i64>, bool), GradeError>)
    requires
        !is_absent(pages) ==> units.len() == m,
    ensures
        match r {
            Ok(k) => {
                &&& (!is_absent(pages) ==> student_sums_fit(units@, m as int))
                &&& key_matches(k, pages, units@, m as int)
            },
            Err(e) => e == GradeError::Overflow && !is_absent(pages) && !student_sums_fit(units@, m as int),
        },
{
    if pages == 0 {
        return Ok((true, None, false));
    }
    let mut total: i64 = 0;
    let mut graded = true;
    let mut j: usize = 0;
    while j < m
        invariant
            units.len() == m,
            !is_absent(pages),
            j <= m,
            total == student_sum(units@, j as int),
            forall|n: int| 0 <= n <= j ==> fits_i64(#[trigger] student_sum(units@, n)),
            graded == all_graded(units@, j as int),
        decreases m - j,
    {
        let p = points_of(&units[j]);
        let next = total.checked_add(p);
        match next {
            Some(v) => {
                total = v;
            },
            None => {
                assert(!fits_i64(student_sum(units@, j + 1)));
                assert(!student_sums_fit(units@, m as int));
                return Err(GradeError::Overflow);
            },
        }
        if state_of(&units[j]) != ScoreState::Graded {
            graded = false;
        }
        j = j + 1;
    }
    Ok((false, Some(total), graded))
}

/// The cells of one student's line.
fn student_cells(pages: i64, units: &Vec<UnitScore>, m: usize) -> (cells: Vec<Cell>)
    requires
        !is_absent(pages) ==> units.len() == m,
    ensures
        cells.len() == m,
        forall|j: int|
            0 <= j < m ==> {
                let c = #[trigger] cells@[j];
                if is_absent(pages) {
                    c.total == None::<i64> && c.state@ == "Absent"@
                } else {
                    c.total == unit_total(units@[j]) && c.state@ == state_name(unit_state(units@[j]))
                }
            },
{
    let mut cells: Vec<Cell> = Vec::new();
    let mut j: usize = 0;
    while j < m
        invariant
            !is_absent(pages) ==> units.len() == m,
            j <= m,
            cells.len() == j,
            forall|k: int|
                0 <= k < j ==> {
                    let c = #[trigger] cells@[k];
                    if is_absent(pages) {
                        c.total == None::<i64> && c.state@ == "Absent"@
                    } else {
                        c.total == unit_total(units@[k]) && c.state@ == state_name(unit_state(units@[k]))
                    }
                },
        decreases m - j,
    {
        if pages == 0 {
            cells.push(Cell { total: None, state: "Absent".to_owned() });
        } else {
            let s = state_of(&units[j]);
            cells.push(Cell { total: total_of(&units[j]), state: s.as_str().to_owned() });
        }
        j = j + 1;
    }
    cells
}

/// The competition rank of every line, from the lines' keys.
fn competition_ranks(keys: &Vec<(bool, Option<i64>, bool)>) -> (ranks: Vec<Option<i64>>)
    requires
        keys.len() < i64::MAX,
    ensures
        ranks.len() == keys.len(),
        forall|i: int| 0 <= i < keys.len() ==> #[trigger] ranks@[i] == competition_rank(keys@, i),
{
    let n = keys.len();
    let available = ranking_available_of(keys);
    let mut ranks: Vec<Option<i64>> = Vec::new();
    let mut i: usize = 0;
    while i < n
        invariant
            n == keys.len(),
            n < i64::MAX,
            i <= n,
            available == ranking_available(keys@),
            ranks.len() == i,
            forall|q: int| 0 <= q < i ==> #[trigger] ranks@[q] == competition_rank(keys@, q),
        decreases n - i,
    {
        if available && !keys[i].0 {
            let t: i64 = match keys[i].1 {
                Some(v) => v,
                None => 0,
            };
            let mut above: i64 = 0;
            let mut k: usize = 0;
            while k < n
                invariant
                    n == keys.len(),
                    n < i64::MAX,
                    k <= n,
                    t == key_total(keys@[i as int]),
                    above == count_above(keys@, t as int, k as int),
                    0 <= above <= k,
                decreases n - k,
            {
                let tk: i64 = match keys[k].1 {
                    Some(v) => v,
                    None => 0,
                };
                if !keys[k].0 && tk > t {
                    above = above + 1;
                }
                k = k + 1;
            }
            ranks.push(Some(above + 1));
        } else {
            ranks.push(None);
        }
        i = i + 1;
    }
    ranks
}


/// Each problem's running sum stays within `i64` as the students are added.
pub open spec fn problem_sums_fit(pages: Seq<i64>, units: Seq<Seq<UnitScore>>, j: int) -> bool {
    forall|n: int| 0 <= n <= pages.len() ==> fits_i64(#[trigger] problem_sum(pages, units, j, n))
}

/// The figures of problem `j` over the students with `pages` pages and unit
/// scores `units`.
pub open spec fn stat_matches(st: ProblemStat, p: Problem, pages: Seq<i64>, units: Seq<Seq<UnitScore>>, j: int) -> bool {
    &&& st.number == p.number
    &&& st.max_score == p.max_score
    &&& st.scored_count == problem_scored(pages, units, j, pages.len() as int)
    &&& st.score_sum == problem_sum(pages, units, j, pages.len() as int)
}

/// The figures of problem `j` over all students.
fn problem_stat(
    problem: &Problem,
    pages: &Vec<i64>,
    units: &Vec<Vec<UnitScore>>,
    j: usize,
    m: usize,
) -> (r: Result<ProblemStat, GradeError>)
    requires
        j < m,
        units_shaped(pages@, units_view(units@), m as int),
        pages.len() < i64::MAX,
    ensures
        match r {
            Ok(st) => {
                &&& problem_sums_fit(pages@, units_view(units@), j as int)
                &&& stat_matches(st, *problem, pages@, units_view(units@), j as int)
            },
            Err(e) => e == GradeError::Overflow && !problem_sums_fit(
                pages@,
                units_view(units@),
                j as int,
            ),
        },
{
    let ghost uv = units_view(units@);
    let n = pages.len();
    let mut sum: i64 = 0;
    let mut count: i64 = 0;
    let mut i: usize = 0;
    while i < n
        invariant
            n == pages.len(),
            n < i64::MAX,
            j < m,
            uv == units_view(units@),
            units_shaped(pages@, uv, m as int),
            i <= n,
            sum == problem_sum(pages@, uv, j as int, i as int),
            count == problem_scored(pages@, uv, j as int, i as int),
            0 <= count <= i,
            forall|q: int| 0 <= q <= i ==> fits_i64(#[trigger] problem_sum(pages@, uv, j as int, q)),
        decreases n - i,
    {
        if pages[i] != 0 {
            assert(uv[i as int] == units@[i as int]@);
            let u = &units[i][j];
            let p = points_of(u);
            match sum.checked_add(p) {
                Some(v) => {
                    sum = v;
                },
                None => {
                    assert(!fits_i64(problem_sum(pages@, uv, j as int, i + 1)));
                    assert(!problem_sums_fit(pages@, uv, j as int));
                    return Err(GradeError::Overflow);
                },
            }
            let s = state_of(u);
            if (s == ScoreState::Graded || s == ScoreState::Flagged) && total_of(u).is_some() {
                count = count + 1;
            }
        }
        i = i + 1;
    }
    Ok(ProblemStat { number: problem.number, max_score: problem.max_score, scored_count: count, score_sum: sum })
}

proof fn lemma_row_partition(units: Seq<UnitScore>, m: int)
    requires
        m >= 0,
    ensures
        row_state_count(units, ScoreState::Graded, m) >= 0,
        row_state_count(units, ScoreState::Flagged, m) >= 0,
        row_state_count(units, ScoreState::Ungraded, m) >= 0,
        row_state_count(units, ScoreState::Graded, m) + row_state_count(units, ScoreState::Flagged, m)
            + row_state_count(units, ScoreState::Ungraded, m) == m,
    decreases m,
{
    if m > 0 {
        lemma_row_partition(units, m - 1);
    }
}

/// Grading coverage over all students.
fn coverage_of(pages: &Vec<i64>, units: &Vec<Vec<UnitScore>>, m: usize) -> (c: Coverage)
    requires
        units_shaped(pages@, units_view(units@), m as int),
        pages.len() * (m + 1) <= i64::MAX,
    ensures
        ({
            let uv = units_view(units@);
            let n = pages.len() as int;
            &&& c.roster == n
            &&& c.absent == absent_count(pages@, n)
            &&& c.graded == state_count(pages@, uv, ScoreState::Graded, m as int, n)
            &&& c.flagged == state_count(pages@, uv, ScoreState::Flagged, m as int, n)
            &&& c.ungraded == state_count(pages@, uv, ScoreState::Ungraded, m as int, n)
            &&& c.units_total == c.graded + c.flagged + c.ungraded
        }),
{
    let ghost uv = units_view(units@);
    let n = pages.len();
    let mut absent: i64 = 0;
    let mut graded: i64 = 0;
    let mut flagged: i64 = 0;
    let mut ungraded: i64 = 0;
    let mut i: usize = 0;
    assert(n * m <= n * (m + 1)) by (nonlinear_arith);
    assert(n <= n * (m + 1)) by (nonlinear_arith);
    while i < n
        invariant
            n == pages.len(),
            n <= i64::MAX,
            n * m <= n * (m + 1) <= i64::MAX,
            uv == units_view(units@),
            units_shaped(pages@, uv, m as int),
            i <= n,
            0 <= absent <= i,
            absent == absent_count(pages@, i as int),
            graded == state_count(pages@, uv, ScoreState::Graded, m as int, i as int),
            flagged == state_count(pages@, uv, ScoreState::Flagged, m as int, i as int),
            ungraded == state_count(pages@, uv, ScoreState::Ungraded, m as int, i as int),
            graded >= 0 && flagged >= 0 && ungraded >= 0,
            graded + flagged + ungraded <= i * m,
        decreases n - i,
    {
        if pages[i] == 0 {
            absent = absent + 1;
            assert(graded + flagged + ungraded <= (i + 1) * m) by (nonlinear_arith)
                requires graded + flagged + ungraded <= i * m, m >= 0;
        } else {
            assert(uv[i as int] == units@[i as int]@);
            let row = &units[i];
            let ghost g0 = graded;
            let ghost f0 = flagged;
            let ghost u0 = ungraded;
            proof {
                assert((i + 1) * m <= n * m) by (nonlinear_arith)
                    requires i < n, m >= 0;
            }
            let mut j: usize = 0;
            while j < m
                invariant
                    n == pages.len(),
                    n * m <= i64::MAX,
                    (i + 1) * m <= n * m,
                    i < n,
                    uv[i as int] == row@,
                    row@.len() == m,
                    j <= m,
                    graded == g0 + row_state_count(row@, ScoreState::Graded, j as int),
                    flagged == f0 + row_state_count(row@, ScoreState::Flagged, j as int),
                    ungraded == u0 + row_state_count(row@, ScoreState::Ungraded, j as int),
                    g0 >= 0 && f0 >= 0 && u0 >= 0,
                    g0 + f0 + u0 <= i * m,
                    graded + flagged + ungraded == g0 + f0 + u0 + j,
                decreases m - j,
            {
                proof {
                    lemma_row_partition(row@, j as int);
                    assert(i * m + j < (i + 1) * m) by (nonlinear_arith)
                        requires j < m;
                }
                let s = state_of(&row[j]);
                if s == ScoreState::Graded {
                    graded = graded + 1;
                } else if s == ScoreState::Flagged {
                    flagged = flagged + 1;
                } else {
                    ungraded = ungraded + 1;
                }
                j = j + 1;
            }
            proof {
                lemma_row_partition(row@, m as int);
                assert(i * m + m == (i + 1) * m) by (nonlinear_arith);
            }
        }
        i = i + 1;
    }
    Coverage {
        roster: n as i64,
        absent,
        units_total: graded + flagged + ungraded,
        graded,
        flagged,
        ungraded,
    }
}


/// A copy of an optional string.
pub fn clone_opt_string(o: &Option<String>) -> (r: Option<String>)
    ensures
        r == *o,
{
    match o {
        Some(s) => Some(s.clone()),
        None => None,
    }
}

/// The export of `exam` from its problems, its roster, each student's page
/// count, and the stored score of each present student on each problem.
/// `Overflow` where a running sum leaves `i64`.
pub fn assemble_export(
    exam: ExamInfo,
    problems: &Vec<Problem>,
    students: &Vec<Student>,
    pages: &Vec<i64>,
    units: &Vec<Vec<UnitScore>>,
) -> (r: Result<ExportData, GradeError>)
    requires
        pages.len() == students.len(),
        units_shaped(pages@, units_view(units@), problems.len() as int),
        students.len() * (problems.len() + 1) < i64::MAX,
    ensures
        match r {
            Ok(d) => {
                &&& export_sums_fit(pages@, units_view(units@), problems.len() as int)
                &&& export_matches(d, exam, problems@, students@, pages@, units_view(units@))
            },
            Err(e) => e == GradeError::Overflow && !export_sums_fit(
                pages@,
                units_view(units@),
                problems.len() as int,
            ),
        },
{
    let ghost uv = units_view(units@);
    let n = students.len();
    let m = problems.len();
    proof {
        assert(n <= n * (m + 1)) by (nonlinear_arith);
    }
    assert(n < i64::MAX);
    // Totals, completeness and absence of each student.
    let mut keys: Vec<(bool, Option<i64>, bool)> = Vec::new();
    let mut i: usize = 0;
    while i < n
        invariant
            n == students.len() == pages.len() == units.len(),
            m == problems.len(),
            uv == units_view(units@),
            units_shaped(pages@, uv, m as int),
            i <= n,
            keys.len() == i,
            forall|q: int| 0 <= q < i ==> key_matches(#[trigger] keys@[q], pages@[q], uv[q], m as int),
            forall|q: int|
                0 <= q < i && !is_absent(pages@[q]) ==> student_sums_fit(#[trigger] uv[q], m as int),
        decreases n - i,
    {
        assert(uv[i as int] == units@[i as int]@);
        match student_key(pages[i], &units[i], m) {
            Ok(k) => {
                keys.push(k);
                assert(keys@[i as int] == k);
            },
            Err(e) => {
                assert(!export_sums_fit(pages@, uv, m as int)) by {
                    if export_sums_fit(pages@, uv, m as int) {
                        assert forall|q: int| 0 <= q <= m implies fits_i64(
                            #[trigger] student_sum(uv[i as int], q),
                        ) by {
                            assert(!is_absent(pages@[i as int]));
                        }
                        assert(student_sums_fit(uv[i as int], m as int));
                    }
                }
                return Err(e);
            },
        }
        i = i + 1;
    }
    // Figures of each problem.
    let mut stats: Vec<ProblemStat> = Vec::new();
    let mut j: usize = 0;
    while j < m
        invariant
            n == students.len() == pages.len() == units.len(),
            n < i64::MAX,
            m == problems.len(),
            uv == units_view(units@),
            units_shaped(pages@, uv, m as int),
            j <= m,
            stats.len() == j,
            forall|q: int| 0 <= q < j ==> stat_matches(#[trigger] stats@[q], problems@[q], pages@, uv, q),
            forall|q: int| 0 <= q < j ==> problem_sums_fit(pages@, uv, q),
        decreases m - j,
    {
        match problem_stat(&problems[j], pages, units, j, m) {
            Ok(st) => {
                stats.push(st);
                assert(stats@[j as int] == st);
            },
            Err(e) => {
                assert(!export_sums_fit(pages@, uv, m as int)) by {
                    if export_sums_fit(pages@, uv, m as int) {
                        assert forall|q: int| 0 <= q <= n implies fits_i64(
                            #[trigger] problem_sum(pages@, uv, j as int, q),
                        ) by {}
                        assert(problem_sums_fit(pages@, uv, j as int));
                    }
                }
                return Err(e);
            },
        }
        j = j + 1;
    }
    assert(export_sums_fit(pages@, uv, m as int)) by {
        assert forall|i: int, q: int|
            0 <= i < pages.len() && !is_absent(pages@[i]) && 0 <= q <= m implies fits_i64(
            #[trigger] student_sum(uv[i], q),
        ) by {
            assert(student_sums_fit(uv[i], m as int));
        }
        assert forall|jj: int, q: int|
            0 <= jj < m && 0 <= q <= pages.len() implies fits_i64(#[trigger] problem_sum(pages@, uv, jj, q)) by {
            assert(problem_sums_fit(pages@, uv, jj));
        }
    }
    assert(n * (m + 1) <= i64::MAX);
    let coverage = coverage_of(pages, units, m);
    let ranks = competition_ranks(&keys);
    // The lines.
    let mut rows: Vec<StudentRow> = Vec::new();
    let mut i: usize = 0;
    while i < n
        invariant
            n == students.len() == pages.len() == units.len() == keys.len() == ranks.len(),
            m == problems.len(),
            uv == units_view(units@),
            units_shaped(pages@, uv, m as int),
            i <= n,
            rows.len() == i,
            forall|q: int| 0 <= q < n ==> key_matches(#[trigger] keys@[q], pages@[q], uv[q], m as int),
            forall|q: int| 0 <= q < n ==> #[trigger] ranks@[q] == competition_rank(keys@, q),
            forall|q: int|
                0 <= q < i ==> {
                    &&& row_matches(#[trigger] rows@[q], students@[q], pages@[q], uv[q], m as int)
                    &&& row_key(rows@[q]) == keys@[q]
                    &&& rows@[q].rank == ranks@[q]
                },
        decreases n - i,
    {
        assert(uv[i as int] == units@[i as int]@);
        let stu = &students[i];
        let k = keys[i];
        let row = StudentRow {
            student_id: stu.id,
            name: stu.name.clone(),
            exam_number: clone_opt_string(&stu.exam_number),
            absent: k.0,
            cells: student_cells(pages[i], &units[i], m),
            total: k.1,
            complete: k.2,
            rank: ranks[i],
        };
        rows.push(row);
        i = i + 1;
    }
    assert(rows@.map_values(|r: StudentRow| row_key(r)) =~= keys@);
    let mut numbers: Vec<i64> = Vec::new();
    let mut maxes: Vec<i64> = Vec::new();
    let mut j: usize = 0;
    while j < m
        invariant
            m == problems.len(),
            j <= m,
            numbers@ == problems@.take(j as int).map_values(|p: Problem| p.number),
            maxes@ == problems@.take(j as int).map_values(|p: Problem| p.max_score),
        decreases m - j,
    {
        numbers.push(problems[j].number);
        maxes.push(problems[j].max_score);
        j = j + 1;
        assert(numbers@ =~= problems@.take(j as int).map_values(|p: Problem| p.number));
        assert(maxes@ =~= problems@.take(j as int).map_values(|p: Problem| p.max_score));
    }
    assert(problems@.take(m as int) =~= problems@);
    Ok(ExportData {
        exam,
        problem_numbers: numbers,
        problem_max: maxes,
        rows,
        problem_stats: stats,
        coverage,
        ranking_available: ranking_available_of(&keys),
    })
}

/// Whether a ranking is given for lines with these keys.
fn ranking_available_of(keys: &Vec<(bool, Option<i64>, bool)>) -> (r: bool)
    ensures
        r == ranking_available(keys@),
{
    let mut any_present = false;
    let mut all_complete = true;
    let mut k: usize = 0;
    while k < keys.len()
        invariant
            k <= keys.len(),
            any_present == exists|q: int| 0 <= q < k && !(#[trigger] keys@[q]).0,
            all_complete == forall|q: int| 0 <= q < k && !(#[trigger] keys@[q]).0 ==> keys@[q].2,
        decreases keys.len() - k,
    {
        if !keys[k].0 {
            any_present = true;
            if !keys[k].2 {
                all_complete = false;
            }
        }
        k = k + 1;
    }
    any_present && all_complete
}


proof fn lemma_count_above_monotone(keys: Seq<(bool, Option<i64>, bool)>, hi: int, lo: int, n: int)
    requires
        lo <= hi,
        n <= keys.len(),
    ensures
        count_above(keys, hi, n) <= count_above(keys, lo, n),
        0 <= count_above(keys, hi, n),
        forall|x: int|
            0 <= x < n && !(#[trigger] keys[x]).0 && lo < key_total(keys[x]) <= hi ==> count_above(keys, hi, n) < count_above(keys, lo, n),
    decreases n,
{
    if n > 0 {
        lemma_count_above_monotone(keys, hi, lo, n - 1);
    }
}

/// In a ranking, a higher total gets a smaller (better) rank, equal totals
/// share a rank, and every rank is at least 1.
pub proof fn lemma_ranking_order(keys: Seq<(bool, Option<i64>, bool)>, i: int, k: int)
    requires
        keys.len() < i64::MAX,
        ranking_available(keys),
        0 <= i < keys.len(),
        0 <= k < keys.len(),
        !keys[i].0,
        !keys[k].0,
    ensures
        competition_rank(keys, i) matches Some(ri) && competition_rank(keys, k) matches Some(rk) && {
            &&& ri >= 1
            &&& (key_total(keys[i]) > key_total(keys[k]) <==> ri < rk)
            &&& (key_total(keys[i]) == key_total(keys[k]) <==> ri == rk)
        },
{
    let n = keys.len() as int;
    let (ti, tk) = (key_total(keys[i]), key_total(keys[k]));
    lemma_count_above_bound(keys, ti, n);
    lemma_count_above_bound(keys, tk, n);
    if ti >= tk {
        lemma_count_above_monotone(keys, ti, tk, n);
    }
    if tk >= ti {
        lemma_count_above_monotone(keys, tk, ti, n);
    }
}

proof fn lemma_count_above_bound(keys: Seq<(bool, Option<i64>, bool)>, t: int, n: int)
    requires
        0 <= n <= keys.len(),
    ensures
        0 <= count_above(keys, t, n) <= n,
    decreases n,
{
    if n > 0 {
        lemma_count_above_bound(keys, t, n - 1);
    }
}

proof fn lemma_state_partition(pages: Seq<i64>, units: Seq<Seq<UnitScore>>, m: int, n: int)
    requires
        0 <= m,
        0 <= n <= pages.len(),
    ensures
        state_count(pages, units, ScoreState::Graded, m, n) + state_count(pages, units, ScoreState::Flagged, m, n)
            + state_count(pages, units, ScoreState::Ungraded, m, n) == (n - absent_count(pages, n)) * m,
    decreases n,
{
    if n > 0 {
        lemma_state_partition(pages, units, m, n - 1);
        let a = absent_count(pages, n - 1);
        if !is_absent(pages[n - 1]) {
            lemma_row_partition(units[n - 1], m);
            assert(absent_count(pages, n) == a);
            assert((n - 1 - a) * m + m == (n - a) * m) by (nonlinear_arith);
        } else {
            assert(absent_count(pages, n) == a + 1);
            let b = absent_count(pages, n);
            assert((n - b) * m == (n - 1 - a) * m) by (nonlinear_arith)
                requires
                    b == a + 1,
            ;
        }
    } else {
        assert((n - absent_count(pages, n)) * m == 0) by (nonlinear_arith)
            requires
                n == 0,
                absent_count(pages, n) == 0,
        ;
    }
}

/// The units of an export are those of its present students, one per
/// problem: their number is the present students times the problems.
pub proof fn lemma_coverage_units(
    d: ExportData,
    exam: ExamInfo,
    problems: Seq<Problem>,
    students: Seq<Student>,
    pages: Seq<i64>,
    units: Seq<Seq<UnitScore>>,
)
    requires
        pages.len() == students.len(),
        export_matches(d, exam, problems, students, pages, units),
    ensures
        d.coverage.units_total == (d.coverage.roster - d.coverage.absent) * problems.len(),
{
    lemma_state_partition(pages, units, problems.len() as int, students.len() as int);
}


/// `d` is the export of its exam for some problems, roster, page counts
/// and stored scores whose sums all stay within `i64`.
pub open spec fn is_export(d: ExportData) -> bool {
    exists|problems: Seq<Problem>, students: Seq<Student>, pages: Seq<i64>, units: Seq<Seq<UnitScore>>|
        pages.len() == students.len() && export_sums_fit(pages, units, problems.len() as int)
            && #[trigger] export_matches(d, d.exam, problems, students, pages, units)
}



/// The stored total and state of a unit in a row of `SELECT total, state`:
/// nothing where the row does not have that shape, and a state name other
/// than `Graded` or `Flagged` read as `Ungraded`.
pub open spec fn unit_score_of_row(row: Seq<SqlValue>) -> UnitScore {
    if is_opt_int_at(row, 0) && is_text_at(row, 1) {
        let total = match row[0] {
            SqlValue::Integer(t) => Some(t),
            _ => None,
        };
        match row[1] {
            SqlValue::Text(s) => Some((total, state_of_name(s@))),
            _ => None,
        }
    } else {
        None
    }
}

/// The stored total and state of a unit in a row of `SELECT total, state`,
/// or nothing where the row does not have that shape.
fn unit_score_from_row(row: &Vec<SqlValue>) -> (r: UnitScore)
    ensures
        r == unit_score_of_row(row@),
{
    let total = match col_opt_i64(row, 0) {
        Ok(t) => t,
        Err(_) => return None,
    };
    let state = match col_string(row, 1) {
        Ok(s) => s,
        Err(_) => return None,
    };
    Some((total, ScoreState::from_str(state.as_str())))
}

/// The stored score of problem `pid` among the score rows of one student
/// (`SELECT total, state, problem_id`): that of the first row for the
/// problem, or nothing where there is none.
pub open spec fn unit_for(pid: i64, rows: Seq<Seq<SqlValue>>) -> UnitScore
    decreases rows.len(),
{
    if rows.len() == 0 {
        None
    } else if int_at(rows[0], 2, pid) {
        unit_score_of_row(rows[0])
    } else {
        unit_for(pid, rows.drop_first())
    }
}

/// A present student's unit scores, one per problem in order, from the
/// student's score rows.
pub open spec fn student_units(problems: Seq<Problem>, rows: Seq<Seq<SqlValue>>) -> Seq<UnitScore> {
    Seq::new(problems.len(), |j: int| unit_for(problems[j].id, rows))
}

/// The unit scores of every student: none for an absent student, else one
/// per problem from the student's score rows `scores[i]`.
pub open spec fn units_of_rows(problems: Seq<Problem>, pages: Seq<i64>, scores: Seq<Seq<Seq<SqlValue>>>) -> Seq<Seq<UnitScore>> {
    Seq::new(
        pages.len(),
        |i: int|
            if is_absent(pages[i]) {
                Seq::empty()
            } else {
                student_units(problems, scores[i])
            },
    )
}

/// `d` is the export of its exam for the problems `problems`, the roster
/// `students`, their page counts `pages` and their score rows `scores`.
pub open spec fn export_of_rows(
    d: ExportData,
    problems: Seq<Problem>,
    students: Seq<Student>,
    pages: Seq<i64>,
    scores: Seq<Seq<Seq<SqlValue>>>,
) -> bool {
    let units = units_of_rows(problems, pages, scores);
    &&& pages.len() == students.len()
    &&& scores.len() == students.len()
    &&& export_sums_fit(pages, units, problems.len() as int)
    &&& export_matches(d, d.exam, problems, students, pages, units)
}

/// The stored score of problem `pid` among a student's score rows.
fn unit_for_problem(pid: i64, rows: &Vec<Vec<SqlValue>>) -> (u: UnitScore)
    ensures
        u == unit_for(pid, rows_view(rows@)),
{
    let ghost rv = rows_view(rows@);
    assert(rv.skip(0) =~= rv);
    let mut k: usize = 0;
    while k < rows.len()
        invariant
            rv == rows_view(rows@),
            k <= rows.len(),
            unit_for(pid, rv) == unit_for(pid, rv.skip(k as int)),
        decreases rows.len() - k,
    {
        assert(rv[k as int] == rows@[k as int]@);
        assert(rv.skip(k as int)[0] == rv[k as int]);
        assert(rv.skip(k as int).drop_first() =~= rv.skip(k as int + 1));
        let row = &rows[k];
        let found = row.len() > 2 && match &row[2] {
            SqlValue::Integer(x) => *x == pid,
            _ => false,
        };
        if found {
            return unit_score_from_row(row);
        }
        k = k + 1;
    }
    assert(rv.skip(rows.len() as int).len() == 0);
    None
}

/// A present student's unit scores, one per problem in order.
fn student_units_from(problems: &Vec<Problem>, rows: &Vec<Vec<SqlValue>>) -> (units: Vec<UnitScore>)
    ensures
        units@ == student_units(problems@, rows_view(rows@)),
{
    let mut units: Vec<UnitScore> = Vec::new();
    let mut j: usize = 0;
    while j < problems.len()
        invariant
            j <= problems.len(),
            units.len() == j,
            forall|q: int| 0 <= q < j ==> #[trigger] units@[q] == unit_for(problems@[q].id, rows_view(rows@)),
        decreases problems.len() - j,
    {
        units.push(unit_for_problem(problems[j].id, rows));
        j = j + 1;
    }
    assert(units@ =~= student_units(problems@, rows_view(rows@)));
    units
}

/// The summary export of an exam: a line per student of the roster with a
/// cell per problem, the students' totals (graded and flagged scores count,
/// ungraded ones do not, absent students have none), completeness, the
/// ranking once every present student is fully graded, per-problem figures
/// and coverage. A student with no page is absent.
pub fn build_export(db: &Db, exam_id: i64) -> (r: Result<ExportData, GradeError>)
    ensures
        r matches Ok(d) ==> exists|
            problems: Seq<Problem>,
            students: Seq<Student>,
            pages: Seq<i64>,
            scores: Seq<Seq<Seq<SqlValue>>>,
        | #[trigger] export_of_rows(d, problems, students, pages, scores),
        r matches Ok(d) ==> is_export(d),
{
    let exam = persist::exam_info(db, exam_id)?;
    let problems = setup::list_problems(db, exam_id)?;
    let students = setup::list_students(db, exam_id)?;
    let n = students.len();
    let m = problems.len();
    if m as u64 >= i64::MAX as u64 {
        return Err(GradeError::Overflow);
    }
    match (n as u64).checked_mul(m as u64 + 1) {
        Some(x) => {
            if x >= i64::MAX as u64 {
                        return Err(GradeError::Overflow);
            }
        },
        None => {
                return Err(GradeError::Overflow);
        },
    }
    let mut pages: Vec<i64> = Vec::new();
    let mut units: Vec<Vec<UnitScore>> = Vec::new();
    let mut scores: Vec<Vec<Vec<SqlValue>>> = Vec::new();
    let lookups = setup::roster_id_params(&students);
    let mut i: usize = 0;
    while i < n
        invariant
            lookups.len() == n,
            n == students.len(),
            m == problems.len(),
            i <= n,
            pages.len() == i,
            units.len() == i,
            scores.len() == i,
            forall|q: int|
                0 <= q < i ==> (#[trigger] units@[q])@ == (if is_absent(pages@[q]) {
                    Seq::<UnitScore>::empty()
                } else {
                    student_units(problems@, rows_view(scores@[q]@))
                }),
        decreases n - i,
    {
        let count = query_i64(&db.conn, "SELECT count(*) FROM page WHERE student_id=?1", lookups[i].as_slice())?;
        let mut row_units: Vec<UnitScore> = Vec::new();
        let mut score_rows: Vec<Vec<SqlValue>> = Vec::new();
        if count != 0 {
            score_rows = match query_all(
                &db.conn,
                "SELECT total, state, problem_id FROM score WHERE student_id=?1",
                lookups[i].as_slice(),
            ) {
                Ok(rows) => rows,
                Err(_) => Vec::new(),
            };
            row_units = student_units_from(&problems, &score_rows);
        }
        pages.push(count);
        units.push(row_units);
        scores.push(score_rows);
        i = i + 1;
    }
    let ghost sv = scores@.map_values(|rows: Vec<Vec<SqlValue>>| rows_view(rows@));
    proof {
        assert(units_view(units@) =~= units_of_rows(problems@, pages@, sv)) by {
            assert forall|q: int| 0 <= q < n implies #[trigger] units_view(units@)[q] == units_of_rows(problems@, pages@, sv)[q] by {
                assert(sv[q] == rows_view(scores@[q]@));
            }
        }
        assert(units_shaped(pages@, units_view(units@), m as int)) by {
            assert forall|q: int| 0 <= q < pages.len() && !is_absent(pages@[q]) implies (#[trigger] units_view(units@)[q]).len() == m by {
                assert(units_view(units@)[q] == units@[q]@);
            }
        }
    }
    let r = assemble_export(exam, &problems, &students, &pages, &units);
    match r {
        Ok(d) => {
            assert(export_matches(d, d.exam, problems@, students@, pages@, units_view(units@)));
            assert(export_of_rows(d, problems@, students@, pages@, sv));
            let res: Result<ExportData, GradeError> = Ok(d);
            assert(res->Ok_0 == d);
            res
        },
        Err(e) => {
            Err(e)
        },
    }
}

} // verus!

verus! {

/// A student's line is complete only when every one of the student's units
/// is graded: a present student with a unit in any other state (flagged,
/// whose score is provisional, or ungraded) is not complete, and then the
/// export gives no ranking and no rank to anyone. A present student whose
/// units are all graded is complete.
pub proof fn lemma_complete_means_all_graded(
    d: ExportData,
    exam: ExamInfo,
    problems: Seq<Problem>,
    students: Seq<Student>,
    pages: Seq<i64>,
    units: Seq<Seq<UnitScore>>,
    i: int,
)
    requires
        pages.len() == students.len(),
        export_matches(d, exam, problems, students, pages, units),
        0 <= i < students.len(),
    ensures
        d.rows@[i].complete <==> (pages[i] != 0 && forall|j: int|
            0 <= j < problems.len() ==> unit_state(#[trigger] units[i][j]) == ScoreState::Graded),
        (pages[i] != 0 && exists|j: int|
            0 <= j < problems.len() && unit_state(#[trigger] units[i][j]) != ScoreState::Graded) ==> {
            &&& !d.ranking_available
            &&& forall|k: int| 0 <= k < students.len() ==> (#[trigger] d.rows@[k]).rank is None
        },
{
    let keys = d.rows@.map_values(|r: StudentRow| row_key(r));
    assert(row_matches(d.rows@[i], students[i], pages[i], units[i], problems.len() as int));
    if pages[i] != 0 && exists|j: int|
        0 <= j < problems.len() && unit_state(#[trigger] units[i][j]) != ScoreState::Graded {
        assert(!d.rows@[i].complete);
        assert(keys[i] == row_key(d.rows@[i]));
        assert(!keys[i].0 && !keys[i].2);
        assert(!ranking_available(keys));
        assert forall|k: int| 0 <= k < students.len() implies (#[trigger] d.rows@[k]).rank is None by {
            assert(d.rows@[k].rank == competition_rank(keys, k));
        }
    }
}

} // verus!
