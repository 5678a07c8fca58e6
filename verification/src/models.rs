//! The records of the grading desk: problems, presets, students, grading
//! units, pages and the export, and the three states of a grading unit.

use vstd::prelude::*;
use crate::text::chars_equal_str;
use crate::text::chars_of;

verus! {

/// A problem of an exam: its number on the paper, title, full marks and
/// optional marking scheme (Markdown).
#[derive(Clone, Debug, PartialEq)]
pub struct Problem {
    pub id: i64,
    pub number: i64,
    pub title: String,
    pub max_score: i64,
    pub rubric: Option<String>,
}

/// A one-key score preset of a problem: key `slot` gives `points`.
#[derive(Clone, Debug, PartialEq)]
pub struct Preset {
    pub id: i64,
    pub slot: i64,
    pub label: String,
    pub points: i64,
}

/// A student on the roster of an exam.
#[derive(Clone, Debug, PartialEq)]
pub struct Student {
    pub id: i64,
    pub name: String,
    pub exam_number: Option<String>,
    pub roster_order: Option<i64>,
}

/// One line of an imported roster.
#[derive(Clone, Debug, PartialEq)]
pub struct RosterRow {
    pub name: String,
    pub exam_number: Option<String>,
}

/// The three states of one grading unit (one student, one problem).
#[derive(Clone, Copy, Debug, PartialEq, Eq, Structural)]
pub enum ScoreState {
    Ungraded,
    Flagged,
    Graded,
}

/// The stored name of a state, as it is written to `score.state`.
pub open spec fn state_name(s: ScoreState) -> Seq<char> {
    match s {
        ScoreState::Ungraded => "Ungraded"@,
        ScoreState::Flagged => "Flagged"@,
        ScoreState::Graded => "Graded"@,
    }
}

/// Reading a stored state back: the two known names map to their state,
/// anything else is `Ungraded`.
pub open spec fn state_of_name(s: Seq<char>) -> ScoreState {
    if s == "Flagged"@ {
        ScoreState::Flagged
    } else if s == "Graded"@ {
        ScoreState::Graded
    } else {
        ScoreState::Ungraded
    }
}

impl ScoreState {
    pub fn as_str(self) -> (r: &'static str)
        ensures
            r@ == state_name(self),
    {
        match self {
            ScoreState::Ungraded => "Ungraded",
            ScoreState::Flagged => "Flagged",
            ScoreState::Graded => "Graded",
        }
    }

    /// Reads a stored state; an unknown name reads as `Ungraded`.
    pub fn from_str(s: &str) -> (r: ScoreState)
        ensures
            r == state_of_name(s@),
    {
        let v = chars_of(s);
        if chars_equal_str(v.as_slice(), "Flagged") {
            ScoreState::Flagged
        } else if chars_equal_str(v.as_slice(), "Graded") {
            ScoreState::Graded
        } else {
            ScoreState::Ungraded
        }
    }
}

/// One grading unit: the pages of one student for one problem and the score
/// given so far.
#[derive(Clone, Debug, PartialEq)]
pub struct GradingUnit {
    pub student_id: i64,
    pub student_name: String,
    pub problem_id: i64,
    pub problem_number: i64,
    pub pages: Vec<String>,
    pub total: Option<i64>,
    pub state: ScoreState,
    pub preset_id: Option<i64>,
}

/// A page of a student, with the problem it answers (0 for the name page).
#[derive(Clone, Debug, PartialEq)]
pub struct PageRef {
    pub problem_number: i64,
    pub image_path: String,
}

/// The exam itself.
#[derive(Clone, Debug, PartialEq)]
pub struct ExamInfo {
    pub id: i64,
    pub name: String,
    pub date: String,
}

/// One cell of the export table: a score and the name of its state
/// (`Absent` for a student with no pages).
#[derive(Clone, Debug, PartialEq)]
pub struct Cell {
    pub total: Option<i64>,
    pub state: String,
}

/// One student's line of the export table.
#[derive(Clone, Debug, PartialEq)]
pub struct StudentRow {
    pub student_id: i64,
    pub name: String,
    pub exam_number: Option<String>,
    pub absent: bool,
    pub cells: Vec<Cell>,
    pub total: Option<i64>,
    pub complete: bool,
    pub rank: Option<i64>,
}

/// Per-problem figures of the export: how many present students have a
/// score (graded or flagged) and the sum of those scores. The average is
/// `score_sum / scored_count` and the rate that average over `max_score`.
#[derive(Clone, Debug, PartialEq)]
pub struct ProblemStat {
    pub number: i64,
    pub max_score: i64,
    pub scored_count: i64,
    pub score_sum: i64,
}

/// How far grading has come: roster size, absent students, and the grading
/// units of present students by state.
#[derive(Clone, Debug, PartialEq)]
pub struct Coverage {
    pub roster: i64,
    pub absent: i64,
    pub units_total: i64,
    pub graded: i64,
    pub flagged: i64,
    pub ungraded: i64,
}

/// A scanned page as stored: its scan position, file, and label.
#[derive(Clone, Debug, PartialEq)]
pub struct PageRow {
    pub id: i64,
    pub seq: i64,
    pub image_path: String,
    pub student_id: Option<i64>,
    pub problem_number: Option<i64>,
    pub status: String,
}

/// The page stack of one present student, checked against the number of
/// problems.
#[derive(Clone, Debug, PartialEq)]
pub struct StackRow {
    pub student_id: i64,
    pub student_name: String,
    pub answer_pages: i64,
    pub problem_count: i64,
    pub count_ok: bool,
}

/// Where labelling stands: the stacks of present students, the students with
/// no page at all, and the pages not yet given to a student.
#[derive(Clone, Debug, PartialEq)]
pub struct LabelSummary {
    pub stacks: Vec<StackRow>,
    pub absent_students: Vec<Student>,
    pub unlabeled_pages: i64,
}

/// Everything the summary export shows.
#[derive(Clone, Debug, PartialEq)]
pub struct ExportData {
    pub exam: ExamInfo,
    pub problem_numbers: Vec<i64>,
    pub problem_max: Vec<i64>,
    pub rows: Vec<StudentRow>,
    pub problem_stats: Vec<ProblemStat>,
    pub coverage: Coverage,
    pub ranking_available: bool,
}

/// Writing a state and reading it back gives the same state.
pub proof fn lemma_state_name_round_trip(s: ScoreState)
    ensures
        state_of_name(state_name(s)) == s,
{
    reveal_strlit("Ungraded");
    reveal_strlit("Flagged");
    reveal_strlit("Graded");
    assert("Ungraded"@ != "Flagged"@ && "Ungraded"@ != "Graded"@ && "Flagged"@ != "Graded"@) by {
        assert("Ungraded"@.len() != "Flagged"@.len());
        assert("Ungraded"@.len() != "Graded"@.len());
        assert("Flagged"@.len() != "Graded"@.len());
    }
}

} // verus!
