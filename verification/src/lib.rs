//! Core of an exam-grading desk: exams, problems, score presets, the student
//! roster, scanned answer pages, grading units, and the summary export.

pub mod models;
pub mod text;
pub mod ingest;

pub use models::{
    Cell, Coverage, ExamInfo, ExportData, GradingUnit, LabelSummary, PageRef, PageRow, Preset,
    Problem, ProblemStat, RosterRow, ScoreState, StackRow, Student, StudentRow,
};
pub mod setup;
pub mod db;
pub mod export;
pub mod persist;
pub mod grading;
pub mod label;
pub mod fake;
pub mod decode;
pub mod manage;
