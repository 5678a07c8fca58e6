# grading_core

The core of a desk application for grading scanned exam papers: an exam with
its problems and one-key score presets, the student roster (read from CSV),
scanned pages taken in from a folder and labelled by student and problem,
a grading queue per problem, and a summary export with totals, ranking,
per-problem figures and coverage. Everything is kept in one SQLite file per
exam.

Layout:

- `src/` — the library, verified with Verus. The database is reached
  through rusqlite behind small trusted wrappers in `src/db.rs`, whose
  contracts say nothing of what SQLite stores or returns. What the library
  computes from the rows it reads (export tables and ranking, labelling
  summary, grading queue, row decoding) and the values it binds to its
  inserts and updates (roster import, problems with their presets, page
  labels) are verified against specifications, as are CSV reading and the
  natural file order. Which rows a database holds, and so what a query
  gives back after a write, is not modelled.
- `tests/` — tests of the library against an in-memory database.
- `app/` — the desktop shell: Tauri commands, file and folder access, and
  JSON copies of the library's records.
