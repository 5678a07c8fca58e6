//! Exam setup: problems with their score presets, and the student roster,
//! including the roster CSV reader.

use vstd::prelude::*;
use crate::models::{Preset, Problem, RosterRow, Student};
use crate::db::{
    id_params, text_pair_params, rows_view, text_param, opt_text_param, params_view,
    Db, GradeError, SqlParam, SqlValue, col_i64, col_opt_i64, col_string, col_opt_string, col_string_or_empty,
    execute, query_all, query_i64, sql_begin, sql_commit, sql_tx_conn, sql_last_insert_rowid, int_at,
    opt_int_at, text_at, opt_text_at, text_or_empty_at, is_int_at, is_opt_int_at, is_text_at,
    is_opt_text_at,
};
use crate::text::{
    is_white_space, trim_start_seq, trim_end_seq, trim_seq, lower_seq, chars_of, chars_equal_str, string_from_chars, trim_chars, lower_chars,
};

verus! {

/// The characters of each string.
pub open spec fn strings_view(v: Seq<String>) -> Seq<Seq<char>> {
    v.map_values(|s: String| s@)
}

/// The characters of an optional string.
pub open spec fn opt_view(o: Option<String>) -> Option<Seq<char>> {
    match o {
        Some(s) => Some(s@),
        None => None,
    }
}

/// Splitting at every `sep`, as `str::split` does: `k` separators give
/// `k + 1` pieces, empty ones included.
pub open spec fn split_from(
    s: Seq<char>,
    sep: char,
    pieces: Seq<Seq<char>>,
    cur: Seq<char>,
) -> Seq<Seq<char>>
    decreases s.len(),
{
    if s.len() == 0 {
        pieces.push(cur)
    } else if s[0] == sep {
        split_from(s.drop_first(), sep, pieces.push(cur), Seq::empty())
    } else {
        split_from(s.drop_first(), sep, pieces, cur.push(s[0]))
    }
}

pub open spec fn split_on(s: Seq<char>, sep: char) -> Seq<Seq<char>> {
    split_from(s, sep, Seq::empty(), Seq::empty())
}

/// The fields of one CSV line, read from `s` onward after `fields` were
/// completed and `cur` was started, inside quotes or not. A quote opens a
/// quoted field only at the start of a field; inside quotes a doubled quote
/// stands for one quote and a single quote closes; elsewhere a quote is an
/// ordinary character. Commas outside quotes end a field.
pub open spec fn csv_fields_from(
    s: Seq<char>,
    fields: Seq<Seq<char>>,
    cur: Seq<char>,
    in_quotes: bool,
) -> Seq<Seq<char>>
    decreases s.len(),
{
    if s.len() == 0 {
        fields.push(cur)
    } else if s[0] == '"' && in_quotes {
        if s.len() > 1 && s[1] == '"' {
            csv_fields_from(s.skip(2), fields, cur.push('"'), true)
        } else {
            csv_fields_from(s.drop_first(), fields, cur, false)
        }
    } else if s[0] == '"' && cur.len() == 0 {
        csv_fields_from(s.drop_first(), fields, cur, true)
    } else if s[0] == '"' {
        csv_fields_from(s.drop_first(), fields, cur.push('"'), in_quotes)
    } else if s[0] == ',' && !in_quotes {
        csv_fields_from(s.drop_first(), fields.push(cur), Seq::empty(), in_quotes)
    } else {
        csv_fields_from(s.drop_first(), fields, cur.push(s[0]), in_quotes)
    }
}

/// The fields of one CSV line.
pub open spec fn csv_fields(line: Seq<char>) -> Seq<Seq<char>> {
    csv_fields_from(line, Seq::empty(), Seq::empty(), false)
}

/// Splits `s` at every `sep`.
pub fn split_chars(s: &[char], sep: char) -> (pieces: Vec<Vec<char>>)
    ensures
        pieces@.map_values(|v: Vec<char>| v@) == split_on(s@, sep),
{
    let mut pieces: Vec<Vec<char>> = Vec::new();
    let mut cur: Vec<char> = Vec::new();
    let mut k: usize = 0;
    assert(s@.skip(0) =~= s@);
    assert(pieces@.map_values(|v: Vec<char>| v@) =~= Seq::<Seq<char>>::empty());
    while k < s.len()
        invariant
            k <= s.len(),
            split_on(s@, sep) == split_from(
                s@.skip(k as int),
                sep,
                pieces@.map_values(|v: Vec<char>| v@),
                cur@,
            ),
        decreases s.len() - k,
    {
        let c = s[k];
        assert(s@.skip(k as int).drop_first() =~= s@.skip(k + 1));
        if c == sep {
            let piece = cur;
            cur = Vec::new();
            let ghost before = pieces@;
            pieces.push(piece);
            assert(pieces@.map_values(|v: Vec<char>| v@) =~= before.map_values(|v: Vec<char>| v@).push(piece@));
            assert(cur@ =~= Seq::<char>::empty());
        } else {
            cur.push(c);
        }
        k = k + 1;
    }
    assert(s@.skip(k as int) =~= Seq::<char>::empty());
    let ghost before = pieces@;
    let last = cur;
    pieces.push(last);
    assert(pieces@.map_values(|v: Vec<char>| v@) =~= before.map_values(|v: Vec<char>| v@).push(last@));
    pieces
}

/// Splits one CSV line into fields. Quoted fields may hold commas, and a
/// doubled quote inside them stands for one quote; a quote in the middle of
/// an unquoted field is kept as it is and does not hide the comma after it.
pub fn parse_csv_line(line: &str) -> (fields: Vec<String>)
    ensures
        strings_view(fields@) == csv_fields(line@),
{
    let s = chars_of(line);
    parse_csv_chars(s.as_slice())
}

fn parse_csv_chars(s: &[char]) -> (fields: Vec<String>)
    ensures
        strings_view(fields@) == csv_fields(s@),
{
    let mut fields: Vec<String> = Vec::new();
    let mut cur: Vec<char> = Vec::new();
    let mut in_quotes = false;
    let mut k: usize = 0;
    assert(s@.skip(0) =~= s@);
    assert(strings_view(fields@) =~= Seq::<Seq<char>>::empty());
    while k < s.len()
        invariant
            k <= s.len(),
            csv_fields(s@) == csv_fields_from(
                s@.skip(k as int),
                strings_view(fields@),
                cur@,
                in_quotes,
            ),
        decreases s.len() - k,
    {
        let c = s[k];
        let ghost rest = s@.skip(k as int);
        assert(rest.drop_first() =~= s@.skip(k + 1));
        if c == '"' && in_quotes {
            if k + 1 < s.len() && s[k + 1] == '"' {
                assert(rest.skip(2) =~= s@.skip(k + 2));
                cur.push('"');
                k = k + 2;
            } else {
                in_quotes = false;
                k = k + 1;
            }
        } else if c == '"' && cur.len() == 0 {
            in_quotes = true;
            k = k + 1;
        } else if c == '"' {
            cur.push('"');
            k = k + 1;
        } else if c == ',' && !in_quotes {
            let field = string_from_chars(cur.as_slice());
            let ghost before = fields@;
            fields.push(field);
            assert(strings_view(fields@) =~= strings_view(before).push(cur@));
            cur = Vec::new();
            assert(cur@ =~= Seq::<char>::empty());
            k = k + 1;
        } else {
            cur.push(c);
            k = k + 1;
        }
    }
    assert(s@.skip(k as int) =~= Seq::<char>::empty());
    let field = string_from_chars(cur.as_slice());
    let ghost before = fields@;
    fields.push(field);
    assert(strings_view(fields@) =~= strings_view(before).push(cur@));
    fields
}


/// `s` without a leading byte-order mark.
pub open spec fn strip_bom(s: Seq<char>) -> Seq<char> {
    if s.len() > 0 && s[0] == '\u{feff}' {
        s.drop_first()
    } else {
        s
    }
}

/// A line without its trailing carriage return.
pub open spec fn strip_cr(l: Seq<char>) -> Seq<char> {
    if l.len() > 0 && l.last() == '\r' {
        l.drop_last()
    } else {
        l
    }
}

/// Field `i` of `fields`, trimmed, or empty where the line has fewer fields.
pub open spec fn trimmed_field(fields: Seq<Seq<char>>, i: int) -> Seq<char> {
    if 0 <= i < fields.len() {
        trim_seq(fields[i])
    } else {
        Seq::empty()
    }
}

/// A header line: the first column is named 姓名, name or 名字, or the second
/// 学号, 考号, number or exam_number (ASCII case ignored).
pub open spec fn is_roster_header(name: Seq<char>, number: Seq<char>) -> bool {
    let n = lower_seq(name);
    let m = lower_seq(number);
    n == "姓名"@ || n == "name"@ || n == "名字"@ || m == "学号"@ || m == "考号"@ || m == "number"@
        || m == "exam_number"@
}

/// The roster rows of `lines`; `first` while no non-blank line was seen.
pub open spec fn roster_rows_from(lines: Seq<Seq<char>>, first: bool) -> Seq<
    (Seq<char>, Option<Seq<char>>),
>
    decreases lines.len(),
{
    if lines.len() == 0 {
        Seq::empty()
    } else {
        let line = strip_cr(lines[0]);
        let rest = lines.drop_first();
        if trim_seq(line).len() == 0 {
            roster_rows_from(rest, first)
        } else {
            let fields = csv_fields(line);
            let name = trimmed_field(fields, 0);
            let number = trimmed_field(fields, 1);
            if first && is_roster_header(name, number) {
                roster_rows_from(rest, false)
            } else if name.len() == 0 {
                roster_rows_from(rest, false)
            } else {
                seq![(name, if number.len() == 0 { None } else { Some(number) })]
                    + roster_rows_from(rest, false)
            }
        }
    }
}

/// The roster that a CSV text describes: name and exam number of each line
/// that has a name, after the byte-order mark, blank lines and a header on
/// the first non-blank line are dropped.
pub open spec fn roster_rows(text: Seq<char>) -> Seq<(Seq<char>, Option<Seq<char>>)> {
    roster_rows_from(split_on(strip_bom(text), '\n'), true)
}

/// Lines that differ only in a trailing carriage return read as the same
/// roster.
proof fn lemma_roster_same_lines(lines: Seq<Seq<char>>, other: Seq<Seq<char>>, first: bool)
    requires
        other.len() == lines.len(),
        forall|i: int| 0 <= i < lines.len() ==> strip_cr(#[trigger] other[i]) == strip_cr(lines[i]),
    ensures
        roster_rows_from(other, first) == roster_rows_from(lines, first),
    decreases lines.len(),
{
    if lines.len() > 0 {
        assert(strip_cr(other[0]) == strip_cr(lines[0]));
        assert forall|i: int| 0 <= i < lines.drop_first().len() implies strip_cr(
            #[trigger] other.drop_first()[i],
        ) == strip_cr(lines.drop_first()[i]) by {
            assert(other.drop_first()[i] == other[i + 1]);
            assert(lines.drop_first()[i] == lines[i + 1]);
        }
        lemma_roster_same_lines(lines.drop_first(), other.drop_first(), first);
        lemma_roster_same_lines(lines.drop_first(), other.drop_first(), false);
    }
}

/// Blank lines before the roster change nothing, the header check
/// included: it applies to the first line that is not blank.
pub proof fn lemma_roster_leading_blank(blank: Seq<Seq<char>>, lines: Seq<Seq<char>>, first: bool)
    requires
        forall|i: int| 0 <= i < blank.len() ==> trim_seq(strip_cr(#[trigger] blank[i])).len() == 0,
    ensures
        roster_rows_from(blank + lines, first) == roster_rows_from(lines, first),
    decreases blank.len(),
{
    if blank.len() > 0 {
        assert((blank + lines)[0] == blank[0]);
        assert((blank + lines).drop_first() =~= blank.drop_first() + lines);
        lemma_roster_leading_blank(blank.drop_first(), lines, first);
    } else {
        assert(blank + lines =~= lines);
    }
}

/// A byte-order mark at the start of the text changes nothing.
pub proof fn lemma_roster_bom(text: Seq<char>)
    requires
        !(text.len() > 0 && text[0] == '\u{feff}'),
    ensures
        roster_rows(seq!['\u{feff}'] + text) == roster_rows(text),
{
    assert((seq!['\u{feff}'] + text).drop_first() =~= text);
}

/// Every character of `s` satisfies `p`.
pub open spec fn all_chars(s: Seq<char>, p: spec_fn(char) -> bool) -> bool {
    forall|i: int| 0 <= i < s.len() ==> p(#[trigger] s[i])
}

/// Every character of every piece satisfies `p`.
pub open spec fn all_pieces(pieces: Seq<Seq<char>>, p: spec_fn(char) -> bool) -> bool {
    forall|k: int| 0 <= k < pieces.len() ==> all_chars(#[trigger] pieces[k], p)
}

/// Splitting keeps to the characters it is given.
proof fn lemma_split_chars(s: Seq<char>, sep: char, pieces: Seq<Seq<char>>, cur: Seq<char>, p: spec_fn(char) -> bool)
    requires
        all_chars(s, p),
        all_pieces(pieces, p),
        all_chars(cur, p),
    ensures
        all_pieces(split_from(s, sep, pieces, cur), p),
    decreases s.len(),
{
    if s.len() == 0 {
        assert forall|k: int| 0 <= k < pieces.push(cur).len() implies all_chars(#[trigger] pieces.push(cur)[k], p) by {
            if k < pieces.len() {
                assert(pieces.push(cur)[k] == pieces[k]);
            }
        }
    } else {
        assert(p(s[0]));
        let rest = s.drop_first();
        assert(all_chars(rest, p)) by {
            assert forall|i: int| 0 <= i < rest.len() implies p(#[trigger] rest[i]) by {
                assert(rest[i] == s[i + 1]);
            }
        }
        if s[0] == sep {
            assert forall|k: int| 0 <= k < pieces.push(cur).len() implies all_chars(#[trigger] pieces.push(cur)[k], p) by {
                if k < pieces.len() {
                    assert(pieces.push(cur)[k] == pieces[k]);
                }
            }
            lemma_split_chars(rest, sep, pieces.push(cur), Seq::empty(), p);
        } else {
            assert(all_chars(cur.push(s[0]), p)) by {
                assert forall|i: int| 0 <= i < cur.push(s[0]).len() implies p(#[trigger] cur.push(s[0])[i]) by {
                    if i < cur.len() {
                        assert(cur.push(s[0])[i] == cur[i]);
                    }
                }
            }
            lemma_split_chars(rest, sep, pieces, cur.push(s[0]), p);
        }
    }
}

/// The pieces already completed stay in front.
proof fn lemma_split_keeps(s: Seq<char>, sep: char, pieces: Seq<Seq<char>>, cur: Seq<char>)
    ensures
        split_from(s, sep, pieces, cur) == pieces + split_from(s, sep, Seq::empty(), cur),
    decreases s.len(),
{
    if s.len() == 0 {
        assert(pieces.push(cur) =~= pieces + Seq::<Seq<char>>::empty().push(cur));
    } else if s[0] == sep {
        let rest = s.drop_first();
        lemma_split_keeps(rest, sep, pieces.push(cur), Seq::empty());
        lemma_split_keeps(rest, sep, Seq::<Seq<char>>::empty().push(cur), Seq::empty());
        assert(pieces.push(cur) + split_from(rest, sep, Seq::empty(), Seq::empty()) =~= pieces + (
        Seq::<Seq<char>>::empty().push(cur) + split_from(rest, sep, Seq::empty(), Seq::empty())));
    } else {
        lemma_split_keeps(s.drop_first(), sep, pieces, cur.push(s[0]));
    }
}

/// Text that ends with the separator splits into its own pieces, followed
/// by those of what comes after it.
proof fn lemma_split_prefix(b: Seq<char>, t: Seq<char>, sep: char, pieces: Seq<Seq<char>>, cur: Seq<char>)
    requires
        b.len() > 0,
        b.last() == sep,
    ensures
        split_from(b + t, sep, pieces, cur) == split_from(b, sep, pieces, cur).drop_last() + split_from(
            t,
            sep,
            Seq::empty(),
            Seq::empty(),
        ),
    decreases b.len(),
{
    let bt = b + t;
    assert(bt[0] == b[0]);
    if b.len() == 1 {
        assert(b[0] == sep);
        assert(bt.drop_first() =~= t);
        assert(b.drop_first() =~= Seq::<char>::empty());
        assert(split_from(bt, sep, pieces, cur) == split_from(t, sep, pieces.push(cur), Seq::empty()));
        assert(split_from(b, sep, pieces, cur) == split_from(b.drop_first(), sep, pieces.push(cur), Seq::empty()));
        assert(split_from(b.drop_first(), sep, pieces.push(cur), Seq::empty()) == pieces.push(cur).push(
            Seq::<char>::empty(),
        ));
        lemma_split_keeps(t, sep, pieces.push(cur), Seq::empty());
        assert(pieces.push(cur).push(Seq::<char>::empty()).drop_last() =~= pieces.push(cur));
    } else {
        assert(bt.drop_first() =~= b.drop_first() + t);
        assert(b.drop_first().last() == b.last());
        if b[0] == sep {
            lemma_split_prefix(b.drop_first(), t, sep, pieces.push(cur), Seq::empty());
        } else {
            lemma_split_prefix(b.drop_first(), t, sep, pieces, cur.push(b[0]));
        }
    }
}

/// `t` with a carriage return put before every line feed.
pub open spec fn crlf(t: Seq<char>) -> Seq<char>
    decreases t.len(),
{
    if t.len() == 0 {
        Seq::empty()
    } else {
        (if t[0] == '\n' {
            seq!['\r', '\n']
        } else {
            seq![t[0]]
        }) + crlf(t.drop_first())
    }
}

/// Each line with a carriage return at its end.
pub open spec fn add_cr(lines: Seq<Seq<char>>) -> Seq<Seq<char>> {
    lines.map_values(|l: Seq<char>| l.push('\r'))
}

/// The lines of `crlf(s)` are those of `s`, each but the last with a
/// carriage return at its end.
proof fn lemma_split_crlf(s: Seq<char>, pieces: Seq<Seq<char>>, cur: Seq<char>)
    ensures
        split_from(s, '\n', pieces, cur).len() > 0,
        split_from(crlf(s), '\n', add_cr(pieces), cur) == add_cr(split_from(s, '\n', pieces, cur).drop_last()).push(
            split_from(s, '\n', pieces, cur).last(),
        ),
    decreases s.len(),
{
    let x = crlf(s);
    if s.len() == 0 {
        assert(x =~= Seq::<char>::empty());
        assert(pieces.push(cur).drop_last() =~= pieces);
    } else {
        let rest = s.drop_first();
        if s[0] == '\n' {
            assert(x =~= seq!['\r', '\n'] + crlf(rest));
            assert(x[0] == '\r');
            let y = x.drop_first();
            assert(y =~= seq!['\n'] + crlf(rest));
            assert(y[0] == '\n');
            assert(y.drop_first() =~= crlf(rest));
            assert(add_cr(pieces).push(cur.push('\r')) =~= add_cr(pieces.push(cur)));
            assert(split_from(x, '\n', add_cr(pieces), cur) == split_from(y, '\n', add_cr(pieces), cur.push('\r')));
            assert(split_from(y, '\n', add_cr(pieces), cur.push('\r')) == split_from(
                crlf(rest),
                '\n',
                add_cr(pieces).push(cur.push('\r')),
                Seq::empty(),
            ));
            assert(split_from(s, '\n', pieces, cur) == split_from(rest, '\n', pieces.push(cur), Seq::empty()));
            lemma_split_crlf(rest, pieces.push(cur), Seq::empty());
        } else {
            assert(x =~= seq![s[0]] + crlf(rest));
            assert(x[0] == s[0]);
            assert(x.drop_first() =~= crlf(rest));
            assert(split_from(x, '\n', add_cr(pieces), cur) == split_from(crlf(rest), '\n', add_cr(pieces), cur.push(s[0])));
            assert(split_from(s, '\n', pieces, cur) == split_from(rest, '\n', pieces, cur.push(s[0])));
            lemma_split_crlf(rest, pieces, cur.push(s[0]));
        }
    }
}

/// A text without a carriage return has none after the byte-order mark is
/// dropped, and putting carriage returns in commutes with dropping it.
proof fn lemma_crlf_bom(t: Seq<char>)
    ensures
        strip_bom(crlf(t)) == crlf(strip_bom(t)),
{
    if t.len() > 0 {
        let x = crlf(t);
        if t[0] == '\n' {
            assert(x =~= seq!['\r', '\n'] + crlf(t.drop_first()));
            assert(x[0] == '\r');
        } else {
            assert(x =~= seq![t[0]] + crlf(t.drop_first()));
            assert(x[0] == t[0]);
            assert(x.drop_first() =~= crlf(t.drop_first()));
        }
    }
}

/// CRLF line ends read as the same roster as LF line ends: putting a
/// carriage return before every line feed of a text that has none changes
/// nothing.
pub proof fn lemma_roster_text_crlf(t: Seq<char>)
    requires
        !t.contains('\r'),
    ensures
        roster_rows(crlf(t)) == roster_rows(t),
{
    let u = strip_bom(t);
    lemma_crlf_bom(t);
    let no_cr = |c: char| c != '\r';
    assert(all_chars(u, no_cr)) by {
        assert forall|i: int| 0 <= i < u.len() implies no_cr(#[trigger] u[i]) by {
            if u[i] == '\r' {
                if t.len() > 0 && t[0] == '\u{feff}' {
                    assert(t[i + 1] == u[i]);
                } else {
                    assert(t[i] == u[i]);
                }
                assert(t.contains('\r'));
            }
        }
    }
    let q = split_from(u, '\n', Seq::empty(), Seq::empty());
    lemma_split_chars(u, '\n', Seq::empty(), Seq::empty(), no_cr);
    lemma_split_crlf(u, Seq::empty(), Seq::empty());
    assert(add_cr(Seq::<Seq<char>>::empty()) =~= Seq::<Seq<char>>::empty());
    let other = add_cr(q.drop_last()).push(q.last());
    assert forall|i: int| 0 <= i < q.len() implies strip_cr(#[trigger] other[i]) == strip_cr(q[i]) by {
        assert(all_chars(q[i], no_cr));
        if q[i].len() > 0 {
            assert(no_cr(q[i][q[i].len() - 1]));
        }
        if i < q.len() - 1 {
            assert(other[i] == q[i].push('\r'));
            assert(q[i].push('\r').drop_last() =~= q[i]);
        }
    }
    lemma_roster_same_lines(q, other, true);
}

/// All of `s` is whitespace, so trimming leaves nothing.
proof fn lemma_trim_blank(s: Seq<char>)
    requires
        forall|i: int| 0 <= i < s.len() ==> is_white_space(#[trigger] s[i]),
    ensures
        trim_seq(s).len() == 0,
    decreases s.len(),
{
    if s.len() > 0 {
        let rest = s.drop_first();
        assert forall|i: int| 0 <= i < rest.len() implies is_white_space(#[trigger] rest[i]) by {
            assert(rest[i] == s[i + 1]);
        }
        lemma_trim_blank(rest);
        assert(is_white_space(s[0]));
    }
}

/// Blank lines before a roster text change nothing: `b`, made of
/// whitespace and ending with a line feed, in front of a text `t` that does
/// not start with a byte-order mark.
pub proof fn lemma_roster_text_leading_blank(b: Seq<char>, t: Seq<char>)
    requires
        b.len() > 0,
        b.last() == '\n',
        forall|i: int| 0 <= i < b.len() ==> is_white_space(#[trigger] b[i]),
        !(t.len() > 0 && t[0] == '\u{feff}'),
    ensures
        roster_rows(b + t) == roster_rows(t),
{
    let bt = b + t;
    assert(bt[0] == b[0]);
    assert(is_white_space(b[0]));
    assert(strip_bom(bt) == bt);
    assert(strip_bom(t) == t);
    lemma_split_prefix(b, t, '\n', Seq::empty(), Seq::empty());
    let white = |c: char| is_white_space(c);
    assert(all_chars(b, white)) by {
        assert forall|i: int| 0 <= i < b.len() implies white(#[trigger] b[i]) by {}
    }
    lemma_split_chars(b, '\n', Seq::empty(), Seq::empty(), white);
    lemma_split_crlf(b, Seq::empty(), Seq::empty());
    let blank = split_from(b, '\n', Seq::empty(), Seq::empty()).drop_last();
    assert forall|i: int| 0 <= i < blank.len() implies trim_seq(strip_cr(#[trigger] blank[i])).len() == 0 by {
        let l = blank[i];
        assert(l == split_from(b, '\n', Seq::empty(), Seq::empty())[i]);
        assert(all_chars(l, white));
        let m = strip_cr(l);
        assert forall|k: int| 0 <= k < m.len() implies is_white_space(#[trigger] m[k]) by {
            assert(m[k] == l[k]);
            assert(white(l[k]));
        }
        lemma_trim_blank(m);
    }
    lemma_roster_leading_blank(blank, split_from(t, '\n', Seq::empty(), Seq::empty()), true);
}

/// A roster row as characters.
pub open spec fn roster_row_view(r: RosterRow) -> (Seq<char>, Option<Seq<char>>) {
    (r.name@, opt_view(r.exam_number))
}

fn is_header_fields(name: &[char], number: &[char]) -> (r: bool)
    ensures
        r == is_roster_header(name@, number@),
{
    let n = lower_chars(name);
    let m = lower_chars(number);
    chars_equal_str(n.as_slice(), "姓名") || chars_equal_str(n.as_slice(), "name")
        || chars_equal_str(n.as_slice(), "名字") || chars_equal_str(m.as_slice(), "学号")
        || chars_equal_str(m.as_slice(), "考号") || chars_equal_str(m.as_slice(), "number")
        || chars_equal_str(m.as_slice(), "exam_number")
}

fn trimmed_field_of(fields: &Vec<String>, i: usize) -> (r: Vec<char>)
    ensures
        r@ == trimmed_field(strings_view(fields@), i as int),
{
    if i < fields.len() {
        let f = chars_of(fields[i].as_str());
        trim_chars(f.as_slice())
    } else {
        Vec::new()
    }
}

/// Reads a roster CSV: first column the name, second the exam number, other
/// columns ignored. A byte-order mark, CRLF line ends and blank lines are
/// tolerated, quoted fields are understood, and the first non-blank line is
/// skipped when it looks like a header.
pub fn parse_roster_csv(text: &str) -> (rows: Vec<RosterRow>)
    ensures
        rows@.map_values(|r: RosterRow| roster_row_view(r)) == roster_rows(text@),
{
    let all = chars_of(text);
    let mut body: Vec<char> = Vec::new();
    let mut k: usize = if all.len() > 0 && all[0] == '\u{feff}' { 1 } else { 0 };
    let start = k;
    while k < all.len()
        invariant
            start <= k <= all.len(),
            start == (if all@.len() > 0 && all@[0] == '\u{feff}' { 1int } else { 0int }),
            body@ == all@.subrange(start as int, k as int),
        decreases all.len() - k,
    {
        body.push(all[k]);
        k = k + 1;
        assert(body@ =~= all@.subrange(start as int, k as int));
    }
    assert(body@ =~= strip_bom(text@));
    let lines = split_chars(body.as_slice(), '\n');
    let ghost lines_view = lines@.map_values(|v: Vec<char>| v@);
    let mut out: Vec<RosterRow> = Vec::new();
    let mut first = true;
    let mut i: usize = 0;
    assert(lines_view.skip(0) =~= lines_view);
    assert(out@.map_values(|r: RosterRow| roster_row_view(r)) =~= Seq::<(Seq<char>, Option<Seq<char>>)>::empty());
    while i < lines.len()
        invariant
            i <= lines.len(),
            lines_view == lines@.map_values(|v: Vec<char>| v@),
            roster_rows(text@) == out@.map_values(|r: RosterRow| roster_row_view(r))
                + roster_rows_from(lines_view.skip(i as int), first),
        decreases lines.len() - i,
    {
        let raw = &lines[i];
        let ghost rest = lines_view.skip(i as int);
        assert(rest[0] == raw@);
        assert(rest.drop_first() =~= lines_view.skip(i + 1));
        let end = if raw.len() > 0 && raw[raw.len() - 1] == '\r' { raw.len() - 1 } else { raw.len() };
        let line = crate::text::prefix(raw.as_slice(), end);
        assert(line@ =~= strip_cr(raw@));
        let trimmed = trim_chars(line.as_slice());
        if trimmed.len() == 0 {
            i = i + 1;
            continue;
        }
        let fields = parse_csv_chars(line.as_slice());
        let name = trimmed_field_of(&fields, 0);
        let number = trimmed_field_of(&fields, 1);
        if first {
            first = false;
            if is_header_fields(name.as_slice(), number.as_slice()) {
                i = i + 1;
                continue;
            }
        }
        if name.len() == 0 {
            i = i + 1;
            continue;
        }
        let row = RosterRow {
            name: string_from_chars(name.as_slice()),
            exam_number: if number.len() == 0 {
                None
            } else {
                Some(string_from_chars(number.as_slice()))
            },
        };
        let ghost before = out@;
        out.push(row);
        proof {
            let f = |r: RosterRow| roster_row_view(r);
            assert(out@.map_values(f) =~= before.map_values(f).push(roster_row_view(row)));
        }
        i = i + 1;
    }
    assert(lines_view.skip(i as int) =~= Seq::<Seq<char>>::empty());
    assert(out@.map_values(|r: RosterRow| roster_row_view(r)) + Seq::<(Seq<char>, Option<Seq<char>>)>::empty() =~= out@.map_values(|r: RosterRow| roster_row_view(r)));
    out
}


proof fn lemma_csv_without_quotes_from(
    s: Seq<char>,
    fields: Seq<Seq<char>>,
    cur: Seq<char>,
)
    requires
        !s.contains('"'),
    ensures
        csv_fields_from(s, fields, cur, false) == split_from(s, ',', fields, cur),
    decreases s.len(),
{
    if s.len() > 0 {
        assert(s[0] != '"') by {
            assert(s.contains(s[0]));
        }
        let t = s.drop_first();
        assert(!t.contains('"')) by {
            if t.contains('"') {
                let k = choose|k: int| 0 <= k < t.len() && t[k] == '"';
                assert(s[k + 1] == '"');
            }
        }
        if s[0] == ',' {
            lemma_csv_without_quotes_from(t, fields.push(cur), Seq::empty());
        } else {
            lemma_csv_without_quotes_from(t, fields, cur.push(s[0]));
        }
    }
}

/// A line without quotes is split at every comma.
pub proof fn lemma_csv_without_quotes(line: Seq<char>)
    requires
        !line.contains('"'),
    ensures
        csv_fields(line) == split_on(line, ','),
{
    lemma_csv_without_quotes_from(line, Seq::empty(), Seq::empty());
}

/// Every roster row that the reader gives has a name, and an exam number
/// that is either missing or not empty.
pub proof fn lemma_roster_rows_named(lines: Seq<Seq<char>>, first: bool)
    ensures
        forall|k: int|
            0 <= k < roster_rows_from(lines, first).len() ==> {
                let row = #[trigger] roster_rows_from(lines, first)[k];
                &&& row.0.len() > 0
                &&& row.1 matches Some(n) ==> n.len() > 0
            },
    decreases lines.len(),
{
    if lines.len() > 0 {
        let rest = lines.drop_first();
        lemma_roster_rows_named(rest, first);
        lemma_roster_rows_named(rest, false);
    }
}


/// `row` is the problem `p` as `SELECT id, number, title, max_score, rubric`
/// gives it.
pub open spec fn problem_row(row: Seq<SqlValue>, p: Problem) -> bool {
    &&& int_at(row, 0, p.id)
    &&& int_at(row, 1, p.number)
    &&& text_or_empty_at(row, 2, p.title)
    &&& int_at(row, 3, p.max_score)
    &&& opt_text_at(row, 4, p.rubric)
}

pub open spec fn problem_row_ok(row: Seq<SqlValue>) -> bool {
    is_int_at(row, 0) && is_int_at(row, 1) && is_opt_text_at(row, 2) && is_int_at(row, 3)
        && is_opt_text_at(row, 4)
}

/// The problem in a result row; a missing title reads as the empty string.
pub fn problem_from_row(row: &Vec<SqlValue>) -> (r: Result<Problem, GradeError>)
    ensures
        r is Ok <==> problem_row_ok(row@),
        r matches Ok(p) ==> problem_row(row@, p),
        r matches Err(e) ==> e is ColumnType,
{
    let id = col_i64(row, 0)?;
    let number = col_i64(row, 1)?;
    let title = col_string_or_empty(row, 2)?;
    let max_score = col_i64(row, 3)?;
    let rubric = col_opt_string(row, 4)?;
    Ok(Problem { id, number, title, max_score, rubric })
}

/// `row` is the preset `p` as `SELECT id, slot, label, points` gives it.
pub open spec fn preset_row(row: Seq<SqlValue>, p: Preset) -> bool {
    &&& int_at(row, 0, p.id)
    &&& int_at(row, 1, p.slot)
    &&& text_at(row, 2, p.label)
    &&& int_at(row, 3, p.points)
}

pub open spec fn preset_row_ok(row: Seq<SqlValue>) -> bool {
    is_int_at(row, 0) && is_int_at(row, 1) && is_text_at(row, 2) && is_int_at(row, 3)
}

/// The preset in a result row.
pub fn preset_from_row(row: &Vec<SqlValue>) -> (r: Result<Preset, GradeError>)
    ensures
        r is Ok <==> preset_row_ok(row@),
        r matches Ok(p) ==> preset_row(row@, p),
        r matches Err(e) ==> e is ColumnType,
{
    let id = col_i64(row, 0)?;
    let slot = col_i64(row, 1)?;
    let label = col_string(row, 2)?;
    let points = col_i64(row, 3)?;
    Ok(Preset { id, slot, label, points })
}

/// `row` is the student `s` as `SELECT id, name, exam_number, roster_order`
/// gives it.
pub open spec fn student_row(row: Seq<SqlValue>, s: Student) -> bool {
    &&& int_at(row, 0, s.id)
    &&& text_at(row, 1, s.name)
    &&& opt_text_at(row, 2, s.exam_number)
    &&& opt_int_at(row, 3, s.roster_order)
}

pub open spec fn student_row_ok(row: Seq<SqlValue>) -> bool {
    is_int_at(row, 0) && is_text_at(row, 1) && is_opt_text_at(row, 2) && is_opt_int_at(row, 3)
}

/// The student in a result row.
pub fn student_from_row(row: &Vec<SqlValue>) -> (r: Result<Student, GradeError>)
    ensures
        r is Ok <==> student_row_ok(row@),
        r matches Ok(s) ==> student_row(row@, s),
        r matches Err(e) ==> e is ColumnType,
{
    let id = col_i64(row, 0)?;
    let name = col_string(row, 1)?;
    let exam_number = col_opt_string(row, 2)?;
    let roster_order = col_opt_i64(row, 3)?;
    Ok(Student { id, name, exam_number, roster_order })
}

/// `ps` are the problems that `rows` hold, one per row, in order.
pub open spec fn problems_in_rows(rows: Seq<Seq<SqlValue>>, ps: Seq<Problem>) -> bool {
    rows.len() == ps.len() && forall|k: int| 0 <= k < ps.len() ==> problem_row(rows[k], #[trigger] ps[k])
}

/// `ps` are the presets that `rows` hold, one per row, in order.
pub open spec fn presets_in_rows(rows: Seq<Seq<SqlValue>>, ps: Seq<Preset>) -> bool {
    rows.len() == ps.len() && forall|k: int| 0 <= k < ps.len() ==> preset_row(rows[k], #[trigger] ps[k])
}

/// `ss` are the students that `rows` hold, one per row, in order.
pub open spec fn students_in_rows(rows: Seq<Seq<SqlValue>>, ss: Seq<Student>) -> bool {
    rows.len() == ss.len() && forall|k: int| 0 <= k < ss.len() ==> student_row(rows[k], #[trigger] ss[k])
}

/// Creates an exam and gives its id.
pub fn create_exam(db: &Db, name: &str, date: &str) -> (r: Result<i64, GradeError>)
    ensures
        r matches Err(e) ==> e is Sql,
{
    execute(
        &db.conn,
        "INSERT INTO exam(name, date) VALUES(?1, ?2)",
        text_pair_params(name, date).as_slice(),
    )?;
    Ok(sql_last_insert_rowid(&db.conn))
}

/// The key of the full-marks preset.
pub const FULL_MARKS_SLOT: i64 = 9;

/// The key of the zero preset (the backquote key).
pub const ZERO_SLOT: i64 = 0;

/// The values bound to the insert of a problem: exam, number, title and
/// full marks.
pub open spec fn problem_insert(exam_id: i64, number: i64, title: Seq<char>, max_score: i64, p: Seq<SqlParam>) -> bool {
    &&& p.len() == 4
    &&& p[0] == SqlParam::Integer(exam_id)
    &&& p[1] == SqlParam::Integer(number)
    &&& text_param(p[2], title)
    &&& p[3] == SqlParam::Integer(max_score)
}

/// The values bound to the insert of a preset: problem, key, label and
/// points.
pub open spec fn preset_insert(problem_id: i64, slot: i64, label: Seq<char>, points: i64, p: Seq<SqlParam>) -> bool {
    &&& p.len() == 4
    &&& p[0] == SqlParam::Integer(problem_id)
    &&& p[1] == SqlParam::Integer(slot)
    &&& text_param(p[2], label)
    &&& p[3] == SqlParam::Integer(points)
}

/// The presets every new problem starts with: full marks (`满分`) on key 9
/// and zero (`零分`) on key 0.
pub open spec fn auto_presets(problem_id: i64, max_score: i64, ps: Seq<Seq<SqlParam>>) -> bool {
    &&& ps.len() == 2
    &&& preset_insert(problem_id, FULL_MARKS_SLOT, "满分"@, max_score, ps[0])
    &&& preset_insert(problem_id, ZERO_SLOT, "零分"@, 0, ps[1])
}

/// The values bound to an insert into `score_preset`.
pub fn preset_params(problem_id: i64, slot: i64, label: &str, points: i64) -> (p: Vec<SqlParam>)
    ensures
        preset_insert(problem_id, slot, label@, points, p@),
        p@.len() == 4,
        p@[0] == SqlParam::Integer(problem_id),
        p@[1] == SqlParam::Integer(slot),
        p@[2] matches SqlParam::Text(s) && s@ == label@,
        p@[3] == SqlParam::Integer(points),
{
    let mut p: Vec<SqlParam> = Vec::new();
    p.push(SqlParam::Integer(problem_id));
    p.push(SqlParam::Integer(slot));
    p.push(SqlParam::Text(label.to_owned()));
    p.push(SqlParam::Integer(points));
    p
}

/// The values bound to the insert of a problem.
pub fn problem_insert_params(exam_id: i64, number: i64, title: &str, max_score: i64) -> (p: Vec<SqlParam>)
    ensures
        problem_insert(exam_id, number, title@, max_score, p@),
{
    let mut p: Vec<SqlParam> = Vec::new();
    p.push(SqlParam::Integer(exam_id));
    p.push(SqlParam::Integer(number));
    p.push(SqlParam::Text(title.to_owned()));
    p.push(SqlParam::Integer(max_score));
    p
}

/// The inserts of the two presets a new problem `problem_id` with full
/// marks `max_score` starts with.
pub fn auto_preset_params(problem_id: i64, max_score: i64) -> (ps: Vec<Vec<SqlParam>>)
    ensures
        auto_presets(problem_id, max_score, params_view(ps@)),
{
    let mut ps: Vec<Vec<SqlParam>> = Vec::new();
    ps.push(preset_params(problem_id, FULL_MARKS_SLOT, "满分", max_score));
    ps.push(preset_params(problem_id, ZERO_SLOT, "零分", 0));
    assert(params_view(ps@)[0] == ps@[0]@);
    assert(params_view(ps@)[1] == ps@[1]@);
    ps
}

/// Adds problem `number` to an exam, with its two automatic presets (full
/// marks on key 9, zero on key 0, as `auto_preset_params` gives them), all
/// in one transaction: either all three rows are stored or none is. Gives
/// the new problem's id.
pub fn add_problem(db: &Db, exam_id: i64, number: i64, title: &str, max_score: i64) -> (r: Result<i64, GradeError>)
    ensures
        r matches Err(e) ==> e is Sql,
{
    let tx = match sql_begin(&db.conn) {
        Ok(tx) => tx,
        Err(e) => return Err(GradeError::Sql(e)),
    };
    let pid = {
        let conn = sql_tx_conn(&tx);
        let problem = problem_insert_params(exam_id, number, title, max_score);
        execute(conn, "INSERT INTO problem(exam_id, number, title, max_score) VALUES(?1,?2,?3,?4)", problem.as_slice())?;
        let pid = sql_last_insert_rowid(conn);
        let presets = auto_preset_params(pid, max_score);
        let mut k: usize = 0;
        while k < presets.len()
            invariant
                k <= presets.len(),
            decreases presets.len() - k,
        {
            execute(
                conn,
                "INSERT INTO score_preset(problem_id, slot, label, points) VALUES(?1,?2,?3,?4)",
                presets[k].as_slice(),
            )?;
            k = k + 1;
        }
        pid
    };
    match sql_commit(tx) {
        Ok(()) => Ok(pid),
        Err(e) => Err(GradeError::Sql(e)),
    }
}

/// Adds a preset to a problem and gives its id.
pub fn add_preset(db: &Db, problem_id: i64, slot: i64, label: &str, points: i64) -> (r: Result<i64, GradeError>)
    ensures
        r matches Err(e) ==> e is Sql,
{
    let params = preset_params(problem_id, slot, label, points);
    execute(&db.conn, "INSERT INTO score_preset(problem_id, slot, label, points) VALUES(?1,?2,?3,?4)", params.as_slice())?;
    Ok(sql_last_insert_rowid(&db.conn))
}

/// The problems of an exam, by number.
pub fn list_problems(db: &Db, exam_id: i64) -> (r: Result<Vec<Problem>, GradeError>)
    ensures
        r matches Ok(v) ==> exists|rs: Seq<Seq<SqlValue>>| #[trigger] problems_in_rows(rs, v@),
        r matches Err(e) ==> e is Sql || e is ColumnType,
{
    let rows = query_all(
        &db.conn,
        "SELECT id, number, title, max_score, rubric FROM problem WHERE exam_id=?1 ORDER BY number",
        id_params(exam_id).as_slice(),
    );
    let rows = match rows {
        Ok(rows) => rows,
        Err(e) => return Err(e),
    };
    let mut out: Vec<Problem> = Vec::new();
    let mut i: usize = 0;
    while i < rows.len()
        invariant
            i <= rows.len(),
            out.len() == i,
            forall|k: int| 0 <= k < i ==> problem_row(rows@[k]@, #[trigger] out@[k]),
        decreases rows.len() - i,
    {
        let p = match problem_from_row(&rows[i]) {
            Ok(x) => x,
            Err(e) => return Err(e),
        };
        out.push(p);
        i = i + 1;
    }
    assert(problems_in_rows(rows_view(rows@), out@));
    let res: Result<Vec<Problem>, GradeError> = Ok(out);
    assert(res->Ok_0@ == out@);
    res
}

/// The rubric to store for `rubric`: nothing where it is blank, else the
/// text as given.
pub open spec fn rubric_value(rubric: Seq<char>) -> Option<Seq<char>> {
    if trim_seq(rubric).len() == 0 {
        None
    } else {
        Some(rubric)
    }
}

/// The stored form of a rubric: `None` (SQL `NULL`) for blank text.
pub fn rubric_to_store(rubric: &str) -> (r: Option<String>)
    ensures
        opt_view(r) == rubric_value(rubric@),
{
    let chars = chars_of(rubric);
    let t = trim_chars(chars.as_slice());
    if t.len() == 0 {
        None
    } else {
        Some(rubric.to_owned())
    }
}

/// The values bound to the rubric update of problem `problem_id`: `?1` is
/// the problem, `?2` the rubric to store (`NULL` for blank text).
pub fn rubric_params(problem_id: i64, rubric: &str) -> (p: Vec<SqlParam>)
    ensures
        p@.len() == 2,
        p@[0] == SqlParam::Integer(problem_id),
        opt_text_param(p@[1], rubric_value(rubric@)),
{
    let val = match rubric_to_store(rubric) {
        Some(s) => SqlParam::Text(s),
        None => SqlParam::Null,
    };
    let mut p: Vec<SqlParam> = Vec::new();
    p.push(SqlParam::Integer(problem_id));
    p.push(val);
    p
}

/// The values bound to a lookup on each student of `students`: `?1` is
/// the `k`-th student's id.
pub fn roster_id_params(students: &Vec<Student>) -> (ps: Vec<Vec<SqlParam>>)
    ensures
        ps.len() == students.len(),
        forall|k: int| 0 <= k < students.len() ==> (#[trigger] ps@[k])@ == seq![SqlParam::Integer(students@[k].id)],
{
    let mut ps: Vec<Vec<SqlParam>> = Vec::new();
    let mut k: usize = 0;
    while k < students.len()
        invariant
            k <= students.len(),
            ps.len() == k,
            forall|q: int| 0 <= q < k ==> (#[trigger] ps@[q])@ == seq![SqlParam::Integer(students@[q].id)],
        decreases students.len() - k,
    {
        ps.push(id_params(students[k].id));
        k = k + 1;
    }
    ps
}

/// Sets the marking scheme (Markdown) of a problem; blank text clears it.
pub fn set_problem_rubric(db: &Db, problem_id: i64, rubric: &str) -> (r: Result<(), GradeError>)
    ensures
        r matches Err(e) ==> e is Sql,
{
    let params = rubric_params(problem_id, rubric);
    execute(&db.conn, "UPDATE problem SET rubric=?2 WHERE id=?1", params.as_slice())
}

/// The presets of a problem, by key.
pub fn list_presets(db: &Db, problem_id: i64) -> (r: Result<Vec<Preset>, GradeError>)
    ensures
        r matches Ok(v) ==> exists|rs: Seq<Seq<SqlValue>>| #[trigger] presets_in_rows(rs, v@),
        r matches Err(e) ==> e is Sql || e is ColumnType,
{
    let rows = query_all(
        &db.conn,
        "SELECT id, slot, label, points FROM score_preset WHERE problem_id=?1 ORDER BY slot",
        id_params(problem_id).as_slice(),
    );
    let rows = match rows {
        Ok(rows) => rows,
        Err(e) => return Err(e),
    };
    let mut out: Vec<Preset> = Vec::new();
    let mut i: usize = 0;
    while i < rows.len()
        invariant
            i <= rows.len(),
            out.len() == i,
            forall|k: int| 0 <= k < i ==> preset_row(rows@[k]@, #[trigger] out@[k]),
        decreases rows.len() - i,
    {
        let p = match preset_from_row(&rows[i]) {
            Ok(x) => x,
            Err(e) => return Err(e),
        };
        out.push(p);
        i = i + 1;
    }
    assert(presets_in_rows(rows_view(rows@), out@));
    let res: Result<Vec<Preset>, GradeError> = Ok(out);
    assert(res->Ok_0@ == out@);
    res
}

/// The roster of an exam, in roster order.
pub fn list_students(db: &Db, exam_id: i64) -> (r: Result<Vec<Student>, GradeError>)
    ensures
        r matches Ok(v) ==> exists|rs: Seq<Seq<SqlValue>>| #[trigger] students_in_rows(rs, v@),
        r matches Err(e) ==> e is Sql || e is ColumnType,
{
    let rows = query_all(
        &db.conn,
        "SELECT id, name, exam_number, roster_order FROM student WHERE exam_id=?1 ORDER BY roster_order",
        id_params(exam_id).as_slice(),
    );
    let rows = match rows {
        Ok(rows) => rows,
        Err(e) => return Err(e),
    };
    let mut out: Vec<Student> = Vec::new();
    let mut i: usize = 0;
    while i < rows.len()
        invariant
            i <= rows.len(),
            out.len() == i,
            forall|k: int| 0 <= k < i ==> student_row(rows@[k]@, #[trigger] out@[k]),
        decreases rows.len() - i,
    {
        let s = match student_from_row(&rows[i]) {
            Ok(x) => x,
            Err(e) => return Err(e),
        };
        out.push(s);
        i = i + 1;
    }
    assert(students_in_rows(rows_view(rows@), out@));
    let res: Result<Vec<Student>, GradeError> = Ok(out);
    assert(res->Ok_0@ == out@);
    res
}


/// A roster line's identity: name and exam number. Two lines with the same
/// name and number are the same student; the same name with different
/// numbers are different students.
pub type RosterKey = (Seq<char>, Option<Seq<char>>);

/// The positions of `rows`, from `k` on, that an import adds when the
/// students `seen` are already there: a line is added when its key is not
/// yet seen, and is seen from then on.
pub open spec fn plan_from(seen: Seq<RosterKey>, rows: Seq<RosterKey>, k: int) -> Seq<int>
    decreases rows.len() - k,
{
    if k < 0 || k >= rows.len() {
        Seq::empty()
    } else if seen.contains(rows[k]) {
        plan_from(seen, rows, k + 1)
    } else {
        seq![k] + plan_from(seen.push(rows[k]), rows, k + 1)
    }
}

/// The positions of `rows` that an import adds to a roster holding
/// `existing`.
pub open spec fn roster_plan(existing: Seq<RosterKey>, rows: Seq<RosterKey>) -> Seq<int> {
    plan_from(existing, rows, 0)
}

/// The keys of roster lines.
pub open spec fn roster_keys(rows: Seq<RosterRow>) -> Seq<RosterKey> {
    rows.map_values(|r: RosterRow| roster_row_view(r))
}

/// The keys of stored students, as (name, exam number) pairs.
pub open spec fn pair_keys(v: Seq<(String, Option<String>)>) -> Seq<RosterKey> {
    v.map_values(|p: (String, Option<String>)| (p.0@, opt_view(p.1)))
}

/// Positions as integers.
pub open spec fn positions(v: Seq<usize>) -> Seq<int> {
    v.map_values(|x: usize| x as int)
}

fn same_key(a: &(String, Option<String>), name: &String, number: &Option<String>) -> (r: bool)
    ensures
        r == ((a.0@, opt_view(a.1)) == (name@, opt_view(*number))),
{
    if a.0 != *name {
        return false;
    }
    match (&a.1, number) {
        (Some(x), Some(y)) => *x == *y,
        (None, None) => true,
        _ => false,
    }
}

/// The positions of `rows` that an import adds to a roster already holding
/// the (name, exam number) pairs `existing`, in order.
pub fn plan_roster_import(existing: &Vec<(String, Option<String>)>, rows: &[RosterRow]) -> (picked: Vec<usize>)
    ensures
        positions(picked@) == roster_plan(pair_keys(existing@), roster_keys(rows@)),
{
    let ghost rk = roster_keys(rows@);
    let mut seen: Vec<(String, Option<String>)> = Vec::new();
    let mut e: usize = 0;
    while e < existing.len()
        invariant
            e <= existing.len(),
            seen.len() == e,
            forall|i: int| 0 <= i < e ==> #[trigger] seen@[i] == existing@[i],
        decreases existing.len() - e,
    {
        let name = existing[e].0.clone();
        let number = crate::export::clone_opt_string(&existing[e].1);
        seen.push((name, number));
        e = e + 1;
    }
    assert(seen@ =~= existing@);
    let mut picked: Vec<usize> = Vec::new();
    let mut k: usize = 0;
    assert(positions(picked@) =~= Seq::<int>::empty());
    while k < rows.len()
        invariant
            k <= rows.len(),
            rk == roster_keys(rows@),
            rk.len() == rows.len(),
            roster_plan(pair_keys(existing@), rk) == positions(picked@) + plan_from(pair_keys(seen@), rk, k as int),
        decreases rows.len() - k,
    {
        let row = &rows[k];
        assert(rk[k as int] == (row.name@, opt_view(row.exam_number)));
        let mut found = false;
        let mut q: usize = 0;
        while q < seen.len()
            invariant
                q <= seen.len(),
                found == exists|x: int| 0 <= x < q && #[trigger] pair_keys(seen@)[x] == rk[k as int],
                k < rk.len(),
                rk[k as int] == (row.name@, opt_view(row.exam_number)),
            decreases seen.len() - q,
        {
            if same_key(&seen[q], &row.name, &row.exam_number) {
                found = true;
            }
            assert(pair_keys(seen@)[q as int] == (seen@[q as int].0@, opt_view(seen@[q as int].1)));
            q = q + 1;
        }
        assert(found == pair_keys(seen@).contains(rk[k as int]));
        if !found {
            let ghost before_seen = seen@;
            let ghost before_picked = picked@;
            seen.push((row.name.clone(), crate::export::clone_opt_string(&row.exam_number)));
            picked.push(k);
            assert(pair_keys(seen@) =~= pair_keys(before_seen).push(rk[k as int]));
            assert(positions(picked@) =~= positions(before_picked).push(k as int));
            assert(positions(picked@) + plan_from(pair_keys(seen@), rk, k + 1) =~= positions(before_picked)
                + plan_from(pair_keys(before_seen), rk, k as int));
        }
        k = k + 1;
    }
    assert(positions(picked@) + Seq::<int>::empty() =~= positions(picked@));
    picked
}


/// The keys at positions `plan` of `rows`.
pub open spec fn keys_at(plan: Seq<int>, rows: Seq<RosterKey>) -> Seq<RosterKey> {
    plan.map_values(|p: int| rows[p])
}

proof fn lemma_plan_covers(seen: Seq<RosterKey>, rows: Seq<RosterKey>, k: int)
    requires
        0 <= k <= rows.len(),
    ensures
        forall|q: int|
            k <= q < rows.len() ==> (seen + keys_at(plan_from(seen, rows, k), rows)).contains(
                #[trigger] rows[q],
            ),
        forall|x: RosterKey| seen.contains(x) ==> (seen + keys_at(plan_from(seen, rows, k), rows)).contains(x),
    decreases rows.len() - k,
{
    let all = seen + keys_at(plan_from(seen, rows, k), rows);
    if k < rows.len() {
        if seen.contains(rows[k]) {
            lemma_plan_covers(seen, rows, k + 1);
            assert(all == seen + keys_at(plan_from(seen, rows, k + 1), rows));
        } else {
            let s2 = seen.push(rows[k]);
            lemma_plan_covers(s2, rows, k + 1);
            let rest = plan_from(s2, rows, k + 1);
            assert(keys_at(seq![k] + rest, rows) =~= seq![rows[k]] + keys_at(rest, rows));
            assert(all =~= s2 + keys_at(rest, rows));
            assert forall|x: RosterKey| seen.contains(x) implies all.contains(x) by {
                let i = choose|i: int| 0 <= i < seen.len() && seen[i] == x;
                assert(s2[i] == x);
                assert(s2.contains(x));
            }
            assert(s2.contains(rows[k])) by {
                assert(s2[seen.len() as int] == rows[k]);
            }
        }
    } else {
        assert forall|x: RosterKey| seen.contains(x) implies all.contains(x) by {
            let i = choose|i: int| 0 <= i < seen.len() && seen[i] == x;
            assert(all[i] == x);
        }
    }
}

proof fn lemma_plan_none(seen: Seq<RosterKey>, rows: Seq<RosterKey>, k: int)
    requires
        0 <= k <= rows.len(),
        forall|q: int| k <= q < rows.len() ==> seen.contains(#[trigger] rows[q]),
    ensures
        plan_from(seen, rows, k) == Seq::<int>::empty(),
    decreases rows.len() - k,
{
    if k < rows.len() {
        lemma_plan_none(seen, rows, k + 1);
    }
}

/// Importing the same roster a second time adds no one: every line is
/// either on the roster already or was added by the first import.
pub proof fn lemma_reimport_adds_nothing(existing: Seq<RosterKey>, rows: Seq<RosterKey>)
    ensures
        roster_plan(existing + keys_at(roster_plan(existing, rows), rows), rows) == Seq::<int>::empty(),
{
    lemma_plan_covers(existing, rows, 0);
    lemma_plan_none(existing + keys_at(roster_plan(existing, rows), rows), rows, 0);
}

/// The (name, exam number) pair in a row of `SELECT name, exam_number`.
fn name_number_from_row(row: &Vec<SqlValue>) -> (r: Result<(String, Option<String>), GradeError>)
    ensures
        r is Ok <==> (is_text_at(row@, 0) && is_opt_text_at(row@, 1)),
        r matches Ok(p) ==> text_at(row@, 0, p.0) && opt_text_at(row@, 1, p.1),
        r matches Err(e) ==> e is ColumnType,
{
    let name = col_string(row, 0)?;
    let number = col_opt_string(row, 1)?;
    Ok((name, number))
}

/// The values bound to the insert of roster line `row` into exam `exam_id`
/// at roster position `pos`: exam, name, exam number (`NULL` where there
/// is none) and position.
pub open spec fn student_insert(exam_id: i64, row: RosterRow, pos: int, p: Seq<SqlParam>) -> bool {
    student_values(exam_id, row.name@, opt_view(row.exam_number), pos, p)
}

/// The values bound to the insert of a student named `name` with exam
/// number `number` into exam `exam_id` at roster position `pos`.
pub open spec fn student_values(exam_id: i64, name: Seq<char>, number: Option<Seq<char>>, pos: int, p: Seq<SqlParam>) -> bool {
    &&& p.len() == 4
    &&& p[0] == SqlParam::Integer(exam_id)
    &&& text_param(p[1], name)
    &&& opt_text_param(p[2], number)
    &&& p[3] matches SqlParam::Integer(x) && x == pos
}

/// `ps` are the inserts of an import of `rows` into exam `exam_id` whose
/// roster holds `existing` and whose next free position is `start`: the
/// `k`-th line the import adds goes in at position `start + k`.
pub open spec fn roster_inserts_of(
    exam_id: i64,
    start: int,
    existing: Seq<RosterKey>,
    rows: Seq<RosterRow>,
    ps: Seq<Seq<SqlParam>>,
) -> bool {
    let plan = roster_plan(existing, roster_keys(rows));
    &&& ps.len() == plan.len()
    &&& forall|k: int| 0 <= k < ps.len() ==> student_insert(exam_id, rows[plan[k]], start + k, #[trigger] ps[k])
}

/// The roster positions of an import would pass `i64::MAX`.
pub open spec fn roster_overflows(start: int, existing: Seq<RosterKey>, rows: Seq<RosterRow>) -> bool {
    keys_overflow(start, existing, roster_keys(rows))
}

/// The roster positions of an import of lines with keys `keys` would pass
/// `i64::MAX`.
pub open spec fn keys_overflow(start: int, existing: Seq<RosterKey>, keys: Seq<RosterKey>) -> bool {
    let n = roster_plan(existing, keys).len();
    n > i64::MAX || start + n > i64::MAX
}

/// The values bound to the insert of one roster line.
pub fn student_insert_params(exam_id: i64, row: &RosterRow, pos: i64) -> (p: Vec<SqlParam>)
    ensures
        student_insert(exam_id, *row, pos as int, p@),
{
    let number = match &row.exam_number {
        Some(s) => SqlParam::Text(s.clone()),
        None => SqlParam::Null,
    };
    let mut p: Vec<SqlParam> = Vec::new();
    p.push(SqlParam::Integer(exam_id));
    p.push(SqlParam::Text(row.name.clone()));
    p.push(number);
    p.push(SqlParam::Integer(pos));
    p
}

/// The inserts of an import of `rows` into exam `exam_id`, whose roster
/// holds the (name, exam number) pairs `existing` and whose next free
/// position is `start`: the lines not on the roster yet, each once, in
/// order, at positions `start`, `start + 1`, ... `Overflow` where those
/// positions would pass `i64::MAX`.
pub fn roster_inserts(
    exam_id: i64,
    start: i64,
    existing: &Vec<(String, Option<String>)>,
    rows: &[RosterRow],
) -> (r: Result<Vec<Vec<SqlParam>>, GradeError>)
    ensures
        r is Err <==> roster_overflows(start as int, pair_keys(existing@), rows@),
        r matches Err(e) ==> e is Overflow,
        r matches Ok(ps) ==> roster_inserts_of(exam_id, start as int, pair_keys(existing@), rows@, params_view(ps@)),
{
    let ghost plan = roster_plan(pair_keys(existing@), roster_keys(rows@));
    let picked = plan_roster_import(existing, rows);
    proof {
        lemma_plan_bounds(pair_keys(existing@), roster_keys(rows@), 0);
    }
    assert(picked.len() == plan.len()) by {
        assert(positions(picked@).len() == picked@.len());
    }
    assert forall|x: int| 0 <= x < picked.len() implies (#[trigger] picked@[x]) as int == plan[x] by {
        assert(positions(picked@)[x] == picked@[x] as int);
    }
    assert(forall|x: int| 0 <= x < plan.len() ==> 0 <= #[trigger] plan[x] < rows.len());
    if picked.len() as u64 > i64::MAX as u64 {
        return Err(GradeError::Overflow);
    }
    let count = picked.len() as i64;
    if start.checked_add(count).is_none() {
        return Err(GradeError::Overflow);
    }
    let mut ps: Vec<Vec<SqlParam>> = Vec::new();
    let mut t: usize = 0;
    while t < picked.len()
        invariant
            t <= picked.len(),
            count == picked.len(),
            plan == roster_plan(pair_keys(existing@), roster_keys(rows@)),
            picked.len() == plan.len(),
            forall|x: int| 0 <= x < picked.len() ==> (#[trigger] picked@[x]) as int == plan[x],
            forall|x: int| 0 <= x < plan.len() ==> 0 <= #[trigger] plan[x] < rows.len(),
            start + count <= i64::MAX,
            ps.len() == t,
            forall|k: int| 0 <= k < t ==> student_insert(exam_id, rows@[plan[k]], start + k, #[trigger] ps@[k]@),
        decreases picked.len() - t,
    {
        let p = student_insert_params(exam_id, &rows[picked[t]], start + t as i64);
        ps.push(p);
        t = t + 1;
    }
    assert(roster_inserts_of(exam_id, start as int, pair_keys(existing@), rows@, params_view(ps@))) by {
        assert forall|k: int| 0 <= k < ps.len() implies student_insert(
            exam_id,
            rows@[plan[k]],
            start + k,
            #[trigger] params_view(ps@)[k],
        ) by {
            assert(params_view(ps@)[k] == ps@[k]@);
        }
    }
    let res: Result<Vec<Vec<SqlParam>>, GradeError> = Ok(ps);
    assert(res->Ok_0@ == ps@);
    res
}

/// Appends the lines of `rows` that are not on the roster yet to the roster
/// of an exam, in one transaction, numbering them on from the highest
/// roster position; gives how many were added. A line whose name and exam
/// number are already on the roster, or appeared earlier in `rows`, is
/// skipped, so importing the same file twice adds nothing the second time.
/// Each added line is stored with the values `roster_inserts` gives for it.
/// `Overflow` where the roster positions would pass `i64::MAX`.
pub fn import_roster(db: &Db, exam_id: i64, rows: &[RosterRow]) -> (r: Result<usize, GradeError>)
    ensures
        r matches Ok(n) ==> n <= rows.len(),
        r matches Ok(n) ==> exists|existing: Seq<RosterKey>, start: int|
            !(#[trigger] roster_overflows(start, existing, rows@)) && n == roster_plan(existing, roster_keys(rows@)).len(),
{
    let tx = match sql_begin(&db.conn) {
        Ok(tx) => tx,
        Err(e) => return Err(GradeError::Sql(e)),
    };
    let inserted = {
        let conn = sql_tx_conn(&tx);
        let stored = query_all(conn, "SELECT name, exam_number FROM student WHERE exam_id=?1", id_params(exam_id).as_slice())?;
        let mut existing: Vec<(String, Option<String>)> = Vec::new();
        let mut i: usize = 0;
        while i < stored.len()
            invariant
                i <= stored.len(),
            decreases stored.len() - i,
        {
            let p = name_number_from_row(&stored[i])?;
            existing.push(p);
            i = i + 1;
        }
        let start = query_i64(
            conn,
            "SELECT COALESCE(MAX(roster_order)+1, 0) FROM student WHERE exam_id=?1",
            id_params(exam_id).as_slice(),
        )?;
        let inserts = match roster_inserts(exam_id, start, &existing, rows) {
            Ok(ps) => ps,
            Err(e) => {
                assert(roster_overflows(start as int, pair_keys(existing@), rows@));
                return Err(e);
            },
        };
        proof {
            lemma_plan_bounds(pair_keys(existing@), roster_keys(rows@), 0);
            assert(params_view(inserts@).len() == inserts@.len());
        }
        let mut t: usize = 0;
        while t < inserts.len()
            invariant
                t <= inserts.len(),
            decreases inserts.len() - t,
        {
            execute(
                conn,
                "INSERT INTO student(exam_id, name, exam_number, roster_order) VALUES(?1,?2,?3,?4)",
                inserts[t].as_slice(),
            )?;
            t = t + 1;
        }
        assert(!roster_overflows(start as int, pair_keys(existing@), rows@));
        inserts.len()
    };
    match sql_commit(tx) {
        Ok(()) => Ok(inserted),
        Err(e) => Err(GradeError::Sql(e)),
    }
}

proof fn lemma_plan_bounds(seen: Seq<RosterKey>, rows: Seq<RosterKey>, k: int)
    requires
        0 <= k <= rows.len(),
    ensures
        plan_from(seen, rows, k).len() <= rows.len() - k,
        forall|x: int| 0 <= x < plan_from(seen, rows, k).len() ==> k <= #[trigger] plan_from(seen, rows, k)[x] < rows.len(),
    decreases rows.len() - k,
{
    if k < rows.len() {
        lemma_plan_bounds(seen, rows, k + 1);
        lemma_plan_bounds(seen.push(rows[k]), rows, k + 1);
    }
}


/// `f` with every quote doubled.
pub open spec fn csv_escape(f: Seq<char>) -> Seq<char>
    decreases f.len(),
{
    if f.len() == 0 {
        Seq::empty()
    } else {
        (if f[0] == '"' {
            seq!['"', '"']
        } else {
            seq![f[0]]
        }) + csv_escape(f.drop_first())
    }
}

/// `f` as a quoted CSV field.
pub open spec fn csv_quoted(f: Seq<char>) -> Seq<char> {
    seq!['"'] + csv_escape(f) + seq!['"']
}

/// A CSV line of quoted fields separated by commas.
pub open spec fn csv_line_of(fields: Seq<Seq<char>>) -> Seq<char>
    decreases fields.len(),
{
    if fields.len() <= 1 {
        if fields.len() == 0 {
            Seq::empty()
        } else {
            csv_quoted(fields[0])
        }
    } else {
        csv_quoted(fields[0]) + seq![','] + csv_line_of(fields.drop_first())
    }
}

proof fn lemma_read_escaped(f: Seq<char>, rest: Seq<char>, fields: Seq<Seq<char>>, cur: Seq<char>)
    requires
        rest.len() == 0 || rest[0] != '"',
    ensures
        csv_fields_from(csv_escape(f) + seq!['"'] + rest, fields, cur, true) == csv_fields_from(
            rest,
            fields,
            cur + f,
            false,
        ),
    decreases f.len(),
{
    let s = csv_escape(f) + seq!['"'] + rest;
    if f.len() == 0 {
        assert(csv_escape(f) =~= Seq::<char>::empty());
        assert(s.drop_first() =~= rest);
        assert(cur + f =~= cur);
    } else {
        let t = f.drop_first();
        lemma_read_escaped(t, rest, fields, cur.push(f[0]));
        assert(cur.push(f[0]) + t =~= cur + f);
        if f[0] == '"' {
            assert(s.skip(2) =~= csv_escape(t) + seq!['"'] + rest);
        } else {
            assert(s.drop_first() =~= csv_escape(t) + seq!['"'] + rest);
        }
    }
}

proof fn lemma_read_line(fields: Seq<Seq<char>>, acc: Seq<Seq<char>>)
    requires
        fields.len() >= 1,
    ensures
        csv_fields_from(csv_line_of(fields), acc, Seq::empty(), false) == acc + fields,
    decreases fields.len(),
{
    let f = fields[0];
    let rest: Seq<char> = if fields.len() == 1 {
        Seq::empty()
    } else {
        seq![','] + csv_line_of(fields.drop_first())
    };
    let line = csv_line_of(fields);
    assert(line =~= seq!['"'] + (csv_escape(f) + seq!['"'] + rest));
    assert(line.drop_first() =~= csv_escape(f) + seq!['"'] + rest);
    lemma_read_escaped(f, rest, acc, Seq::empty());
    assert(Seq::<char>::empty() + f =~= f);
    if fields.len() == 1 {
        assert(acc.push(f) =~= acc + fields);
    } else {
        assert(rest.drop_first() =~= csv_line_of(fields.drop_first()));
        lemma_read_line(fields.drop_first(), acc.push(f));
        assert(acc.push(f) + fields.drop_first() =~= acc + fields);
    }
}

/// Quoting fields and joining them with commas gives a line that reads back
/// as exactly those fields, whatever commas and quotes they hold.
pub proof fn lemma_csv_round_trip(fields: Seq<Seq<char>>)
    requires
        fields.len() >= 1,
    ensures
        csv_fields(csv_line_of(fields)) == fields,
{
    lemma_read_line(fields, Seq::empty());
    assert(Seq::<Seq<char>>::empty() + fields =~= fields);
}

} // verus!
