use vstd::prelude::*;

use crate::float_bits::{Float64, finite_bits, lt_bits, nan_bits};
use crate::text::{
    chars_eq, chars_of, decimal, parse_bounded, parse_unsigned, push_str, split_chars, split_on, string_from_chars,
    trim_seq, trimmed_chars, usize_to_decimal,
};

verus! {

broadcast use vstd::string::group_string_axioms;

/// Why a study log was refused.
#[derive(Debug, Clone, PartialEq)]
pub enum DataError {
    MissingHeader,
    InvalidHeader { expected: &'static str, found: String },
    NoRows,
    WrongColumnCount { line: usize, expected: usize, found: usize },
    InvalidStudyMinutes { line: usize, value: String },
    InvalidExerciseScore { line: usize, value: String },
}

/// A `DataError` with its strings taken as character sequences.
pub enum DataErrorView {
    MissingHeader,
    InvalidHeader { expected: Seq<char>, found: Seq<char> },
    NoRows,
    WrongColumnCount { line: usize, expected: usize, found: usize },
    InvalidStudyMinutes { line: usize, value: Seq<char> },
    InvalidExerciseScore { line: usize, value: Seq<char> },
}

impl View for DataError {
    type V = DataErrorView;

    open spec fn view(&self) -> DataErrorView {
        match self {
            DataError::MissingHeader => DataErrorView::MissingHeader,
            DataError::InvalidHeader { expected, found } => DataErrorView::InvalidHeader {
                expected: expected@,
                found: found@,
            },
            DataError::NoRows => DataErrorView::NoRows,
            DataError::WrongColumnCount { line, expected, found } => DataErrorView::WrongColumnCount {
                line: *line,
                expected: *expected,
                found: *found,
            },
            DataError::InvalidStudyMinutes { line, value } => DataErrorView::InvalidStudyMinutes {
                line: *line,
                value: value@,
            },
            DataError::InvalidExerciseScore { line, value } => DataErrorView::InvalidExerciseScore {
                line: *line,
                value: value@,
            },
        }
    }
}

/// The message that describes `e`.
pub open spec fn data_error_message(e: DataErrorView) -> Seq<char> {
    match e {
        DataErrorView::MissingHeader => "CSV is missing a header row"@,
        DataErrorView::InvalidHeader { expected, found } => "invalid header: expected `"@ + expected
            + "`, found `"@ + found + "`"@,
        DataErrorView::NoRows => "CSV does not contain any data rows"@,
        DataErrorView::WrongColumnCount { line, expected, found } => "line "@ + decimal(line as nat) + " has "@
            + decimal(found as nat) + " columns, but "@ + decimal(expected as nat) + " columns are required"@,
        DataErrorView::InvalidStudyMinutes { line, value } => "line "@ + decimal(line as nat)
            + " has invalid study_minutes value `"@ + value + "`"@,
        DataErrorView::InvalidExerciseScore { line, value } => "line "@ + decimal(line as nat)
            + " has invalid exercise_score value `"@ + value + "`"@,
    }
}

impl DataError {
    /// The message that describes this error.
    pub fn message(&self) -> (r: String)
        ensures
            r@ == data_error_message(self@),
    {
        let mut out = String::new();
        match self {
            DataError::MissingHeader => push_str(&mut out, "CSV is missing a header row"),
            DataError::InvalidHeader { expected, found } => {
                push_str(&mut out, "invalid header: expected `");
                push_str(&mut out, expected);
                push_str(&mut out, "`, found `");
                push_str(&mut out, found.as_str());
                push_str(&mut out, "`");
            },
            DataError::NoRows => push_str(&mut out, "CSV does not contain any data rows"),
            DataError::WrongColumnCount { line, expected, found } => {
                push_str(&mut out, "line ");
                push_str(&mut out, usize_to_decimal(*line).as_str());
                push_str(&mut out, " has ");
                push_str(&mut out, usize_to_decimal(*found).as_str());
                push_str(&mut out, " columns, but ");
                push_str(&mut out, usize_to_decimal(*expected).as_str());
                push_str(&mut out, " columns are required");
            },
            DataError::InvalidStudyMinutes { line, value } => {
                push_str(&mut out, "line ");
                push_str(&mut out, usize_to_decimal(*line).as_str());
                push_str(&mut out, " has invalid study_minutes value `");
                push_str(&mut out, value.as_str());
                push_str(&mut out, "`");
            },
            DataError::InvalidExerciseScore { line, value } => {
                push_str(&mut out, "line ");
                push_str(&mut out, usize_to_decimal(*line).as_str());
                push_str(&mut out, " has invalid exercise_score value `");
                push_str(&mut out, value.as_str());
                push_str(&mut out, "`");
            },
        }
        assert(out@ =~= data_error_message(self@));
        out
    }
}

/// One data row of a study log whose score has not been read yet: its line
/// number (counting from 1, blank lines included), the day, the minutes, and
/// the score column's text.
#[derive(Debug, Clone)]
pub struct StudyRow {
    pub line: usize,
    pub day: String,
    pub study_minutes: u32,
    pub score_text: String,
}

pub struct StudyRowView {
    pub line: usize,
    pub day: Seq<char>,
    pub study_minutes: u32,
    pub score_text: Seq<char>,
}

impl View for StudyRow {
    type V = StudyRowView;

    open spec fn view(&self) -> StudyRowView {
        StudyRowView {
            line: self.line,
            day: self.day@,
            study_minutes: self.study_minutes,
            score_text: self.score_text@,
        }
    }
}

/// The header line that a study log starts with.
pub open spec fn study_header() -> Seq<char> {
    "day,study_minutes,exercise_score"@
}

/// The columns of a data line, each trimmed.
pub open spec fn row_columns(line: Seq<char>) -> Seq<Seq<char>> {
    split_on(line, ',').map_values(|c: Seq<char>| trim_seq(c))
}

/// What a trimmed, non-blank data line with line number `number` gives: three
/// columns, the second of them a `u32`.
pub open spec fn read_row_spec(line: Seq<char>, number: usize) -> Result<StudyRowView, DataErrorView> {
    let columns = row_columns(line);
    if columns.len() != 3 {
        Err(DataErrorView::WrongColumnCount { line: number, expected: 3, found: columns.len() as usize })
    } else {
        match parse_unsigned(columns[1], u32::MAX as nat) {
            None => Err(DataErrorView::InvalidStudyMinutes { line: number, value: columns[1] }),
            Some(minutes) => Ok(
                StudyRowView { line: number, day: columns[0], study_minutes: minutes as u32, score_text: columns[2] },
            ),
        }
    }
}

/// Where reading the lines of a study log stands: whether the header was
/// seen, the rows read so far, and the error that stopped the reading, if any.
pub struct ScanState {
    pub header_seen: bool,
    pub rows: Seq<StudyRowView>,
    pub error: Option<DataErrorView>,
}

/// Reading line `number` (`line` untrimmed) from `state`. Blank lines are
/// skipped; the first other line must be the header; each later one is a row.
/// After an error nothing changes.
pub open spec fn scan_step(state: ScanState, line: Seq<char>, number: usize) -> ScanState {
    let t = trim_seq(line);
    if state.error is Some || t.len() == 0 {
        state
    } else if !state.header_seen {
        if t == study_header() {
            ScanState { header_seen: true, ..state }
        } else {
            ScanState {
                error: Some(DataErrorView::InvalidHeader { expected: study_header(), found: t }),
                ..state
            }
        }
    } else {
        match read_row_spec(t, number) {
            Ok(row) => ScanState { rows: state.rows.push(row), ..state },
            Err(e) => ScanState { error: Some(e), ..state },
        }
    }
}

/// Reading `lines` in order, the line numbers counting from 1.
pub open spec fn scan_lines(lines: Seq<Seq<char>>) -> ScanState
    decreases lines.len(),
{
    if lines.len() == 0 {
        ScanState { header_seen: false, rows: Seq::empty(), error: None }
    } else {
        scan_step(scan_lines(lines.drop_last()), lines.last(), lines.len() as usize)
    }
}

/// The rows of `csv` read before any error, and the error: the one that
/// stopped the reading, or a missing header when no line but blank ones came.
pub open spec fn scan_outcome(csv: Seq<char>) -> (Seq<StudyRowView>, Option<DataErrorView>) {
    let state = scan_lines(split_on(csv, '\n'));
    let error = if state.error is None && !state.header_seen {
        Some(DataErrorView::MissingHeader)
    } else {
        state.error
    };
    (state.rows, error)
}

pub open spec fn rows_view(rows: Seq<StudyRow>) -> Seq<StudyRowView> {
    rows.map_values(|r: StudyRow| r@)
}

/// What reading the text of a study log gave, before the scores are read:
/// the rows read in order, and the error that ended the reading, if any.
#[derive(Debug)]
pub struct StudyLogScan {
    pub rows: Vec<StudyRow>,
    pub error: Option<DataError>,
}

proof fn lemma_scan_frozen(lines: Seq<Seq<char>>, i: int)
    requires
        0 <= i <= lines.len(),
        scan_lines(lines.take(i)).error is Some,
    ensures
        scan_lines(lines) == scan_lines(lines.take(i)),
    decreases lines.len(),
{
    if lines.len() == i {
        assert(lines.take(i) =~= lines);
    } else {
        assert(lines.drop_last().take(i) =~= lines.take(i));
        lemma_scan_frozen(lines.drop_last(), i);
    }
}

fn read_row(t: &Vec<char>, number: usize) -> (r: Result<StudyRow, DataError>)
    ensures
        match read_row_spec(t@, number) {
            Ok(v) => r is Ok && r->Ok_0@ == v,
            Err(e) => r is Err && r->Err_0@ == e,
        },
{
    let parts = split_chars(t, ',');
    let ghost columns = row_columns(t@);
    assert(columns.len() == parts.len());
    if parts.len() != 3 {
        return Err(DataError::WrongColumnCount { line: number, expected: 3, found: parts.len() });
    }
    let day = trimmed_chars(&parts[0]);
    let minutes = trimmed_chars(&parts[1]);
    let score = trimmed_chars(&parts[2]);
    assert(day@ == columns[0] && minutes@ == columns[1] && score@ == columns[2]);
    match parse_bounded(&minutes, 4294967295u64) {
        None => Err(DataError::InvalidStudyMinutes { line: number, value: string_from_chars(minutes.as_slice()) }),
        Some(m) => Ok(
            StudyRow {
                line: number,
                day: string_from_chars(day.as_slice()),
                study_minutes: m as u32,
                score_text: string_from_chars(score.as_slice()),
            },
        ),
    }
}

/// Reads the text of a study log: lines are cut at `\n` and trimmed, blank
/// ones skipped; the first other line must be the header
/// `day,study_minutes,exercise_score`; every later one must have three
/// comma-separated columns whose second is a `u32`. The reading stops at the
/// first line that breaks this.
pub fn scan_study_log(csv: &str) -> (r: StudyLogScan)
    ensures
        rows_view(r.rows@) == scan_outcome(csv@).0,
        match scan_outcome(csv@).1 {
            Some(e) => r.error is Some && r.error->Some_0@ == e,
            None => r.error is None,
        },
{
    let chars = chars_of(csv);
    let lines = split_chars(&chars, '\n');
    let ghost line_seqs = split_on(csv@, '\n');
    let header = chars_of("day,study_minutes,exercise_score");
    let mut header_seen = false;
    let mut rows: Vec<StudyRow> = Vec::new();
    let mut i: usize = 0;
    assert(line_seqs.take(0) =~= Seq::<Seq<char>>::empty());
    while i < lines.len()
        invariant
            i <= lines.len() == line_seqs.len(),
            line_seqs == split_on(csv@, '\n'),
            forall|j: int| 0 <= j < lines.len() ==> (#[trigger] lines[j])@ == line_seqs[j],
            header@ == study_header(),
            scan_lines(line_seqs.take(i as int)).error is None,
            scan_lines(line_seqs.take(i as int)).header_seen == header_seen,
            scan_lines(line_seqs.take(i as int)).rows == rows_view(rows@),
        decreases lines.len() - i,
    {
        let ghost before = scan_lines(line_seqs.take(i as int));
        proof {
            assert(line_seqs.take(i + 1).drop_last() =~= line_seqs.take(i as int));
            assert(line_seqs.take(i + 1).last() == line_seqs[i as int]);
        }
        let t = trimmed_chars(&lines[i]);
        if t.len() > 0 {
            if !header_seen {
                if chars_eq(&t, &header) {
                    header_seen = true;
                } else {
                    let found = string_from_chars(t.as_slice());
                    proof {
                        lemma_scan_frozen(line_seqs, i + 1);
                    }
                    return StudyLogScan {
                        rows,
                        error: Some(DataError::InvalidHeader { expected: "day,study_minutes,exercise_score", found }),
                    };
                }
            } else {
                match read_row(&t, i + 1) {
                    Ok(row) => {
                        rows.push(row);
                        proof {
                            assert(rows_view(rows@) =~= before.rows.push(row@));
                        }
                    },
                    Err(e) => {
                        proof {
                            lemma_scan_frozen(line_seqs, i + 1);
                        }
                        return StudyLogScan { rows, error: Some(e) };
                    },
                }
            }
        }
        i = i + 1;
    }
    proof {
        assert(line_seqs.take(i as int) =~= line_seqs);
    }
    if !header_seen {
        StudyLogScan { rows, error: Some(DataError::MissingHeader) }
    } else {
        StudyLogScan { rows, error: None }
    }
}

/// One day of a study log.
#[derive(Debug, Clone, PartialEq)]
pub struct Observation {
    pub day: String,
    pub study_minutes: u32,
    pub exercise_score: Float64,
}

/// Whether a score read from the text is refused: it was not a number, or it
/// is not finite.
pub open spec fn score_refused(score: Option<Float64>) -> bool {
    match score {
        Some(x) => !finite_bits(x.bits),
        None => true,
    }
}

/// The first row whose score is refused.
pub open spec fn first_refused_score(scores: Seq<Option<Float64>>) -> Option<int> {
    if exists|i: int| 0 <= i < scores.len() && score_refused(#[trigger] scores[i]) {
        Some(choose|i: int| 0 <= i < scores.len() && score_refused(#[trigger] scores[i])
            && forall|j: int| 0 <= j < i ==> !score_refused(#[trigger] scores[j]))
    } else {
        None
    }
}

proof fn lemma_first_refused_score(scores: Seq<Option<Float64>>, k: int)
    requires
        0 <= k < scores.len(),
        score_refused(scores[k]),
        forall|j: int| 0 <= j < k ==> !score_refused(#[trigger] scores[j]),
    ensures
        first_refused_score(scores) == Some(k),
{
    let c = choose|i: int| 0 <= i < scores.len() && score_refused(#[trigger] scores[i])
        && forall|j: int| 0 <= j < i ==> !score_refused(#[trigger] scores[j]);
    assert(0 <= k < scores.len() && score_refused(scores[k]));
    if c < k {
        assert(!score_refused(scores[c]));
    }
    if k < c {
        assert(!score_refused(scores[k]));
    }
}

impl Observation {
    pub open spec fn matches_row(self, row: StudyRowView, score: Float64) -> bool {
        &&& self.day@ == row.day
        &&& self.study_minutes == row.study_minutes
        &&& self.exercise_score == score
    }
}

/// Completes the reading of a study log once the score column of each row
/// has been read as a number (`scores[i]` for `scan.rows[i]`, `None` where the
/// text is not a number). The first error in line order wins: a refused score
/// comes before the error that stopped the reading, since its line came
/// first; a log without rows is refused.
pub fn observations_from_scan(scan: StudyLogScan, scores: &Vec<Option<Float64>>) -> (r: Result<Vec<Observation>, DataError>)
    requires
        scores.len() == scan.rows.len(),
    ensures
        match first_refused_score(scores@) {
            Some(i) => r is Err && r->Err_0@ == (DataErrorView::InvalidExerciseScore {
                line: scan.rows[i].line,
                value: scan.rows[i].score_text@,
            }),
            None => match scan.error {
                Some(e) => r is Err && r->Err_0@ == e@,
                None => if scan.rows.len() == 0 {
                    r is Err && r->Err_0@ == DataErrorView::NoRows
                } else {
                    r is Ok && r->Ok_0.len() == scan.rows.len() && forall|i: int|
                        0 <= i < scan.rows.len() ==> (#[trigger] r->Ok_0[i]).matches_row(
                            scan.rows[i]@,
                            scores[i]->Some_0,
                        )
                },
            },
        },
{
    let mut observations: Vec<Observation> = Vec::new();
    let n = scan.rows.len();
    for i in 0..n
        invariant
            n == scan.rows.len() == scores.len(),
            observations.len() == i,
            forall|j: int| 0 <= j < i ==> !score_refused(#[trigger] scores@[j]),
            forall|j: int| 0 <= j < i ==> (#[trigger] observations[j]).matches_row(
                scan.rows[j]@,
                scores[j]->Some_0,
            ),
    {
        let row = &scan.rows[i];
        let refused = match scores[i] {
            Some(x) => !x.is_finite(),
            None => true,
        };
        if refused {
            proof {
                lemma_first_refused_score(scores@, i as int);
            }
            return Err(DataError::InvalidExerciseScore { line: row.line, value: row.score_text.clone() });
        }
        let score = match scores[i] {
            Some(x) => x,
            None => Float64::zero(),
        };
        observations.push(Observation { day: row.day.clone(), study_minutes: row.study_minutes, exercise_score: score });
    }
    proof {
        assert(!(exists|i: int| 0 <= i < scores@.len() && score_refused(#[trigger] scores@[i])));
    }
    match scan.error {
        Some(e) => Err(e),
        None => if n == 0 {
            Err(DataError::NoRows)
        } else {
            Ok(observations)
        },
    }
}

/// The sum of the minutes of `obs`.
pub open spec fn minutes_total(obs: Seq<Observation>) -> int
    decreases obs.len(),
{
    if obs.len() == 0 {
        0
    } else {
        minutes_total(obs.drop_last()) + obs.last().study_minutes
    }
}

/// The observation that `Iterator::max_by` picks by score, comparing with
/// `partial_cmp` and taking incomparable scores as equal: the running best is
/// kept only while it is strictly greater than the next, so among equal
/// scores the last wins.
pub open spec fn best_index(obs: Seq<Observation>) -> int
    decreases obs.len(),
{
    if obs.len() <= 1 {
        0
    } else {
        let b = best_index(obs.drop_last());
        if lt_bits(obs.last().exercise_score.bits, obs[b].exercise_score.bits) {
            b
        } else {
            obs.len() - 1
        }
    }
}

proof fn lemma_best_index_in_range(obs: Seq<Observation>)
    requires
        obs.len() >= 1,
    ensures
        0 <= best_index(obs) < obs.len(),
    decreases obs.len(),
{
    if obs.len() > 1 {
        lemma_best_index_in_range(obs.drop_last());
    }
}

/// The totals of a study log that need no arithmetic on scores.
#[derive(Debug, Clone)]
pub struct Summary {
    pub count: usize,
    pub total_study_minutes: u32,
    pub best_day: String,
    pub best_score: Float64,
}

/// The number of observations, their total minutes, and the day and score of
/// the best one; `None` for no observations.
pub fn summarize(observations: &[Observation]) -> (r: Option<Summary>)
    requires
        minutes_total(observations@) <= u32::MAX,
    ensures
        observations@.len() == 0 <==> r is None,
        r matches Some(s) ==> {
            &&& s.count == observations@.len()
            &&& s.total_study_minutes == minutes_total(observations@)
            &&& s.best_day@ == observations@[best_index(observations@)].day@
            &&& s.best_score == observations@[best_index(observations@)].exercise_score
        },
{
    let n = observations.len();
    if n == 0 {
        return None;
    }
    let mut total: u32 = 0;
    let mut best: usize = 0;
    let mut i: usize = 0;
    while i < n
        invariant
            n == observations@.len(),
            n >= 1,
            i <= n,
            minutes_total(observations@) <= u32::MAX,
            total == minutes_total(observations@.take(i as int)),
            i >= 1 ==> best == best_index(observations@.take(i as int)),
            i >= 1 ==> best < i,
            best < n,
        decreases n - i,
    {
        let ghost prefix = observations@.take(i + 1);
        proof {
            assert(prefix.drop_last() =~= observations@.take(i as int));
            lemma_minutes_total_prefix(observations@, i + 1);
            if i >= 1 {
                assert(prefix[best as int] == observations@[best as int]);
                assert(prefix.last() == observations@[i as int]);
            }
        }
        total = total + observations[i].study_minutes;
        if i == 0 {
            best = 0;
        } else if !observations[i].exercise_score.lt(&observations[best].exercise_score) {
            best = i;
        }
        i = i + 1;
    }
    proof {
        assert(observations@.take(n as int) =~= observations@);
    }
    Some(
        Summary {
            count: n,
            total_study_minutes: total,
            best_day: observations[best].day.clone(),
            best_score: observations[best].exercise_score,
        },
    )
}

/// Whether the minutes of `observations` sum to at most `u32::MAX`, as
/// `summarize` asks.
pub fn minutes_fit(observations: &[Observation]) -> (r: bool)
    ensures
        r == (minutes_total(observations@) <= u32::MAX),
{
    let n = observations.len();
    let mut total: u64 = 0;
    let mut i: usize = 0;
    while i < n
        invariant
            n == observations@.len(),
            i <= n,
            total == minutes_total(observations@.take(i as int)),
            total <= u32::MAX,
        decreases n - i,
    {
        proof {
            assert(observations@.take(i + 1).drop_last() =~= observations@.take(i as int));
        }
        total = total + observations[i].study_minutes as u64;
        if total > 4294967295u64 {
            proof {
                lemma_minutes_total_prefix(observations@, i + 1);
            }
            return false;
        }
        i = i + 1;
    }
    proof {
        assert(observations@.take(n as int) =~= observations@);
    }
    true
}

proof fn lemma_minutes_total_prefix(obs: Seq<Observation>, k: int)
    requires
        0 <= k <= obs.len(),
    ensures
        minutes_total(obs.take(k)) <= minutes_total(obs),
    decreases obs.len(),
{
    if k < obs.len() {
        assert(obs.drop_last().take(k) =~= obs.take(k));
        lemma_minutes_total_prefix(obs.drop_last(), k);
    } else {
        assert(obs.take(k) =~= obs);
    }
}

/// When no score is NaN, no observation scores strictly higher than the one
/// that `summarize` reports as best.
pub proof fn best_score_is_maximal(obs: Seq<Observation>)
    requires
        obs.len() >= 1,
        forall|i: int| 0 <= i < obs.len() ==> !nan_bits(#[trigger] obs[i].exercise_score.bits),
    ensures
        0 <= best_index(obs) < obs.len(),
        forall|i: int|
            0 <= i < obs.len() ==> !lt_bits(obs[best_index(obs)].exercise_score.bits, #[trigger] obs[i].exercise_score.bits),
    decreases obs.len(),
{
    lemma_best_index_in_range(obs);
    if obs.len() > 1 {
        let prev = obs.drop_last();
        best_score_is_maximal(prev);
        let b = best_index(prev);
        assert forall|i: int| 0 <= i < obs.len() implies !lt_bits(
            obs[best_index(obs)].exercise_score.bits,
            #[trigger] obs[i].exercise_score.bits,
        ) by {
            if i < obs.len() - 1 {
                assert(obs[i] == prev[i]);
                assert(!lt_bits(prev[b].exercise_score.bits, prev[i].exercise_score.bits));
            }
        }
    }
}

} // verus!
