use vstd::prelude::*;

use crate::error::EngineError;
use crate::experiment::ExperimentResult;
use crate::float_bits::{Float64, lt_bits};
use crate::text::str_eq;

verus! {

broadcast use vstd::string::group_string_axioms;

/// Element type of a column.
#[derive(Debug, Clone, Copy, PartialEq, Eq, Structural)]
pub enum ColumnType {
    Utf8,
    U64,
    F64,
}

/// Name and type of a column.
#[derive(Debug, PartialEq, Eq)]
pub struct Field {
    pub name: String,
    pub dtype: ColumnType,
}

impl Field {
    pub fn new(name: &str, dtype: ColumnType) -> (r: Field)
        ensures
            r.name@ == name@,
            r.dtype == dtype,
    {
        Field { name: name.to_owned(), dtype }
    }

    /// A copy with the same fields.
    pub fn duplicate(&self) -> (r: Field)
        ensures
            r == *self,
    {
        Field { name: self.name.clone(), dtype: self.dtype }
    }
}

impl Clone for Field {
    fn clone(&self) -> (r: Field)
        ensures
            r == *self,
    {
        self.duplicate()
    }
}

/// The values of one column.
#[derive(Debug, PartialEq)]
pub enum Column {
    Utf8(Vec<String>),
    U64(Vec<u64>),
    F64(Vec<Float64>),
}

/// The values of a column, strings as characters.
pub enum ColumnView {
    Utf8(Seq<Seq<char>>),
    U64(Seq<u64>),
    F64(Seq<Float64>),
}

impl View for Column {
    type V = ColumnView;

    open spec fn view(&self) -> ColumnView {
        match self {
            Column::Utf8(v) => ColumnView::Utf8(v@.map_values(|s: String| s@)),
            Column::U64(v) => ColumnView::U64(v@),
            Column::F64(v) => ColumnView::F64(v@),
        }
    }
}

/// Number of values in a column.
pub open spec fn column_len(c: ColumnView) -> nat {
    match c {
        ColumnView::Utf8(v) => v.len(),
        ColumnView::U64(v) => v.len(),
        ColumnView::F64(v) => v.len(),
    }
}

/// Element type of a column.
pub open spec fn column_type(c: ColumnView) -> ColumnType {
    match c {
        ColumnView::Utf8(_) => ColumnType::Utf8,
        ColumnView::U64(_) => ColumnType::U64,
        ColumnView::F64(_) => ColumnType::F64,
    }
}

/// A column keeping the rows whose mask entry is true, over the rows the mask covers.
pub open spec fn filter_column(c: ColumnView, mask: Seq<bool>) -> ColumnView {
    match c {
        ColumnView::Utf8(v) => ColumnView::Utf8(keep_masked(v, mask, min_len(v.len(), mask.len()))),
        ColumnView::U64(v) => ColumnView::U64(keep_masked(v, mask, min_len(v.len(), mask.len()))),
        ColumnView::F64(v) => ColumnView::F64(keep_masked(v, mask, min_len(v.len(), mask.len()))),
    }
}

/// The values of `values` whose mask entry is true, in order, over the
/// positions that both have.
pub open spec fn keep_masked<T>(values: Seq<T>, mask: Seq<bool>, n: nat) -> Seq<T>
    decreases n,
{
    if n == 0 {
        Seq::empty()
    } else if mask[n - 1] {
        keep_masked(values, mask, (n - 1) as nat).push(values[n - 1])
    } else {
        keep_masked(values, mask, (n - 1) as nat)
    }
}

/// The shorter of two lengths.
pub open spec fn min_len(a: nat, b: nat) -> nat {
    if a < b { a } else { b }
}

/// Number of true entries among the first `n` of `mask`.
pub open spec fn count_true(mask: Seq<bool>, n: nat) -> nat
    decreases n,
{
    if n == 0 {
        0
    } else {
        count_true(mask, (n - 1) as nat) + if mask[n - 1] { 1nat } else { 0 }
    }
}

proof fn lemma_keep_masked_len<T>(values: Seq<T>, mask: Seq<bool>, n: nat)
    ensures
        keep_masked(values, mask, n).len() == count_true(mask, n),
    decreases n,
{
    if n > 0 {
        lemma_keep_masked_len(values, mask, (n - 1) as nat);
    }
}

fn filter_values<T: Copy>(values: &Vec<T>, mask: &[bool]) -> (r: Vec<T>)
    ensures
        r@ == keep_masked(values@, mask@, min_len(values@.len(), mask@.len())),
{
    let n = if values.len() < mask.len() { values.len() } else { mask.len() };
    let mut out: Vec<T> = Vec::new();
    for i in 0..n
        invariant
            n == min_len(values@.len(), mask@.len()),
            out@ == keep_masked(values@, mask@, i as nat),
    {
        if mask[i] {
            out.push(values[i]);
        }
    }
    out
}

fn filter_strings(values: &Vec<String>, mask: &[bool]) -> (r: Vec<String>)
    ensures
        r@.map_values(|s: String| s@) == keep_masked(values@.map_values(|s: String| s@), mask@, min_len(values@.len(), mask@.len())),
{
    let n = if values.len() < mask.len() { values.len() } else { mask.len() };
    let mut out: Vec<String> = Vec::new();
    for i in 0..n
        invariant
            n == min_len(values@.len(), mask@.len()),
            out@.map_values(|s: String| s@) == keep_masked(values@.map_values(|s: String| s@), mask@, i as nat),
    {
        if mask[i] {
            out.push(values[i].clone());
            proof {
                assert(out@.map_values(|s: String| s@) =~= keep_masked(values@.map_values(|s: String| s@), mask@, i as nat).push(values@[i as int]@));
            }
        }
    }
    out
}

impl Column {
    pub fn len(&self) -> (r: usize)
        ensures
            r == column_len(self@),
    {
        match self {
            Column::Utf8(values) => values.len(),
            Column::U64(values) => values.len(),
            Column::F64(values) => values.len(),
        }
    }

    pub fn is_empty(&self) -> (r: bool)
        ensures
            r == (column_len(self@) == 0),
    {
        self.len() == 0
    }

    pub fn dtype(&self) -> (r: ColumnType)
        ensures
            r == column_type(self@),
    {
        match self {
            Column::Utf8(_) => ColumnType::Utf8,
            Column::U64(_) => ColumnType::U64,
            Column::F64(_) => ColumnType::F64,
        }
    }

    /// A copy with the same values.
    pub fn duplicate(&self) -> (r: Column)
        ensures
            r@ == self@,
    {
        match self {
            Column::Utf8(values) => {
                let copy = values.clone();
                proof {
                    assert forall|i: int| 0 <= i < values@.len() implies #[trigger] copy@[i] == values@[i] by {
                        assert(cloned::<String>(values[i], copy[i]));
                    }
                    assert(copy@.map_values(|s: String| s@) =~= values@.map_values(|s: String| s@));
                }
                Column::Utf8(copy)
            },
            Column::U64(values) => Column::U64(values.clone()),
            Column::F64(values) => Column::F64(values.clone()),
        }
    }

    /// The rows whose mask entry is true, over the rows the mask covers.
    pub fn filter(&self, mask: &[bool]) -> (r: Column)
        ensures
            r@ == filter_column(self@, mask@),
    {
        match self {
            Column::Utf8(values) => Column::Utf8(filter_strings(values, mask)),
            Column::U64(values) => Column::U64(filter_values(values, mask)),
            Column::F64(values) => Column::F64(filter_values(values, mask)),
        }
    }
}

} // verus!

verus! {

/// The views of a sequence of columns.
pub open spec fn columns_view(columns: Seq<Column>) -> Seq<ColumnView> {
    columns.map_values(|c: Column| c@)
}

/// What is wrong with column `i` of a batch of `rows` rows, if anything: its
/// length, then its type against the schema.
pub open spec fn column_problem(schema: Seq<Field>, columns: Seq<ColumnView>, rows: nat, i: int) -> Option<EngineError> {
    if column_len(columns[i]) != rows {
        Some(EngineError::LengthMismatch { context: "column lengths", expected: rows as usize, actual: column_len(columns[i]) as usize })
    } else if schema[i].dtype != column_type(columns[i]) {
        Some(EngineError::InvalidConfig { context: "column dtype must match schema" })
    } else {
        None
    }
}

/// The error with which a batch of this schema and these columns is
/// refused, if any: nothing to hold, then a schema and column count that
/// differ, then the first column with a problem (the first column sets the
/// number of rows).
pub open spec fn batch_error(schema: Seq<Field>, columns: Seq<ColumnView>) -> Option<EngineError> {
    if schema.len() == 0 || columns.len() == 0 {
        Some(EngineError::EmptyInput { context: "columnar batch" })
    } else if schema.len() != columns.len() {
        Some(EngineError::LengthMismatch { context: "schema and columns", expected: schema.len() as usize, actual: columns.len() as usize })
    } else if exists|i: int| 0 <= i < columns.len() && (#[trigger] column_problem(schema, columns, column_len(columns[0]), i)) is Some {
        let i = choose|i: int| 0 <= i < columns.len() && (#[trigger] column_problem(schema, columns, column_len(columns[0]), i)) is Some
            && forall|j: int| 0 <= j < i ==> (#[trigger] column_problem(schema, columns, column_len(columns[0]), j)) is None;
        column_problem(schema, columns, column_len(columns[0]), i)
    } else {
        None
    }
}

/// A batch of experiment results, stored by column.
#[derive(Debug, PartialEq)]
pub struct ExperimentResultBatch {
    pub schema: Vec<Field>,
    pub columns: Vec<Column>,
    pub rows: usize,
}

/// A batch whose columns match its schema and all hold `rows` values.
pub open spec fn batch_wf(b: ExperimentResultBatch) -> bool {
    &&& batch_error(b.schema@, columns_view(b.columns@)) is None
    &&& b.rows == column_len(b.columns@[0]@)
}

/// `r` is what building a batch from this schema and these columns gives.
pub open spec fn built_from(r: Result<ExperimentResultBatch, EngineError>, schema: Seq<Field>, columns: Seq<ColumnView>) -> bool {
    match batch_error(schema, columns) {
        Some(e) => r == Err::<ExperimentResultBatch, EngineError>(e),
        None => r matches Ok(b) && b.schema@ == schema && columns_view(b.columns@) == columns && b.rows == column_len(columns[0])
            && batch_wf(b),
    }
}

/// The first field named `name`.
pub open spec fn find_field(schema: Seq<Field>, name: Seq<char>) -> Option<int> {
    if exists|i: int| 0 <= i < schema.len() && #[trigger] schema[i].name@ == name {
        Some(choose|i: int| 0 <= i < schema.len() && #[trigger] schema[i].name@ == name
            && forall|j: int| 0 <= j < i ==> #[trigger] schema[j].name@ != name)
    } else {
        None
    }
}

proof fn lemma_find_field(schema: Seq<Field>, name: Seq<char>)
    ensures
        find_field(schema, name) matches Some(i) ==> 0 <= i < schema.len() && schema[i].name@ == name
            && forall|j: int| 0 <= j < i ==> #[trigger] schema[j].name@ != name,
        find_field(schema, name) is None ==> forall|j: int| 0 <= j < schema.len() ==> #[trigger] schema[j].name@ != name,
{
    if exists|i: int| 0 <= i < schema.len() && #[trigger] schema[i].name@ == name {
        let k = choose|i: int| 0 <= i < schema.len() && #[trigger] schema[i].name@ == name;
        let p = |i: int| schema[i].name@ == name;
        crate::search::lemma_least_index(p, schema.len() as int, k);
        assert(exists|i: int| 0 <= i < schema.len() && #[trigger] schema[i].name@ == name
            && forall|j: int| 0 <= j < i ==> #[trigger] schema[j].name@ != name) by {
            let i = choose|i: int| 0 <= i < schema.len() && #[trigger] p(i) && forall|j: int| 0 <= j < i ==> !#[trigger] p(j);
            assert(p(i));
            assert forall|j: int| 0 <= j < i implies #[trigger] schema[j].name@ != name by {
                assert(!p(j));
            }
        }
    }
}

/// Whether each of the first `n` names is a field.
pub open spec fn all_found(schema: Seq<Field>, names: Seq<&str>, n: int) -> bool {
    forall|k: int| 0 <= k < n ==> (#[trigger] find_field(schema, names[k]@)) is Some
}

} // verus!

verus! {

impl ExperimentResultBatch {
    /// Builds a batch, checking that every column has the type its field
    /// names and as many values as the first column.
    pub fn try_new(schema: Vec<Field>, columns: Vec<Column>) -> (r: Result<ExperimentResultBatch, EngineError>)
        ensures
            built_from(r, schema@, columns_view(columns@)),
            r matches Ok(b) ==> b.schema@ == schema@ && b.columns@ == columns@,
    {
        let ghost cv = columns_view(columns@);
        if schema.len() == 0 || columns.len() == 0 {
            return Err(EngineError::EmptyInput { context: "columnar batch" });
        }
        if schema.len() != columns.len() {
            return Err(EngineError::LengthMismatch { context: "schema and columns", expected: schema.len(), actual: columns.len() });
        }
        let rows = columns[0].len();
        assert(cv[0] == columns@[0]@);
        for i in 0..columns.len()
            invariant
                cv == columns_view(columns@),
                schema@.len() == columns@.len() > 0,
                rows == column_len(cv[0]),
                forall|j: int| 0 <= j < i ==> (#[trigger] column_problem(schema@, cv, rows as nat, j)) is None,
        {
            assert(cv[i as int] == columns@[i as int]@);
            let len = columns[i].len();
            let problem: Option<EngineError> = if len != rows {
                Some(EngineError::LengthMismatch { context: "column lengths", expected: rows, actual: len })
            } else if schema[i].dtype != columns[i].dtype() {
                Some(EngineError::InvalidConfig { context: "column dtype must match schema" })
            } else {
                None
            };
            assert(problem == column_problem(schema@, cv, rows as nat, i as int));
            if let Some(e) = problem {
                proof {
                    let k = i as int;
                    let c = choose|c: int| 0 <= c < cv.len() && (#[trigger] column_problem(schema@, cv, column_len(cv[0]), c)) is Some
                        && forall|j: int| 0 <= j < c ==> (#[trigger] column_problem(schema@, cv, column_len(cv[0]), j)) is None;
                    assert(0 <= k < cv.len() && column_problem(schema@, cv, column_len(cv[0]), k) is Some);
                    if c < k {
                        assert(column_problem(schema@, cv, column_len(cv[0]), c) is None);
                    } else if c > k {
                        assert(column_problem(schema@, cv, column_len(cv[0]), k) is None);
                    }
                }
                return Err(e);
            }
        }
        Ok(ExperimentResultBatch { schema, columns, rows })
    }

    /// The position of the first field named `name`.
    pub fn column_index(&self, name: &str) -> (r: Option<usize>)
        ensures
            match r {
                Some(i) => find_field(self.schema@, name@) == Some(i as int),
                None => find_field(self.schema@, name@) is None,
            },
    {
        for i in 0..self.schema.len()
            invariant
                forall|k: int| 0 <= k < i ==> #[trigger] self.schema@[k].name@ != name@,
        {
            if str_eq(self.schema[i].name.as_str(), name) {
                proof {
                    let k = i as int;
                    let c = choose|c: int| 0 <= c < self.schema@.len() && #[trigger] self.schema@[c].name@ == name@
                        && forall|j: int| 0 <= j < c ==> #[trigger] self.schema@[j].name@ != name@;
                    assert(self.schema@[k].name@ == name@);
                    if c < k {
                        assert(self.schema@[c].name@ != name@);
                    } else if c > k {
                        assert(self.schema@[k].name@ != name@);
                    }
                }
                return Some(i);
            }
        }
        None
    }
}

} // verus!

verus! {

/// The fields named by `names`, in that order.
pub open spec fn projected_schema(schema: Seq<Field>, names: Seq<&str>) -> Seq<Field> {
    Seq::new(names.len(), |k: int| schema[find_field(schema, names[k]@)->0])
}

/// The columns of the fields named by `names`, in that order.
pub open spec fn projected_columns(schema: Seq<Field>, columns: Seq<ColumnView>, names: Seq<&str>) -> Seq<ColumnView> {
    Seq::new(names.len(), |k: int| columns[find_field(schema, names[k]@)->0])
}

/// The mask of the values strictly above `threshold`.
pub open spec fn above(values: Seq<Float64>, threshold: Float64) -> Seq<bool> {
    Seq::new(values.len(), |i: int| lt_bits(threshold.bits, values[i].bits))
}

/// Every column of a batch filtered by one mask.
pub open spec fn filter_columns(columns: Seq<ColumnView>, mask: Seq<bool>) -> Seq<ColumnView> {
    columns.map_values(|c: ColumnView| filter_column(c, mask))
}

fn above_mask(values: &Vec<Float64>, threshold: Float64) -> (r: Vec<bool>)
    ensures
        r@ == above(values@, threshold),
{
    let mut mask: Vec<bool> = Vec::with_capacity(values.len());
    for i in 0..values.len()
        invariant
            mask@ == above(values@, threshold).take(i as int),
    {
        mask.push(values[i].gt(&threshold));
        proof {
            assert(mask@ =~= above(values@, threshold).take(i + 1));
        }
    }
    proof {
        assert(mask@ =~= above(values@, threshold));
    }
    mask
}

fn filter_all(columns: &Vec<Column>, mask: &Vec<bool>) -> (r: Vec<Column>)
    ensures
        columns_view(r@) == filter_columns(columns_view(columns@), mask@),
{
    let ghost cv = columns_view(columns@);
    let mut out: Vec<Column> = Vec::with_capacity(columns.len());
    for c in 0..columns.len()
        invariant
            cv == columns_view(columns@),
            columns_view(out@) == filter_columns(cv, mask@).take(c as int),
    {
        let filtered = columns[c].filter(mask.as_slice());
        let ghost before = out@;
        out.push(filtered);
        proof {
            assert(cv[c as int] == columns@[c as int]@);
            assert(columns_view(out@) =~= columns_view(before).push(filtered@));
            assert(columns_view(out@) =~= filter_columns(cv, mask@).take(c + 1));
        }
    }
    proof {
        assert(columns_view(out@) =~= filter_columns(cv, mask@));
    }
    out
}

fn copy_schema(schema: &Vec<Field>) -> (r: Vec<Field>)
    ensures
        r@ == schema@,
{
    let mut out: Vec<Field> = Vec::with_capacity(schema.len());
    for f in 0..schema.len()
        invariant
            out@ == schema@.take(f as int),
    {
        out.push(schema[f].duplicate());
        proof {
            assert(out@ =~= schema@.take(f + 1));
        }
    }
    proof {
        assert(out@ =~= schema@);
    }
    out
}

impl ExperimentResultBatch {
    /// The batch of the named columns, in the order named.
    pub fn project(&self, names: &[&str]) -> (r: Result<ExperimentResultBatch, EngineError>)
        requires
            forall|k: int| 0 <= k < names@.len() && all_found(self.schema@, names@, k + 1)
                ==> (#[trigger] find_field(self.schema@, names@[k]@))->0 < self.columns@.len(),
        ensures
            names@.len() == 0 ==> r == Err::<ExperimentResultBatch, EngineError>(EngineError::EmptyInput { context: "projection columns" }),
            names@.len() > 0 && !all_found(self.schema@, names@, names@.len() as int) ==> r == Err::<ExperimentResultBatch, EngineError>(
                EngineError::InvalidConfig { context: "projection column must exist" },
            ),
            names@.len() > 0 && all_found(self.schema@, names@, names@.len() as int) ==> built_from(
                r,
                projected_schema(self.schema@, names@),
                projected_columns(self.schema@, columns_view(self.columns@), names@),
            ),
    {
        if names.len() == 0 {
            return Err(EngineError::EmptyInput { context: "projection columns" });
        }
        let ghost cv = columns_view(self.columns@);
        let mut schema: Vec<Field> = Vec::with_capacity(names.len());
        let mut columns: Vec<Column> = Vec::with_capacity(names.len());
        for k in 0..names.len()
            invariant
                cv == columns_view(self.columns@),
                forall|k: int| 0 <= k < names@.len() && all_found(self.schema@, names@, k + 1)
                    ==> (#[trigger] find_field(self.schema@, names@[k]@))->0 < self.columns@.len(),
                all_found(self.schema@, names@, k as int),
                schema@ == projected_schema(self.schema@, names@).take(k as int),
                columns_view(columns@) == projected_columns(self.schema@, cv, names@).take(k as int),
        {
            let name: &str = names[k];
            assert(name@ == names@[k as int]@);
            let index = match self.column_index(name) {
                Some(index) => index,
                None => {
                    return Err(EngineError::InvalidConfig { context: "projection column must exist" });
                },
            };
            proof {
                lemma_find_field(self.schema@, names@[k as int]@);
                assert(all_found(self.schema@, names@, k + 1));
                assert(find_field(self.schema@, names@[k as int]@) == Some(index as int));
                assert(cv[index as int] == self.columns@[index as int]@);
            }
            schema.push(self.schema[index].duplicate());
            let copy = self.columns[index].duplicate();
            let ghost before = columns@;
            columns.push(copy);
            proof {
                assert(columns_view(columns@) =~= columns_view(before).push(copy@));
                assert(schema@ =~= projected_schema(self.schema@, names@).take(k + 1));
                assert(columns_view(columns@) =~= projected_columns(self.schema@, cv, names@).take(k + 1));
            }
        }
        proof {
            assert(schema@ =~= projected_schema(self.schema@, names@));
            assert(columns_view(columns@) =~= projected_columns(self.schema@, cv, names@));
        }
        ExperimentResultBatch::try_new(schema, columns)
    }

    /// The rows whose `total_return` is strictly above `threshold`.
    pub fn filter_total_return_gt(&self, threshold: Float64) -> (r: Result<ExperimentResultBatch, EngineError>)
        requires
            find_field(self.schema@, "total_return"@) matches Some(i) ==> i < self.columns@.len(),
        ensures
            match find_field(self.schema@, "total_return"@) {
                None => r == Err::<ExperimentResultBatch, EngineError>(EngineError::InvalidConfig { context: "total_return column must exist" }),
                Some(i) => match self.columns@[i]@ {
                    ColumnView::F64(values) => built_from(r, self.schema@, filter_columns(columns_view(self.columns@), above(values, threshold))),
                    _ => r == Err::<ExperimentResultBatch, EngineError>(EngineError::InvalidConfig { context: "total_return must be f64" }),
                },
            },
    {
        proof {
            reveal_strlit("total_return");
        }
        let index = match self.column_index("total_return") {
            Some(index) => index,
            None => {
                return Err(EngineError::InvalidConfig { context: "total_return column must exist" });
            },
        };
        proof {
            lemma_find_field(self.schema@, "total_return"@);
        }
        let values = match &self.columns[index] {
            Column::F64(values) => values,
            _ => {
                return Err(EngineError::InvalidConfig { context: "total_return must be f64" });
            },
        };
        let mask = above_mask(values, threshold);
        let columns = filter_all(&self.columns, &mask);
        let schema = copy_schema(&self.schema);
        ExperimentResultBatch::try_new(schema, columns)
    }
}

} // verus!

verus! {

/// Names and types of the columns of a result batch.
pub open spec fn result_schema() -> Seq<(Seq<char>, ColumnType)> {
    seq![
        ("id"@, ColumnType::Utf8),
        ("window"@, ColumnType::U64),
        ("entry_z"@, ColumnType::F64),
        ("fee_bps"@, ColumnType::F64),
        ("seed"@, ColumnType::U64),
        ("final_equity"@, ColumnType::F64),
        ("total_return"@, ColumnType::F64),
        ("max_drawdown"@, ColumnType::F64),
    ]
}

/// The columns of a result batch, in the order of `result_schema`.
pub open spec fn result_columns(results: Seq<ExperimentResult>) -> Seq<ColumnView> {
    seq![
        ColumnView::Utf8(results.map_values(|r: ExperimentResult| r.id@)),
        ColumnView::U64(results.map_values(|r: ExperimentResult| r.window as u64)),
        ColumnView::F64(results.map_values(|r: ExperimentResult| r.entry_z)),
        ColumnView::F64(results.map_values(|r: ExperimentResult| r.fee_bps)),
        ColumnView::U64(results.map_values(|r: ExperimentResult| r.seed)),
        ColumnView::F64(results.map_values(|r: ExperimentResult| r.final_equity)),
        ColumnView::F64(results.map_values(|r: ExperimentResult| r.total_return)),
        ColumnView::F64(results.map_values(|r: ExperimentResult| r.max_drawdown)),
    ]
}

/// The fields of a schema as name and type.
pub open spec fn schema_view(schema: Seq<Field>) -> Seq<(Seq<char>, ColumnType)> {
    schema.map_values(|f: Field| (f.name@, f.dtype))
}

impl ExperimentResultBatch {
    /// The batch of one row per result.
    pub fn from_results(results: &[ExperimentResult]) -> (r: Result<ExperimentResultBatch, EngineError>)
        ensures
            results@.len() == 0 ==> r == Err::<ExperimentResultBatch, EngineError>(EngineError::EmptyInput { context: "experiment result batch" }),
            results@.len() > 0 ==> (r matches Ok(b) && schema_view(b.schema@) == result_schema()
                && columns_view(b.columns@) == result_columns(results@) && b.rows == results@.len() && batch_wf(b)),
            r matches Ok(b) ==> forall|k: int| 0 <= k < results@.len() ==> #[trigger] row_holds(b, k, results@[k]),
    {
        if results.len() == 0 {
            return Err(EngineError::EmptyInput { context: "experiment result batch" });
        }
        let mut ids: Vec<String> = Vec::new();
        let mut windows: Vec<u64> = Vec::new();
        let mut entry_zs: Vec<Float64> = Vec::new();
        let mut fees: Vec<Float64> = Vec::new();
        let mut seeds: Vec<u64> = Vec::new();
        let mut equities: Vec<Float64> = Vec::new();
        let mut total_returns: Vec<Float64> = Vec::new();
        let mut drawdowns: Vec<Float64> = Vec::new();
        for i in 0..results.len()
            invariant
                ids@.map_values(|s: String| s@) == results@.take(i as int).map_values(|r: ExperimentResult| r.id@),
                windows@ == results@.take(i as int).map_values(|r: ExperimentResult| r.window as u64),
                entry_zs@ == results@.take(i as int).map_values(|r: ExperimentResult| r.entry_z),
                fees@ == results@.take(i as int).map_values(|r: ExperimentResult| r.fee_bps),
                seeds@ == results@.take(i as int).map_values(|r: ExperimentResult| r.seed),
                equities@ == results@.take(i as int).map_values(|r: ExperimentResult| r.final_equity),
                total_returns@ == results@.take(i as int).map_values(|r: ExperimentResult| r.total_return),
                drawdowns@ == results@.take(i as int).map_values(|r: ExperimentResult| r.max_drawdown),
        {
            let r = &results[i];
            let id = r.id.clone();
            let ghost before = ids@;
            ids.push(id);
            windows.push(r.window as u64);
            entry_zs.push(r.entry_z);
            fees.push(r.fee_bps);
            seeds.push(r.seed);
            equities.push(r.final_equity);
            total_returns.push(r.total_return);
            drawdowns.push(r.max_drawdown);
            proof {
                let t = results@.take(i + 1);
                assert(t =~= results@.take(i as int).push(results@[i as int]));
                assert(ids@ == before.push(id));
                assert(ids@.map_values(|s: String| s@) =~= before.map_values(|s: String| s@).push(id@));
                assert(ids@.map_values(|s: String| s@) =~= t.map_values(|r: ExperimentResult| r.id@));
                assert(windows@ =~= t.map_values(|r: ExperimentResult| r.window as u64));
                assert(entry_zs@ =~= t.map_values(|r: ExperimentResult| r.entry_z));
                assert(fees@ =~= t.map_values(|r: ExperimentResult| r.fee_bps));
                assert(seeds@ =~= t.map_values(|r: ExperimentResult| r.seed));
                assert(equities@ =~= t.map_values(|r: ExperimentResult| r.final_equity));
                assert(total_returns@ =~= t.map_values(|r: ExperimentResult| r.total_return));
                assert(drawdowns@ =~= t.map_values(|r: ExperimentResult| r.max_drawdown));
            }
        }
        proof {
            assert(results@.take(results@.len() as int) =~= results@);
        }
        let mut schema: Vec<Field> = Vec::new();
        schema.push(Field::new("id", ColumnType::Utf8));
        schema.push(Field::new("window", ColumnType::U64));
        schema.push(Field::new("entry_z", ColumnType::F64));
        schema.push(Field::new("fee_bps", ColumnType::F64));
        schema.push(Field::new("seed", ColumnType::U64));
        schema.push(Field::new("final_equity", ColumnType::F64));
        schema.push(Field::new("total_return", ColumnType::F64));
        schema.push(Field::new("max_drawdown", ColumnType::F64));
        let mut columns: Vec<Column> = Vec::new();
        columns.push(Column::Utf8(ids));
        columns.push(Column::U64(windows));
        columns.push(Column::F64(entry_zs));
        columns.push(Column::F64(fees));
        columns.push(Column::U64(seeds));
        columns.push(Column::F64(equities));
        columns.push(Column::F64(total_returns));
        columns.push(Column::F64(drawdowns));
        proof {
            assert(schema_view(schema@) =~= result_schema());
            assert(columns_view(columns@) =~= result_columns(results@));
            let cv = columns_view(columns@);
            assert forall|i: int| 0 <= i < cv.len() implies (#[trigger] column_problem(schema@, cv, column_len(cv[0]), i)) is None by {
                assert(schema_view(schema@)[i] == result_schema()[i]);
            }
        }
        let r = ExperimentResultBatch::try_new(schema, columns);
        proof {
            if r is Ok {
                result_batch_rows_hold_results(results@, r->Ok_0);
            }
        }
        r
    }
}

/// Row `k` of `b` holds result `r`: the schema names the eight fields of a
/// result, and the column under each name carries, at row `k`, the field of
/// `r` with that name.
pub open spec fn row_holds(b: ExperimentResultBatch, k: int, r: ExperimentResult) -> bool {
    let c = columns_view(b.columns@);
    &&& b.schema@.len() == 8 && c.len() == 8
    &&& b.schema@[0].name@ == "id"@
    &&& c[0] matches ColumnView::Utf8(v) && v[k] == r.id@
    &&& b.schema@[1].name@ == "window"@
    &&& c[1] matches ColumnView::U64(v) && v[k] == r.window as u64
    &&& b.schema@[2].name@ == "entry_z"@
    &&& c[2] matches ColumnView::F64(v) && v[k] == r.entry_z
    &&& b.schema@[3].name@ == "fee_bps"@
    &&& c[3] matches ColumnView::F64(v) && v[k] == r.fee_bps
    &&& b.schema@[4].name@ == "seed"@
    &&& c[4] matches ColumnView::U64(v) && v[k] == r.seed
    &&& b.schema@[5].name@ == "final_equity"@
    &&& c[5] matches ColumnView::F64(v) && v[k] == r.final_equity
    &&& b.schema@[6].name@ == "total_return"@
    &&& c[6] matches ColumnView::F64(v) && v[k] == r.total_return
    &&& b.schema@[7].name@ == "max_drawdown"@
    &&& c[7] matches ColumnView::F64(v) && v[k] == r.max_drawdown
}

/// A batch built from results holds, in every row, the result of that row:
/// each field of the result sits in the column that bears its name.
pub proof fn result_batch_rows_hold_results(results: Seq<ExperimentResult>, b: ExperimentResultBatch)
    requires
        schema_view(b.schema@) == result_schema(),
        columns_view(b.columns@) == result_columns(results),
    ensures
        forall|k: int| 0 <= k < results.len() ==> #[trigger] row_holds(b, k, results[k]),
{
    assert forall|k: int| 0 <= k < results.len() implies #[trigger] row_holds(b, k, results[k]) by {
        let sv = schema_view(b.schema@);
        assert(sv.len() == 8);
        assert forall|i: int| 0 <= i < 8 implies b.schema@[i].name@ == (#[trigger] result_schema()[i]).0 by {
            assert(sv[i] == (b.schema@[i].name@, b.schema@[i].dtype));
        }
        assert(b.schema@[0].name@ == result_schema()[0].0);
        assert(b.schema@[1].name@ == result_schema()[1].0);
        assert(b.schema@[2].name@ == result_schema()[2].0);
        assert(b.schema@[3].name@ == result_schema()[3].0);
        assert(b.schema@[4].name@ == result_schema()[4].0);
        assert(b.schema@[5].name@ == result_schema()[5].0);
        assert(b.schema@[6].name@ == result_schema()[6].0);
        assert(b.schema@[7].name@ == result_schema()[7].0);
    }
}

} // verus!

verus! {

proof fn lemma_keep_above<T>(values: Seq<Float64>, threshold: Float64, n: nat)
    requires
        n <= values.len(),
    ensures
        forall|k: int| 0 <= k < keep_masked(values, above(values, threshold), n).len()
            ==> lt_bits(threshold.bits, #[trigger] keep_masked(values, above(values, threshold), n)[k].bits),
    decreases n,
{
    if n > 0 {
        lemma_keep_above::<T>(values, threshold, (n - 1) as nat);
        let prev = keep_masked(values, above(values, threshold), (n - 1) as nat);
        let cur = keep_masked(values, above(values, threshold), n);
        assert forall|k: int| 0 <= k < cur.len() implies lt_bits(threshold.bits, #[trigger] cur[k].bits) by {
            if k < prev.len() {
                assert(cur[k] == prev[k]);
            }
        }
    }
}

proof fn lemma_filter_column_len(c: ColumnView, mask: Seq<bool>)
    requires
        column_len(c) == mask.len(),
    ensures
        column_len(filter_column(c, mask)) == count_true(mask, mask.len()),
        column_type(filter_column(c, mask)) == column_type(c),
{
    match c {
        ColumnView::Utf8(v) => lemma_keep_masked_len(v, mask, mask.len()),
        ColumnView::U64(v) => lemma_keep_masked_len(v, mask, mask.len()),
        ColumnView::F64(v) => lemma_keep_masked_len(v, mask, mask.len()),
    }
}

/// In a well-formed batch every column has the batch's rows and its field's type.
pub proof fn lemma_batch_wf_columns(b: ExperimentResultBatch)
    requires
        batch_wf(b),
    ensures
        b.schema@.len() == b.columns@.len() > 0,
        forall|j: int| 0 <= j < b.columns@.len() ==> column_len(#[trigger] b.columns@[j]@) == b.rows
            && b.schema@[j].dtype == column_type(b.columns@[j]@),
{
    let cv = columns_view(b.columns@);
    let rows = column_len(cv[0]);
    assert forall|j: int| 0 <= j < cv.len() implies (#[trigger] column_problem(b.schema@, cv, rows, j)) is None by {
        if column_problem(b.schema@, cv, rows, j) is Some {
            let p = |k: int| (column_problem(b.schema@, cv, rows, k)) is Some;
            assert(p(j));
            crate::search::lemma_least_index(p, cv.len() as int, j);
            let m = choose|m: int| 0 <= m < cv.len() && #[trigger] p(m) && forall|k: int| 0 <= k < m ==> !#[trigger] p(k);
            assert(exists|m: int| 0 <= m < cv.len() && (#[trigger] column_problem(b.schema@, cv, rows, m)) is Some
                && forall|k: int| 0 <= k < m ==> (#[trigger] column_problem(b.schema@, cv, rows, k)) is None) by {
                assert(p(m));
                assert forall|k: int| 0 <= k < m implies (#[trigger] column_problem(b.schema@, cv, rows, k)) is None by {
                    assert(!p(k));
                }
            }
        }
    }
    assert forall|j: int| 0 <= j < b.columns@.len() implies column_len(#[trigger] b.columns@[j]@) == b.rows
        && b.schema@[j].dtype == column_type(b.columns@[j]@) by {
        assert(cv[j] == b.columns@[j]@);
        assert(column_problem(b.schema@, cv, rows, j) is None);
    }
}

/// Filtering a well-formed batch on `total_return` always succeeds; it keeps
/// the schema, keeps exactly the rows whose `total_return` is strictly above
/// the threshold, and every `total_return` left is above it.
pub proof fn filter_keeps_only_returns_above(b: ExperimentResultBatch, threshold: Float64, r: Result<ExperimentResultBatch, EngineError>)
    requires
        batch_wf(b),
        find_field(b.schema@, "total_return"@) is Some,
        b.columns@[find_field(b.schema@, "total_return"@)->0]@ is F64,
        ({
            let i = find_field(b.schema@, "total_return"@)->0;
            let values = b.columns@[i]@->F64_0;
            built_from(r, b.schema@, filter_columns(columns_view(b.columns@), above(values, threshold)))
        }),
    ensures
        ({
            let i = find_field(b.schema@, "total_return"@)->0;
            let values = b.columns@[i]@->F64_0;
            &&& r matches Ok(f)
            &&& f.schema@ == b.schema@
            &&& f.rows == count_true(above(values, threshold), values.len())
            &&& f.columns@[i]@ matches ColumnView::F64(kept) && forall|k: int| 0 <= k < kept.len() ==> lt_bits(threshold.bits, #[trigger] kept[k].bits)
        }),
{
    let i = find_field(b.schema@, "total_return"@)->0;
    lemma_find_field(b.schema@, "total_return"@);
    let cv = columns_view(b.columns@);
    let values = b.columns@[i]@->F64_0;
    let mask = above(values, threshold);
    let fc = filter_columns(cv, mask);
    lemma_batch_wf_columns(b);
    assert(cv[i] == b.columns@[i]@);
    assert forall|j: int| 0 <= j < fc.len() implies (#[trigger] column_problem(b.schema@, fc, column_len(fc[0]), j)) is None by {
        assert(cv[j] == b.columns@[j]@);
        assert(cv[0] == b.columns@[0]@);
        lemma_filter_column_len(cv[j], mask);
        lemma_filter_column_len(cv[0], mask);
    }
    lemma_keep_above::<Float64>(values, threshold, values.len());
    lemma_filter_column_len(cv[0], mask);
    assert(fc.len() == cv.len());
    assert(batch_error(b.schema@, fc) is None);
    let f = r->Ok_0;
    assert(columns_view(f.columns@) == fc);
    assert(f.columns@[i]@ == fc[i]);
    assert(fc[i] == filter_column(cv[i], mask));
    assert(fc[i] == ColumnView::F64(keep_masked(values, mask, values.len())));
}

} // verus!
