use vstd::prelude::*;

use crate::data::MarketPartition;
use crate::error::EngineError;
use crate::float_bits::{Float64, eq_bits, finite_bits};
use crate::text::{decimal, i64_to_decimal, is_blank, push_str, signed_decimal, trim, trim_seq, u64_to_decimal, usize_to_decimal};

verus! {

broadcast use vstd::string::group_string_axioms;

/// The parameters of one experiment run.
#[derive(Debug, PartialEq)]
pub struct ExperimentConfig {
    pub id: String,
    pub window: usize,
    pub entry_z: Float64,
    pub exit_z: Float64,
    pub fee_bps: Float64,
    pub seed: u64,
}

impl ExperimentConfig {
    /// A copy with the same fields.
    pub fn duplicate(&self) -> (r: ExperimentConfig)
        ensures
            r == *self,
    {
        ExperimentConfig {
            id: self.id.clone(),
            window: self.window,
            entry_z: self.entry_z,
            exit_z: self.exit_z,
            fee_bps: self.fee_bps,
            seed: self.seed,
        }
    }
}

impl Clone for ExperimentConfig {
    fn clone(&self) -> (r: ExperimentConfig)
        ensures
            r == *self,
    {
        self.duplicate()
    }
}

/// The outcome of one experiment run.
#[derive(Debug)]
pub struct ExperimentResult {
    pub id: String,
    pub window: usize,
    pub entry_z: Float64,
    pub fee_bps: Float64,
    pub seed: u64,
    pub final_equity: Float64,
    pub total_return: Float64,
    pub max_drawdown: Float64,
}

/// Field-wise equality of two results, with IEEE equality on the numbers.
pub open spec fn same_result(a: ExperimentResult, b: ExperimentResult) -> bool {
    &&& a.id@ == b.id@
    &&& a.window == b.window
    &&& eq_bits(a.entry_z.bits, b.entry_z.bits)
    &&& eq_bits(a.fee_bps.bits, b.fee_bps.bits)
    &&& a.seed == b.seed
    &&& eq_bits(a.final_equity.bits, b.final_equity.bits)
    &&& eq_bits(a.total_return.bits, b.total_return.bits)
    &&& eq_bits(a.max_drawdown.bits, b.max_drawdown.bits)
}

impl ExperimentResult {
    /// A copy with the same fields.
    pub fn duplicate(&self) -> (r: ExperimentResult)
        ensures
            r == *self,
    {
        ExperimentResult {
            id: self.id.clone(),
            window: self.window,
            entry_z: self.entry_z,
            fee_bps: self.fee_bps,
            seed: self.seed,
            final_equity: self.final_equity,
            total_return: self.total_return,
            max_drawdown: self.max_drawdown,
        }
    }

    /// Field-wise equality, as `==` on the result.
    pub fn same_as(&self, other: &ExperimentResult) -> (r: bool)
        ensures
            r == same_result(*self, *other),
    {
        self.id == other.id && self.window == other.window && self.entry_z.num_eq(&other.entry_z)
            && self.fee_bps.num_eq(&other.fee_bps) && self.seed == other.seed
            && self.final_equity.num_eq(&other.final_equity) && self.total_return.num_eq(&other.total_return)
            && self.max_drawdown.num_eq(&other.max_drawdown)
    }
}

impl Clone for ExperimentResult {
    fn clone(&self) -> (r: ExperimentResult)
        ensures
            r == *self,
    {
        self.duplicate()
    }
}

impl PartialEq for ExperimentResult {
    fn eq(&self, other: &ExperimentResult) -> (r: bool) {
        self.same_as(other)
    }
}

impl vstd::std_specs::cmp::PartialEqSpecImpl for ExperimentResult {
    open spec fn obeys_eq_spec() -> bool {
        true
    }

    open spec fn eq_spec(&self, other: &ExperimentResult) -> bool {
        same_result(*self, *other)
    }
}

} // verus!

verus! {

/// The identity of an experiment task: strategy, market data and parameters,
/// the two real parameters in ten-thousandths.
#[derive(Debug, Clone, PartialEq, Eq)]
pub struct ExperimentTaskKey {
    pub strategy_version: String,
    pub symbol: String,
    pub start_timestamp: u64,
    pub end_timestamp: u64,
    pub data_version: String,
    pub seed: u64,
    pub window: usize,
    pub entry_z_scaled: i64,
    pub fee_bps_scaled: i64,
}

/// Why a task key is refused, if it is: a blank strategy version, a zero
/// window, or a parameter that is not finite.
pub open spec fn task_key_error(strategy_version: Seq<char>, config: ExperimentConfig) -> Option<&'static str> {
    if is_blank(strategy_version) {
        Some("strategy_version must not be empty")
    } else if config.window == 0 {
        Some("experiment window must be greater than zero")
    } else if !finite_bits(config.entry_z.bits) || !finite_bits(config.fee_bps.bits) {
        Some("experiment task key numeric fields must be finite")
    } else {
        None
    }
}

/// The identifier string of a task key.
pub open spec fn task_key_id(k: ExperimentTaskKey) -> Seq<char> {
    "strategy="@ + k.strategy_version@ + "|symbol="@ + k.symbol@ + "|from="@ + decimal(k.start_timestamp as nat) + "|to="@
        + decimal(k.end_timestamp as nat) + "|data="@ + k.data_version@ + "|seed="@ + decimal(k.seed as nat) + "|window="@
        + decimal(k.window as nat) + "|entry_z="@ + signed_decimal(k.entry_z_scaled as int) + "|fee_bps="@
        + signed_decimal(k.fee_bps_scaled as int)
}

impl ExperimentTaskKey {
    /// The key of running `config` with this strategy version on this
    /// partition. `entry_z_scaled` and `fee_bps_scaled` are the config's
    /// `entry_z` and `fee_bps` in ten-thousandths, rounded.
    pub fn new(strategy_version: &str, partition: &MarketPartition, config: &ExperimentConfig, entry_z_scaled: i64, fee_bps_scaled: i64) -> (r: Result<ExperimentTaskKey, EngineError>)
        ensures
            match task_key_error(strategy_version@, *config) {
                Some(context) => r == Err::<ExperimentTaskKey, EngineError>(EngineError::InvalidConfig { context }),
                None => r matches Ok(k) && {
                    &&& k.strategy_version@ == trim_seq(strategy_version@)
                    &&& k.symbol == partition.symbol
                    &&& k.start_timestamp == partition.start_timestamp
                    &&& k.end_timestamp == partition.end_timestamp
                    &&& k.data_version == partition.data_version
                    &&& k.seed == config.seed
                    &&& k.window == config.window
                    &&& k.entry_z_scaled == entry_z_scaled
                    &&& k.fee_bps_scaled == fee_bps_scaled
                },
            },
    {
        let strategy_version = trim(strategy_version);
        if strategy_version.as_str().is_empty() {
            return Err(EngineError::InvalidConfig { context: "strategy_version must not be empty" });
        }
        if config.window == 0 {
            return Err(EngineError::InvalidConfig { context: "experiment window must be greater than zero" });
        }
        if !config.entry_z.is_finite() || !config.fee_bps.is_finite() {
            return Err(EngineError::InvalidConfig { context: "experiment task key numeric fields must be finite" });
        }
        Ok(ExperimentTaskKey {
            strategy_version,
            symbol: partition.symbol.clone(),
            start_timestamp: partition.start_timestamp,
            end_timestamp: partition.end_timestamp,
            data_version: partition.data_version.clone(),
            seed: config.seed,
            window: config.window,
            entry_z_scaled,
            fee_bps_scaled,
        })
    }

    /// The identifier string of this key, which names every field.
    pub fn deterministic_id(&self) -> (r: String)
        ensures
            r@ == task_key_id(*self),
    {
        let mut out = String::new();
        push_str(&mut out, "strategy=");
        push_str(&mut out, self.strategy_version.as_str());
        push_str(&mut out, "|symbol=");
        push_str(&mut out, self.symbol.as_str());
        push_str(&mut out, "|from=");
        push_str(&mut out, u64_to_decimal(self.start_timestamp).as_str());
        push_str(&mut out, "|to=");
        push_str(&mut out, u64_to_decimal(self.end_timestamp).as_str());
        push_str(&mut out, "|data=");
        push_str(&mut out, self.data_version.as_str());
        push_str(&mut out, "|seed=");
        push_str(&mut out, u64_to_decimal(self.seed).as_str());
        push_str(&mut out, "|window=");
        push_str(&mut out, usize_to_decimal(self.window).as_str());
        push_str(&mut out, "|entry_z=");
        push_str(&mut out, i64_to_decimal(self.entry_z_scaled).as_str());
        push_str(&mut out, "|fee_bps=");
        push_str(&mut out, i64_to_decimal(self.fee_bps_scaled).as_str());
        assert(out@ =~= task_key_id(*self));
        out
    }
}

/// The identifier depends on the key's fields alone: keys with the same
/// fields have the same identifier, whatever their strings' storage.
pub proof fn task_key_id_is_deterministic(a: ExperimentTaskKey, b: ExperimentTaskKey)
    requires
        a.strategy_version@ == b.strategy_version@,
        a.symbol@ == b.symbol@,
        a.start_timestamp == b.start_timestamp,
        a.end_timestamp == b.end_timestamp,
        a.data_version@ == b.data_version@,
        a.seed == b.seed,
        a.window == b.window,
        a.entry_z_scaled == b.entry_z_scaled,
        a.fee_bps_scaled == b.fee_bps_scaled,
    ensures
        task_key_id(a) == task_key_id(b),
{
}

} // verus!

verus! {

/// The values that a grid of experiments sweeps over.
#[derive(Debug, Clone, PartialEq)]
pub struct ExperimentGrid {
    pub windows: Vec<usize>,
    pub entry_z_values: Vec<Float64>,
    pub fee_bps_values: Vec<Float64>,
    pub seed: u64,
}

/// One point of a grid: its number (counting from 1) and its three values.
#[derive(Debug, Clone, Copy, PartialEq)]
pub struct GridCell {
    pub index: usize,
    pub window: usize,
    pub entry_z: Float64,
    pub fee_bps: Float64,
}

/// Every combination of a window, an entry threshold and a fee, windows
/// varying slowest and fees fastest.
pub open spec fn grid_points(windows: Seq<usize>, entry_z: Seq<Float64>, fee_bps: Seq<Float64>) -> Seq<(usize, Float64, Float64)> {
    Seq::new(windows.len(), |a: int| grid_row(windows[a], entry_z, fee_bps)).flatten()
}

/// The points of one window.
pub open spec fn grid_row(window: usize, entry_z: Seq<Float64>, fee_bps: Seq<Float64>) -> Seq<(usize, Float64, Float64)> {
    Seq::new(entry_z.len(), |b: int| grid_line(window, entry_z[b], fee_bps)).flatten()
}

/// The points of one window and one entry threshold.
pub open spec fn grid_line(window: usize, entry_z: Float64, fee_bps: Seq<Float64>) -> Seq<(usize, Float64, Float64)> {
    Seq::new(fee_bps.len(), |c: int| (window, entry_z, fee_bps[c]))
}

pub open spec fn cell_point(c: GridCell) -> (usize, Float64, Float64) {
    (c.window, c.entry_z, c.fee_bps)
}

proof fn lemma_cell_count(nw: int, nz: int, nf: int, a: int, b: int, c: int)
    requires
        0 <= a < nw,
        0 <= b < nz,
        0 <= c < nf,
    ensures
        a * (nz * nf) + b * nf + c + 1 <= nw * (nz * nf),
        a * (nz * nf) + b * nf + nf == a * (nz * nf) + (b + 1) * nf,
        a * (nz * nf) + nz * nf == (a + 1) * (nz * nf),
{
    assert(b * nf + c + 1 <= nz * nf) by (nonlinear_arith)
        requires 0 <= b < nz, 0 <= c < nf;
    assert((a + 1) * (nz * nf) <= nw * (nz * nf)) by (nonlinear_arith)
        requires 0 <= a < nw, nz * nf >= 0;
    assert(a * (nz * nf) + nz * nf == (a + 1) * (nz * nf)) by (nonlinear_arith);
    assert(b * nf + nf == (b + 1) * nf) by (nonlinear_arith);
}

impl ExperimentGrid {
    /// The points of the grid in order, numbered from 1; refused when any of
    /// the three value lists is empty.
    pub fn expand_cells(&self) -> (r: Result<Vec<GridCell>, EngineError>)
        requires
            self.windows.len() * (self.entry_z_values.len() * self.fee_bps_values.len()) < usize::MAX,
        ensures
            self.windows@.len() == 0 || self.entry_z_values@.len() == 0 || self.fee_bps_values@.len() == 0
                ==> r == Err::<Vec<GridCell>, EngineError>(EngineError::EmptyInput { context: "experiment grid" }),
            self.windows@.len() > 0 && self.entry_z_values@.len() > 0 && self.fee_bps_values@.len() > 0 ==> {
                &&& r is Ok
                &&& r->Ok_0@.map_values(|c: GridCell| cell_point(c)) == grid_points(
                    self.windows@,
                    self.entry_z_values@,
                    self.fee_bps_values@,
                )
                &&& forall|k: int| 0 <= k < r->Ok_0@.len() ==> (#[trigger] r->Ok_0@[k]).index == k + 1
            },
    {
        if self.windows.len() == 0 || self.entry_z_values.len() == 0 || self.fee_bps_values.len() == 0 {
            return Err(EngineError::EmptyInput { context: "experiment grid" });
        }
        let ghost ws = self.windows@;
        let ghost zs = self.entry_z_values@;
        let ghost fs = self.fee_bps_values@;
        let mut cells: Vec<GridCell> = Vec::new();
        let mut index: usize = 0;
        let nw = self.windows.len();
        let nz = self.entry_z_values.len();
        let nf = self.fee_bps_values.len();
        let ghost rowf = |a: int| grid_row(ws[a], zs, fs);
        assert(0 * (nz * nf) == 0) by (nonlinear_arith);
        for a in 0..nw
            invariant
                nw == ws.len(),
                nz == zs.len() > 0,
                nf == fs.len() > 0,
                ws == self.windows@,
                zs == self.entry_z_values@,
                fs == self.fee_bps_values@,
                nw * (nz * nf) < usize::MAX,
                rowf == (|a: int| grid_row(ws[a], zs, fs)),
                index == cells.len(),
                cells.len() == a * (nz * nf),
                cells@.map_values(|c: GridCell| cell_point(c)) == Seq::new(a as nat, rowf).flatten(),
                forall|k: int| 0 <= k < cells@.len() ==> (#[trigger] cells@[k]).index == k + 1,
        {
            let w = self.windows[a];
            let ghost linef = |b: int| grid_line(w, zs[b], fs);
            let ghost done_rows = Seq::new(a as nat, rowf).flatten();
            assert(0 * nf == 0) by (nonlinear_arith);
            for b in 0..nz
                invariant
                    0 <= a < nw,
                    nz == zs.len(),
                    nf == fs.len() > 0,
                    zs == self.entry_z_values@,
                    fs == self.fee_bps_values@,
                    nw * (nz * nf) < usize::MAX,
                    linef == (|b: int| grid_line(w, zs[b], fs)),
                    index == cells.len(),
                    cells.len() == a * (nz * nf) + b * nf,
                    cells@.map_values(|c: GridCell| cell_point(c)) == done_rows + Seq::new(b as nat, linef).flatten(),
                    forall|k: int| 0 <= k < cells@.len() ==> (#[trigger] cells@[k]).index == k + 1,
            {
                let z = self.entry_z_values[b];
                let ghost done_lines = done_rows + Seq::new(b as nat, linef).flatten();
                for c in 0..nf
                    invariant
                        0 <= a < nw,
                        0 <= b < nz,
                        nf == fs.len(),
                        fs == self.fee_bps_values@,
                        nw * (nz * nf) < usize::MAX,
                        index == cells.len(),
                        cells.len() == a * (nz * nf) + b * nf + c,
                        cells@.map_values(|c: GridCell| cell_point(c)) == done_lines + grid_line(w, z, fs).take(c as int),
                        forall|k: int| 0 <= k < cells@.len() ==> (#[trigger] cells@[k]).index == k + 1,
                {
                    let f = self.fee_bps_values[c];
                    proof {
                        lemma_cell_count(nw as int, nz as int, nf as int, a as int, b as int, c as int);
                    }
                    index = index + 1;
                    let cell = GridCell { index, window: w, entry_z: z, fee_bps: f };
                    let ghost before = cells@;
                    cells.push(cell);
                    proof {
                        assert(cells@ =~= before.push(cell));
                        assert(cells@.map_values(|c: GridCell| cell_point(c)) =~= before.map_values(
                            |c: GridCell| cell_point(c),
                        ).push(cell_point(cell)));
                        assert(grid_line(w, z, fs).take(c + 1) =~= grid_line(w, z, fs).take(c as int).push((w, z, f)));
                    }
                }
                proof {
                    lemma_cell_count(nw as int, nz as int, nf as int, a as int, b as int, 0);
                    assert(grid_line(w, z, fs).take(nf as int) =~= grid_line(w, z, fs));
                    assert(Seq::new(b as nat + 1, linef) =~= Seq::new(b as nat, linef).push(linef(b as int)));
                    Seq::new(b as nat, linef).lemma_flatten_push(linef(b as int));
                    assert(done_lines + grid_line(w, z, fs) =~= done_rows + Seq::new(b as nat + 1, linef).flatten());
                }
            }
            proof {
                lemma_cell_count(nw as int, nz as int, nf as int, a as int, 0, 0);
                assert(Seq::new(nz as nat, linef) =~= Seq::new(zs.len(), |b: int| grid_line(w, zs[b], fs)));
                assert(rowf(a as int) == grid_row(w, zs, fs));
                assert(Seq::new(a as nat + 1, rowf) =~= Seq::new(a as nat, rowf).push(rowf(a as int)));
                Seq::new(a as nat, rowf).lemma_flatten_push(rowf(a as int));
            }
        }
        proof {
            assert(Seq::new(nw as nat, rowf) =~= Seq::new(ws.len(), |a: int| grid_row(ws[a], zs, fs)));
        }
        Ok(cells)
    }
}

} // verus!
