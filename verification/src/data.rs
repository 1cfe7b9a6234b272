use vstd::prelude::*;

use crate::error::EngineError;
use crate::float_bits::{Float64, finite_bits, le_bits};
use crate::text::{blank, is_blank, str_eq, trim, trim_seq};

verus! {

/// One close price of a symbol at a timestamp.
#[derive(Debug, Clone, Copy, PartialEq)]
pub struct MarketBar {
    pub timestamp: u64,
    pub close: Float64,
}

impl MarketBar {
    pub fn new(timestamp: u64, close: Float64) -> (r: MarketBar)
        ensures
            r.timestamp == timestamp,
            r.close == close,
    {
        MarketBar { timestamp, close }
    }
}

/// What is wrong with bar `i` of `bars`, checked in this order: a close that
/// is not finite, a close that is not positive, a timestamp that does not
/// follow the previous one.
pub open spec fn bar_problem(bars: Seq<MarketBar>, i: int) -> Option<&'static str> {
    if !finite_bits(bars[i].close.bits) {
        Some("close must be finite")
    } else if le_bits(bars[i].close.bits, 0) {
        Some("close must be positive")
    } else if i > 0 && bars[i].timestamp <= bars[i - 1].timestamp {
        Some("timestamps must be strictly increasing")
    } else {
        None
    }
}

/// Every bar has a finite positive close and timestamps strictly increase.
pub open spec fn bars_valid(bars: Seq<MarketBar>) -> bool {
    forall|i: int| 0 <= i < bars.len() ==> #[trigger] bar_problem(bars, i) is None
}

/// The close prices of one symbol, in time order.
#[derive(Debug, Clone, PartialEq)]
pub struct MarketSeries {
    pub symbol: String,
    pub bars: Vec<MarketBar>,
}

/// The identity of a slice of market data: symbol, time range and data version.
#[derive(Debug, Clone, PartialEq, Eq)]
pub struct MarketPartition {
    pub symbol: String,
    pub start_timestamp: u64,
    pub end_timestamp: u64,
    pub data_version: String,
}

/// The error with which a partition of these fields is refused, if any.
pub open spec fn partition_error(symbol: Seq<char>, start: u64, end: u64, data_version: Seq<char>) -> Option<EngineError> {
    if is_blank(symbol) {
        Some(EngineError::InvalidConfig { context: "partition symbol must not be empty" })
    } else if start > end {
        Some(EngineError::InvalidConfig { context: "partition start must be <= end" })
    } else if is_blank(data_version) {
        Some(EngineError::InvalidConfig { context: "data_version must not be empty" })
    } else {
        None
    }
}

/// `p` is the partition built from these fields: names trimmed, bounds kept.
pub open spec fn partition_of(p: MarketPartition, symbol: Seq<char>, start: u64, end: u64, data_version: Seq<char>) -> bool {
    &&& p.symbol@ == trim_seq(symbol)
    &&& p.start_timestamp == start
    &&& p.end_timestamp == end
    &&& p.data_version@ == trim_seq(data_version)
}

impl MarketPartition {
    /// Builds a partition; symbol and data version are trimmed and must not
    /// be empty, and the range must not be reversed.
    pub fn new(symbol: &str, start_timestamp: u64, end_timestamp: u64, data_version: &str) -> (r: Result<MarketPartition, EngineError>)
        ensures
            match partition_error(symbol@, start_timestamp, end_timestamp, data_version@) {
                Some(e) => r == Err::<MarketPartition, EngineError>(e),
                None => r matches Ok(p) && partition_of(p, symbol@, start_timestamp, end_timestamp, data_version@),
            },
    {
        let symbol = trim(symbol);
        let data_version = trim(data_version);
        if symbol.as_str().is_empty() {
            return Err(EngineError::InvalidConfig { context: "partition symbol must not be empty" });
        }
        if start_timestamp > end_timestamp {
            return Err(EngineError::InvalidConfig { context: "partition start must be <= end" });
        }
        if data_version.as_str().is_empty() {
            return Err(EngineError::InvalidConfig { context: "data_version must not be empty" });
        }
        Ok(MarketPartition { symbol, start_timestamp, end_timestamp, data_version })
    }
}

} // verus!

verus! {

/// The first bar that is refused, with its problem.
pub open spec fn first_bar_problem(bars: Seq<MarketBar>) -> Option<(int, &'static str)> {
    if bars_valid(bars) {
        None
    } else {
        let i = choose|i: int| 0 <= i < bars.len() && bar_problem(bars, i) is Some
            && forall|j: int| 0 <= j < i ==> #[trigger] bar_problem(bars, j) is None;
        Some((i, bar_problem(bars, i)->0))
    }
}

/// A well-formed series: a symbol that is trimmed and not empty, at least
/// one bar, and bars that `bars_valid` accepts.
pub open spec fn series_valid(s: MarketSeries) -> bool {
    &&& s.symbol@ == trim_seq(s.symbol@)
    &&& s.symbol@.len() > 0
    &&& s.bars@.len() > 0
    &&& bars_valid(s.bars@)
}

/// In a valid series every close is finite and positive, and timestamps
/// strictly increase: of any two bars, the earlier one has the smaller
/// timestamp.
pub proof fn valid_series_bars_are_ordered(s: MarketSeries)
    requires
        series_valid(s),
    ensures
        forall|i: int| 0 <= i < s.bars@.len() ==> finite_bits((#[trigger] s.bars@[i]).close.bits)
            && !le_bits(s.bars@[i].close.bits, 0),
        forall|i: int, j: int|
            0 <= i < j < s.bars@.len() ==> (#[trigger] s.bars@[i]).timestamp < (#[trigger] s.bars@[j]).timestamp,
{
    let bars = s.bars@;
    assert forall|i: int| 0 <= i < bars.len() implies finite_bits((#[trigger] bars[i]).close.bits)
        && !le_bits(bars[i].close.bits, 0) by {
        assert(bar_problem(bars, i) is None);
    }
    assert forall|i: int, j: int| 0 <= i < j < bars.len() implies (#[trigger] bars[i]).timestamp
        < (#[trigger] bars[j]).timestamp by {
        lemma_timestamps_increase(bars, i, j);
    }
}

proof fn lemma_timestamps_increase(bars: Seq<MarketBar>, i: int, j: int)
    requires
        bars_valid(bars),
        0 <= i < j < bars.len(),
    ensures
        bars[i].timestamp < bars[j].timestamp,
    decreases j - i,
{
    assert(bar_problem(bars, j) is None);
    if j > i + 1 {
        lemma_timestamps_increase(bars, i, j - 1);
    }
}

/// The first bar of `bars` whose timestamp is `timestamp`, if any.
pub open spec fn index_of_timestamp(bars: Seq<MarketBar>, timestamp: u64) -> Option<int> {
    if exists|i: int| 0 <= i < bars.len() && #[trigger] bars[i].timestamp == timestamp {
        Some(choose|i: int| 0 <= i < bars.len() && bars[i].timestamp == timestamp
            && forall|j: int| 0 <= j < i ==> #[trigger] bars[j].timestamp != timestamp)
    } else {
        None
    }
}

impl MarketSeries {
    /// Checks the bars and builds a series with the trimmed symbol.
    ///
    /// The symbol is checked first, then that there are bars, then each bar in
    /// order (see `bar_problem`); the first refused bar is reported.
    pub fn new(symbol: &str, bars: Vec<MarketBar>) -> (r: Result<MarketSeries, EngineError>)
        ensures
            is_blank(symbol@) ==> r == Err::<MarketSeries, EngineError>(EngineError::InvalidConfig { context: "symbol must not be empty" }),
            !is_blank(symbol@) && bars@.len() == 0 ==> r == Err::<MarketSeries, EngineError>(EngineError::EmptyInput { context: "market series" }),
            !is_blank(symbol@) && bars@.len() > 0 ==> match first_bar_problem(bars@) {
                Some((i, reason)) => r == Err::<MarketSeries, EngineError>(EngineError::InvalidMarketData { index: i as usize, reason }),
                None => r matches Ok(s) && s.symbol@ == trim_seq(symbol@) && s.bars@ == bars@,
            },
            r matches Ok(s) ==> series_valid(s),
            r matches Ok(s) ==> forall|i: int, j: int|
                0 <= i < j < s.bars@.len() ==> (#[trigger] s.bars@[i]).timestamp < (#[trigger] s.bars@[j]).timestamp,
    {
        let trimmed = trim(symbol);
        proof {
            crate::text::lemma_trim_idempotent(symbol@);
        }
        if trimmed.as_str().is_empty() {
            return Err(EngineError::InvalidConfig { context: "symbol must not be empty" });
        }
        if bars.len() == 0 {
            return Err(EngineError::EmptyInput { context: "market series" });
        }
        let mut index: usize = 0;
        while index < bars.len()
            invariant
                index <= bars.len(),
                bars@.len() > 0,
                trimmed@ == trim_seq(symbol@),
                trimmed@.len() > 0,
                trim_seq(trimmed@) == trimmed@,
                forall|j: int| 0 <= j < index ==> #[trigger] bar_problem(bars@, j) is None,
            decreases bars.len() - index,
        {
            let bar = bars[index];
            let problem: Option<&'static str> = if !bar.close.is_finite() {
                Some("close must be finite")
            } else if bar.close.le(&Float64::zero()) {
                Some("close must be positive")
            } else if index > 0 && bar.timestamp <= bars[index - 1].timestamp {
                Some("timestamps must be strictly increasing")
            } else {
                None
            };
            assert(problem == bar_problem(bars@, index as int));
            if let Some(reason) = problem {
                proof {
                    let i = index as int;
                    assert(!bars_valid(bars@));
                    let k = choose|k: int| 0 <= k < bars@.len() && bar_problem(bars@, k) is Some
                        && forall|j: int| 0 <= j < k ==> #[trigger] bar_problem(bars@, j) is None;
                    assert(0 <= i < bars@.len() && bar_problem(bars@, i) is Some
                        && forall|j: int| 0 <= j < i ==> #[trigger] bar_problem(bars@, j) is None);
                    if k < i {
                        assert(bar_problem(bars@, k) is None);
                    } else if k > i {
                        assert(bar_problem(bars@, i) is None);
                    }
                }
                return Err(EngineError::InvalidMarketData { index, reason });
            }
            index = index + 1;
        }
        let series = MarketSeries { symbol: trimmed, bars };
        proof {
            valid_series_bars_are_ordered(series);
        }
        Ok(series)
    }

    pub fn len(&self) -> (r: usize)
        ensures
            r == self.bars@.len(),
    {
        self.bars.len()
    }

    pub fn is_empty(&self) -> (r: bool)
        ensures
            r == (self.bars@.len() == 0),
    {
        self.bars.len() == 0
    }

    /// The close prices, in bar order.
    pub fn closes(&self) -> (r: Vec<Float64>)
        ensures
            r@.len() == self.bars@.len(),
            forall|i: int| 0 <= i < r@.len() ==> #[trigger] r@[i] == self.bars@[i].close,
    {
        let mut out: Vec<Float64> = Vec::with_capacity(self.bars.len());
        for i in 0..self.bars.len()
            invariant
                out@.len() == i,
                forall|k: int| 0 <= k < i ==> #[trigger] out@[k] == self.bars@[k].close,
        {
            out.push(self.bars[i].close);
        }
        out
    }

    /// The close of the first bar at `timestamp`, if there is one.
    pub fn close_at(&self, timestamp: u64) -> (r: Option<Float64>)
        ensures
            match index_of_timestamp(self.bars@, timestamp) {
                Some(i) => r == Some(self.bars@[i].close),
                None => r is None,
            },
    {
        for i in 0..self.bars.len()
            invariant
                forall|k: int| 0 <= k < i ==> #[trigger] self.bars@[k].timestamp != timestamp,
        {
            if self.bars[i].timestamp == timestamp {
                proof {
                    let j = i as int;
                    assert(self.bars@[j].timestamp == timestamp);
                    let c = choose|c: int| 0 <= c < self.bars@.len() && self.bars@[c].timestamp == timestamp
                        && forall|k: int| 0 <= k < c ==> #[trigger] self.bars@[k].timestamp != timestamp;
                    if c < j {
                        assert(self.bars@[c].timestamp != timestamp);
                    } else if c > j {
                        assert(self.bars@[j].timestamp != timestamp);
                    }
                }
                return Some(self.bars[i].close);
            }
        }
        None
    }

    /// The partition covering this series' whole time range.
    pub fn partition(&self, data_version: &str) -> (r: Result<MarketPartition, EngineError>)
        requires
            self.bars@.len() > 0,
        ensures
            ({
                let start = self.bars@[0].timestamp;
                let end = self.bars@.last().timestamp;
                match partition_error(self.symbol@, start, end, data_version@) {
                    Some(e) => r == Err::<MarketPartition, EngineError>(e),
                    None => r matches Ok(p) && partition_of(p, self.symbol@, start, end, data_version@),
                }
            }),
    {
        MarketPartition::new(self.symbol.as_str(), self.bars[0].timestamp, self.bars[self.bars.len() - 1].timestamp, data_version)
    }
}

} // verus!

verus! {

/// Whether two series of `series` share a symbol.
pub open spec fn has_duplicate_symbol(series: Seq<MarketSeries>) -> bool {
    exists|i: int, j: int| 0 <= i < j < series.len() && #[trigger] series[i].symbol@ == #[trigger] series[j].symbol@
}

/// A set of series with distinct symbols.
#[derive(Debug, Clone, PartialEq)]
pub struct MarketUniverse {
    pub series: Vec<MarketSeries>,
}

/// The first series of `series` with this symbol, if any.
pub open spec fn index_of_symbol(series: Seq<MarketSeries>, symbol: Seq<char>) -> Option<int> {
    if exists|i: int| 0 <= i < series.len() && #[trigger] series[i].symbol@ == symbol {
        Some(choose|i: int| 0 <= i < series.len() && series[i].symbol@ == symbol
            && forall|j: int| 0 <= j < i ==> #[trigger] series[j].symbol@ != symbol)
    } else {
        None
    }
}

/// The error with which the first refused series of `series` is refused, if any.
pub open spec fn first_partition_error(series: Seq<MarketSeries>, data_version: Seq<char>) -> Option<EngineError> {
    if exists|i: int| 0 <= i < series.len() && (#[trigger] partition_error_of(series[i], data_version)) is Some {
        let i = choose|i: int| 0 <= i < series.len() && (#[trigger] partition_error_of(series[i], data_version)) is Some
            && forall|j: int| 0 <= j < i ==> (#[trigger] partition_error_of(series[j], data_version)) is None;
        partition_error_of(series[i], data_version)
    } else {
        None
    }
}

/// The error with which the partition of series `s` is refused, if any.
pub open spec fn partition_error_of(s: MarketSeries, data_version: Seq<char>) -> Option<EngineError> {
    partition_error(s.symbol@, s.bars@[0].timestamp, s.bars@.last().timestamp, data_version)
}

impl MarketUniverse {
    /// A universe of at least one series, with no symbol twice.
    pub fn new(series: Vec<MarketSeries>) -> (r: Result<MarketUniverse, EngineError>)
        ensures
            series@.len() == 0 ==> r == Err::<MarketUniverse, EngineError>(EngineError::EmptyInput { context: "market universe" }),
            series@.len() > 0 && has_duplicate_symbol(series@) ==> r == Err::<MarketUniverse, EngineError>(
                EngineError::InvalidConfig { context: "market universe symbols must be unique" },
            ),
            series@.len() > 0 && !has_duplicate_symbol(series@) ==> (r matches Ok(u) && u.series@ == series@),
    {
        if series.len() == 0 {
            return Err(EngineError::EmptyInput { context: "market universe" });
        }
        let n = series.len();
        for j in 0..n
            invariant
                n == series@.len(),
                forall|a: int, b: int| 0 <= a < b < j ==> #[trigger] series@[a].symbol@ != #[trigger] series@[b].symbol@,
        {
            for i in 0..j
                invariant
                    j < n == series@.len(),
                    forall|a: int, b: int| 0 <= a < b < j ==> #[trigger] series@[a].symbol@ != #[trigger] series@[b].symbol@,
                    forall|a: int| 0 <= a < i ==> #[trigger] series@[a].symbol@ != series@[j as int].symbol@,
            {
                if str_eq(series[i].symbol.as_str(), series[j].symbol.as_str()) {
                    proof {
                        assert(series@[i as int].symbol@ == series@[j as int].symbol@);
                    }
                    return Err(EngineError::InvalidConfig { context: "market universe symbols must be unique" });
                }
            }
        }
        Ok(MarketUniverse { series })
    }

    /// The symbols, in series order.
    pub fn symbols(&self) -> (r: Vec<&str>)
        ensures
            r@.len() == self.series@.len(),
            forall|i: int| 0 <= i < r@.len() ==> #[trigger] r@[i]@ == self.series@[i].symbol@,
    {
        let mut out: Vec<&str> = Vec::with_capacity(self.series.len());
        for i in 0..self.series.len()
            invariant
                out@.len() == i,
                forall|k: int| 0 <= k < i ==> #[trigger] out@[k]@ == self.series@[k].symbol@,
        {
            out.push(self.series[i].symbol.as_str());
        }
        out
    }

    /// The first series with this symbol.
    pub fn series(&self, symbol: &str) -> (r: Option<&MarketSeries>)
        ensures
            match index_of_symbol(self.series@, symbol@) {
                Some(i) => r == Some(&self.series@[i]),
                None => r is None,
            },
    {
        for i in 0..self.series.len()
            invariant
                forall|k: int| 0 <= k < i ==> #[trigger] self.series@[k].symbol@ != symbol@,
        {
            if str_eq(self.series[i].symbol.as_str(), symbol) {
                proof {
                    let j = i as int;
                    assert(self.series@[j].symbol@ == symbol@);
                    let c = choose|c: int| 0 <= c < self.series@.len() && self.series@[c].symbol@ == symbol@
                        && forall|k: int| 0 <= k < c ==> #[trigger] self.series@[k].symbol@ != symbol@;
                    if c < j {
                        assert(self.series@[c].symbol@ != symbol@);
                    } else if c > j {
                        assert(self.series@[j].symbol@ != symbol@);
                    }
                }
                return Some(&self.series[i]);
            }
        }
        None
    }

    /// One partition per series, in series order, or the first refusal.
    pub fn partitions(&self, data_version: &str) -> (r: Result<Vec<MarketPartition>, EngineError>)
        requires
            forall|i: int| 0 <= i < self.series@.len() ==> (#[trigger] self.series@[i]).bars@.len() > 0,
        ensures
            match first_partition_error(self.series@, data_version@) {
                Some(e) => r == Err::<Vec<MarketPartition>, EngineError>(e),
                None => r matches Ok(ps) && ps@.len() == self.series@.len() && forall|i: int| 0 <= i < ps@.len() ==>
                    partition_of(#[trigger] ps@[i], self.series@[i].symbol@, self.series@[i].bars@[0].timestamp,
                        self.series@[i].bars@.last().timestamp, data_version@),
            },
    {
        let mut out: Vec<MarketPartition> = Vec::with_capacity(self.series.len());
        for i in 0..self.series.len()
            invariant
                forall|k: int| 0 <= k < self.series@.len() ==> (#[trigger] self.series@[k]).bars@.len() > 0,
                out@.len() == i,
                forall|k: int| 0 <= k < i ==> (#[trigger] partition_error_of(self.series@[k], data_version@)) is None,
                forall|k: int| 0 <= k < i ==> partition_of(#[trigger] out@[k], self.series@[k].symbol@, self.series@[k].bars@[0].timestamp,
                    self.series@[k].bars@.last().timestamp, data_version@),
        {
            let s = &self.series[i];
            match s.partition(data_version) {
                Ok(p) => {
                    out.push(p);
                },
                Err(e) => {
                    proof {
                        let j = i as int;
                        assert(partition_error_of(self.series@[j], data_version@) is Some);
                        let c = choose|c: int| 0 <= c < self.series@.len() && (#[trigger] partition_error_of(self.series@[c], data_version@)) is Some
                            && forall|k: int| 0 <= k < c ==> (#[trigger] partition_error_of(self.series@[k], data_version@)) is None;
                        if c < j {
                            assert(partition_error_of(self.series@[c], data_version@) is None);
                        } else if c > j {
                            assert(partition_error_of(self.series@[j], data_version@) is None);
                        }
                    }
                    return Err(e);
                },
            }
        }
        Ok(out)
    }
}

} // verus!
