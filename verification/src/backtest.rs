use vstd::prelude::*;

use crate::data::{MarketBar, MarketSeries, index_of_timestamp};
use crate::error::EngineError;
use crate::signal::Signal;
use crate::float_bits::{Float64, finite_bits, le_bits, lt_bits};

verus! {

/// Starting cash and trading fee of a backtest.
#[derive(Debug, Clone, Copy, PartialEq)]
pub struct BacktestConfig {
    pub initial_cash: Float64,
    pub fee_bps: Float64,
}

/// Why the configuration is refused, if it is: the cash must be finite and
/// positive, the fee finite and not negative.
pub open spec fn backtest_config_error(c: BacktestConfig) -> Option<&'static str> {
    if !finite_bits(c.initial_cash.bits) || le_bits(c.initial_cash.bits, 0) {
        Some("initial_cash must be positive and finite")
    } else if !finite_bits(c.fee_bps.bits) || lt_bits(c.fee_bps.bits, 0) {
        Some("fee_bps must be non-negative and finite")
    } else {
        None
    }
}

impl BacktestConfig {
    pub fn validate(&self) -> (r: Result<(), EngineError>)
        ensures
            match backtest_config_error(*self) {
                Some(context) => r == Err::<(), EngineError>(EngineError::InvalidConfig { context }),
                None => r is Ok,
            },
    {
        let zero = Float64::zero();
        if !self.initial_cash.is_finite() || self.initial_cash.le(&zero) {
            return Err(EngineError::InvalidConfig { context: "initial_cash must be positive and finite" });
        }
        if !self.fee_bps.is_finite() || self.fee_bps.lt(&zero) {
            return Err(EngineError::InvalidConfig { context: "fee_bps must be non-negative and finite" });
        }
        Ok(())
    }
}

/// The first signal whose timestamp has no bar in `bars`.
pub open spec fn first_unpriced(bars: Seq<MarketBar>, signals: Seq<Signal>) -> Option<int> {
    if exists|i: int| 0 <= i < signals.len() && index_of_timestamp(bars, #[trigger] signals[i].timestamp) is None {
        Some(choose|i: int| 0 <= i < signals.len() && index_of_timestamp(bars, #[trigger] signals[i].timestamp) is None
            && forall|j: int| 0 <= j < i ==> index_of_timestamp(bars, #[trigger] signals[j].timestamp) is Some)
    } else {
        None
    }
}

/// The close at which a backtest trades each signal: that of the first bar
/// at the signal's timestamp. The inputs are refused as a backtest refuses
/// them, in this order: the configuration, an empty list of signals, then the
/// first signal whose timestamp has no bar.
pub fn backtest_closes(series: &MarketSeries, signals: &[Signal], config: BacktestConfig) -> (r: Result<Vec<Float64>, EngineError>)
    ensures
        match backtest_config_error(config) {
            Some(context) => r == Err::<Vec<Float64>, EngineError>(EngineError::InvalidConfig { context }),
            None => if signals@.len() == 0 {
                r == Err::<Vec<Float64>, EngineError>(EngineError::EmptyInput { context: "signals" })
            } else {
                match first_unpriced(series.bars@, signals@) {
                    Some(i) => r == Err::<Vec<Float64>, EngineError>(
                        EngineError::MissingTimestamp { timestamp: signals@[i].timestamp },
                    ),
                    None => {
                        &&& r is Ok
                        &&& r->Ok_0@.len() == signals@.len()
                        &&& forall|i: int| 0 <= i < signals@.len() ==> (#[trigger] r->Ok_0@[i])
                            == series.bars@[index_of_timestamp(series.bars@, signals@[i].timestamp)->Some_0].close
                    },
                }
            }
        },
{
    match config.validate() {
        Err(e) => return Err(e),
        Ok(()) => {},
    }
    if signals.len() == 0 {
        return Err(EngineError::EmptyInput { context: "signals" });
    }
    let mut closes: Vec<Float64> = Vec::new();
    for i in 0..signals.len()
        invariant
            backtest_config_error(config) is None,
            signals@.len() > 0,
            closes@.len() == i,
            forall|j: int| 0 <= j < i ==> index_of_timestamp(series.bars@, #[trigger] signals@[j].timestamp) is Some,
            forall|j: int| 0 <= j < i ==> #[trigger] closes@[j] == series.bars@[index_of_timestamp(
                series.bars@,
                signals@[j].timestamp,
            )->Some_0].close,
    {
        match series.close_at(signals[i].timestamp) {
            Some(close) => closes.push(close),
            None => {
                proof {
                    let k = i as int;
                    assert(index_of_timestamp(series.bars@, signals@[k].timestamp) is None);
                    let c = choose|c: int| 0 <= c < signals@.len() && index_of_timestamp(series.bars@, #[trigger] signals@[c].timestamp) is None
                        && forall|j: int| 0 <= j < c ==> index_of_timestamp(series.bars@, #[trigger] signals@[j].timestamp) is Some;
                    if c < k {
                        assert(index_of_timestamp(series.bars@, signals@[c].timestamp) is Some);
                    } else if c > k {
                        assert(index_of_timestamp(series.bars@, signals@[k].timestamp) is Some);
                    }
                }
                return Err(EngineError::MissingTimestamp { timestamp: signals[i].timestamp });
            },
        }
    }
    proof {
        assert(!(exists|i: int| 0 <= i < signals@.len() && index_of_timestamp(series.bars@, #[trigger] signals@[i].timestamp) is None));
    }
    Ok(closes)
}

} // verus!
