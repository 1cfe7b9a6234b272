use vstd::prelude::*;

use crate::data::MarketSeries;
use crate::error::EngineError;
use crate::float_bits::{Float64, abs_bits, finite_bits, first_nonfinite, le_bits, lt_bits, neg_bits};

verus! {

/// Thresholds and position sizes of the mean-reversion rule.
#[derive(Debug, Clone, Copy, PartialEq)]
pub struct SignalConfig {
    pub entry_z: Float64,
    pub exit_z: Float64,
    pub long_weight: Float64,
    pub short_weight: Float64,
}

/// Why the configuration is refused, if it is: `entry_z` must be finite and
/// positive, `exit_z` finite and within `[0, entry_z]`, both weights finite.
pub open spec fn signal_config_error(c: SignalConfig) -> Option<&'static str> {
    if !finite_bits(c.entry_z.bits) || le_bits(c.entry_z.bits, 0) {
        Some("entry_z must be positive and finite")
    } else if !finite_bits(c.exit_z.bits) || lt_bits(c.exit_z.bits, 0) || lt_bits(c.entry_z.bits, c.exit_z.bits) {
        Some("exit_z must be finite and in [0, entry_z]")
    } else if !finite_bits(c.long_weight.bits) || !finite_bits(c.short_weight.bits) {
        Some("signal weights must be finite")
    } else {
        None
    }
}

impl SignalConfig {
    pub fn validate(&self) -> (r: Result<(), EngineError>)
        ensures
            match signal_config_error(*self) {
                Some(context) => r == Err::<(), EngineError>(EngineError::InvalidConfig { context }),
                None => r is Ok,
            },
    {
        let zero = Float64::zero();
        if !self.entry_z.is_finite() || self.entry_z.le(&zero) {
            return Err(EngineError::InvalidConfig { context: "entry_z must be positive and finite" });
        }
        if !self.exit_z.is_finite() || self.exit_z.lt(&zero) || self.exit_z.gt(&self.entry_z) {
            return Err(EngineError::InvalidConfig { context: "exit_z must be finite and in [0, entry_z]" });
        }
        if !self.long_weight.is_finite() || !self.short_weight.is_finite() {
            return Err(EngineError::InvalidConfig { context: "signal weights must be finite" });
        }
        Ok(())
    }
}

/// Why a signal holds the weight it holds.
#[derive(Debug, Clone, Copy, PartialEq, Eq, Structural)]
pub enum SignalReason {
    LongMeanReversion,
    ShortMeanReversion,
    ExitToFlat,
    Hold,
}

/// The target weight at one timestamp.
#[derive(Debug, Clone, Copy, PartialEq)]
pub struct Signal {
    pub timestamp: u64,
    pub target_weight: Float64,
    pub reason: SignalReason,
}

/// What a z-score calls for: long at or below `-entry_z`, short at or above
/// `entry_z`, flat when its magnitude is at most `exit_z`, else hold.
pub open spec fn signal_reason(z: Float64, c: SignalConfig) -> SignalReason {
    if le_bits(z.bits, neg_bits(c.entry_z.bits)) {
        SignalReason::LongMeanReversion
    } else if le_bits(c.entry_z.bits, z.bits) {
        SignalReason::ShortMeanReversion
    } else if le_bits(abs_bits(z.bits), c.exit_z.bits) {
        SignalReason::ExitToFlat
    } else {
        SignalReason::Hold
    }
}

/// The weight after a signal with this reason, given the weight before it.
pub open spec fn weight_after_reason(previous: Float64, reason: SignalReason, c: SignalConfig) -> Float64 {
    match reason {
        SignalReason::LongMeanReversion => c.long_weight,
        SignalReason::ShortMeanReversion => c.short_weight,
        SignalReason::ExitToFlat => Float64::spec_zero(),
        SignalReason::Hold => previous,
    }
}

/// The target weight after the first `n` z-scores, starting flat.
pub open spec fn weight_after(zscores: Seq<Float64>, c: SignalConfig, n: nat) -> Float64
    decreases n,
{
    if n == 0 {
        Float64::spec_zero()
    } else {
        weight_after_reason(weight_after(zscores, c, (n - 1) as nat), signal_reason(zscores[n - 1], c), c)
    }
}

/// The weight after z-score `k` follows its reason alone: a long entry
/// takes the long weight, a short entry the short weight and an exit goes
/// flat, whatever the weight before; only a hold keeps the weight before it,
/// which is flat before the first z-score.
pub proof fn signal_weight_follows_reason(zscores: Seq<Float64>, c: SignalConfig, k: int)
    requires
        0 <= k < zscores.len(),
    ensures
        ({
            let w = weight_after(zscores, c, (k + 1) as nat);
            let reason = signal_reason(zscores[k], c);
            &&& reason == SignalReason::LongMeanReversion ==> w == c.long_weight
            &&& reason == SignalReason::ShortMeanReversion ==> w == c.short_weight
            &&& reason == SignalReason::ExitToFlat ==> w == Float64::spec_zero()
            &&& reason == SignalReason::Hold ==> w == weight_after(zscores, c, k as nat)
        }),
        weight_after(zscores, c, 0) == Float64::spec_zero(),
{
}

/// Each signal's weight follows its reason: the long weight for a long
/// entry, the short weight for a short entry, flat for an exit, and for a
/// hold the weight of the signal before it (flat for the first).
pub open spec fn weights_follow_reasons(signals: Seq<Signal>, config: SignalConfig) -> bool {
    forall|k: int| 0 <= k < signals.len() ==> {
            &&& (#[trigger] signals[k]).reason == SignalReason::LongMeanReversion ==> signals[k].target_weight == config.long_weight
            &&& signals[k].reason == SignalReason::ShortMeanReversion ==> signals[k].target_weight == config.short_weight
            &&& signals[k].reason == SignalReason::ExitToFlat ==> signals[k].target_weight == Float64::spec_zero()
            &&& signals[k].reason == SignalReason::Hold ==> signals[k].target_weight == if k == 0 {
                Float64::spec_zero()
            } else {
                signals[k - 1].target_weight
            }
        }
}

proof fn lemma_signal_weights(signals: Seq<Signal>, zscores: Seq<Float64>, config: SignalConfig)
    requires
        signals.len() == zscores.len(),
        forall|k: int| 0 <= k < signals.len() ==> {
            &&& (#[trigger] signals[k]).reason == signal_reason(zscores[k], config)
            &&& signals[k].target_weight == weight_after(zscores, config, (k + 1) as nat)
        },
    ensures
        weights_follow_reasons(signals, config),
{
    assert forall|k: int| 0 <= k < signals.len() implies {
        &&& (#[trigger] signals[k]).reason == SignalReason::LongMeanReversion ==> signals[k].target_weight == config.long_weight
        &&& signals[k].reason == SignalReason::ShortMeanReversion ==> signals[k].target_weight == config.short_weight
        &&& signals[k].reason == SignalReason::ExitToFlat ==> signals[k].target_weight == Float64::spec_zero()
        &&& signals[k].reason == SignalReason::Hold ==> signals[k].target_weight == if k == 0 {
            Float64::spec_zero()
        } else {
            signals[k - 1].target_weight
        }
    } by {
        signal_weight_follows_reason(zscores, config, k);
        if k > 0 {
            assert(signals[k - 1].target_weight == weight_after(zscores, config, k as nat));
        }
    }
}

/// How many z-scores a series of `len` bars and a window of `window` yield:
/// one per complete window, but at least one.
pub open spec fn expected_zscores(len: nat, window: nat) -> nat {
    if len >= window { (len - window + 1) as nat } else { 1 }
}

/// The error with which signal generation refuses its inputs, if it does.
pub open spec fn signal_error(bars: nat, zscores: Seq<Float64>, window: usize, c: SignalConfig) -> Option<EngineError> {
    if signal_config_error(c) is Some {
        Some(EngineError::InvalidConfig { context: signal_config_error(c)->0 })
    } else if window == 0 {
        Some(EngineError::InvalidConfig { context: "window must be greater than zero" })
    } else if zscores.len() != expected_zscores(bars, window as nat) {
        Some(EngineError::LengthMismatch {
            context: "zscore alignment",
            expected: expected_zscores(bars, window as nat) as usize,
            actual: zscores.len() as usize,
        })
    } else if first_nonfinite(zscores) is Some {
        Some(EngineError::InvalidMarketData { index: first_nonfinite(zscores)->0 as usize, reason: "zscore must be finite" })
    } else {
        None
    }
}

/// Turns the z-scores of complete windows into target weights.
///
/// Z-score `k` belongs to the window that ends at bar `k + window - 1`, whose
/// timestamp the signal carries. The weight starts flat and changes as
/// `signal_reason` says; a `Hold` keeps the previous weight.
pub fn generate_mean_reversion_signals(series: &MarketSeries, zscores: &[Float64], window: usize, config: SignalConfig) -> (r: Result<Vec<Signal>, EngineError>)
    requires
        // With fewer bars than the window, one finite z-score has no bar to align to.
        signal_error(series.bars@.len(), zscores@, window, config) is None ==> series.bars@.len() >= window,
    ensures
        match signal_error(series.bars@.len(), zscores@, window, config) {
            Some(e) => r == Err::<Vec<Signal>, EngineError>(e),
            None => r matches Ok(signals) && signals@.len() == zscores@.len() && forall|k: int| 0 <= k < signals@.len() ==> {
                &&& (#[trigger] signals@[k]).timestamp == series.bars@[k + window - 1].timestamp
                &&& signals@[k].reason == signal_reason(zscores@[k], config)
                &&& signals@[k].target_weight == weight_after(zscores@, config, (k + 1) as nat)
            },
        },
        r matches Ok(signals) ==> weights_follow_reasons(signals@, config),
{
    config.validate()?;
    if window == 0 {
        return Err(EngineError::InvalidConfig { context: "window must be greater than zero" });
    }
    let len = series.bars.len();
    let expected = if len >= window { len - window + 1 } else { 1 };
    if zscores.len() != expected {
        return Err(EngineError::LengthMismatch { context: "zscore alignment", expected, actual: zscores.len() });
    }
    let mut index: usize = 0;
    while index < zscores.len()
        invariant
            index <= zscores.len(),
            signal_config_error(config) is None,
            window != 0,
            zscores@.len() == expected_zscores(series.bars@.len(), window as nat),
            forall|j: int| 0 <= j < index ==> finite_bits(#[trigger] zscores@[j].bits),
        decreases zscores.len() - index,
    {
        if !zscores[index].is_finite() {
            proof {
                let i = index as int;
                let c = choose|c: int| 0 <= c < zscores@.len() && !finite_bits(#[trigger] zscores@[c].bits)
                    && forall|j: int| 0 <= j < c ==> finite_bits(#[trigger] zscores@[j].bits);
                assert(0 <= i < zscores@.len() && !finite_bits(zscores@[i].bits)
                    && forall|j: int| 0 <= j < i ==> finite_bits(#[trigger] zscores@[j].bits));
                if c < i {
                    assert(finite_bits(zscores@[c].bits));
                } else if c > i {
                    assert(finite_bits(zscores@[i].bits));
                }
            }
            return Err(EngineError::InvalidMarketData { index, reason: "zscore must be finite" });
        }
        index = index + 1;
    }
    assert(first_nonfinite(zscores@) is None);
    let mut target_weight = Float64::zero();
    let mut signals: Vec<Signal> = Vec::with_capacity(zscores.len());
    let neg_entry = config.entry_z.neg();
    for offset in 0..zscores.len()
        invariant
            zscores@.len() == expected,
            window > 0,
            len == series.bars@.len(),
            len >= window,
            expected == len - window + 1,
            neg_entry.bits == neg_bits(config.entry_z.bits),
            signals@.len() == offset,
            target_weight == weight_after(zscores@, config, offset as nat),
            forall|k: int| 0 <= k < offset ==> {
                &&& (#[trigger] signals@[k]).timestamp == series.bars@[k + window - 1].timestamp
                &&& signals@[k].reason == signal_reason(zscores@[k], config)
                &&& signals@[k].target_weight == weight_after(zscores@, config, (k + 1) as nat)
            },
    {
        let z = zscores[offset];
        let reason = if z.le(&neg_entry) {
            target_weight = config.long_weight;
            SignalReason::LongMeanReversion
        } else if z.ge(&config.entry_z) {
            target_weight = config.short_weight;
            SignalReason::ShortMeanReversion
        } else if z.abs().le(&config.exit_z) {
            target_weight = Float64::zero();
            SignalReason::ExitToFlat
        } else {
            SignalReason::Hold
        };
        signals.push(Signal { timestamp: series.bars[offset + window - 1].timestamp, target_weight, reason });
    }
    proof {
        lemma_signal_weights(signals@, zscores@, config);
    }
    Ok(signals)
}

} // verus!
