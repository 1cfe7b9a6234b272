use vstd::prelude::*;

use crate::float_bits::Float64;
use crate::text::{decimal, push_str, u64_to_decimal, usize_to_decimal};

verus! {

/// Why a rolling factor computation refused its input.
#[derive(Debug, Clone, Copy, PartialEq)]
pub enum ComputeError {
    EmptyInput,
    InvalidWindow,
    LengthMismatch { left: usize, right: usize },
    NonFiniteValue { index: usize, value: Float64 },
    ZeroVariance,
}

/// Why an engine operation refused its input.
#[derive(Debug, Clone, PartialEq)]
pub enum EngineError {
    EmptyInput { context: &'static str },
    InvalidConfig { context: &'static str },
    InvalidMarketData { index: usize, reason: &'static str },
    LengthMismatch { context: &'static str, expected: usize, actual: usize },
    MissingTimestamp { timestamp: u64 },
    Factor(ComputeError),
}

impl EngineError {
    /// Wraps a factor error, as the conversion from `ComputeError` does.
    pub fn from_compute(error: ComputeError) -> (r: EngineError)
        ensures
            r == EngineError::Factor(error),
    {
        EngineError::Factor(error)
    }
}

/// The message of a factor error; `value_text` is how the value of a
/// non-finite input is written, and appears only in that message.
pub open spec fn compute_error_message(e: ComputeError, value_text: Seq<char>) -> Seq<char> {
    match e {
        ComputeError::EmptyInput => "input is empty"@,
        ComputeError::InvalidWindow => "window must be greater than zero"@,
        ComputeError::LengthMismatch { left, right } => "input lengths differ: left="@ + decimal(left as nat)
            + ", right="@ + decimal(right as nat),
        ComputeError::NonFiniteValue { index, .. } => "value at index "@ + decimal(index as nat) + " is not finite: "@
            + value_text,
        ComputeError::ZeroVariance => "window variance is zero"@,
    }
}

/// The message of an engine error; `value_text` is as for
/// `compute_error_message`.
pub open spec fn engine_error_message(e: EngineError, value_text: Seq<char>) -> Seq<char> {
    match e {
        EngineError::EmptyInput { context } => context@ + " is empty"@,
        EngineError::InvalidConfig { context } => "invalid config: "@ + context@,
        EngineError::InvalidMarketData { index, reason } => "invalid market data at index "@ + decimal(index as nat)
            + ": "@ + reason@,
        EngineError::LengthMismatch { context, expected, actual } => "length mismatch for "@ + context@
            + ": expected "@ + decimal(expected as nat) + ", actual "@ + decimal(actual as nat),
        EngineError::MissingTimestamp { timestamp } => "signal timestamp "@ + decimal(timestamp as nat)
            + " is missing from market data"@,
        EngineError::Factor(inner) => "factor computation failed: "@ + compute_error_message(inner, value_text),
    }
}

impl ComputeError {
    /// The message of this error; `value_text` is how the value of a
    /// non-finite input is written (as `f64` displays it), and is used only
    /// for `NonFiniteValue`.
    pub fn message(&self, value_text: &str) -> (r: String)
        ensures
            r@ == compute_error_message(*self, value_text@),
    {
        let mut out = String::new();
        match self {
            ComputeError::EmptyInput => push_str(&mut out, "input is empty"),
            ComputeError::InvalidWindow => push_str(&mut out, "window must be greater than zero"),
            ComputeError::LengthMismatch { left, right } => {
                push_str(&mut out, "input lengths differ: left=");
                push_str(&mut out, usize_to_decimal(*left).as_str());
                push_str(&mut out, ", right=");
                push_str(&mut out, usize_to_decimal(*right).as_str());
            },
            ComputeError::NonFiniteValue { index, .. } => {
                push_str(&mut out, "value at index ");
                push_str(&mut out, usize_to_decimal(*index).as_str());
                push_str(&mut out, " is not finite: ");
                push_str(&mut out, value_text);
            },
            ComputeError::ZeroVariance => push_str(&mut out, "window variance is zero"),
        }
        assert(out@ =~= compute_error_message(*self, value_text@));
        out
    }
}

impl EngineError {
    /// The message of this error; `value_text` is as for
    /// `ComputeError::message`.
    pub fn message(&self, value_text: &str) -> (r: String)
        ensures
            r@ == engine_error_message(*self, value_text@),
    {
        let mut out = String::new();
        match self {
            EngineError::EmptyInput { context } => {
                push_str(&mut out, context);
                push_str(&mut out, " is empty");
            },
            EngineError::InvalidConfig { context } => {
                push_str(&mut out, "invalid config: ");
                push_str(&mut out, context);
            },
            EngineError::InvalidMarketData { index, reason } => {
                push_str(&mut out, "invalid market data at index ");
                push_str(&mut out, usize_to_decimal(*index).as_str());
                push_str(&mut out, ": ");
                push_str(&mut out, reason);
            },
            EngineError::LengthMismatch { context, expected, actual } => {
                push_str(&mut out, "length mismatch for ");
                push_str(&mut out, context);
                push_str(&mut out, ": expected ");
                push_str(&mut out, usize_to_decimal(*expected).as_str());
                push_str(&mut out, ", actual ");
                push_str(&mut out, usize_to_decimal(*actual).as_str());
            },
            EngineError::MissingTimestamp { timestamp } => {
                push_str(&mut out, "signal timestamp ");
                push_str(&mut out, u64_to_decimal(*timestamp).as_str());
                push_str(&mut out, " is missing from market data");
            },
            EngineError::Factor(inner) => {
                push_str(&mut out, "factor computation failed: ");
                push_str(&mut out, inner.message(value_text).as_str());
            },
        }
        assert(out@ =~= engine_error_message(*self, value_text@));
        out
    }
}

} // verus!
