use vstd::prelude::*;

use crate::error::ComputeError;
use crate::float_bits::{Float64, finite_bits, first_nonfinite, le_bits};

verus! {

/// The error with which a series of values is refused, if any: none at
/// all, then the first value that is not finite.
pub open spec fn values_error(values: Seq<Float64>) -> Option<ComputeError> {
    if values.len() == 0 {
        Some(ComputeError::EmptyInput)
    } else if first_nonfinite(values) is Some {
        Some(ComputeError::NonFiniteValue { index: first_nonfinite(values)->0 as usize, value: values[first_nonfinite(values)->0] })
    } else {
        None
    }
}

/// The error with which a series and a window are refused, if any.
pub open spec fn window_error(values: Seq<Float64>, window: usize) -> Option<ComputeError> {
    if values_error(values) is Some {
        values_error(values)
    } else if window == 0 {
        Some(ComputeError::InvalidWindow)
    } else {
        None
    }
}

/// The error with which two series and a window are refused, if any: the
/// left series and the window, then the right series, then unequal lengths.
pub open spec fn pair_error(left: Seq<Float64>, right: Seq<Float64>, window: usize) -> Option<ComputeError> {
    if window_error(left, window) is Some {
        window_error(left, window)
    } else if values_error(right) is Some {
        values_error(right)
    } else if left.len() != right.len() {
        Some(ComputeError::LengthMismatch { left: left.len() as usize, right: right.len() as usize })
    } else {
        None
    }
}

/// Checks that there are values and that all are finite.
pub fn validate_values(values: &[Float64]) -> (r: Result<(), ComputeError>)
    ensures
        match values_error(values@) {
            Some(e) => r == Err::<(), ComputeError>(e),
            None => r is Ok,
        },
{
    if values.len() == 0 {
        return Err(ComputeError::EmptyInput);
    }
    let mut index: usize = 0;
    while index < values.len()
        invariant
            index <= values.len(),
            values@.len() > 0,
            forall|j: int| 0 <= j < index ==> finite_bits(#[trigger] values@[j].bits),
        decreases values.len() - index,
    {
        if !values[index].is_finite() {
            proof {
                let i = index as int;
                let c = choose|c: int| 0 <= c < values@.len() && !finite_bits(#[trigger] values@[c].bits)
                    && forall|j: int| 0 <= j < c ==> finite_bits(#[trigger] values@[j].bits);
                assert(0 <= i < values@.len() && !finite_bits(values@[i].bits)
                    && forall|j: int| 0 <= j < i ==> finite_bits(#[trigger] values@[j].bits));
                if c < i {
                    assert(finite_bits(values@[c].bits));
                } else if c > i {
                    assert(finite_bits(values@[i].bits));
                }
            }
            return Err(ComputeError::NonFiniteValue { index, value: values[index] });
        }
        index = index + 1;
    }
    assert(first_nonfinite(values@) is None);
    Ok(())
}

/// Checks the values and that the window is not zero.
pub fn validate_window(values: &[Float64], window: usize) -> (r: Result<(), ComputeError>)
    ensures
        match window_error(values@, window) {
            Some(e) => r == Err::<(), ComputeError>(e),
            None => r is Ok,
        },
{
    validate_values(values)?;
    if window == 0 {
        return Err(ComputeError::InvalidWindow);
    }
    Ok(())
}

/// Checks both series, the window, and that the series have equal lengths.
pub fn validate_pair(left: &[Float64], right: &[Float64], window: usize) -> (r: Result<(), ComputeError>)
    ensures
        match pair_error(left@, right@, window) {
            Some(e) => r == Err::<(), ComputeError>(e),
            None => r is Ok,
        },
{
    validate_window(left, window)?;
    validate_values(right)?;
    if left.len() != right.len() {
        return Err(ComputeError::LengthMismatch { left: left.len(), right: right.len() });
    }
    Ok(())
}

/// `m` is a least value of `values[start..end]`: one of them, and no
/// greater than any.
pub open spec fn is_window_min(values: Seq<Float64>, start: int, end: int, m: Float64) -> bool {
    &&& exists|i: int| start <= i < end && #[trigger] values[i] == m
    &&& forall|i: int| start <= i < end ==> le_bits(m.bits, #[trigger] values[i].bits)
}

/// `m` is a greatest value of `values[start..end]`: one of them, and no
/// less than any.
pub open spec fn is_window_max(values: Seq<Float64>, start: int, end: int, m: Float64) -> bool {
    &&& exists|i: int| start <= i < end && #[trigger] values[i] == m
    &&& forall|i: int| start <= i < end ==> le_bits(#[trigger] values[i].bits, m.bits)
}

/// The extreme of one window of finite values; `want_min` picks the least, else the greatest.
fn window_extreme(values: &[Float64], start: usize, end: usize, want_min: bool) -> (r: Float64)
    requires
        start < end <= values@.len(),
        forall|i: int| 0 <= i < values@.len() ==> finite_bits(#[trigger] values@[i].bits),
    ensures
        want_min ==> is_window_min(values@, start as int, end as int, r),
        !want_min ==> is_window_max(values@, start as int, end as int, r),
{
    let mut best = values[start];
    let mut at: usize = start;
    let mut j: usize = start + 1;
    while j < end
        invariant
            start < j <= end <= values@.len(),
            start <= at < j,
            values@[at as int] == best,
            forall|i: int| 0 <= i < values@.len() ==> finite_bits(#[trigger] values@[i].bits),
            want_min ==> forall|i: int| start <= i < j ==> le_bits(best.bits, #[trigger] values@[i].bits),
            !want_min ==> forall|i: int| start <= i < j ==> le_bits(#[trigger] values@[i].bits, best.bits),
        decreases end - j,
    {
        let v = values[j];
        let better = if want_min { v.lt(&best) } else { v.gt(&best) };
        if better {
            best = v;
            at = j;
        }
        j = j + 1;
    }
    assert(values@[at as int] == best);
    best
}

/// The least value of each complete window of `window` values, in order.
pub fn rolling_min(values: &[Float64], window: usize) -> (r: Result<Vec<Float64>, ComputeError>)
    ensures
        match window_error(values@, window) {
            Some(e) => r == Err::<Vec<Float64>, ComputeError>(e),
            None => r matches Ok(out) && if window > values@.len() {
                out@.len() == 0
            } else {
                &&& out@.len() == values@.len() - window + 1
                &&& forall|k: int| 0 <= k < out@.len() ==> is_window_min(values@, k, k + window, #[trigger] out@[k])
            },
        },
{
    rolling_extreme(values, window, true)
}

/// The greatest value of each complete window of `window` values, in order.
pub fn rolling_max(values: &[Float64], window: usize) -> (r: Result<Vec<Float64>, ComputeError>)
    ensures
        match window_error(values@, window) {
            Some(e) => r == Err::<Vec<Float64>, ComputeError>(e),
            None => r matches Ok(out) && if window > values@.len() {
                out@.len() == 0
            } else {
                &&& out@.len() == values@.len() - window + 1
                &&& forall|k: int| 0 <= k < out@.len() ==> is_window_max(values@, k, k + window, #[trigger] out@[k])
            },
        },
{
    rolling_extreme(values, window, false)
}

fn rolling_extreme(values: &[Float64], window: usize, want_min: bool) -> (r: Result<Vec<Float64>, ComputeError>)
    ensures
        match window_error(values@, window) {
            Some(e) => r == Err::<Vec<Float64>, ComputeError>(e),
            None => r matches Ok(out) && if window > values@.len() {
                out@.len() == 0
            } else {
                &&& out@.len() == values@.len() - window + 1
                &&& want_min ==> forall|k: int| 0 <= k < out@.len() ==> is_window_min(values@, k, k + window, #[trigger] out@[k])
                &&& !want_min ==> forall|k: int| 0 <= k < out@.len() ==> is_window_max(values@, k, k + window, #[trigger] out@[k])
            },
        },
{
    validate_window(values, window)?;
    if window > values.len() {
        return Ok(Vec::new());
    }
    proof {
        assert forall|i: int| 0 <= i < values@.len() implies finite_bits(#[trigger] values@[i].bits) by {
            if !finite_bits(values@[i].bits) {
                crate::search::lemma_least_index(|k: int| !finite_bits(values@[k].bits), values@.len() as int, i);
            }
        }
    }
    let n = values.len();
    let count = n - window + 1;
    let mut out: Vec<Float64> = Vec::with_capacity(count);
    for k in 0..count
        invariant
            n == values@.len(),
            count == values@.len() - window + 1,
            0 < window <= values@.len(),
            forall|i: int| 0 <= i < values@.len() ==> finite_bits(#[trigger] values@[i].bits),
            out@.len() == k,
            want_min ==> forall|j: int| 0 <= j < k ==> is_window_min(values@, j, j + window, #[trigger] out@[j]),
            !want_min ==> forall|j: int| 0 <= j < k ==> is_window_max(values@, j, j + window, #[trigger] out@[j]),
    {
        let m = window_extreme(values, k, k + window, want_min);
        out.push(m);
    }
    Ok(out)
}

} // verus!
