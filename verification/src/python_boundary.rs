use vstd::prelude::*;

use crate::error::EngineError;

verus! {

/// Element type of an array handed over from Python.
#[derive(Debug, Clone, Copy, PartialEq, Eq, Structural)]
pub enum DType {
    F64,
    F32,
    I64,
}

/// Whether the kernel borrows the caller's buffer or works on a copy.
#[derive(Debug, Clone, Copy, PartialEq, Eq, Structural)]
pub enum BoundaryMode {
    Borrow,
    Copy,
}

/// What is known of an array before it crosses the boundary.
#[derive(Debug, Clone, Copy, PartialEq, Eq)]
pub struct PythonArraySpec {
    pub dtype: DType,
    pub rows: usize,
    pub cols: usize,
    pub contiguous: bool,
    pub contains_nan: bool,
}

impl PythonArraySpec {
    /// Number of values in the array.
    pub fn values_len(&self) -> (r: usize)
        requires
            self.rows * self.cols <= usize::MAX,
        ensures
            r == self.rows * self.cols,
    {
        self.rows * self.cols
    }
}

/// How a call across the boundary is carried out.
#[derive(Debug, Clone, PartialEq, Eq)]
pub struct BoundaryPlan {
    pub mode: BoundaryMode,
    pub release_gil_around_kernel: bool,
    pub reason: &'static str,
}

/// The plan for an array of shape and layout `spec`: `None` when the array is
/// refused (empty shape, then NaN), else the mode, the lock release and why.
pub open spec fn boundary_decision(spec: PythonArraySpec, needs_owned_output: bool) -> Option<(BoundaryMode, bool)> {
    if spec.rows == 0 || spec.cols == 0 || spec.contains_nan {
        None
    } else if spec.dtype != DType::F64 || !spec.contiguous {
        Some((BoundaryMode::Copy, false))
    } else if needs_owned_output {
        Some((BoundaryMode::Copy, true))
    } else {
        Some((BoundaryMode::Borrow, true))
    }
}

/// Decides how an array crosses from Python into a Rust kernel.
///
/// Empty shapes and arrays with NaN are refused; a non-`F64` or
/// non-contiguous array is copied and the interpreter lock is kept; a clean
/// contiguous `F64` array is borrowed unless the caller needs an owned output.
pub fn plan_python_boundary(spec: PythonArraySpec, needs_owned_output: bool) -> (r: Result<BoundaryPlan, EngineError>)
    ensures
        (spec.rows == 0 || spec.cols == 0) ==> r == Err::<BoundaryPlan, EngineError>(
            EngineError::InvalidConfig { context: "python array shape must be non-empty" },
        ),
        (spec.rows != 0 && spec.cols != 0 && spec.contains_nan) ==> r == Err::<BoundaryPlan, EngineError>(
            EngineError::InvalidMarketData { index: 0, reason: "python array contains NaN" },
        ),
        r is Ok <==> boundary_decision(spec, needs_owned_output) is Some,
        r matches Ok(plan) ==> boundary_decision(spec, needs_owned_output) == Some((plan.mode, plan.release_gil_around_kernel)),
        r matches Ok(plan) ==> plan.reason == (
            if spec.dtype != DType::F64 {
                "dtype conversion is required before the Rust kernel"
            } else if !spec.contiguous {
                "non-contiguous arrays need a contiguous staging buffer"
            } else if needs_owned_output {
                "boundary owns an output buffer while the kernel stays pure"
            } else {
                "contiguous f64 input can be borrowed for the kernel call"
            }
        ),
        // Borrowing happens only for a clean, contiguous f64 array whose output is not owned.
        r matches Ok(plan) && plan.mode == BoundaryMode::Borrow ==> spec.dtype == DType::F64 && spec.contiguous && !needs_owned_output,
{
    if spec.rows == 0 || spec.cols == 0 {
        return Err(EngineError::InvalidConfig { context: "python array shape must be non-empty" });
    }
    if spec.contains_nan {
        return Err(EngineError::InvalidMarketData { index: 0, reason: "python array contains NaN" });
    }
    if spec.dtype != DType::F64 {
        return Ok(BoundaryPlan {
            mode: BoundaryMode::Copy,
            release_gil_around_kernel: false,
            reason: "dtype conversion is required before the Rust kernel",
        });
    }
    if !spec.contiguous {
        return Ok(BoundaryPlan {
            mode: BoundaryMode::Copy,
            release_gil_around_kernel: false,
            reason: "non-contiguous arrays need a contiguous staging buffer",
        });
    }
    if needs_owned_output {
        Ok(BoundaryPlan {
            mode: BoundaryMode::Copy,
            release_gil_around_kernel: true,
            reason: "boundary owns an output buffer while the kernel stays pure",
        })
    } else {
        Ok(BoundaryPlan {
            mode: BoundaryMode::Borrow,
            release_gil_around_kernel: true,
            reason: "contiguous f64 input can be borrowed for the kernel call",
        })
    }
}

} // verus!
