use quant_lab_engine::{BoundaryMode, DType, EngineError, PythonArraySpec, plan_python_boundary};

fn spec(dtype: DType, rows: usize, cols: usize, contiguous: bool, contains_nan: bool) -> PythonArraySpec {
    PythonArraySpec { dtype, rows, cols, contiguous, contains_nan }
}

#[test]
fn python_boundary_plans_borrow_only_for_clean_contiguous_f64() {
    let borrow = plan_python_boundary(spec(DType::F64, 100, 2, true, false), false).expect("valid boundary");

    assert_eq!(borrow.mode, BoundaryMode::Borrow);
    assert!(borrow.release_gil_around_kernel);

    let copy = plan_python_boundary(spec(DType::F32, 100, 2, true, false), false).expect("valid boundary");

    assert_eq!(copy.mode, BoundaryMode::Copy);
}

#[test]
fn python_boundary_owned_output_forces_copy() {
    let plan = plan_python_boundary(spec(DType::F64, 1, 2, true, false), true).expect("valid boundary plan");

    assert_eq!(plan.mode, BoundaryMode::Copy);
    assert!(plan.release_gil_around_kernel);
}

#[test]
fn python_boundary_rejects_empty_shape_and_nan() {
    assert_eq!(
        plan_python_boundary(spec(DType::F64, 0, 2, true, false), false),
        Err(EngineError::InvalidConfig { context: "python array shape must be non-empty" })
    );

    assert_eq!(
        plan_python_boundary(spec(DType::F64, 1, 2, true, true), false),
        Err(EngineError::InvalidMarketData { index: 0, reason: "python array contains NaN" })
    );
}

#[test]
fn python_boundary_copies_without_lock_release_for_strided_or_other_types() {
    let strided = plan_python_boundary(spec(DType::F64, 3, 3, false, false), false).expect("valid");
    assert_eq!(strided.mode, BoundaryMode::Copy);
    assert!(!strided.release_gil_around_kernel);

    let ints = plan_python_boundary(spec(DType::I64, 3, 3, true, false), true).expect("valid");
    assert_eq!(ints.mode, BoundaryMode::Copy);
    assert!(!ints.release_gil_around_kernel);
}

#[test]
fn python_boundary_rejects_zero_columns_before_nan() {
    assert_eq!(
        plan_python_boundary(spec(DType::F64, 4, 0, true, true), false),
        Err(EngineError::InvalidConfig { context: "python array shape must be non-empty" })
    );
}

#[test]
fn python_array_values_len_is_rows_times_cols() {
    assert_eq!(spec(DType::F64, 100, 2, true, false).values_len(), 200);
    assert_eq!(spec(DType::F32, 0, 7, true, false).values_len(), 0);
}
