use quant_lab_engine::Float64;

fn fl(x: f64) -> Float64 {
    Float64::from_bits(x.to_bits())
}

fn samples() -> Vec<f64> {
    vec![
        0.0,
        -0.0,
        1.0,
        -1.0,
        0.5,
        -2.75,
        1e-310,
        -1e-310,
        f64::MIN_POSITIVE,
        f64::MAX,
        f64::MIN,
        f64::INFINITY,
        f64::NEG_INFINITY,
        f64::NAN,
        -f64::NAN,
        123456.789,
    ]
}

#[test]
fn comparisons_agree_with_f64() {
    for a in samples() {
        for b in samples() {
            let (x, y) = (fl(a), fl(b));
            assert_eq!(x.lt(&y), a < b, "{a} < {b}");
            assert_eq!(x.le(&y), a <= b, "{a} <= {b}");
            assert_eq!(x.gt(&y), a > b, "{a} > {b}");
            assert_eq!(x.ge(&y), a >= b, "{a} >= {b}");
            assert_eq!(x.num_eq(&y), a == b, "{a} == {b}");
            assert_eq!(x == y, a == b, "{a} == {b}");
        }
    }
}

#[test]
fn classification_and_sign_agree_with_f64() {
    for a in samples() {
        let x = fl(a);
        assert_eq!(x.is_nan(), a.is_nan());
        assert_eq!(x.is_finite(), a.is_finite());
        assert_eq!(x.neg().to_bits(), (-a).to_bits());
        assert_eq!(x.abs().to_bits(), a.abs().to_bits());
    }
    assert_eq!(Float64::zero().to_bits(), 0.0f64.to_bits());
    assert_eq!(Float64::one().to_bits(), 1.0f64.to_bits());
}
