use circle_stark::m31::M31;
use circle_stark::circle::CanonicCoset;
use circle_stark::poly::{CircleEvaluation, CirclePoly, CpuBackend};
use circle_stark::utils::bit_reverse_index;

#[test]
fn fft_round_trip() {
    const LOG_SIZE: u32 = 5;
    let domain = CanonicCoset::new(LOG_SIZE).circle_domain();
    let values: Vec<M31> = (0..1usize << LOG_SIZE)
        .map(|i| M31::from_usize(7 * i * i + 3 * i + 11))
        .collect();
    let poly = CpuBackend::interpolate(CircleEvaluation { domain, values: values.clone() });
    let back = CpuBackend::evaluate(&poly, &domain);
    assert_eq!(back.values, values);
}

#[test]
fn extend_preserves_evaluations() {
    // A zero-padded polynomial evaluates on the larger domain to values that
    // interpolate back to the padded coefficients.
    const LOG_SIZE: u32 = 4;
    let domain = CanonicCoset::new(LOG_SIZE).circle_domain();
    let big_domain = CanonicCoset::new(LOG_SIZE + 2).circle_domain();
    let values: Vec<M31> = (0..1usize << LOG_SIZE).map(|i| M31::from_usize(i + 1)).collect();
    let poly = CpuBackend::interpolate(CircleEvaluation { domain, values });
    let big_eval = CpuBackend::evaluate(&poly, &big_domain);
    let big_poly = CpuBackend::interpolate(big_eval);
    for k in 0..poly.coeffs.len() {
        assert_eq!(big_poly.coeffs[k], poly.coeffs[k], "low coefficient {k}");
    }
    for k in poly.coeffs.len()..big_poly.coeffs.len() {
        assert_eq!(big_poly.coeffs[k], M31::zero(), "high coefficient {k}");
    }
}

#[test]
fn eval_at_point_agrees_with_fft() {
    const LOG_SIZE: u32 = 4;
    let domain = CanonicCoset::new(LOG_SIZE).circle_domain();
    let values: Vec<M31> = (0..1usize << LOG_SIZE)
        .map(|i| M31::from_usize(5 * i + 2))
        .collect();
    let poly = CpuBackend::interpolate(CircleEvaluation { domain, values });
    let eval = CpuBackend::evaluate(&poly, &domain);
    for i in [0usize, 1, 5, 11, 15] {
        let p = domain.at(i).into_ef();
        let direct = CpuBackend::eval_at_point(&poly, &p);
        let via_fft = eval.values[bit_reverse_index(i, LOG_SIZE)];
        let (c0, c1, c2, c3) = direct.to_m31();
        assert_eq!(c0, via_fft, "point {i}");
        assert_eq!(c1, M31::zero());
        assert_eq!(c2, M31::zero());
        assert_eq!(c3, M31::zero());
    }
}

#[test]
fn quad_row_y_signs() {
    // Four consecutive bit-reversed domain points carry the y-sign pattern
    // (+, -, -, +).
    const LOG_SIZE: u32 = 6;
    let domain = CanonicCoset::new(LOG_SIZE).circle_domain();
    let n = 1usize << LOG_SIZE;
    for quad in 0..n / 4 {
        let y0 = domain.at(bit_reverse_index(4 * quad, LOG_SIZE)).y;
        let y1 = domain.at(bit_reverse_index(4 * quad + 1, LOG_SIZE)).y;
        let y2 = domain.at(bit_reverse_index(4 * quad + 2, LOG_SIZE)).y;
        let y3 = domain.at(bit_reverse_index(4 * quad + 3, LOG_SIZE)).y;
        assert_eq!(y1, y0.neg(), "quad {quad}");
        assert_eq!(y2, y0.neg(), "quad {quad}");
        assert_eq!(y3, y0, "quad {quad}");
    }
}

#[test]
fn field_inverse_and_pow() {
    let x = M31::from_u32_unchecked(123456789);
    assert_eq!(x.mul(x.inverse()), M31::one());
    assert_eq!(x.pow(0), M31::one());
    assert_eq!(x.pow(3), x.mul(x).mul(x));
    let q = circle_stark::qm31::QM31::from_u32_unchecked(5, 6, 7, 8);
    assert_eq!(q.mul(q.inverse()), circle_stark::qm31::QM31::one());
}
