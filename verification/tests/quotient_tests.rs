use circle_stark::m31::M31;
use circle_stark::qm31::QM31;
use circle_stark::circle::{CanonicCoset, secure_field_circle_gen};
use circle_stark::packed::{pack_column, unpack_column};
use circle_stark::poly::{CircleEvaluation, CpuBackend};
use circle_stark::quotients::{self, ColumnSampleBatch, LOG_BLOWUP_FACTOR};
use circle_stark::simd::{SimdBackend, SimdCircleEvaluation};

#[test]
fn test_accumulate_quotients() {
    const LOG_SIZE: u32 = 8;
    let small_coset = CanonicCoset::new(LOG_SIZE);
    let small_domain = small_coset.circle_domain();
    let domain = CanonicCoset::new(LOG_SIZE + LOG_BLOWUP_FACTOR).circle_domain();
    let e0: Vec<M31> = (0..small_domain.size()).map(M31::from_usize).collect();
    let e1: Vec<M31> = (0..small_domain.size()).map(|i| M31::from_usize(2 * i)).collect();
    let polys = vec![
        SimdBackend::interpolate(SimdCircleEvaluation { domain: small_domain, data: pack_column(&e0) }),
        SimdBackend::interpolate(SimdCircleEvaluation { domain: small_domain, data: pack_column(&e1) }),
    ];
    let columns = vec![
        SimdBackend::evaluate(&polys[0], &domain),
        SimdBackend::evaluate(&polys[1], &domain),
    ];
    let random_coeff = QM31::from_u32_unchecked(1, 2, 3, 4);
    let point = secure_field_circle_gen();
    let a = SimdBackend::eval_at_point(&polys[0], &point);
    let b = SimdBackend::eval_at_point(&polys[1], &point);
    let samples = vec![ColumnSampleBatch {
        point,
        columns_and_values: vec![(0, a), (1, b)],
    }];
    let cpu_columns: Vec<CircleEvaluation> = columns
        .iter()
        .map(|c| CircleEvaluation { domain: c.domain, values: unpack_column(&c.data) })
        .collect();

    let cpu_result = quotients::accumulate_quotients(&domain, &cpu_columns, random_coeff, &samples)
        .values;

    let res = SimdBackend::accumulate_quotients(&domain, &columns, random_coeff, &samples)
        .to_vec();

    assert_eq!(res, cpu_result);
}

#[test]
fn empty_batches_accumulate_to_zero() {
    const LOG_SIZE: u32 = 6;
    let domain = CanonicCoset::new(LOG_SIZE).circle_domain();
    let columns: Vec<CircleEvaluation> = Vec::new();
    let samples: Vec<ColumnSampleBatch> = Vec::new();
    let random_coeff = QM31::from_u32_unchecked(9, 8, 7, 6);
    let result = quotients::accumulate_quotients(&domain, &columns, random_coeff, &samples);
    assert_eq!(result.values.len(), 1 << LOG_SIZE);
    for v in result.values {
        assert_eq!(v, QM31::zero());
    }
}

#[test]
fn quotients_are_low_degree() {
    // Interpolating the accumulated quotients must leave the top half of
    // every coordinate's coefficients zero when the claimed values are the
    // true evaluations at the sample point.
    const LOG_SIZE: u32 = 5;
    let small_domain = CanonicCoset::new(LOG_SIZE).circle_domain();
    let domain = CanonicCoset::new(LOG_SIZE + LOG_BLOWUP_FACTOR).circle_domain();
    let e0: Vec<M31> = (0..small_domain.size()).map(|i| M31::from_usize(3 * i + 1)).collect();
    let poly = CpuBackend::interpolate(CircleEvaluation { domain: small_domain, values: e0 });
    let column = CpuBackend::evaluate(&poly, &domain);
    let point = secure_field_circle_gen();
    let a = CpuBackend::eval_at_point(&poly, &point);
    let samples = vec![ColumnSampleBatch {
        point,
        columns_and_values: vec![(0, a)],
    }];
    let random_coeff = QM31::from_u32_unchecked(1, 2, 3, 4);
    let columns = vec![column];
    let result = quotients::accumulate_quotients(&domain, &columns, random_coeff, &samples);

    let size = result.values.len();
    for coord in 0..4 {
        let mut coord_col: Vec<M31> = Vec::new();
        for v in &result.values {
            let (c0, c1, c2, c3) = v.to_m31();
            coord_col.push(match coord {
                0 => c0,
                1 => c1,
                2 => c2,
                _ => c3,
            });
        }
        let coord_poly = CpuBackend::interpolate(CircleEvaluation {
            domain: result.domain,
            values: coord_col,
        });
        for k in (size / 2)..size {
            assert_eq!(coord_poly.coeffs[k], M31::zero(), "coordinate {coord} coefficient {k}");
        }
    }
}
