use circle_stark::m31::M31;
use circle_stark::circle::Coset;
use circle_stark::line::{LineDomain, LinePoly};
use circle_stark::fri::{apply_drp, batch_inverse, bit_reversed_domain_elements};

fn bit_reverse<T: Copy>(mut v: Vec<T>) -> Vec<T> {
    let n = v.len();
    assert!(n.is_power_of_two());
    let n_bits = n.ilog2();
    for i in 0..n {
        let j = i.reverse_bits() >> (usize::BITS - n_bits);
        if j > i {
            v.swap(i, j);
        }
    }
    v
}

#[test]
fn batch_inverse_works() {
    let vals: Vec<M31> = [7u32, 3, 2, 129].iter().map(|&v| M31::from_u32_unchecked(v)).collect();

    let vals_inv = batch_inverse(&vals);

    for i in 0..vals.len() {
        assert_eq!(vals_inv[i], vals[i].inverse(), "mismatch at {i}");
    }
}

#[test]
fn bit_reversed_domain_elements_works() {
    const N_BITS: u32 = 8;
    let domain = LineDomain::new(Coset::half_odds(N_BITS));
    let n = domain.size() / 2;
    let mut natural = Vec::new();
    for i in 0..n {
        natural.push(domain.at(i));
    }
    let expected_elements = bit_reverse(natural);

    let bit_reversed_elements = bit_reversed_domain_elements(&domain);

    assert_eq!(bit_reversed_elements.len(), n);
    for i in 0..n {
        assert_eq!(bit_reversed_elements[i], expected_elements[i], "mismatch at {i}");
    }
}

#[test]
fn drp_works() {
    const DEGREE: usize = 8;
    // Coefficients are bit-reversed.
    let even_coeffs: Vec<M31> = [1u32, 2, 1, 3].iter().map(|&v| M31::from_u32_unchecked(v)).collect();
    let odd_coeffs: Vec<M31> = [3u32, 5, 4, 1].iter().map(|&v| M31::from_u32_unchecked(v)).collect();
    let mut all_coeffs = even_coeffs.clone();
    all_coeffs.extend_from_slice(&odd_coeffs);
    let coeffs = LinePoly::new(all_coeffs, DEGREE.ilog2());
    let alpha = M31::from_u32_unchecked(19283);
    let domain = LineDomain::new(Coset::half_odds(DEGREE.ilog2()));
    let evals = coeffs.evaluate(domain);
    let bit_reversed_evals = bit_reverse(evals);
    let two = M31::from_u32_unchecked(2);

    let drp_evals = apply_drp(&bit_reversed_evals, alpha);

    assert_eq!(drp_evals.len(), DEGREE / 2);
    for i in 0..DEGREE / 2 {
        assert_eq!(
            drp_evals[i],
            two.mul(even_coeffs[i].add(alpha.mul(odd_coeffs[i]))),
            "mismatch at {i}"
        );
    }
}

#[test]
fn drp_halves_the_evaluation() {
    const N: usize = 32;
    let evals: Vec<M31> = (0..N).map(|i| M31::from_u32_unchecked((i * i + 5) as u32)).collect();
    let alpha = M31::from_u32_unchecked(77);
    let out = apply_drp(&evals, alpha);
    assert_eq!(out.len(), N / 2);
}

#[test]
fn batch_inverse_product_is_one() {
    let vals: Vec<M31> = [12u32, 55, 3, 999, 123456].iter().map(|&v| M31::from_u32_unchecked(v)).collect();
    let invs = batch_inverse(&vals);
    let mut product = M31::one();
    for i in 0..vals.len() {
        product = product.mul(vals[i]).mul(invs[i]);
    }
    assert_eq!(product, M31::one());
}
