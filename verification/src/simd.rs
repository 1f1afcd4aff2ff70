//! The 16-lane packed backend: columns stored as packed bundles, the DEEP
//! quotient row kernel over four packed rows at a time, and polynomial
//! operations that defer to the scalar reference engine.
//!
//! The output of every operation must agree bit-exactly with the scalar
//! backend; the full-domain accumulation below keeps that agreement without
//! the subdomain split, which is an optimization and not observable.

use vstd::prelude::*;
use crate::m31::M31;
use crate::qm31::{QM31, qadd, qsub, qmul, qzero, q_from_f, qinv_or_zero, qneg};
use crate::circle::{CircleDomain, CanonicCoset, SecureCirclePoint};
use crate::packed::{PackedM31, PackedQM31, pack_column, unpack_column, unpack_secure_column, col_at};
use crate::poly::{CircleEvaluation, CirclePoly, CpuBackend, eval_at_point_spec, lift_coeffs};
use crate::quotients::{ColumnSampleBatch, domain_vanish_spec, column_line_coeffs,
    batch_random_coeffs, lc_a, lc_b, lc_c, lc_views_all, bc_views, numer_spec, row_accum_spec,
    lc_spec_all, bc_spec_all, dinv_family};
use crate::qm31::qpow;
use crate::m31::fneg;
use crate::packed::secure_col_at;
use crate::utils::bit_reverse_index;
use vstd::arithmetic::power2::{pow2, lemma_pow2_adds, lemma2_to64};

verus! {

/// A base-field column over a circle domain in bit-reversed order, packed.
#[derive(PartialEq, Eq, Debug)]
pub struct SimdCircleEvaluation {
    pub domain: CircleDomain,
    pub data: Vec<PackedM31>,
}

/// A circle polynomial with packed coefficients.
#[derive(PartialEq, Eq, Debug)]
pub struct SimdCirclePoly {
    pub coeffs: Vec<PackedM31>,
    pub log_size: u32,
}

/// A secure-field column over a circle domain in bit-reversed order, packed.
#[derive(PartialEq, Eq, Debug)]
pub struct SimdSecureEvaluation {
    pub domain: CircleDomain,
    pub data: Vec<PackedQM31>,
}

/// Per-proof constants of the packed accumulator: the same line and batch
/// coefficients as the scalar backend, with packed denominator inverses.
pub struct QuotientConstants {
    pub line_coeffs: Vec<Vec<(QM31, QM31, QM31)>>,
    pub batch_random_coeffs: Vec<QM31>,
    pub denominator_inverses: Vec<Vec<PackedQM31>>,
}

impl SimdCircleEvaluation {
    /// Whether every bundle is full.
    pub open spec fn wf(self) -> bool {
        forall|i: int| 0 <= i < self.data.len() ==> (#[trigger] self.data[i]).wf()
    }
}

impl SimdSecureEvaluation {
    /// Whether every bundle is full.
    pub open spec fn wf(self) -> bool {
        forall|i: int| 0 <= i < self.data.len() ==> (#[trigger] self.data[i]).wf()
    }

    /// The flattened values.
    pub fn to_vec(&self) -> (r: Vec<QM31>)
        requires
            self.wf(),
        ensures
            r.len() == 16 * self.data.len(),
            forall|k: int|
                0 <= k < r.len() ==> r[k] == crate::packed::secure_col_at(self.data@, k),
    {
        unpack_secure_column(&self.data)
    }
}

/// The flattened entries of a packed column, as base-field values.
pub open spec fn packed_m31_seq(data: Seq<PackedM31>) -> Seq<M31> {
    Seq::new((16 * data.len()) as nat, |k: int| col_at(data, k))
}

/// The flattened column views of a set of packed evaluations.
pub open spec fn packed_cols_views(cs: Seq<SimdCircleEvaluation>) -> Seq<Seq<M31>> {
    Seq::new(
        cs.len(),
        |c: int| Seq::new((16 * cs[c].data.len()) as nat, |k: int| col_at(cs[c].data@, k)),
    )
}

/// The flattened views of the per-batch packed denominator inverse columns.
pub open spec fn packed_dinv_views(s: Seq<Vec<PackedQM31>>) -> Seq<
    Seq<((int, int), (int, int))>,
> {
    Seq::new(
        s.len(),
        |b: int| Seq::new((16 * s[b]@.len()) as nat, |k: int| secure_col_at(s[b]@, k)@),
    )
}

/// The `y` value the row kernel uses for sub-row `i`, lane `j`: the spaced
/// representative at stride 4, negated on the middle two of each four
/// consecutive bit-reversed rows.
pub open spec fn signed_y(spaced: Seq<M31>, i: int, j: int) -> int {
    if j % 4 == 1 || j % 4 == 2 {
        fneg(spaced[4 * i + j / 4]@)
    } else {
        spaced[4 * i + j / 4]@
    }
}

/// The `y` value the packed accumulator uses at flat bit-reversed row `k`:
/// the `y` coordinate of the first point of the row's quad, negated on the
/// middle two rows of the quad.
pub open spec fn signed_row_y(domain: CircleDomain, k: int) -> int {
    let base = crate::circle::point_of_index(
        domain.index_at_spec(crate::utils::bit_rev(4 * (k / 4), domain.log_size_spec() as nat)),
    ).1;
    if k % 4 == 1 || k % 4 == 2 {
        fneg(base)
    } else {
        base
    }
}

/// The signed spaced representative of sub-row `i`, lane `j` is the signed
/// row `y` of the corresponding flat row.
proof fn lemma_signed_y_bridge(domain: CircleDomain, quad_row: int, spaced: Seq<M31>)
    requires
        spaced.len() == 16,
        0 <= quad_row,
        forall|t: int|
            0 <= t < 16 ==> (#[trigger] spaced[t])@ == crate::circle::point_of_index(
                domain.index_at_spec(
                    crate::utils::bit_rev(64 * quad_row + 4 * t, domain.log_size_spec() as nat),
                ),
            ).1,
    ensures
        forall|i: int, j2: int|
            0 <= i < 4 && 0 <= j2 < 16 ==> #[trigger] signed_y(spaced, i, j2) == signed_row_y(
                domain,
                16 * (4 * quad_row + i) + j2,
            ),
{
    assert forall|i: int, j2: int| 0 <= i < 4 && 0 <= j2 < 16 implies #[trigger] signed_y(
        spaced,
        i,
        j2,
    ) == signed_row_y(domain, 16 * (4 * quad_row + i) + j2) by {
        let k = 16 * (4 * quad_row + i) + j2;
        vstd::arithmetic::div_mod::lemma_fundamental_div_mod(j2, 4);
        vstd::arithmetic::div_mod::lemma_mod_bound(j2, 4);
        vstd::arithmetic::div_mod::lemma_fundamental_div_mod_converse_div(
            k,
            4,
            16 * quad_row + 4 * i + j2 / 4,
            j2 % 4,
        );
        vstd::arithmetic::div_mod::lemma_fundamental_div_mod_converse_mod(
            k,
            4,
            16 * quad_row + 4 * i + j2 / 4,
            j2 % 4,
        );
        assert(spaced[4 * i + j2 / 4]@ == crate::circle::point_of_index(
            domain.index_at_spec(
                crate::utils::bit_rev(
                    64 * quad_row + 4 * (4 * i + j2 / 4),
                    domain.log_size_spec() as nat,
                ),
            ),
        ).1);
        assert(64 * quad_row + 4 * (4 * i + j2 / 4) == 4 * (k / 4));
    }
}

/// Appending the four bundles of one quad keeps the flat content equation:
/// if the first `16 * prev_len` flat rows already hold the fold and the four
/// new bundles hold it lane-wise against the signed spaced representatives,
/// every flat row of the extended column holds it.
proof fn lemma_data_extend(
    data: Seq<PackedQM31>,
    orig: Seq<PackedQM31>,
    prev_len: int,
    batches: Seq<ColumnSampleBatch>,
    pcols: Seq<Seq<M31>>,
    plc: Seq<Seq<(((int, int), (int, int)), ((int, int), (int, int)), ((int, int), (int, int)))>>,
    pbc: Seq<((int, int), (int, int))>,
    pdinv: Seq<Seq<((int, int), (int, int))>>,
    domain: CircleDomain,
    quad_row: int,
    spaced: Seq<M31>,
)
    requires
        0 <= prev_len,
        data.len() == prev_len + 4,
        prev_len == 4 * quad_row,
        orig.len() == 4,
        forall|k: int|
            0 <= k < 16 * prev_len ==> (#[trigger] secure_col_at(data, k))@ == row_accum_spec(
                batches,
                pcols,
                plc,
                pbc,
                pdinv,
                k,
                signed_row_y(domain, k),
                batches.len() as int,
            ),
        forall|t: int| 0 <= t < 4 ==> (#[trigger] data[prev_len + t]) == orig[t],
        forall|i: int, j2: int|
            0 <= i < 4 && 0 <= j2 < 16 ==> (#[trigger] orig[i].lanes[j2])@ == row_accum_spec(
                batches,
                pcols,
                plc,
                pbc,
                pdinv,
                16 * (4 * quad_row + i) + j2,
                signed_y(spaced, i, j2),
                batches.len() as int,
            ),
        forall|i: int, j2: int|
            0 <= i < 4 && 0 <= j2 < 16 ==> signed_y(spaced, i, j2) == signed_row_y(
                domain,
                16 * (4 * quad_row + i) + j2,
            ),
    ensures
        forall|k: int|
            0 <= k < 16 * data.len() ==> (#[trigger] secure_col_at(data, k))@ == row_accum_spec(
                batches,
                pcols,
                plc,
                pbc,
                pdinv,
                k,
                signed_row_y(domain, k),
                batches.len() as int,
            ),
{
    assert forall|k: int| 0 <= k < 16 * data.len() implies (#[trigger] secure_col_at(data, k))@
        == row_accum_spec(
        batches,
        pcols,
        plc,
        pbc,
        pdinv,
        k,
        signed_row_y(domain, k),
        batches.len() as int,
    ) by {
        vstd::arithmetic::div_mod::lemma_fundamental_div_mod(k, 16);
        vstd::arithmetic::div_mod::lemma_mod_bound(k, 16);
        if k / 16 >= prev_len {
            let i2 = k / 16 - prev_len;
            let j2 = k % 16;
            assert(data[prev_len + i2] == orig[i2]);
            assert(k == 16 * (4 * quad_row + i2) + j2);
            assert(orig[i2].lanes[j2]@ == row_accum_spec(
                batches,
                pcols,
                plc,
                pbc,
                pdinv,
                16 * (4 * quad_row + i2) + j2,
                signed_y(spaced, i2, j2),
                batches.len() as int,
            ));
        }
    }
}

/// Law: the sign-patterned spaced `y` is the true row `y`. Four consecutive
/// bit-reversed rows hold the points `P, -P, P+H, -P+H` with `H = (-1, 0)`,
/// so their `y` coordinates follow the quad's representative with signs
/// `(+, -, -, +)`.
pub proof fn lemma_y_sign_pattern(domain: CircleDomain, k: int)
    requires
        domain.wf(),
        2 <= domain.log_size_spec(),
        0 <= k < pow2(domain.log_size_spec() as nat),
    ensures
        signed_row_y(domain, k) == crate::quotients::row_point_y(domain, k),
{
    let n = domain.log_size_spec();
    let m = domain.half_coset.log_size as int;
    let ord = crate::circle::CIRCLE_ORDER as int;
    let p = crate::m31::P as int;
    let j = 4 * (k / 4);
    let r = k % 4;
    vstd::arithmetic::div_mod::lemma_fundamental_div_mod(k, 4);
    vstd::arithmetic::div_mod::lemma_mod_bound(k, 4);
    assert(j % 4 == 0) by {
        vstd::arithmetic::div_mod::lemma_mod_multiples_basic(k / 4, 4);
        vstd::arithmetic::mul::lemma_mul_is_commutative(k / 4, 4);
    }
    assert(j % 2 == 0) by {
        vstd::arithmetic::div_mod::lemma_mod_mod(j, 2, 2);
    }
    assert(0 <= j) by {
        vstd::arithmetic::mul::lemma_mul_nonnegative(4, k / 4);
        if k / 4 < 0 {
            vstd::arithmetic::mul::lemma_mul_inequality(k / 4, -1, 4);
            vstd::arithmetic::mul::lemma_mul_is_commutative(4, k / 4);
        }
    }
    crate::utils::lemma_bit_rev_mult4(j, n as nat);
    let b0 = crate::utils::bit_rev(j, n as nat);
    vstd::arithmetic::power2::lemma_pow2_unfold((n - 1) as nat);
    vstd::arithmetic::power2::lemma_pow2_strictly_increases((n - 2) as nat, (n - 1) as nat);
    let hs = domain.half_coset;
    let q = hs.initial_index@;
    let s = hs.step_size_spec();
    let hidx0 = hs.index_at_spec(b0);
    assert(0 <= hidx0 < ord) by {
        vstd::arithmetic::div_mod::lemma_mod_bound(q + s * b0, ord);
    }
    let base = crate::circle::point_of_index(hidx0).1;
    assert(0 <= base < p) by {
        crate::cm31::lemma_cpow_range(crate::circle::circle_gen(), (hidx0 % ord) as nat);
    }
    if r == 0 {
        assert(k == j);
    } else if r == 1 {
        crate::utils::lemma_bit_rev_plus1(j, n as nat);
        assert(crate::utils::bit_rev(k, n as nat) == b0 + pow2((n - 1) as nat));
        crate::circle::lemma_point_neg(hidx0);
    } else {
        // Both remaining rows shift the representative by the half turn.
        crate::utils::lemma_bit_rev_plus2(j, n as nat);
        let b2 = b0 + pow2((n - 2) as nat);
        assert(b2 < pow2(m as nat));
        // The shifted coset index is the representative's index plus 2^30.
        lemma2_to64();
        assert(s == pow2((31 - m) as nat) as int) by {
            vstd::arithmetic::power2::lemma_pow2_strictly_increases((31 - m) as nat, 31);
            vstd::arithmetic::div_mod::lemma_small_mod(
                pow2((31 - m) as nat),
                crate::circle::CIRCLE_ORDER as nat,
            );
        }
        assert(s * b2 == s * b0 + pow2(30)) by {
            vstd::arithmetic::mul::lemma_mul_is_distributive_add(
                s,
                b0,
                pow2((n - 2) as nat) as int,
            );
            vstd::arithmetic::power2::lemma_pow2_adds((31 - m) as nat, (n - 2) as nat);
        }
        let hidx2 = hs.index_at_spec(b2);
        assert(hidx2 == (hidx0 + pow2(30)) % ord) by {
            vstd::arithmetic::div_mod::lemma_add_mod_noop_right(
                pow2(30) as int,
                q + s * b0,
                ord,
            );
        }
        crate::circle::lemma_point_half_turn(hidx0);
        if r == 2 {
            assert(crate::utils::bit_rev(k, n as nat) == b2);
        } else {
            assert(j + 2 + 1 == k);
            crate::utils::lemma_bit_rev_plus1(j + 2, n as nat);
            assert(crate::utils::bit_rev(k, n as nat) == b2 + pow2((n - 1) as nat));
            assert(0 <= hidx2 < ord) by {
                vstd::arithmetic::div_mod::lemma_mod_bound(q + s * b2, ord);
            }
            crate::circle::lemma_point_neg(hidx2);
            // Two negations cancel on the reduced representative.
            assert(crate::m31::fneg(crate::m31::fneg(base)) == base) by {
                vstd::arithmetic::div_mod::lemma_sub_mod_noop_right(0, -base, p);
                vstd::arithmetic::div_mod::lemma_small_mod(base as nat, p as nat);
            }
        }
    }
}

/// Law: the backends agree. The packed and scalar accumulators both pin
/// every output value to the same Horner fold at the same row point, so
/// whenever the packed columns flatten to the scalar columns, the two
/// ensured outputs are equal, value for value.
pub proof fn lemma_backend_agreement(
    batches: Seq<ColumnSampleBatch>,
    pc: Seq<SimdCircleEvaluation>,
    cc: Seq<crate::poly::CircleEvaluation>,
    alpha: ((int, int), (int, int)),
    domain: CircleDomain,
    k: int,
)
    requires
        packed_cols_views(pc) == crate::quotients::cols_views(cc),
    ensures
        row_accum_spec(
            batches,
            packed_cols_views(pc),
            lc_spec_all(batches, alpha),
            bc_spec_all(batches, alpha),
            dinv_family(batches, domain),
            k,
            crate::quotients::row_point_y(domain, k),
            batches.len() as int,
        ) == row_accum_spec(
            batches,
            crate::quotients::cols_views(cc),
            lc_spec_all(batches, alpha),
            bc_spec_all(batches, alpha),
            dinv_family(batches, domain),
            k,
            crate::quotients::row_point_y(domain, k),
            batches.len() as int,
        ),
{
}

/// The packed backend.
pub struct SimdBackend {}

impl SimdBackend {
    /// Interprets packed `values` as the evaluation over a canonic coset in
    /// natural order; defers to the scalar engine.
    pub fn new_canonical_ordered(coset: &CanonicCoset, values: &Vec<PackedM31>) -> (r:
        SimdCircleEvaluation)
        requires
            coset.wf(),
            coset.coset.log_size >= 4,
            16 * values.len() == pow2(coset.coset.log_size as nat),
            forall|i: int| 0 <= i < values.len() ==> (#[trigger] values[i]).wf(),
        ensures
            r.domain.half_coset.initial_index@ == pow2((30 - coset.coset.log_size) as nat),
            r.domain.half_coset.log_size == coset.coset.log_size - 1,
            r.domain.wf(),
            r.data.len() == values.len(),
            r.wf(),
            forall|k: int|
                0 <= k < pow2(coset.coset.log_size as nat) ==> #[trigger] col_at(r.data@, k)
                    == col_at(
                    values@,
                    crate::poly::canonical_order_index(
                        crate::utils::bit_rev(k, coset.coset.log_size as nat),
                        pow2(coset.coset.log_size as nat) as int,
                    ),
                ),
    {
        let flat = unpack_column(values);
        let eval = CpuBackend::new_canonical_ordered(coset, &flat);
        proof {
            lemma_pow2_ge16(coset.coset.log_size);
        }
        let data = pack_column(&eval.values);
        proof {
            let n = pow2(coset.coset.log_size as nat) as int;
            vstd::arithmetic::power2::lemma_pow2_unfold(coset.coset.log_size as nat);
            assert forall|k: int| 0 <= k < n implies #[trigger] col_at(data@, k) == col_at(
                values@,
                crate::poly::canonical_order_index(
                    crate::utils::bit_rev(k, coset.coset.log_size as nat),
                    n,
                ),
            ) by {
                crate::utils::lemma_bit_rev_range(k, coset.coset.log_size as nat);
                let p = crate::poly::canonical_order_index(
                    crate::utils::bit_rev(k, coset.coset.log_size as nat),
                    n,
                );
                assert(0 <= p < n);
                assert(eval.values[k] == flat[p]);
            }
        }
        SimdCircleEvaluation { domain: eval.domain, data }
    }

    /// Inverse circle FFT on a packed column; defers to the scalar engine.
    pub fn interpolate(eval: SimdCircleEvaluation) -> (r: SimdCirclePoly)
        requires
            eval.domain.wf(),
            4 <= eval.domain.log_size_spec() <= 30,
            16 * eval.data.len() == pow2(eval.domain.log_size_spec() as nat),
            eval.wf(),
        ensures
            16 * r.coeffs.len() == pow2(eval.domain.log_size_spec() as nat),
            r.log_size == eval.domain.log_size_spec(),
            forall|k: int|
                0 <= k < 16 * r.coeffs.len() ==> (#[trigger] col_at(r.coeffs@, k))@
                    == crate::m31::fmul(
                    crate::poly::ifft_stages(
                        crate::poly::m31_views(packed_m31_seq(eval.data@)),
                        eval.domain,
                        eval.domain.log_size_spec(),
                        eval.domain.log_size_spec(),
                    )[k],
                    crate::m31::finv(pow2(eval.domain.log_size_spec() as nat) as int),
                ),
    {
        let flat = unpack_column(&eval.data);
        proof {
            assert(flat@ =~= packed_m31_seq(eval.data@));
        }
        let poly = CpuBackend::interpolate(CircleEvaluation { domain: eval.domain, values: flat });
        proof {
            lemma_pow2_ge16(poly.log_size);
        }
        let coeffs = pack_column(&poly.coeffs);
        proof {
            assert forall|k: int| 0 <= k < 16 * coeffs.len() implies (#[trigger] col_at(
                coeffs@,
                k,
            ))@ == crate::m31::fmul(
                crate::poly::ifft_stages(
                    crate::poly::m31_views(packed_m31_seq(eval.data@)),
                    eval.domain,
                    eval.domain.log_size_spec(),
                    eval.domain.log_size_spec(),
                )[k],
                crate::m31::finv(pow2(eval.domain.log_size_spec() as nat) as int),
            ) by {
                assert(col_at(coeffs@, k) == poly.coeffs[k]);
            }
        }
        SimdCirclePoly { coeffs, log_size: poly.log_size }
    }

    /// Forward circle FFT on a packed column; defers to the scalar engine.
    pub fn evaluate(poly: &SimdCirclePoly, domain: &CircleDomain) -> (r: SimdCircleEvaluation)
        requires
            domain.wf(),
            4 <= domain.log_size_spec() <= 30,
            poly.log_size <= domain.log_size_spec(),
            16 * poly.coeffs.len() == pow2(poly.log_size as nat),
            forall|i: int| 0 <= i < poly.coeffs.len() ==> (#[trigger] poly.coeffs[i]).wf(),
        ensures
            r.domain == *domain,
            16 * r.data.len() == pow2(domain.log_size_spec() as nat),
            r.wf(),
            forall|k: int|
                0 <= k < 16 * r.data.len() ==> (#[trigger] col_at(r.data@, k))@
                    == crate::poly::fft_stages(
                    crate::poly::padded_coeffs(
                        packed_m31_seq(poly.coeffs@),
                        pow2(domain.log_size_spec() as nat),
                    ),
                    *domain,
                    domain.log_size_spec(),
                    domain.log_size_spec(),
                )[k],
    {
        let flat = unpack_column(&poly.coeffs);
        proof {
            assert(flat@ =~= packed_m31_seq(poly.coeffs@));
        }
        let cpoly = CirclePoly { coeffs: flat, log_size: poly.log_size };
        let eval = CpuBackend::evaluate(&cpoly, domain);
        let n = domain.log_size();
        proof {
            lemma_pow2_ge16(n);
        }
        let data = pack_column(&eval.values);
        proof {
            assert forall|k: int| 0 <= k < 16 * data.len() implies (#[trigger] col_at(data@, k))@
                == crate::poly::fft_stages(
                crate::poly::padded_coeffs(
                    packed_m31_seq(poly.coeffs@),
                    pow2(domain.log_size_spec() as nat),
                ),
                *domain,
                domain.log_size_spec(),
                domain.log_size_spec(),
            )[k] by {
                assert(col_at(data@, k) == eval.values[k]);
            }
        }
        SimdCircleEvaluation { domain: eval.domain, data }
    }

    /// Direct evaluation at an out-of-domain point; defers to the scalar
    /// engine.
    pub fn eval_at_point(poly: &SimdCirclePoly, point: &SecureCirclePoint) -> (r: QM31)
        requires
            16 * poly.coeffs.len() == pow2(poly.log_size as nat),
            forall|i: int| 0 <= i < poly.coeffs.len() ==> (#[trigger] poly.coeffs[i]).wf(),
        ensures
            r@ == eval_at_point_spec(
                lift_coeffs(Seq::new(pow2(poly.log_size as nat), |k: int| col_at(poly.coeffs@, k))),
                point.x@,
                point.y@,
            ),
    {
        let flat = unpack_column(&poly.coeffs);
        let cpoly = CirclePoly { coeffs: flat, log_size: poly.log_size };
        let r = CpuBackend::eval_at_point(&cpoly, point);
        proof {
            assert(cpoly.coeffs@ =~= Seq::new(
                pow2(poly.log_size as nat),
                |k: int| col_at(poly.coeffs@, k),
            ));
        }
        r
    }

    /// Zero-pads packed coefficients to a larger size; defers to the scalar
    /// engine.
    pub fn extend(poly: &SimdCirclePoly, log_size: u32) -> (r: SimdCirclePoly)
        requires
            4 <= poly.log_size,
            poly.log_size <= log_size <= 30,
            16 * poly.coeffs.len() == pow2(poly.log_size as nat),
            forall|i: int| 0 <= i < poly.coeffs.len() ==> (#[trigger] poly.coeffs[i]).wf(),
        ensures
            r.log_size == log_size,
            16 * r.coeffs.len() == pow2(log_size as nat),
            forall|k: int|
                0 <= k < pow2(poly.log_size as nat) ==> #[trigger] col_at(r.coeffs@, k) == col_at(
                    poly.coeffs@,
                    k,
                ),
            forall|k: int|
                pow2(poly.log_size as nat) <= k < pow2(log_size as nat) ==> #[trigger] col_at(
                    r.coeffs@,
                    k,
                )@ == 0,
    {
        let flat = unpack_column(&poly.coeffs);
        let cpoly = CirclePoly { coeffs: flat, log_size: poly.log_size };
        let ext = CpuBackend::extend(&cpoly, log_size);
        proof {
            lemma_pow2_ge16(log_size);
        }
        let coeffs = pack_column(&ext.coeffs);
        proof {
            assert forall|k: int| 0 <= k < pow2(poly.log_size as nat) implies #[trigger] col_at(
                coeffs@,
                k,
            ) == col_at(poly.coeffs@, k) by {
                if poly.log_size < log_size {
                    vstd::arithmetic::power2::lemma_pow2_strictly_increases(
                        poly.log_size as nat,
                        log_size as nat,
                    );
                }
                assert(col_at(coeffs@, k) == ext.coeffs[k]);
                assert(ext.coeffs[k] == flat[k]);
                assert(flat[k] == col_at(poly.coeffs@, k));
            }
        }
        SimdCirclePoly { coeffs, log_size }
    }

    /// Accumulates the DEEP quotients over the whole domain, four packed rows
    /// at a time; bit-exact with the scalar accumulator.
    #[verifier::rlimit(100)]
    pub fn accumulate_quotients(
        domain: &CircleDomain,
        columns: &Vec<SimdCircleEvaluation>,
        random_coeff: QM31,
        sample_batches: &Vec<ColumnSampleBatch>,
    ) -> (r: SimdSecureEvaluation)
        requires
            domain.wf(),
            6 <= domain.log_size_spec() <= 30,
            forall|c: int|
                0 <= c < columns.len() ==> 16 * (#[trigger] columns[c]).data.len() == pow2(
                    domain.log_size_spec() as nat,
                ),
            forall|c: int| 0 <= c < columns.len() ==> (#[trigger] columns[c]).wf(),
            forall|b: int, j: int|
                0 <= b < sample_batches.len() && 0 <= j
                    < sample_batches[b].columns_and_values.len() ==> (
                #[trigger] sample_batches[b].columns_and_values[j]).0 < columns.len(),
        ensures
            r.domain == *domain,
            16 * r.data.len() == pow2(domain.log_size_spec() as nat),
            r.wf(),
            forall|k: int|
                0 <= k < 16 * r.data.len() ==> (#[trigger] secure_col_at(r.data@, k))@
                    == row_accum_spec(
                    sample_batches@,
                    packed_cols_views(columns@),
                    lc_spec_all(sample_batches@, random_coeff@),
                    bc_spec_all(sample_batches@, random_coeff@),
                    dinv_family(sample_batches@, *domain),
                    k,
                    crate::quotients::row_point_y(*domain, k),
                    sample_batches.len() as int,
                ),
    {
        let n = domain.log_size();
        let size = domain.size();
        let constants = quotient_constants(sample_batches, random_coeff, domain);
        let ghost pcols = packed_cols_views(columns@);
        let ghost plc = lc_spec_all(sample_batches@, random_coeff@);
        let ghost pbc = bc_spec_all(sample_batches@, random_coeff@);
        let ghost pdinv = dinv_family(sample_batches@, *domain);
        let packed_rows = size / 16;
        let quad_rows = size / 64;
        proof {
            lemma_pow2_adds((n - 4) as nat, 4);
            lemma_pow2_adds((n - 6) as nat, 6);
            lemma_pow2_adds((n - 6) as nat, 2);
            assert(pow2(6) == 64 && pow2(4) == 16 && pow2(2) == 4) by {
                vstd::arithmetic::power2::lemma2_to64();
            }
            assert(lc_views_all(constants.line_coeffs@) =~= plc) by {
                assert forall|b: int| 0 <= b < sample_batches.len() implies lc_views_all(
                    constants.line_coeffs@,
                )[b] =~= plc[b] by {
                }
            }
            assert(bc_views(constants.batch_random_coeffs@) =~= pbc);
            assert(packed_dinv_views(constants.denominator_inverses@) =~= pdinv) by {
                assert forall|b: int| 0 <= b < sample_batches.len() implies packed_dinv_views(
                    constants.denominator_inverses@,
                )[b] =~= pdinv[b] by {
                    assert forall|k: int|
                        0 <= k < 16 * constants.denominator_inverses[b]@.len() implies
                        packed_dinv_views(constants.denominator_inverses@)[b][k] == pdinv[b][k] by {
                        vstd::arithmetic::div_mod::lemma_fundamental_div_mod(k, 16);
                        vstd::arithmetic::div_mod::lemma_mod_bound(k, 16);
                        assert(constants.denominator_inverses[b][k / 16].lanes[k % 16]@
                            == qinv_or_zero(
                            domain_vanish_spec(
                                sample_batches[b].point.x@,
                                sample_batches[b].point.y@,
                                *domain,
                                16 * (k / 16) + (k % 16),
                            ),
                        ));
                    }
                }
            }
        }
        let mut data: Vec<PackedQM31> = Vec::new();
        let mut quad_row: usize = 0;
        while quad_row < quad_rows
            invariant
                quad_row <= quad_rows,
                domain.wf(),
                6 <= n <= 30,
                n == domain.log_size_spec(),
                size == pow2(n as nat),
                quad_rows == pow2((n - 6) as nat),
                size == 64 * quad_rows,
                size == 16 * (4 * quad_rows),
                constants.line_coeffs.len() == sample_batches.len(),
                constants.batch_random_coeffs.len() == sample_batches.len(),
                constants.denominator_inverses.len() == sample_batches.len(),
                forall|b: int|
                    0 <= b < sample_batches.len() ==> (#[trigger] constants.line_coeffs[b]).len()
                        == sample_batches[b].columns_and_values.len(),
                forall|b: int|
                    0 <= b < sample_batches.len() ==> (
                    #[trigger] constants.denominator_inverses[b]).len() == 4 * quad_rows,
                forall|b: int, v: int|
                    0 <= b < sample_batches.len() && 0 <= v
                        < constants.denominator_inverses[b].len() ==> (
                    #[trigger] constants.denominator_inverses[b][v]).wf(),
                forall|c: int|
                    0 <= c < columns.len() ==> (#[trigger] columns[c]).data.len() == 4 * quad_rows,
                forall|c: int| 0 <= c < columns.len() ==> (#[trigger] columns[c]).wf(),
                forall|b: int, j: int|
                    0 <= b < sample_batches.len() && 0 <= j
                        < sample_batches[b].columns_and_values.len() ==> (
                    #[trigger] sample_batches[b].columns_and_values[j]).0 < columns.len(),
                lc_views_all(constants.line_coeffs@) == plc,
                bc_views(constants.batch_random_coeffs@) == pbc,
                packed_dinv_views(constants.denominator_inverses@) == pdinv,
                pcols == packed_cols_views(columns@),
                plc == lc_spec_all(sample_batches@, random_coeff@),
                pbc == bc_spec_all(sample_batches@, random_coeff@),
                pdinv == dinv_family(sample_batches@, *domain),
                data.len() == 4 * quad_row,
                forall|i: int| 0 <= i < data.len() ==> (#[trigger] data[i]).wf(),
                forall|k: int|
                    0 <= k < 16 * data.len() ==> (#[trigger] secure_col_at(data@, k))@
                        == row_accum_spec(
                        sample_batches@,
                        pcols,
                        plc,
                        pbc,
                        pdinv,
                        k,
                        signed_row_y(*domain, k),
                        sample_batches.len() as int,
                    ),
            decreases quad_rows - quad_row,
        {
            accumulate_quad(
                domain,
                columns,
                &constants,
                sample_batches,
                quad_row,
                quad_rows,
                &mut data,
                Ghost(pcols),
                Ghost(plc),
                Ghost(pbc),
                Ghost(pdinv),
            );
            quad_row = quad_row + 1;
        }
        proof {
            // The sign-patterned spaced y of each row is the true row y.
            assert forall|k: int| 0 <= k < 16 * data.len() implies signed_row_y(*domain, k)
                == crate::quotients::row_point_y(*domain, k) by {
                lemma_y_sign_pattern(*domain, k);
            }
        }
        SimdSecureEvaluation { domain: *domain, data }
    }
}

proof fn lemma_pow2_ge16(log_size: u32)
    requires
        4 <= log_size <= 30,
    ensures
        pow2(log_size as nat) % 16 == 0,
        pow2(log_size as nat) / 16 * 16 == pow2(log_size as nat),
{
    lemma_pow2_adds((log_size - 4) as nat, 4);
    assert(pow2(4) == 16) by {
        vstd::arithmetic::power2::lemma2_to64();
    }
    let q = pow2((log_size - 4) as nat) as int;
    vstd::arithmetic::div_mod::lemma_fundamental_div_mod_converse_div(q * 16, 16, q, 0);
    vstd::arithmetic::div_mod::lemma_fundamental_div_mod_converse_mod(q * 16, 16, q, 0);
}


/// Runs the row kernel for one quad and appends its four bundles, keeping
/// the flat Horner-fold content equation over the whole column so far.
#[verifier::rlimit(100)]
fn accumulate_quad(
    domain: &CircleDomain,
    columns: &Vec<SimdCircleEvaluation>,
    constants: &QuotientConstants,
    sample_batches: &Vec<ColumnSampleBatch>,
    quad_row: usize,
    quad_rows: usize,
    data: &mut Vec<PackedQM31>,
    Ghost(pcols): Ghost<Seq<Seq<M31>>>,
    Ghost(plc): Ghost<
        Seq<Seq<(((int, int), (int, int)), ((int, int), (int, int)), ((int, int), (int, int)))>>,
    >,
    Ghost(pbc): Ghost<Seq<((int, int), (int, int))>>,
    Ghost(pdinv): Ghost<Seq<Seq<((int, int), (int, int))>>>,
)
    requires
        domain.wf(),
        6 <= domain.log_size_spec() <= 30,
        quad_row < quad_rows,
        pow2(domain.log_size_spec() as nat) == 64 * quad_rows,
        constants.line_coeffs.len() == sample_batches.len(),
        constants.batch_random_coeffs.len() == sample_batches.len(),
        constants.denominator_inverses.len() == sample_batches.len(),
        forall|b: int|
            0 <= b < sample_batches.len() ==> (#[trigger] constants.line_coeffs[b]).len()
                == sample_batches[b].columns_and_values.len(),
        forall|b: int|
            0 <= b < sample_batches.len() ==> (
            #[trigger] constants.denominator_inverses[b]).len() == 4 * quad_rows,
        forall|b: int, v: int|
            0 <= b < sample_batches.len() && 0 <= v < constants.denominator_inverses[b].len()
                ==> (#[trigger] constants.denominator_inverses[b][v]).wf(),
        forall|c: int|
            0 <= c < columns.len() ==> (#[trigger] columns[c]).data.len() == 4 * quad_rows,
        forall|c: int| 0 <= c < columns.len() ==> (#[trigger] columns[c]).wf(),
        forall|b: int, j: int|
            0 <= b < sample_batches.len() && 0 <= j < sample_batches[b].columns_and_values.len()
                ==> (#[trigger] sample_batches[b].columns_and_values[j]).0 < columns.len(),
        lc_views_all(constants.line_coeffs@) == plc,
        bc_views(constants.batch_random_coeffs@) == pbc,
        packed_dinv_views(constants.denominator_inverses@) == pdinv,
        pcols == packed_cols_views(columns@),
        old(data).len() == 4 * quad_row,
        forall|i: int| 0 <= i < old(data).len() ==> (#[trigger] old(data)[i]).wf(),
        forall|k: int|
            0 <= k < 16 * old(data).len() ==> (#[trigger] secure_col_at(old(data)@, k))@
                == row_accum_spec(
                sample_batches@,
                pcols,
                plc,
                pbc,
                pdinv,
                k,
                signed_row_y(*domain, k),
                sample_batches.len() as int,
            ),
    ensures
        final(data).len() == old(data).len() + 4,
        forall|i: int| 0 <= i < final(data).len() ==> (#[trigger] final(data)[i]).wf(),
        forall|k: int|
            0 <= k < 16 * final(data).len() ==> (#[trigger] secure_col_at(final(data)@, k))@
                == row_accum_spec(
                sample_batches@,
                pcols,
                plc,
                pbc,
                pdinv,
                k,
                signed_row_y(*domain, k),
                sample_batches.len() as int,
            ),
{
    let n = domain.log_size();
    let ghost size = pow2(domain.log_size_spec() as nat);
    let ghost data0 = data@;

    // The y coordinates of 16 points at stride 4 across the 64 rows.
    let mut spaced: Vec<M31> = Vec::new();
    let mut j: usize = 0;
    while j < 16
        invariant
            j <= 16,
            domain.wf(),
            6 <= n <= 30,
            n == domain.log_size_spec(),
            
            quad_row < quad_rows,
            pow2(n as nat) == 64 * quad_rows,
            spaced.len() == j,
            forall|t: int|
                0 <= t < j ==> (#[trigger] spaced[t])@ == crate::circle::point_of_index(
                    domain.index_at_spec(
                        crate::utils::bit_rev(64 * (quad_row as int) + 4 * t, n as nat),
                    ),
                ).1,
        decreases 16 - j,
    {
        proof {
            crate::utils::lemma_pow2_le31(n as nat);
        }
        let idx = bit_reverse_index(64 * quad_row + 4 * j, n);
        spaced.push(domain.at(idx).y);
        j = j + 1;
    }
    let spaced_ys = PackedM31::from_vec(spaced);
    let row_accumulator = accumulate_row_quotients(
        sample_batches,
        columns,
        &constants,
        quad_row,
        &spaced_ys,
    );
    proof {
        // Each kernel lane, read at its flat row, folds against the
        // signed spaced representative, which is the signed row y of
        // that flat row.
        lemma_signed_y_bridge(*domain, quad_row as int, spaced_ys.lanes@);
    }
    let ghost orig = row_accumulator@;
    let mut i: usize = 0;
    let mut acc = row_accumulator;
    while i < 4
        invariant
            i <= 4,
            acc.len() + i == 4,
            acc@ =~= orig.skip(i as int),
            orig.len() == 4,
            forall|t: int| 0 <= t < orig.len() ==> (#[trigger] orig[t]).wf(),
            data.len() == 4 * quad_row + i,
            forall|t: int| 0 <= t < data.len() ==> (#[trigger] data[t]).wf(),
            forall|t: int|
                0 <= t < i ==> (#[trigger] data[4 * (quad_row as int) + t]) == orig[t],
            data0.len() == 4 * quad_row,
            forall|t: int| 0 <= t < data0.len() ==> (#[trigger] data@[t]) == data0[t],
        decreases 4 - i,
    {
        let v = acc.remove(0);
        proof {
            assert(orig.skip(i as int)[0] == orig[i as int]);
            assert(orig.skip(i as int).remove(0) =~= orig.skip(i as int + 1));
        }
        data.push(v);
        i = i + 1;
    }
    proof {
        assert forall|k: int| 0 <= k < 16 * (4 * (quad_row as int)) implies (
        #[trigger] secure_col_at(data@, k))@ == row_accum_spec(
            sample_batches@,
            pcols,
            plc,
            pbc,
            pdinv,
            k,
            signed_row_y(*domain, k),
            sample_batches.len() as int,
        ) by {
            vstd::arithmetic::div_mod::lemma_fundamental_div_mod(k, 16);
            vstd::arithmetic::div_mod::lemma_mod_bound(k, 16);
            assert(secure_col_at(data0, k) == data0[k / 16].lanes@[k % 16]);
            assert(data@[k / 16] == data0[k / 16]);
        }
        lemma_data_extend(
            data@,
            orig,
            4 * (quad_row as int),
            sample_batches@,
            pcols,
            plc,
            pbc,
            pdinv,
            *domain,
            quad_row as int,
            spaced_ys.lanes@,
        );
    }
}

/// The pair vanishing line of two excluded points, evaluated at sixteen
/// packed domain points at once.
pub fn packed_pair_vanishing(
    excluded0: &SecureCirclePoint,
    excluded1: &SecureCirclePoint,
    packed_x: &PackedM31,
    packed_y: &PackedM31,
) -> (r: PackedQM31)
    requires
        packed_x.wf(),
        packed_y.wf(),
    ensures
        r.wf(),
        forall|j: int|
            0 <= j < 16 ==> (#[trigger] r.lanes[j])@ == qadd(
                qadd(
                    qmul(qsub(excluded0.y@, excluded1.y@), q_from_f(packed_x.lanes[j]@)),
                    qmul(qsub(excluded1.x@, excluded0.x@), q_from_f(packed_y.lanes[j]@)),
                ),
                qsub(qmul(excluded0.x@, excluded1.y@), qmul(excluded0.y@, excluded1.x@)),
            ),
{
    let a = PackedQM31::broadcast(excluded0.y.sub(excluded1.y)).mul_base(packed_x);
    let b = PackedQM31::broadcast(excluded1.x.sub(excluded0.x)).mul_base(packed_y);
    let c = PackedQM31::broadcast(
        excluded0.x.mul(excluded1.y).sub(excluded0.y.mul(excluded1.x)),
    );
    a.add(&b).add(&c)
}

/// The packed denominator inverse columns: for every batch and packed row,
/// the lane-wise inverse of the pair vanishing of the batch point and its
/// conjugate, or zero in a lane where no inverse exists.
pub fn denominator_inverses(sample_batches: &Vec<ColumnSampleBatch>, domain: &CircleDomain) -> (r:
    Vec<Vec<PackedQM31>>)
    requires
        domain.wf(),
        4 <= domain.log_size_spec() <= 30,
    ensures
        r.len() == sample_batches.len(),
        forall|b: int|
            0 <= b < r.len() ==> 16 * (#[trigger] r[b]).len() == pow2(
                domain.log_size_spec() as nat,
            ),
        forall|b: int, v: int|
            0 <= b < r.len() && 0 <= v < r[b].len() ==> (#[trigger] r[b][v]).wf(),
        forall|b: int, v: int, j: int|
            0 <= b < r.len() && 0 <= v < r[b].len() && 0 <= j < 16 ==> (
            #[trigger] r[b][v].lanes[j])@ == qinv_or_zero(
                domain_vanish_spec(
                    sample_batches[b].point.x@,
                    sample_batches[b].point.y@,
                    *domain,
                    16 * v + j,
                ),
            ),
{
    let n = domain.log_size();
    let size = domain.size();
    let packed_rows = size / 16;
    proof {
        lemma_pow2_adds((n - 4) as nat, 4);
        assert(pow2(4) == 16) by {
            vstd::arithmetic::power2::lemma2_to64();
        }
    }
    let mut r: Vec<Vec<PackedQM31>> = Vec::new();
    let mut b: usize = 0;
    let nb = sample_batches.len();
    while b < nb
        invariant
            b <= nb,
            nb == sample_batches.len(),
            domain.wf(),
            4 <= n <= 30,
            n == domain.log_size_spec(),
            size == pow2(n as nat),
            size == 16 * packed_rows,
            r.len() == b,
            forall|t: int| 0 <= t < b ==> (#[trigger] r[t]).len() == packed_rows,
            forall|t: int, v: int|
                0 <= t < b && 0 <= v < r[t].len() ==> (#[trigger] r[t][v]).wf(),
            forall|t: int, v: int, j: int|
                0 <= t < b && 0 <= v < r[t].len() && 0 <= j < 16 ==> (
                #[trigger] r[t][v].lanes[j])@ == qinv_or_zero(
                    domain_vanish_spec(
                        sample_batches[t].point.x@,
                        sample_batches[t].point.y@,
                        *domain,
                        16 * v + j,
                    ),
                ),
        decreases nb - b,
    {
        let z = &sample_batches[b].point;
        let zbar = z.complex_conjugate();
        let mut col: Vec<PackedQM31> = Vec::new();
        let mut v: usize = 0;
        while v < packed_rows
            invariant
                v <= packed_rows,
                b < sample_batches.len(),
                z == &sample_batches[b as int].point,
                zbar.x@ == crate::qm31::qconj(z.x@),
                zbar.y@ == crate::qm31::qconj(z.y@),
                domain.wf(),
                4 <= n <= 30,
                n == domain.log_size_spec(),
                size == pow2(n as nat),
                size == 16 * packed_rows,
                col.len() == v,
                forall|t: int| 0 <= t < v ==> (#[trigger] col[t]).wf(),
                forall|t: int, j: int|
                    0 <= t < v && 0 <= j < 16 ==> (#[trigger] col[t].lanes[j])@ == qinv_or_zero(
                        domain_vanish_spec(
                            sample_batches[b as int].point.x@,
                            sample_batches[b as int].point.y@,
                            *domain,
                            16 * t + j,
                        ),
                    ),
            decreases packed_rows - v,
        {
            let mut xs: Vec<M31> = Vec::new();
            let mut ys: Vec<M31> = Vec::new();
            let mut j: usize = 0;
            while j < 16
                invariant
                    j <= 16,
                    v < packed_rows,
                    domain.wf(),
                    4 <= n <= 30,
                    n == domain.log_size_spec(),
                    size == pow2(n as nat),
                    size == 16 * packed_rows,
                    xs.len() == j,
                    ys.len() == j,
                    forall|t: int|
                        0 <= t < j ==> (#[trigger] xs[t])@ == crate::circle::point_of_index(
                            domain.index_at_spec(
                                crate::utils::bit_rev(16 * (v as int) + t, n as nat),
                            ),
                        ).0,
                    forall|t: int|
                        0 <= t < j ==> (#[trigger] ys[t])@ == crate::circle::point_of_index(
                            domain.index_at_spec(
                                crate::utils::bit_rev(16 * (v as int) + t, n as nat),
                            ),
                        ).1,
                decreases 16 - j,
            {
                let idx = bit_reverse_index(16 * v + j, n);
                let p = domain.at(idx);
                xs.push(p.x);
                ys.push(p.y);
                j = j + 1;
            }
            let px = PackedM31::from_vec(xs);
            let py = PackedM31::from_vec(ys);
            let vanish = packed_pair_vanishing(z, &zbar, &px, &py);
            let mut inv_lanes: Vec<QM31> = Vec::new();
            let mut j2: usize = 0;
            while j2 < 16
                invariant
                    j2 <= 16,
                    vanish.wf(),
                    inv_lanes.len() == j2,
                    forall|t: int|
                        0 <= t < j2 ==> (#[trigger] inv_lanes[t])@ == qinv_or_zero(
                            vanish.lanes[t]@,
                        ),
                decreases 16 - j2,
            {
                inv_lanes.push(vanish.lanes[j2].inverse());
                j2 = j2 + 1;
            }
            col.push(PackedQM31 { lanes: inv_lanes });
            v = v + 1;
        }
        r.push(col);
        b = b + 1;
    }
    r
}

/// Builds the packed per-proof constants.
pub fn quotient_constants(
    sample_batches: &Vec<ColumnSampleBatch>,
    random_coeff: QM31,
    domain: &CircleDomain,
) -> (r: QuotientConstants)
    requires
        domain.wf(),
        4 <= domain.log_size_spec() <= 30,
    ensures
        r.line_coeffs.len() == sample_batches.len(),
        r.batch_random_coeffs.len() == sample_batches.len(),
        r.denominator_inverses.len() == sample_batches.len(),
        forall|b: int|
            0 <= b < sample_batches.len() ==> (#[trigger] r.line_coeffs[b]).len()
                == sample_batches[b].columns_and_values.len(),
        forall|b: int, j: int|
            0 <= b < sample_batches.len() && 0 <= j < r.line_coeffs[b].len() ==> ((
            #[trigger] r.line_coeffs[b][j]).0@ == lc_a(
                sample_batches[b].point.y@,
                sample_batches[b].columns_and_values[j].1@,
                qpow(random_coeff@, (j + 1) as nat),
            ) && r.line_coeffs[b][j].1@ == lc_b(
                sample_batches[b].point.y@,
                sample_batches[b].columns_and_values[j].1@,
                qpow(random_coeff@, (j + 1) as nat),
            ) && r.line_coeffs[b][j].2@ == lc_c(
                sample_batches[b].point.y@,
                sample_batches[b].columns_and_values[j].1@,
                qpow(random_coeff@, (j + 1) as nat),
            )),
        forall|b: int|
            0 <= b < sample_batches.len() ==> (#[trigger] r.batch_random_coeffs[b])@ == qpow(
                random_coeff@,
                sample_batches[b].columns_and_values.len() as nat,
            ),
        forall|b: int|
            0 <= b < sample_batches.len() ==> 16 * (#[trigger] r.denominator_inverses[b]).len()
                == pow2(domain.log_size_spec() as nat),
        forall|b: int, v: int|
            0 <= b < sample_batches.len() && 0 <= v < r.denominator_inverses[b].len() ==> (
            #[trigger] r.denominator_inverses[b][v]).wf(),
        forall|b: int, v: int, j: int|
            0 <= b < sample_batches.len() && 0 <= v < r.denominator_inverses[b].len() && 0 <= j
                < 16 ==> (#[trigger] r.denominator_inverses[b][v].lanes[j])@ == qinv_or_zero(
                domain_vanish_spec(
                    sample_batches[b].point.x@,
                    sample_batches[b].point.y@,
                    *domain,
                    16 * v + j,
                ),
            ),
{
    let line_coeffs = column_line_coeffs(sample_batches, random_coeff);
    let batch_coeffs = batch_random_coeffs(sample_batches, random_coeff);
    let denom_inverses = denominator_inverses(sample_batches, domain);
    QuotientConstants {
        line_coeffs,
        batch_random_coeffs: batch_coeffs,
        denominator_inverses: denom_inverses,
    }
}

/// Accumulates the quotients of four packed rows (64 domain points) at once.
///
/// `spaced_ys` holds the `y` coordinates of 16 points at stride 4; since four
/// consecutive bit-reversed domain points have `y` signs `(+, -, -, +)`, two
/// levels of interleaving with the negation expand the `a*y` terms without
/// further multiplications. The contract pins every lane of the result to
/// the Horner fold of the batches at its flat row, against the spaced `y`
/// representative with exactly that sign pattern.
#[verifier::rlimit(100)]
pub fn accumulate_row_quotients(
    sample_batches: &Vec<ColumnSampleBatch>,
    columns: &Vec<SimdCircleEvaluation>,
    quotient_constants: &QuotientConstants,
    quad_row: usize,
    spaced_ys: &PackedM31,
) -> (r: Vec<PackedQM31>)
    requires
        spaced_ys.wf(),
        quotient_constants.line_coeffs.len() == sample_batches.len(),
        quotient_constants.batch_random_coeffs.len() == sample_batches.len(),
        quotient_constants.denominator_inverses.len() == sample_batches.len(),
        forall|b: int|
            0 <= b < sample_batches.len() ==> (#[trigger] quotient_constants.line_coeffs[b]).len()
                == sample_batches[b].columns_and_values.len(),
        forall|b: int|
            0 <= b < sample_batches.len() ==> 4 * quad_row + 4 <= (
            #[trigger] quotient_constants.denominator_inverses[b]).len(),
        forall|b: int, v: int|
            0 <= b < sample_batches.len() && 0 <= v
                < quotient_constants.denominator_inverses[b].len() ==> (
            #[trigger] quotient_constants.denominator_inverses[b][v]).wf(),
        forall|b: int, j: int|
            0 <= b < sample_batches.len() && 0 <= j < sample_batches[b].columns_and_values.len()
                ==> (#[trigger] sample_batches[b].columns_and_values[j]).0 < columns.len(),
        forall|c: int| 0 <= c < columns.len() ==> 4 * quad_row + 4 <= (
        #[trigger] columns[c]).data.len(),
        forall|c: int| 0 <= c < columns.len() ==> (#[trigger] columns[c]).wf(),
    ensures
        r.len() == 4,
        forall|i: int| 0 <= i < 4 ==> (#[trigger] r[i]).wf(),
        forall|i: int, j: int|
            0 <= i < 4 && 0 <= j < 16 ==> (#[trigger] r[i].lanes[j])@ == row_accum_spec(
                sample_batches@,
                packed_cols_views(columns@),
                lc_views_all(quotient_constants.line_coeffs@),
                bc_views(quotient_constants.batch_random_coeffs@),
                packed_dinv_views(quotient_constants.denominator_inverses@),
                16 * (4 * quad_row + i) + j,
                signed_y(spaced_ys.lanes@, i, j),
                sample_batches.len() as int,
            ),
{
    let ghost pcols = packed_cols_views(columns@);
    let ghost plc = lc_views_all(quotient_constants.line_coeffs@);
    let ghost pbc = bc_views(quotient_constants.batch_random_coeffs@);
    let ghost pdinv = packed_dinv_views(quotient_constants.denominator_inverses@);
    let mut row_accumulator: Vec<PackedQM31> = Vec::new();
    let mut z: usize = 0;
    while z < 4
        invariant
            z <= 4,
            row_accumulator.len() == z,
            forall|t: int| 0 <= t < z ==> (#[trigger] row_accumulator[t]).wf(),
            forall|t: int, j: int|
                0 <= t < z && 0 <= j < 16 ==> (#[trigger] row_accumulator[t].lanes[j])@
                    == qzero(),
        decreases 4 - z,
    {
        row_accumulator.push(PackedQM31::zero());
        z = z + 1;
    }
    let nb = sample_batches.len();
    let mut b: usize = 0;
    while b < nb
        invariant
            b <= nb,
            nb == sample_batches.len(),
            spaced_ys.wf(),
            pcols == packed_cols_views(columns@),
            plc == lc_views_all(quotient_constants.line_coeffs@),
            pbc == bc_views(quotient_constants.batch_random_coeffs@),
            pdinv == packed_dinv_views(quotient_constants.denominator_inverses@),
            quotient_constants.line_coeffs.len() == nb,
            quotient_constants.batch_random_coeffs.len() == nb,
            quotient_constants.denominator_inverses.len() == nb,
            forall|t: int|
                0 <= t < nb ==> (#[trigger] quotient_constants.line_coeffs[t]).len()
                    == sample_batches[t].columns_and_values.len(),
            forall|t: int|
                0 <= t < nb ==> 4 * quad_row + 4 <= (
                #[trigger] quotient_constants.denominator_inverses[t]).len(),
            forall|t: int, v: int|
                0 <= t < nb && 0 <= v < quotient_constants.denominator_inverses[t].len() ==> (
                #[trigger] quotient_constants.denominator_inverses[t][v]).wf(),
            forall|t: int, j: int|
                0 <= t < nb && 0 <= j < sample_batches[t].columns_and_values.len() ==> (
                #[trigger] sample_batches[t].columns_and_values[j]).0 < columns.len(),
            forall|c: int| 0 <= c < columns.len() ==> 4 * quad_row + 4 <= (
            #[trigger] columns[c]).data.len(),
            forall|c: int| 0 <= c < columns.len() ==> (#[trigger] columns[c]).wf(),
            row_accumulator.len() == 4,
            forall|t: int| 0 <= t < 4 ==> (#[trigger] row_accumulator[t]).wf(),
            forall|i: int, j: int|
                0 <= i < 4 && 0 <= j < 16 ==> (#[trigger] row_accumulator[i].lanes[j])@
                    == row_accum_spec(
                    sample_batches@,
                    pcols,
                    plc,
                    pbc,
                    pdinv,
                    16 * (4 * quad_row + i) + j,
                    signed_y(spaced_ys.lanes@, i, j),
                    b as int,
                ),
        decreases nb - b,
    {
        let batch = &sample_batches[b];
        let nc = batch.columns_and_values.len();
        let mut numerator: Vec<PackedQM31> = Vec::new();
        let mut z2: usize = 0;
        while z2 < 4
            invariant
                z2 <= 4,
                numerator.len() == z2,
                forall|t: int| 0 <= t < z2 ==> (#[trigger] numerator[t]).wf(),
                forall|t: int, j: int|
                    0 <= t < z2 && 0 <= j < 16 ==> (#[trigger] numerator[t].lanes[j])@
                        == qzero(),
            decreases 4 - z2,
        {
            numerator.push(PackedQM31::zero());
            z2 = z2 + 1;
        }
        let mut j: usize = 0;
        while j < nc
            invariant
                j <= nc,
                b < nb,
                nb == sample_batches.len(),
                spaced_ys.wf(),
                pcols == packed_cols_views(columns@),
                plc == lc_views_all(quotient_constants.line_coeffs@),
                batch == &sample_batches[b as int],
                nc == batch.columns_and_values.len(),
                quotient_constants.line_coeffs.len() == nb,
                (#[trigger] quotient_constants.line_coeffs[b as int]).len() == nc,
                forall|t: int, u: int|
                    0 <= t < nb && 0 <= u < sample_batches[t].columns_and_values.len() ==> (
                    #[trigger] sample_batches[t].columns_and_values[u]).0 < columns.len(),
                forall|c: int| 0 <= c < columns.len() ==> 4 * quad_row + 4 <= (
                #[trigger] columns[c]).data.len(),
                forall|c: int| 0 <= c < columns.len() ==> (#[trigger] columns[c]).wf(),
                numerator.len() == 4,
                forall|t: int| 0 <= t < 4 ==> (#[trigger] numerator[t]).wf(),
                forall|i: int, j2: int|
                    0 <= i < 4 && 0 <= j2 < 16 ==> (#[trigger] numerator[i].lanes[j2])@
                        == numer_spec(
                        sample_batches[b as int],
                        pcols,
                        plc[b as int],
                        16 * (4 * quad_row + i) + j2,
                        signed_y(spaced_ys.lanes@, i, j2),
                        j as int,
                    ),
            decreases nc - j,
        {
            let (column_index, _) = batch.columns_and_values[j];
            let (a, bb, c) = quotient_constants.line_coeffs[b][j];
            let column = &columns[column_index];
            let cb = PackedQM31::broadcast(c);
            // The numerator is the line equation c*value - a*y - b; the
            // coefficients already carry their power of the folding
            // coefficient, so addition alone accumulates across columns.
            let spaced_ay = PackedQM31::broadcast(a).mul_base(spaced_ys);
            let neg_say = spaced_ay.neg();
            let (t0, t1) = spaced_ay.interleave(&neg_say);
            let neg_t0 = t0.neg();
            let neg_t1 = t1.neg();
            let (t2, t3) = t0.interleave(&neg_t0);
            let (t4, t5) = t1.interleave(&neg_t1);
            proof {
                assert forall|i: int, j2: int| 0 <= i < 4 && 0 <= j2 < 16 implies #[trigger]
                ay_lane_value(t2, t3, t4, t5, i, j2)@ == (if j2 % 4 == 1 || j2 % 4 == 2 {
                    qneg(qmul(a@, q_from_f(spaced_ys.lanes@[4 * i + j2 / 4]@)))
                } else {
                    qmul(a@, q_from_f(spaced_ys.lanes@[4 * i + j2 / 4]@))
                }) by {
                    assert(forall|m: int|
                        0 <= m < 8 ==> (#[trigger] t0.lanes[2 * m]) == spaced_ay.lanes[m]
                            && t0.lanes[2 * m + 1] == neg_say.lanes[m]);
                    assert(forall|m: int|
                        0 <= m < 8 ==> (#[trigger] t1.lanes[2 * m]) == spaced_ay.lanes[8 + m]
                            && t1.lanes[2 * m + 1] == neg_say.lanes[8 + m]);
                    assert(forall|m: int|
                        0 <= m < 8 ==> (#[trigger] t2.lanes[2 * m]) == t0.lanes[m] && t2.lanes[2
                            * m + 1] == neg_t0.lanes[m]);
                    assert(forall|m: int|
                        0 <= m < 8 ==> (#[trigger] t3.lanes[2 * m]) == t0.lanes[8 + m]
                            && t3.lanes[2 * m + 1] == neg_t0.lanes[8 + m]);
                    assert(forall|m: int|
                        0 <= m < 8 ==> (#[trigger] t4.lanes[2 * m]) == t1.lanes[m] && t4.lanes[2
                            * m + 1] == neg_t1.lanes[m]);
                    assert(forall|m: int|
                        0 <= m < 8 ==> (#[trigger] t5.lanes[2 * m]) == t1.lanes[8 + m]
                            && t5.lanes[2 * m + 1] == neg_t1.lanes[8 + m]);
                    lemma_ay_lanes(
                        &spaced_ay,
                        &neg_say,
                        &t0,
                        &t1,
                        &neg_t0,
                        &neg_t1,
                        &t2,
                        &t3,
                        &t4,
                        &t5,
                        a,
                        spaced_ys,
                        i,
                        j2,
                    );
                }
            }
            let bbb = PackedQM31::broadcast(bb);
            let n0 = cb.mul_base(&column.data[4 * quad_row]).sub(&t2).sub(&bbb);
            let n1 = cb.mul_base(&column.data[4 * quad_row + 1]).sub(&t3).sub(&bbb);
            let n2 = cb.mul_base(&column.data[4 * quad_row + 2]).sub(&t4).sub(&bbb);
            let n3 = cb.mul_base(&column.data[4 * quad_row + 3]).sub(&t5).sub(&bbb);
            let new0 = numerator[0].add(&n0);
            numerator[0] = new0;
            let new1 = numerator[1].add(&n1);
            numerator[1] = new1;
            let new2 = numerator[2].add(&n2);
            numerator[2] = new2;
            let new3 = numerator[3].add(&n3);
            numerator[3] = new3;
            proof {
                assert forall|i: int, j2: int| 0 <= i < 4 && 0 <= j2 < 16 implies (
                #[trigger] numerator[i].lanes[j2])@ == numer_spec(
                    sample_batches[b as int],
                    pcols,
                    plc[b as int],
                    16 * (4 * quad_row + i) + j2,
                    signed_y(spaced_ys.lanes@, i, j2),
                    j + 1,
                ) by {
                    let flat = 16 * (4 * quad_row + i) + j2;
                    let ci = sample_batches[b as int].columns_and_values[j as int].0 as int;
                    vstd::arithmetic::div_mod::lemma_fundamental_div_mod_converse_div(
                        flat,
                        16,
                        4 * quad_row + i,
                        j2,
                    );
                    vstd::arithmetic::div_mod::lemma_fundamental_div_mod_converse_mod(
                        flat,
                        16,
                        4 * quad_row + i,
                        j2,
                    );
                    assert(pcols[ci][flat] == columns[ci].data[4 * quad_row + i].lanes@[j2]);
                    assert(pcols[ci].len() == 16 * columns[ci].data.len());
                    assert(ay_lane_value(t2, t3, t4, t5, i, j2)@ == (if j2 % 4 == 1 || j2 % 4
                        == 2 {
                        qneg(qmul(a@, q_from_f(spaced_ys.lanes@[4 * i + j2 / 4]@)))
                    } else {
                        qmul(a@, q_from_f(spaced_ys.lanes@[4 * i + j2 / 4]@))
                    }));
                    if j2 % 4 == 1 || j2 % 4 == 2 {
                        crate::qm31::lemma_qf_fneg(spaced_ys.lanes@[4 * i + j2 / 4]@);
                        crate::qm31::lemma_qmul_qneg_right(
                            a@,
                            q_from_f(spaced_ys.lanes@[4 * i + j2 / 4]@),
                        );
                    }
                    assert(plc[b as int][j as int] == (a@, bb@, c@));
                }
            }
            j = j + 1;
        }
        let batch_coeff = PackedQM31::broadcast(quotient_constants.batch_random_coeffs[b]);
        let dinv = &quotient_constants.denominator_inverses[b];
        let r0 = row_accumulator[0].mul(&batch_coeff).add(&numerator[0].mul(&dinv[4 * quad_row]));
        row_accumulator[0] = r0;
        let r1 = row_accumulator[1].mul(&batch_coeff).add(
            &numerator[1].mul(&dinv[4 * quad_row + 1]),
        );
        row_accumulator[1] = r1;
        let r2 = row_accumulator[2].mul(&batch_coeff).add(
            &numerator[2].mul(&dinv[4 * quad_row + 2]),
        );
        row_accumulator[2] = r2;
        let r3 = row_accumulator[3].mul(&batch_coeff).add(
            &numerator[3].mul(&dinv[4 * quad_row + 3]),
        );
        row_accumulator[3] = r3;
        proof {
            assert forall|i: int, j2: int| 0 <= i < 4 && 0 <= j2 < 16 implies (
            #[trigger] row_accumulator[i].lanes[j2])@ == row_accum_spec(
                sample_batches@,
                pcols,
                plc,
                pbc,
                pdinv,
                16 * (4 * quad_row + i) + j2,
                signed_y(spaced_ys.lanes@, i, j2),
                b + 1,
            ) by {
                let flat = 16 * (4 * quad_row + i) + j2;
                vstd::arithmetic::div_mod::lemma_fundamental_div_mod_converse_div(
                    flat,
                    16,
                    4 * quad_row + i,
                    j2,
                );
                vstd::arithmetic::div_mod::lemma_fundamental_div_mod_converse_mod(
                    flat,
                    16,
                    4 * quad_row + i,
                    j2,
                );
                assert(pdinv[b as int][flat] == quotient_constants.denominator_inverses[
                    b as int][4 * quad_row + i].lanes@[j2]@);
                assert(pbc[b as int] == quotient_constants.batch_random_coeffs[b as int]@);
            }
        }
        b = b + 1;
    }
    row_accumulator
}

/// One lane of the two-level interleave expansion: lane `j` of the bundle
/// for sub-row `i` is the spaced product at index `4*i + j/4`, negated on
/// the middle two of each four lanes.
proof fn lemma_ay_lanes(
    say: &PackedQM31,
    nsay: &PackedQM31,
    t0: &PackedQM31,
    t1: &PackedQM31,
    neg_t0: &PackedQM31,
    neg_t1: &PackedQM31,
    t2: &PackedQM31,
    t3: &PackedQM31,
    t4: &PackedQM31,
    t5: &PackedQM31,
    a: QM31,
    spaced: &PackedM31,
    i: int,
    j2: int,
)
    requires
        say.wf(),
        nsay.wf(),
        t0.wf(),
        t1.wf(),
        neg_t0.wf(),
        neg_t1.wf(),
        t2.wf(),
        t3.wf(),
        t4.wf(),
        t5.wf(),
        spaced.wf(),
        forall|m: int|
            0 <= m < 16 ==> (#[trigger] say.lanes[m])@ == qmul(a@, q_from_f(spaced.lanes[m]@)),
        forall|m: int| 0 <= m < 16 ==> (#[trigger] nsay.lanes[m])@ == qneg(say.lanes[m]@),
        forall|m: int| 0 <= m < 16 ==> (#[trigger] neg_t0.lanes[m])@ == qneg(t0.lanes[m]@),
        forall|m: int| 0 <= m < 16 ==> (#[trigger] neg_t1.lanes[m])@ == qneg(t1.lanes[m]@),
        forall|m: int|
            0 <= m < 8 ==> (#[trigger] t0.lanes[2 * m]) == say.lanes[m] && t0.lanes[2 * m + 1]
                == nsay.lanes[m],
        forall|m: int|
            0 <= m < 8 ==> (#[trigger] t1.lanes[2 * m]) == say.lanes[8 + m] && t1.lanes[2 * m + 1]
                == nsay.lanes[8 + m],
        forall|m: int|
            0 <= m < 8 ==> (#[trigger] t2.lanes[2 * m]) == t0.lanes[m] && t2.lanes[2 * m + 1]
                == neg_t0.lanes[m],
        forall|m: int|
            0 <= m < 8 ==> (#[trigger] t3.lanes[2 * m]) == t0.lanes[8 + m] && t3.lanes[2 * m + 1]
                == neg_t0.lanes[8 + m],
        forall|m: int|
            0 <= m < 8 ==> (#[trigger] t4.lanes[2 * m]) == t1.lanes[m] && t4.lanes[2 * m + 1]
                == neg_t1.lanes[m],
        forall|m: int|
            0 <= m < 8 ==> (#[trigger] t5.lanes[2 * m]) == t1.lanes[8 + m] && t5.lanes[2 * m + 1]
                == neg_t1.lanes[8 + m],
        0 <= i < 4,
        0 <= j2 < 16,
    ensures
        ay_lane_value(*t2, *t3, *t4, *t5, i, j2)@ == (if j2 % 4 == 1 || j2 % 4 == 2 {
            qneg(qmul(a@, q_from_f(spaced.lanes@[4 * i + j2 / 4]@)))
        } else {
            qmul(a@, q_from_f(spaced.lanes@[4 * i + j2 / 4]@))
        }),
{
    let u = j2 / 4;
    let rr = j2 % 4;
    vstd::arithmetic::div_mod::lemma_fundamental_div_mod(j2, 4);
    vstd::arithmetic::div_mod::lemma_mod_bound(j2, 4);
    // The inner index of the first interleave level: the spaced slot.
    let m = 4 * i + u;
    crate::qm31::lemma_qmul_range(a@, q_from_f(spaced.lanes[m]@));
    // Fire the interleave lane facts for every index this proof touches.
    assert(t2.lanes[2 * (2 * u)] == t0.lanes[2 * u]);
    assert(t2.lanes[2 * (2 * u + 1)] == t0.lanes[2 * u + 1]);
    assert(t3.lanes[2 * (2 * u)] == t0.lanes[8 + 2 * u]);
    assert(t3.lanes[2 * (2 * u + 1)] == t0.lanes[8 + 2 * u + 1]);
    assert(t4.lanes[2 * (2 * u)] == t1.lanes[2 * u]);
    assert(t4.lanes[2 * (2 * u + 1)] == t1.lanes[2 * u + 1]);
    assert(t5.lanes[2 * (2 * u)] == t1.lanes[8 + 2 * u]);
    assert(t5.lanes[2 * (2 * u + 1)] == t1.lanes[8 + 2 * u + 1]);
    assert(t0.lanes[2 * u] == say.lanes[u]);
    assert(t0.lanes[2 * (4 + u)] == say.lanes[4 + u]);
    assert(t1.lanes[2 * u] == say.lanes[8 + u]);
    assert(t1.lanes[2 * (4 + u)] == say.lanes[12 + u]);
    if i == 0 {
        if rr == 0 {
            assert(t2.lanes[2 * (2 * u)] == t0.lanes[2 * u]);
            assert(t0.lanes[2 * (u)] == say.lanes[u]);
        } else if rr == 1 {
            assert(t2.lanes[2 * (2 * u) + 1] == neg_t0.lanes[2 * u]);
            assert(t0.lanes[2 * (u)] == say.lanes[u]);
        } else if rr == 2 {
            assert(t2.lanes[2 * (2 * u + 1)] == t0.lanes[2 * u + 1]);
            assert(t0.lanes[2 * (u) + 1] == nsay.lanes[u]);
        } else {
            assert(t2.lanes[2 * (2 * u + 1) + 1] == neg_t0.lanes[2 * u + 1]);
            assert(t0.lanes[2 * (u) + 1] == nsay.lanes[u]);
            crate::qm31::lemma_qneg_qneg(say.lanes[u as int]@);
        }
    } else if i == 1 {
        if rr == 0 {
            assert(t3.lanes[2 * (2 * u)] == t0.lanes[8 + 2 * u]);
            assert(t0.lanes[2 * (4 + u)] == say.lanes[4 + u]);
        } else if rr == 1 {
            assert(t3.lanes[2 * (2 * u) + 1] == neg_t0.lanes[8 + 2 * u]);
            assert(t0.lanes[2 * (4 + u)] == say.lanes[4 + u]);
        } else if rr == 2 {
            assert(t3.lanes[2 * (2 * u + 1)] == t0.lanes[8 + 2 * u + 1]);
            assert(t0.lanes[2 * (4 + u) + 1] == nsay.lanes[4 + u]);
        } else {
            assert(t3.lanes[2 * (2 * u + 1) + 1] == neg_t0.lanes[8 + 2 * u + 1]);
            assert(t0.lanes[2 * (4 + u) + 1] == nsay.lanes[4 + u]);
            crate::qm31::lemma_qneg_qneg(say.lanes[4 + u]@);
        }
    } else if i == 2 {
        if rr == 0 {
            assert(t4.lanes[2 * (2 * u)] == t1.lanes[2 * u]);
            assert(t1.lanes[2 * (u)] == say.lanes[8 + u]);
        } else if rr == 1 {
            assert(t4.lanes[2 * (2 * u) + 1] == neg_t1.lanes[2 * u]);
            assert(t1.lanes[2 * (u)] == say.lanes[8 + u]);
        } else if rr == 2 {
            assert(t4.lanes[2 * (2 * u + 1)] == t1.lanes[2 * u + 1]);
            assert(t1.lanes[2 * (u) + 1] == nsay.lanes[8 + u]);
        } else {
            assert(t4.lanes[2 * (2 * u + 1) + 1] == neg_t1.lanes[2 * u + 1]);
            assert(t1.lanes[2 * (u) + 1] == nsay.lanes[8 + u]);
            crate::qm31::lemma_qneg_qneg(say.lanes[8 + u]@);
        }
    } else {
        if rr == 0 {
            assert(t5.lanes[2 * (2 * u)] == t1.lanes[8 + 2 * u]);
            assert(t1.lanes[2 * (4 + u)] == say.lanes[12 + u]);
        } else if rr == 1 {
            assert(t5.lanes[2 * (2 * u) + 1] == neg_t1.lanes[8 + 2 * u]);
            assert(t1.lanes[2 * (4 + u)] == say.lanes[12 + u]);
        } else if rr == 2 {
            assert(t5.lanes[2 * (2 * u + 1)] == t1.lanes[8 + 2 * u + 1]);
            assert(t1.lanes[2 * (4 + u) + 1] == nsay.lanes[12 + u]);
        } else {
            assert(t5.lanes[2 * (2 * u + 1) + 1] == neg_t1.lanes[8 + 2 * u + 1]);
            assert(t1.lanes[2 * (4 + u) + 1] == nsay.lanes[12 + u]);
            crate::qm31::lemma_qneg_qneg(say.lanes[12 + u]@);
        }
    }
}

/// The expanded `a*y` bundle used for sub-row `i`.
pub open spec fn ay_lane_value(
    t2: PackedQM31,
    t3: PackedQM31,
    t4: PackedQM31,
    t5: PackedQM31,
    i: int,
    j: int,
) -> QM31 {
    if i == 0 {
        t2.lanes[j]
    } else if i == 1 {
        t3.lanes[j]
    } else if i == 2 {
        t4.lanes[j]
    } else {
        t5.lanes[j]
    }
}

} // verus!
