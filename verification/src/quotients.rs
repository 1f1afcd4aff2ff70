//! DEEP quotient accumulation, scalar reference backend.
//!
//! Given trace columns over a blown-up circle domain in bit-reversed order
//! and a set of out-of-domain sample batches, the accumulator returns the
//! random linear combination of the column-line quotient polynomials,
//! Horner-folded across batches.

use vstd::prelude::*;
use crate::m31::M31;
use crate::qm31::{QM31, qadd, qsub, qmul, qconj, qpow, qzero, q_from_f, qinv_or_zero};
use crate::circle::{CircleDomain, CirclePoint, SecureCirclePoint, point_of_index};
use crate::poly::CircleEvaluation;
use crate::utils::{bit_rev, bit_reverse_index};
use vstd::arithmetic::power2::pow2;

verus! {

/// The domain expansion exponent of the commitment rate: the evaluation
/// domain is this many doublings larger than the trace domain.
pub const LOG_BLOWUP_FACTOR: u32 = 1;

/// A sample point with the claimed values of a subset of columns at it.
pub struct ColumnSampleBatch {
    pub point: SecureCirclePoint,
    pub columns_and_values: Vec<(usize, QM31)>,
}

/// A secure-field column over a circle domain, in bit-reversed order.
#[derive(PartialEq, Eq, Debug)]
pub struct SecureEvaluation {
    pub domain: CircleDomain,
    pub values: Vec<QM31>,
}

/// Per-proof read-only data: one line-coefficient triple per sampled column,
/// one folding coefficient per batch, and per batch the inverses of the pair
/// vanishing denominators over the whole domain.
pub struct QuotientConstants {
    pub line_coeffs: Vec<Vec<(QM31, QM31, QM31)>>,
    pub batch_random_coeffs: Vec<QM31>,
    pub denominator_inverses: Vec<Vec<QM31>>,
}

/// The `a` coefficient of the line through a sample and its conjugate,
/// scaled by a power of the folding coefficient.
pub open spec fn lc_a(zy: ((int, int), (int, int)), v: ((int, int), (int, int)), ap: (
    (int, int),
    (int, int),
)) -> ((int, int), (int, int)) {
    qmul(ap, qsub(qconj(v), v))
}

/// The `c` coefficient: the conjugate difference of the sample point `y`.
pub open spec fn lc_c(zy: ((int, int), (int, int)), v: ((int, int), (int, int)), ap: (
    (int, int),
    (int, int),
)) -> ((int, int), (int, int)) {
    qmul(ap, qsub(qconj(zy), zy))
}

/// The `b` coefficient, fixed so that `c*v - a*zy - b` vanishes at the
/// sample.
pub open spec fn lc_b(zy: ((int, int), (int, int)), v: ((int, int), (int, int)), ap: (
    (int, int),
    (int, int),
)) -> ((int, int), (int, int)) {
    qmul(ap, qsub(qmul(v, qsub(qconj(zy), zy)), qmul(qsub(qconj(v), v), zy)))
}

/// The pair vanishing line through `z` and its conjugate, evaluated at the
/// base-field point `(px, py)`.
pub open spec fn vanish_conj_spec(
    zx: ((int, int), (int, int)),
    zy: ((int, int), (int, int)),
    px: int,
    py: int,
) -> ((int, int), (int, int)) {
    qadd(
        qadd(qmul(qsub(zy, qconj(zy)), q_from_f(px)), qmul(qsub(qconj(zx), zx), q_from_f(py))),
        qsub(qmul(zx, qconj(zy)), qmul(zy, qconj(zx))),
    )
}

/// The pair vanishing denominator of a batch at the domain point stored at
/// bit-reversed row `row`.
pub open spec fn domain_vanish_spec(zx: ((int, int), (int, int)), zy: ((int, int), (int, int)),
    domain: CircleDomain, row: int) -> ((int, int), (int, int)) {
    vanish_conj_spec(
        zx,
        zy,
        point_of_index(domain.index_at_spec(bit_rev(row, domain.log_size_spec() as nat))).0,
        point_of_index(domain.index_at_spec(bit_rev(row, domain.log_size_spec() as nat))).1,
    )
}

/// The numerator of one batch at one row, summed over its first `j` sampled
/// columns: `c*column - a*y - b` per column, coefficients taken as given.
pub open spec fn numer_spec(
    batch: ColumnSampleBatch,
    cols: Seq<Seq<M31>>,
    lc: Seq<(((int, int), (int, int)), ((int, int), (int, int)), ((int, int), (int, int)))>,
    row: int,
    py: int,
    j: int,
) -> ((int, int), (int, int))
    decreases j,
{
    if j <= 0 {
        qzero()
    } else {
        qadd(
            numer_spec(batch, cols, lc, row, py, j - 1),
            qsub(
                qsub(
                    qmul(lc[j - 1].2, q_from_f(cols[batch.columns_and_values[j - 1].0 as int][row]@)),
                    qmul(lc[j - 1].0, q_from_f(py)),
                ),
                lc[j - 1].1,
            ),
        )
    }
}

/// The Horner fold of the first `b` batches at one row: multiply by the
/// batch coefficient, add the batch numerator times the denominator inverse.
pub open spec fn row_accum_spec(
    batches: Seq<ColumnSampleBatch>,
    cols: Seq<Seq<M31>>,
    lc: Seq<Seq<(((int, int), (int, int)), ((int, int), (int, int)), ((int, int), (int, int)))>>,
    bc: Seq<((int, int), (int, int))>,
    dinv: Seq<Seq<((int, int), (int, int))>>,
    row: int,
    py: int,
    b: int,
) -> ((int, int), (int, int))
    decreases b,
{
    if b <= 0 {
        qzero()
    } else {
        qadd(
            qmul(row_accum_spec(batches, cols, lc, bc, dinv, row, py, b - 1), bc[b - 1]),
            qmul(
                numer_spec(
                    batches[b - 1],
                    cols,
                    lc[b - 1],
                    row,
                    py,
                    batches[b - 1].columns_and_values.len() as int,
                ),
                dinv[b - 1][row],
            ),
        )
    }
}

/// The views of the line-coefficient triples of one batch.
pub open spec fn lc_views(lc: Seq<(QM31, QM31, QM31)>) -> Seq<
    (((int, int), (int, int)), ((int, int), (int, int)), ((int, int), (int, int))),
> {
    Seq::new(lc.len(), |j: int| (lc[j].0@, lc[j].1@, lc[j].2@))
}

/// The views of the line-coefficient triples of every batch.
pub open spec fn lc_views_all(lc: Seq<Vec<(QM31, QM31, QM31)>>) -> Seq<
    Seq<(((int, int), (int, int)), ((int, int), (int, int)), ((int, int), (int, int)))>,
> {
    Seq::new(lc.len(), |b: int| lc_views(lc[b]@))
}

/// The views of the per-batch folding coefficients.
pub open spec fn bc_views(bc: Seq<QM31>) -> Seq<((int, int), (int, int))> {
    Seq::new(bc.len(), |b: int| bc[b]@)
}

/// The column views of a set of evaluations.
pub open spec fn cols_views(cs: Seq<CircleEvaluation>) -> Seq<Seq<M31>> {
    Seq::new(cs.len(), |i: int| cs[i].values@)
}

/// The unique line through a sample value and its complex conjugate at the
/// conjugate sample point, scaled by a power of the folding coefficient.
pub fn complex_conjugate_line_coeffs(point: &SecureCirclePoint, value: QM31, alpha: QM31) -> (r: (
    QM31,
    QM31,
    QM31,
))
    ensures
        r.0@ == lc_a(point.y@, value@, alpha@),
        r.1@ == lc_b(point.y@, value@, alpha@),
        r.2@ == lc_c(point.y@, value@, alpha@),
{
    let a = value.complex_conjugate().sub(value);
    let c = point.y.complex_conjugate().sub(point.y);
    let b = value.mul(c).sub(a.mul(point.y));
    (alpha.mul(a), alpha.mul(b), alpha.mul(c))
}

/// The line coefficients of every sampled column of every batch; within a
/// batch, column `j` carries the `(j+1)`-th power of the folding coefficient.
pub fn column_line_coeffs(sample_batches: &Vec<ColumnSampleBatch>, random_coeff: QM31) -> (r: Vec<
    Vec<(QM31, QM31, QM31)>,
>)
    ensures
        r.len() == sample_batches.len(),
        forall|b: int|
            0 <= b < r.len() ==> (#[trigger] r[b]).len()
                == sample_batches[b].columns_and_values.len(),
        forall|b: int, j: int|
            0 <= b < r.len() && 0 <= j < r[b].len() ==> ((#[trigger] r[b][j]).0@ == lc_a(
                sample_batches[b].point.y@,
                sample_batches[b].columns_and_values[j].1@,
                qpow(random_coeff@, (j + 1) as nat),
            ) && r[b][j].1@ == lc_b(
                sample_batches[b].point.y@,
                sample_batches[b].columns_and_values[j].1@,
                qpow(random_coeff@, (j + 1) as nat),
            ) && r[b][j].2@ == lc_c(
                sample_batches[b].point.y@,
                sample_batches[b].columns_and_values[j].1@,
                qpow(random_coeff@, (j + 1) as nat),
            )),
{
    let mut r: Vec<Vec<(QM31, QM31, QM31)>> = Vec::new();
    let mut b: usize = 0;
    let nb = sample_batches.len();
    while b < nb
        invariant
            b <= nb,
            nb == sample_batches.len(),
            r.len() == b,
            forall|t: int|
                0 <= t < b ==> (#[trigger] r[t]).len()
                    == sample_batches[t].columns_and_values.len(),
            forall|t: int, j: int|
                0 <= t < b && 0 <= j < r[t].len() ==> ((#[trigger] r[t][j]).0@ == lc_a(
                    sample_batches[t].point.y@,
                    sample_batches[t].columns_and_values[j].1@,
                    qpow(random_coeff@, (j + 1) as nat),
                ) && r[t][j].1@ == lc_b(
                    sample_batches[t].point.y@,
                    sample_batches[t].columns_and_values[j].1@,
                    qpow(random_coeff@, (j + 1) as nat),
                ) && r[t][j].2@ == lc_c(
                    sample_batches[t].point.y@,
                    sample_batches[t].columns_and_values[j].1@,
                    qpow(random_coeff@, (j + 1) as nat),
                )),
        decreases nb - b,
    {
        let batch = &sample_batches[b];
        let mut alpha = QM31::one();
        let mut coeffs: Vec<(QM31, QM31, QM31)> = Vec::new();
        let mut j: usize = 0;
        let nc = batch.columns_and_values.len();
        while j < nc
            invariant
                j <= nc,
                b < sample_batches.len(),
                batch == &sample_batches[b as int],
                nc == batch.columns_and_values.len(),
                alpha@ == qpow(random_coeff@, j as nat),
                coeffs.len() == j,
                forall|t: int|
                    0 <= t < j ==> ((#[trigger] coeffs[t]).0@ == lc_a(
                        sample_batches[b as int].point.y@,
                        sample_batches[b as int].columns_and_values[t].1@,
                        qpow(random_coeff@, (t + 1) as nat),
                    ) && coeffs[t].1@ == lc_b(
                        sample_batches[b as int].point.y@,
                        sample_batches[b as int].columns_and_values[t].1@,
                        qpow(random_coeff@, (t + 1) as nat),
                    ) && coeffs[t].2@ == lc_c(
                        sample_batches[b as int].point.y@,
                        sample_batches[b as int].columns_and_values[t].1@,
                        qpow(random_coeff@, (t + 1) as nat),
                    )),
            decreases nc - j,
        {
            alpha = alpha.mul(random_coeff);
            let value = batch.columns_and_values[j].1;
            coeffs.push(complex_conjugate_line_coeffs(&batch.point, value, alpha));
            j = j + 1;
        }
        r.push(coeffs);
        b = b + 1;
    }
    r
}

/// The multiplicative separator of each batch: the folding coefficient
/// raised to the number of sampled columns of the batch.
pub fn batch_random_coeffs(sample_batches: &Vec<ColumnSampleBatch>, random_coeff: QM31) -> (r: Vec<
    QM31,
>)
    ensures
        r.len() == sample_batches.len(),
        forall|b: int|
            0 <= b < r.len() ==> (#[trigger] r[b])@ == qpow(
                random_coeff@,
                sample_batches[b].columns_and_values.len() as nat,
            ),
{
    let mut r: Vec<QM31> = Vec::new();
    let mut b: usize = 0;
    let nb = sample_batches.len();
    while b < nb
        invariant
            b <= nb,
            nb == sample_batches.len(),
            r.len() == b,
            forall|t: int|
                0 <= t < b ==> (#[trigger] r[t])@ == qpow(
                    random_coeff@,
                    sample_batches[t].columns_and_values.len() as nat,
                ),
        decreases nb - b,
    {
        r.push(random_coeff.pow(sample_batches[b].columns_and_values.len() as u64));
        b = b + 1;
    }
    r
}

/// The unique line in `(x, y)` vanishing at two given points, evaluated at a
/// base-field point.
pub fn pair_vanishing(excluded0: &SecureCirclePoint, excluded1: &SecureCirclePoint, p: &CirclePoint)
    -> (r: QM31)
    ensures
        r@ == qadd(
            qadd(
                qmul(qsub(excluded0.y@, excluded1.y@), q_from_f(p.x@)),
                qmul(qsub(excluded1.x@, excluded0.x@), q_from_f(p.y@)),
            ),
            qsub(qmul(excluded0.x@, excluded1.y@), qmul(excluded0.y@, excluded1.x@)),
        ),
{
    let px = QM31::from_base(p.x);
    let py = QM31::from_base(p.y);
    excluded0.y.sub(excluded1.y).mul(px).add(excluded1.x.sub(excluded0.x).mul(py)).add(
        excluded0.x.mul(excluded1.y).sub(excluded0.y.mul(excluded1.x)),
    )
}

/// The per-batch columns of denominator inverses: for every batch and every
/// bit-reversed row, the inverse of the pair vanishing of the batch point and
/// its conjugate at the row's domain point, or zero where no inverse exists.
pub fn denominator_inverses(sample_batches: &Vec<ColumnSampleBatch>, domain: &CircleDomain) -> (r:
    Vec<Vec<QM31>>)
    requires
        domain.wf(),
        1 <= domain.log_size_spec() <= 30,
    ensures
        r.len() == sample_batches.len(),
        forall|b: int|
            0 <= b < r.len() ==> (#[trigger] r[b]).len() == pow2(domain.log_size_spec() as nat),
        forall|b: int, row: int|
            0 <= b < r.len() && 0 <= row < r[b].len() ==> (#[trigger] r[b][row])@ == qinv_or_zero(
                domain_vanish_spec(
                    sample_batches[b].point.x@,
                    sample_batches[b].point.y@,
                    *domain,
                    row,
                ),
            ),
{
    let n = domain.log_size();
    let size = domain.size();
    let mut r: Vec<Vec<QM31>> = Vec::new();
    let mut b: usize = 0;
    let nb = sample_batches.len();
    while b < nb
        invariant
            b <= nb,
            nb == sample_batches.len(),
            domain.wf(),
            1 <= n <= 30,
            n == domain.log_size_spec(),
            size == pow2(n as nat),
            r.len() == b,
            forall|t: int| 0 <= t < b ==> (#[trigger] r[t]).len() == size,
            forall|t: int, row: int|
                0 <= t < b && 0 <= row < r[t].len() ==> (#[trigger] r[t][row])@ == qinv_or_zero(
                    domain_vanish_spec(
                        sample_batches[t].point.x@,
                        sample_batches[t].point.y@,
                        *domain,
                        row,
                    ),
                ),
        decreases nb - b,
    {
        let z = &sample_batches[b].point;
        let zbar = z.complex_conjugate();
        let mut col: Vec<QM31> = Vec::new();
        let mut row: usize = 0;
        while row < size
            invariant
                row <= size,
                b < sample_batches.len(),
                z == &sample_batches[b as int].point,
                zbar.x@ == qconj(z.x@),
                zbar.y@ == qconj(z.y@),
                domain.wf(),
                1 <= n <= 30,
                n == domain.log_size_spec(),
                size == pow2(n as nat),
                col.len() == row,
                forall|t: int|
                    0 <= t < row ==> (#[trigger] col[t])@ == qinv_or_zero(
                        domain_vanish_spec(
                            sample_batches[b as int].point.x@,
                            sample_batches[b as int].point.y@,
                            *domain,
                            t,
                        ),
                    ),
            decreases size - row,
        {
            let idx = bit_reverse_index(row, n);
            let p = domain.at(idx);
            let v = pair_vanishing(z, &zbar, &p);
            col.push(v.inverse());
            row = row + 1;
        }
        r.push(col);
        b = b + 1;
    }
    r
}

/// The line-coefficient views that `quotient_constants` produces, written
/// directly over the batches.
pub open spec fn lc_spec_all(batches: Seq<ColumnSampleBatch>, alpha: ((int, int), (int, int)))
    -> Seq<Seq<(((int, int), (int, int)), ((int, int), (int, int)), ((int, int), (int, int)))>> {
    Seq::new(
        batches.len(),
        |b: int|
            Seq::new(
                batches[b].columns_and_values.len() as nat,
                |j: int|
                    (
                        lc_a(
                            batches[b].point.y@,
                            batches[b].columns_and_values[j].1@,
                            qpow(alpha, (j + 1) as nat),
                        ),
                        lc_b(
                            batches[b].point.y@,
                            batches[b].columns_and_values[j].1@,
                            qpow(alpha, (j + 1) as nat),
                        ),
                        lc_c(
                            batches[b].point.y@,
                            batches[b].columns_and_values[j].1@,
                            qpow(alpha, (j + 1) as nat),
                        ),
                    ),
            ),
    )
}

/// The batch folding coefficients, written directly over the batches.
pub open spec fn bc_spec_all(batches: Seq<ColumnSampleBatch>, alpha: ((int, int), (int, int)))
    -> Seq<((int, int), (int, int))> {
    Seq::new(batches.len(), |b: int| qpow(alpha, batches[b].columns_and_values.len() as nat))
}

/// The `y`-coordinate of the domain point stored at bit-reversed row `row`.
pub open spec fn row_point_y(domain: CircleDomain, row: int) -> int {
    point_of_index(domain.index_at_spec(bit_rev(row, domain.log_size_spec() as nat))).1
}

/// The views of the per-batch denominator inverse columns.
pub open spec fn dinv_views(s: Seq<Vec<QM31>>) -> Seq<Seq<((int, int), (int, int))>> {
    Seq::new(s.len(), |b: int| Seq::new(s[b]@.len(), |row: int| s[b]@[row]@))
}

/// The denominator-inverse family the accumulator uses: for every batch and
/// bit-reversed row, `qinv_or_zero` of the pair vanishing denominator.
pub open spec fn dinv_family(batches: Seq<ColumnSampleBatch>, domain: CircleDomain) -> Seq<
    Seq<((int, int), (int, int))>,
> {
    Seq::new(
        batches.len(),
        |b: int|
            Seq::new(
                pow2(domain.log_size_spec() as nat),
                |row: int|
                    qinv_or_zero(
                        domain_vanish_spec(batches[b].point.x@, batches[b].point.y@, domain, row),
                    ),
            ),
    )
}

/// Builds all the per-proof constants in one place.
pub fn quotient_constants(
    sample_batches: &Vec<ColumnSampleBatch>,
    random_coeff: QM31,
    domain: &CircleDomain,
) -> (r: QuotientConstants)
    requires
        domain.wf(),
        1 <= domain.log_size_spec() <= 30,
    ensures
        r.line_coeffs.len() == sample_batches.len(),
        r.batch_random_coeffs.len() == sample_batches.len(),
        r.denominator_inverses.len() == sample_batches.len(),
        forall|b: int|
            0 <= b < sample_batches.len() ==> (#[trigger] r.line_coeffs[b]).len()
                == sample_batches[b].columns_and_values.len(),
        forall|b: int, j: int|
            0 <= b < sample_batches.len() && 0 <= j < r.line_coeffs[b].len() ==> ((
            #[trigger] r.line_coeffs[b][j]).0@ == lc_a(
                sample_batches[b].point.y@,
                sample_batches[b].columns_and_values[j].1@,
                qpow(random_coeff@, (j + 1) as nat),
            ) && r.line_coeffs[b][j].1@ == lc_b(
                sample_batches[b].point.y@,
                sample_batches[b].columns_and_values[j].1@,
                qpow(random_coeff@, (j + 1) as nat),
            ) && r.line_coeffs[b][j].2@ == lc_c(
                sample_batches[b].point.y@,
                sample_batches[b].columns_and_values[j].1@,
                qpow(random_coeff@, (j + 1) as nat),
            )),
        forall|b: int|
            0 <= b < sample_batches.len() ==> (#[trigger] r.batch_random_coeffs[b])@ == qpow(
                random_coeff@,
                sample_batches[b].columns_and_values.len() as nat,
            ),
        forall|b: int|
            0 <= b < sample_batches.len() ==> (#[trigger] r.denominator_inverses[b]).len() == pow2(
                domain.log_size_spec() as nat,
            ),
        forall|b: int, row: int|
            0 <= b < sample_batches.len() && 0 <= row < r.denominator_inverses[b].len() ==> (
            #[trigger] r.denominator_inverses[b][row])@ == qinv_or_zero(
                domain_vanish_spec(
                    sample_batches[b].point.x@,
                    sample_batches[b].point.y@,
                    *domain,
                    row,
                ),
            ),
{
    let line_coeffs = column_line_coeffs(sample_batches, random_coeff);
    let batch_coeffs = batch_random_coeffs(sample_batches, random_coeff);
    let denom_inverses = denominator_inverses(sample_batches, domain);
    QuotientConstants {
        line_coeffs,
        batch_random_coeffs: batch_coeffs,
        denominator_inverses: denom_inverses,
    }
}

/// One row of the accumulation: per batch, sum `c*column - a*y - b` over its
/// sampled columns, then Horner-fold with the batch coefficient and the
/// denominator inverse of the row.
pub fn accumulate_row_quotients(
    sample_batches: &Vec<ColumnSampleBatch>,
    columns: &Vec<CircleEvaluation>,
    quotient_constants: &QuotientConstants,
    row: usize,
    domain_point: &CirclePoint,
) -> (r: QM31)
    requires
        quotient_constants.line_coeffs.len() == sample_batches.len(),
        quotient_constants.batch_random_coeffs.len() == sample_batches.len(),
        quotient_constants.denominator_inverses.len() == sample_batches.len(),
        forall|b: int|
            0 <= b < sample_batches.len() ==> (#[trigger] quotient_constants.line_coeffs[b]).len()
                == sample_batches[b].columns_and_values.len(),
        forall|b: int|
            0 <= b < sample_batches.len() ==> row < (
            #[trigger] quotient_constants.denominator_inverses[b]).len(),
        forall|b: int, j: int|
            0 <= b < sample_batches.len() && 0 <= j < sample_batches[b].columns_and_values.len()
                ==> (#[trigger] sample_batches[b].columns_and_values[j]).0 < columns.len(),
        forall|c: int| 0 <= c < columns.len() ==> row < (#[trigger] columns[c]).values.len(),
    ensures
        r@ == row_accum_spec(
            sample_batches@,
            cols_views(columns@),
            lc_views_all(quotient_constants.line_coeffs@),
            bc_views(quotient_constants.batch_random_coeffs@),
            dinv_views(quotient_constants.denominator_inverses@),
            row as int,
            domain_point.y@,
            sample_batches.len() as int,
        ),
{
    let nb = sample_batches.len();
    let py = QM31::from_base(domain_point.y);
    let mut row_accumulator = QM31::zero();
    let mut b: usize = 0;
    while b < nb
        invariant
            b <= nb,
            nb == sample_batches.len(),
            py@ == q_from_f(domain_point.y@),
            quotient_constants.line_coeffs.len() == nb,
            quotient_constants.batch_random_coeffs.len() == nb,
            quotient_constants.denominator_inverses.len() == nb,
            forall|t: int|
                0 <= t < nb ==> (#[trigger] quotient_constants.line_coeffs[t]).len()
                    == sample_batches[t].columns_and_values.len(),
            forall|t: int|
                0 <= t < nb ==> row < (
                #[trigger] quotient_constants.denominator_inverses[t]).len(),
            forall|t: int, j: int|
                0 <= t < nb && 0 <= j < sample_batches[t].columns_and_values.len() ==> (
                #[trigger] sample_batches[t].columns_and_values[j]).0 < columns.len(),
            forall|c: int| 0 <= c < columns.len() ==> row < (#[trigger] columns[c]).values.len(),
            row_accumulator@ == row_accum_spec(
                sample_batches@,
                cols_views(columns@),
                lc_views_all(quotient_constants.line_coeffs@),
                bc_views(quotient_constants.batch_random_coeffs@),
                dinv_views(quotient_constants.denominator_inverses@),
                row as int,
                domain_point.y@,
                b as int,
            ),
        decreases nb - b,
    {
        let batch = &sample_batches[b];
        let nc = batch.columns_and_values.len();
        let mut numerator = QM31::zero();
        let mut j: usize = 0;
        while j < nc
            invariant
                j <= nc,
                b < nb,
                nb == sample_batches.len(),
                py@ == q_from_f(domain_point.y@),
                batch == &sample_batches[b as int],
                nc == batch.columns_and_values.len(),
                quotient_constants.line_coeffs.len() == nb,
                (#[trigger] quotient_constants.line_coeffs[b as int]).len() == nc,
                forall|t: int, u: int|
                    0 <= t < nb && 0 <= u < sample_batches[t].columns_and_values.len() ==> (
                    #[trigger] sample_batches[t].columns_and_values[u]).0 < columns.len(),
                forall|c: int|
                    0 <= c < columns.len() ==> row < (#[trigger] columns[c]).values.len(),
                numerator@ == numer_spec(
                    sample_batches[b as int],
                    cols_views(columns@),
                    lc_views(quotient_constants.line_coeffs[b as int]@),
                    row as int,
                    domain_point.y@,
                    j as int,
                ),
            decreases nc - j,
        {
            let (column_index, _) = batch.columns_and_values[j];
            let (a, bb, c) = quotient_constants.line_coeffs[b][j];
            let value = QM31::from_base(columns[column_index].values[row]);
            numerator = numerator.add(c.mul(value).sub(a.mul(py)).sub(bb));
            j = j + 1;
        }
        row_accumulator = row_accumulator.mul(quotient_constants.batch_random_coeffs[b]).add(
            numerator.mul(quotient_constants.denominator_inverses[b][row]),
        );
        b = b + 1;
    }
    row_accumulator
}

/// Accumulates the DEEP quotients of every batch over the whole domain: the
/// output at bit-reversed row `row` is the Horner fold of the batches at the
/// domain point of that row.
pub fn accumulate_quotients(
    domain: &CircleDomain,
    columns: &Vec<CircleEvaluation>,
    random_coeff: QM31,
    sample_batches: &Vec<ColumnSampleBatch>,
) -> (r: SecureEvaluation)
    requires
        domain.wf(),
        1 <= domain.log_size_spec() <= 30,
        forall|c: int|
            0 <= c < columns.len() ==> (#[trigger] columns[c]).values.len() == pow2(
                domain.log_size_spec() as nat,
            ),
        forall|b: int, j: int|
            0 <= b < sample_batches.len() && 0 <= j < sample_batches[b].columns_and_values.len()
                ==> (#[trigger] sample_batches[b].columns_and_values[j]).0 < columns.len(),
    ensures
        r.domain == *domain,
        r.values.len() == pow2(domain.log_size_spec() as nat),
        forall|row: int|
            0 <= row < r.values.len() ==> (#[trigger] r.values[row])@ == row_accum_spec(
                sample_batches@,
                cols_views(columns@),
                lc_spec_all(sample_batches@, random_coeff@),
                bc_spec_all(sample_batches@, random_coeff@),
                dinv_family(sample_batches@, *domain),
                row,
                row_point_y(*domain, row),
                sample_batches.len() as int,
            ),
{
    let n = domain.log_size();
    let size = domain.size();
    let constants = quotient_constants(sample_batches, random_coeff, domain);
    proof {
        assert(lc_views_all(constants.line_coeffs@) =~= lc_spec_all(
            sample_batches@,
            random_coeff@,
        )) by {
            assert forall|b: int| 0 <= b < sample_batches.len() implies lc_views_all(
                constants.line_coeffs@,
            )[b] =~= lc_spec_all(sample_batches@, random_coeff@)[b] by {
            }
        }
        assert(bc_views(constants.batch_random_coeffs@) =~= bc_spec_all(
            sample_batches@,
            random_coeff@,
        ));
    }
    let mut values: Vec<QM31> = Vec::new();
    let mut row: usize = 0;
    while row < size
        invariant
            row <= size,
            domain.wf(),
            1 <= n <= 30,
            n == domain.log_size_spec(),
            size == pow2(n as nat),
            values.len() == row,
            constants.line_coeffs.len() == sample_batches.len(),
            constants.batch_random_coeffs.len() == sample_batches.len(),
            constants.denominator_inverses.len() == sample_batches.len(),
            forall|b: int|
                0 <= b < sample_batches.len() ==> (#[trigger] constants.line_coeffs[b]).len()
                    == sample_batches[b].columns_and_values.len(),
            forall|b: int|
                0 <= b < sample_batches.len() ==> (
                #[trigger] constants.denominator_inverses[b]).len() == size,
            forall|b: int, row2: int|
                0 <= b < sample_batches.len() && 0 <= row2 < size ==> (
                #[trigger] constants.denominator_inverses[b][row2])@ == qinv_or_zero(
                    domain_vanish_spec(
                        sample_batches[b].point.x@,
                        sample_batches[b].point.y@,
                        *domain,
                        row2,
                    ),
                ),
            lc_views_all(constants.line_coeffs@) == lc_spec_all(sample_batches@, random_coeff@),
            bc_views(constants.batch_random_coeffs@) == bc_spec_all(
                sample_batches@,
                random_coeff@,
            ),
            forall|c: int|
                0 <= c < columns.len() ==> (#[trigger] columns[c]).values.len() == size,
            forall|b: int, j: int|
                0 <= b < sample_batches.len() && 0 <= j
                    < sample_batches[b].columns_and_values.len() ==> (
                #[trigger] sample_batches[b].columns_and_values[j]).0 < columns.len(),
            forall|row2: int|
                0 <= row2 < row ==> (#[trigger] values[row2])@ == row_accum_spec(
                    sample_batches@,
                    cols_views(columns@),
                    lc_spec_all(sample_batches@, random_coeff@),
                    bc_spec_all(sample_batches@, random_coeff@),
                    dinv_views(constants.denominator_inverses@),
                    row2,
                    row_point_y(*domain, row2),
                    sample_batches.len() as int,
                ),
        decreases size - row,
    {
        let idx = bit_reverse_index(row, n);
        let domain_point = domain.at(idx);
        let row_value = accumulate_row_quotients(
            sample_batches,
            columns,
            &constants,
            row,
            &domain_point,
        );
        values.push(row_value);
        row = row + 1;
    }
    proof {
        assert(dinv_views(constants.denominator_inverses@) =~= dinv_family(
            sample_batches@,
            *domain,
        )) by {
            assert forall|b: int| 0 <= b < sample_batches.len() implies dinv_views(
                constants.denominator_inverses@,
            )[b] =~= dinv_family(sample_batches@, *domain)[b] by {
            }
        }
    }
    SecureEvaluation { domain: *domain, values }
}

} // verus!
