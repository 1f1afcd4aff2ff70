//! The circle-domain polynomial engine: bit-reversed evaluations,
//! coefficient vectors in the circle FFT basis, interpolation and evaluation
//! by butterfly transforms, and direct evaluation at an out-of-domain point.

use vstd::prelude::*;
use crate::m31::{M31, fadd, fsub, fmul};
use crate::qm31::{QM31, qadd, qsub, qmul, qone, q_from_f};
use crate::circle::{CircleDomain, CanonicCoset, Coset, SecureCirclePoint};
use crate::fft::{butterfly, ibutterfly};
use crate::utils::{bit_rev, bit_reverse_index, pow2_usize};
use vstd::arithmetic::power2::{pow2, lemma_pow2_unfold, lemma_pow2_adds, lemma2_to64};

verus! {

/// A column of values over a circle domain, stored in bit-reversed order:
/// position `j` holds the value at the point of natural index
/// `bit_rev(j, log_size)`.
#[derive(PartialEq, Eq, Debug)]
pub struct CircleEvaluation {
    pub domain: CircleDomain,
    pub values: Vec<M31>,
}

/// A polynomial over the circle, as coefficients in the circle FFT basis:
/// bit 0 of a coefficient index selects `y`, bit 1 selects `x`, and bit
/// `k >= 2` selects the `(k-1)`-fold doubling map of `x`.
#[derive(PartialEq, Eq, Debug)]
pub struct CirclePoly {
    pub coeffs: Vec<M31>,
    pub log_size: u32,
}

/// The position in the natural coset order that feeds position `i` of a
/// canonically ordered circle-domain column: even coset indices first, then
/// the odd ones in reverse.
pub open spec fn canonical_order_index(i: int, n: int) -> int {
    if i < n / 2 {
        2 * i
    } else {
        2 * (n - 1 - i) + 1
    }
}

/// One contraction of adjacent coefficient pairs against a mapping value.
pub open spec fn fold_layer(v: Seq<((int, int), (int, int))>, m: ((int, int), (int, int))) -> Seq<
    ((int, int), (int, int)),
> {
    Seq::new((v.len() / 2) as nat, |j: int| qadd(v[2 * j], qmul(m, v[2 * j + 1])))
}

/// The doubling map `pi(x) = 2x^2 - 1` over the secure field.
pub open spec fn pi_q(x: ((int, int), (int, int))) -> ((int, int), (int, int)) {
    qsub(qmul(q_from_f(2), qmul(x, x)), qone())
}

/// Contractions against `x` and then its iterated doublings.
pub open spec fn eval_fold_x(v: Seq<((int, int), (int, int))>, x: ((int, int), (int, int))) -> (
    (int, int),
    (int, int),
)
    decreases v.len(),
{
    if v.len() <= 1 {
        v[0]
    } else {
        eval_fold_x(fold_layer(v, x), pi_q(x))
    }
}

/// The value of a coefficient vector at the point `(x, y)`: one contraction
/// against `y`, then contractions against `x` and its iterated doublings.
pub open spec fn eval_at_point_spec(
    v: Seq<((int, int), (int, int))>,
    x: ((int, int), (int, int)),
    y: ((int, int), (int, int)),
) -> ((int, int), (int, int)) {
    if v.len() <= 1 {
        v[0]
    } else {
        eval_fold_x(fold_layer(v, y), x)
    }
}

/// The views of a coefficient vector, lifted into the secure field.
pub open spec fn lift_coeffs(c: Seq<M31>) -> Seq<((int, int), (int, int))> {
    Seq::new(c.len(), |j: int| q_from_f(c[j]@))
}

/// The inverse twiddles of layer `l`.
pub open spec fn itw_seq(domain: CircleDomain, n: int, l: int) -> Seq<int> {
    Seq::new(pow2((n - 1 - l) as nat), |h: int| crate::m31::finv(layer_twiddle_spec(domain, n, l, h)))
}

/// The forward twiddles of layer `l`.
pub open spec fn tw_seq(domain: CircleDomain, n: int, l: int) -> Seq<int> {
    Seq::new(pow2((n - 1 - l) as nat), |h: int| layer_twiddle_spec(domain, n, l, h))
}

/// The state of the inverse FFT after its first `l` layers: layer `t` pairs
/// positions at stride `2^t` with the inverse twiddles of layer `t`.
pub open spec fn ifft_stages(values: Seq<int>, domain: CircleDomain, n: int, l: int) -> Seq<int>
    decreases l,
{
    if l <= 0 {
        values
    } else {
        Seq::new(
            values.len(),
            |p: int|
                ibutterfly_layer_spec(
                    ifft_stages(values, domain, n, l - 1),
                    itw_seq(domain, n, l - 1),
                    pow2((l - 1) as nat) as int,
                    p,
                ),
        )
    }
}

/// The state of the forward FFT after its first `t` layers: stage `t`
/// applies layer `n - t`, from the coarsest stride down to adjacent pairs.
pub open spec fn fft_stages(values: Seq<int>, domain: CircleDomain, n: int, t: int) -> Seq<int>
    decreases t,
{
    if t <= 0 {
        values
    } else {
        Seq::new(
            values.len(),
            |p: int|
                butterfly_layer_spec(
                    fft_stages(values, domain, n, t - 1),
                    tw_seq(domain, n, n - t),
                    pow2((n - t) as nat) as int,
                    p,
                ),
        )
    }
}

/// A coefficient vector zero-padded to a domain size.
pub open spec fn padded_coeffs(c: Seq<M31>, size: nat) -> Seq<int> {
    Seq::new(
        size,
        |k: int|
            if k < c.len() {
                c[k]@
            } else {
                0
            },
    )
}

/// One forward layer followed by the matching inverse layer doubles every
/// entry, provided the block twiddle and its stored inverse multiply to one.
proof fn lemma_layer_round_trip(v: Seq<int>, tw: Seq<int>, itw: Seq<int>, stride: int, pos: int)
    requires
        stride >= 1,
        0 <= pos < v.len(),
        0 <= v[pos] < crate::m31::P,
        (pos / stride) % 2 == 0 ==> pos + stride < v.len(),
        (pos / stride) % 2 != 0 ==> pos - stride >= 0,
        0 <= pos / (2 * stride) < tw.len(),
        itw.len() == tw.len(),
        fmul(itw[pos / (2 * stride)], tw[pos / (2 * stride)]) == 1,
    ensures
        ibutterfly_layer_spec(
            Seq::new(v.len(), |p: int| butterfly_layer_spec(v, tw, stride, p)),
            itw,
            stride,
            pos,
        ) == fmul(2, v[pos]),
{
    let p = crate::m31::P as int;
    let w = Seq::new(v.len(), |p2: int| butterfly_layer_spec(v, tw, stride, p2));
    let h = pos / (2 * stride);
    let t = tw[h];
    if (pos / stride) % 2 == 0 {
        // The partner lives one stride up, in the same block.
        vstd::arithmetic::div_mod::lemma_hoist_over_denominator(pos, 1, stride as nat);
        assert((pos + stride) / stride == pos / stride + 1);
        vstd::arithmetic::div_mod::lemma_fundamental_div_mod(pos, 2 * stride);
        vstd::arithmetic::div_mod::lemma_mod_bound(pos, 2 * stride);
        assert((pos / stride) % 2 == 0 ==> pos % (2 * stride) < stride) by {
            vstd::arithmetic::div_mod::lemma_mod_breakdown(pos, stride, 2);
            vstd::arithmetic::div_mod::lemma_mod_bound(pos, stride);
        }
        vstd::arithmetic::div_mod::lemma_fundamental_div_mod_converse_div(
            pos + stride,
            2 * stride,
            h,
            pos % (2 * stride) + stride,
        );
        let a = v[pos];
        let tb = fmul(t, v[pos + stride]);
        assert(w[pos] == fadd(a, tb));
        assert(w[pos + stride] == fsub(a, tb));
        vstd::arithmetic::div_mod::lemma_add_mod_noop(a + tb, a - tb, p);
    } else {
        // The partner lives one stride down; this is the odd half-block.
        vstd::arithmetic::div_mod::lemma_hoist_over_denominator(pos - stride, 1, stride as nat);
        assert((pos - stride) / stride + 1 == pos / stride);
        vstd::arithmetic::div_mod::lemma_fundamental_div_mod(pos, 2 * stride);
        vstd::arithmetic::div_mod::lemma_mod_bound(pos, 2 * stride);
        assert(pos % (2 * stride) >= stride) by {
            vstd::arithmetic::div_mod::lemma_mod_breakdown(pos, stride, 2);
            vstd::arithmetic::div_mod::lemma_mod_bound(pos, stride);
        }
        vstd::arithmetic::div_mod::lemma_fundamental_div_mod_converse_div(
            pos - stride,
            2 * stride,
            h,
            pos % (2 * stride) - stride,
        );
        let a = v[pos - stride];
        let b = v[pos];
        let tb = fmul(t, b);
        assert(w[pos - stride] == fadd(a, tb));
        assert(w[pos] == fsub(a, tb));
        // The difference of the pair is twice the twiddled odd part.
        assert(fsub(fadd(a, tb), fsub(a, tb)) == fmul(2, tb)) by {
            vstd::arithmetic::div_mod::lemma_sub_mod_noop(a + tb, a - tb, p);
        }
        // Multiplying by the stored inverse cancels the twiddle.
        assert(fmul(fmul(2, tb), itw[h]) == fmul(2, b)) by {
            crate::m31::lemma_fmul_assoc(2, tb, itw[h]);
            crate::m31::lemma_fmul_assoc(t, b, itw[h]);
            crate::m31::lemma_fmul_comm(b, itw[h]);
            crate::m31::lemma_fmul_assoc(t, itw[h], b);
            crate::m31::lemma_fmul_comm(t, itw[h]);
            crate::m31::lemma_fmul_one_left(b);
        }
    }
}

/// An inverse layer of a scaled column is the scaled inverse layer.
proof fn lemma_ilayer_scale(w: Seq<int>, itw: Seq<int>, stride: int, pos: int, c: int)
    requires
        stride >= 1,
        0 <= pos < w.len(),
        (pos / stride) % 2 == 0 ==> pos + stride < w.len(),
        (pos / stride) % 2 != 0 ==> pos - stride >= 0,
    ensures
        ibutterfly_layer_spec(Seq::new(w.len(), |p: int| fmul(c, w[p])), itw, stride, pos) == fmul(
            c,
            ibutterfly_layer_spec(w, itw, stride, pos),
        ),
{
    let p = crate::m31::P as int;
    if (pos / stride) % 2 == 0 {
        crate::m31::lemma_fmul_fadd_distrib(c, w[pos], w[pos + stride]);
    } else {
        let h = pos / (2 * stride);
        // c distributes over the difference, then moves past the twiddle.
        assert(fsub(fmul(c, w[pos - stride]), fmul(c, w[pos])) == fmul(
            c,
            fsub(w[pos - stride], w[pos]),
        )) by {
            vstd::arithmetic::div_mod::lemma_sub_mod_noop(c * w[pos - stride], c * w[pos], p);
            vstd::arithmetic::div_mod::lemma_mul_mod_noop_general(
                c,
                w[pos - stride] - w[pos],
                p,
            );
            vstd::arithmetic::mul::lemma_mul_is_distributive_sub(c, w[pos - stride], w[pos]);
        }
        crate::m31::lemma_fmul_assoc(c, fsub(w[pos - stride], w[pos]), itw[h]);
    }
}

/// The inverse stages undo the forward stages up to a power of two: after
/// `l` inverse layers over the fully transformed column, every entry is
/// `2^l` times the corresponding entry of the remaining forward stages.
proof fn lemma_stages_round_trip(values: Seq<int>, domain: CircleDomain, n: int, l: int)
    requires
        1 <= n <= 30,
        0 <= l <= n,
        values.len() == pow2(n as nat),
        forall|k: int| 0 <= k < values.len() ==> 0 <= #[trigger] values[k] < crate::m31::P,
        forall|l2: int, h: int|
            0 <= l2 < n && 0 <= h < pow2((n - 1 - l2) as nat) ==> crate::m31::f_has_inv(
                #[trigger] layer_twiddle_spec(domain, n, l2, h),
            ),
    ensures
        forall|k: int|
            0 <= k < values.len() ==> #[trigger] ifft_stages(
                fft_stages(values, domain, n, n),
                domain,
                n,
                l,
            )[k] == fmul(crate::m31::fpow(2, l as nat), fft_stages(values, domain, n, n - l)[k]),
    decreases l,
{
    let size = values.len() as int;
    let full = fft_stages(values, domain, n, n);
    if l == 0 {
        assert forall|k: int| 0 <= k < size implies #[trigger] ifft_stages(full, domain, n, 0)[k]
            == fmul(crate::m31::fpow(2, 0), fft_stages(values, domain, n, n)[k]) by {
            lemma_fft_stage_range(values, domain, n, n, k);
            crate::m31::lemma_fmul_one_left(fft_stages(values, domain, n, n)[k]);
        }
    } else {
        lemma_stages_round_trip(values, domain, n, l - 1);
        let prev = ifft_stages(full, domain, n, l - 1);
        let f_prev = fft_stages(values, domain, n, n - (l - 1));
        let f_next = fft_stages(values, domain, n, n - l);
        let c = crate::m31::fpow(2, (l - 1) as nat);
        let stride = pow2((l - 1) as nat) as int;
        assert forall|k: int| 0 <= k < size implies #[trigger] ifft_stages(full, domain, n, l)[k]
            == fmul(crate::m31::fpow(2, l as nat), f_next[k]) by {
            lemma_pos_partner_in_range(size, stride, k, n, l);
            // The previous inverse stage is the scaled remaining forward
            // stage, entrywise, so the next inverse layer acts on the scale.
            assert(prev =~= Seq::new(size as nat, |p2: int| fmul(c, f_prev[p2])));
            lemma_ilayer_scale(f_prev, itw_seq(domain, n, l - 1), stride, k, c);
            // The remaining forward stage is one forward layer over the next.
            assert(f_prev =~= Seq::new(
                size as nat,
                |p2: int| butterfly_layer_spec(f_next, tw_seq(domain, n, l - 1), stride, p2),
            ));
            lemma_fft_stage_range(values, domain, n, n - l, k);
            lemma_twiddle_product(domain, n, l - 1, k / (2 * stride));
            lemma_layer_round_trip(
                f_next,
                tw_seq(domain, n, l - 1),
                itw_seq(domain, n, l - 1),
                stride,
                k,
            );
            crate::m31::lemma_fmul_assoc(c, 2, f_next[k]);
            crate::m31::lemma_fmul_comm(c, 2);
            crate::m31::lemma_fmul_assoc(2, c, f_next[k]);
        }
    }
}

/// Every entry of a forward stage beyond the first is reduced.
proof fn lemma_fft_stage_range(values: Seq<int>, domain: CircleDomain, n: int, t: int, k: int)
    requires
        0 <= k < values.len(),
        forall|k2: int| 0 <= k2 < values.len() ==> 0 <= #[trigger] values[k2] < crate::m31::P,
    ensures
        0 <= fft_stages(values, domain, n, t)[k] < crate::m31::P,
{
    if t <= 0 {
    } else {
        vstd::arithmetic::div_mod::lemma_mod_bound(
            fft_stages(values, domain, n, t - 1)[k] + crate::m31::fmul(
                tw_seq(domain, n, n - t)[k / (2 * (pow2((n - t) as nat) as int))],
                fft_stages(values, domain, n, t - 1)[k + pow2((n - t) as nat)],
            ),
            crate::m31::P as int,
        );
        vstd::arithmetic::div_mod::lemma_mod_bound(
            fft_stages(values, domain, n, t - 1)[k - pow2((n - t) as nat)] - crate::m31::fmul(
                tw_seq(domain, n, n - t)[k / (2 * (pow2((n - t) as nat) as int))],
                fft_stages(values, domain, n, t - 1)[k],
            ),
            crate::m31::P as int,
        );
    }
}

/// Helper bounds: within a power-of-two column, every position's butterfly
/// partner is in range and its block index is within the twiddle table.
proof fn lemma_pos_partner_in_range(size: int, stride: int, k: int, n: int, l: int)
    requires
        1 <= l <= n <= 30,
        stride == pow2((l - 1) as nat),
        size == pow2(n as nat),
        0 <= k < size,
    ensures
        stride >= 1,
        (k / stride) % 2 == 0 ==> k + stride < size,
        (k / stride) % 2 != 0 ==> k - stride >= 0,
        0 <= k / (2 * stride) < pow2((n - l) as nat),
{
    vstd::arithmetic::power2::lemma_pow2_pos((l - 1) as nat);
    lemma_pow2_unfold(l as nat);
    lemma_pow2_adds((n - l) as nat, l as nat);
    vstd::arithmetic::div_mod::lemma_fundamental_div_mod(k, 2 * stride);
    vstd::arithmetic::div_mod::lemma_mod_bound(k, 2 * stride);
    vstd::arithmetic::div_mod::lemma_mod_breakdown(k, stride, 2);
    vstd::arithmetic::div_mod::lemma_mod_bound(k, stride);
    vstd::arithmetic::div_mod::lemma_mod_bound(k / stride, 2);
    let q = k / (2 * stride);
    assert(0 <= q < pow2((n - l) as nat)) by {
        if q >= pow2((n - l) as nat) {
            vstd::arithmetic::mul::lemma_mul_inequality(
                pow2((n - l) as nat) as int,
                q,
                2 * stride,
            );
            vstd::arithmetic::mul::lemma_mul_is_commutative(2 * stride, q);
        }
        if q < 0 {
            vstd::arithmetic::mul::lemma_mul_inequality(q, -1, 2 * stride);
            vstd::arithmetic::mul::lemma_mul_is_commutative(2 * stride, q);
        }
    }
    if (k / stride) % 2 == 0 {
        assert(k + stride < size) by {
            assert(k == (2 * stride) * q + k % (2 * stride));
            assert(k % (2 * stride) < stride);
            vstd::arithmetic::mul::lemma_mul_inequality(
                q,
                pow2((n - l) as nat) as int - 1,
                2 * stride,
            );
            vstd::arithmetic::mul::lemma_mul_is_commutative(2 * stride, q);
            vstd::arithmetic::mul::lemma_mul_is_distributive_sub(
                2 * stride,
                pow2((n - l) as nat) as int,
                1,
            );
        }
    } else {
        assert(k % (2 * stride) >= stride);
        assert(k - stride >= 0) by {
            assert(k == (2 * stride) * q + k % (2 * stride));
            vstd::arithmetic::mul::lemma_mul_nonnegative(2 * stride, q);
        }
    }
}

/// The stored inverse of an invertible twiddle multiplies with it to one.
proof fn lemma_twiddle_product(domain: CircleDomain, n: int, l: int, h: int)
    requires
        0 <= h < pow2((n - 1 - l) as nat),
        crate::m31::f_has_inv(layer_twiddle_spec(domain, n, l, h)),
    ensures
        fmul(itw_seq(domain, n, l)[h], tw_seq(domain, n, l)[h]) == 1,
{
    let t = layer_twiddle_spec(domain, n, l, h);
    let w = choose|b: int| 0 <= b < crate::m31::P && fmul(t, b) == 1;
    crate::m31::lemma_fmul_comm(t, w);
    crate::m31::lemma_finv_is(t, w);
}

/// Two is invertible, and so is every power of two.
proof fn lemma_pow2_field_inv(l: nat)
    ensures
        crate::m31::f_has_inv(crate::m31::fpow(2, l)),
    decreases l,
{
    let p = crate::m31::P as int;
    if l == 0 {
        vstd::arithmetic::div_mod::lemma_small_mod(1, p as nat);
        assert(fmul(1, 1) == 1);
        assert(crate::m31::f_has_inv(1));
    } else {
        lemma_pow2_field_inv((l - 1) as nat);
        assert(crate::m31::f_has_inv(2)) by {
            assert(fmul(2, 0x4000_0000) == 1) by {
                vstd::arithmetic::div_mod::lemma_small_mod(1, p as nat);
                assert((2 * 0x4000_0000int) % p == (1int + p) % p);
                vstd::arithmetic::div_mod::lemma_mod_add_multiples_vanish(1, p);
            }
        }
        crate::fri::lemma_has_inv_mul(crate::m31::fpow(2, (l - 1) as nat), 2);
    }
}

/// Law: interpolation inverts evaluation. Over any column of reduced values
/// whose layer twiddles are all invertible, running the forward stages and
/// then the inverse stages multiplies every entry by `2^n`, so the final
/// scaling by the inverse of the domain size restores the entry exactly.
pub proof fn lemma_interpolate_inverts_evaluate(values: Seq<int>, domain: CircleDomain, n: int)
    requires
        1 <= n <= 30,
        values.len() == pow2(n as nat),
        forall|k: int| 0 <= k < values.len() ==> 0 <= #[trigger] values[k] < crate::m31::P,
        forall|l: int, h: int|
            0 <= l < n && 0 <= h < pow2((n - 1 - l) as nat) ==> crate::m31::f_has_inv(
                #[trigger] layer_twiddle_spec(domain, n, l, h),
            ),
    ensures
        forall|k: int|
            0 <= k < values.len() ==> fmul(
                #[trigger] ifft_stages(fft_stages(values, domain, n, n), domain, n, n)[k],
                crate::m31::finv(pow2(n as nat) as int),
            ) == values[k],
{
    let p = crate::m31::P as int;
    lemma_stages_round_trip(values, domain, n, n);
    assert(crate::m31::fpow(2, n as nat) == pow2(n as nat) as int) by {
        lemma_fpow2_is_pow2(n as nat);
    }
    lemma_pow2_field_inv(n as nat);
    let x = pow2(n as nat) as int;
    let w = choose|b: int| 0 <= b < crate::m31::P && fmul(x, b) == 1;
    crate::m31::lemma_fmul_comm(x, w);
    crate::m31::lemma_finv_is(x, w);
    assert forall|k: int| 0 <= k < values.len() implies fmul(
        #[trigger] ifft_stages(fft_stages(values, domain, n, n), domain, n, n)[k],
        crate::m31::finv(x),
    ) == values[k] by {
        // stage value == 2^n * values[k]; multiply by the inverse of 2^n.
        crate::m31::lemma_fmul_comm(fmul(x, values[k]), crate::m31::finv(x));
        crate::m31::lemma_fmul_assoc(crate::m31::finv(x), x, values[k]);
        crate::m31::lemma_fmul_one_left(values[k]);
    }
}

/// `fpow(2, l)` is `2^l` while it stays below the modulus.
proof fn lemma_fpow2_is_pow2(l: nat)
    requires
        l <= 30,
    ensures
        crate::m31::fpow(2, l) == pow2(l) as int,
    decreases l,
{
    lemma2_to64();
    if l > 0 {
        lemma_fpow2_is_pow2((l - 1) as nat);
        lemma_pow2_unfold(l);
        crate::utils::lemma_pow2_le31(l);
        vstd::arithmetic::power2::lemma_pow2_strictly_increases(l, 31);
        vstd::arithmetic::div_mod::lemma_small_mod(pow2(l), crate::m31::P as nat);
    }
}

/// The scalar reference backend.
pub struct CpuBackend {}

impl CpuBackend {
    /// Interprets `values` as the evaluation over a canonic coset in natural
    /// order and returns the evaluation over the matching circle domain in
    /// bit-reversed order.
    pub fn new_canonical_ordered(coset: &CanonicCoset, values: &Vec<M31>) -> (r: CircleEvaluation)
        requires
            coset.wf(),
            values.len() == pow2(coset.coset.log_size as nat),
        ensures
            r.domain.half_coset.initial_index@ == pow2((30 - coset.coset.log_size) as nat),
            r.domain.half_coset.log_size == coset.coset.log_size - 1,
            r.domain.wf(),
            r.values.len() == values.len(),
            forall|j: int|
                0 <= j < values.len() ==> (#[trigger] r.values[j]) == values[canonical_order_index(
                    bit_rev(j, coset.coset.log_size as nat),
                    values.len() as int,
                )],
    {
        let n = values.len();
        let half = n / 2;
        proof {
            lemma_pow2_unfold(coset.coset.log_size as nat);
        }
        let mut reordered: Vec<M31> = Vec::new();
        let mut i: usize = 0;
        while i < half
            invariant
                i <= half,
                n == values.len(),
                half == n / 2,
                n == 2 * half,
                reordered.len() == i,
                forall|t: int| 0 <= t < i ==> (#[trigger] reordered[t]) == values[2 * t],
            decreases half - i,
        {
            reordered.push(values[2 * i]);
            i = i + 1;
        }
        let mut k: usize = 0;
        while k < half
            invariant
                k <= half,
                n == values.len(),
                half == n / 2,
                n == 2 * half,
                reordered.len() == half + k,
                forall|t: int| 0 <= t < half ==> (#[trigger] reordered[t]) == values[2 * t],
                forall|t: int|
                    half <= t < half + k ==> (#[trigger] reordered[t]) == values[2 * (n - 1 - t)
                        + 1],
            decreases half - k,
        {
            reordered.push(values[n - 1 - 2 * k]);
            k = k + 1;
        }
        let domain = coset.circle_domain();
        let permuted = crate::utils::bit_reverse(&reordered, coset.log_size());
        proof {
            assert forall|j: int| 0 <= j < values.len() implies (#[trigger] permuted[j])
                == values[canonical_order_index(
                bit_rev(j, coset.coset.log_size as nat),
                values.len() as int,
            )] by {
                crate::utils::lemma_bit_rev_range(j, coset.coset.log_size as nat);
            }
        }
        CircleEvaluation { domain, values: permuted }
    }

    /// Inverse circle FFT: interpolates a bit-reversed evaluation into
    /// coefficients in the circle FFT basis.
    pub fn interpolate(eval: CircleEvaluation) -> (r: CirclePoly)
        requires
            eval.domain.wf(),
            1 <= eval.domain.log_size_spec() <= 30,
            eval.values.len() == pow2(eval.domain.log_size_spec() as nat),
        ensures
            r.coeffs.len() == eval.values.len(),
            r.log_size == eval.domain.log_size_spec(),
            forall|k: int|
                0 <= k < r.coeffs.len() ==> (#[trigger] r.coeffs[k])@ == fmul(
                    ifft_stages(
                        m31_views(eval.values@),
                        eval.domain,
                        eval.domain.log_size_spec(),
                        eval.domain.log_size_spec(),
                    )[k],
                    crate::m31::finv(pow2(eval.domain.log_size_spec() as nat) as int),
                ),
    {
        let n = eval.domain.log_size();
        let size = eval.domain.size();
        let ghost orig = m31_views(eval.values@);
        let mut v = eval.values;
        let mut l: u32 = 0;
        while l < n
            invariant
                l <= n,
                eval.domain.wf(),
                1 <= n <= 30,
                n == eval.domain.log_size_spec(),
                size == pow2(n as nat),
                v.len() == size,
                orig.len() == size,
                m31_views(v@) =~= ifft_stages(orig, eval.domain, n as int, l as int),
            decreases n - l,
        {
            let itwiddles = layer_itwiddles(&eval.domain, l, n);
            let ghost vprev = v@;
            apply_ibutterfly_layer(&mut v, l, n, &itwiddles);
            proof {
                assert(m31_views(itwiddles@) =~= itw_seq(eval.domain, n as int, l as int));
                assert forall|p: int| 0 <= p < size implies m31_views(v@)[p] == ifft_stages(
                    orig,
                    eval.domain,
                    n as int,
                    l + 1,
                )[p] by {
                    assert(v@[p]@ == ibutterfly_layer_spec(
                        m31_views(vprev),
                        m31_views(itwiddles@),
                        pow2(l as nat) as int,
                        p,
                    ));
                    assert(ifft_stages(orig, eval.domain, n as int, l + 1)[p]
                        == ibutterfly_layer_spec(
                        ifft_stages(orig, eval.domain, n as int, l as int),
                        itw_seq(eval.domain, n as int, l as int),
                        pow2(l as nat) as int,
                        p,
                    ));
                }
                assert(m31_views(v@) =~= ifft_stages(orig, eval.domain, n as int, l + 1));
            }
            l = l + 1;
        }
        // Scale by the inverse of the domain size.
        proof {
            crate::utils::lemma_pow2_le31(n as nat);
            lemma2_to64();
            vstd::arithmetic::power2::lemma_pow2_strictly_increases(n as nat, 31);
            vstd::arithmetic::div_mod::lemma_small_mod(pow2(n as nat), crate::m31::P as nat);
        }
        let size_inv = M31::from_u32(size as u32).inverse();
        let mut coeffs: Vec<M31> = Vec::new();
        let mut i: usize = 0;
        while i < size
            invariant
                i <= size,
                v.len() == size,
                coeffs.len() == i,
                eval.domain.wf(),
                1 <= n <= 30,
                n == eval.domain.log_size_spec(),
                size == pow2(n as nat),
                orig.len() == size,
                orig == m31_views(eval.values@),
                size_inv@ == crate::m31::finv(pow2(n as nat) as int),
                m31_views(v@) =~= ifft_stages(orig, eval.domain, n as int, n as int),
                forall|k: int|
                    0 <= k < i ==> (#[trigger] coeffs[k])@ == fmul(
                        ifft_stages(orig, eval.domain, n as int, n as int)[k],
                        crate::m31::finv(pow2(n as nat) as int),
                    ),
            decreases size - i,
        {
            coeffs.push(v[i].mul(size_inv));
            i = i + 1;
        }
        CirclePoly { coeffs, log_size: n }
    }

    /// Forward circle FFT: evaluates a polynomial over a domain at least as
    /// large as its coefficient vector, in bit-reversed order.
    pub fn evaluate(poly: &CirclePoly, domain: &CircleDomain) -> (r: CircleEvaluation)
        requires
            domain.wf(),
            1 <= domain.log_size_spec() <= 30,
            poly.log_size <= domain.log_size_spec(),
            poly.coeffs.len() == pow2(poly.log_size as nat),
        ensures
            r.domain == *domain,
            r.values.len() == pow2(domain.log_size_spec() as nat),
            forall|k: int|
                0 <= k < r.values.len() ==> (#[trigger] r.values[k])@ == fft_stages(
                    padded_coeffs(poly.coeffs@, pow2(domain.log_size_spec() as nat)),
                    *domain,
                    domain.log_size_spec(),
                    domain.log_size_spec(),
                )[k],
    {
        let n = domain.log_size();
        let size = domain.size();
        let ghost padded = padded_coeffs(poly.coeffs@, pow2(domain.log_size_spec() as nat));
        let ext = Self::extend(poly, n);
        let mut v = ext.coeffs;
        proof {
            assert(m31_views(v@) =~= padded);
        }
        let mut l: u32 = n;
        while l > 0
            invariant
                l <= n,
                domain.wf(),
                1 <= n <= 30,
                n == domain.log_size_spec(),
                size == pow2(n as nat),
                v.len() == size,
                padded == padded_coeffs(poly.coeffs@, pow2(n as nat)),
                padded.len() == size,
                m31_views(v@) =~= fft_stages(padded, *domain, n as int, n - l),
            decreases l,
        {
            l = l - 1;
            let twiddles = layer_twiddles(domain, l, n);
            apply_butterfly_layer(&mut v, l, n, &twiddles);
            proof {
                assert(m31_views(twiddles@) =~= tw_seq(*domain, n as int, l as int));
                assert(m31_views(v@) =~= fft_stages(padded, *domain, n as int, n - l));
            }
        }
        CircleEvaluation { domain: *domain, values: v }
    }

    /// Evaluates a polynomial at a single out-of-domain point, by folding the
    /// coefficients against `y`, `x`, and the iterated doublings of `x`.
    pub fn eval_at_point(poly: &CirclePoly, point: &SecureCirclePoint) -> (r: QM31)
        requires
            poly.coeffs.len() == pow2(poly.log_size as nat),
        ensures
            r@ == eval_at_point_spec(lift_coeffs(poly.coeffs@), point.x@, point.y@),
    {
        let len = poly.coeffs.len();
        proof {
            vstd::arithmetic::power2::lemma_pow2_pos(poly.log_size as nat);
        }
        if len == 1 {
            return QM31::from_base(poly.coeffs[0]);
        }
        proof {
            lemma2_to64();
            if poly.log_size != 0 {
                vstd::arithmetic::power2::lemma_pow2_unfold(poly.log_size as nat);
            }
        }
        // Contract against y.
        let mut v: Vec<QM31> = Vec::new();
        let mut i: usize = 0;
        let half = len / 2;
        while i < half
            invariant
                i <= half,
                half == poly.coeffs.len() / 2,
                poly.coeffs.len() == 2 * half,
                v.len() == i,
                forall|j: int|
                    0 <= j < i ==> (#[trigger] v[j])@ == fold_layer(
                        lift_coeffs(poly.coeffs@),
                        point.y@,
                    )[j],
            decreases half - i,
        {
            let lo = QM31::from_base(poly.coeffs[2 * i]);
            let hi = QM31::from_base(poly.coeffs[2 * i + 1]);
            v.push(lo.add(point.y.mul(hi)));
            i = i + 1;
        }
        proof {
            assert(Seq::new(v.len() as nat, |j: int| v[j]@) =~= fold_layer(
                lift_coeffs(poly.coeffs@),
                point.y@,
            ));
        }
        // Contract against x and its doublings.
        let mut x = point.x;
        let two = QM31::from_base(M31::from_u32_unchecked(2));
        while v.len() > 1
            invariant
                v.len() >= 1,
                two@ == q_from_f(2),
                eval_fold_x(Seq::new(v.len() as nat, |j: int| v[j]@), x@) == eval_at_point_spec(
                    lift_coeffs(poly.coeffs@),
                    point.x@,
                    point.y@,
                ),
            decreases v.len(),
        {
            let m = v.len() / 2;
            let ghost prev = Seq::new(v.len() as nat, |j: int| v[j]@);
            let mut w: Vec<QM31> = Vec::new();
            let mut j: usize = 0;
            while j < m
                invariant
                    j <= m,
                    m == v.len() / 2,
                    v.len() >= 2,
                    prev == Seq::new(v.len() as nat, |t: int| v[t]@),
                    w.len() == j,
                    forall|t: int|
                        0 <= t < j ==> (#[trigger] w[t])@ == fold_layer(prev, x@)[t],
                decreases m - j,
            {
                w.push(v[2 * j].add(x.mul(v[2 * j + 1])));
                j = j + 1;
            }
            proof {
                assert(Seq::new(w.len() as nat, |t: int| w[t]@) =~= fold_layer(prev, x@));
            }
            x = two.mul(x.mul(x)).sub(QM31::one());
            v = w;
        }
        v[0]
    }

    /// Zero-pads the coefficient vector to the size of a larger domain.
    pub fn extend(poly: &CirclePoly, log_size: u32) -> (r: CirclePoly)
        requires
            poly.log_size <= log_size <= 30,
            poly.coeffs.len() == pow2(poly.log_size as nat),
        ensures
            r.log_size == log_size,
            r.coeffs.len() == pow2(log_size as nat),
            forall|j: int|
                0 <= j < poly.coeffs.len() ==> (#[trigger] r.coeffs[j]) == poly.coeffs[j],
            forall|j: int|
                poly.coeffs.len() <= j < r.coeffs.len() ==> (#[trigger] r.coeffs[j])@ == 0,
    {
        let size = pow2_usize(log_size);
        let mut coeffs: Vec<M31> = Vec::new();
        let mut i: usize = 0;
        let n = poly.coeffs.len();
        proof {
            if (poly.log_size as nat) < (log_size as nat) {
                vstd::arithmetic::power2::lemma_pow2_strictly_increases(
                    poly.log_size as nat,
                    log_size as nat,
                );
            }
        }
        while i < n
            invariant
                i <= n,
                n == poly.coeffs.len(),
                coeffs.len() == i,
                forall|j: int| 0 <= j < i ==> (#[trigger] coeffs[j]) == poly.coeffs[j],
            decreases n - i,
        {
            coeffs.push(poly.coeffs[i]);
            i = i + 1;
        }
        while i < size
            invariant
                n <= i <= size,
                n == poly.coeffs.len(),
                coeffs.len() == i,
                forall|j: int| 0 <= j < n ==> (#[trigger] coeffs[j]) == poly.coeffs[j],
                forall|j: int| n <= j < i ==> (#[trigger] coeffs[j])@ == 0,
            decreases size - i,
        {
            coeffs.push(M31::zero());
            i = i + 1;
        }
        CirclePoly { coeffs, log_size }
    }
}

/// The initial index of a coset doubled `t` times.
pub open spec fn doubled_initial(q: int, t: nat) -> int
    decreases t,
{
    if t == 0 {
        q
    } else {
        (2 * doubled_initial(q, (t - 1) as nat)) % (crate::circle::CIRCLE_ORDER as int)
    }
}

/// A doubled initial index stays a reduced group exponent.
pub proof fn lemma_doubled_initial_range(q: int, t: nat)
    requires
        0 <= q < crate::circle::CIRCLE_ORDER,
    ensures
        0 <= doubled_initial(q, t) < crate::circle::CIRCLE_ORDER,
    decreases t,
{
    if t > 0 {
        lemma_doubled_initial_range(q, (t - 1) as nat);
        vstd::arithmetic::div_mod::lemma_mod_bound(
            2 * doubled_initial(q, (t - 1) as nat),
            crate::circle::CIRCLE_ORDER as int,
        );
    }
}

/// The half coset of `domain` doubled `t` times, as a coset description.
pub open spec fn doubled_half_coset(domain: CircleDomain, t: nat) -> Coset {
    Coset {
        initial_index: crate::circle::CirclePointIndex {
            idx: doubled_initial(domain.half_coset.initial_index@, t) as u32,
        },
        log_size: (domain.half_coset.log_size - t) as u32,
    }
}

/// The twiddle of forward layer `l`, block `h`: the `y` coordinate of the
/// `bit_rev(h)`-th half coset point for the circle layer, and the `x`
/// coordinate of the `bit_rev(h)`-th point of the `(l-1)`-fold doubled half
/// coset for a line layer.
pub open spec fn layer_twiddle_spec(domain: CircleDomain, n: int, l: int, h: int) -> int {
    if l == 0 {
        crate::circle::point_of_index(
            domain.half_coset.index_at_spec(bit_rev(h, (n - 1) as nat)),
        ).1
    } else {
        crate::circle::point_of_index(
            doubled_half_coset(domain, (l - 1) as nat).index_at_spec(bit_rev(h, (n - 1 - l) as nat)),
        ).0
    }
}

/// The twiddles of one forward FFT layer: the circle layer (`l == 0`) reads
/// the `y`-coordinates of the half coset in bit-reversed order; a line layer
/// `l >= 1` reads the `x`-coordinates of the `(l-1)`-fold doubled half coset.
fn layer_twiddles(domain: &CircleDomain, l: u32, n: u32) -> (r: Vec<M31>)
    requires
        domain.wf(),
        n == domain.log_size_spec(),
        1 <= n <= 30,
        l < n,
    ensures
        r.len() == pow2((n - 1 - l) as nat),
        forall|h: int|
            0 <= h < r.len() ==> (#[trigger] r[h])@ == layer_twiddle_spec(
                *domain,
                n as int,
                l as int,
                h,
            ),
{
    let blocks = pow2_usize(n - 1 - l);
    let mut r: Vec<M31> = Vec::new();
    let mut h: usize = 0;
    if l == 0 {
        while h < blocks
            invariant
                h <= blocks,
                domain.wf(),
                n == domain.log_size_spec(),
                1 <= n <= 30,
                l == 0,
                blocks == pow2((n - 1) as nat),
                r.len() == h,
                forall|t: int|
                    0 <= t < h ==> (#[trigger] r[t])@ == layer_twiddle_spec(
                        *domain,
                        n as int,
                        0,
                        t,
                    ),
            decreases blocks - h,
        {
            let idx = bit_reverse_index(h, n - 1);
            r.push(domain.half_coset.at(idx).y);
            h = h + 1;
        }
    } else {
        let mut c = domain.half_coset;
        let mut d: u32 = 0;
        while d < l - 1
            invariant
                d <= l - 1,
                l < n,
                n <= 31,
                c.wf(),
                c.log_size == domain.half_coset.log_size - d,
                c.initial_index@ == doubled_initial(domain.half_coset.initial_index@, d as nat),
                domain.wf(),
                n == domain.log_size_spec(),
            decreases l - 1 - d,
        {
            proof {
                crate::circle::lemma_index_view_range(domain.half_coset.initial_index);
                lemma_doubled_initial_range(
                    domain.half_coset.initial_index@,
                    (d + 1) as nat,
                );
            }
            c = c.double();
            d = d + 1;
        }
        proof {
            crate::circle::lemma_index_view_range(domain.half_coset.initial_index);
            lemma_doubled_initial_range(domain.half_coset.initial_index@, (l - 1) as nat);
            vstd::arithmetic::div_mod::lemma_small_mod(
                doubled_initial(domain.half_coset.initial_index@, (l - 1) as nat) as nat,
                crate::circle::CIRCLE_ORDER as nat,
            );
            assert(c == doubled_half_coset(*domain, (l - 1) as nat));
        }
        while h < blocks
            invariant
                h <= blocks,
                c.wf(),
                l < n,
                1 <= l,
                1 <= n <= 30,
                n == domain.log_size_spec(),
                domain.wf(),
                c.log_size == domain.half_coset.log_size - (l - 1),
                c == doubled_half_coset(*domain, (l - 1) as nat),
                blocks == pow2((n - 1 - l) as nat),
                r.len() == h,
                forall|t: int|
                    0 <= t < h ==> (#[trigger] r[t])@ == layer_twiddle_spec(
                        *domain,
                        n as int,
                        l as int,
                        t,
                    ),
            decreases blocks - h,
        {
            let idx = bit_reverse_index(h, n - 1 - l);
            r.push(c.at(idx).x);
            h = h + 1;
        }
    }
    r
}

/// The inverse twiddles of one layer: the field inverse (or zero) of each
/// forward twiddle.
fn layer_itwiddles(domain: &CircleDomain, l: u32, n: u32) -> (r: Vec<M31>)
    requires
        domain.wf(),
        n == domain.log_size_spec(),
        1 <= n <= 30,
        l < n,
    ensures
        r.len() == pow2((n - 1 - l) as nat),
        forall|h: int|
            0 <= h < r.len() ==> (#[trigger] r[h])@ == crate::m31::finv(
                layer_twiddle_spec(*domain, n as int, l as int, h),
            ),
{
    let twiddles = layer_twiddles(domain, l, n);
    let mut r: Vec<M31> = Vec::new();
    let mut h: usize = 0;
    let blocks = twiddles.len();
    while h < blocks
        invariant
            h <= blocks,
            blocks == twiddles.len(),
            domain.wf(),
            n == domain.log_size_spec(),
            1 <= n <= 30,
            l < n,
            forall|t: int|
                0 <= t < blocks ==> (#[trigger] twiddles[t])@ == layer_twiddle_spec(
                    *domain,
                    n as int,
                    l as int,
                    t,
                ),
            r.len() == h,
            forall|t: int|
                0 <= t < h ==> (#[trigger] r[t])@ == crate::m31::finv(
                    layer_twiddle_spec(*domain, n as int, l as int, t),
                ),
        decreases blocks - h,
    {
        r.push(twiddles[h].inverse());
        h = h + 1;
    }
    r
}

/// The views of a base-field vector.
pub open spec fn m31_views(s: Seq<M31>) -> Seq<int> {
    Seq::new(s.len(), |p: int| s[p]@)
}

/// The value at position `pos` after one forward butterfly layer of the
/// given stride: even half-blocks become `v + t*w`, odd half-blocks
/// `v - t*w`, with the block's twiddle `t`.
pub open spec fn butterfly_layer_spec(v: Seq<int>, tw: Seq<int>, stride: int, pos: int) -> int {
    if (pos / stride) % 2 == 0 {
        fadd(v[pos], fmul(tw[pos / (2 * stride)], v[pos + stride]))
    } else {
        fsub(v[pos - stride], fmul(tw[pos / (2 * stride)], v[pos]))
    }
}

/// The value at position `pos` after one inverse butterfly layer: even
/// half-blocks become the pair sum, odd half-blocks the pair difference
/// times the block's inverse twiddle.
pub open spec fn ibutterfly_layer_spec(v: Seq<int>, tw: Seq<int>, stride: int, pos: int) -> int {
    if (pos / stride) % 2 == 0 {
        fadd(v[pos], v[pos + stride])
    } else {
        fmul(fsub(v[pos - stride], v[pos]), tw[pos / (2 * stride)])
    }
}

/// Applies one layer of forward butterflies in place, block by block.
fn apply_butterfly_layer(v: &mut Vec<M31>, l: u32, n: u32, twiddles: &Vec<M31>)
    requires
        1 <= n <= 30,
        l < n,
        old(v).len() == pow2(n as nat),
        twiddles.len() == pow2((n - 1 - l) as nat),
    ensures
        final(v).len() == old(v).len(),
        forall|p: int|
            0 <= p < final(v).len() ==> (#[trigger] final(v)[p])@ == butterfly_layer_spec(
                m31_views(old(v)@),
                m31_views(twiddles@),
                pow2(l as nat) as int,
                p,
            ),
{
    let ghost v0 = v@;
    let stride = pow2_usize(l);
    proof {
        lemma_pow2_unfold((l + 1) as nat);
        lemma_pow2_adds((n - 1 - l) as nat, (l + 1) as nat);
        crate::utils::lemma_pow2_le31((l + 1) as nat);
    }
    let bs = 2 * stride;
    let blocks = twiddles.len();
    let mut h: usize = 0;
    let mut base: usize = 0;
    while h < blocks
        invariant
            h <= blocks,
            stride == pow2(l as nat),
            bs == 2 * stride,
            bs == pow2((l + 1) as nat),
            blocks == pow2((n - 1 - l) as nat),
            blocks == twiddles.len(),
            blocks * bs == pow2(n as nat),
            base == h * bs,
            v.len() == pow2(n as nat),
            v0.len() == v.len(),
            forall|p: int|
                0 <= p < base ==> (#[trigger] v@[p])@ == butterfly_layer_spec(
                    m31_views(v0),
                    m31_views(twiddles@),
                    stride as int,
                    p,
                ),
            forall|p: int| base <= p < v.len() ==> (#[trigger] v@[p]) == v0[p],
        decreases blocks - h,
    {
        proof {
            vstd::arithmetic::mul::lemma_mul_inequality(h + 1, blocks as int, bs as int);
            vstd::arithmetic::mul::lemma_mul_is_distributive_add_other_way(
                bs as int,
                h as int,
                1,
            );
        }
        let tw = twiddles[h];
        let mut k: usize = 0;
        while k < stride
            invariant
                k <= stride,
                h < blocks,
                stride == pow2(l as nat),
                bs == 2 * stride,
                base == h * bs,
                base + bs <= v.len(),
                blocks == twiddles.len(),
                v.len() == pow2(n as nat),
                v0.len() == v.len(),
                tw == twiddles[h as int],
                forall|p: int|
                    0 <= p < base ==> (#[trigger] v@[p])@ == butterfly_layer_spec(
                        m31_views(v0),
                        m31_views(twiddles@),
                        stride as int,
                        p,
                    ),
                forall|p: int|
                    base <= p < base + k ==> (#[trigger] v@[p])@ == butterfly_layer_spec(
                        m31_views(v0),
                        m31_views(twiddles@),
                        stride as int,
                        p,
                    ),
                forall|p: int| base + k <= p < base + stride ==> (#[trigger] v@[p]) == v0[p],
                forall|p: int|
                    base + stride <= p < base + stride + k ==> (#[trigger] v@[p])@ == butterfly_layer_spec(
                        m31_views(v0),
                        m31_views(twiddles@),
                        stride as int,
                        p,
                    ),
                forall|p: int| base + stride + k <= p < v.len() ==> (#[trigger] v@[p]) == v0[p],
            decreases stride - k,
        {
            let a = base + k;
            let b = base + k + stride;
            proof {
                vstd::arithmetic::mul::lemma_mul_is_associative(h as int, 2, stride as int);
                vstd::arithmetic::mul::lemma_mul_is_distributive_add_other_way(
                    stride as int,
                    2 * (h as int),
                    1,
                );
                vstd::arithmetic::div_mod::lemma_fundamental_div_mod_converse_div(
                    a as int,
                    stride as int,
                    2 * (h as int),
                    k as int,
                );
                vstd::arithmetic::div_mod::lemma_fundamental_div_mod_converse_div(
                    b as int,
                    stride as int,
                    2 * (h as int) + 1,
                    k as int,
                );
                vstd::arithmetic::div_mod::lemma_fundamental_div_mod_converse_div(
                    a as int,
                    bs as int,
                    h as int,
                    k as int,
                );
                vstd::arithmetic::div_mod::lemma_fundamental_div_mod_converse_div(
                    b as int,
                    bs as int,
                    h as int,
                    (k + stride) as int,
                );
            }
            let mut va = v[a];
            let mut vb = v[b];
            butterfly(&mut va, &mut vb, tw);
            v[a] = va;
            v[b] = vb;
            k = k + 1;
        }
        base = base + bs;
        h = h + 1;
    }
}

/// Applies one layer of inverse butterflies in place, block by block.
fn apply_ibutterfly_layer(v: &mut Vec<M31>, l: u32, n: u32, twiddles: &Vec<M31>)
    requires
        1 <= n <= 30,
        l < n,
        old(v).len() == pow2(n as nat),
        twiddles.len() == pow2((n - 1 - l) as nat),
    ensures
        final(v).len() == old(v).len(),
        forall|p: int|
            0 <= p < final(v).len() ==> (#[trigger] final(v)[p])@ == ibutterfly_layer_spec(
                m31_views(old(v)@),
                m31_views(twiddles@),
                pow2(l as nat) as int,
                p,
            ),
{
    let ghost v0 = v@;
    let stride = pow2_usize(l);
    proof {
        lemma_pow2_unfold((l + 1) as nat);
        lemma_pow2_adds((n - 1 - l) as nat, (l + 1) as nat);
        crate::utils::lemma_pow2_le31((l + 1) as nat);
    }
    let bs = 2 * stride;
    let blocks = twiddles.len();
    let mut h: usize = 0;
    let mut base: usize = 0;
    while h < blocks
        invariant
            h <= blocks,
            stride == pow2(l as nat),
            bs == 2 * stride,
            bs == pow2((l + 1) as nat),
            blocks == pow2((n - 1 - l) as nat),
            blocks == twiddles.len(),
            blocks * bs == pow2(n as nat),
            base == h * bs,
            v.len() == pow2(n as nat),
            v0.len() == v.len(),
            forall|p: int|
                0 <= p < base ==> (#[trigger] v@[p])@ == ibutterfly_layer_spec(
                    m31_views(v0),
                    m31_views(twiddles@),
                    stride as int,
                    p,
                ),
            forall|p: int| base <= p < v.len() ==> (#[trigger] v@[p]) == v0[p],
        decreases blocks - h,
    {
        proof {
            vstd::arithmetic::mul::lemma_mul_inequality(h + 1, blocks as int, bs as int);
            vstd::arithmetic::mul::lemma_mul_is_distributive_add_other_way(
                bs as int,
                h as int,
                1,
            );
        }
        let tw = twiddles[h];
        let mut k: usize = 0;
        while k < stride
            invariant
                k <= stride,
                h < blocks,
                stride == pow2(l as nat),
                bs == 2 * stride,
                base == h * bs,
                base + bs <= v.len(),
                blocks == twiddles.len(),
                v.len() == pow2(n as nat),
                v0.len() == v.len(),
                tw == twiddles[h as int],
                forall|p: int|
                    0 <= p < base ==> (#[trigger] v@[p])@ == ibutterfly_layer_spec(
                        m31_views(v0),
                        m31_views(twiddles@),
                        stride as int,
                        p,
                    ),
                forall|p: int|
                    base <= p < base + k ==> (#[trigger] v@[p])@ == ibutterfly_layer_spec(
                        m31_views(v0),
                        m31_views(twiddles@),
                        stride as int,
                        p,
                    ),
                forall|p: int| base + k <= p < base + stride ==> (#[trigger] v@[p]) == v0[p],
                forall|p: int|
                    base + stride <= p < base + stride + k ==> (#[trigger] v@[p])@ == ibutterfly_layer_spec(
                        m31_views(v0),
                        m31_views(twiddles@),
                        stride as int,
                        p,
                    ),
                forall|p: int| base + stride + k <= p < v.len() ==> (#[trigger] v@[p]) == v0[p],
            decreases stride - k,
        {
            let a = base + k;
            let b = base + k + stride;
            proof {
                vstd::arithmetic::mul::lemma_mul_is_associative(h as int, 2, stride as int);
                vstd::arithmetic::mul::lemma_mul_is_distributive_add_other_way(
                    stride as int,
                    2 * (h as int),
                    1,
                );
                vstd::arithmetic::div_mod::lemma_fundamental_div_mod_converse_div(
                    a as int,
                    stride as int,
                    2 * (h as int),
                    k as int,
                );
                vstd::arithmetic::div_mod::lemma_fundamental_div_mod_converse_div(
                    b as int,
                    stride as int,
                    2 * (h as int) + 1,
                    k as int,
                );
                vstd::arithmetic::div_mod::lemma_fundamental_div_mod_converse_div(
                    a as int,
                    bs as int,
                    h as int,
                    k as int,
                );
                vstd::arithmetic::div_mod::lemma_fundamental_div_mod_converse_div(
                    b as int,
                    bs as int,
                    h as int,
                    (k + stride) as int,
                );
            }
            let mut va = v[a];
            let mut vb = v[b];
            ibutterfly(&mut va, &mut vb, tw);
            v[a] = va;
            v[b] = vb;
            k = k + 1;
        }
        base = base + bs;
        h = h + 1;
    }
}

} // verus!
