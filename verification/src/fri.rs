//! The degree-respecting projection and batch inversion.
//!
//! `apply_drp` folds bit-reversed evaluations of a polynomial over a line
//! domain into bit-reversed evaluations of `2*f_e + alpha*2*f_o` over the
//! halved domain, one inverse butterfly per adjacent pair.

use vstd::prelude::*;
use crate::m31::{M31, fadd, fsub, fmul, f_has_inv, lemma_fmul_assoc, lemma_fmul_comm};
use crate::circle::{Coset, CirclePointIndex};
use crate::line::{LineDomain, bit_reversed_element_spec};
use crate::utils::{bit_rev, log_of};
use crate::fft::ibutterfly;
use vstd::arithmetic::power2::pow2;
use vstd::arithmetic::div_mod::{lemma_small_mod, lemma_mul_mod_noop_general};

verus! {

/// The line domain that `apply_drp` reconstructs for an input of length `n`:
/// the half-odds coset of log size `log_of(n)`.
pub open spec fn drp_domain(n: int) -> LineDomain {
    LineDomain {
        coset: Coset {
            initial_index: CirclePointIndex { idx: pow2((29 - log_of(n)) as nat) as u32 },
            log_size: log_of(n) as u32,
        },
    }
}

/// The running product of the views of the first `k` entries.
pub open spec fn prefix_prod(s: Seq<M31>, k: int) -> int
    decreases k,
{
    if k <= 0 {
        1
    } else {
        fmul(prefix_prod(s, k - 1), s[k - 1]@)
    }
}

/// Rearranging a product of four factors.
proof fn lemma_fmul_shuffle(a: int, b: int, c: int, d: int)
    ensures
        fmul(fmul(a, b), fmul(c, d)) == fmul(fmul(a, c), fmul(b, d)),
{
    let p = crate::m31::P as int;
    lemma_mul_mod_noop_general(a * b, c * d, p);
    lemma_mul_mod_noop_general(a * c, b * d, p);
    assert((a * b) * (c * d) == (a * c) * (b * d)) by {
        broadcast use vstd::arithmetic::mul::group_mul_properties;

        vstd::arithmetic::mul::lemma_mul_is_associative(a, b, c * d);
        vstd::arithmetic::mul::lemma_mul_is_associative(b, c, d);
        vstd::arithmetic::mul::lemma_mul_is_associative(c, b, d);
        vstd::arithmetic::mul::lemma_mul_is_associative(a, c, b * d);
    }
}

/// A product of two invertible values is invertible.
pub proof fn lemma_has_inv_mul(a: int, b: int)
    requires
        f_has_inv(a),
        f_has_inv(b),
    ensures
        f_has_inv(fmul(a, b)),
{
    let wa = choose|w: int| 0 <= w < crate::m31::P && fmul(a, w) == 1;
    let wb = choose|w: int| 0 <= w < crate::m31::P && fmul(b, w) == 1;
    lemma_fmul_shuffle(a, b, wa, wb);
    assert(fmul(fmul(a, b), fmul(wa, wb)) == fmul(1, 1));
    assert(fmul(1int, 1int) == 1) by {
        lemma_small_mod(1, crate::m31::P as nat);
    }
    vstd::arithmetic::div_mod::lemma_mod_bound(wa * wb, crate::m31::P as int);
}

/// A prefix product of invertible values is invertible.
pub proof fn lemma_prefix_prod_has_inv(s: Seq<M31>, k: int)
    requires
        forall|i: int| 0 <= i < k ==> f_has_inv(s[i]@),
    ensures
        f_has_inv(prefix_prod(s, k)),
    decreases k,
{
    if k <= 0 {
        lemma_small_mod(1, crate::m31::P as nat);
        assert(fmul(1int, 1int) == 1);
        assert(f_has_inv(1int));
    } else {
        lemma_prefix_prod_has_inv(s, k - 1);
        lemma_has_inv_mul(prefix_prod(s, k - 1), s[k - 1]@);
    }
}

/// Law: the product of the inputs of a batch inversion times the product of
/// its outputs is one.
pub proof fn lemma_batch_inverse_product(v: Seq<M31>, r: Seq<M31>, n: int)
    requires
        r.len() == v.len(),
        0 <= n <= v.len(),
        forall|i: int| 0 <= i < v.len() ==> fmul((#[trigger] r[i])@, v[i]@) == 1,
    ensures
        fmul(prefix_prod(v, n), prefix_prod(r, n)) == 1,
    decreases n,
{
    lemma_small_mod(1, crate::m31::P as nat);
    if n > 0 {
        lemma_batch_inverse_product(v, r, n - 1);
        lemma_fmul_shuffle(prefix_prod(v, n - 1), v[n - 1]@, prefix_prod(r, n - 1), r[n - 1]@);
        lemma_fmul_comm(r[n - 1]@, v[n - 1]@);
        assert(fmul(prefix_prod(v, n), prefix_prod(r, n)) == fmul(
            fmul(prefix_prod(v, n - 1), prefix_prod(r, n - 1)),
            fmul(v[n - 1]@, r[n - 1]@),
        ));
    }
}

/// Law: one projection step recovers twice the even part plus the folding
/// coefficient times twice the odd part. With `w0 = e + d*o` and
/// `w1 = e - d*o` the butterfly values of an even/odd pair against the domain
/// element `d`, folding them with the inverse of `d` yields
/// `2*(e + alpha*o)`.
pub proof fn lemma_drp_recovers_even_odd(e: int, o: int, d: int, dinv: int, alpha: int)
    requires
        0 <= e < crate::m31::P,
        0 <= o < crate::m31::P,
        fmul(dinv, d) == 1,
    ensures
        fadd(
            fadd(fadd(e, fmul(d, o)), fsub(e, fmul(d, o))),
            fmul(
                alpha,
                fmul(fsub(fadd(e, fmul(d, o)), fsub(e, fmul(d, o))), dinv),
            ),
        ) == fmul(2, fadd(e, fmul(alpha, o))),
{
    let p = crate::m31::P as int;
    let t = fmul(d, o);
    let w0 = fadd(e, t);
    let w1 = fsub(e, t);
    // The sum of the pair is twice the even part.
    assert(fadd(w0, w1) == fmul(2, e)) by {
        vstd::arithmetic::div_mod::lemma_add_mod_noop(e + t, e - t, p);
    }
    // The difference is twice the odd part times the domain element.
    assert(fsub(w0, w1) == fmul(2, t)) by {
        vstd::arithmetic::div_mod::lemma_sub_mod_noop(e + t, e - t, p);
    }
    // Multiplying by the inverse cancels the domain element.
    assert(fmul(fmul(2, t), dinv) == fmul(2, o)) by {
        lemma_fmul_assoc(2, t, dinv);
        // t * dinv == o
        lemma_fmul_assoc(d, o, dinv);
        lemma_fmul_comm(o, dinv);
        lemma_fmul_assoc(d, dinv, o);
        lemma_fmul_comm(d, dinv);
        crate::m31::lemma_fmul_one_left(o);
        assert(fmul(t, dinv) == fmul(fmul(dinv, d), o));
    }
    // alpha * (2*o) == 2 * (alpha*o), and distribute the 2.
    assert(fmul(alpha, fmul(2, o)) == fmul(2, fmul(alpha, o))) by {
        lemma_fmul_assoc(alpha, 2, o);
        lemma_fmul_comm(alpha, 2);
        lemma_fmul_assoc(2, alpha, o);
    }
    crate::m31::lemma_fmul_fadd_distrib(2, e, fmul(alpha, o));
    assert(fadd(fmul(2, e), fmul(2, fmul(alpha, o))) == fmul(2, fadd(e, fmul(alpha, o)))) by {
        crate::m31::lemma_fadd_noop(2 * e % p, 2 * (fmul(alpha, o)) % p);
        crate::m31::lemma_fadd_noop(2 * e, 2 * fmul(alpha, o));
    }
}

/// Law: the projection inverts one evaluation layer. For any line
/// polynomial, pairing the two butterfly values that `evaluate` stores for an
/// even/odd coefficient pair and folding them as `apply_drp` does against the
/// inverse of the domain element recovers `2 * (even + alpha * odd)` — the
/// bit-reversed evaluation of `2*f_e + alpha*2*f_o` over the halved domain.
pub proof fn lemma_drp_inverts_line_eval(coeffs: Seq<M31>, d: int, alpha: int, i: int)
    requires
        coeffs.len() % 2 == 0,
        0 <= i < coeffs.len() / 2,
        f_has_inv(d),
    ensures
        fadd(
            fadd(
                crate::line::line_eval_value(coeffs, d, 2 * i),
                crate::line::line_eval_value(coeffs, d, 2 * i + 1),
            ),
            fmul(
                alpha,
                fmul(
                    fsub(
                        crate::line::line_eval_value(coeffs, d, 2 * i),
                        crate::line::line_eval_value(coeffs, d, 2 * i + 1),
                    ),
                    crate::m31::finv(d),
                ),
            ),
        ) == fmul(2, fadd(coeffs[i]@, fmul(alpha, coeffs[coeffs.len() / 2 + i]@))),
{
    let e = coeffs[i]@;
    let o = coeffs[coeffs.len() / 2 + i]@;
    crate::m31::lemma_m31_view_range(coeffs[i]);
    crate::m31::lemma_m31_view_range(coeffs[coeffs.len() / 2 + i]);
    let w = choose|b: int| 0 <= b < crate::m31::P && fmul(d, b) == 1;
    lemma_fmul_comm(d, w);
    crate::m31::lemma_finv_is(d, w);
    assert((2 * i) / 2 == i && (2 * i + 1) / 2 == i);
    assert((2 * i) % 2 == 0 && (2 * i + 1) % 2 == 1);
    lemma_drp_recovers_even_odd(e, o, d, crate::m31::finv(d), alpha);
}

/// Inverts every entry with Montgomery's trick: one field inversion and
/// `3(n-1)` multiplications.
pub fn batch_inverse(v: &Vec<M31>) -> (r: Vec<M31>)
    ensures
        r.len() == v.len(),
        (forall|i: int| 0 <= i < v.len() ==> f_has_inv(v[i]@)) ==> forall|i: int|
            0 <= i < v.len() ==> fmul(r[i]@, v[i]@) == 1,
{
    let n = v.len();
    let ghost all_inv = forall|i: int| 0 <= i < v.len() ==> f_has_inv(v[i]@);
    // Running prefix products: `prods[i]` holds the product of `v[..i]`.
    let mut prods: Vec<M31> = Vec::new();
    let mut acc = M31::one();
    let mut i: usize = 0;
    while i < n
        invariant
            i <= n,
            n == v.len(),
            prods.len() == i,
            acc@ == prefix_prod(v@, i as int),
            forall|j: int| 0 <= j < i ==> (#[trigger] prods[j])@ == prefix_prod(v@, j),
        decreases n - i,
    {
        prods.push(acc);
        acc = acc.mul(v[i]);
        i = i + 1;
    }
    // One inversion of the total product.
    let mut acc_inv = acc.inverse();
    proof {
        if all_inv {
            lemma_prefix_prod_has_inv(v@, n as int);
            lemma_fmul_comm(acc@, acc_inv@);
        }
    }
    // Walk back, turning each prefix into the matching inverse.
    let mut r: Vec<M31> = Vec::new();
    let mut k: usize = 0;
    while k < n
        invariant
            k <= n,
            n == v.len(),
            r.len() == k,
        decreases n - k,
    {
        r.push(v[k]);
        k = k + 1;
    }
    let mut t = n;
    while t > 0
        invariant
            t <= n,
            n == v.len(),
            r.len() == n,
            prods.len() == n,
            forall|j: int| 0 <= j < n ==> (#[trigger] prods[j])@ == prefix_prod(v@, j),
            all_inv == (forall|i2: int| 0 <= i2 < v.len() ==> f_has_inv(v[i2]@)),
            all_inv ==> fmul(acc_inv@, prefix_prod(v@, t as int)) == 1,
            forall|j: int|
                t <= j < n ==> all_inv ==> fmul((#[trigger] r[j])@, v[j]@) == 1,
        decreases t,
    {
        t = t - 1;
        let out = acc_inv.mul(prods[t]);
        proof {
            if all_inv {
                lemma_fmul_assoc(acc_inv@, prefix_prod(v@, t as int), v[t as int]@);
                lemma_fmul_assoc(v[t as int]@, acc_inv@, prefix_prod(v@, t as int));
                lemma_fmul_comm(v[t as int]@, acc_inv@);
                lemma_fmul_comm(prefix_prod(v@, t as int), v[t as int]@);
                lemma_fmul_assoc(acc_inv@, v[t as int]@, prefix_prod(v@, t as int));
            }
        }
        let next = v[t].mul(acc_inv);
        r[t] = out;
        acc_inv = next;
    }
    r
}

/// Computes the first half of the domain elements in bit-reversed order:
/// entry `i` is the `x`-coordinate of the coset point at natural index
/// `bit_rev(i, log_size - 1)`.
pub fn bit_reversed_domain_elements(domain: &LineDomain) -> (r: Vec<M31>)
    requires
        domain.wf(),
        1 <= domain.coset.log_size <= 31,
    ensures
        r.len() == pow2((domain.coset.log_size - 1) as nat),
        forall|i: int|
            0 <= i < r.len() ==> (#[trigger] r[i])@ == bit_reversed_element_spec(*domain, i),
{
    let logn = domain.log_size() - 1;
    let n = crate::utils::pow2_usize(logn);
    let mut r: Vec<M31> = Vec::new();
    let mut i: usize = 0;
    while i < n
        invariant
            i <= n,
            domain.wf(),
            1 <= domain.coset.log_size <= 31,
            logn == domain.coset.log_size - 1,
            n == pow2(logn as nat),
            r.len() == i,
            forall|j: int|
                0 <= j < i ==> (#[trigger] r[j])@ == bit_reversed_element_spec(*domain, j),
        decreases n - i,
    {
        let idx = crate::utils::bit_reverse_index(i, logn);
        r.push(domain.coset.at(idx).x);
        i = i + 1;
    }
    r
}

/// Performs a degree-respecting projection on bit-reversed evaluations over a
/// line domain: each adjacent pair `(f(x), f(-x))` folds to
/// `(f(x) + f(-x)) + alpha * (f(x) - f(-x)) / x`.
pub fn apply_drp(evals: &Vec<M31>, alpha: M31) -> (r: Vec<M31>)
    requires
        exists|k: nat| 1 <= k <= 29 && pow2(k) == evals.len(),
    ensures
        r.len() == evals.len() / 2,
        (forall|i: int|
            0 <= i < evals.len() / 2 ==> f_has_inv(
                bit_reversed_element_spec(drp_domain(evals.len() as int), i),
            )) ==> forall|i: int|
            0 <= i < evals.len() / 2 ==> (#[trigger] r[i])@ == fadd(
                fadd(evals[2 * i]@, evals[2 * i + 1]@),
                fmul(
                    alpha@,
                    fmul(
                        fsub(evals[2 * i]@, evals[2 * i + 1]@),
                        crate::m31::finv(
                            bit_reversed_element_spec(drp_domain(evals.len() as int), i),
                        ),
                    ),
                ),
            ),
    {
    let n = evals.len();
    let log = crate::utils::ilog2_exact(n);
    proof {
        let k = choose|k: nat| 1 <= k <= 29 && pow2(k) == n;
        crate::utils::lemma_log_of(n as int, k);
        vstd::arithmetic::power2::lemma_pow2_unfold(log as nat);
    }
    let domain = LineDomain::new(Coset::half_odds(log));
    proof {
        crate::utils::lemma_pow2_le31((29 - log) as nat);
        lemma_small_mod(pow2((29 - log) as nat), crate::circle::CIRCLE_ORDER as nat);
        assert(domain == drp_domain(n as int));
    }
    let domain_elements = bit_reversed_domain_elements(&domain);
    let domain_elements_inv = batch_inverse(&domain_elements);
    let half = n / 2;
    let ghost all_inv = forall|i: int|
        0 <= i < half ==> f_has_inv(bit_reversed_element_spec(drp_domain(n as int), i));
    let mut r: Vec<M31> = Vec::new();
    let mut i: usize = 0;
    while i < half
        invariant
            i <= half,
            half == n / 2,
            n == evals.len(),
            n == 2 * half,
            domain == drp_domain(n as int),
            domain_elements.len() == half,
            domain_elements_inv.len() == half,
            forall|j: int|
                0 <= j < half ==> (#[trigger] domain_elements[j])@ == bit_reversed_element_spec(
                    drp_domain(n as int),
                    j,
                ),
            (forall|j: int|
                0 <= j < domain_elements.len() ==> f_has_inv(domain_elements[j]@)) ==> forall|
                j: int,
            |
                0 <= j < half ==> fmul((#[trigger] domain_elements_inv[j])@, domain_elements[j]@)
                    == 1,
            r.len() == i,
            forall|j: int|
                0 <= j < i ==> (#[trigger] r[j])@ == fadd(
                    fadd(evals[2 * j]@, evals[2 * j + 1]@),
                    fmul(
                        alpha@,
                        fmul(
                            fsub(evals[2 * j]@, evals[2 * j + 1]@),
                            domain_elements_inv[j]@,
                        ),
                    ),
                ),
        decreases half - i,
    {
        let mut f_x = evals[2 * i];
        let mut f_neg_x = evals[2 * i + 1];
        ibutterfly(&mut f_x, &mut f_neg_x, domain_elements_inv[i]);
        r.push(f_x.add(alpha.mul(f_neg_x)));
        proof {
            lemma_fmul_comm(
                fsub(evals[2 * i as int]@, evals[2 * i as int + 1]@),
                domain_elements_inv[i as int]@,
            );
        }
        i = i + 1;
    }
    proof {
        if all_inv {
            assert(forall|j: int|
                0 <= j < domain_elements.len() ==> f_has_inv((#[trigger] domain_elements[j])@));
            assert forall|j: int| 0 <= j < half implies crate::m31::finv(
                bit_reversed_element_spec(drp_domain(n as int), j),
            ) == (#[trigger] domain_elements_inv[j])@ by {
                crate::m31::lemma_m31_view_range(domain_elements_inv[j]);
                crate::m31::lemma_finv_is(domain_elements[j]@, domain_elements_inv[j]@);
            }
        }
    }
    r
}

} // verus!
