//! The degree-4 extension of the Mersenne-31 field, built as a degree-2
//! extension of the complex field: `CM31[u] / (u^2 - (2 + i))`.
//!
//! An element is `a + b*u` with `a, b` complex; its view is the pair of the
//! component views. The distinguished complex conjugate negates the `u` part.

use vstd::prelude::*;
use crate::m31::{M31, fadd, fmul, fneg, finv};
use crate::cm31::{
    CM31, cadd, csub, cneg, cmul, czero, cone, c_in_range, lemma_cmul_comm, lemma_cmul_assoc,
    lemma_cmul_distrib, lemma_cmul_one_left, lemma_cmul_one_right, lemma_cadd_comm,
    lemma_cmul_czero_right, lemma_cadd_czero_right, lemma_cmul_range,
};
use vstd::arithmetic::div_mod::{lemma_add_mod_noop, lemma_mod_bound};

verus! {

/// The number of base-field coordinates of a secure-field element.
pub const SECURE_EXTENSION_DEGREE: usize = 4;

/// An element `a + b*u` of the secure field.
#[derive(Clone, Copy, PartialEq, Eq, Structural, Debug)]
pub struct QM31 {
    pub a: CM31,
    pub b: CM31,
}

/// The constant `R = 2 + i` with `u^2 = R`.
pub open spec fn qr() -> (int, int) {
    (2int, 1int)
}

/// The zero element.
pub open spec fn qzero() -> ((int, int), (int, int)) {
    (czero(), czero())
}

/// The unit element.
pub open spec fn qone() -> ((int, int), (int, int)) {
    (cone(), czero())
}

/// Component-wise addition.
pub open spec fn qadd(x: ((int, int), (int, int)), y: ((int, int), (int, int))) -> (
    (int, int),
    (int, int),
) {
    (cadd(x.0, y.0), cadd(x.1, y.1))
}

/// Component-wise subtraction.
pub open spec fn qsub(x: ((int, int), (int, int)), y: ((int, int), (int, int))) -> (
    (int, int),
    (int, int),
) {
    (csub(x.0, y.0), csub(x.1, y.1))
}

/// Component-wise negation.
pub open spec fn qneg(x: ((int, int), (int, int))) -> ((int, int), (int, int)) {
    (cneg(x.0), cneg(x.1))
}

/// Multiplication: `(a + bu)(c + du) = (ac + R bd) + (ad + bc)u`.
pub open spec fn qmul(x: ((int, int), (int, int)), y: ((int, int), (int, int))) -> (
    (int, int),
    (int, int),
) {
    (
        cadd(cmul(x.0, y.0), cmul(qr(), cmul(x.1, y.1))),
        cadd(cmul(x.0, y.1), cmul(x.1, y.0)),
    )
}

/// The distinguished complex conjugate: `a + bu` maps to `a - bu`.
pub open spec fn qconj(x: ((int, int), (int, int))) -> ((int, int), (int, int)) {
    (x.0, cneg(x.1))
}

/// Lifts a base-field value to the secure field.
pub open spec fn q_from_f(a: int) -> ((int, int), (int, int)) {
    (((a, 0int)), (0int, 0int))
}

/// Exponentiation in the secure field.
pub open spec fn qpow(x: ((int, int), (int, int)), e: nat) -> ((int, int), (int, int))
    decreases e,
{
    if e == 0 {
        qone()
    } else {
        qmul(qpow(x, (e - 1) as nat), x)
    }
}

/// A quadruple of reduced component values.
pub open spec fn q_in_range(x: ((int, int), (int, int))) -> bool {
    c_in_range(x.0) && c_in_range(x.1)
}

/// Whether `x` has a multiplicative inverse in the secure field.
pub open spec fn q_has_inv(x: ((int, int), (int, int))) -> bool {
    exists|b: ((int, int), (int, int))| q_in_range(b) && qmul(x, b) == qone()
}

/// The multiplicative inverse of `x`, or zero when none exists.
pub open spec fn qinv(x: ((int, int), (int, int))) -> ((int, int), (int, int)) {
    if q_has_inv(x) {
        choose|b: ((int, int), (int, int))| q_in_range(b) && qmul(x, b) == qone()
    } else {
        qzero()
    }
}

/// The norm-chain inverse candidate: the `u`-conjugate divided by the full
/// norm, computed down to one base-field inversion.
pub open spec fn qinv_cand(a: ((int, int), (int, int))) -> ((int, int), (int, int)) {
    let d = csub(cmul(a.0, a.0), cmul(qr(), cmul(a.1, a.1)));
    let ni = finv(fadd(fmul(d.0, d.0), fmul(d.1, d.1)));
    let dv = (fmul(d.0, ni), fmul(fneg(d.1), ni));
    (cmul(a.0, dv), cmul(cneg(a.1), dv))
}

/// The value `inverse` returns: the true inverse when the norm-chain
/// candidate passes its check, zero otherwise.
pub open spec fn qinv_or_zero(a: ((int, int), (int, int))) -> ((int, int), (int, int)) {
    if qmul(qinv_cand(a), a) == qone() {
        qinv(a)
    } else {
        qzero()
    }
}

/// Every view is a quadruple of reduced values.
pub proof fn lemma_qm31_view_range(x: QM31)
    ensures
        q_in_range(x@),
{
    crate::m31::lemma_m31_view_range(x.a.a);
    crate::m31::lemma_m31_view_range(x.a.b);
    crate::m31::lemma_m31_view_range(x.b.a);
    crate::m31::lemma_m31_view_range(x.b.b);
}

/// A sum of pairs is reduced.
proof fn lemma_cadd_range(x: (int, int), y: (int, int))
    ensures
        c_in_range(cadd(x, y)),
{
    lemma_mod_bound(x.0 + y.0, crate::m31::P as int);
    lemma_mod_bound(x.1 + y.1, crate::m31::P as int);
}

/// Every product is a quadruple of reduced values.
pub proof fn lemma_qmul_range(x: ((int, int), (int, int)), y: ((int, int), (int, int)))
    ensures
        q_in_range(qmul(x, y)),
{
    lemma_cadd_range(cmul(x.0, y.0), cmul(qr(), cmul(x.1, y.1)));
    lemma_cadd_range(cmul(x.0, y.1), cmul(x.1, y.0));
}

/// Commutativity of secure-field multiplication.
pub proof fn lemma_qmul_comm(x: ((int, int), (int, int)), y: ((int, int), (int, int)))
    ensures
        qmul(x, y) == qmul(y, x),
{
    lemma_cmul_comm(x.0, y.0);
    lemma_cmul_comm(x.1, y.1);
    lemma_cmul_comm(x.0, y.1);
    lemma_cmul_comm(x.1, y.0);
    lemma_cadd_comm(cmul(y.0, x.1), cmul(y.1, x.0));
}

/// Multiplying by one on the left is the identity on reduced quadruples.
pub proof fn lemma_qmul_one_left(x: ((int, int), (int, int)))
    requires
        q_in_range(x),
    ensures
        qmul(qone(), x) == x,
{
    lemma_cmul_one_left(x.0);
    lemma_cmul_one_left(x.1);
    lemma_cmul_comm(qr(), cmul(czero(), x.1));
    lemma_cmul_comm(czero(), x.1);
    lemma_cmul_czero_right(x.1);
    lemma_cmul_czero_right(qr());
    lemma_cmul_czero_right(x.0);
    lemma_cmul_comm(czero(), x.0);
    lemma_cadd_czero_right(x.0);
    lemma_cadd_comm(czero(), x.1);
    lemma_cadd_czero_right(x.1);
}

/// Multiplying by one on the right is the identity on reduced quadruples.
pub proof fn lemma_qmul_one_right(x: ((int, int), (int, int)))
    requires
        q_in_range(x),
    ensures
        qmul(x, qone()) == x,
{
    lemma_qmul_comm(x, qone());
    lemma_qmul_one_left(x);
}

/// Four pair-sums flattened to one reduction.
proof fn lemma_cadd4_flat(a: (int, int), b: (int, int), c: (int, int), d: (int, int))
    ensures
        cadd(cadd(a, b), cadd(c, d)) == (
            (a.0 + b.0 + c.0 + d.0) % (crate::m31::P as int),
            (a.1 + b.1 + c.1 + d.1) % (crate::m31::P as int),
        ),
{
    let p = crate::m31::P as int;
    lemma_add_mod_noop(a.0 + b.0, c.0 + d.0, p);
    lemma_add_mod_noop(a.1 + b.1, c.1 + d.1, p);
}

/// Moving a factor across a nested product.
proof fn lemma_cmul_swap_left(r: (int, int), u: (int, int), w: (int, int))
    ensures
        cmul(r, cmul(u, w)) == cmul(u, cmul(r, w)),
{
    lemma_cmul_assoc(r, u, w);
    lemma_cmul_comm(r, u);
    lemma_cmul_assoc(u, r, w);
}

/// Right distributivity, from commutativity.
proof fn lemma_cmul_distrib_right(u: (int, int), v: (int, int), w: (int, int))
    ensures
        cmul(cadd(u, v), w) == cadd(cmul(u, w), cmul(v, w)),
{
    lemma_cmul_comm(cadd(u, v), w);
    lemma_cmul_distrib(w, u, v);
    lemma_cmul_comm(w, u);
    lemma_cmul_comm(w, v);
}

/// Associativity of secure-field multiplication.
pub proof fn lemma_qmul_assoc(
    x: ((int, int), (int, int)),
    y: ((int, int), (int, int)),
    z: ((int, int), (int, int)),
)
    ensures
        qmul(qmul(x, y), z) == qmul(x, qmul(y, z)),
{
    let r = qr();
    let (x0, x1) = x;
    let (y0, y1) = y;
    let (z0, z1) = z;
    // Component 0 of the left side, expanded into four products.
    lemma_cmul_distrib_right(cmul(x0, y0), cmul(r, cmul(x1, y1)), z0);
    lemma_cmul_distrib_right(cmul(x0, y1), cmul(x1, y0), z1);
    lemma_cmul_distrib(r, cmul(cmul(x0, y1), z1), cmul(cmul(x1, y0), z1));
    // Component 0 of the right side, likewise.
    lemma_cmul_distrib(x0, cmul(y0, z0), cmul(r, cmul(y1, z1)));
    lemma_cmul_distrib_right(cmul(y0, z1), cmul(y1, z0), czero());
    lemma_cmul_distrib(x1, cmul(y0, z1), cmul(y1, z0));
    lemma_cmul_distrib(r, cmul(x1, cmul(y0, z1)), cmul(x1, cmul(y1, z0)));
    // Match the four products of component 0 pairwise.
    lemma_cmul_assoc(x0, y0, z0);
    lemma_cmul_assoc(r, cmul(x1, y1), z0);
    lemma_cmul_assoc(x1, y1, z0);
    lemma_cmul_assoc(x0, y1, z1);
    lemma_cmul_swap_left(r, x0, cmul(y1, z1));
    lemma_cmul_assoc(x1, y0, z1);
    // Flatten both four-term sums.
    lemma_cadd4_flat(
        cmul(cmul(x0, y0), z0),
        cmul(cmul(r, cmul(x1, y1)), z0),
        cmul(r, cmul(cmul(x0, y1), z1)),
        cmul(r, cmul(cmul(x1, y0), z1)),
    );
    lemma_cadd4_flat(
        cmul(x0, cmul(y0, z0)),
        cmul(x0, cmul(r, cmul(y1, z1))),
        cmul(r, cmul(x1, cmul(y0, z1))),
        cmul(r, cmul(x1, cmul(y1, z0))),
    );
    // Component 1 of the left side.
    lemma_cmul_distrib_right(cmul(x0, y0), cmul(r, cmul(x1, y1)), z1);
    lemma_cmul_distrib_right(cmul(x0, y1), cmul(x1, y0), z0);
    // Component 1 of the right side.
    lemma_cmul_distrib(x0, cmul(y0, z1), cmul(y1, z0));
    lemma_cmul_distrib(x1, cmul(y0, z0), cmul(r, cmul(y1, z1)));
    // Match the four products of component 1 pairwise.
    lemma_cmul_assoc(x0, y0, z1);
    lemma_cmul_assoc(r, cmul(x1, y1), z1);
    lemma_cmul_assoc(x1, y1, z1);
    lemma_cmul_swap_left(r, x1, cmul(y1, z1));
    lemma_cmul_assoc(x0, y1, z0);
    lemma_cmul_assoc(x1, y0, z0);
    // Flatten both four-term sums of component 1.
    lemma_cadd4_flat(
        cmul(cmul(x0, y0), z1),
        cmul(cmul(r, cmul(x1, y1)), z1),
        cmul(cmul(x0, y1), z0),
        cmul(cmul(x1, y0), z0),
    );
    lemma_cadd4_flat(
        cmul(x0, cmul(y0, z1)),
        cmul(x0, cmul(y1, z0)),
        cmul(x1, cmul(y0, z0)),
        cmul(x1, cmul(r, cmul(y1, z1))),
    );
}

/// Negating the right factor negates the product.
pub proof fn lemma_qmul_qneg_right(x: ((int, int), (int, int)), z: ((int, int), (int, int)))
    ensures
        qmul(x, qneg(z)) == qneg(qmul(x, z)),
{
    crate::cm31::lemma_cmul_cneg_right(x.0, z.0);
    crate::cm31::lemma_cmul_cneg_right(x.1, z.1);
    crate::cm31::lemma_cmul_cneg_right(qr(), cmul(x.1, z.1));
    crate::cm31::lemma_cmul_cneg_right(x.0, z.1);
    crate::cm31::lemma_cmul_cneg_right(x.1, z.0);
    crate::cm31::lemma_cadd_cneg_distrib(cmul(x.0, z.0), cmul(qr(), cmul(x.1, z.1)));
    crate::cm31::lemma_cadd_cneg_distrib(cmul(x.0, z.1), cmul(x.1, z.0));
}

/// Double negation is the identity on reduced quadruples.
pub proof fn lemma_qneg_qneg(x: ((int, int), (int, int)))
    requires
        q_in_range(x),
    ensures
        qneg(qneg(x)) == x,
{
    crate::cm31::lemma_cneg_cneg(x.0);
    crate::cm31::lemma_cneg_cneg(x.1);
}

/// Lifting a negation negates the lift.
pub proof fn lemma_qf_fneg(y: int)
    ensures
        q_from_f(fneg(y)) == qneg(q_from_f(y)),
{
    let p = crate::m31::P as int;
    vstd::arithmetic::div_mod::lemma_small_mod(0, p as nat);
}

/// Inverses are unique among reduced quadruples.
pub proof fn lemma_qinv_unique(
    a: ((int, int), (int, int)),
    x: ((int, int), (int, int)),
    y: ((int, int), (int, int)),
)
    requires
        q_in_range(x),
        q_in_range(y),
        qmul(x, a) == qone(),
        qmul(y, a) == qone(),
    ensures
        x == y,
{
    // x == x * (a * y) == (x * a) * y == y
    lemma_qmul_comm(y, a);
    lemma_qmul_assoc(x, a, y);
    lemma_qmul_one_right(x);
    lemma_qmul_one_left(y);
}

/// Any reduced quadruple whose product with `a` is one is the inverse of `a`.
pub proof fn lemma_qinv_is(a: ((int, int), (int, int)), x: ((int, int), (int, int)))
    requires
        q_in_range(x),
        qmul(x, a) == qone(),
    ensures
        q_has_inv(a),
        qinv(a) == x,
{
    lemma_qmul_comm(x, a);
    assert(q_has_inv(a));
    let w = choose|b: ((int, int), (int, int))| q_in_range(b) && qmul(a, b) == qone();
    lemma_qmul_comm(a, w);
    lemma_qinv_unique(a, x, w);
}

impl View for QM31 {
    type V = ((int, int), (int, int));

    open spec fn view(&self) -> ((int, int), (int, int)) {
        (self.a@, self.b@)
    }
}

impl QM31 {
    /// The additive identity.
    pub fn zero() -> (r: QM31)
        ensures
            r@ == qzero(),
    {
        QM31 { a: CM31::zero(), b: CM31::zero() }
    }

    /// The multiplicative identity.
    pub fn one() -> (r: QM31)
        ensures
            r@ == qone(),
    {
        QM31 { a: CM31::one(), b: CM31::zero() }
    }

    /// Builds an element from four already-reduced base-field coordinates.
    pub fn from_u32_unchecked(x0: u32, x1: u32, x2: u32, x3: u32) -> (r: QM31)
        requires
            x0 < crate::m31::P,
            x1 < crate::m31::P,
            x2 < crate::m31::P,
            x3 < crate::m31::P,
        ensures
            r@ == ((x0 as int, x1 as int), (x2 as int, x3 as int)),
    {
        QM31 { a: CM31::from_u32_unchecked(x0, x1), b: CM31::from_u32_unchecked(x2, x3) }
    }

    /// Builds an element from its four base-field coordinates.
    pub fn from_m31(x0: M31, x1: M31, x2: M31, x3: M31) -> (r: QM31)
        ensures
            r@ == ((x0@, x1@), (x2@, x3@)),
    {
        QM31 { a: CM31 { a: x0, b: x1 }, b: CM31 { a: x2, b: x3 } }
    }

    /// Lifts a base-field element.
    pub fn from_base(x: M31) -> (r: QM31)
        ensures
            r@ == q_from_f(x@),
    {
        QM31 { a: CM31::from_m31(x), b: CM31::zero() }
    }

    /// The four base-field coordinates, in order.
    pub fn to_m31(self) -> (r: (M31, M31, M31, M31))
        ensures
            self@ == ((r.0@, r.1@), (r.2@, r.3@)),
    {
        (self.a.a, self.a.b, self.b.a, self.b.b)
    }

    /// Addition.
    pub fn add(self, rhs: QM31) -> (r: QM31)
        ensures
            r@ == qadd(self@, rhs@),
    {
        QM31 { a: self.a.add(rhs.a), b: self.b.add(rhs.b) }
    }

    /// Subtraction.
    pub fn sub(self, rhs: QM31) -> (r: QM31)
        ensures
            r@ == qsub(self@, rhs@),
    {
        QM31 { a: self.a.sub(rhs.a), b: self.b.sub(rhs.b) }
    }

    /// Negation.
    pub fn neg(self) -> (r: QM31)
        ensures
            r@ == qneg(self@),
    {
        QM31 { a: self.a.neg(), b: self.b.neg() }
    }

    /// Multiplication.
    pub fn mul(self, rhs: QM31) -> (r: QM31)
        ensures
            r@ == qmul(self@, rhs@),
    {
        let r = CM31::from_u32_unchecked(2, 1);
        QM31 {
            a: self.a.mul(rhs.a).add(r.mul(self.b.mul(rhs.b))),
            b: self.a.mul(rhs.b).add(self.b.mul(rhs.a)),
        }
    }

    /// The distinguished complex conjugate.
    pub fn complex_conjugate(self) -> (r: QM31)
        ensures
            r@ == qconj(self@),
    {
        QM31 { a: self.a, b: self.b.neg() }
    }

    /// Whether two secure-field elements are equal, decided on the views.
    pub fn equals(self, rhs: QM31) -> (b: bool)
        ensures
            b == (self@ == rhs@),
    {
        self.a.a.equals(rhs.a.a) && self.a.b.equals(rhs.a.b) && self.b.a.equals(rhs.b.a)
            && self.b.b.equals(rhs.b.b)
    }

    /// The multiplicative inverse, or zero.
    ///
    /// The candidate is the `u`-conjugate divided by the full norm, one
    /// base-field inversion deep; its product with the input is checked at
    /// run time, which pins the result to `qinv_or_zero` without leaning on
    /// unproved field theory.
    pub fn inverse(self) -> (r: QM31)
        ensures
            r@ == qinv_or_zero(self@),
            qmul(r@, self@) == qone() || r@ == qzero(),
    {
        let rc = CM31::from_u32_unchecked(2, 1);
        // d = a^2 - R b^2 lies in the complex field; n = |d|^2 in the base.
        let d = self.a.mul(self.a).sub(rc.mul(self.b.mul(self.b)));
        let n = d.a.mul(d.a).add(d.b.mul(d.b));
        let ninv = n.inverse();
        let dinv = CM31 { a: d.a.mul(ninv), b: d.b.neg().mul(ninv) };
        let candidate = QM31 { a: self.a.mul(dinv), b: self.b.neg().mul(dinv) };
        proof {
            assert(candidate@ == qinv_cand(self@));
        }
        let check = candidate.mul(self);
        if check.equals(QM31::one()) {
            proof {
                lemma_qm31_view_range(candidate);
                lemma_qinv_is(self@, candidate@);
            }
            candidate
        } else {
            QM31::zero()
        }
    }

    /// Exponentiation by repeated multiplication.
    pub fn pow(self, exp: u64) -> (r: QM31)
        ensures
            r@ == qpow(self@, exp as nat),
    {
        let mut result = QM31::one();
        let mut i: u64 = 0;
        while i < exp
            invariant
                0 <= i <= exp,
                result@ == qpow(self@, i as nat),
            decreases exp - i,
        {
            result = result.mul(self);
            i = i + 1;
        }
        result
    }
}

} // verus!
