//! The degree-2 extension of the Mersenne-31 field, `F[i] / (i^2 + 1)`.
//!
//! An element is `a + b*i`; the view of a value is the pair of component
//! views, and every operation is specified component by component.

use vstd::prelude::*;
use crate::m31::{M31, fadd, fsub, fmul, fneg};
use vstd::arithmetic::div_mod::{
    lemma_small_mod, lemma_add_mod_noop, lemma_sub_mod_noop, lemma_mul_mod_noop_general,
    lemma_mod_bound, lemma_add_mod_noop_right,
};

verus! {

/// An element `a + b*i` of the complex extension of the base field.
#[derive(Clone, Copy, PartialEq, Eq, Structural, Debug)]
pub struct CM31 {
    pub a: M31,
    pub b: M31,
}

/// The zero element, as a pair of component values.
pub open spec fn czero() -> (int, int) {
    (0int, 0int)
}

/// The unit element, as a pair of component values.
pub open spec fn cone() -> (int, int) {
    (1int, 0int)
}

/// Component-wise addition.
pub open spec fn cadd(x: (int, int), y: (int, int)) -> (int, int) {
    (fadd(x.0, y.0), fadd(x.1, y.1))
}

/// Component-wise subtraction.
pub open spec fn csub(x: (int, int), y: (int, int)) -> (int, int) {
    (fsub(x.0, y.0), fsub(x.1, y.1))
}

/// Component-wise negation.
pub open spec fn cneg(x: (int, int)) -> (int, int) {
    (fneg(x.0), fneg(x.1))
}

/// Complex multiplication: `(a + bi)(c + di) = (ac - bd) + (ad + bc)i`.
pub open spec fn cmul(x: (int, int), y: (int, int)) -> (int, int) {
    (fsub(fmul(x.0, y.0), fmul(x.1, y.1)), fadd(fmul(x.0, y.1), fmul(x.1, y.0)))
}

/// Conjugation over `i`: `a + bi` maps to `a - bi`.
pub open spec fn cconj(x: (int, int)) -> (int, int) {
    (x.0, fneg(x.1))
}

/// Exponentiation in the complex extension.
pub open spec fn cpow(x: (int, int), e: nat) -> (int, int)
    decreases e,
{
    if e == 0 {
        cone()
    } else {
        cmul(cpow(x, (e - 1) as nat), x)
    }
}

/// A pair is a pair of reduced field values.
pub open spec fn c_in_range(x: (int, int)) -> bool {
    0 <= x.0 < crate::m31::P && 0 <= x.1 < crate::m31::P
}

/// The components of a product, written over the unreduced integer formulas.
pub proof fn lemma_cmul_unreduced(x: (int, int), y: (int, int))
    ensures
        cmul(x, y).0 == (x.0 * y.0 - x.1 * y.1) % (crate::m31::P as int),
        cmul(x, y).1 == (x.0 * y.1 + x.1 * y.0) % (crate::m31::P as int),
{
    let p = crate::m31::P as int;
    lemma_mul_mod_noop_general(x.0, y.0, p);
    lemma_mul_mod_noop_general(x.1, y.1, p);
    lemma_mul_mod_noop_general(x.0, y.1, p);
    lemma_mul_mod_noop_general(x.1, y.0, p);
    lemma_sub_mod_noop(x.0 * y.0, x.1 * y.1, p);
    lemma_add_mod_noop(x.0 * y.1, x.1 * y.0, p);
}

/// Commutativity of complex multiplication.
pub proof fn lemma_cmul_comm(x: (int, int), y: (int, int))
    ensures
        cmul(x, y) == cmul(y, x),
{
}

/// Associativity of complex multiplication.
pub proof fn lemma_cmul_assoc(x: (int, int), y: (int, int), z: (int, int))
    ensures
        cmul(cmul(x, y), z) == cmul(x, cmul(y, z)),
{
    let p = crate::m31::P as int;
    let a = x.0 * y.0 - x.1 * y.1;
    let b = x.0 * y.1 + x.1 * y.0;
    let c = y.0 * z.0 - y.1 * z.1;
    let d = y.0 * z.1 + y.1 * z.0;
    lemma_cmul_unreduced(x, y);
    lemma_cmul_unreduced(y, z);
    lemma_cmul_unreduced(cmul(x, y), z);
    lemma_cmul_unreduced(x, cmul(y, z));
    // Left components, with the inner reductions pushed outward.
    lemma_mul_mod_noop_general(a, z.0, p);
    lemma_mul_mod_noop_general(b, z.1, p);
    lemma_mul_mod_noop_general(a, z.1, p);
    lemma_mul_mod_noop_general(b, z.0, p);
    lemma_sub_mod_noop(a * z.0, b * z.1, p);
    lemma_add_mod_noop(a * z.1, b * z.0, p);
    // Right components, likewise.
    lemma_mul_mod_noop_general(x.0, c, p);
    lemma_mul_mod_noop_general(x.1, d, p);
    lemma_mul_mod_noop_general(x.0, d, p);
    lemma_mul_mod_noop_general(x.1, c, p);
    lemma_sub_mod_noop(x.0 * c, x.1 * d, p);
    lemma_add_mod_noop(x.0 * d, x.1 * c, p);
    lemma_complex_assoc_int(x.0, x.1, y.0, y.1, z.0, z.1);
}

proof fn lemma_complex_assoc_int(x0: int, x1: int, y0: int, y1: int, z0: int, z1: int)
    ensures
        (x0 * y0 - x1 * y1) * z0 - (x0 * y1 + x1 * y0) * z1 == x0 * (y0 * z0 - y1 * z1) - x1 * (y0
            * z1 + y1 * z0),
        (x0 * y0 - x1 * y1) * z1 + (x0 * y1 + x1 * y0) * z0 == x0 * (y0 * z1 + y1 * z0) + x1 * (y0
            * z0 - y1 * z1),
{
    broadcast use vstd::arithmetic::mul::group_mul_properties;

    vstd::arithmetic::mul::lemma_mul_is_associative(x0, y0, z0);
    vstd::arithmetic::mul::lemma_mul_is_associative(x1, y1, z0);
    vstd::arithmetic::mul::lemma_mul_is_associative(x0, y1, z1);
    vstd::arithmetic::mul::lemma_mul_is_associative(x1, y0, z1);
    vstd::arithmetic::mul::lemma_mul_is_associative(x0, y0, z1);
    vstd::arithmetic::mul::lemma_mul_is_associative(x1, y1, z1);
    vstd::arithmetic::mul::lemma_mul_is_associative(x0, y1, z0);
    vstd::arithmetic::mul::lemma_mul_is_associative(x1, y0, z0);
}

/// Every product and sum is a pair of reduced values.
pub proof fn lemma_cmul_range(x: (int, int), y: (int, int))
    ensures
        c_in_range(cmul(x, y)),
{
    let p = crate::m31::P as int;
    lemma_mod_bound(fmul(x.0, y.0) - fmul(x.1, y.1), p);
    lemma_mod_bound(fmul(x.0, y.1) + fmul(x.1, y.0), p);
}

/// Multiplying by one on the left is the identity on reduced pairs.
pub proof fn lemma_cmul_one_left(x: (int, int))
    requires
        c_in_range(x),
    ensures
        cmul(cone(), x) == x,
{
    let p = crate::m31::P as int;
    lemma_small_mod(x.0 as nat, p as nat);
    lemma_small_mod(x.1 as nat, p as nat);
}

/// Multiplying by one on the right is the identity on reduced pairs.
pub proof fn lemma_cmul_one_right(x: (int, int))
    requires
        c_in_range(x),
    ensures
        cmul(x, cone()) == x,
{
    lemma_cmul_comm(x, cone());
    lemma_cmul_one_left(x);
}

/// `cpow(x, 2 * e) == cpow(cmul(x, x), e)`.
pub proof fn lemma_cpow_double(x: (int, int), e: nat)
    ensures
        cpow(x, 2 * e) == cpow(cmul(x, x), e),
    decreases e,
{
    if e > 0 {
        lemma_cpow_double(x, (e - 1) as nat);
        let m = (2 * e - 1) as nat;
        assert(cpow(x, 2 * e) == cmul(cpow(x, m), x));
        assert(cpow(x, m) == cmul(cpow(x, (m - 1) as nat), x));
        assert((m - 1) as nat == 2 * (e - 1) as nat);
        lemma_cmul_assoc(cpow(x, (m - 1) as nat), x, x);
    }
}

/// Powers add: `cpow(x, a + b) == cmul(cpow(x, a), cpow(x, b))`.
pub proof fn lemma_cpow_add(x: (int, int), a: nat, b: nat)
    ensures
        cpow(x, a + b) == cmul(cpow(x, a), cpow(x, b)),
    decreases b,
{
    if b == 0 {
        lemma_cpow_range(x, a);
        lemma_cmul_one_right(cpow(x, a));
    } else {
        lemma_cpow_add(x, a, (b - 1) as nat);
        assert(cpow(x, (a + b - 1) as nat) == cmul(cpow(x, a), cpow(x, (b - 1) as nat)));
        assert(cpow(x, a + b) == cmul(cpow(x, (a + b - 1) as nat), x));
        lemma_cmul_assoc(cpow(x, a), cpow(x, (b - 1) as nat), x);
    }
}

/// Addition is commutative.
pub proof fn lemma_cadd_comm(x: (int, int), y: (int, int))
    ensures
        cadd(x, y) == cadd(y, x),
{
}

/// Multiplication distributes over addition.
pub proof fn lemma_cmul_distrib(x: (int, int), y: (int, int), z: (int, int))
    ensures
        cmul(x, cadd(y, z)) == cadd(cmul(x, y), cmul(x, z)),
{
    let p = crate::m31::P as int;
    lemma_cmul_unreduced(x, y);
    lemma_cmul_unreduced(x, z);
    lemma_mul_mod_noop_general(x.0, y.0 + z.0, p);
    lemma_mul_mod_noop_general(x.1, y.1 + z.1, p);
    lemma_mul_mod_noop_general(x.0, y.1 + z.1, p);
    lemma_mul_mod_noop_general(x.1, y.0 + z.0, p);
    lemma_sub_mod_noop(x.0 * (y.0 + z.0), x.1 * (y.1 + z.1), p);
    lemma_add_mod_noop(x.0 * (y.1 + z.1), x.1 * (y.0 + z.0), p);
    lemma_add_mod_noop(x.0 * y.0 - x.1 * y.1, x.0 * z.0 - x.1 * z.1, p);
    lemma_add_mod_noop(x.0 * y.1 + x.1 * y.0, x.0 * z.1 + x.1 * z.0, p);
    vstd::arithmetic::mul::lemma_mul_is_distributive_add(x.0, y.0, z.0);
    vstd::arithmetic::mul::lemma_mul_is_distributive_add(x.1, y.1, z.1);
    vstd::arithmetic::mul::lemma_mul_is_distributive_add(x.0, y.1, z.1);
    vstd::arithmetic::mul::lemma_mul_is_distributive_add(x.1, y.0, z.0);
}

/// Negating the right factor negates the product.
pub proof fn lemma_cmul_cneg_right(x: (int, int), y: (int, int))
    ensures
        cmul(x, cneg(y)) == cneg(cmul(x, y)),
{
    let p = crate::m31::P as int;
    lemma_cmul_unreduced(x, y);
    lemma_mul_mod_noop_general(x.0, -y.0, p);
    lemma_mul_mod_noop_general(x.1, -y.1, p);
    lemma_mul_mod_noop_general(x.0, -y.1, p);
    lemma_mul_mod_noop_general(x.1, -y.0, p);
    lemma_sub_mod_noop(x.0 * -y.0, x.1 * -y.1, p);
    lemma_add_mod_noop(x.0 * -y.1, x.1 * -y.0, p);
    lemma_sub_mod_noop(0, x.0 * y.0 - x.1 * y.1, p);
    lemma_sub_mod_noop(0, x.0 * y.1 + x.1 * y.0, p);
    lemma_small_mod(0, p as nat);
    vstd::arithmetic::mul::lemma_mul_unary_negation(x.0, y.0);
    vstd::arithmetic::mul::lemma_mul_unary_negation(x.1, y.1);
    vstd::arithmetic::mul::lemma_mul_unary_negation(x.0, y.1);
    vstd::arithmetic::mul::lemma_mul_unary_negation(x.1, y.0);
}

/// Multiplying by zero gives zero.
pub proof fn lemma_cmul_czero_right(x: (int, int))
    ensures
        cmul(x, czero()) == czero(),
{
    let p = crate::m31::P as int;
    lemma_small_mod(0, p as nat);
}

/// Adding zero is the identity on reduced pairs.
pub proof fn lemma_cadd_czero_right(x: (int, int))
    requires
        c_in_range(x),
    ensures
        cadd(x, czero()) == x,
{
    let p = crate::m31::P as int;
    lemma_small_mod(x.0 as nat, p as nat);
    lemma_small_mod(x.1 as nat, p as nat);
}

/// Negation distributes over addition.
pub proof fn lemma_cadd_cneg_distrib(x: (int, int), y: (int, int))
    ensures
        cadd(cneg(x), cneg(y)) == cneg(cadd(x, y)),
{
    let p = crate::m31::P as int;
    lemma_add_mod_noop(-x.0, -y.0, p);
    lemma_add_mod_noop(-x.1, -y.1, p);
    lemma_sub_mod_noop(0, x.0 + y.0, p);
    lemma_sub_mod_noop(0, x.1 + y.1, p);
    lemma_small_mod(0, p as nat);
}

/// Double negation is the identity on reduced pairs.
pub proof fn lemma_cneg_cneg(x: (int, int))
    requires
        c_in_range(x),
    ensures
        cneg(cneg(x)) == x,
{
    let p = crate::m31::P as int;
    lemma_sub_mod_noop(0, -x.0, p);
    lemma_sub_mod_noop(0, -x.1, p);
    lemma_small_mod(0, p as nat);
    lemma_small_mod(x.0 as nat, p as nat);
    lemma_small_mod(x.1 as nat, p as nat);
}

/// One step of exponentiation by squaring, even exponent.
pub proof fn lemma_cpow_shift_zero(r: (int, int), b: (int, int), e: nat)
    requires
        e % 2 == 0,
    ensures
        cmul(r, cpow(b, e)) == cmul(r, cpow(cmul(b, b), e / 2)),
{
    lemma_cpow_double(b, e / 2);
}

/// One step of exponentiation by squaring, odd exponent.
pub proof fn lemma_cpow_shift_one(r: (int, int), b: (int, int), e: nat)
    requires
        e % 2 == 1,
    ensures
        cmul(r, cpow(b, e)) == cmul(cmul(r, b), cpow(cmul(b, b), e / 2)),
{
    let h = e / 2;
    lemma_cpow_double(b, h);
    assert((e - 1) as nat == 2 * h);
    assert(cpow(b, e) == cmul(cpow(b, (e - 1) as nat), b));
    let x = cpow(cmul(b, b), h);
    lemma_cmul_assoc(r, x, b);
    lemma_cmul_comm(x, b);
    lemma_cmul_assoc(r, b, x);
}

/// Every power is a pair of reduced values.
pub proof fn lemma_cpow_range(x: (int, int), e: nat)
    ensures
        c_in_range(cpow(x, e)),
    decreases e,
{
    if e == 0 {
    } else {
        lemma_cpow_range(x, (e - 1) as nat);
        lemma_cmul_range(cpow(x, (e - 1) as nat), x);
    }
}

impl View for CM31 {
    type V = (int, int);

    open spec fn view(&self) -> (int, int) {
        (self.a@, self.b@)
    }
}

impl CM31 {
    /// The additive identity.
    pub fn zero() -> (r: CM31)
        ensures
            r@ == czero(),
    {
        CM31 { a: M31::zero(), b: M31::zero() }
    }

    /// The multiplicative identity.
    pub fn one() -> (r: CM31)
        ensures
            r@ == cone(),
    {
        CM31 { a: M31::one(), b: M31::zero() }
    }

    /// Builds an element from two already-reduced component representatives.
    pub fn from_u32_unchecked(a: u32, b: u32) -> (r: CM31)
        requires
            a < crate::m31::P,
            b < crate::m31::P,
        ensures
            r@ == (a as int, b as int),
    {
        CM31 { a: M31::from_u32_unchecked(a), b: M31::from_u32_unchecked(b) }
    }

    /// Lifts a base-field element.
    pub fn from_m31(x: M31) -> (r: CM31)
        ensures
            r@ == (x@, 0int),
    {
        CM31 { a: x, b: M31::zero() }
    }

    /// Addition.
    pub fn add(self, rhs: CM31) -> (r: CM31)
        ensures
            r@ == cadd(self@, rhs@),
    {
        CM31 { a: self.a.add(rhs.a), b: self.b.add(rhs.b) }
    }

    /// Subtraction.
    pub fn sub(self, rhs: CM31) -> (r: CM31)
        ensures
            r@ == csub(self@, rhs@),
    {
        CM31 { a: self.a.sub(rhs.a), b: self.b.sub(rhs.b) }
    }

    /// Negation.
    pub fn neg(self) -> (r: CM31)
        ensures
            r@ == cneg(self@),
    {
        CM31 { a: self.a.neg(), b: self.b.neg() }
    }

    /// Multiplication.
    pub fn mul(self, rhs: CM31) -> (r: CM31)
        ensures
            r@ == cmul(self@, rhs@),
    {
        CM31 {
            a: self.a.mul(rhs.a).sub(self.b.mul(rhs.b)),
            b: self.a.mul(rhs.b).add(self.b.mul(rhs.a)),
        }
    }

    /// Conjugation over `i`.
    pub fn conjugate(self) -> (r: CM31)
        ensures
            r@ == cconj(self@),
    {
        CM31 { a: self.a, b: self.b.neg() }
    }
}

} // verus!
