//! The Mersenne-31 prime field: integers modulo `P = 2^31 - 1`.
//!
//! All arithmetic is exact modular arithmetic; the specification functions
//! `fadd`, `fsub`, `fmul`, `fneg`, `fpow` define every operation over `int`.

use vstd::prelude::*;
use vstd::arithmetic::div_mod::{
    lemma_small_mod, lemma_add_mod_noop, lemma_sub_mod_noop, lemma_mul_mod_noop_general,
    lemma_mod_bound, lemma_mod_sub_multiples_vanish,
};

verus! {

/// The Mersenne-31 prime, `2^31 - 1`.
pub const P: u32 = 0x7fff_ffff;

/// An element of the Mersenne-31 prime field, kept reduced to `[0, P)`.
#[derive(Clone, Copy, PartialEq, Eq, Structural, Debug)]
pub struct M31 {
    v: u32,
}

/// Field addition over the mathematical integers.
pub open spec fn fadd(a: int, b: int) -> int {
    (a + b) % (P as int)
}

/// Field subtraction over the mathematical integers.
pub open spec fn fsub(a: int, b: int) -> int {
    (a - b) % (P as int)
}

/// Field multiplication over the mathematical integers.
pub open spec fn fmul(a: int, b: int) -> int {
    (a * b) % (P as int)
}

/// Field negation over the mathematical integers.
pub open spec fn fneg(a: int) -> int {
    (-a) % (P as int)
}

/// Field exponentiation: `a` raised to the natural power `e`, reduced mod `P`.
pub open spec fn fpow(a: int, e: nat) -> int
    decreases e,
{
    if e == 0 {
        1
    } else {
        fmul(fpow(a, (e - 1) as nat), a)
    }
}

/// Whether `a` has a multiplicative inverse in the field.
pub open spec fn f_has_inv(a: int) -> bool {
    exists|b: int| 0 <= b < P && fmul(a, b) == 1
}

/// The multiplicative inverse of `a`, or zero when none exists.
pub open spec fn finv(a: int) -> int {
    if f_has_inv(a) {
        choose|b: int| 0 <= b < P && fmul(a, b) == 1
    } else {
        0
    }
}

/// Inverses are unique among reduced values.
pub proof fn lemma_inv_unique(a: int, x: int, y: int)
    requires
        0 <= x < P,
        0 <= y < P,
        fmul(x, a) == 1,
        fmul(y, a) == 1,
    ensures
        x == y,
{
    // x == x * (a * y) == (x * a) * y == y
    lemma_fmul_comm(y, a);
    lemma_fmul_assoc(x, a, y);
    lemma_fmul_one_right(x);
    lemma_fmul_one_left(y);
    assert(fmul(x, fmul(a, y)) == fmul(fmul(x, a), y));
}

/// Any reduced value whose product with `a` is one is the inverse of `a`.
pub proof fn lemma_finv_is(a: int, x: int)
    requires
        0 <= x < P,
        fmul(x, a) == 1,
    ensures
        f_has_inv(a),
        finv(a) == x,
{
    lemma_fmul_comm(x, a);
    assert(f_has_inv(a));
    let w = choose|b: int| 0 <= b < P && fmul(a, b) == 1;
    lemma_fmul_comm(a, w);
    lemma_inv_unique(a, x, w);
}

impl View for M31 {
    type V = int;

    closed spec fn view(&self) -> int {
        (self.v as int) % (P as int)
    }
}

/// The view of any field element lies in `[0, P)`.
pub broadcast proof fn lemma_m31_view_range(x: M31)
    ensures
        0 <= #[trigger] x@ < P,
{
    lemma_mod_bound(x.v as int, P as int);
}

impl M31 {
    #[verifier::type_invariant]
    closed spec fn type_inv(self) -> bool {
        self.v < P
    }

    /// Builds a field element from a representative known to be reduced.
    fn mk(v: u32) -> (r: M31)
        requires
            v < P,
        ensures
            r@ == v,
    {
        proof {
            lemma_small_mod(v as nat, P as nat);
        }
        M31 { v }
    }

    /// The additive identity.
    pub fn zero() -> (r: M31)
        ensures
            r@ == 0,
    {
        M31::mk(0)
    }

    /// The multiplicative identity.
    pub fn one() -> (r: M31)
        ensures
            r@ == 1,
    {
        M31::mk(1)
    }

    /// Builds a field element from an already-reduced representative.
    pub fn from_u32_unchecked(value: u32) -> (r: M31)
        requires
            value < P,
        ensures
            r@ == value,
    {
        M31::mk(value)
    }

    /// Builds a field element from an arbitrary `u32`, reducing mod `P`.
    pub fn from_u32(value: u32) -> (r: M31)
        ensures
            r@ == value as int % P as int,
    {
        let r = value % P;
        proof {
            lemma_mod_bound(value as int, P as int);
        }
        M31::mk(r)
    }

    /// Builds a field element from a `usize` index, reducing mod `P`.
    pub fn from_usize(value: usize) -> (r: M31)
        ensures
            r@ == value as int % P as int,
    {
        let r = value % (P as usize);
        proof {
            lemma_mod_bound(value as int, P as int);
        }
        M31::mk(r as u32)
    }

    /// The reduced representative in `[0, P)`.
    pub fn as_u32(self) -> (r: u32)
        ensures
            r == self@,
            r < P,
    {
        proof {
            use_type_invariant(&self);
            lemma_small_mod(self.v as nat, P as nat);
        }
        self.v
    }

    /// Whether two field elements are equal, decided on the views.
    pub fn equals(self, rhs: M31) -> (b: bool)
        ensures
            b == (self@ == rhs@),
    {
        proof {
            use_type_invariant(&self);
            use_type_invariant(&rhs);
            lemma_small_mod(self.v as nat, P as nat);
            lemma_small_mod(rhs.v as nat, P as nat);
        }
        self.v == rhs.v
    }

    /// Field addition.
    pub fn add(self, rhs: M31) -> (r: M31)
        ensures
            r@ == fadd(self@, rhs@),
    {
        proof {
            use_type_invariant(&self);
            use_type_invariant(&rhs);
            lemma_small_mod(self.v as nat, P as nat);
            lemma_small_mod(rhs.v as nat, P as nat);
        }
        let s: u32 = self.v + rhs.v;
        let r: u32 = if s >= P {
            s - P
        } else {
            s
        };
        proof {
            if s >= P {
                lemma_mod_sub_multiples_vanish(s as int, P as int);
                lemma_small_mod((s - P) as nat, P as nat);
            } else {
                lemma_small_mod(s as nat, P as nat);
            }
        }
        M31::mk(r)
    }

    /// Field subtraction.
    pub fn sub(self, rhs: M31) -> (r: M31)
        ensures
            r@ == fsub(self@, rhs@),
    {
        proof {
            use_type_invariant(&self);
            use_type_invariant(&rhs);
            lemma_small_mod(self.v as nat, P as nat);
            lemma_small_mod(rhs.v as nat, P as nat);
        }
        let r: u32 = if self.v >= rhs.v {
            self.v - rhs.v
        } else {
            self.v + P - rhs.v
        };
        proof {
            let d = self.v as int - rhs.v as int;
            if self.v >= rhs.v {
                lemma_small_mod(d as nat, P as nat);
            } else {
                lemma_mod_sub_multiples_vanish(d + P, P as int);
                lemma_small_mod((d + P) as nat, P as nat);
            }
        }
        M31::mk(r)
    }

    /// Field negation.
    pub fn neg(self) -> (r: M31)
        ensures
            r@ == fneg(self@),
    {
        proof {
            use_type_invariant(&self);
            lemma_small_mod(self.v as nat, P as nat);
        }
        let r: u32 = if self.v == 0 {
            0
        } else {
            P - self.v
        };
        proof {
            if self.v == 0 {
                lemma_small_mod(0, P as nat);
            } else {
                lemma_mod_sub_multiples_vanish(-(self.v as int) + P, P as int);
                lemma_small_mod((P - self.v) as nat, P as nat);
            }
        }
        M31::mk(r)
    }

    /// Field multiplication.
    pub fn mul(self, rhs: M31) -> (r: M31)
        ensures
            r@ == fmul(self@, rhs@),
    {
        proof {
            use_type_invariant(&self);
            use_type_invariant(&rhs);
            lemma_small_mod(self.v as nat, P as nat);
            lemma_small_mod(rhs.v as nat, P as nat);
        }
        assert((self.v as int) * (rhs.v as int) < 0x4000_0000_0000_0000) by (nonlinear_arith)
            requires
                self.v < 0x8000_0000,
                rhs.v < 0x8000_0000,
        ;
        let prod: u64 = (self.v as u64) * (rhs.v as u64);
        let r: u64 = prod % (P as u64);
        proof {
            lemma_mod_bound(prod as int, P as int);
        }
        M31::mk(r as u32)
    }

    /// Field exponentiation by squaring.
    pub fn pow(self, exp: u64) -> (r: M31)
        ensures
            r@ == fpow(self@, exp as nat),
    {
        proof {
            use_type_invariant(&self);
        }
        let mut base = self;
        let mut e = exp;
        let mut result = M31::one();
        proof {
            lemma_fpow_range(self@, exp as nat);
            lemma_fmul_one_left(fpow(self@, exp as nat));
        }
        while e > 0
            invariant
                fmul(result@, fpow(base@, e as nat)) == fpow(self@, exp as nat),
                0 <= result@ < P,
                0 <= base@ < P,
            decreases e,
        {
            let ghost e0 = e;
            proof {
                assert(e0 & 1 == e0 % 2) by (bit_vector);
                assert(e0 >> 1 == e0 / 2) by (bit_vector);
            }
            if e & 1 == 1 {
                proof {
                    lemma_fpow_shift_one(result@, base@, e0 as nat);
                }
                result = result.mul(base);
            } else {
                proof {
                    lemma_fpow_shift_zero(result@, base@, e0 as nat);
                }
            }
            base = base.mul(base);
            e = e >> 1;
        }
        proof {
            lemma_fmul_one_right(result@);
        }
        result
    }

    /// The multiplicative inverse, when one exists.
    ///
    /// The candidate is the Fermat power `self^(P-2)`; rather than assuming
    /// Fermat's little theorem, the candidate is checked at run time, with a
    /// direct search as a provably complete fallback for the (mathematically
    /// impossible) case that the check fails on an invertible element.
    pub fn inverse(self) -> (r: M31)
        ensures
            r@ == finv(self@),
            f_has_inv(self@) ==> fmul(self@, r@) == 1,
            !f_has_inv(self@) ==> r@ == 0,
    {
        proof {
            use_type_invariant(&self);
        }
        let candidate = self.pow((P - 2) as u64);
        if self.mul(candidate).as_u32() == 1 {
            proof {
                lemma_m31_view_range(candidate);
                lemma_fmul_comm(self@, candidate@);
                lemma_finv_is(self@, candidate@);
            }
            return candidate;
        }
        let mut b: u32 = 0;
        while b < P
            invariant
                forall|j: int| 0 <= j < b ==> fmul(self@, j) != 1,
            decreases P - b,
        {
            let cand = M31::mk(b);
            let p = self.mul(cand);
            if p.as_u32() == 1 {
                proof {
                    lemma_fmul_comm(self@, cand@);
                    lemma_finv_is(self@, cand@);
                }
                return cand;
            }
            b = b + 1;
        }
        proof {
            assert(!f_has_inv(self@));
        }
        M31::mk(0)
    }
}

/// Every power is a reduced field value.
pub proof fn lemma_fpow_range(a: int, e: nat)
    ensures
        0 <= fpow(a, e) < P,
    decreases e,
{
    if e > 0 {
        lemma_fpow_range(a, (e - 1) as nat);
        lemma_mod_bound(fpow(a, (e - 1) as nat) * a, P as int);
    }
}

/// Multiplying by one on the left is the identity on reduced values.
pub proof fn lemma_fmul_one_left(a: int)
    requires
        0 <= a < P,
    ensures
        fmul(1, a) == a,
{
    lemma_small_mod(a as nat, P as nat);
}

/// Multiplying by one on the right is the identity on reduced values.
pub proof fn lemma_fmul_one_right(a: int)
    requires
        0 <= a < P,
    ensures
        fmul(a, 1) == a,
{
    lemma_small_mod(a as nat, P as nat);
}

/// Associativity of field multiplication.
pub proof fn lemma_fmul_assoc(a: int, b: int, c: int)
    ensures
        fmul(fmul(a, b), c) == fmul(a, fmul(b, c)),
{
    lemma_mul_mod_noop_general(a * b, c, P as int);
    lemma_mul_mod_noop_general(a, b * c, P as int);
    assert((a * b) * c == a * (b * c)) by (nonlinear_arith);
}

/// Commutativity of field multiplication.
pub proof fn lemma_fmul_comm(a: int, b: int)
    ensures
        fmul(a, b) == fmul(b, a),
{
}

proof fn lemma_fpow_shift_zero(r: int, b: int, e: nat)
    requires
        e % 2 == 0,
    ensures
        fmul(r, fpow(b, e)) == fmul(r, fpow(fmul(b, b), e / 2)),
{
    lemma_fpow_double(b, e / 2);
}

proof fn lemma_fpow_shift_one(r: int, b: int, e: nat)
    requires
        e % 2 == 1,
    ensures
        fmul(r, fpow(b, e)) == fmul(fmul(r, b), fpow(fmul(b, b), e / 2)),
{
    lemma_fpow_double(b, e / 2);
    assert(e == 2 * (e / 2) + 1);
    assert(fpow(b, e) == fmul(fpow(b, (e - 1) as nat), b));
    lemma_fmul_assoc(r, fpow(fmul(b, b), e / 2), b);
    lemma_fmul_comm(fpow(fmul(b, b), e / 2), b);
    lemma_fmul_assoc(r, b, fpow(fmul(b, b), e / 2));
}

/// `fpow(a, 2 * e) == fpow(fmul(a, a), e)`.
pub proof fn lemma_fpow_double(a: int, e: nat)
    ensures
        fpow(a, 2 * e) == fpow(fmul(a, a), e),
    decreases e,
{
    if e > 0 {
        lemma_fpow_double(a, (e - 1) as nat);
        let m = (2 * e - 1) as nat;
        assert(fpow(a, 2 * e) == fmul(fpow(a, m), a));
        assert(fpow(a, m) == fmul(fpow(a, (m - 1) as nat), a));
        assert((m - 1) as nat == 2 * (e - 1) as nat);
        lemma_fmul_assoc(fpow(a, (m - 1) as nat), a, a);
    }
}

/// Negating the left factor negates the product.
pub proof fn lemma_fneg_fmul_left(a: int, b: int)
    ensures
        fmul(fneg(a), b) == fneg(fmul(a, b)),
{
    let p = P as int;
    lemma_mul_mod_noop_general(-a, b, p);
    lemma_sub_mod_noop(0, a * b, p);
    lemma_small_mod(0, p as nat);
    vstd::arithmetic::mul::lemma_mul_unary_negation(a, b);
}

/// Multiplying by `P - 1` negates.
pub proof fn lemma_fmul_minus_one(x: int)
    ensures
        fmul(x, (P - 1) as int) == fneg(x),
{
    let p = P as int;
    vstd::arithmetic::mul::lemma_mul_is_distributive_sub(x, p, 1);
    vstd::arithmetic::div_mod::lemma_mod_multiples_vanish(x, -x, p);
    vstd::arithmetic::mul::lemma_mul_is_commutative(x, p);
}

/// Multiplication distributes over addition in the field.
pub proof fn lemma_fmul_fadd_distrib(a: int, x: int, y: int)
    ensures
        fmul(a, fadd(x, y)) == fadd(fmul(a, x), fmul(a, y)),
{
    let p = P as int;
    lemma_mul_mod_noop_general(a, x + y, p);
    lemma_add_mod_noop(a * x, a * y, p);
    vstd::arithmetic::mul::lemma_mul_is_distributive_add(a, x, y);
}

/// Addition then reduction commutes with reducing the addends first.
pub proof fn lemma_fadd_noop(a: int, b: int)
    ensures
        fadd(a % (P as int), b % (P as int)) == fadd(a, b),
{
    lemma_add_mod_noop(a, b, P as int);
}

} // verus!
