//! Circle-group geometry over the Mersenne-31 field.
//!
//! Points `(x, y)` with `x^2 + y^2 = 1` form a group under complex
//! multiplication of `x + iy`; a generator of order `2^31` indexes the group
//! by integers modulo `2^31`. Cosets and circle domains are described by an
//! initial index and a step, and are materialised lazily through `at`.

use vstd::prelude::*;
use crate::m31::M31;
use crate::qm31::{QM31, qconj, qneg};
use crate::cm31::{
    cmul, cconj, cone, cpow, c_in_range, lemma_cpow_double, lemma_cpow_shift_zero,
    lemma_cpow_shift_one, lemma_cpow_range, lemma_cmul_one_left, lemma_cmul_range,
};
use vstd::arithmetic::power2::{pow2, lemma_pow2_unfold, lemma_pow2_pos, lemma2_to64};
use vstd::arithmetic::div_mod::{lemma_small_mod, lemma_mod_bound};

verus! {

/// The order of the circle group over the base field: `2^31`.
pub const CIRCLE_ORDER: u32 = 0x8000_0000;

/// The chosen generator of the circle group, of order `2^31`.
pub open spec fn circle_gen() -> (int, int) {
    (2int, 1268011823int)
}

/// The point indexed by `i`: the generator raised to `i`, with the index
/// reduced modulo the group order.
pub open spec fn point_of_index(i: int) -> (int, int) {
    cpow(circle_gen(), (i % (CIRCLE_ORDER as int)) as nat)
}

/// A point of the circle over the base field.
#[derive(Clone, Copy, PartialEq, Eq, Structural, Debug)]
pub struct CirclePoint {
    pub x: M31,
    pub y: M31,
}

/// A point of the circle over the secure field.
#[derive(Clone, Copy, PartialEq, Eq, Structural, Debug)]
pub struct SecureCirclePoint {
    pub x: QM31,
    pub y: QM31,
}

impl View for CirclePoint {
    type V = (int, int);

    open spec fn view(&self) -> (int, int) {
        (self.x@, self.y@)
    }
}

impl CirclePoint {
    /// The group identity `(1, 0)`.
    pub fn zero() -> (r: CirclePoint)
        ensures
            r@ == cone(),
    {
        CirclePoint { x: M31::one(), y: M31::zero() }
    }

    /// The generator of the full circle group.
    pub fn generator() -> (r: CirclePoint)
        ensures
            r@ == circle_gen(),
    {
        CirclePoint { x: M31::from_u32_unchecked(2), y: M31::from_u32_unchecked(1268011823) }
    }

    /// Group addition: complex multiplication of `x + iy`.
    pub fn add(self, rhs: CirclePoint) -> (r: CirclePoint)
        ensures
            r@ == cmul(self@, rhs@),
    {
        CirclePoint {
            x: self.x.mul(rhs.x).sub(self.y.mul(rhs.y)),
            y: self.x.mul(rhs.y).add(self.y.mul(rhs.x)),
        }
    }

    /// The group inverse `(x, -y)`.
    pub fn neg(self) -> (r: CirclePoint)
        ensures
            r@ == cconj(self@),
    {
        CirclePoint { x: self.x, y: self.y.neg() }
    }

    /// Doubling.
    pub fn double(self) -> (r: CirclePoint)
        ensures
            r@ == cmul(self@, self@),
    {
        self.add(self)
    }

    /// Scalar multiplication: the point raised to `scalar`.
    pub fn mul(self, scalar: u64) -> (r: CirclePoint)
        ensures
            r@ == cpow(self@, scalar as nat),
    {
        let mut base = self;
        let mut e = scalar;
        let mut result = CirclePoint::zero();
        proof {
            lemma_cpow_range(self@, scalar as nat);
            lemma_cmul_one_left(cpow(self@, scalar as nat));
        }
        while e > 0
            invariant
                cmul(result@, cpow(base@, e as nat)) == cpow(self@, scalar as nat),
                c_in_range(result@),
            decreases e,
        {
            let ghost e0 = e;
            proof {
                assert(e0 & 1 == e0 % 2) by (bit_vector);
                assert(e0 >> 1 == e0 / 2) by (bit_vector);
            }
            if e & 1 == 1 {
                proof {
                    lemma_cpow_shift_one(result@, base@, e0 as nat);
                }
                result = result.add(base);
            } else {
                proof {
                    lemma_cpow_shift_zero(result@, base@, e0 as nat);
                }
            }
            base = base.double();
            e = e >> 1;
            proof {
                lemma_cmul_range(result@, result@);
            }
        }
        proof {
            crate::cm31::lemma_cmul_one_right(result@);
        }
        result
    }

    /// Lifts the point into the secure field.
    pub fn into_ef(self) -> (r: SecureCirclePoint)
        ensures
            r.x@ == crate::qm31::q_from_f(self.x@),
            r.y@ == crate::qm31::q_from_f(self.y@),
    {
        SecureCirclePoint { x: QM31::from_base(self.x), y: QM31::from_base(self.y) }
    }
}

impl SecureCirclePoint {
    /// Group addition over the secure field.
    pub fn add(self, rhs: SecureCirclePoint) -> (r: SecureCirclePoint)
        ensures
            r.x@ == crate::qm31::qsub(
                crate::qm31::qmul(self.x@, rhs.x@),
                crate::qm31::qmul(self.y@, rhs.y@),
            ),
            r.y@ == crate::qm31::qadd(
                crate::qm31::qmul(self.x@, rhs.y@),
                crate::qm31::qmul(self.y@, rhs.x@),
            ),
    {
        SecureCirclePoint {
            x: self.x.mul(rhs.x).sub(self.y.mul(rhs.y)),
            y: self.x.mul(rhs.y).add(self.y.mul(rhs.x)),
        }
    }

    /// The group inverse `(x, -y)`.
    pub fn neg(self) -> (r: SecureCirclePoint)
        ensures
            r.x@ == self.x@,
            r.y@ == qneg(self.y@),
    {
        SecureCirclePoint { x: self.x, y: self.y.neg() }
    }

    /// The distinguished complex conjugate, applied to both coordinates.
    pub fn complex_conjugate(self) -> (r: SecureCirclePoint)
        ensures
            r.x@ == qconj(self.x@),
            r.y@ == qconj(self.y@),
    {
        SecureCirclePoint {
            x: self.x.complex_conjugate(),
            y: self.y.complex_conjugate(),
        }
    }
}

/// A generator of the circle group over the secure field, lying outside the
/// base-field circle group.
pub fn secure_field_circle_gen() -> (r: SecureCirclePoint)
    ensures
        r.x@ == ((1int, 0int), (478637715int, 513582971int)),
        r.y@ == ((992285211int, 649143431int), (740191619int, 1186584352int)),
{
    SecureCirclePoint {
        x: QM31::from_u32_unchecked(1, 0, 478637715, 513582971),
        y: QM31::from_u32_unchecked(992285211, 649143431, 740191619, 1186584352),
    }
}

/// An index into the circle group: an exponent of the generator, modulo the
/// group order `2^31`.
#[derive(Clone, Copy, PartialEq, Eq, Structural, Debug)]
pub struct CirclePointIndex {
    pub idx: u32,
}

impl View for CirclePointIndex {
    type V = int;

    open spec fn view(&self) -> int {
        (self.idx as int) % (CIRCLE_ORDER as int)
    }
}

/// The view of any index lies in `[0, 2^31)`.
pub proof fn lemma_index_view_range(x: CirclePointIndex)
    ensures
        0 <= x@ < CIRCLE_ORDER,
{
    lemma_mod_bound(x.idx as int, CIRCLE_ORDER as int);
}

impl CirclePointIndex {
    /// Whether the stored exponent is reduced.
    pub open spec fn wf(self) -> bool {
        self.idx < CIRCLE_ORDER
    }

    /// The zero index.
    pub fn zero() -> (r: CirclePointIndex)
        ensures
            r@ == 0,
            r.wf(),
    {
        CirclePointIndex { idx: 0 }
    }

    /// The index of the full-group generator.
    pub fn generator() -> (r: CirclePointIndex)
        ensures
            r@ == 1,
            r.wf(),
    {
        CirclePointIndex { idx: 1 }
    }

    /// The index of the generator of the subgroup of size `2^log_size`.
    pub fn subgroup_gen(log_size: u32) -> (r: CirclePointIndex)
        requires
            log_size <= 31,
        ensures
            r@ == (pow2((31 - log_size) as nat) as int) % (CIRCLE_ORDER as int),
            r.wf(),
    {
        let p = crate::utils::pow2_usize(31 - log_size);
        proof {
            crate::utils::lemma_pow2_le31((31 - log_size) as nat);
            if log_size >= 1 {
                lemma2_to64();
                vstd::arithmetic::power2::lemma_pow2_strictly_increases(
                    (31 - log_size) as nat,
                    31,
                );
                lemma_small_mod(pow2((31 - log_size) as nat), CIRCLE_ORDER as nat);
            } else {
                lemma2_to64();
                lemma_small_mod(0, CIRCLE_ORDER as nat);
                assert(pow2(31) % (CIRCLE_ORDER as nat) == 0) by {
                    vstd::arithmetic::div_mod::lemma_mod_self_0(CIRCLE_ORDER as int);
                }
            }
        }
        if log_size == 0 {
            CirclePointIndex { idx: 0 }
        } else {
            CirclePointIndex { idx: p as u32 }
        }
    }

    /// Index addition, modulo the group order.
    pub fn add(self, rhs: CirclePointIndex) -> (r: CirclePointIndex)
        requires
            self.wf(),
            rhs.wf(),
        ensures
            r@ == (self@ + rhs@) % (CIRCLE_ORDER as int),
            r.wf(),
    {
        let s: u32 = (self.idx + rhs.idx) % CIRCLE_ORDER;
        proof {
            lemma_mod_bound(self.idx + rhs.idx, CIRCLE_ORDER as int);
            lemma_small_mod(self.idx as nat, CIRCLE_ORDER as nat);
            lemma_small_mod(rhs.idx as nat, CIRCLE_ORDER as nat);
            lemma_small_mod(s as nat, CIRCLE_ORDER as nat);
        }
        CirclePointIndex { idx: s }
    }

    /// Index negation, modulo the group order.
    pub fn neg(self) -> (r: CirclePointIndex)
        requires
            self.wf(),
        ensures
            r@ == (CIRCLE_ORDER - self@) % (CIRCLE_ORDER as int),
            r.wf(),
    {
        let s: u32 = (CIRCLE_ORDER - self.idx) % CIRCLE_ORDER;
        proof {
            lemma_mod_bound(CIRCLE_ORDER - self.idx, CIRCLE_ORDER as int);
            lemma_small_mod(self.idx as nat, CIRCLE_ORDER as nat);
            lemma_small_mod(s as nat, CIRCLE_ORDER as nat);
        }
        CirclePointIndex { idx: s }
    }

    /// Index scaling, modulo the group order.
    pub fn mul(self, scalar: usize) -> (r: CirclePointIndex)
        requires
            self.wf(),
        ensures
            r@ == (self@ * scalar) % (CIRCLE_ORDER as int),
            r.wf(),
    {
        proof {
            assert((self.idx as int) * (scalar as int) >= 0 && (self.idx as int) * (scalar as int)
                <= 0x8000_0000int * 0xffff_ffff_ffff_ffff) by (nonlinear_arith)
                requires
                    self.idx < 0x8000_0000,
                    scalar <= 0xffff_ffff_ffff_ffff,
            ;
        }
        let p: u128 = (self.idx as u128) * (scalar as u128);
        let s: u128 = p % (CIRCLE_ORDER as u128);
        proof {
            lemma_mod_bound(p as int, CIRCLE_ORDER as int);
            lemma_small_mod(self.idx as nat, CIRCLE_ORDER as nat);
            lemma_small_mod(s as nat, CIRCLE_ORDER as nat);
            vstd::arithmetic::div_mod::lemma_mul_mod_noop_general(
                self.idx as int,
                scalar as int,
                CIRCLE_ORDER as int,
            );
        }
        CirclePointIndex { idx: s as u32 }
    }

    /// Materialises the indexed point.
    pub fn to_point(self) -> (r: CirclePoint)
        requires
            self.wf(),
        ensures
            r@ == point_of_index(self@),
    {
        proof {
            lemma_small_mod(self.idx as nat, CIRCLE_ORDER as nat);
        }
        CirclePoint::generator().mul(self.idx as u64)
    }
}

/// The coset `initial + <G_{2^log_size}>` of the circle group, of size
/// `2^log_size`, described by indices.
#[derive(Clone, Copy, PartialEq, Eq, Structural, Debug)]
pub struct Coset {
    pub initial_index: CirclePointIndex,
    pub log_size: u32,
}

impl Coset {
    /// Whether the coset description is well formed.
    pub open spec fn wf(self) -> bool {
        self.initial_index.wf() && self.log_size <= 31
    }

    /// The index step between consecutive coset elements.
    pub open spec fn step_size_spec(self) -> int {
        (pow2((31 - self.log_size) as nat) as int) % (CIRCLE_ORDER as int)
    }

    /// The index of the `i`-th coset element.
    pub open spec fn index_at_spec(self, i: int) -> int {
        (self.initial_index@ + self.step_size_spec() * i) % (CIRCLE_ORDER as int)
    }

    /// Builds the coset `initial_index + <G_{2^log_size}>`.
    pub fn new(initial_index: CirclePointIndex, log_size: u32) -> (r: Coset)
        requires
            initial_index.wf(),
            log_size <= 31,
        ensures
            r == (Coset { initial_index, log_size }),
            r.wf(),
    {
        Coset { initial_index, log_size }
    }

    /// The subgroup `<G_{2^log_size}>`.
    pub fn subgroup(log_size: u32) -> (r: Coset)
        requires
            log_size <= 31,
        ensures
            r.initial_index@ == 0,
            r.log_size == log_size,
            r.wf(),
    {
        Coset::new(CirclePointIndex::zero(), log_size)
    }

    /// The coset `G_{2^(log_size+1)} + <G_{2^log_size}>`.
    pub fn odds(log_size: u32) -> (r: Coset)
        requires
            log_size <= 30,
        ensures
            r.initial_index@ == pow2((30 - log_size) as nat),
            r.log_size == log_size,
            r.wf(),
    {
        proof {
            lemma2_to64();
            vstd::arithmetic::power2::lemma_pow2_strictly_increases((30 - log_size) as nat, 31);
            lemma_small_mod(pow2((30 - log_size) as nat), CIRCLE_ORDER as nat);
        }
        Coset::new(CirclePointIndex::subgroup_gen(log_size + 1), log_size)
    }

    /// The coset `G_{2^(log_size+2)} + <G_{2^log_size}>`.
    pub fn half_odds(log_size: u32) -> (r: Coset)
        requires
            log_size <= 29,
        ensures
            r.initial_index@ == pow2((29 - log_size) as nat),
            r.log_size == log_size,
            r.wf(),
    {
        proof {
            lemma2_to64();
            vstd::arithmetic::power2::lemma_pow2_strictly_increases((29 - log_size) as nat, 31);
            lemma_small_mod(pow2((29 - log_size) as nat), CIRCLE_ORDER as nat);
        }
        Coset::new(CirclePointIndex::subgroup_gen(log_size + 2), log_size)
    }

    /// The number of elements.
    pub fn size(&self) -> (r: usize)
        requires
            self.wf(),
        ensures
            r == pow2(self.log_size as nat),
    {
        crate::utils::pow2_usize(self.log_size)
    }

    /// The index step between consecutive elements.
    pub fn step_size(&self) -> (r: CirclePointIndex)
        requires
            self.wf(),
        ensures
            r@ == self.step_size_spec(),
            r.wf(),
    {
        CirclePointIndex::subgroup_gen(self.log_size)
    }

    /// The step point.
    pub fn step(&self) -> (r: CirclePoint)
        requires
            self.wf(),
        ensures
            r@ == point_of_index(self.step_size_spec()),
    {
        self.step_size().to_point()
    }

    /// The initial point.
    pub fn initial(&self) -> (r: CirclePoint)
        requires
            self.wf(),
        ensures
            r@ == point_of_index(self.initial_index@),
    {
        self.initial_index.to_point()
    }

    /// The index of the `i`-th element.
    pub fn index_at(&self, i: usize) -> (r: CirclePointIndex)
        requires
            self.wf(),
        ensures
            r@ == self.index_at_spec(i as int),
            r.wf(),
    {
        let s = self.step_size().mul(i);
        let r = self.initial_index.add(s);
        proof {
            vstd::arithmetic::div_mod::lemma_add_mod_noop_right(
                self.initial_index@,
                self.step_size_spec() * (i as int),
                CIRCLE_ORDER as int,
            );
            lemma_small_mod(self.initial_index.idx as nat, CIRCLE_ORDER as nat);
        }
        r
    }

    /// The `i`-th element.
    pub fn at(&self, i: usize) -> (r: CirclePoint)
        requires
            self.wf(),
        ensures
            r@ == point_of_index(self.index_at_spec(i as int)),
    {
        self.index_at(i).to_point()
    }

    /// The coset doubled pointwise: double the initial point, halve the size.
    pub fn double(&self) -> (r: Coset)
        requires
            self.wf(),
            self.log_size >= 1,
        ensures
            r.initial_index@ == (2 * self.initial_index@) % (CIRCLE_ORDER as int),
            r.log_size == self.log_size - 1,
            r.wf(),
    {
        Coset::new(self.initial_index.add(self.initial_index), (self.log_size - 1) as u32)
    }

    /// The coset shifted by an index.
    pub fn shift(&self, shift_size: CirclePointIndex) -> (r: Coset)
        requires
            self.wf(),
            shift_size.wf(),
        ensures
            r.initial_index@ == (self.initial_index@ + shift_size@) % (CIRCLE_ORDER as int),
            r.log_size == self.log_size,
            r.wf(),
    {
        Coset::new(self.initial_index.add(shift_size), self.log_size)
    }
}

/// A circle domain: the union of a half coset and its pointwise inverse.
#[derive(Clone, Copy, PartialEq, Eq, Structural, Debug)]
pub struct CircleDomain {
    pub half_coset: Coset,
}

impl CircleDomain {
    /// Whether the domain description is well formed.
    pub open spec fn wf(self) -> bool {
        self.half_coset.wf() && self.half_coset.log_size <= 30
    }

    /// The log of the number of points.
    pub open spec fn log_size_spec(self) -> int {
        self.half_coset.log_size + 1
    }

    /// The index of the `i`-th point in natural traversal order: the half
    /// coset first, then its pointwise inverse.
    pub open spec fn index_at_spec(self, i: int) -> int {
        if i < pow2(self.half_coset.log_size as nat) {
            self.half_coset.index_at_spec(i)
        } else {
            (CIRCLE_ORDER - self.half_coset.index_at_spec(
                i - pow2(self.half_coset.log_size as nat),
            )) % (CIRCLE_ORDER as int)
        }
    }

    /// Builds the domain over a half coset.
    pub fn new(half_coset: Coset) -> (r: CircleDomain)
        requires
            half_coset.wf(),
            half_coset.log_size <= 30,
        ensures
            r == (CircleDomain { half_coset }),
            r.wf(),
    {
        CircleDomain { half_coset }
    }

    /// The log of the number of points.
    pub fn log_size(&self) -> (r: u32)
        requires
            self.wf(),
        ensures
            r == self.log_size_spec(),
    {
        self.half_coset.log_size + 1
    }

    /// The number of points.
    pub fn size(&self) -> (r: usize)
        requires
            self.wf(),
        ensures
            r == pow2(self.log_size_spec() as nat),
    {
        crate::utils::pow2_usize(self.half_coset.log_size + 1)
    }

    /// The index of the `i`-th point in natural traversal order.
    pub fn index_at(&self, i: usize) -> (r: CirclePointIndex)
        requires
            self.wf(),
        ensures
            r@ == self.index_at_spec(i as int),
            r.wf(),
    {
        let half = self.half_coset.size();
        if i < half {
            self.half_coset.index_at(i)
        } else {
            self.half_coset.index_at(i - half).neg()
        }
    }

    /// The `i`-th point in natural traversal order.
    pub fn at(&self, i: usize) -> (r: CirclePoint)
        requires
            self.wf(),
        ensures
            r@ == point_of_index(self.index_at_spec(i as int)),
    {
        self.index_at(i).to_point()
    }

    /// Splits off a subdomain whose step is `2^log_parts` times larger, and
    /// returns the shift indices whose cosets tile this domain.
    pub fn split(&self, log_parts: u32) -> (r: (CircleDomain, Vec<CirclePointIndex>))
        requires
            self.wf(),
            log_parts <= self.half_coset.log_size,
        ensures
            r.0.half_coset.initial_index == self.half_coset.initial_index,
            r.0.half_coset.log_size == self.half_coset.log_size - log_parts,
            r.0.wf(),
            r.1.len() == pow2(log_parts as nat),
            forall|i: int|
                0 <= i < r.1.len() ==> (#[trigger] r.1[i])@ == (self.half_coset.step_size_spec()
                    * i) % (CIRCLE_ORDER as int),
            forall|i: int| 0 <= i < r.1.len() ==> (#[trigger] r.1[i]).wf(),
    {
        let subdomain = CircleDomain::new(
            Coset::new(
                self.half_coset.initial_index,
                self.half_coset.log_size - log_parts,
            ),
        );
        let n = crate::utils::pow2_usize(log_parts);
        let step = self.half_coset.step_size();
        let mut shifts: Vec<CirclePointIndex> = Vec::new();
        let mut i: usize = 0;
        while i < n
            invariant
                i <= n,
                shifts.len() == i,
                step@ == self.half_coset.step_size_spec(),
                step.wf(),
                forall|j: int|
                    0 <= j < i ==> (#[trigger] shifts[j])@ == (self.half_coset.step_size_spec()
                        * j) % (CIRCLE_ORDER as int),
                forall|j: int| 0 <= j < i ==> (#[trigger] shifts[j]).wf(),
            decreases n - i,
        {
            shifts.push(step.mul(i));
            i = i + 1;
        }
        (subdomain, shifts)
    }

    /// The domain shifted by an index.
    pub fn shift(&self, shift_size: CirclePointIndex) -> (r: CircleDomain)
        requires
            self.wf(),
            shift_size.wf(),
        ensures
            r.half_coset.initial_index@ == (self.half_coset.initial_index@ + shift_size@) % (
            CIRCLE_ORDER as int),
            r.half_coset.log_size == self.half_coset.log_size,
            r.wf(),
    {
        CircleDomain::new(self.half_coset.shift(shift_size))
    }
}

/// The canonic coset `G_{2^(log_size+1)} + <G_{2^log_size}>` whose circle
/// domain carries evaluations of canonic polynomials.
#[derive(Clone, Copy, PartialEq, Eq, Structural, Debug)]
pub struct CanonicCoset {
    pub coset: Coset,
}

impl CanonicCoset {
    /// Whether the description is well formed.
    pub open spec fn wf(self) -> bool {
        self.coset.wf() && 1 <= self.coset.log_size <= 30
    }

    /// Builds the canonic coset of size `2^log_size`.
    pub fn new(log_size: u32) -> (r: CanonicCoset)
        requires
            1 <= log_size <= 30,
        ensures
            r.coset.initial_index@ == pow2((30 - log_size) as nat),
            r.coset.log_size == log_size,
            r.wf(),
    {
        CanonicCoset { coset: Coset::odds(log_size) }
    }

    /// The log of the number of elements.
    pub fn log_size(&self) -> (r: u32)
        requires
            self.wf(),
        ensures
            r == self.coset.log_size,
    {
        self.coset.log_size
    }

    /// The number of elements.
    pub fn size(&self) -> (r: usize)
        requires
            self.wf(),
        ensures
            r == pow2(self.coset.log_size as nat),
    {
        self.coset.size()
    }

    /// The half coset whose circle domain matches this coset.
    pub fn half_coset(&self) -> (r: Coset)
        requires
            self.wf(),
        ensures
            r.initial_index@ == pow2((30 - self.coset.log_size) as nat),
            r.log_size == self.coset.log_size - 1,
            r.wf(),
    {
        Coset::half_odds(self.coset.log_size - 1)
    }

    /// The circle domain holding the same points as this coset.
    pub fn circle_domain(&self) -> (r: CircleDomain)
        requires
            self.wf(),
        ensures
            r.half_coset.initial_index@ == pow2((30 - self.coset.log_size) as nat),
            r.half_coset.log_size == self.coset.log_size - 1,
            r.wf(),
    {
        CircleDomain::new(self.half_coset())
    }
}

/// The iterated squarings of the generator, one small proof each, with
/// the division witnesses supplied so each reduction is linear.
proof fn lemma_gen_sq_0()
    ensures
        cmul((2int, 1268011823int), (2int, 1268011823int)) == (7int, 777079998int),
{
    vstd::arithmetic::div_mod::lemma_fundamental_div_mod_converse_mod(4int, 0x7fff_ffffint, 0int, 4int);
    vstd::arithmetic::div_mod::lemma_fundamental_div_mod_converse_mod(1607853983267783329int, 0x7fff_ffffint, 748715355int, 2147483644int);
    vstd::arithmetic::div_mod::lemma_fundamental_div_mod_converse_mod(-2147483640int, 0x7fff_ffffint, -1int, 7int);
    vstd::arithmetic::div_mod::lemma_fundamental_div_mod_converse_mod(2536023646int, 0x7fff_ffffint, 1int, 388539999int);
    vstd::arithmetic::div_mod::lemma_fundamental_div_mod_converse_mod(777079998int, 0x7fff_ffffint, 0int, 777079998int);
}

proof fn lemma_gen_sq_1()
    ensures
        cmul((7int, 777079998int), (7int, 777079998int)) == (97int, 141701737int),
{
    vstd::arithmetic::div_mod::lemma_fundamental_div_mod_converse_mod(49int, 0x7fff_ffffint, 0int, 49int);
    vstd::arithmetic::div_mod::lemma_fundamental_div_mod_converse_mod(603853323291680004int, 0x7fff_ffffint, 281191115int, 2147483599int);
    vstd::arithmetic::div_mod::lemma_fundamental_div_mod_converse_mod(-2147483550int, 0x7fff_ffffint, -1int, 97int);
    vstd::arithmetic::div_mod::lemma_fundamental_div_mod_converse_mod(5439559986int, 0x7fff_ffffint, 2int, 1144592692int);
    vstd::arithmetic::div_mod::lemma_fundamental_div_mod_converse_mod(2289185384int, 0x7fff_ffffint, 1int, 141701737int);
}

proof fn lemma_gen_sq_2()
    ensures
        cmul((97int, 141701737int), (97int, 141701737int)) == (18817int, 1720333214int),
{
    vstd::arithmetic::div_mod::lemma_fundamental_div_mod_converse_mod(9409int, 0x7fff_ffffint, 0int, 9409int);
    vstd::arithmetic::div_mod::lemma_fundamental_div_mod_converse_mod(20079382268817169int, 0x7fff_ffffint, 9350190int, 2147474239int);
    vstd::arithmetic::div_mod::lemma_fundamental_div_mod_converse_mod(-2147464830int, 0x7fff_ffffint, -1int, 18817int);
    vstd::arithmetic::div_mod::lemma_fundamental_div_mod_converse_mod(13745068489int, 0x7fff_ffffint, 6int, 860166607int);
    vstd::arithmetic::div_mod::lemma_fundamental_div_mod_converse_mod(1720333214int, 0x7fff_ffffint, 0int, 1720333214int);
}

proof fn lemma_gen_sq_3()
    ensures
        cmul((18817int, 1720333214int), (18817int, 1720333214int)) == (708158977int, 683185920int),
{
    vstd::arithmetic::div_mod::lemma_fundamental_div_mod_converse_mod(354079489int, 0x7fff_ffffint, 0int, 354079489int);
    vstd::arithmetic::div_mod::lemma_fundamental_div_mod_converse_mod(2959546367191569796int, 0x7fff_ffffint, 1378146171int, 1793404159int);
    vstd::arithmetic::div_mod::lemma_fundamental_div_mod_converse_mod(-1439324670int, 0x7fff_ffffint, -1int, 708158977int);
    vstd::arithmetic::div_mod::lemma_fundamental_div_mod_converse_mod(32371510087838int, 0x7fff_ffffint, 15074int, 341592960int);
    vstd::arithmetic::div_mod::lemma_fundamental_div_mod_converse_mod(683185920int, 0x7fff_ffffint, 0int, 683185920int);
}

proof fn lemma_gen_sq_4()
    ensures
        cmul((708158977int, 683185920int), (708158977int, 683185920int)) == (334835419int, 1444967316int),
{
    vstd::arithmetic::div_mod::lemma_fundamental_div_mod_converse_mod(501489136705686529int, 0x7fff_ffffint, 233524077int, 167417710int);
    vstd::arithmetic::div_mod::lemma_fundamental_div_mod_converse_mod(466743001286246400int, 0x7fff_ffffint, 217344146int, 1980065938int);
    vstd::arithmetic::div_mod::lemma_fundamental_div_mod_converse_mod(-1812648228int, 0x7fff_ffffint, -1int, 334835419int);
    vstd::arithmetic::div_mod::lemma_fundamental_div_mod_converse_mod(483804242208003840int, 0x7fff_ffffint, 225288906int, 722483658int);
    vstd::arithmetic::div_mod::lemma_fundamental_div_mod_converse_mod(1444967316int, 0x7fff_ffffint, 0int, 1444967316int);
}

proof fn lemma_gen_sq_5()
    ensures
        cmul((334835419int, 1444967316int), (334835419int, 1444967316int)) == (2042371533int, 1362265296int),
{
    vstd::arithmetic::div_mod::lemma_fundamental_div_mod_converse_mod(112114757816905561int, 0x7fff_ffffint, 52207502int, 1021185767int);
    vstd::arithmetic::div_mod::lemma_fundamental_div_mod_converse_mod(2087930544308243856int, 0x7fff_ffffint, 972268425int, 1126297881int);
    vstd::arithmetic::div_mod::lemma_fundamental_div_mod_converse_mod(-105112114int, 0x7fff_ffffint, -1int, 2042371533int);
    vstd::arithmetic::div_mod::lemma_fundamental_div_mod_converse_mod(483826236694165404int, 0x7fff_ffffint, 225299148int, 681132648int);
    vstd::arithmetic::div_mod::lemma_fundamental_div_mod_converse_mod(1362265296int, 0x7fff_ffffint, 0int, 1362265296int);
}

proof fn lemma_gen_sq_6()
    ensures
        cmul((2042371533int, 1362265296int), (2042371533int, 1362265296int)) == (212706801int, 1223819887int),
{
    vstd::arithmetic::div_mod::lemma_fundamental_div_mod_converse_mod(4171281478808770089int, 0x7fff_ffffint, 1942404304int, 106353401int);
    vstd::arithmetic::div_mod::lemma_fundamental_div_mod_converse_mod(1855766736685967616int, 0x7fff_ffffint, 864158727int, 2041130247int);
    vstd::arithmetic::div_mod::lemma_fundamental_div_mod_converse_mod(-1934776846int, 0x7fff_ffffint, -1int, 212706801int);
    vstd::arithmetic::div_mod::lemma_fundamental_div_mod_converse_mod(2782251860944218768int, 0x7fff_ffffint, 1295586983int, 1685651767int);
    vstd::arithmetic::div_mod::lemma_fundamental_div_mod_converse_mod(3371303534int, 0x7fff_ffffint, 1int, 1223819887int);
}

proof fn lemma_gen_sq_7()
    ensures
        cmul((212706801int, 1223819887int), (212706801int, 1223819887int)) == (421007138int, 256177860int),
{
    vstd::arithmetic::div_mod::lemma_fundamental_div_mod_converse_mod(45244183191653601int, 0x7fff_ffffint, 21068464int, 1284245393int);
    vstd::arithmetic::div_mod::lemma_fundamental_div_mod_converse_mod(1497735115816692769int, 0x7fff_ffffint, 697437262int, 863238255int);
    vstd::arithmetic::div_mod::lemma_fundamental_div_mod_converse_mod(421007138int, 0x7fff_ffffint, 0int, 421007138int);
    vstd::arithmetic::div_mod::lemma_fundamental_div_mod_converse_mod(260314813163951487int, 0x7fff_ffffint, 121218531int, 128088930int);
    vstd::arithmetic::div_mod::lemma_fundamental_div_mod_converse_mod(256177860int, 0x7fff_ffffint, 0int, 256177860int);
}

proof fn lemma_gen_sq_8()
    ensures
        cmul((421007138int, 256177860int), (421007138int, 256177860int)) == (6346213int, 905523693int),
{
    vstd::arithmetic::div_mod::lemma_fundamental_div_mod_converse_mod(177247010246951044int, 0x7fff_ffffint, 82537071int, 3173107int);
    vstd::arithmetic::div_mod::lemma_fundamental_div_mod_converse_mod(65627095954179600int, 0x7fff_ffffint, 30559997int, 2144310541int);
    vstd::arithmetic::div_mod::lemma_fundamental_div_mod_converse_mod(-2141137434int, 0x7fff_ffffint, -1int, 6346213int);
    vstd::arithmetic::div_mod::lemma_fundamental_div_mod_converse_mod(107852707657564680int, 0x7fff_ffffint, 50222830int, 1526503670int);
    vstd::arithmetic::div_mod::lemma_fundamental_div_mod_converse_mod(3053007340int, 0x7fff_ffffint, 1int, 905523693int);
}

proof fn lemma_gen_sq_9()
    ensures
        cmul((6346213int, 905523693int), (6346213int, 905523693int)) == (1022251061int, 788094511int),
{
    vstd::arithmetic::div_mod::lemma_fundamental_div_mod_converse_mod(40274419441369int, 0x7fff_ffffint, 18754int, 511125531int);
    vstd::arithmetic::div_mod::lemma_fundamental_div_mod_converse_mod(819973158584358249int, 0x7fff_ffffint, 381829756int, 1636358117int);
    vstd::arithmetic::div_mod::lemma_fundamental_div_mod_converse_mod(-1125232586int, 0x7fff_ffffint, -1int, 1022251061int);
    vstd::arithmetic::div_mod::lemma_fundamental_div_mod_converse_mod(5746646232324609int, 0x7fff_ffffint, 2675990int, 1467789079int);
    vstd::arithmetic::div_mod::lemma_fundamental_div_mod_converse_mod(2935578158int, 0x7fff_ffffint, 1int, 788094511int);
}

proof fn lemma_gen_sq_10()
    ensures
        cmul((1022251061int, 788094511int), (1022251061int, 788094511int)) == (1633461177int, 574296567int),
{
    vstd::arithmetic::div_mod::lemma_fundamental_div_mod_converse_mod(1044997231715625721int, 0x7fff_ffffint, 486614756int, 816730589int);
    vstd::arithmetic::div_mod::lemma_fundamental_div_mod_converse_mod(621092958268329121int, 0x7fff_ffffint, 289218946int, 1330753059int);
    vstd::arithmetic::div_mod::lemma_fundamental_div_mod_converse_mod(-514022470int, 0x7fff_ffffint, -1int, 1633461177int);
    vstd::arithmetic::div_mod::lemma_fundamental_div_mod_converse_mod(805630450038026171int, 0x7fff_ffffint, 375150912int, 1360890107int);
    vstd::arithmetic::div_mod::lemma_fundamental_div_mod_converse_mod(2721780214int, 0x7fff_ffffint, 1int, 574296567int);
}

proof fn lemma_gen_sq_11()
    ensures
        cmul((1633461177int, 574296567int), (1633461177int, 574296567int)) == (595037635int, 2111542451int),
{
    vstd::arithmetic::div_mod::lemma_fundamental_div_mod_converse_mod(2668195416766225329int, 0x7fff_ffffint, 1242475313int, 297518818int);
    vstd::arithmetic::div_mod::lemma_fundamental_div_mod_converse_mod(329816546867985489int, 0x7fff_ffffint, 153582797int, 1849964830int);
    vstd::arithmetic::div_mod::lemma_fundamental_div_mod_converse_mod(-1552446012int, 0x7fff_ffffint, -1int, 595037635int);
    vstd::arithmetic::div_mod::lemma_fundamental_div_mod_converse_mod(938091146278879359int, 0x7fff_ffffint, 436832730int, 2129513049int);
    vstd::arithmetic::div_mod::lemma_fundamental_div_mod_converse_mod(4259026098int, 0x7fff_ffffint, 1int, 2111542451int);
}

proof fn lemma_gen_sq_12()
    ensures
        cmul((595037635int, 2111542451int), (595037635int, 2111542451int)) == (1799120754int, 343598868int),
{
    vstd::arithmetic::div_mod::lemma_fundamental_div_mod_converse_mod(354069787066393225int, 0x7fff_ffffint, 164876592int, 1973302201int);
    vstd::arithmetic::div_mod::lemma_fundamental_div_mod_converse_mod(4458611522375087401int, 0x7fff_ffffint, 2076202782int, 174181447int);
    vstd::arithmetic::div_mod::lemma_fundamental_div_mod_converse_mod(1799120754int, 0x7fff_ffffint, 0int, 1799120754int);
    vstd::arithmetic::div_mod::lemma_fundamental_div_mod_converse_mod(1256447226245143385int, 0x7fff_ffffint, 585078833int, 171799434int);
    vstd::arithmetic::div_mod::lemma_fundamental_div_mod_converse_mod(343598868int, 0x7fff_ffffint, 0int, 343598868int);
}

proof fn lemma_gen_sq_13()
    ensures
        cmul((1799120754int, 343598868int), (1799120754int, 343598868int)) == (438833264int, 1327019128int),
{
    vstd::arithmetic::div_mod::lemma_fundamental_div_mod_converse_mod(3236835487473528516int, 0x7fff_ffffint, 1507268980int, 1293158456int);
    vstd::arithmetic::div_mod::lemma_fundamental_div_mod_converse_mod(118060182090881424int, 0x7fff_ffffint, 54976056int, 854325192int);
    vstd::arithmetic::div_mod::lemma_fundamental_div_mod_converse_mod(438833264int, 0x7fff_ffffint, 0int, 438833264int);
    vstd::arithmetic::div_mod::lemma_fundamental_div_mod_converse_mod(618175854469706472int, 0x7fff_ffffint, 287860564int, 663509564int);
    vstd::arithmetic::div_mod::lemma_fundamental_div_mod_converse_mod(1327019128int, 0x7fff_ffffint, 0int, 1327019128int);
}

proof fn lemma_gen_sq_14()
    ensures
        cmul((438833264int, 1327019128int), (438833264int, 1327019128int)) == (1389168750int, 838891026int),
{
    vstd::arithmetic::div_mod::lemma_fundamental_div_mod_converse_mod(192574633592893696int, 0x7fff_ffffint, 89674551int, 1768326199int);
    vstd::arithmetic::div_mod::lemma_fundamental_div_mod_converse_mod(1760979766077880384int, 0x7fff_ffffint, 820020105int, 379157449int);
    vstd::arithmetic::div_mod::lemma_fundamental_div_mod_converse_mod(1389168750int, 0x7fff_ffffint, 0int, 1389168750int);
    vstd::arithmetic::div_mod::lemma_fundamental_div_mod_converse_mod(582340135330673792int, 0x7fff_ffffint, 271173257int, 419445513int);
    vstd::arithmetic::div_mod::lemma_fundamental_div_mod_converse_mod(838891026int, 0x7fff_ffffint, 0int, 838891026int);
}

proof fn lemma_gen_sq_15()
    ensures
        cmul((1389168750int, 838891026int), (1389168750int, 838891026int)) == (1543902459int, 1632329423int),
{
    vstd::arithmetic::div_mod::lemma_fundamental_div_mod_converse_mod(1929789815976562500int, 0x7fff_ffffint, 898628410int, 771951230int);
    vstd::arithmetic::div_mod::lemma_fundamental_div_mod_converse_mod(703738153503332676int, 0x7fff_ffffint, 327703614int, 1375532418int);
    vstd::arithmetic::div_mod::lemma_fundamental_div_mod_converse_mod(-603581188int, 0x7fff_ffffint, -1int, 1543902459int);
    vstd::arithmetic::div_mod::lemma_fundamental_div_mod_converse_mod(1165361197974637500int, 0x7fff_ffffint, 542663595int, 1889906535int);
    vstd::arithmetic::div_mod::lemma_fundamental_div_mod_converse_mod(3779813070int, 0x7fff_ffffint, 1int, 1632329423int);
}

proof fn lemma_gen_sq_16()
    ensures
        cmul((1543902459int, 1632329423int), (1543902459int, 1632329423int)) == (1330239767int, 1446369578int),
{
    vstd::arithmetic::div_mod::lemma_fundamental_div_mod_converse_mod(2383634802906246681int, 0x7fff_ffffint, 1109966451int, 665119884int);
    vstd::arithmetic::div_mod::lemma_fundamental_div_mod_converse_mod(2664499345191512929int, 0x7fff_ffffint, 1240754195int, 1482363764int);
    vstd::arithmetic::div_mod::lemma_fundamental_div_mod_converse_mod(-817243880int, 0x7fff_ffffint, -1int, 1330239767int);
    vstd::arithmetic::div_mod::lemma_fundamental_div_mod_converse_mod(2520157410067751157int, 0x7fff_ffffint, 1173539744int, 723184789int);
    vstd::arithmetic::div_mod::lemma_fundamental_div_mod_converse_mod(1446369578int, 0x7fff_ffffint, 0int, 1446369578int);
}

proof fn lemma_gen_sq_17()
    ensures
        cmul((1330239767int, 1446369578int), (1330239767int, 1446369578int)) == (1420207432int, 2023238517int),
{
    vstd::arithmetic::div_mod::lemma_fundamental_div_mod_converse_mod(1769537837708214289int, 0x7fff_ffffint, 824005267int, 1783845540int);
    vstd::arithmetic::div_mod::lemma_fundamental_div_mod_converse_mod(2091984956163898084int, 0x7fff_ffffint, 974156408int, 363638108int);
    vstd::arithmetic::div_mod::lemma_fundamental_div_mod_converse_mod(1420207432int, 0x7fff_ffffint, 0int, 1420207432int);
    vstd::arithmetic::div_mod::lemma_fundamental_div_mod_converse_mod(1924018330434608326int, 0x7fff_ffffint, 895940852int, 2085361082int);
    vstd::arithmetic::div_mod::lemma_fundamental_div_mod_converse_mod(4170722164int, 0x7fff_ffffint, 1int, 2023238517int);
}

proof fn lemma_gen_sq_18()
    ensures
        cmul((1420207432int, 2023238517int), (1420207432int, 2023238517int)) == (2015554631int, 1088093947int),
{
    vstd::arithmetic::div_mod::lemma_fundamental_div_mod_converse_mod(2016989149908034624int, 0x7fff_ffffint, 939233764int, 1007777316int);
    vstd::arithmetic::div_mod::lemma_fundamental_div_mod_converse_mod(4093494096672359289int, 0x7fff_ffffint, 1906181731int, 1139706332int);
    vstd::arithmetic::div_mod::lemma_fundamental_div_mod_converse_mod(-131929016int, 0x7fff_ffffint, -1int, 2015554631int);
    vstd::arithmetic::div_mod::lemma_fundamental_div_mod_converse_mod(2873418378552058344int, 0x7fff_ffffint, 1338039701int, 1617788797int);
    vstd::arithmetic::div_mod::lemma_fundamental_div_mod_converse_mod(3235577594int, 0x7fff_ffffint, 1int, 1088093947int);
}

proof fn lemma_gen_sq_19()
    ensures
        cmul((2015554631int, 1088093947int), (2015554631int, 1088093947int)) == (996212859int, 1140996376int),
{
    vstd::arithmetic::div_mod::lemma_fundamental_div_mod_converse_mod(4062460470545546161int, 0x7fff_ffffint, 1891730573int, 498106430int);
    vstd::arithmetic::div_mod::lemma_fundamental_div_mod_converse_mod(1183948437498038809int, 0x7fff_ffffint, 551318953int, 1649377218int);
    vstd::arithmetic::div_mod::lemma_fundamental_div_mod_converse_mod(-1151270788int, 0x7fff_ffffint, -1int, 996212859int);
    vstd::arithmetic::div_mod::lemma_fundamental_div_mod_converse_mod(2193112793838918557int, 0x7fff_ffffint, 1021247727int, 570498188int);
    vstd::arithmetic::div_mod::lemma_fundamental_div_mod_converse_mod(1140996376int, 0x7fff_ffffint, 0int, 1140996376int);
}

proof fn lemma_gen_sq_20()
    ensures
        cmul((996212859int, 1140996376int), (996212859int, 1140996376int)) == (1434706457int, 1835793811int),
{
    vstd::arithmetic::div_mod::lemma_fundamental_div_mod_converse_mod(992440060436953881int, 0x7fff_ffffint, 462140916int, 717353229int);
    vstd::arithmetic::div_mod::lemma_fundamental_div_mod_converse_mod(1301872730045133376int, 0x7fff_ffffint, 606231731int, 1430130419int);
    vstd::arithmetic::div_mod::lemma_fundamental_div_mod_converse_mod(-712777190int, 0x7fff_ffffint, -1int, 1434706457int);
    vstd::arithmetic::div_mod::lemma_fundamental_div_mod_converse_mod(1136675261843598984int, 0x7fff_ffffint, 529305665int, 1991638729int);
    vstd::arithmetic::div_mod::lemma_fundamental_div_mod_converse_mod(3983277458int, 0x7fff_ffffint, 1int, 1835793811int);
}

proof fn lemma_gen_sq_21()
    ensures
        cmul((1434706457int, 1835793811int), (1434706457int, 1835793811int)) == (13610297int, 1064696601int),
{
    vstd::arithmetic::div_mod::lemma_fundamental_div_mod_converse_mod(2058382617757492849int, 0x7fff_ffffint, 958509100int, 6805149int);
    vstd::arithmetic::div_mod::lemma_fundamental_div_mod_converse_mod(3370138916505903721int, 0x7fff_ffffint, 1569343226int, 2140678499int);
    vstd::arithmetic::div_mod::lemma_fundamental_div_mod_converse_mod(-2133873350int, 0x7fff_ffffint, -1int, 13610297int);
    vstd::arithmetic::div_mod::lemma_fundamental_div_mod_converse_mod(2633825234362337627int, 0x7fff_ffffint, 1226470449int, 1606090124int);
    vstd::arithmetic::div_mod::lemma_fundamental_div_mod_converse_mod(3212180248int, 0x7fff_ffffint, 1int, 1064696601int);
}

proof fn lemma_gen_sq_22()
    ensures
        cmul((13610297int, 1064696601int), (13610297int, 1064696601int)) == (785043271int, 1260750973int),
{
    vstd::arithmetic::div_mod::lemma_fundamental_div_mod_converse_mod(185240184428209int, 0x7fff_ffffint, 86259int, 392521636int);
    vstd::arithmetic::div_mod::lemma_fundamental_div_mod_converse_mod(1133578852180953201int, 0x7fff_ffffint, 527863787int, 1754962012int);
    vstd::arithmetic::div_mod::lemma_fundamental_div_mod_converse_mod(-1362440376int, 0x7fff_ffffint, -1int, 785043271int);
    vstd::arithmetic::div_mod::lemma_fundamental_div_mod_converse_mod(14490836954500497int, 0x7fff_ffffint, 6747821int, 1704117310int);
    vstd::arithmetic::div_mod::lemma_fundamental_div_mod_converse_mod(3408234620int, 0x7fff_ffffint, 1int, 1260750973int);
}

proof fn lemma_gen_sq_23()
    ensures
        cmul((785043271int, 1260750973int), (785043271int, 1260750973int)) == (838195206int, 1774253895int),
{
    vstd::arithmetic::div_mod::lemma_fundamental_div_mod_converse_mod(616292937342379441int, 0x7fff_ffffint, 286983762int, 1492839427int);
    vstd::arithmetic::div_mod::lemma_fundamental_div_mod_converse_mod(1589493015920446729int, 0x7fff_ffffint, 740165364int, 654644221int);
    vstd::arithmetic::div_mod::lemma_fundamental_div_mod_converse_mod(838195206int, 0x7fff_ffffint, 0int, 838195206int);
    vstd::arithmetic::div_mod::lemma_fundamental_div_mod_converse_mod(989744067760352683int, 0x7fff_ffffint, 460885496int, 1960868771int);
    vstd::arithmetic::div_mod::lemma_fundamental_div_mod_converse_mod(3921737542int, 0x7fff_ffffint, 1int, 1774253895int);
}

proof fn lemma_gen_sq_24()
    ensures
        cmul((838195206int, 1774253895int), (838195206int, 1774253895int)) == (579625837int, 1690787918int),
{
    vstd::arithmetic::div_mod::lemma_fundamental_div_mod_converse_mod(702571203361382436int, 0x7fff_ffffint, 327160211int, 289812919int);
    vstd::arithmetic::div_mod::lemma_fundamental_div_mod_converse_mod(3147976883922671025int, 0x7fff_ffffint, 1465890968int, 1857670729int);
    vstd::arithmetic::div_mod::lemma_fundamental_div_mod_converse_mod(-1567857810int, 0x7fff_ffffint, -1int, 579625837int);
    vstd::arithmetic::div_mod::lemma_fundamental_div_mod_converse_mod(1487171109015827370int, 0x7fff_ffffint, 692518013int, 845393959int);
    vstd::arithmetic::div_mod::lemma_fundamental_div_mod_converse_mod(1690787918int, 0x7fff_ffffint, 0int, 1690787918int);
}

proof fn lemma_gen_sq_25()
    ensures
        cmul((579625837int, 1690787918int), (579625837int, 1690787918int)) == (1179735656int, 1241207368int),
{
    vstd::arithmetic::div_mod::lemma_fundamental_div_mod_converse_mod(335966110917950569int, 0x7fff_ffffint, 156446411int, 1663609652int);
    vstd::arithmetic::div_mod::lemma_fundamental_div_mod_converse_mod(2858763783654774724int, 0x7fff_ffffint, 1331215624int, 483873996int);
    vstd::arithmetic::div_mod::lemma_fundamental_div_mod_converse_mod(1179735656int, 0x7fff_ffffint, 0int, 1179735656int);
    vstd::arithmetic::div_mod::lemma_fundamental_div_mod_converse_mod(980024362160237366int, 0x7fff_ffffint, 456359406int, 620603684int);
    vstd::arithmetic::div_mod::lemma_fundamental_div_mod_converse_mod(1241207368int, 0x7fff_ffffint, 0int, 1241207368int);
}

proof fn lemma_gen_sq_26()
    ensures
        cmul((1179735656int, 1241207368int), (1179735656int, 1241207368int)) == (590768354int, 978592373int),
{
    vstd::arithmetic::div_mod::lemma_fundamental_div_mod_converse_mod(1391776218037750336int, 0x7fff_ffffint, 648096305int, 1369126001int);
    vstd::arithmetic::div_mod::lemma_fundamental_div_mod_converse_mod(1540595730377487424int, 0x7fff_ffffint, 717395791int, 778357647int);
    vstd::arithmetic::div_mod::lemma_fundamental_div_mod_converse_mod(590768354int, 0x7fff_ffffint, 0int, 590768354int);
    vstd::arithmetic::div_mod::lemma_fundamental_div_mod_converse_mod(1464296588519513408int, 0x7fff_ffffint, 681866234int, 1563038010int);
    vstd::arithmetic::div_mod::lemma_fundamental_div_mod_converse_mod(3126076020int, 0x7fff_ffffint, 1int, 978592373int);
}

proof fn lemma_gen_sq_27()
    ensures
        cmul((590768354int, 978592373int), (590768354int, 978592373int)) == (32768int, 2147450879int),
{
    vstd::arithmetic::div_mod::lemma_fundamental_div_mod_converse_mod(349007248087869316int, 0x7fff_ffffint, 162519164int, 1073758208int);
    vstd::arithmetic::div_mod::lemma_fundamental_div_mod_converse_mod(957643032493771129int, 0x7fff_ffffint, 445937287int, 1073725440int);
    vstd::arithmetic::div_mod::lemma_fundamental_div_mod_converse_mod(32768int, 0x7fff_ffffint, 0int, 32768int);
    vstd::arithmetic::div_mod::lemma_fundamental_div_mod_converse_mod(578121405434164042int, 0x7fff_ffffint, 269208757int, 2147467263int);
    vstd::arithmetic::div_mod::lemma_fundamental_div_mod_converse_mod(4294934526int, 0x7fff_ffffint, 1int, 2147450879int);
}

proof fn lemma_gen_sq_28()
    ensures
        cmul((32768int, 2147450879int), (32768int, 2147450879int)) == (0int, 2147483646int),
{
    vstd::arithmetic::div_mod::lemma_fundamental_div_mod_converse_mod(1073741824int, 0x7fff_ffffint, 0int, 1073741824int);
    vstd::arithmetic::div_mod::lemma_fundamental_div_mod_converse_mod(4611545277717872641int, 0x7fff_ffffint, 2147418111int, 1073741824int);
    vstd::arithmetic::div_mod::lemma_fundamental_div_mod_converse_mod(0int, 0x7fff_ffffint, 0int, 0int);
    vstd::arithmetic::div_mod::lemma_fundamental_div_mod_converse_mod(70367670403072int, 0x7fff_ffffint, 32767int, 1073741823int);
    vstd::arithmetic::div_mod::lemma_fundamental_div_mod_converse_mod(2147483646int, 0x7fff_ffffint, 0int, 2147483646int);
}

proof fn lemma_gen_sq_29()
    ensures
        cmul((0int, 2147483646int), (0int, 2147483646int)) == (2147483646int, 0int),
{
    vstd::arithmetic::div_mod::lemma_fundamental_div_mod_converse_mod(0int, 0x7fff_ffffint, 0int, 0int);
    vstd::arithmetic::div_mod::lemma_fundamental_div_mod_converse_mod(4611686009837453316int, 0x7fff_ffffint, 2147483645int, 1int);
    vstd::arithmetic::div_mod::lemma_fundamental_div_mod_converse_mod(-1int, 0x7fff_ffffint, -1int, 2147483646int);
    vstd::arithmetic::div_mod::lemma_fundamental_div_mod_converse_mod(0int, 0x7fff_ffffint, 0int, 0int);
    vstd::arithmetic::div_mod::lemma_fundamental_div_mod_converse_mod(0int, 0x7fff_ffffint, 0int, 0int);
}

proof fn lemma_gen_sq_30()
    ensures
        cmul((2147483646int, 0int), (2147483646int, 0int)) == (1int, 0int),
{
    vstd::arithmetic::div_mod::lemma_fundamental_div_mod_converse_mod(4611686009837453316int, 0x7fff_ffffint, 2147483645int, 1int);
    vstd::arithmetic::div_mod::lemma_fundamental_div_mod_converse_mod(0int, 0x7fff_ffffint, 0int, 0int);
    vstd::arithmetic::div_mod::lemma_fundamental_div_mod_converse_mod(1int, 0x7fff_ffffint, 0int, 1int);
    vstd::arithmetic::div_mod::lemma_fundamental_div_mod_converse_mod(0int, 0x7fff_ffffint, 0int, 0int);
    vstd::arithmetic::div_mod::lemma_fundamental_div_mod_converse_mod(0int, 0x7fff_ffffint, 0int, 0int);
}

proof fn lemma_order_chain_0_8()
    ensures
        cpow((2int, 1268011823int), pow2(31)) == cpow((421007138int, 256177860int), pow2(23)),
{
    lemma2_to64();
    lemma_gen_sq_0();
    lemma_pow2_unfold(31);
    lemma_cpow_double((2int, 1268011823int), pow2(30));
    lemma_gen_sq_1();
    lemma_pow2_unfold(30);
    lemma_cpow_double((7int, 777079998int), pow2(29));
    lemma_gen_sq_2();
    lemma_pow2_unfold(29);
    lemma_cpow_double((97int, 141701737int), pow2(28));
    lemma_gen_sq_3();
    lemma_pow2_unfold(28);
    lemma_cpow_double((18817int, 1720333214int), pow2(27));
    lemma_gen_sq_4();
    lemma_pow2_unfold(27);
    lemma_cpow_double((708158977int, 683185920int), pow2(26));
    lemma_gen_sq_5();
    lemma_pow2_unfold(26);
    lemma_cpow_double((334835419int, 1444967316int), pow2(25));
    lemma_gen_sq_6();
    lemma_pow2_unfold(25);
    lemma_cpow_double((2042371533int, 1362265296int), pow2(24));
    lemma_gen_sq_7();
    lemma_pow2_unfold(24);
    lemma_cpow_double((212706801int, 1223819887int), pow2(23));
}

proof fn lemma_order_chain_8_16()
    ensures
        cpow((421007138int, 256177860int), pow2(23)) == cpow((1543902459int, 1632329423int), pow2(15)),
{
    lemma2_to64();
    lemma_gen_sq_8();
    lemma_pow2_unfold(23);
    lemma_cpow_double((421007138int, 256177860int), pow2(22));
    lemma_gen_sq_9();
    lemma_pow2_unfold(22);
    lemma_cpow_double((6346213int, 905523693int), pow2(21));
    lemma_gen_sq_10();
    lemma_pow2_unfold(21);
    lemma_cpow_double((1022251061int, 788094511int), pow2(20));
    lemma_gen_sq_11();
    lemma_pow2_unfold(20);
    lemma_cpow_double((1633461177int, 574296567int), pow2(19));
    lemma_gen_sq_12();
    lemma_pow2_unfold(19);
    lemma_cpow_double((595037635int, 2111542451int), pow2(18));
    lemma_gen_sq_13();
    lemma_pow2_unfold(18);
    lemma_cpow_double((1799120754int, 343598868int), pow2(17));
    lemma_gen_sq_14();
    lemma_pow2_unfold(17);
    lemma_cpow_double((438833264int, 1327019128int), pow2(16));
    lemma_gen_sq_15();
    lemma_pow2_unfold(16);
    lemma_cpow_double((1389168750int, 838891026int), pow2(15));
}

proof fn lemma_order_chain_16_24()
    ensures
        cpow((1543902459int, 1632329423int), pow2(15)) == cpow((838195206int, 1774253895int), pow2(7)),
{
    lemma2_to64();
    lemma_gen_sq_16();
    lemma_pow2_unfold(15);
    lemma_cpow_double((1543902459int, 1632329423int), pow2(14));
    lemma_gen_sq_17();
    lemma_pow2_unfold(14);
    lemma_cpow_double((1330239767int, 1446369578int), pow2(13));
    lemma_gen_sq_18();
    lemma_pow2_unfold(13);
    lemma_cpow_double((1420207432int, 2023238517int), pow2(12));
    lemma_gen_sq_19();
    lemma_pow2_unfold(12);
    lemma_cpow_double((2015554631int, 1088093947int), pow2(11));
    lemma_gen_sq_20();
    lemma_pow2_unfold(11);
    lemma_cpow_double((996212859int, 1140996376int), pow2(10));
    lemma_gen_sq_21();
    lemma_pow2_unfold(10);
    lemma_cpow_double((1434706457int, 1835793811int), pow2(9));
    lemma_gen_sq_22();
    lemma_pow2_unfold(9);
    lemma_cpow_double((13610297int, 1064696601int), pow2(8));
    lemma_gen_sq_23();
    lemma_pow2_unfold(8);
    lemma_cpow_double((785043271int, 1260750973int), pow2(7));
}

proof fn lemma_order_chain_24_31()
    ensures
        cpow((838195206int, 1774253895int), pow2(7)) == cpow((1int, 0int), pow2(0)),
{
    lemma2_to64();
    lemma_gen_sq_24();
    lemma_pow2_unfold(7);
    lemma_cpow_double((838195206int, 1774253895int), pow2(6));
    lemma_gen_sq_25();
    lemma_pow2_unfold(6);
    lemma_cpow_double((579625837int, 1690787918int), pow2(5));
    lemma_gen_sq_26();
    lemma_pow2_unfold(5);
    lemma_cpow_double((1179735656int, 1241207368int), pow2(4));
    lemma_gen_sq_27();
    lemma_pow2_unfold(4);
    lemma_cpow_double((590768354int, 978592373int), pow2(3));
    lemma_gen_sq_28();
    lemma_pow2_unfold(3);
    lemma_cpow_double((32768int, 2147450879int), pow2(2));
    lemma_gen_sq_29();
    lemma_pow2_unfold(2);
    lemma_cpow_double((0int, 2147483646int), pow2(1));
    lemma_gen_sq_30();
    lemma_pow2_unfold(1);
    lemma_cpow_double((2147483646int, 0int), pow2(0));
}

proof fn lemma_half_chain_0_8()
    ensures
        cpow((2int, 1268011823int), pow2(30)) == cpow((421007138int, 256177860int), pow2(22)),
{
    lemma2_to64();
    lemma_gen_sq_0();
    lemma_pow2_unfold(30);
    lemma_cpow_double((2int, 1268011823int), pow2(29));
    lemma_gen_sq_1();
    lemma_pow2_unfold(29);
    lemma_cpow_double((7int, 777079998int), pow2(28));
    lemma_gen_sq_2();
    lemma_pow2_unfold(28);
    lemma_cpow_double((97int, 141701737int), pow2(27));
    lemma_gen_sq_3();
    lemma_pow2_unfold(27);
    lemma_cpow_double((18817int, 1720333214int), pow2(26));
    lemma_gen_sq_4();
    lemma_pow2_unfold(26);
    lemma_cpow_double((708158977int, 683185920int), pow2(25));
    lemma_gen_sq_5();
    lemma_pow2_unfold(25);
    lemma_cpow_double((334835419int, 1444967316int), pow2(24));
    lemma_gen_sq_6();
    lemma_pow2_unfold(24);
    lemma_cpow_double((2042371533int, 1362265296int), pow2(23));
    lemma_gen_sq_7();
    lemma_pow2_unfold(23);
    lemma_cpow_double((212706801int, 1223819887int), pow2(22));
}

proof fn lemma_half_chain_8_16()
    ensures
        cpow((421007138int, 256177860int), pow2(22)) == cpow((1543902459int, 1632329423int), pow2(14)),
{
    lemma2_to64();
    lemma_gen_sq_8();
    lemma_pow2_unfold(22);
    lemma_cpow_double((421007138int, 256177860int), pow2(21));
    lemma_gen_sq_9();
    lemma_pow2_unfold(21);
    lemma_cpow_double((6346213int, 905523693int), pow2(20));
    lemma_gen_sq_10();
    lemma_pow2_unfold(20);
    lemma_cpow_double((1022251061int, 788094511int), pow2(19));
    lemma_gen_sq_11();
    lemma_pow2_unfold(19);
    lemma_cpow_double((1633461177int, 574296567int), pow2(18));
    lemma_gen_sq_12();
    lemma_pow2_unfold(18);
    lemma_cpow_double((595037635int, 2111542451int), pow2(17));
    lemma_gen_sq_13();
    lemma_pow2_unfold(17);
    lemma_cpow_double((1799120754int, 343598868int), pow2(16));
    lemma_gen_sq_14();
    lemma_pow2_unfold(16);
    lemma_cpow_double((438833264int, 1327019128int), pow2(15));
    lemma_gen_sq_15();
    lemma_pow2_unfold(15);
    lemma_cpow_double((1389168750int, 838891026int), pow2(14));
}

proof fn lemma_half_chain_16_24()
    ensures
        cpow((1543902459int, 1632329423int), pow2(14)) == cpow((838195206int, 1774253895int), pow2(6)),
{
    lemma2_to64();
    lemma_gen_sq_16();
    lemma_pow2_unfold(14);
    lemma_cpow_double((1543902459int, 1632329423int), pow2(13));
    lemma_gen_sq_17();
    lemma_pow2_unfold(13);
    lemma_cpow_double((1330239767int, 1446369578int), pow2(12));
    lemma_gen_sq_18();
    lemma_pow2_unfold(12);
    lemma_cpow_double((1420207432int, 2023238517int), pow2(11));
    lemma_gen_sq_19();
    lemma_pow2_unfold(11);
    lemma_cpow_double((2015554631int, 1088093947int), pow2(10));
    lemma_gen_sq_20();
    lemma_pow2_unfold(10);
    lemma_cpow_double((996212859int, 1140996376int), pow2(9));
    lemma_gen_sq_21();
    lemma_pow2_unfold(9);
    lemma_cpow_double((1434706457int, 1835793811int), pow2(8));
    lemma_gen_sq_22();
    lemma_pow2_unfold(8);
    lemma_cpow_double((13610297int, 1064696601int), pow2(7));
    lemma_gen_sq_23();
    lemma_pow2_unfold(7);
    lemma_cpow_double((785043271int, 1260750973int), pow2(6));
}

proof fn lemma_half_chain_24_30()
    ensures
        cpow((838195206int, 1774253895int), pow2(6)) == cpow((2147483646int, 0int), pow2(0)),
{
    lemma2_to64();
    lemma_gen_sq_24();
    lemma_pow2_unfold(6);
    lemma_cpow_double((838195206int, 1774253895int), pow2(5));
    lemma_gen_sq_25();
    lemma_pow2_unfold(5);
    lemma_cpow_double((579625837int, 1690787918int), pow2(4));
    lemma_gen_sq_26();
    lemma_pow2_unfold(4);
    lemma_cpow_double((1179735656int, 1241207368int), pow2(3));
    lemma_gen_sq_27();
    lemma_pow2_unfold(3);
    lemma_cpow_double((590768354int, 978592373int), pow2(2));
    lemma_gen_sq_28();
    lemma_pow2_unfold(2);
    lemma_cpow_double((32768int, 2147450879int), pow2(1));
    lemma_gen_sq_29();
    lemma_pow2_unfold(1);
    lemma_cpow_double((0int, 2147483646int), pow2(0));
}

/// The generator has order dividing `2^31`.
pub proof fn lemma_gen_order()
    ensures
        cpow(circle_gen(), pow2(31)) == cone(),
{
    lemma2_to64();
    lemma_order_chain_0_8();
    lemma_order_chain_8_16();
    lemma_order_chain_16_24();
    lemma_order_chain_24_31();
    assert(cpow((1int, 0int), 1) == cmul(cpow((1int, 0int), 0), (1int, 0int)));
}

/// Half the order reaches the half turn `(-1, 0)`.
pub proof fn lemma_gen_half_order()
    ensures
        cpow(circle_gen(), pow2(30)) == (2147483646int, 0int),
{
    lemma2_to64();
    lemma_half_chain_0_8();
    lemma_half_chain_8_16();
    lemma_half_chain_16_24();
    lemma_half_chain_24_30();
    assert(cpow((2147483646int, 0int), 1) == cmul(cpow((2147483646int, 0int), 0), (2147483646int, 0int)));
    crate::cm31::lemma_cmul_one_left((2147483646int, 0int));
}


/// Whether a pair lies on the unit circle.
pub open spec fn on_circle(p: (int, int)) -> bool {
    crate::m31::fadd(crate::m31::fmul(p.0, p.0), crate::m31::fmul(p.1, p.1)) == 1
}

proof fn lemma_brahmagupta(a: int, b: int, c: int, d: int)
    ensures
        (a * c - b * d) * (a * c - b * d) + (a * d + b * c) * (a * d + b * c) == (a * a + b * b) * (
        c * c + d * d),
{
    broadcast use vstd::arithmetic::mul::group_mul_properties;

    vstd::arithmetic::mul::lemma_mul_is_associative(a, c, a * c);
    vstd::arithmetic::mul::lemma_mul_is_associative(b, d, b * d);
    vstd::arithmetic::mul::lemma_mul_is_associative(a, d, a * d);
    vstd::arithmetic::mul::lemma_mul_is_associative(b, c, b * c);
    vstd::arithmetic::mul::lemma_mul_is_associative(a, c, b * d);
    vstd::arithmetic::mul::lemma_mul_is_associative(a, d, b * c);
    vstd::arithmetic::mul::lemma_mul_is_associative(a, a, c * c);
    vstd::arithmetic::mul::lemma_mul_is_associative(a, a, d * d);
    vstd::arithmetic::mul::lemma_mul_is_associative(b, b, c * c);
    vstd::arithmetic::mul::lemma_mul_is_associative(b, b, d * d);
}

/// The circle is closed under the group operation.
pub proof fn lemma_on_circle_mul(x: (int, int), y: (int, int))
    requires
        on_circle(x),
        on_circle(y),
    ensures
        on_circle(cmul(x, y)),
{
    let p = crate::m31::P as int;
    let a = x.0 * y.0 - x.1 * y.1;
    let b = x.0 * y.1 + x.1 * y.0;
    crate::cm31::lemma_cmul_unreduced(x, y);
    vstd::arithmetic::div_mod::lemma_mul_mod_noop_general(a, a, p);
    vstd::arithmetic::div_mod::lemma_mul_mod_noop_general(b, b, p);
    vstd::arithmetic::div_mod::lemma_add_mod_noop(a * a, b * b, p);
    lemma_brahmagupta(x.0, x.1, y.0, y.1);
    vstd::arithmetic::div_mod::lemma_mul_mod_noop_general(
        x.0 * x.0 + x.1 * x.1,
        y.0 * y.0 + y.1 * y.1,
        p,
    );
    vstd::arithmetic::div_mod::lemma_add_mod_noop(x.0 * x.0, x.1 * x.1, p);
    vstd::arithmetic::div_mod::lemma_add_mod_noop(y.0 * y.0, y.1 * y.1, p);
    vstd::arithmetic::div_mod::lemma_small_mod(1, p as nat);
}

proof fn lemma_gen_on_circle()
    ensures
        on_circle(circle_gen()),
{
    let p = crate::m31::P as int;
    vstd::arithmetic::div_mod::lemma_fundamental_div_mod_converse_mod(
        1268011823int * 1268011823int,
        0x7fff_ffffint,
        748715355int,
        2147483644int,
    );
    vstd::arithmetic::div_mod::lemma_small_mod(4, p as nat);
    vstd::arithmetic::div_mod::lemma_mod_add_multiples_vanish(1, p);
    vstd::arithmetic::div_mod::lemma_small_mod(1, p as nat);
}

/// Every power of the generator lies on the circle.
pub proof fn lemma_point_on_circle(e: nat)
    ensures
        on_circle(cpow(circle_gen(), e)),
    decreases e,
{
    let p = crate::m31::P as int;
    if e == 0 {
        vstd::arithmetic::div_mod::lemma_small_mod(1, p as nat);
        vstd::arithmetic::div_mod::lemma_small_mod(0, p as nat);
    } else {
        lemma_point_on_circle((e - 1) as nat);
        lemma_gen_on_circle();
        lemma_on_circle_mul(cpow(circle_gen(), (e - 1) as nat), circle_gen());
    }
}

/// On the circle, the conjugate is the group inverse.
pub proof fn lemma_conj_inverse(q: (int, int))
    requires
        on_circle(q),
        c_in_range(q),
    ensures
        cmul(cconj(q), q) == cone(),
{
    let p = crate::m31::P as int;
    let x = q.0;
    let y = q.1;
    crate::m31::lemma_fneg_fmul_left(y, y);
    crate::m31::lemma_fneg_fmul_left(y, x);
    crate::m31::lemma_fmul_comm(y, x);
    // First component: x^2 - (-y)*y == x^2 + y^2 == 1.
    vstd::arithmetic::div_mod::lemma_sub_mod_noop_right(
        crate::m31::fmul(x, x),
        -(y * y % p),
        p,
    );
    vstd::arithmetic::div_mod::lemma_add_mod_noop_right(crate::m31::fmul(x, x), y * y % p, p);
    // Second component: x*y + (-y)*x == 0.
    vstd::arithmetic::div_mod::lemma_add_mod_noop_right(
        crate::m31::fmul(x, y),
        -(crate::m31::fmul(x, y)),
        p,
    );
    vstd::arithmetic::div_mod::lemma_small_mod(0, p as nat);
}

/// Adding indices multiplies points, across the wrap of the group order.
pub proof fn lemma_point_of_index_add(a: int, b: int)
    requires
        0 <= a < CIRCLE_ORDER,
        0 <= b < CIRCLE_ORDER,
    ensures
        point_of_index((a + b) % (CIRCLE_ORDER as int)) == cmul(
            point_of_index(a),
            point_of_index(b),
        ),
{
    let ord = CIRCLE_ORDER as int;
    lemma2_to64();
    lemma_small_mod(a as nat, CIRCLE_ORDER as nat);
    lemma_small_mod(b as nat, CIRCLE_ORDER as nat);
    crate::cm31::lemma_cpow_add(circle_gen(), a as nat, b as nat);
    if a + b < ord {
        lemma_small_mod((a + b) as nat, CIRCLE_ORDER as nat);
    } else {
        let c = a + b - ord;
        vstd::arithmetic::div_mod::lemma_mod_sub_multiples_vanish(a + b, ord);
        lemma_small_mod(c as nat, CIRCLE_ORDER as nat);
        crate::cm31::lemma_cpow_add(circle_gen(), pow2(31), c as nat);
        lemma_gen_order();
        lemma_cpow_range(circle_gen(), c as nat);
        lemma_cmul_one_left(cpow(circle_gen(), c as nat));
    }
}

/// Negating an index conjugates the point.
pub proof fn lemma_point_neg(e: int)
    requires
        0 <= e < CIRCLE_ORDER,
    ensures
        point_of_index((CIRCLE_ORDER - e) % (CIRCLE_ORDER as int)) == cconj(point_of_index(e)),
{
    let ord = CIRCLE_ORDER as int;
    let p = crate::m31::P as int;
    lemma2_to64();
    lemma_small_mod(e as nat, CIRCLE_ORDER as nat);
    let pe = point_of_index(e);
    lemma_point_on_circle(e as nat);
    lemma_cpow_range(circle_gen(), e as nat);
    lemma_conj_inverse(pe);
    if e == 0 {
        vstd::arithmetic::div_mod::lemma_mod_self_0(ord);
        lemma_small_mod(0, CIRCLE_ORDER as nat);
        vstd::arithmetic::div_mod::lemma_small_mod(0, p as nat);
    } else {
        let a = ord - e;
        lemma_point_of_index_add(a, e);
        vstd::arithmetic::div_mod::lemma_mod_self_0(ord);
        lemma_small_mod(a as nat, CIRCLE_ORDER as nat);
        lemma_small_mod(0, CIRCLE_ORDER as nat);
        // Cancel: the index sum gives the identity, and so does the
        // conjugate, so the two inverses coincide.
        let z = point_of_index(a);
        lemma_cpow_range(circle_gen(), a as nat);
        crate::cm31::lemma_cmul_one_right(z);
        crate::cm31::lemma_cmul_comm(pe, cconj(pe));
        crate::cm31::lemma_cmul_assoc(z, pe, cconj(pe));
        assert(c_in_range(cconj(pe))) by {
            vstd::arithmetic::div_mod::lemma_mod_bound(-pe.1, p);
        }
        lemma_cmul_one_left(cconj(pe));
    }
}

/// Shifting an index by `2^30` negates both coordinates: the half turn.
pub proof fn lemma_point_half_turn(e: int)
    requires
        0 <= e < CIRCLE_ORDER,
    ensures
        point_of_index((e + pow2(30)) % (CIRCLE_ORDER as int)) == (
            crate::m31::fneg(point_of_index(e).0),
            crate::m31::fneg(point_of_index(e).1),
        ),
{
    let ord = CIRCLE_ORDER as int;
    let p = crate::m31::P as int;
    lemma2_to64();
    lemma_point_of_index_add(e, pow2(30) as int);
    lemma_small_mod(pow2(30), CIRCLE_ORDER as nat);
    lemma_gen_half_order();
    let q = point_of_index(e);
    lemma_cpow_range(circle_gen(), (e % ord) as nat);
    // cmul with (-1, 0) negates both coordinates.
    crate::m31::lemma_fmul_minus_one(q.0);
    crate::m31::lemma_fmul_minus_one(q.1);
    vstd::arithmetic::div_mod::lemma_small_mod(0, p as nat);
    vstd::arithmetic::div_mod::lemma_mod_bound(-q.0, p);
    vstd::arithmetic::div_mod::lemma_mod_bound(-q.1, p);
    vstd::arithmetic::div_mod::lemma_small_mod(((-q.0) % p) as nat, p as nat);
    vstd::arithmetic::div_mod::lemma_small_mod(((-q.1) % p) as nat, p as nat);
}

} // verus!
