//! Line domains: the `x`-coordinates of a coset whose projection to the line
//! is injective, and polynomials represented by their even/odd split.

use vstd::prelude::*;
use crate::m31::{M31, fadd, fsub, fmul};
use crate::circle::{Coset, point_of_index};
use crate::utils::bit_rev;
use vstd::arithmetic::power2::pow2;

verus! {

/// The `x`-coordinates of the points of a coset.
#[derive(Clone, Copy, PartialEq, Eq, Structural, Debug)]
pub struct LineDomain {
    pub coset: Coset,
}

/// The `i`-th domain element of the first half of `domain`, in bit-reversed
/// order: the `x`-coordinate of the coset point at natural index
/// `bit_rev(i, log_size - 1)`.
pub open spec fn bit_reversed_element_spec(domain: LineDomain, i: int) -> int {
    point_of_index(domain.coset.index_at_spec(bit_rev(i, (domain.coset.log_size - 1) as nat))).0
}

impl LineDomain {
    /// Whether the description is well formed.
    pub open spec fn wf(self) -> bool {
        self.coset.wf()
    }

    /// Builds a line domain over a coset.
    pub fn new(coset: Coset) -> (r: LineDomain)
        requires
            coset.wf(),
        ensures
            r == (LineDomain { coset }),
            r.wf(),
    {
        LineDomain { coset }
    }

    /// The number of domain elements.
    pub fn size(&self) -> (r: usize)
        requires
            self.wf(),
        ensures
            r == pow2(self.coset.log_size as nat),
    {
        self.coset.size()
    }

    /// The log of the number of domain elements.
    pub fn log_size(&self) -> (r: u32)
        requires
            self.wf(),
        ensures
            r == self.coset.log_size,
    {
        self.coset.log_size
    }

    /// The `i`-th domain element in natural order.
    pub fn at(&self, i: usize) -> (r: M31)
        requires
            self.wf(),
        ensures
            r@ == point_of_index(self.coset.index_at_spec(i as int)).0,
    {
        self.coset.at(i).x
    }

    /// The domain of the doubled coset, of half the size.
    pub fn double(&self) -> (r: LineDomain)
        requires
            self.wf(),
            self.coset.log_size >= 1,
        ensures
            r.coset.initial_index@ == (2 * self.coset.initial_index@) % (
            crate::circle::CIRCLE_ORDER as int),
            r.coset.log_size == self.coset.log_size - 1,
            r.wf(),
    {
        LineDomain { coset: self.coset.double() }
    }
}

/// A line polynomial over a domain of size `2n`, stored as the bit-reversed
/// evaluations of its even part and of its odd part over the halved domain:
/// `f(x) = f_e(pi(x)) + x * f_o(pi(x))` with `pi` the doubling map.
#[derive(PartialEq, Eq, Debug)]
pub struct LinePoly {
    pub coeffs: Vec<M31>,
    pub log_size: u32,
}

/// The value stored at bit-reversed position `k` of the evaluation of a line
/// polynomial: the inverse butterfly of the even and odd parts against the
/// `k/2`-th bit-reversed domain element.
pub open spec fn line_eval_value(coeffs: Seq<M31>, d: int, k: int) -> int {
    if k % 2 == 0 {
        fadd(coeffs[k / 2]@, fmul(d, coeffs[coeffs.len() / 2 + k / 2]@))
    } else {
        fsub(coeffs[k / 2]@, fmul(d, coeffs[coeffs.len() / 2 + k / 2]@))
    }
}

impl LinePoly {
    /// Wraps a coefficient vector of length `2^log_size`.
    pub fn new(coeffs: Vec<M31>, log_size: u32) -> (r: LinePoly)
        requires
            1 <= log_size <= 31,
            coeffs.len() == pow2(log_size as nat),
        ensures
            r.coeffs == coeffs,
            r.log_size == log_size,
    {
        LinePoly { coeffs, log_size }
    }

    /// Evaluates the polynomial over a domain of matching size, in natural
    /// order: one inverse-projection butterfly layer against the bit-reversed
    /// first-half domain elements.
    pub fn evaluate(&self, domain: LineDomain) -> (r: Vec<M31>)
        requires
            self.log_size == domain.coset.log_size,
            1 <= self.log_size <= 31,
            self.coeffs.len() == pow2(self.log_size as nat),
            domain.wf(),
        ensures
            r.len() == self.coeffs.len(),
            forall|j: int|
                0 <= j < r.len() ==> r[j]@ == line_eval_value(
                    self.coeffs@,
                    bit_reversed_element_spec(domain, bit_rev(j, self.log_size as nat) / 2),
                    bit_rev(j, self.log_size as nat),
                ),
    {
        let n = self.coeffs.len();
        let half = n / 2;
        let elements = crate::fri::bit_reversed_domain_elements(&domain);
        proof {
            vstd::arithmetic::power2::lemma_pow2_unfold(self.log_size as nat);
        }
        let mut w: Vec<M31> = Vec::new();
        let mut i: usize = 0;
        while i < half
            invariant
                i <= half,
                n == self.coeffs.len(),
                half == n / 2,
                n == pow2(self.log_size as nat),
                1 <= self.log_size <= 31,
                half == pow2((self.log_size - 1) as nat),
                elements.len() == half,
                forall|t: int|
                    0 <= t < half ==> (#[trigger] elements[t])@ == bit_reversed_element_spec(
                        domain,
                        t,
                    ),
                w.len() == 2 * i,
                forall|k: int|
                    0 <= k < 2 * i ==> (#[trigger] w[k])@ == line_eval_value(
                        self.coeffs@,
                        bit_reversed_element_spec(domain, k / 2),
                        k,
                    ),
            decreases half - i,
        {
            let even = self.coeffs[i];
            let odd = self.coeffs[half + i];
            let t = elements[i].mul(odd);
            w.push(even.add(t));
            w.push(even.sub(t));
            i = i + 1;
        }
        let r = crate::utils::bit_reverse(&w, self.log_size);
        proof {
            assert forall|j: int| 0 <= j < r.len() implies r[j]@ == line_eval_value(
                self.coeffs@,
                bit_reversed_element_spec(domain, bit_rev(j, self.log_size as nat) / 2),
                bit_rev(j, self.log_size as nat),
            ) by {
                crate::utils::lemma_bit_rev_range(j, self.log_size as nat);
            }
        }
        r
    }
}

} // verus!
