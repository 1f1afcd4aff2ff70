//! 16-lane packed field values: the data layout of the vectorized backend.
//!
//! A packed value is a bundle of 16 field elements; operations act lane by
//! lane, and `interleave` performs the even/odd lane interleave that the
//! quotient row kernel uses to expand sign patterns without multiplying.

use vstd::prelude::*;
use crate::m31::M31;
use crate::qm31::{QM31, qadd, qsub, qmul, qneg, qzero, q_from_f};
use vstd::arithmetic::div_mod::lemma_fundamental_div_mod;

verus! {

/// The number of lanes of a packed value.
pub const N_LANES: usize = 16;

/// The log of the number of lanes.
pub const LOG_N_LANES: u32 = 4;

/// Sixteen base-field values.
#[derive(PartialEq, Eq, Debug)]
pub struct PackedM31 {
    pub lanes: Vec<M31>,
}

/// Sixteen secure-field values.
#[derive(PartialEq, Eq, Debug)]
pub struct PackedQM31 {
    pub lanes: Vec<QM31>,
}

/// The entry of a flattened packed column.
pub open spec fn col_at(data: Seq<PackedM31>, k: int) -> M31 {
    data[k / 16].lanes@[k % 16]
}

/// The entry of a flattened packed secure column.
pub open spec fn secure_col_at(data: Seq<PackedQM31>, k: int) -> QM31 {
    data[k / 16].lanes@[k % 16]
}

impl PackedM31 {
    /// Whether the bundle holds exactly one value per lane.
    pub open spec fn wf(self) -> bool {
        self.lanes.len() == 16
    }

    /// Wraps sixteen values.
    pub fn from_vec(lanes: Vec<M31>) -> (r: PackedM31)
        requires
            lanes.len() == 16,
        ensures
            r.lanes == lanes,
            r.wf(),
    {
        PackedM31 { lanes }
    }

    /// The same value in every lane.
    pub fn broadcast(v: M31) -> (r: PackedM31)
        ensures
            r.wf(),
            forall|j: int| 0 <= j < 16 ==> r.lanes[j] == v,
    {
        let mut lanes: Vec<M31> = Vec::new();
        let mut j: usize = 0;
        while j < 16
            invariant
                j <= 16,
                lanes.len() == j,
                forall|t: int| 0 <= t < j ==> lanes[t] == v,
            decreases 16 - j,
        {
            lanes.push(v);
            j = j + 1;
        }
        PackedM31 { lanes }
    }
}

impl PackedQM31 {
    /// Whether the bundle holds exactly one value per lane.
    pub open spec fn wf(self) -> bool {
        self.lanes.len() == 16
    }

    /// Zero in every lane.
    pub fn zero() -> (r: PackedQM31)
        ensures
            r.wf(),
            forall|j: int| 0 <= j < 16 ==> (#[trigger] r.lanes[j])@ == qzero(),
    {
        PackedQM31::broadcast(QM31::zero())
    }

    /// The same value in every lane.
    pub fn broadcast(v: QM31) -> (r: PackedQM31)
        ensures
            r.wf(),
            forall|j: int| 0 <= j < 16 ==> r.lanes[j] == v,
    {
        let mut lanes: Vec<QM31> = Vec::new();
        let mut j: usize = 0;
        while j < 16
            invariant
                j <= 16,
                lanes.len() == j,
                forall|t: int| 0 <= t < j ==> lanes[t] == v,
            decreases 16 - j,
        {
            lanes.push(v);
            j = j + 1;
        }
        PackedQM31 { lanes }
    }

    /// Lane-wise addition.
    pub fn add(&self, rhs: &PackedQM31) -> (r: PackedQM31)
        requires
            self.wf(),
            rhs.wf(),
        ensures
            r.wf(),
            forall|j: int|
                0 <= j < 16 ==> (#[trigger] r.lanes[j])@ == qadd(self.lanes[j]@, rhs.lanes[j]@),
    {
        let mut lanes: Vec<QM31> = Vec::new();
        let mut j: usize = 0;
        while j < 16
            invariant
                j <= 16,
                self.wf(),
                rhs.wf(),
                lanes.len() == j,
                forall|t: int|
                    0 <= t < j ==> (#[trigger] lanes[t])@ == qadd(self.lanes[t]@, rhs.lanes[t]@),
            decreases 16 - j,
        {
            lanes.push(self.lanes[j].add(rhs.lanes[j]));
            j = j + 1;
        }
        PackedQM31 { lanes }
    }

    /// Lane-wise subtraction.
    pub fn sub(&self, rhs: &PackedQM31) -> (r: PackedQM31)
        requires
            self.wf(),
            rhs.wf(),
        ensures
            r.wf(),
            forall|j: int|
                0 <= j < 16 ==> (#[trigger] r.lanes[j])@ == qsub(self.lanes[j]@, rhs.lanes[j]@),
    {
        let mut lanes: Vec<QM31> = Vec::new();
        let mut j: usize = 0;
        while j < 16
            invariant
                j <= 16,
                self.wf(),
                rhs.wf(),
                lanes.len() == j,
                forall|t: int|
                    0 <= t < j ==> (#[trigger] lanes[t])@ == qsub(self.lanes[t]@, rhs.lanes[t]@),
            decreases 16 - j,
        {
            lanes.push(self.lanes[j].sub(rhs.lanes[j]));
            j = j + 1;
        }
        PackedQM31 { lanes }
    }

    /// Lane-wise negation.
    pub fn neg(&self) -> (r: PackedQM31)
        requires
            self.wf(),
        ensures
            r.wf(),
            forall|j: int| 0 <= j < 16 ==> (#[trigger] r.lanes[j])@ == qneg(self.lanes[j]@),
    {
        let mut lanes: Vec<QM31> = Vec::new();
        let mut j: usize = 0;
        while j < 16
            invariant
                j <= 16,
                self.wf(),
                lanes.len() == j,
                forall|t: int| 0 <= t < j ==> (#[trigger] lanes[t])@ == qneg(self.lanes[t]@),
            decreases 16 - j,
        {
            lanes.push(self.lanes[j].neg());
            j = j + 1;
        }
        PackedQM31 { lanes }
    }

    /// Lane-wise multiplication.
    pub fn mul(&self, rhs: &PackedQM31) -> (r: PackedQM31)
        requires
            self.wf(),
            rhs.wf(),
        ensures
            r.wf(),
            forall|j: int|
                0 <= j < 16 ==> (#[trigger] r.lanes[j])@ == qmul(self.lanes[j]@, rhs.lanes[j]@),
    {
        let mut lanes: Vec<QM31> = Vec::new();
        let mut j: usize = 0;
        while j < 16
            invariant
                j <= 16,
                self.wf(),
                rhs.wf(),
                lanes.len() == j,
                forall|t: int|
                    0 <= t < j ==> (#[trigger] lanes[t])@ == qmul(self.lanes[t]@, rhs.lanes[t]@),
            decreases 16 - j,
        {
            lanes.push(self.lanes[j].mul(rhs.lanes[j]));
            j = j + 1;
        }
        PackedQM31 { lanes }
    }

    /// Lane-wise multiplication by a packed base-field value.
    pub fn mul_base(&self, rhs: &PackedM31) -> (r: PackedQM31)
        requires
            self.wf(),
            rhs.wf(),
        ensures
            r.wf(),
            forall|j: int|
                0 <= j < 16 ==> (#[trigger] r.lanes[j])@ == qmul(
                    self.lanes[j]@,
                    q_from_f(rhs.lanes[j]@),
                ),
    {
        let mut lanes: Vec<QM31> = Vec::new();
        let mut j: usize = 0;
        while j < 16
            invariant
                j <= 16,
                self.wf(),
                rhs.wf(),
                lanes.len() == j,
                forall|t: int|
                    0 <= t < j ==> (#[trigger] lanes[t])@ == qmul(
                        self.lanes[t]@,
                        q_from_f(rhs.lanes[t]@),
                    ),
            decreases 16 - j,
        {
            lanes.push(self.lanes[j].mul(QM31::from_base(rhs.lanes[j])));
            j = j + 1;
        }
        PackedQM31 { lanes }
    }

    /// The even/odd lane interleave: the low output takes lanes `0..8` of
    /// both inputs alternating, the high output takes lanes `8..16`.
    pub fn interleave(&self, rhs: &PackedQM31) -> (r: (PackedQM31, PackedQM31))
        requires
            self.wf(),
            rhs.wf(),
        ensures
            r.0.wf(),
            r.1.wf(),
            forall|m: int|
                0 <= m < 8 ==> (#[trigger] r.0.lanes[2 * m]) == self.lanes[m] && r.0.lanes[2 * m
                    + 1] == rhs.lanes[m],
            forall|m: int|
                0 <= m < 8 ==> (#[trigger] r.1.lanes[2 * m]) == self.lanes[8 + m] && r.1.lanes[2
                    * m + 1] == rhs.lanes[8 + m],
    {
        let mut lo: Vec<QM31> = Vec::new();
        let mut hi: Vec<QM31> = Vec::new();
        let mut m: usize = 0;
        while m < 8
            invariant
                m <= 8,
                self.wf(),
                rhs.wf(),
                lo.len() == 2 * m,
                hi.len() == 2 * m,
                forall|t: int|
                    0 <= t < m ==> (#[trigger] lo[2 * t]) == self.lanes[t] && lo[2 * t + 1]
                        == rhs.lanes[t],
                forall|t: int|
                    0 <= t < m ==> (#[trigger] hi[2 * t]) == self.lanes[8 + t] && hi[2 * t + 1]
                        == rhs.lanes[8 + t],
            decreases 8 - m,
        {
            lo.push(self.lanes[m]);
            lo.push(rhs.lanes[m]);
            hi.push(self.lanes[8 + m]);
            hi.push(rhs.lanes[8 + m]);
            proof {
                assert forall|t: int| 0 <= t < m + 1 implies (#[trigger] lo[2 * t])
                    == self.lanes[t] && lo[2 * t + 1] == rhs.lanes[t] by {
                    assert(lo[2 * m as int] == self.lanes[m as int]);
                    assert(lo[2 * m as int + 1] == rhs.lanes[m as int]);
                }
                assert forall|t: int| 0 <= t < m + 1 implies (#[trigger] hi[2 * t]) == self.lanes[
                    8 + t
                ] && hi[2 * t + 1] == rhs.lanes[8 + t] by {
                    if t == m {
                        assert(hi[2 * m as int] == self.lanes[8 + m as int]);
                        assert(hi[2 * m as int + 1] == rhs.lanes[8 + m as int]);
                    } else {
                        assert(hi[2 * t] == self.lanes[8 + t]);
                        assert(hi[2 * t + 1] == rhs.lanes[8 + t]);
                    }
                }
            }
            m = m + 1;
        }
        (PackedQM31 { lanes: lo }, PackedQM31 { lanes: hi })
    }
}

/// Packs a column whose length is a multiple of the lane count.
pub fn pack_column(v: &Vec<M31>) -> (r: Vec<PackedM31>)
    requires
        v.len() % 16 == 0,
    ensures
        r.len() == v.len() / 16,
        forall|i: int| 0 <= i < r.len() ==> (#[trigger] r[i]).wf(),
        forall|k: int| 0 <= k < v.len() ==> col_at(r@, k) == v[k],
{
    let n = v.len() / 16;
    let mut r: Vec<PackedM31> = Vec::new();
    let mut i: usize = 0;
    while i < n
        invariant
            i <= n,
            n == v.len() / 16,
            v.len() == 16 * n,
            r.len() == i,
            forall|t: int| 0 <= t < i ==> (#[trigger] r[t]).wf(),
            forall|t: int, j: int|
                0 <= t < i && 0 <= j < 16 ==> (#[trigger] r[t].lanes@[j]) == v[16 * t + j],
        decreases n - i,
    {
        let mut lanes: Vec<M31> = Vec::new();
        let mut j: usize = 0;
        while j < 16
            invariant
                j <= 16,
                i < n,
                v.len() == 16 * n,
                lanes.len() == j,
                forall|t: int| 0 <= t < j ==> (#[trigger] lanes[t]) == v[16 * (i as int) + t],
            decreases 16 - j,
        {
            lanes.push(v[16 * i + j]);
            j = j + 1;
        }
        r.push(PackedM31 { lanes });
        i = i + 1;
    }
    proof {
        assert forall|k: int| 0 <= k < v.len() implies col_at(r@, k) == v[k] by {
            vstd::arithmetic::div_mod::lemma_fundamental_div_mod(k, 16);
            vstd::arithmetic::div_mod::lemma_mod_bound(k, 16);
            assert(r@[k / 16].lanes@[k % 16] == v[16 * (k / 16) + (k % 16)]);
        }
    }
    r
}

/// Flattens a packed column.
pub fn unpack_column(v: &Vec<PackedM31>) -> (r: Vec<M31>)
    requires
        forall|i: int| 0 <= i < v.len() ==> (#[trigger] v[i]).wf(),
    ensures
        r.len() == 16 * v.len(),
        forall|k: int| 0 <= k < r.len() ==> r[k] == col_at(v@, k),
{
    let n = v.len();
    let mut r: Vec<M31> = Vec::new();
    let mut i: usize = 0;
    while i < n
        invariant
            i <= n,
            n == v.len(),
            forall|t: int| 0 <= t < n ==> (#[trigger] v[t]).wf(),
            r.len() == 16 * i,
            forall|t: int, j: int|
                0 <= t < i && 0 <= j < 16 ==> (#[trigger] r[16 * t + j]) == v[t].lanes@[j],
        decreases n - i,
    {
        let mut j: usize = 0;
        while j < 16
            invariant
                j <= 16,
                i < n,
                n == v.len(),
                forall|t: int| 0 <= t < n ==> (#[trigger] v[t]).wf(),
                r.len() == 16 * i + j,
                forall|t: int, u: int|
                    0 <= t < i && 0 <= u < 16 ==> (#[trigger] r[16 * t + u]) == v[t].lanes@[u],
                forall|u: int| 0 <= u < j ==> (#[trigger] r[16 * (i as int) + u]) == v[
                    i as int].lanes@[u],
            decreases 16 - j,
        {
            r.push(v[i].lanes[j]);
            j = j + 1;
        }
        i = i + 1;
    }
    proof {
        assert forall|k: int| 0 <= k < r.len() implies r[k] == col_at(v@, k) by {
            vstd::arithmetic::div_mod::lemma_fundamental_div_mod(k, 16);
            vstd::arithmetic::div_mod::lemma_mod_bound(k, 16);
            assert(r[16 * (k / 16) + (k % 16)] == v@[k / 16].lanes@[k % 16]);
        }
    }
    r
}

/// Flattens a packed secure column.
pub fn unpack_secure_column(v: &Vec<PackedQM31>) -> (r: Vec<QM31>)
    requires
        forall|i: int| 0 <= i < v.len() ==> (#[trigger] v[i]).wf(),
    ensures
        r.len() == 16 * v.len(),
        forall|k: int| 0 <= k < r.len() ==> r[k] == secure_col_at(v@, k),
{
    let n = v.len();
    let mut r: Vec<QM31> = Vec::new();
    let mut i: usize = 0;
    while i < n
        invariant
            i <= n,
            n == v.len(),
            forall|t: int| 0 <= t < n ==> (#[trigger] v[t]).wf(),
            r.len() == 16 * i,
            forall|t: int, j: int|
                0 <= t < i && 0 <= j < 16 ==> (#[trigger] r[16 * t + j]) == v[t].lanes@[j],
        decreases n - i,
    {
        let mut j: usize = 0;
        while j < 16
            invariant
                j <= 16,
                i < n,
                n == v.len(),
                forall|t: int| 0 <= t < n ==> (#[trigger] v[t]).wf(),
                r.len() == 16 * i + j,
                forall|t: int, u: int|
                    0 <= t < i && 0 <= u < 16 ==> (#[trigger] r[16 * t + u]) == v[t].lanes@[u],
                forall|u: int| 0 <= u < j ==> (#[trigger] r[16 * (i as int) + u]) == v[
                    i as int].lanes@[u],
            decreases 16 - j,
        {
            r.push(v[i].lanes[j]);
            j = j + 1;
        }
        i = i + 1;
    }
    proof {
        assert forall|k: int| 0 <= k < r.len() implies r[k] == secure_col_at(v@, k) by {
            vstd::arithmetic::div_mod::lemma_fundamental_div_mod(k, 16);
            vstd::arithmetic::div_mod::lemma_mod_bound(k, 16);
            assert(r[16 * (k / 16) + (k % 16)] == v@[k / 16].lanes@[k % 16]);
        }
    }
    r
}

} // verus!
