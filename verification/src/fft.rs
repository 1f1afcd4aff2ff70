//! Butterfly kernels shared by the polynomial engine and the
//! degree-respecting projection.

use vstd::prelude::*;
use crate::m31::{M31, fadd, fsub, fmul};

verus! {

/// The forward butterfly: `(v0, v1)` becomes `(v0 + t*v1, v0 - t*v1)`.
pub fn butterfly(v0: &mut M31, v1: &mut M31, twid: M31)
    ensures
        (*final(v0))@ == fadd((*old(v0))@, fmul(twid@, (*old(v1))@)),
        (*final(v1))@ == fsub((*old(v0))@, fmul(twid@, (*old(v1))@)),
{
    let t = twid.mul(*v1);
    let a = *v0;
    *v0 = a.add(t);
    *v1 = a.sub(t);
}

/// The inverse butterfly: `(v0, v1)` becomes `(v0 + v1, (v0 - v1) * itwid)`.
pub fn ibutterfly(v0: &mut M31, v1: &mut M31, itwid: M31)
    ensures
        (*final(v0))@ == fadd((*old(v0))@, (*old(v1))@),
        (*final(v1))@ == fmul(fsub((*old(v0))@, (*old(v1))@), itwid@),
{
    let a = *v0;
    let b = *v1;
    *v0 = a.add(b);
    *v1 = a.sub(b).mul(itwid);
}

} // verus!
