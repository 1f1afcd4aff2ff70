//! Core proving kernel of a STARK prover over the circle group on the
//! Mersenne-31 field: circle-domain polynomial engine, DEEP quotient
//! accumulator, and degree-respecting projection, with a scalar reference
//! backend and a 16-lane packed backend that must agree bit-exactly.

pub mod m31;
pub mod cm31;
pub mod qm31;
pub mod utils;
pub mod circle;
pub mod fft;
pub mod line;
pub mod fri;
pub mod poly;
pub mod packed;
pub mod quotients;
pub mod simd;
