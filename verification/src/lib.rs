//! A pairing engine over the curve BLS12-381: its scalar field, the two curve
//! groups G1 and G2, and the pairing into the target group GT.
//!
//! The elements are values: each holds a canonical encoding in bytes and
//! stands in contracts for a number, a scalar for its value and a group
//! element for its index. The arithmetic of the curve is that of the
//! `bls12_381` crate; what is proved here is what the engine does with it.

pub mod bigint;
pub mod error;
pub mod field;
pub mod g1;
pub mod g2;
pub mod laws;
pub mod pairing;
pub mod scalar;
