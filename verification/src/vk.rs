//! The Groth16 verifying key in the byte layout the contract reads: each
//! coordinate a 32-byte big-endian field element, G2 coordinates in
//! `c1 || c0` order.
use vstd::prelude::*;

verus! {

/// A G1 point: `be(x) || be(y)`.
pub type G1Bytes = [u8; 64];

/// A G2 point: `be(x.c1) || be(x.c0) || be(y.c1) || be(y.c0)`.
pub type G2Bytes = [u8; 128];

/// A Groth16 verifying key, ready for the contract's `initialize`.
#[derive(Debug, Clone, PartialEq, Eq)]
pub struct Groth16VerifyingKey {
    /// `alpha` in G1.
    pub alpha: G1Bytes,
    /// `beta` in G2.
    pub beta: G2Bytes,
    /// `gamma` in G2.
    pub gamma: G2Bytes,
    /// `delta` in G2.
    pub delta: G2Bytes,
    /// `ic`, one point per public input plus one; a RISC Zero receipt has
    /// five public inputs, so six points.
    pub ic: Vec<G1Bytes>,
}

} // verus!
