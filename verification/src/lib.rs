//! Verified core of a provable machine-learning inference runtime: fixed-point
//! arithmetic, quantized models and their inference, commitments, the journal
//! and bundle wire formats, RISC Zero digest arithmetic and BN254 point checks.
use vstd::prelude::*;

pub mod activation;
pub mod bn254;
pub mod bundle;
pub mod cli;
pub mod commitment;
pub mod error;
pub mod fixed_point;
pub mod inference;
pub mod journal;
pub mod merkle;
pub mod onnx;
pub mod proofs;
pub mod prover;
pub mod risc0;
pub mod tensor;
pub mod vk;
pub mod models;

verus! {

} // verus!
