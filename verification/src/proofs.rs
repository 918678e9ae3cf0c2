//! Proof-related data structures exchanged between the off-chain prover and
//! the on-chain verifier contract.
use vstd::prelude::*;

use crate::journal::{le_bytes_i64, u64_le_bytes};
use crate::risc0::push_all;

verus! {

/// Opaque bytes of a Groth16 proof in the BN254 encoding of the Soroban host:
/// `A` (G1, 64 bytes) || `B` (G2, 128 bytes) || `C` (G1, 64 bytes), every
/// field element big-endian, G2 coordinates as `(c1, c0)`.
#[derive(Debug, Clone)]
pub struct Groth16Proof {
    /// Serialized proof bytes (A, B, C curve points), 256 bytes.
    pub data: Vec<u8>,
}

/// Public inputs that accompany a proof submission.
#[derive(Debug, Clone)]
pub struct PublicInputs {
    /// Commitment to the model parameters.
    pub model_hash: [u8; 32],
    /// Commitment to the input features.
    pub input_hash: [u8; 32],
    /// The inference output value (as a raw field element).
    pub output: Vec<u8>,
    /// The class label decision (binary decision or argmax index).
    pub class_label: i64,
}

/// A complete verification bundle in the legacy format.
#[derive(Debug, Clone)]
pub struct VerificationBundle {
    /// The Groth16 proof.
    pub proof: Groth16Proof,
    /// The public inputs tied to this proof.
    pub public_inputs: PublicInputs,
}

/// The byte layout of public inputs:
/// `model_hash (32) || input_hash (32) || output || class_label (8, LE)`.
pub open spec fn spec_public_inputs_bytes(pi: PublicInputs) -> Seq<u8> {
    pi.model_hash@ + pi.input_hash@ + pi.output@ + le_bytes_i64(pi.class_label)
}

impl PublicInputs {
    /// Serialize the public inputs into the byte layout the verifier expects.
    pub fn to_bytes(&self) -> (r: Vec<u8>)
        ensures
            r@ == spec_public_inputs_bytes(*self),
    {
        let mut out: Vec<u8> = Vec::new();
        push_all(&mut out, self.model_hash.as_slice());
        push_all(&mut out, self.input_hash.as_slice());
        push_all(&mut out, self.output.as_slice());
        let l = u64_le_bytes(self.class_label as u64);
        push_all(&mut out, l.as_slice());
        assert(out@ =~= spec_public_inputs_bytes(*self));
        out
    }
}

} // verus!
