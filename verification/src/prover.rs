//! Proving-pipeline decisions: backend selection, commitments to models and
//! inputs, platform support for local Groth16 compression, and legacy
//! bundle identifiers.
use vstd::prelude::*;

use crate::bundle::BundleError;
use crate::commitment::{
    commit_i64, commitment_hash, model_elements, raw_values, spec_commit, spec_model_elements,
    Commitment,
};
use crate::error::ZkmlError;
use crate::fixed_point::FixedPoint;
use crate::journal::JournalError;
use crate::models::Model;
use crate::proofs::VerificationBundle;
use vstd::string::StringSliceAdditionalSpecFns;

verus! {

/// Errors from the proving pipeline.
#[derive(Debug)]
pub enum ProveError {
    /// Inference failed before any proving happened.
    Inference(ZkmlError),
    /// The journal committed by the guest could not be decoded.
    Journal(JournalError),
    /// The journal does not match what native inference produced.
    JournalMismatch(String),
    /// Building the bundle failed.
    Bundle(BundleError),
    /// The zkVM refused to prove or verify.
    Zkvm(String),
    /// Groth16 compression needs x86_64 Linux, unless built with CUDA.
    UnsupportedPlatform {
        /// Operating system of the current build.
        os: String,
        /// Architecture of the current build.
        arch: String,
    },
    /// Docker is required by the Groth16 step but is not usable.
    DockerUnavailable(String),
    /// Dev mode produces fake receipts, which carry no seal.
    DevModeHasNoSeal,
    /// A remote proving backend was requested but is not wired up yet.
    RemoteBackend(String),
    /// Serialization of the bundle failed.
    Serialization(String),
}

/// Where the Groth16 proof is produced.
#[derive(Debug, Clone, PartialEq, Eq)]
pub enum ProverBackend {
    /// Compress locally. Requires x86_64 Linux with Docker.
    Local,
    /// Send the work to a remote proving market (not implemented yet).
    Remote {
        /// Endpoint of the proving market.
        endpoint: String,
    },
}

/// `s` and `t` spell the same bytes exactly when they are the same text.
proof fn lemma_bytes_eq_iff_text_eq(s: &str, t: &str)
    ensures
        (s.spec_bytes() == t.spec_bytes()) == (s@ == t@),
{
    if s.spec_bytes() == t.spec_bytes() {
        vstd::utf8::encode_utf8_decode_utf8(s@);
        vstd::utf8::encode_utf8_decode_utf8(t@);
    }
}

/// Whether two strings are equal, comparing their bytes.
pub fn str_eq(s: &str, t: &str) -> (r: bool)
    ensures
        r == (s@ == t@),
{
    proof {
        lemma_bytes_eq_iff_text_eq(s, t);
    }
    let a = s.as_bytes();
    let b = t.as_bytes();
    if a.len() != b.len() {
        return false;
    }
    let mut i: usize = 0;
    while i < a.len()
        invariant
            a@ == s.spec_bytes(),
            b@ == t.spec_bytes(),
            (s.spec_bytes() == t.spec_bytes()) == (s@ == t@),
            a@.len() == b@.len(),
            i <= a@.len(),
            forall|k: int| 0 <= k < i ==> a@[k] == b@[k],
        decreases a@.len() - i,
    {
        if a[i] != b[i] {
            assert(a@ != b@) by {
                assert(a@[i as int] != b@[i as int]);
            }
            return false;
        }
        i = i + 1;
    }
    assert(a@ =~= b@);
    true
}

/// The endpoint of the remote proving market.
pub open spec fn remote_endpoint() -> Seq<char> {
    "https://boundless.network"@
}

impl ProverBackend {
    /// Parse a backend name from the CLI: `local`, or `boundless` / `remote`
    /// for the remote market.
    pub fn parse(name: &str) -> (r: Option<Self>)
        ensures
            name@ == "local"@ ==> r == Some(ProverBackend::Local),
            name@ != "local"@ && (name@ == "boundless"@ || name@ == "remote"@) ==> (r matches Some(
                ProverBackend::Remote { endpoint },
            ) && endpoint@ == remote_endpoint()),
            name@ != "local"@ && name@ != "boundless"@ && name@ != "remote"@ ==> r is None,
    {
        if str_eq(name, "local") {
            Some(ProverBackend::Local)
        } else if str_eq(name, "boundless") || str_eq(name, "remote") {
            let endpoint = "https://boundless.network".to_string();
            proof {
                vstd::string::to_string_from_display_ensures_for_str("https://boundless.network", endpoint);
            }
            Some(ProverBackend::Remote { endpoint })
        } else {
            None
        }
    }
}

/// Commit to a model's parameters (the on-chain `initialize` value).
pub fn model_commitment(model: &Model) -> (r: Commitment)
    ensures
        r@ == spec_commit(spec_model_elements(*model)),
{
    let elements = model_elements(model);
    commitment_hash(elements.as_slice())
}

/// Commit to a set of input features (a proof public input).
pub fn input_commitment(inputs: &[FixedPoint]) -> (r: Commitment)
    ensures
        r@ == spec_commit(raw_values(inputs@)),
{
    let mut elements: Vec<i64> = Vec::new();
    let mut i: usize = 0;
    while i < inputs.len()
        invariant
            i <= inputs@.len(),
            elements@ == raw_values(inputs@.take(i as int)),
        decreases inputs@.len() - i,
    {
        elements.push(inputs[i].value);
        proof {
            assert(inputs@.take(i + 1) == inputs@.take(i as int).push(inputs@[i as int]));
            assert(raw_values(inputs@.take(i + 1)) =~= raw_values(inputs@.take(i as int)).push(
                inputs@[i as int].value,
            ));
        }
        i = i + 1;
    }
    assert(inputs@.take(i as int) == inputs@);
    commitment_hash(elements.as_slice())
}

/// True when this build compresses without Docker, using a native CUDA
/// Groth16 prover. This library is built without one.
pub fn native_groth16_available() -> (r: bool)
    ensures
        r == false,
{
    false
}

/// A short name for the compression path this build uses: `cuda` with a
/// native prover, `docker` otherwise (so `docker` here).
pub fn groth16_backend_name() -> (r: &'static str)
    ensures
        r@ == "docker"@,
{
    if native_groth16_available() {
        "cuda"
    } else {
        "docker"
    }
}

/// True when a build for operating system `os` and architecture `arch` can
/// run local Groth16 compression: natively (not available in this build), or
/// through the x86_64 Linux Docker image.
pub fn groth16_platform_supported(os: &str, arch: &str) -> (r: bool)
    ensures
        r == (os@ == "linux"@ && arch@ == "x86_64"@),
{
    native_groth16_available() || (str_eq(os, "linux") && str_eq(arch, "x86_64"))
}

/// The bytes a legacy bundle's identifier commits to, each as an element:
/// the model hash, the input hash and the output bytes.
pub open spec fn bundle_id_elements(bundle: VerificationBundle) -> Seq<i64> {
    (bundle.public_inputs.model_hash@ + bundle.public_inputs.input_hash@ + bundle.public_inputs.output@).map_values(
        |b: u8| b as i64,
    )
}

fn push_bytes_as_elements(out: &mut Vec<i64>, bytes: &[u8])
    ensures
        final(out)@ == old(out)@ + bytes@.map_values(|b: u8| b as i64),
{
    let mut i: usize = 0;
    while i < bytes.len()
        invariant
            i <= bytes@.len(),
            out@ == old(out)@ + bytes@.take(i as int).map_values(|b: u8| b as i64),
        decreases bytes@.len() - i,
    {
        out.push(bytes[i] as i64);
        i = i + 1;
        assert(out@ =~= old(out)@ + bytes@.take(i as int).map_values(|b: u8| b as i64));
    }
    assert(bytes@.take(i as int) =~= bytes@);
}

/// A deterministic identifier for a legacy bundle, derived from its public
/// inputs.
pub fn bundle_id(bundle: &VerificationBundle) -> (r: Commitment)
    ensures
        r@ == spec_commit(bundle_id_elements(*bundle)),
{
    let pi = &bundle.public_inputs;
    let mut elements: Vec<i64> = Vec::new();
    push_bytes_as_elements(&mut elements, pi.model_hash.as_slice());
    push_bytes_as_elements(&mut elements, pi.input_hash.as_slice());
    push_bytes_as_elements(&mut elements, pi.output.as_slice());
    assert(elements@ =~= bundle_id_elements(*bundle));
    commit_i64(elements.as_slice())
}

} // verus!
