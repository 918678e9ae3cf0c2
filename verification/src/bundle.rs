//! Verification bundle, version 2.
//!
//! A bundle carries what a RISC Zero Groth16 receipt needs: the seal (4-byte
//! selector plus 256-byte proof), the raw journal bytes, the guest image id,
//! and provenance metadata. Public inputs are derived from the journal, so the
//! bundle cannot contradict itself. The legacy format is still readable
//! through [`AnyBundle`].
use vstd::prelude::*;

use crate::commitment::hex_char;
use crate::journal::{
    i64_from_le, le_bytes_i64, le_bytes_u64, spec_decode, u64_from_le, u64_from_le_bytes,
    u64_le_bytes, JournalError, JournalV1,
};
use crate::proofs::{PublicInputs, VerificationBundle};
use crate::risc0::{le_bytes_u32, push_all, SEAL_LEN};
use vstd::string::StringSliceAdditionalSpecFns;

verus! {

/// Bundle format version written by this crate.
pub const BUNDLE_VERSION: u16 = 2;

/// Magic prefix of the compact binary encoding: ASCII `ZKMLBNDL`.
pub const BUNDLE_MAGIC: [u8; 8] = [0x5a, 0x4b, 0x4d, 0x4c, 0x42, 0x4e, 0x44, 0x4c];

/// Which proof system produced the seal.
#[derive(Debug, Clone, Copy, PartialEq, Eq, Structural)]
pub enum ProofSystemId {
    /// A RISC Zero receipt compressed to Groth16 over BN254 (wire value 1).
    Risc0Groth16,
}

/// Timings of one proving run, in milliseconds.
#[derive(Debug, Clone, Copy, Default, PartialEq, Eq, Structural)]
pub struct ProveTimings {
    /// Proving the guest and compressing the receipt, as one number.
    pub prove_and_compress_ms: u64,
    /// Total wall time, including setup and the native cross-check.
    pub total_ms: u64,
}

/// Provenance of a bundle.
#[derive(Debug, Clone, Default, PartialEq, Eq)]
pub struct BundleMeta {
    /// Version of the crate that produced the bundle.
    pub prover_version: String,
    /// Unix timestamp in seconds, or zero when unknown.
    pub created_at: i64,
    /// Guest cycles executed, or zero when unknown.
    pub cycles: u64,
    /// Timings of the proving run.
    pub timings: ProveTimings,
}

/// Errors from bundle decoding.
#[derive(Debug, Clone, Copy, PartialEq, Eq, Structural)]
pub enum BundleError {
    /// The binary buffer is shorter than the field being read.
    Truncated,
    /// The binary magic prefix does not match.
    BadMagic,
    /// The version field is not supported.
    UnsupportedVersion(u16),
    /// The proof system identifier is not known.
    UnknownProofSystem(u16),
    /// The seal is not [`SEAL_LEN`] bytes.
    BadSealLength(usize),
    /// The journal could not be decoded.
    Journal(JournalError),
}

/// A verification bundle carrying a RISC Zero Groth16 receipt.
#[derive(Debug, Clone, PartialEq, Eq)]
pub struct VerificationBundleV2 {
    /// Always [`BUNDLE_VERSION`].
    pub version: u16,
    /// Which proof system produced the seal.
    pub proof_system: ProofSystemId,
    /// Guest image id.
    pub image_id: [u8; 32],
    /// Selector plus Groth16 proof.
    pub seal: Vec<u8>,
    /// Raw journal bytes.
    pub journal: Vec<u8>,
    /// Provenance and timings.
    pub meta: BundleMeta,
}

/// Either bundle format, so old files keep loading.
#[derive(Debug, Clone)]
pub enum AnyBundle {
    /// The current format.
    V2(VerificationBundleV2),
    /// The legacy format, which never carried a real proof.
    V1(VerificationBundle),
}

impl ProofSystemId {
    /// Parse from the wire value.
    pub fn from_u16(value: u16) -> (r: Result<Self, BundleError>)
        ensures
            value == 1 ==> r == Ok::<ProofSystemId, BundleError>(ProofSystemId::Risc0Groth16),
            value != 1 ==> r == Err::<ProofSystemId, BundleError>(BundleError::UnknownProofSystem(value)),
    {
        match value {
            1 => Ok(ProofSystemId::Risc0Groth16),
            other => Err(BundleError::UnknownProofSystem(other)),
        }
    }

    /// The wire value.
    pub fn to_u16(self) -> (r: u16)
        ensures
            r == 1,
    {
        1
    }
}

impl AnyBundle {
    /// `true` when the bundle uses the legacy format.
    pub fn is_legacy(&self) -> (r: bool)
        ensures
            r == (*self is V1),
    {
        match self {
            AnyBundle::V1(_) => true,
            AnyBundle::V2(_) => false,
        }
    }
}

/// The characters that `String::from_utf8_lossy` makes of `bytes`.
pub uninterp spec fn utf8_lossy(bytes: Seq<u8>) -> Seq<char>;

/// Calls `String::from_utf8_lossy(bytes).into_owned()`. Its documentation
/// states that valid UTF-8 is returned unchanged; the contract claims that,
/// and otherwise only that the result is a function of the bytes.
#[verifier::external_body]
pub(crate) fn string_from_utf8_lossy(bytes: &[u8]) -> (r: String)
    ensures
        r@ == utf8_lossy(bytes@),
        vstd::utf8::valid_utf8(bytes@) ==> r@ == vstd::utf8::decode_utf8(bytes@),
{
    String::from_utf8_lossy(bytes).into_owned()
}

/// Little-endian bytes of a `u16`.
pub open spec fn le_bytes_u16(v: u16) -> Seq<u8> {
    seq![v as u8, (v >> 8u16) as u8]
}

/// The magic prefix as a sequence.
pub open spec fn bundle_magic() -> Seq<u8> {
    seq![0x5au8, 0x4bu8, 0x4du8, 0x4cu8, 0x42u8, 0x4eu8, 0x44u8, 0x4cu8]
}

/// A byte string preceded by its length as a little-endian `u32` (the
/// length truncated to 32 bits).
pub open spec fn prefixed(b: Seq<u8>) -> Seq<u8> {
    le_bytes_u32(b.len() as u32) + b
}

/// The compact binary encoding of a bundle.
pub open spec fn spec_to_bytes(bd: VerificationBundleV2) -> Seq<u8> {
    bundle_magic() + le_bytes_u16(bd.version) + le_bytes_u16(1) + bd.image_id@ + prefixed(bd.seal@)
        + prefixed(bd.journal@) + prefixed(vstd::utf8::encode_utf8(bd.meta.prover_version@))
        + le_bytes_i64(bd.meta.created_at) + le_bytes_u64(bd.meta.cycles) + le_bytes_u64(
        bd.meta.timings.prove_and_compress_ms,
    ) + le_bytes_u64(bd.meta.timings.total_ms)
}

/// The little-endian `u16` at `at`.
pub open spec fn u16_at(b: Seq<u8>, at: int) -> u16 {
    ((b[at] as u16) | ((b[at + 1] as u16) << 8u16)) as u16
}

/// The little-endian `u32` at `at`.
pub open spec fn u32_at(b: Seq<u8>, at: int) -> int {
    b[at] + b[at + 1] * 0x100 + b[at + 2] * 0x1_0000 + b[at + 3] * 0x100_0000
}

/// Offset of the journal's length prefix.
pub open spec fn journal_at(b: Seq<u8>) -> int {
    48 + u32_at(b, 44)
}

/// Offset of the prover version's length prefix.
pub open spec fn version_at(b: Seq<u8>) -> int {
    journal_at(b) + 4 + u32_at(b, journal_at(b))
}

/// Offset of the fixed-width tail (timestamp, cycles, timings).
pub open spec fn tail_at(b: Seq<u8>) -> int {
    version_at(b) + 4 + u32_at(b, version_at(b))
}

/// The seal field of an encoded bundle.
pub open spec fn seal_bytes(b: Seq<u8>) -> Seq<u8> {
    b.subrange(48, journal_at(b))
}

/// The journal field of an encoded bundle.
pub open spec fn journal_bytes(b: Seq<u8>) -> Seq<u8> {
    b.subrange(journal_at(b) + 4, version_at(b))
}

/// The prover-version field of an encoded bundle.
pub open spec fn version_bytes(b: Seq<u8>) -> Seq<u8> {
    b.subrange(version_at(b) + 4, tail_at(b))
}

/// The text `String::from_utf8_lossy` makes of `bytes`: the decoded
/// characters of valid UTF-8, a lossy conversion otherwise.
pub open spec fn lossy_text(bytes: Seq<u8>) -> Seq<char> {
    if vstd::utf8::valid_utf8(bytes) {
        vstd::utf8::decode_utf8(bytes)
    } else {
        utf8_lossy(bytes)
    }
}

/// The first error met while reading the fields of an encoded bundle, or
/// `None` when every field is present (trailing bytes are ignored).
pub open spec fn parse_error(b: Seq<u8>) -> Option<BundleError> {
    if b.len() < 8 {
        Some(BundleError::Truncated)
    } else if b.take(8) != bundle_magic() {
        Some(BundleError::BadMagic)
    } else if b.len() < 10 {
        Some(BundleError::Truncated)
    } else if u16_at(b, 8) != BUNDLE_VERSION {
        Some(BundleError::UnsupportedVersion(u16_at(b, 8)))
    } else if b.len() < 12 {
        Some(BundleError::Truncated)
    } else if u16_at(b, 10) != 1 {
        Some(BundleError::UnknownProofSystem(u16_at(b, 10)))
    } else if b.len() < 48 || journal_at(b) + 4 > b.len() || version_at(b) + 4 > b.len() || tail_at(b)
        + 32 > b.len() {
        Some(BundleError::Truncated)
    } else {
        None
    }
}

/// The outcome of building a bundle from a seal and a journal.
pub open spec fn check_parts(seal: Seq<u8>, journal: Seq<u8>) -> Option<BundleError> {
    if seal.len() != SEAL_LEN {
        Some(BundleError::BadSealLength(seal.len() as usize))
    } else {
        match spec_decode(journal) {
            Err(e) => Some(BundleError::Journal(e)),
            Ok(_) => None,
        }
    }
}

impl VerificationBundleV2 {
    /// Build a bundle, checking the seal length and the journal layout.
    pub fn new(
        proof_system: ProofSystemId,
        image_id: [u8; 32],
        seal: Vec<u8>,
        journal: Vec<u8>,
        meta: BundleMeta,
    ) -> (r: Result<Self, BundleError>)
        ensures
            match check_parts(seal@, journal@) {
                Some(e) => r == Err::<Self, BundleError>(e),
                None => r == Ok::<Self, BundleError>(
                    VerificationBundleV2 { version: BUNDLE_VERSION, proof_system, image_id, seal, journal, meta },
                ),
            },
    {
        if seal.len() != SEAL_LEN {
            return Err(BundleError::BadSealLength(seal.len()));
        }
        match JournalV1::decode(journal.as_slice()) {
            Ok(_) => {},
            Err(e) => {
                return Err(BundleError::Journal(e));
            },
        }
        Ok(VerificationBundleV2 { version: BUNDLE_VERSION, proof_system, image_id, seal, journal, meta })
    }

    /// Decode the journal this bundle carries.
    pub fn journal_v1(&self) -> (r: Result<JournalV1, BundleError>)
        ensures
            match spec_decode(self.journal@) {
                Ok(j) => r == Ok::<JournalV1, BundleError>(j),
                Err(e) => r == Err::<JournalV1, BundleError>(BundleError::Journal(e)),
            },
    {
        match JournalV1::decode(self.journal.as_slice()) {
            Ok(j) => Ok(j),
            Err(e) => Err(BundleError::Journal(e)),
        }
    }

    /// The public inputs derived from the journal.
    pub fn public_inputs(&self) -> (r: Result<PublicInputs, BundleError>)
        ensures
            match spec_decode(self.journal@) {
                Ok(j) => r matches Ok(pi) && pi.model_hash == j.model_hash && pi.input_hash
                    == j.input_hash && pi.output@ == le_bytes_i64(j.output) && pi.class_label
                    == j.class_label,
                Err(e) => r matches Err(f) && f == BundleError::Journal(e),
            },
    {
        let journal = match self.journal_v1() {
            Ok(j) => j,
            Err(e) => {
                return Err(e);
            },
        };
        let bytes = u64_le_bytes(journal.output as u64);
        let mut output: Vec<u8> = Vec::new();
        push_all(&mut output, bytes.as_slice());
        assert(output@ =~= le_bytes_i64(journal.output));
        Ok(
            PublicInputs {
                model_hash: journal.model_hash,
                input_hash: journal.input_hash,
                output,
                class_label: journal.class_label,
            },
        )
    }

    /// The 4-byte selector prefix of the seal.
    pub fn selector(&self) -> (r: [u8; 4])
        requires
            self.seal@.len() >= 4,
        ensures
            r@ == self.seal@.take(4),
    {
        let r: [u8; 4] = [self.seal[0], self.seal[1], self.seal[2], self.seal[3]];
        assert(r@ =~= self.seal@.take(4));
        r
    }

    /// The Groth16 proof, without the selector.
    pub fn proof_bytes(&self) -> (r: &[u8])
        requires
            self.seal@.len() >= 4,
        ensures
            r@ == self.seal@.skip(4),
    {
        let r = vstd::slice::slice_subrange(self.seal.as_slice(), 4, self.seal.len());
        assert(r@ =~= self.seal@.skip(4));
        r
    }

    /// Compact binary encoding, for transports where JSON is wasteful.
    pub fn to_bytes(&self) -> (r: Vec<u8>)
        ensures
            r@ == spec_to_bytes(*self),
    {
        let mut out: Vec<u8> = Vec::new();
        let magic: [u8; 8] = [0x5a, 0x4b, 0x4d, 0x4c, 0x42, 0x4e, 0x44, 0x4c];
        push_all(&mut out, magic.as_slice());
        push_u16(&mut out, self.version);
        push_u16(&mut out, self.proof_system.to_u16());
        push_all(&mut out, self.image_id.as_slice());
        push_bytes(&mut out, self.seal.as_slice());
        push_bytes(&mut out, self.journal.as_slice());
        push_bytes(&mut out, self.meta.prover_version.as_str().as_bytes());
        push_all(&mut out, u64_le_bytes(self.meta.created_at as u64).as_slice());
        push_all(&mut out, u64_le_bytes(self.meta.cycles).as_slice());
        push_all(&mut out, u64_le_bytes(self.meta.timings.prove_and_compress_ms).as_slice());
        push_all(&mut out, u64_le_bytes(self.meta.timings.total_ms).as_slice());
        proof {
            assert(magic@ =~= bundle_magic());
            assert(out@ =~= spec_to_bytes(*self));
        }
        out
    }

    /// Decode the compact binary encoding.
    pub fn from_bytes(bytes: &[u8]) -> (r: Result<Self, BundleError>)
        ensures
            match parse_error(bytes@) {
                Some(e) => r == Err::<Self, BundleError>(e),
                None => {
                    let seal = seal_bytes(bytes@);
                    let journal = journal_bytes(bytes@);
                    let tail = tail_at(bytes@);
                    match check_parts(seal, journal) {
                        Some(e) => r == Err::<Self, BundleError>(e),
                        None => r matches Ok(v) && v.version == BUNDLE_VERSION && v.proof_system
                            == ProofSystemId::Risc0Groth16 && v.image_id@ == bytes@.subrange(12, 44)
                            && v.seal@ == seal && v.journal@ == journal && v.meta.prover_version@
                            == lossy_text(version_bytes(bytes@))
                            && v.meta.created_at == i64_from_le(bytes@.subrange(tail, tail + 8))
                            && v.meta.cycles == u64_from_le(bytes@.subrange(tail + 8, tail + 16))
                            && v.meta.timings.prove_and_compress_ms == u64_from_le(
                            bytes@.subrange(tail + 16, tail + 24),
                        ) && v.meta.timings.total_ms == u64_from_le(bytes@.subrange(tail + 24, tail + 32)),
                    }
                },
            },
    {
        let n = bytes.len();
        if n < 8 {
            return Err(BundleError::Truncated);
        }
        if bytes[0] != 0x5a || bytes[1] != 0x4b || bytes[2] != 0x4d || bytes[3] != 0x4c || bytes[4] != 0x42
            || bytes[5] != 0x4e || bytes[6] != 0x44 || bytes[7] != 0x4c {
            assert(bytes@.take(8) != bundle_magic()) by {
                if bytes@.take(8) == bundle_magic() {
                    assert(bytes@.take(8)[0] == bytes@[0]);
                    assert(bytes@.take(8)[1] == bytes@[1]);
                    assert(bytes@.take(8)[2] == bytes@[2]);
                    assert(bytes@.take(8)[3] == bytes@[3]);
                    assert(bytes@.take(8)[4] == bytes@[4]);
                    assert(bytes@.take(8)[5] == bytes@[5]);
                    assert(bytes@.take(8)[6] == bytes@[6]);
                    assert(bytes@.take(8)[7] == bytes@[7]);
                }
            }
            return Err(BundleError::BadMagic);
        }
        assert(bytes@.take(8) =~= bundle_magic());
        if n < 10 {
            return Err(BundleError::Truncated);
        }
        let version: u16 = (bytes[8] as u16) | ((bytes[9] as u16) << 8u16);
        if version != BUNDLE_VERSION {
            return Err(BundleError::UnsupportedVersion(version));
        }
        if n < 12 {
            return Err(BundleError::Truncated);
        }
        let ps: u16 = (bytes[10] as u16) | ((bytes[11] as u16) << 8u16);
        let proof_system = match ProofSystemId::from_u16(ps) {
            Ok(p) => p,
            Err(e) => {
                return Err(e);
            },
        };
        if n < 48 {
            return Err(BundleError::Truncated);
        }
        let image_vec = copy_range(bytes, 12, 44);
        let mut image_id: [u8; 32] = [0u8; 32];
        let mut i: usize = 0;
        while i < 32
            invariant
                i <= 32,
                image_vec@.len() == 32,
                forall|k: int| 0 <= k < i ==> #[trigger] image_id@[k] == image_vec@[k],
            decreases 32 - i,
        {
            image_id[i] = image_vec[i];
            i = i + 1;
        }
        assert(image_id@ =~= bytes@.subrange(12, 44));
        let (seal_start, seal_end) = match take_prefixed(bytes, 44) {
            Ok(p) => p,
            Err(e) => {
                return Err(e);
            },
        };
        let (journal_start, journal_end) = match take_prefixed(bytes, seal_end) {
            Ok(p) => p,
            Err(e) => {
                return Err(e);
            },
        };
        let (ver_start, ver_end) = match take_prefixed(bytes, journal_end) {
            Ok(p) => p,
            Err(e) => {
                return Err(e);
            },
        };
        if ver_end > n || n - ver_end < 32 {
            return Err(BundleError::Truncated);
        }
        let seal = copy_range(bytes, seal_start, seal_end);
        let journal = copy_range(bytes, journal_start, journal_end);
        let prover_version = string_from_utf8_lossy(vstd::slice::slice_subrange(bytes, ver_start, ver_end));
        let created_at = u64_from_le_bytes(bytes, ver_end) as i64;
        let cycles = u64_from_le_bytes(bytes, ver_end + 8);
        let prove_and_compress_ms = u64_from_le_bytes(bytes, ver_end + 16);
        let total_ms = u64_from_le_bytes(bytes, ver_end + 24);
        let timings = ProveTimings { prove_and_compress_ms, total_ms };
        Self::new(
            proof_system,
            image_id,
            seal,
            journal,
            BundleMeta { prover_version, created_at, cycles, timings },
        )
    }
}

fn push_u16(out: &mut Vec<u8>, v: u16)
    ensures
        final(out)@ == old(out)@ + le_bytes_u16(v),
{
    out.push(v as u8);
    out.push((v >> 8u16) as u8);
    assert(out@ =~= old(out)@ + le_bytes_u16(v));
}

fn push_bytes(out: &mut Vec<u8>, bytes: &[u8])
    ensures
        final(out)@ == old(out)@ + prefixed(bytes@),
{
    let len = bytes.len() as u32;
    let pre: [u8; 4] = [len as u8, (len >> 8u32) as u8, (len >> 16u32) as u8, (len >> 24u32) as u8];
    push_all(out, pre.as_slice());
    push_all(out, bytes);
    assert(pre@ =~= le_bytes_u32(bytes@.len() as u32));
    assert(out@ =~= old(out)@ + prefixed(bytes@));
}

fn copy_range(bytes: &[u8], start: usize, end: usize) -> (r: Vec<u8>)
    requires
        start <= end <= bytes@.len(),
    ensures
        r@ == bytes@.subrange(start as int, end as int),
{
    let mut out: Vec<u8> = Vec::new();
    let mut i: usize = start;
    while i < end
        invariant
            start <= i <= end,
            end <= bytes@.len(),
            out@ == bytes@.subrange(start as int, i as int),
        decreases end - i,
    {
        out.push(bytes[i]);
        i = i + 1;
        assert(out@ =~= bytes@.subrange(start as int, i as int));
    }
    out
}

/// Read a `u32` length prefix at `at` and the span it announces.
fn take_prefixed(bytes: &[u8], at: usize) -> (r: Result<(usize, usize), BundleError>)
    ensures
        (at + 4 <= bytes@.len() && at + 4 + u32_at(bytes@, at as int) <= bytes@.len()) <==> r is Ok,
        r matches Ok(p) ==> p.0 == at + 4 && p.1 == at + 4 + u32_at(bytes@, at as int),
        r is Err ==> r == Err::<(usize, usize), BundleError>(BundleError::Truncated),
{
    let n = bytes.len();
    if at > n || n - at < 4 {
        return Err(BundleError::Truncated);
    }
    let len: usize = bytes[at] as usize + (bytes[at + 1] as usize) * 0x100 + (bytes[at + 2] as usize)
        * 0x1_0000 + (bytes[at + 3] as usize) * 0x100_0000;
    let start = at + 4;
    if len > n - start {
        return Err(BundleError::Truncated);
    }
    Ok((start, start + len))
}

// ---------------------------------------------------------------------------
// Hex helpers
// ---------------------------------------------------------------------------

/// Lowercase hex of a byte sequence, two digits per byte.
pub open spec fn spec_to_hex(bytes: Seq<u8>) -> Seq<char>
    decreases bytes.len(),
{
    if bytes.len() == 0 {
        Seq::empty()
    } else {
        spec_to_hex(bytes.drop_last()) + seq![hex_char(bytes.last() / 16), hex_char(bytes.last() % 16)]
    }
}

/// Lowercase hex encoding.
pub fn to_hex(bytes: &[u8]) -> (r: String)
    ensures
        r@ == spec_to_hex(bytes@),
{
    let mut s = String::new();
    let mut i: usize = 0;
    while i < bytes.len()
        invariant
            i <= bytes@.len(),
            s@ == spec_to_hex(bytes@.take(i as int)),
        decreases bytes@.len() - i,
    {
        let b = bytes[i];
        s.append(crate::commitment::hex_digit(b / 16));
        s.append(crate::commitment::hex_digit(b % 16));
        proof {
            assert(bytes@.take(i + 1).drop_last() == bytes@.take(i as int));
        }
        i = i + 1;
    }
    assert(bytes@.take(i as int) == bytes@);
    s
}

/// The value of a byte read as a radix-16 digit (`0-9`, `a-f`, `A-F`).
pub open spec fn digit16(c: u8) -> Option<u8> {
    crate::commitment::hex_val(c)
}

/// The bytes spelled by an even-length hex text, or `None`.
pub open spec fn spec_from_hex(t: Seq<u8>) -> Option<Seq<u8>> {
    if t.len() % 2 != 0 {
        None
    } else if forall|i: int| 0 <= i < t.len() ==> #[trigger] digit16(t[i]) is Some {
        Some(Seq::new(t.len() / 2, |i: int| (digit16(t[2 * i])->0 * 16 + digit16(t[2 * i + 1])->0) as u8))
    } else {
        None
    }
}

/// Hex decoding; `None` on odd length or invalid characters.
pub fn from_hex(text: &str) -> (r: Option<Vec<u8>>)
    ensures
        match spec_from_hex(text.spec_bytes()) {
            Some(v) => r matches Some(w) && w@ == v,
            None => r is None,
        },
{
    let bytes = text.as_bytes();
    let n = bytes.len();
    if n % 2 != 0 {
        return None;
    }
    let mut out: Vec<u8> = Vec::new();
    let mut i: usize = 0;
    while i < n
        invariant
            bytes@ == text.spec_bytes(),
            n == bytes@.len(),
            n % 2 == 0,
            i % 2 == 0,
            i <= n,
            out@.len() == i / 2,
            forall|k: int| 0 <= k < i ==> #[trigger] digit16(bytes@[k]) is Some,
            forall|k: int|
                0 <= k < i / 2 ==> #[trigger] out@[k] == (digit16(bytes@[2 * k])->0 * 16 + digit16(
                    bytes@[2 * k + 1],
                )->0) as u8,
        decreases n - i,
    {
        let hi = match crate::commitment::hex_val_exec(bytes[i]) {
            Some(v) => v,
            None => {
                assert(digit16(bytes@[i as int]) is None);
                return None;
            },
        };
        let lo = match crate::commitment::hex_val_exec(bytes[i + 1]) {
            Some(v) => v,
            None => {
                assert(digit16(bytes@[i + 1]) is None);
                return None;
            },
        };
        out.push(hi * 16 + lo);
        i = i + 2;
    }
    assert(out@ =~= Seq::new(
        n as nat / 2,
        |k: int| (digit16(bytes@[2 * k])->0 * 16 + digit16(bytes@[2 * k + 1])->0) as u8,
    ));
    Some(out)
}

proof fn lemma_u32_le_round_trip(w: u32)
    ensures
        u32_at(le_bytes_u32(w), 0) == w,
{
    let b0 = w as u8;
    let b1 = (w >> 8u32) as u8;
    let b2 = (w >> 16u32) as u8;
    let b3 = (w >> 24u32) as u8;
    assert(b0 as u32 + (b1 as u32) * 0x100 + (b2 as u32) * 0x1_0000 + (b3 as u32) * 0x100_0000 == w)
        by (bit_vector)
        requires
            b0 == w as u8,
            b1 == (w >> 8u32) as u8,
            b2 == (w >> 16u32) as u8,
            b3 == (w >> 24u32) as u8,
    ;
}

proof fn lemma_u16_le_round_trip(v: u16)
    ensures
        u16_at(le_bytes_u16(v), 0) == v,
{
    let b0 = v as u8;
    let b1 = (v >> 8u16) as u8;
    assert(((b0 as u16) | ((b1 as u16) << 8u16)) == v) by (bit_vector)
        requires
            b0 == v as u8,
            b1 == (v >> 8u16) as u8,
    ;
}

proof fn lemma_u64_le_round_trip(u: u64)
    ensures
        u64_from_le(le_bytes_u64(u)) == u,
{
    let b = le_bytes_u64(u);
    let b0 = u as u8;
    let b1 = (u >> 8u64) as u8;
    let b2 = (u >> 16u64) as u8;
    let b3 = (u >> 24u64) as u8;
    let b4 = (u >> 32u64) as u8;
    let b5 = (u >> 40u64) as u8;
    let b6 = (u >> 48u64) as u8;
    let b7 = (u >> 56u64) as u8;
    assert((b0 as u64) | ((b1 as u64) << 8u64) | ((b2 as u64) << 16u64) | ((b3 as u64) << 24u64)
        | ((b4 as u64) << 32u64) | ((b5 as u64) << 40u64) | ((b6 as u64) << 48u64) | ((b7 as u64)
        << 56u64) == u) by (bit_vector)
        requires
            b0 == u as u8,
            b1 == (u >> 8u64) as u8,
            b2 == (u >> 16u64) as u8,
            b3 == (u >> 24u64) as u8,
            b4 == (u >> 32u64) as u8,
            b5 == (u >> 40u64) as u8,
            b6 == (u >> 48u64) as u8,
            b7 == (u >> 56u64) as u8,
    ;
}

/// Decoding the binary encoding of a well-formed bundle gives back every
/// field: the encoding parses, the seal and journal pass the checks of
/// [`VerificationBundleV2::new`], and each field reads back as written.
#[verifier::spinoff_prover]
#[verifier::rlimit(40)]
pub proof fn lemma_from_bytes_to_bytes(bd: VerificationBundleV2)
    requires
        bd.version == BUNDLE_VERSION,
        bd.seal@.len() == SEAL_LEN,
        spec_decode(bd.journal@) is Ok,
        bd.journal@.len() <= u32::MAX,
        vstd::utf8::encode_utf8(bd.meta.prover_version@).len() <= u32::MAX,
    ensures
        parse_error(spec_to_bytes(bd)) is None,
        check_parts(seal_bytes(spec_to_bytes(bd)), journal_bytes(spec_to_bytes(bd))) is None,
        spec_to_bytes(bd).subrange(12, 44) == bd.image_id@,
        seal_bytes(spec_to_bytes(bd)) == bd.seal@,
        journal_bytes(spec_to_bytes(bd)) == bd.journal@,
        lossy_text(version_bytes(spec_to_bytes(bd))) == bd.meta.prover_version@,
        i64_from_le(spec_to_bytes(bd).subrange(tail_at(spec_to_bytes(bd)), tail_at(spec_to_bytes(bd)) + 8))
            == bd.meta.created_at,
        u64_from_le(spec_to_bytes(bd).subrange(tail_at(spec_to_bytes(bd)) + 8, tail_at(spec_to_bytes(bd)) + 16))
            == bd.meta.cycles,
        u64_from_le(spec_to_bytes(bd).subrange(tail_at(spec_to_bytes(bd)) + 16, tail_at(spec_to_bytes(bd)) + 24))
            == bd.meta.timings.prove_and_compress_ms,
        u64_from_le(spec_to_bytes(bd).subrange(tail_at(spec_to_bytes(bd)) + 24, tail_at(spec_to_bytes(bd)) + 32))
            == bd.meta.timings.total_ms,
{
    let b = spec_to_bytes(bd);
    let vb = vstd::utf8::encode_utf8(bd.meta.prover_version@);
    let jn = bd.journal@.len() as int;
    let vn = vb.len() as int;
    let head = bundle_magic() + le_bytes_u16(bd.version) + le_bytes_u16(1) + bd.image_id@;
    let t0 = le_bytes_i64(bd.meta.created_at);
    let t1 = le_bytes_u64(bd.meta.cycles);
    let t2 = le_bytes_u64(bd.meta.timings.prove_and_compress_ms);
    let t3 = le_bytes_u64(bd.meta.timings.total_ms);
    assert(b =~= head + prefixed(bd.seal@) + prefixed(bd.journal@) + prefixed(vb) + t0 + t1 + t2 + t3);
    assert(head.len() == 44);
    let ja: int = 308int;
    let va = ja + 4 + jn;
    let ta = va + 4 + vn;
    lemma_encoding_layout(bd);
    assert(b.subrange(12, 44) =~= bd.image_id@);
    assert(seal_bytes(b) =~= bd.seal@);
    assert(journal_bytes(b) =~= bd.journal@);
    assert(version_bytes(b) =~= vb);
    vstd::utf8::encode_utf8_valid_utf8(bd.meta.prover_version@);
    vstd::utf8::encode_utf8_decode_utf8(bd.meta.prover_version@);
    // the fixed-width tail
    assert(b.subrange(ta, ta + 8) =~= t0);
    assert(b.subrange(ta + 8, ta + 16) =~= t1);
    assert(b.subrange(ta + 16, ta + 24) =~= t2);
    assert(b.subrange(ta + 24, ta + 32) =~= t3);
    lemma_u64_le_round_trip(bd.meta.created_at as u64);
    lemma_u64_le_round_trip(bd.meta.cycles);
    lemma_u64_le_round_trip(bd.meta.timings.prove_and_compress_ms);
    lemma_u64_le_round_trip(bd.meta.timings.total_ms);
    let ca = bd.meta.created_at;
    assert((ca as u64) as i64 == ca) by (bit_vector);
}

/// Where the header and the length-prefixed fields of a well-formed
/// bundle's encoding lie.
#[verifier::spinoff_prover]
#[verifier::rlimit(40)]
proof fn lemma_encoding_layout(bd: VerificationBundleV2)
    requires
        bd.version == BUNDLE_VERSION,
        bd.seal@.len() == SEAL_LEN,
        bd.journal@.len() <= u32::MAX,
        vstd::utf8::encode_utf8(bd.meta.prover_version@).len() <= u32::MAX,
    ensures
        spec_to_bytes(bd).take(8) == bundle_magic(),
        u16_at(spec_to_bytes(bd), 8) == BUNDLE_VERSION,
        u16_at(spec_to_bytes(bd), 10) == 1,
        journal_at(spec_to_bytes(bd)) == 308,
        version_at(spec_to_bytes(bd)) == 312 + bd.journal@.len(),
        tail_at(spec_to_bytes(bd)) == version_at(spec_to_bytes(bd)) + 4 + vstd::utf8::encode_utf8(
            bd.meta.prover_version@,
        ).len(),
        spec_to_bytes(bd).len() == tail_at(spec_to_bytes(bd)) + 32,
{
    let b = spec_to_bytes(bd);
    let vb = vstd::utf8::encode_utf8(bd.meta.prover_version@);
    let jn = bd.journal@.len() as int;
    let vn = vb.len() as int;
    let head = bundle_magic() + le_bytes_u16(bd.version) + le_bytes_u16(1) + bd.image_id@;
    let t0 = le_bytes_i64(bd.meta.created_at);
    let t1 = le_bytes_u64(bd.meta.cycles);
    let t2 = le_bytes_u64(bd.meta.timings.prove_and_compress_ms);
    let t3 = le_bytes_u64(bd.meta.timings.total_ms);
    assert(b =~= head + prefixed(bd.seal@) + prefixed(bd.journal@) + prefixed(vb) + t0 + t1 + t2 + t3);
    assert(head.len() == 44);
    let ja: int = 308int;
    let va = ja + 4 + jn;
    let ta = va + 4 + vn;
    assert(b.len() == ta + 32);
    // header fields
    assert(b.take(8) =~= bundle_magic());
    lemma_u16_le_round_trip(2);
    lemma_u16_le_round_trip(1);
    assert(b.subrange(8, 10) =~= le_bytes_u16(2));
    assert(b.subrange(10, 12) =~= le_bytes_u16(1));
    assert(u16_at(b, 8) == u16_at(b.subrange(8, 10), 0));
    assert(u16_at(b, 10) == u16_at(b.subrange(10, 12), 0));
    // seal length prefix
    lemma_u32_le_round_trip(260);
    assert(b.subrange(44, 48) =~= le_bytes_u32(260));
    assert(u32_at(b, 44) == u32_at(b.subrange(44, 48), 0));
    assert(journal_at(b) == ja);
    // journal length prefix
    lemma_u32_le_round_trip(jn as u32);
    assert(b.subrange(ja, ja + 4) =~= le_bytes_u32(jn as u32));
    assert(u32_at(b, ja) == u32_at(b.subrange(ja, ja + 4), 0));
    assert(version_at(b) == va);
    // version length prefix
    lemma_u32_le_round_trip(vn as u32);
    assert(b.subrange(va, va + 4) =~= le_bytes_u32(vn as u32));
    assert(u32_at(b, va) == u32_at(b.subrange(va, va + 4), 0));
    assert(tail_at(b) == ta);
}

/// Every proper prefix of the encoding of a well-formed bundle is rejected
/// as truncated, whatever field it stops in.
pub proof fn lemma_prefix_is_truncated(bd: VerificationBundleV2, k: int)
    requires
        bd.version == BUNDLE_VERSION,
        bd.seal@.len() == SEAL_LEN,
        spec_decode(bd.journal@) is Ok,
        bd.journal@.len() <= u32::MAX,
        vstd::utf8::encode_utf8(bd.meta.prover_version@).len() <= u32::MAX,
        0 <= k < spec_to_bytes(bd).len(),
    ensures
        parse_error(spec_to_bytes(bd).take(k)) == Some(BundleError::Truncated),
{
    let b = spec_to_bytes(bd);
    let p = b.take(k);
    lemma_encoding_layout(bd);
    if k >= 8 {
        assert(p.take(8) =~= b.take(8));
    }
    if k >= 10 {
        assert(u16_at(p, 8) == u16_at(b, 8));
    }
    if k >= 12 {
        assert(u16_at(p, 10) == u16_at(b, 10));
    }
    if k >= 48 {
        assert(u32_at(p, 44) == u32_at(b, 44));
        assert(journal_at(p) == 308);
        if 312 <= k {
            assert(u32_at(p, 308) == u32_at(b, 308));
            assert(version_at(p) == version_at(b));
            let va = version_at(b);
            if va + 4 <= k {
                assert(u32_at(p, va) == u32_at(b, va));
                assert(tail_at(p) == tail_at(b));
            }
        }
    }
}

proof fn lemma_to_hex_is_hex_chars(b: Seq<u8>)
    ensures
        spec_to_hex(b) == crate::commitment::hex_chars(b),
    decreases b.len(),
{
    if b.len() > 0 {
        lemma_to_hex_is_hex_chars(b.drop_last());
    }
}

/// Decoding the hex text of any byte string gives the bytes back.
pub proof fn lemma_hex_round_trip(b: Seq<u8>)
    ensures
        spec_from_hex(vstd::utf8::encode_utf8(spec_to_hex(b))) == Some(b),
{
    lemma_to_hex_is_hex_chars(b);
    let chars = spec_to_hex(b);
    crate::commitment::lemma_hex_chars_index(b);
    assert forall|i: int| 0 <= i < chars.len() implies '\0' <= #[trigger] chars[i] <= '\u{7f}' by {
        let k = i / 2;
        crate::commitment::lemma_hex_char_value(b[k] / 16);
        crate::commitment::lemma_hex_char_value(b[k] % 16);
        if i % 2 == 0 {
            assert(i == 2 * k);
        } else {
            assert(i == 2 * k + 1);
        }
    }
    vstd::utf8::is_ascii_chars_encode_utf8(chars);
    let t = vstd::utf8::encode_utf8(chars);
    assert(t.len() == 2 * b.len());
    assert forall|i: int| 0 <= i < t.len() implies #[trigger] digit16(t[i]) is Some by {
        let k = i / 2;
        crate::commitment::lemma_hex_char_value(b[k] / 16);
        crate::commitment::lemma_hex_char_value(b[k] % 16);
        assert(t[i] == chars[i] as u8);
        if i % 2 == 0 {
            assert(i == 2 * k);
        } else {
            assert(i == 2 * k + 1);
        }
    }
    assert forall|k: int| 0 <= k < b.len() implies (digit16(t[2 * k])->0 * 16 + digit16(t[2 * k + 1])->0) as u8
        == #[trigger] b[k] by {
        crate::commitment::lemma_hex_char_value(b[k] / 16);
        crate::commitment::lemma_hex_char_value(b[k] % 16);
        assert(t[2 * k] == chars[2 * k] as u8);
        assert(t[2 * k + 1] == chars[2 * k + 1] as u8);
        assert((b[k] / 16) * 16 + b[k] % 16 == b[k]);
    }
    assert(Seq::new(t.len() / 2, |i: int| (digit16(t[2 * i])->0 * 16 + digit16(t[2 * i + 1])->0) as u8) =~= b);
}

} // verus!
