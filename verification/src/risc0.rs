//! RISC Zero digest arithmetic.
//!
//! A Groth16 receipt produced by RISC Zero carries five field elements as
//! public inputs:
//!
//! ```text
//! [control_root_lo, control_root_hi, claim_digest_lo, claim_digest_hi, bn254_control_id]
//! ```
//!
//! where `claim_digest` binds the image id to the journal. This module
//! recomputes those values from a journal. The SHA-256 implementation is
//! supplied by the caller through [`Sha256`]; every digest is stated in terms
//! of the hasher's own function.
use vstd::prelude::*;

use crate::merkle::views;
use vstd::string::StringSliceAdditionalSpecFns;

verus! {

/// A 32-byte SHA-256 digest, in RISC Zero byte order.
pub type Digest = [u8; 32];

/// Length of an encoded Groth16 seal: 4-byte selector plus 256-byte proof.
pub const SEAL_LEN: usize = 4 + 256;

/// The all-zero digest, used for pruned or absent fields.
pub fn zero_digest() -> (r: Digest)
    ensures
        r@ == Seq::new(32, |i: int| 0u8),
{
    let r: Digest = [0u8; 32];
    assert(r@ =~= Seq::new(32, |i: int| 0u8));
    r
}

/// The SHA-256 digest of `bytes`, as the `sha2` crate computes it.
pub uninterp spec fn sha256_of(bytes: Seq<u8>) -> Seq<u8>;

/// Calls `<sha2::Sha256 as sha2::Digest>::digest`; the contract claims only
/// that the result is the SHA-256 function of the input bytes.
#[verifier::external_body]
fn sha2_digest(bytes: &[u8]) -> (r: Digest)
    ensures
        r@ == sha256_of(bytes@),
{
    <sha2::Sha256 as sha2::Digest>::digest(bytes).into()
}

/// A SHA-256 implementation, supplied by the caller.
///
/// Off-chain the `sha2` crate serves; inside a contract a host function may
/// be cheaper. Every implementation must compute SHA-256 itself: the digests
/// built here must agree exactly with the verifier's.
pub trait Sha256: Copy {
    /// Hash `bytes` and return the 32-byte SHA-256 digest.
    fn hash(&self, bytes: &[u8]) -> (r: Digest)
        ensures
            r@ == sha256_of(bytes@),
    ;
}

/// The `sha2` implementation, for callers that are not inside a contract.
#[derive(Clone, Copy, Debug, Default)]
pub struct Sha2Hasher;

impl Sha256 for Sha2Hasher {
    fn hash(&self, bytes: &[u8]) -> (r: Digest) {
        sha2_digest(bytes)
    }
}

/// The concatenation of a sequence of byte strings.
pub open spec fn concat_bytes(ds: Seq<Seq<u8>>) -> Seq<u8>
    decreases ds.len(),
{
    if ds.len() == 0 {
        Seq::empty()
    } else {
        concat_bytes(ds.drop_last()) + ds.last()
    }
}

/// Little-endian bytes of a `u32`.
pub open spec fn le_bytes_u32(w: u32) -> Seq<u8> {
    seq![w as u8, (w >> 8u32) as u8, (w >> 16u32) as u8, (w >> 24u32) as u8]
}

/// Little-endian bytes of each word, concatenated.
pub open spec fn words_le(ws: Seq<u32>) -> Seq<u8>
    decreases ws.len(),
{
    if ws.len() == 0 {
        Seq::empty()
    } else {
        words_le(ws.drop_last()) + le_bytes_u32(ws.last())
    }
}

/// The bytes hashed by [`tagged_struct`]:
/// `tag_digest || down_0 || .. || down_n || data_le || down_count_le`.
pub open spec fn tagged_preimage(tag_digest: Seq<u8>, down: Seq<Seq<u8>>, data: Seq<u32>) -> Seq<u8> {
    let count = down.len() as u16;
    tag_digest + concat_bytes(down) + words_le(data) + seq![count as u8, (count >> 8u16) as u8]
}

/// RISC Zero's structural hash of a tagged struct.
pub open spec fn spec_tagged_struct(tag: Seq<u8>, down: Seq<Seq<u8>>, data: Seq<u32>) -> Seq<u8> {
    sha256_of(tagged_preimage(sha256_of(tag), down, data))
}

pub(crate) fn push_all(buf: &mut Vec<u8>, src: &[u8])
    ensures
        final(buf)@ == old(buf)@ + src@,
{
    let mut i: usize = 0;
    while i < src.len()
        invariant
            i <= src@.len(),
            buf@ == old(buf)@ + src@.take(i as int),
        decreases src@.len() - i,
    {
        buf.push(src[i]);
        i = i + 1;
        assert(buf@ =~= old(buf)@ + src@.take(i as int));
    }
    assert(src@.take(i as int) =~= src@);
}

/// Structural hash used by RISC Zero for claim-like structs:
/// `sha256(sha256(tag) || down_0 || .. || down_n || data_le || down_count_le)`
/// with little-endian `u32` data words and a little-endian `u16` count.
pub fn tagged_struct<H: Sha256>(sha: H, tag: &str, down: &[Digest], data: &[u32]) -> (r: Digest)
    ensures
        r@ == spec_tagged_struct(tag.spec_bytes(), views(down@), data@),
{
    let mut buf: Vec<u8> = Vec::new();
    let tag_digest = sha.hash(tag.as_bytes());
    push_all(&mut buf, tag_digest.as_slice());
    let mut i: usize = 0;
    while i < down.len()
        invariant
            i <= down@.len(),
            buf@ == tag_digest@ + concat_bytes(views(down@.take(i as int))),
        decreases down@.len() - i,
    {
        let ghost before = buf@;
        push_all(&mut buf, down[i].as_slice());
        proof {
            assert(views(down@.take(i + 1)).drop_last() =~= views(down@.take(i as int)));
            assert(views(down@.take(i + 1)).last() == down@[i as int]@);
            assert(buf@ =~= tag_digest@ + concat_bytes(views(down@.take(i + 1))));
        }
        i = i + 1;
    }
    assert(down@.take(i as int) =~= down@);
    let mut k: usize = 0;
    while k < data.len()
        invariant
            k <= data@.len(),
            buf@ == tag_digest@ + concat_bytes(views(down@)) + words_le(data@.take(k as int)),
        decreases data@.len() - k,
    {
        let w = data[k];
        let bytes: [u8; 4] = [w as u8, (w >> 8u32) as u8, (w >> 16u32) as u8, (w >> 24u32) as u8];
        push_all(&mut buf, bytes.as_slice());
        proof {
            assert(data@.take(k + 1).drop_last() =~= data@.take(k as int));
            assert(bytes@ =~= le_bytes_u32(w));
            assert(buf@ =~= tag_digest@ + concat_bytes(views(down@)) + words_le(data@.take(k + 1)));
        }
        k = k + 1;
    }
    assert(data@.take(k as int) =~= data@);
    let count: u16 = down.len() as u16;
    buf.push(count as u8);
    buf.push((count >> 8u16) as u8);
    assert(buf@ =~= tagged_preimage(tag_digest@, views(down@), data@));
    sha.hash(buf.as_slice())
}

/// Tag of a `SystemState`.
pub open spec fn system_state_tag() -> Seq<u8> {
    "risc0.SystemState".spec_bytes()
}

/// Tag of an `Output`.
pub open spec fn output_tag() -> Seq<u8> {
    "risc0.Output".spec_bytes()
}

/// Tag of a `ReceiptClaim`.
pub open spec fn receipt_claim_tag() -> Seq<u8> {
    "risc0.ReceiptClaim".spec_bytes()
}

/// Tag of `Groth16ReceiptVerifierParameters`.
pub open spec fn verifier_parameters_tag() -> Seq<u8> {
    "risc0.Groth16ReceiptVerifierParameters".spec_bytes()
}

/// Thirty-two zero bytes.
pub open spec fn zero_seq() -> Seq<u8> {
    Seq::new(32, |i: int| 0u8)
}

/// Digest of a `SystemState`.
pub open spec fn spec_system_state_digest(merkle_root: Seq<u8>, pc: u32) -> Seq<u8> {
    spec_tagged_struct(system_state_tag(), seq![merkle_root], seq![pc])
}

/// Digest of an `Output` with no assumptions.
pub open spec fn spec_output_digest(journal_digest: Seq<u8>) -> Seq<u8> {
    spec_tagged_struct(output_tag(), seq![journal_digest, zero_seq()], Seq::empty())
}

/// Digest of `ReceiptClaim::ok(image_id, journal)`.
pub open spec fn spec_receipt_claim_ok_digest(image_id: Seq<u8>, journal: Seq<u8>) -> Seq<u8> {
    spec_tagged_struct(receipt_claim_tag(),
        seq![
            zero_seq(),
            image_id,
            spec_system_state_digest(zero_seq(), 0),
            spec_output_digest(sha256_of(journal)),
        ],
        seq![0u32, 0u32],
    )
}

/// Digest of a `SystemState`.
pub fn system_state_digest<H: Sha256>(sha: H, merkle_root: &Digest, pc: u32) -> (r: Digest)
    ensures
        r@ == spec_system_state_digest(merkle_root@, pc),
{
    let down: [Digest; 1] = [*merkle_root];
    let data: [u32; 1] = [pc];
    assert(views(down@) =~= seq![merkle_root@]);
    assert(data@ =~= seq![pc]);
    tagged_struct(sha, "risc0.SystemState", down.as_slice(), data.as_slice())
}

/// Digest of the post state of a program that halted normally.
pub fn halted_post_state_digest<H: Sha256>(sha: H) -> (r: Digest)
    ensures
        r@ == spec_system_state_digest(zero_seq(), 0),
{
    system_state_digest(sha, &zero_digest(), 0)
}

/// Digest of an `Output` with no assumptions (an empty assumptions list
/// hashes to the zero digest).
pub fn output_digest<H: Sha256>(sha: H, journal_digest: &Digest) -> (r: Digest)
    ensures
        r@ == spec_output_digest(journal_digest@),
{
    let down: [Digest; 2] = [*journal_digest, zero_digest()];
    let data: [u32; 0] = [];
    assert(views(down@) =~= seq![journal_digest@, zero_seq()]);
    assert(data@ =~= Seq::<u32>::empty());
    tagged_struct(sha, "risc0.Output", down.as_slice(), data.as_slice())
}

/// Digest of the journal bytes.
pub fn journal_digest<H: Sha256>(sha: H, journal: &[u8]) -> (r: Digest)
    ensures
        r@ == sha256_of(journal@),
{
    sha.hash(journal)
}

/// Digest of `ReceiptClaim::ok(image_id, journal)`: a program that ran to a
/// normal halt with exit code 0, no input and no assumptions.
pub fn receipt_claim_ok_digest<H: Sha256>(sha: H, image_id: &Digest, journal: &[u8]) -> (r: Digest)
    ensures
        r@ == spec_receipt_claim_ok_digest(image_id@, journal@),
{
    let output = output_digest(sha, &journal_digest(sha, journal));
    let down: [Digest; 4] = [zero_digest(), *image_id, halted_post_state_digest(sha), output];
    let data: [u32; 2] = [0, 0];
    assert(data@ =~= seq![0u32, 0u32]);
    let r = tagged_struct(sha, "risc0.ReceiptClaim", down.as_slice(), data.as_slice());
    assert(views(down@) =~= seq![
        zero_seq(),
        image_id@,
        spec_system_state_digest(zero_seq(), 0),
        spec_output_digest(sha256_of(journal@)),
    ]);
    r
}

/// Digest reversed byte by byte.
pub open spec fn reversed(d: Seq<u8>) -> Seq<u8> {
    Seq::new(d.len(), |i: int| d[d.len() - 1 - i])
}

/// Reverse a digest byte by byte (little-endian to big-endian and back).
pub fn reverse_bytes(digest: &Digest) -> (r: Digest)
    ensures
        r@ == reversed(digest@),
{
    let mut out: Digest = [0u8; 32];
    let mut i: usize = 0;
    while i < 32
        invariant
            i <= 32,
            digest@.len() == 32,
            forall|k: int| 0 <= k < i ==> #[trigger] out@[k] == digest@[31 - k],
        decreases 32 - i,
    {
        out[i] = digest[31 - i];
        i = i + 1;
    }
    assert(out@ =~= reversed(digest@));
    out
}

/// Split a digest into the two 128-bit field elements the Groth16 verifier
/// takes: the digest is reversed, then its second half is returned first
/// (the low 128 bits) and its first half second (the high 128 bits).
pub fn split_digest(digest: &Digest) -> (r: ([u8; 16], [u8; 16]))
    ensures
        r.0@ == reversed(digest@).subrange(16, 32),
        r.1@ == reversed(digest@).subrange(0, 16),
{
    let rev = reverse_bytes(digest);
    let mut hi: [u8; 16] = [0u8; 16];
    let mut lo: [u8; 16] = [0u8; 16];
    let mut i: usize = 0;
    while i < 16
        invariant
            i <= 16,
            rev@.len() == 32,
            forall|k: int| 0 <= k < i ==> #[trigger] hi@[k] == rev@[k],
            forall|k: int| 0 <= k < i ==> #[trigger] lo@[k] == rev@[16 + k],
        decreases 16 - i,
    {
        hi[i] = rev[i];
        lo[i] = rev[16 + i];
        i = i + 1;
    }
    assert(hi@ =~= rev@.subrange(0, 16));
    assert(lo@ =~= rev@.subrange(16, 32));
    (lo, hi)
}

/// Zero-extend a 128-bit value to a 32-byte big-endian scalar.
pub fn scalar_from_u128_be(value: &[u8; 16]) -> (r: Digest)
    ensures
        r@ == Seq::new(16, |i: int| 0u8) + value@,
{
    let mut out: Digest = [0u8; 32];
    let mut i: usize = 0;
    while i < 16
        invariant
            i <= 16,
            value@.len() == 16,
            forall|k: int| 0 <= k < 16 ==> #[trigger] out@[k] == 0u8,
            forall|k: int| 16 <= k < 16 + i ==> #[trigger] out@[k] == value@[k - 16],
            forall|k: int| 16 + i <= k < 32 ==> #[trigger] out@[k] == 0u8,
        decreases 16 - i,
    {
        out[16 + i] = value[i];
        i = i + 1;
    }
    assert(out@ =~= Seq::new(16, |i: int| 0u8) + value@);
    out
}

/// A 128-bit half zero-extended to a 32-byte big-endian scalar.
pub open spec fn scalar_of(half: Seq<u8>) -> Seq<u8> {
    Seq::new(16, |i: int| 0u8) + half
}

/// The five public inputs of a RISC Zero Groth16 receipt, each a 32-byte
/// big-endian BN254 scalar: both halves of the control root, both halves of
/// the claim digest (low first), and the byte-reversed BN254 control id.
pub fn groth16_public_inputs(control_root: &Digest, claim_digest: &Digest, bn254_control_id: &Digest) -> (r:
    [Digest; 5])
    ensures
        r[0]@ == scalar_of(reversed(control_root@).subrange(16, 32)),
        r[1]@ == scalar_of(reversed(control_root@).subrange(0, 16)),
        r[2]@ == scalar_of(reversed(claim_digest@).subrange(16, 32)),
        r[3]@ == scalar_of(reversed(claim_digest@).subrange(0, 16)),
        r[4]@ == reversed(bn254_control_id@),
{
    let (root_lo, root_hi) = split_digest(control_root);
    let (claim_lo, claim_hi) = split_digest(claim_digest);
    [
        scalar_from_u128_be(&root_lo),
        scalar_from_u128_be(&root_hi),
        scalar_from_u128_be(&claim_lo),
        scalar_from_u128_be(&claim_hi),
        reverse_bytes(bn254_control_id),
    ]
}

/// The 4-byte selector that prefixes a seal: the first four bytes of the
/// verifier-parameters digest.
pub fn selector_from_params_digest(params_digest: &Digest) -> (r: [u8; 4])
    ensures
        r@ == params_digest@.take(4),
{
    let r: [u8; 4] = [params_digest[0], params_digest[1], params_digest[2], params_digest[3]];
    assert(r@ =~= params_digest@.take(4));
    r
}

/// Digest of `Groth16ReceiptVerifierParameters`, from which the seal selector
/// is derived.
pub fn groth16_verifier_parameters_digest<H: Sha256>(
    sha: H,
    control_root: &Digest,
    bn254_control_id: &Digest,
    verifying_key_digest: &Digest,
) -> (r: Digest)
    ensures
        r@ == spec_tagged_struct(
            verifier_parameters_tag(),
            seq![control_root@, bn254_control_id@, verifying_key_digest@],
            Seq::empty(),
        ),
{
    let down: [Digest; 3] = [*control_root, *bn254_control_id, *verifying_key_digest];
    let data: [u32; 0] = [];
    assert(views(down@) =~= seq![control_root@, bn254_control_id@, verifying_key_digest@]);
    assert(data@ =~= Seq::<u32>::empty());
    tagged_struct(sha, "risc0.Groth16ReceiptVerifierParameters", down.as_slice(), data.as_slice())
}

/// The two halves returned by [`split_digest`], high half first, spell the
/// reversed digest.
pub proof fn lemma_split_recomposes(d: Seq<u8>)
    requires
        d.len() == 32,
    ensures
        reversed(d).subrange(0, 16) + reversed(d).subrange(16, 32) == reversed(d),
{
    assert(reversed(d).subrange(0, 16) + reversed(d).subrange(16, 32) =~= reversed(d));
}

} // verus!
