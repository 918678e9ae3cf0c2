//! Fixed-layout journal committed by the zkVM guest.
//!
//! Layout (96 bytes, little-endian):
//!
//! | Offset | Size | Field         | Notes                                   |
//! | ------ | ---- | ------------- | --------------------------------------- |
//! | 0      | 4    | `magic`       | ASCII `ZKML`                            |
//! | 4      | 2    | `version`     | `1`                                     |
//! | 6      | 1    | `model_kind`  | 0 tree, 1 logistic regression, 2 MLP    |
//! | 7      | 1    | `reserved0`   | zero                                    |
//! | 8      | 32   | `model_hash`  | commitment over the parameters          |
//! | 40     | 32   | `input_hash`  | commitment over the inputs              |
//! | 72     | 8    | `output`      | `i64`, raw Q16.16 value                 |
//! | 80     | 8    | `class_label` | `i64`                                   |
//! | 88     | 8    | `reserved1`   | zero                                    |
use vstd::prelude::*;

use crate::commitment::Commitment;
use crate::models::Model;

verus! {

/// Byte length of an encoded [`JournalV1`].
pub const JOURNAL_V1_LEN: usize = 96;

/// Magic prefix that identifies a zkml journal: ASCII `ZKML`.
pub const JOURNAL_MAGIC: [u8; 4] = [0x5a, 0x4b, 0x4d, 0x4c];

/// Journal version encoded in the header.
pub const JOURNAL_VERSION: u16 = 1;

/// Model family committed in the journal.
#[derive(Debug, Clone, Copy, PartialEq, Eq, Structural)]
pub enum ModelKind {
    /// [`Model::DecisionTree`], wire byte 0.
    DecisionTree,
    /// [`Model::LogisticRegression`], wire byte 1.
    LogisticRegression,
    /// [`Model::TinyMLP`], wire byte 2.
    TinyMlp,
}

/// Errors returned while decoding a journal.
#[derive(Debug, Clone, Copy, PartialEq, Eq, Structural)]
pub enum JournalError {
    /// The buffer is not exactly [`JOURNAL_V1_LEN`] bytes.
    InvalidLength(usize),
    /// The magic prefix does not match [`JOURNAL_MAGIC`].
    BadMagic,
    /// The version field is not supported by this build.
    UnsupportedVersion(u16),
    /// The model kind byte is not a known [`ModelKind`].
    UnknownModelKind(u8),
}

/// The public result of one inference, as committed by the guest.
#[derive(Debug, Clone, Copy, PartialEq, Eq)]
pub struct JournalV1 {
    /// Which model family produced the result.
    pub model_kind: ModelKind,
    /// Commitment to the model parameters.
    pub model_hash: Commitment,
    /// Commitment to the input features.
    pub input_hash: Commitment,
    /// Raw Q16.16 inference output.
    pub output: i64,
    /// Decision label: threshold class or argmax index.
    pub class_label: i64,
}

/// The wire byte of a model kind.
pub open spec fn kind_byte(k: ModelKind) -> u8 {
    match k {
        ModelKind::DecisionTree => 0,
        ModelKind::LogisticRegression => 1,
        ModelKind::TinyMlp => 2,
    }
}

/// The kind with wire byte `b`, for `b < 3`.
pub open spec fn kind_of_byte(b: u8) -> ModelKind {
    if b == 0 {
        ModelKind::DecisionTree
    } else if b == 1 {
        ModelKind::LogisticRegression
    } else {
        ModelKind::TinyMlp
    }
}

/// The kind of a model value.
pub open spec fn spec_kind_of(model: Model) -> ModelKind {
    match model {
        Model::DecisionTree(_) => ModelKind::DecisionTree,
        Model::LogisticRegression(_) => ModelKind::LogisticRegression,
        Model::TinyMLP(_) => ModelKind::TinyMlp,
    }
}

impl ModelKind {
    /// The kind of a model value.
    pub fn of(model: &Model) -> (r: Self)
        ensures
            r == spec_kind_of(*model),
    {
        match model {
            Model::DecisionTree(_) => ModelKind::DecisionTree,
            Model::LogisticRegression(_) => ModelKind::LogisticRegression,
            Model::TinyMLP(_) => ModelKind::TinyMlp,
        }
    }

    /// Parse a kind from its wire byte.
    pub fn from_byte(byte: u8) -> (r: Result<Self, JournalError>)
        ensures
            byte < 3 ==> r == Ok::<ModelKind, JournalError>(kind_of_byte(byte)),
            byte >= 3 ==> r == Err::<ModelKind, JournalError>(JournalError::UnknownModelKind(byte)),
    {
        match byte {
            0 => Ok(ModelKind::DecisionTree),
            1 => Ok(ModelKind::LogisticRegression),
            2 => Ok(ModelKind::TinyMlp),
            other => Err(JournalError::UnknownModelKind(other)),
        }
    }

    /// The wire byte of this kind.
    pub fn to_byte(self) -> (r: u8)
        ensures
            r == kind_byte(self),
    {
        match self {
            ModelKind::DecisionTree => 0,
            ModelKind::LogisticRegression => 1,
            ModelKind::TinyMlp => 2,
        }
    }
}

/// Little-endian bytes of a 64-bit value.
pub open spec fn le_bytes_u64(u: u64) -> Seq<u8> {
    seq![
        u as u8,
        (u >> 8u64) as u8,
        (u >> 16u64) as u8,
        (u >> 24u64) as u8,
        (u >> 32u64) as u8,
        (u >> 40u64) as u8,
        (u >> 48u64) as u8,
        (u >> 56u64) as u8,
    ]
}

/// Little-endian two's-complement bytes of an `i64`.
pub open spec fn le_bytes_i64(v: i64) -> Seq<u8> {
    le_bytes_u64(v as u64)
}

/// The `u64` whose little-endian bytes are `b[0..8]`.
pub open spec fn u64_from_le(b: Seq<u8>) -> u64 {
    (b[0] as u64) | ((b[1] as u64) << 8u64) | ((b[2] as u64) << 16u64) | ((b[3] as u64) << 24u64)
        | ((b[4] as u64) << 32u64) | ((b[5] as u64) << 40u64) | ((b[6] as u64) << 48u64) | ((
    b[7] as u64) << 56u64)
}

/// The `i64` whose little-endian two's-complement bytes are `b[0..8]`.
pub open spec fn i64_from_le(b: Seq<u8>) -> i64 {
    u64_from_le(b) as i64
}

/// The `u16` whose little-endian bytes are `b0, b1`.
pub open spec fn u16_from_le(b0: u8, b1: u8) -> u16 {
    (b0 as u16) | ((b1 as u16) << 8u16)
}

/// The magic prefix as a sequence.
pub open spec fn magic_seq() -> Seq<u8> {
    seq![0x5au8, 0x4bu8, 0x4du8, 0x4cu8]
}

/// The 96-byte encoding of a journal.
pub open spec fn spec_encode(j: JournalV1) -> Seq<u8> {
    magic_seq() + seq![1u8, 0u8, kind_byte(j.model_kind), 0u8] + j.model_hash@ + j.input_hash@
        + le_bytes_i64(j.output) + le_bytes_i64(j.class_label) + Seq::new(8, |i: int| 0u8)
}

/// The 80-byte public-input blob of a journal.
pub open spec fn spec_public_inputs(j: JournalV1) -> Seq<u8> {
    j.model_hash@ + j.input_hash@ + le_bytes_i64(j.output) + le_bytes_i64(j.class_label)
}

/// The outcome of decoding `b`.
pub open spec fn spec_decode(b: Seq<u8>) -> Result<JournalV1, JournalError> {
    if b.len() != JOURNAL_V1_LEN {
        Err(JournalError::InvalidLength(b.len() as usize))
    } else if b.take(4) != magic_seq() {
        Err(JournalError::BadMagic)
    } else if u16_from_le(b[4], b[5]) != JOURNAL_VERSION {
        Err(JournalError::UnsupportedVersion(u16_from_le(b[4], b[5])))
    } else if b[6] >= 3 {
        Err(JournalError::UnknownModelKind(b[6]))
    } else {
        Ok(
            JournalV1 {
                model_kind: kind_of_byte(b[6]),
                model_hash: choose|h: Commitment| h@ == b.subrange(8, 40),
                input_hash: choose|h: Commitment| h@ == b.subrange(40, 72),
                output: i64_from_le(b.subrange(72, 80)),
                class_label: i64_from_le(b.subrange(80, 88)),
            },
        )
    }
}

proof fn lemma_le_round_trip(u: u64)
    ensures
        u64_from_le(le_bytes_u64(u)) == u,
{
    let b0 = u as u8;
    let b1 = (u >> 8u64) as u8;
    let b2 = (u >> 16u64) as u8;
    let b3 = (u >> 24u64) as u8;
    let b4 = (u >> 32u64) as u8;
    let b5 = (u >> 40u64) as u8;
    let b6 = (u >> 48u64) as u8;
    let b7 = (u >> 56u64) as u8;
    assert((b0 as u64) | ((b1 as u64) << 8u64) | ((b2 as u64) << 16u64) | ((b3 as u64) << 24u64)
        | ((b4 as u64) << 32u64) | ((b5 as u64) << 40u64) | ((b6 as u64) << 48u64) | ((b7 as u64)
        << 56u64) == u) by (bit_vector)
        requires
            b0 == u as u8,
            b1 == (u >> 8u64) as u8,
            b2 == (u >> 16u64) as u8,
            b3 == (u >> 24u64) as u8,
            b4 == (u >> 32u64) as u8,
            b5 == (u >> 40u64) as u8,
            b6 == (u >> 48u64) as u8,
            b7 == (u >> 56u64) as u8,
    ;
}

proof fn lemma_i64_u64_round_trip(v: i64)
    ensures
        (v as u64) as i64 == v,
{
    assert((v as u64) as i64 == v) by (bit_vector);
}

pub(crate) fn u64_le_bytes(u: u64) -> (r: [u8; 8])
    ensures
        r@ == le_bytes_u64(u),
{
    let r: [u8; 8] = [
        u as u8,
        (u >> 8u64) as u8,
        (u >> 16u64) as u8,
        (u >> 24u64) as u8,
        (u >> 32u64) as u8,
        (u >> 40u64) as u8,
        (u >> 48u64) as u8,
        (u >> 56u64) as u8,
    ];
    assert(r@ =~= le_bytes_u64(u));
    r
}

pub(crate) fn u64_from_le_bytes(b: &[u8], at: usize) -> (r: u64)
    requires
        at + 8 <= b@.len(),
    ensures
        r == u64_from_le(b@.subrange(at as int, at + 8)),
{
    (b[at] as u64) | ((b[at + 1] as u64) << 8u64) | ((b[at + 2] as u64) << 16u64) | ((b[at + 3] as u64)
        << 24u64) | ((b[at + 4] as u64) << 32u64) | ((b[at + 5] as u64) << 40u64) | ((b[at
        + 6] as u64) << 48u64) | ((b[at + 7] as u64) << 56u64)
}

/// Copy `src` into `out` starting at `at`.
fn put_bytes<const N: usize>(out: &mut [u8; N], at: usize, src: &[u8])
    requires
        at + src@.len() <= N,
    ensures
        final(out)@.len() == N,
        forall|k: int| 0 <= k < at ==> #[trigger] final(out)@[k] == old(out)@[k],
        forall|k: int| at <= k < at + src@.len() ==> #[trigger] final(out)@[k] == src@[k - at],
        forall|k: int| at + src@.len() <= k < N ==> #[trigger] final(out)@[k] == old(out)@[k],
{
    let mut i: usize = 0;
    while i < src.len()
        invariant
            at + src@.len() <= N,
            i <= src@.len(),
            out@.len() == N,
            forall|k: int| 0 <= k < at ==> #[trigger] out@[k] == old(out)@[k],
            forall|k: int| at <= k < at + i ==> #[trigger] out@[k] == src@[k - at],
            forall|k: int| at + i <= k < N ==> #[trigger] out@[k] == old(out)@[k],
        decreases src@.len() - i,
    {
        out[at + i] = src[i];
        i = i + 1;
    }
}

impl JournalV1 {
    /// Encode to the fixed 96-byte layout.
    pub fn encode(&self) -> (r: [u8; JOURNAL_V1_LEN])
        ensures
            r@ == spec_encode(*self),
    {
        let mut out: [u8; JOURNAL_V1_LEN] = [0u8; JOURNAL_V1_LEN];
        let magic: [u8; 4] = [0x5a, 0x4b, 0x4d, 0x4c];
        put_bytes(&mut out, 0, magic.as_slice());
        out[4] = 1;
        out[5] = 0;
        out[6] = self.model_kind.to_byte();
        put_bytes(&mut out, 8, self.model_hash.as_slice());
        put_bytes(&mut out, 40, self.input_hash.as_slice());
        let o = u64_le_bytes(self.output as u64);
        put_bytes(&mut out, 72, o.as_slice());
        let l = u64_le_bytes(self.class_label as u64);
        put_bytes(&mut out, 80, l.as_slice());
        assert(out@ =~= spec_encode(*self));
        out
    }

    /// Decode from the fixed 96-byte layout.
    pub fn decode(bytes: &[u8]) -> (r: Result<Self, JournalError>)
        ensures
            r == spec_decode(bytes@),
    {
        if bytes.len() != JOURNAL_V1_LEN {
            return Err(JournalError::InvalidLength(bytes.len()));
        }
        if bytes[0] != 0x5a || bytes[1] != 0x4b || bytes[2] != 0x4d || bytes[3] != 0x4c {
            assert(bytes@.take(4) != magic_seq()) by {
                if bytes@.take(4) == magic_seq() {
                    assert(bytes@.take(4)[0] == bytes@[0]);
                    assert(bytes@.take(4)[1] == bytes@[1]);
                    assert(bytes@.take(4)[2] == bytes@[2]);
                    assert(bytes@.take(4)[3] == bytes@[3]);
                }
            }
            return Err(JournalError::BadMagic);
        }
        assert(bytes@.take(4) =~= magic_seq());
        let version: u16 = (bytes[4] as u16) | ((bytes[5] as u16) << 8u16);
        if version != JOURNAL_VERSION {
            return Err(JournalError::UnsupportedVersion(version));
        }
        let model_kind = match ModelKind::from_byte(bytes[6]) {
            Ok(k) => k,
            Err(e) => {
                return Err(e);
            },
        };
        let mut model_hash: Commitment = [0u8; 32];
        let mut i: usize = 0;
        while i < 32
            invariant
                bytes@.len() == JOURNAL_V1_LEN,
                i <= 32,
                forall|k: int| 0 <= k < i ==> #[trigger] model_hash@[k] == bytes@[8 + k],
            decreases 32 - i,
        {
            model_hash[i] = bytes[8 + i];
            i = i + 1;
        }
        let mut input_hash: Commitment = [0u8; 32];
        let mut i: usize = 0;
        while i < 32
            invariant
                bytes@.len() == JOURNAL_V1_LEN,
                i <= 32,
                forall|k: int| 0 <= k < i ==> #[trigger] input_hash@[k] == bytes@[40 + k],
            decreases 32 - i,
        {
            input_hash[i] = bytes[40 + i];
            i = i + 1;
        }
        let output = u64_from_le_bytes(bytes, 72) as i64;
        let class_label = u64_from_le_bytes(bytes, 80) as i64;
        assert(model_hash@ =~= bytes@.subrange(8, 40));
        assert(input_hash@ =~= bytes@.subrange(40, 72));
        let r = JournalV1 { model_kind, model_hash, input_hash, output, class_label };
        proof {
            let mh = choose|h: Commitment| h@ == bytes@.subrange(8, 40);
            let ih = choose|h: Commitment| h@ == bytes@.subrange(40, 72);
            assert(mh@ == model_hash@);
            assert(mh == model_hash);
            assert(ih == input_hash);
        }
        Ok(r)
    }

    /// The 80-byte public input blob the verifier contract expects:
    /// `model_hash (32) || input_hash (32) || output (8) || class_label (8)`.
    pub fn public_inputs_bytes(&self) -> (r: [u8; 80])
        ensures
            r@ == spec_public_inputs(*self),
    {
        let mut out: [u8; 80] = [0u8; 80];
        put_bytes(&mut out, 0, self.model_hash.as_slice());
        put_bytes(&mut out, 32, self.input_hash.as_slice());
        let o = u64_le_bytes(self.output as u64);
        put_bytes(&mut out, 64, o.as_slice());
        let l = u64_le_bytes(self.class_label as u64);
        put_bytes(&mut out, 72, l.as_slice());
        assert(out@ =~= spec_public_inputs(*self));
        out
    }
}

/// Decoding an encoded journal gives the journal back.
pub proof fn lemma_decode_encode(j: JournalV1)
    ensures
        spec_decode(spec_encode(j)) == Ok::<JournalV1, JournalError>(j),
{
    let b = spec_encode(j);
    assert(b.len() == 96);
    assert(b.take(4) =~= magic_seq());
    assert(u16_from_le(1u8, 0u8) == 1u16) by (bit_vector);
    assert(b[4] == 1u8 && b[5] == 0u8);
    assert(b[6] == kind_byte(j.model_kind));
    assert(b.subrange(8, 40) =~= j.model_hash@);
    assert(b.subrange(40, 72) =~= j.input_hash@);
    assert(b.subrange(72, 80) =~= le_bytes_i64(j.output));
    assert(b.subrange(80, 88) =~= le_bytes_i64(j.class_label));
    lemma_le_round_trip(j.output as u64);
    lemma_le_round_trip(j.class_label as u64);
    lemma_i64_u64_round_trip(j.output);
    lemma_i64_u64_round_trip(j.class_label);
    let mh = choose|h: Commitment| h@ == b.subrange(8, 40);
    assert(mh@ == j.model_hash@);
    assert(mh == j.model_hash);
    let ih = choose|h: Commitment| h@ == b.subrange(40, 72);
    assert(ih == j.input_hash);
}

} // verus!
