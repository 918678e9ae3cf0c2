//! Errors shared by model handling, quantization and inference.
use vstd::prelude::*;

use crate::commitment::{hex_char, hex_digit};

verus! {

/// Errors that can occur during model handling, quantization, inference,
/// or proof preparation.
#[derive(Debug, Clone, PartialEq, Eq)]
pub enum ZkmlError {
    /// The number of inputs did not match the model's expected feature count.
    FeatureCountMismatch { expected: usize, got: usize },
    /// A model definition was structurally invalid.
    InvalidModel(String),
    /// Parsing an external model representation failed.
    ParseError(String),
    /// A fixed-point operation overflowed.
    ArithmeticOverflow,
    /// Inputs or parameters do not share one fixed-point scale.
    QuantizationError(String),
}

/// The text of a [`ZkmlError`], as its `Display` writes it.
pub open spec fn error_text(e: ZkmlError) -> Seq<char> {
    match e {
        ZkmlError::FeatureCountMismatch { expected, got } => "feature count mismatch: expected "@ + decimal(
            expected as nat,
        ) + ", got "@ + decimal(got as nat),
        ZkmlError::InvalidModel(m) => "invalid model: "@ + m@,
        ZkmlError::ParseError(m) => "parse error: "@ + m@,
        ZkmlError::ArithmeticOverflow => "arithmetic overflow"@,
        ZkmlError::QuantizationError(m) => "quantization error: "@ + m@,
    }
}

impl ZkmlError {
    /// A human-readable description, as the `Display` text of the error.
    pub fn message(&self) -> (r: String)
        ensures
            r@ == error_text(*self),
    {
        let mut s = String::new();
        match self {
            ZkmlError::FeatureCountMismatch { expected, got } => {
                s.append("feature count mismatch: expected ");
                push_decimal(&mut s, *expected as u64);
                s.append(", got ");
                push_decimal(&mut s, *got as u64);
            },
            ZkmlError::InvalidModel(m) => {
                s.append("invalid model: ");
                s.append(m.as_str());
            },
            ZkmlError::ParseError(m) => {
                s.append("parse error: ");
                s.append(m.as_str());
            },
            ZkmlError::ArithmeticOverflow => {
                s.append("arithmetic overflow");
            },
            ZkmlError::QuantizationError(m) => {
                s.append("quantization error: ");
                s.append(m.as_str());
            },
        }
        proof {
            assert(Seq::<char>::empty() + error_text(*self) =~= error_text(*self));
        }
        s
    }
}

/// The variant of a [`ZkmlError`] with its numeric fields, leaving out
/// message text; contracts state outcomes in these terms.
pub enum ErrorKind {
    FeatureCountMismatch { expected: usize, got: usize },
    InvalidModel,
    ParseError,
    ArithmeticOverflow,
    QuantizationError,
}

impl ZkmlError {
    /// This error's variant and numeric fields.
    pub open spec fn kind(self) -> ErrorKind {
        match self {
            ZkmlError::FeatureCountMismatch { expected, got } => ErrorKind::FeatureCountMismatch { expected, got },
            ZkmlError::InvalidModel(_) => ErrorKind::InvalidModel,
            ZkmlError::ParseError(_) => ErrorKind::ParseError,
            ZkmlError::ArithmeticOverflow => ErrorKind::ArithmeticOverflow,
            ZkmlError::QuantizationError(_) => ErrorKind::QuantizationError,
        }
    }
}

/// A result with its error reduced to the error's kind.
pub open spec fn result_kind<T>(r: Result<T, ZkmlError>) -> Result<T, ErrorKind> {
    match r {
        Ok(v) => Ok(v),
        Err(e) => Err(e.kind()),
    }
}

/// The decimal digits of `n`.
pub open spec fn decimal(n: nat) -> Seq<char>
    decreases n,
{
    if n < 10 {
        seq![hex_char(n as u8)]
    } else {
        decimal(n / 10).push(hex_char((n % 10) as u8))
    }
}

/// The decimal text of `v`, with a leading `-` when negative.
pub open spec fn signed_decimal(v: int) -> Seq<char> {
    if v < 0 {
        seq!['-'] + decimal((-v) as nat)
    } else {
        decimal(v as nat)
    }
}

/// Append the decimal digits of `n` to `s`.
pub(crate) fn push_decimal(s: &mut String, n: u64)
    ensures
        final(s)@ == old(s)@ + decimal(n as nat),
    decreases n,
{
    if n >= 10 {
        push_decimal(s, n / 10);
    }
    let d = (n % 10) as u8;
    s.append(hex_digit(d));
    proof {
        if n >= 10 {
            assert(decimal(n as nat) == decimal((n / 10) as nat).push(hex_char(d)));
        }
    }
}

/// Append the decimal text of `v` to `s`.
pub(crate) fn push_signed(s: &mut String, v: i64)
    ensures
        final(s)@ == old(s)@ + signed_decimal(v as int),
{
    if v < 0 {
        s.append("-");
        let m: u64 = if v == i64::MIN { 9223372036854775808u64 } else { (-v) as u64 };
        push_decimal(s, m);
        proof {
            reveal_strlit("-");
            assert(old(s)@ + "-"@ + decimal(m as nat) =~= old(s)@ + signed_decimal(v as int));
        }
    } else {
        push_decimal(s, v as u64);
    }
}

} // verus!
