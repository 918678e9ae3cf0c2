//! Fixed-point arithmetic for ZK-compatible model inference.
//!
//! A `FixedPoint` stores `value = round(real * 2^scale)` as an `i64`. All
//! arithmetic is stated over mathematical integers: addition and subtraction
//! are exact or report overflow, multiplication floors the rescaled product
//! (an arithmetic shift), and division truncates toward zero.
use vstd::prelude::*;

verus! {

/// Number of fractional bits used by default (Q16.16).
pub const DEFAULT_SCALE: u32 = 16;

/// A fixed-point number represented as a scaled integer.
///
/// The derived order compares `value` first and `scale` second, so it agrees
/// with the derived equality.
#[derive(Debug, Clone, Copy, PartialEq, Eq, Structural, PartialOrd, Ord, Hash)]
pub struct FixedPoint {
    /// The scaled integer value.
    pub value: i64,
    /// The number of fractional bits.
    pub scale: u32,
}

/// `true` when `x` is representable as an `i64`.
pub open spec fn in_i64(x: int) -> bool {
    i64::MIN <= x <= i64::MAX
}

/// Absolute value of a mathematical integer.
pub open spec fn abs_int(a: int) -> int {
    if a < 0 { -a } else { a }
}

/// Integer division rounding toward zero, as Rust's `/` does.
pub open spec fn trunc_div(a: int, b: int) -> int {
    if (a >= 0) == (b > 0) || a == 0 {
        abs_int(a) / abs_int(b)
    } else {
        -(abs_int(a) / abs_int(b))
    }
}

/// The rescaled product of two raw values: `(a * b) >> s` in 128-bit
/// arithmetic, i.e. the product divided by `2^s` rounding toward negative
/// infinity.
pub open spec fn wide_mul_shr(a: i64, b: i64, s: u32) -> i128 {
    ((a as i128 * b as i128) as i128) >> s
}

/// The dividend of a fixed-point division: `a << s` in 128-bit arithmetic.
pub open spec fn wide_shl(a: i64, s: u32) -> i128 {
    (a as i128) << s
}

/// The quotient computed by `checked_div` before the range check.
pub open spec fn wide_div(a: i64, b: i64, s: u32) -> int {
    trunc_div(wide_shl(a, s) as int, b as int)
}

impl FixedPoint {
    /// Exact sum, when it fits.
    pub open spec fn spec_checked_add(self, other: Self) -> Option<Self> {
        if in_i64(self.value + other.value) {
            Some(FixedPoint { value: (self.value + other.value) as i64, scale: self.scale })
        } else {
            None
        }
    }

    /// Exact difference, when it fits.
    pub open spec fn spec_checked_sub(self, other: Self) -> Option<Self> {
        if in_i64(self.value - other.value) {
            Some(FixedPoint { value: (self.value - other.value) as i64, scale: self.scale })
        } else {
            None
        }
    }

    /// Rescaled product, when it fits.
    pub open spec fn spec_checked_mul(self, other: Self) -> Option<Self> {
        let scaled = wide_mul_shr(self.value, other.value, self.scale);
        if in_i64(scaled as int) {
            Some(FixedPoint { value: scaled as i64, scale: self.scale })
        } else {
            None
        }
    }

    /// Rescaled product, truncated to 64 bits.
    pub open spec fn spec_mul(self, other: Self) -> Self {
        FixedPoint { value: wide_mul_shr(self.value, other.value, self.scale) as i64, scale: self.scale }
    }

    /// Sum clamped to the `i64` range.
    pub open spec fn spec_saturating_add(self, other: Self) -> Self {
        let s = self.value + other.value;
        FixedPoint {
            value: if s > i64::MAX { i64::MAX } else if s < i64::MIN { i64::MIN } else { s as i64 },
            scale: self.scale,
        }
    }

    /// Quotient, `None` on a zero divisor or when it does not fit.
    pub open spec fn spec_checked_div(self, other: Self) -> Option<Self> {
        if other.value == 0 {
            None
        } else if in_i64(wide_div(self.value, other.value, self.scale)) {
            Some(FixedPoint { value: wide_div(self.value, other.value, self.scale) as i64, scale: self.scale })
        } else {
            None
        }
    }

    /// Clamp of the raw value into `[lo, hi]`.
    pub open spec fn spec_clamp(self, lo: Self, hi: Self) -> Self {
        FixedPoint {
            value: if self.value < lo.value { lo.value } else if self.value > hi.value { hi.value } else { self.value },
            scale: self.scale,
        }
    }

    /// When `checked_div` can be called without panicking: a shift below 128
    /// bits and no `i128::MIN / -1`.
    pub open spec fn div_defined(self, other: Self) -> bool {
        &&& self.scale < 128
        &&& !(wide_shl(self.value, self.scale) == i128::MIN && other.value == -1)
    }

    /// Create a new fixed-point number from a raw scaled integer.
    pub fn from_raw(value: i64, scale: u32) -> (r: Self)
        ensures
            r == (FixedPoint { value, scale }),
    {
        FixedPoint { value, scale }
    }

    /// Checked addition of two fixed-point numbers with the same scale.
    pub fn checked_add(self, other: Self) -> (r: Option<Self>)
        requires
            self.scale == other.scale,
        ensures
            r == self.spec_checked_add(other),
    {
        match self.value.checked_add(other.value) {
            Some(value) => Some(FixedPoint { value, scale: self.scale }),
            None => None,
        }
    }

    /// Checked subtraction of two fixed-point numbers with the same scale.
    pub fn checked_sub(self, other: Self) -> (r: Option<Self>)
        requires
            self.scale == other.scale,
        ensures
            r == self.spec_checked_sub(other),
    {
        match self.value.checked_sub(other.value) {
            Some(value) => Some(FixedPoint { value, scale: self.scale }),
            None => None,
        }
    }

    /// Multiply, rescaling by an arithmetic shift; the result is truncated
    /// to 64 bits.
    pub fn mul(self, other: Self) -> (r: Self)
        requires
            self.scale == other.scale,
            self.scale < 128,
        ensures
            r == self.spec_mul(other),
    {
        proof {
            lemma_i64_product_fits(self.value, other.value);
        }
        let wide: i128 = (self.value as i128) * (other.value as i128);
        let scaled: i128 = wide >> self.scale;
        FixedPoint { value: scaled as i64, scale: self.scale }
    }

    /// Saturating addition: clamps to the representable range on overflow.
    pub fn saturating_add(self, other: Self) -> (r: Self)
        ensures
            r == self.spec_saturating_add(other),
    {
        let s: i128 = self.value as i128 + other.value as i128;
        let value: i64 = if s > i64::MAX as i128 {
            i64::MAX
        } else if s < i64::MIN as i128 {
            i64::MIN
        } else {
            s as i64
        };
        FixedPoint { value, scale: self.scale }
    }

    /// Negate the value.
    pub fn neg(self) -> (r: Self)
        requires
            self.value != i64::MIN,
        ensures
            r.value == -self.value,
            r.scale == self.scale,
    {
        FixedPoint { value: -self.value, scale: self.scale }
    }

    /// Checked multiplication: the rescaled product, or `None` when it does
    /// not fit in an `i64`.
    pub fn checked_mul(self, other: Self) -> (r: Option<Self>)
        requires
            self.scale == other.scale,
            self.scale < 128,
        ensures
            r == self.spec_checked_mul(other),
    {
        proof {
            lemma_i64_product_fits(self.value, other.value);
        }
        let wide: i128 = (self.value as i128) * (other.value as i128);
        let scaled: i128 = wide >> self.scale;
        if i64::MIN as i128 <= scaled && scaled <= i64::MAX as i128 {
            Some(FixedPoint { value: scaled as i64, scale: self.scale })
        } else {
            None
        }
    }

    /// Divide, returning `None` on divide-by-zero or when the quotient does
    /// not fit in an `i64`.
    pub fn checked_div(self, other: Self) -> (r: Option<Self>)
        requires
            self.scale == other.scale,
            self.div_defined(other),
        ensures
            r == self.spec_checked_div(other),
    {
        if other.value == 0 {
            return None;
        }
        let num: i128 = (self.value as i128) << self.scale;
        let q: i128 = div_trunc_i128(num, other.value as i128);
        if i64::MIN as i128 <= q && q <= i64::MAX as i128 {
            Some(FixedPoint { value: q as i64, scale: self.scale })
        } else {
            None
        }
    }

    /// Absolute value. Saturates `i64::MIN` to `i64::MAX`.
    pub fn abs(self) -> (r: Self)
        ensures
            r.scale == self.scale,
            r.value == if self.value == i64::MIN { i64::MAX as int } else { abs_int(self.value as int) },
    {
        let value: i64 = if self.value == i64::MIN {
            i64::MAX
        } else if self.value < 0 {
            -self.value
        } else {
            self.value
        };
        FixedPoint { value, scale: self.scale }
    }

    /// Returns `true` if the value is exactly zero.
    pub fn is_zero(self) -> (r: bool)
        ensures
            r == (self.value == 0),
    {
        self.value == 0
    }

    /// Clamp the value into the inclusive range `[min, max]`.
    pub fn clamp(self, min: Self, max: Self) -> (r: Self)
        requires
            self.scale == min.scale,
            self.scale == max.scale,
            min.value <= max.value,
        ensures
            r == self.spec_clamp(min, max),
    {
        let value: i64 = if self.value < min.value {
            min.value
        } else if self.value > max.value {
            max.value
        } else {
            self.value
        };
        FixedPoint { value, scale: self.scale }
    }

    /// Sign of the value: `-1`, `0`, or `1`.
    pub fn signum(self) -> (r: i64)
        ensures
            r == if self.value > 0 { 1int } else if self.value < 0 { -1int } else { 0int },
    {
        if self.value > 0 {
            1
        } else if self.value < 0 {
            -1
        } else {
            0
        }
    }
}

proof fn lemma_i64_product_fits(a: i64, b: i64)
    ensures
        i128::MIN < (a as int) * (b as int) <= i128::MAX,
{
    assert(-0x8000_0000_0000_0000int <= a as int <= 0x7fff_ffff_ffff_ffffint);
    assert(-0x8000_0000_0000_0000int <= b as int <= 0x7fff_ffff_ffff_ffffint);
    assert(i128::MIN < (a as int) * (b as int) <= i128::MAX) by (nonlinear_arith)
        requires
            -0x8000_0000_0000_0000int <= a as int <= 0x7fff_ffff_ffff_ffffint,
            -0x8000_0000_0000_0000int <= b as int <= 0x7fff_ffff_ffff_ffffint,
    ;
}

/// 128-bit division rounding toward zero.
fn div_trunc_i128(a: i128, b: i128) -> (r: i128)
    requires
        b != 0,
        !(a == i128::MIN && b == -1),
    ensures
        r == trunc_div(a as int, b as int),
{
    let ua: u128 = if a < 0 { ((-(a + 1)) as u128) + 1 } else { a as u128 };
    let ub: u128 = if b < 0 { ((-(b + 1)) as u128) + 1 } else { b as u128 };
    let q: u128 = ua / ub;
    assert(ua == abs_int(a as int));
    assert(ub == abs_int(b as int));
    proof {
        lemma_div_le_self(ua as int, ub as int);
        if ub >= 2 {
            vstd::arithmetic::div_mod::lemma_div_is_ordered_by_denominator(ua as int, 2, ub as int);
        }
    }
    if (a >= 0) == (b > 0) || a == 0 {
        proof {
            if ua == 0x8000_0000_0000_0000_0000_0000_0000_0000u128 {
                assert(b < 0 && b != -1);
                assert(ub >= 2);
            }
        }
        q as i128
    } else if q == 0x8000_0000_0000_0000_0000_0000_0000_0000u128 {
        i128::MIN
    } else {
        -(q as i128)
    }
}

proof fn lemma_div_le_self(a: int, b: int)
    requires
        a >= 0,
        b >= 1,
    ensures
        0 <= a / b <= a,
{
    vstd::arithmetic::div_mod::lemma_div_is_ordered_by_denominator(a, 1, b);
    vstd::arithmetic::div_mod::lemma_div_pos_is_pos(a, b);
}

/// Sum of the raw values of a sequence.
pub open spec fn raw_sum(xs: Seq<FixedPoint>) -> int
    decreases xs.len(),
{
    if xs.len() == 0 { 0 } else { raw_sum(xs.drop_last()) + xs.last().value }
}

/// Every prefix sum of the raw values fits in an `i64`.
pub open spec fn prefix_sums_fit(xs: Seq<FixedPoint>) -> bool {
    forall|k: int| 0 <= k <= xs.len() ==> #[trigger] in_i64(raw_sum(xs.take(k)))
}

/// One term of a dot product: `(x * y) >> scale` in 64-bit arithmetic.
pub open spec fn dot_term(x: FixedPoint, y: FixedPoint, scale: u32) -> int {
    ((x.value * y.value) as i64 >> scale) as int
}

/// The dot product of the first `k` pairs.
pub open spec fn dot_prefix(a: Seq<FixedPoint>, b: Seq<FixedPoint>, scale: u32, k: int) -> int
    decreases k,
{
    if k <= 0 { 0 } else { dot_prefix(a, b, scale, k - 1) + dot_term(a[k - 1], b[k - 1], scale) }
}

/// The scale `dot` and `sum` work at: the first element's, or the default.
pub open spec fn first_scale(xs: Seq<FixedPoint>) -> u32 {
    if xs.len() > 0 { xs[0].scale } else { DEFAULT_SCALE }
}

/// When `dot` runs without an overflow: every product fits, the shift is
/// below 64 bits and every partial sum fits.
pub open spec fn dot_defined(a: Seq<FixedPoint>, b: Seq<FixedPoint>) -> bool {
    &&& a.len() == b.len()
    &&& first_scale(a) < 64
    &&& forall|k: int| 0 <= k < a.len() ==> #[trigger] in_i64(a[k].value * b[k].value)
    &&& forall|k: int| 0 <= k <= a.len() ==> #[trigger] in_i64(dot_prefix(a, b, first_scale(a), k))
}

/// Fixed-point dot product of two equal-length vectors.
pub fn dot(a: &[FixedPoint], b: &[FixedPoint]) -> (r: FixedPoint)
    requires
        dot_defined(a@, b@),
    ensures
        r.scale == first_scale(a@),
        r.value == dot_prefix(a@, b@, first_scale(a@), a@.len() as int),
{
    let scale: u32 = if a.len() > 0 { a[0].scale } else { DEFAULT_SCALE };
    let mut acc: i64 = 0;
    let mut i: usize = 0;
    while i < a.len()
        invariant
            i <= a@.len(),
            a@.len() == b@.len(),
            scale == first_scale(a@),
            dot_defined(a@, b@),
            acc == dot_prefix(a@, b@, scale, i as int),
        decreases a@.len() - i,
    {
        assert(in_i64(a@[i as int].value * b@[i as int].value));
        let p: i64 = a[i].value * b[i].value;
        let t: i64 = p >> scale;
        assert(in_i64(dot_prefix(a@, b@, scale, i + 1)));
        acc = acc + t;
        i = i + 1;
    }
    FixedPoint { value: acc, scale }
}

/// Sum of a slice of fixed-point values, at the first element's scale (the
/// default scale for an empty slice).
pub fn sum(xs: &[FixedPoint]) -> (r: FixedPoint)
    requires
        prefix_sums_fit(xs@),
    ensures
        r.scale == first_scale(xs@),
        r.value == raw_sum(xs@),
{
    let scale: u32 = if xs.len() > 0 { xs[0].scale } else { DEFAULT_SCALE };
    let mut acc: i64 = 0;
    let mut i: usize = 0;
    assert(xs@.take(0) =~= Seq::<FixedPoint>::empty());
    while i < xs.len()
        invariant
            i <= xs@.len(),
            prefix_sums_fit(xs@),
            acc == raw_sum(xs@.take(i as int)),
        decreases xs@.len() - i,
    {
        assert(xs@.take(i + 1).drop_last() =~= xs@.take(i as int));
        assert(in_i64(raw_sum(xs@.take(i + 1))));
        acc = acc + xs[i].value;
        i = i + 1;
    }
    assert(xs@.take(xs@.len() as int) =~= xs@);
    FixedPoint { value: acc, scale }
}

/// Arithmetic mean of a slice, rounding toward zero; `None` for an empty
/// slice.
pub fn mean(xs: &[FixedPoint]) -> (r: Option<FixedPoint>)
    requires
        prefix_sums_fit(xs@),
    ensures
        xs@.len() == 0 ==> r is None,
        xs@.len() > 0 ==> r == Some(FixedPoint {
            value: trunc_div(raw_sum(xs@), xs@.len() as int) as i64,
            scale: xs@[0].scale,
        }),
{
    if xs.len() == 0 {
        return None;
    }
    let total = sum(xs);
    let q: i128 = div_trunc_i128(total.value as i128, xs.len() as i128);
    proof {
        lemma_div_le_self(abs_int(total.value as int), xs@.len() as int);
    }
    Some(FixedPoint { value: q as i64, scale: total.scale })
}

/// Index of the first occurrence of the largest raw value.
pub open spec fn first_max_index(xs: Seq<FixedPoint>) -> int
    decreases xs.len(),
{
    if xs.len() <= 1 {
        0
    } else {
        let i = first_max_index(xs.drop_last());
        if xs.last().value > xs[i].value { xs.len() - 1 } else { i }
    }
}

/// Index of the first occurrence of the smallest raw value.
pub open spec fn first_min_index(xs: Seq<FixedPoint>) -> int
    decreases xs.len(),
{
    if xs.len() <= 1 {
        0
    } else {
        let i = first_min_index(xs.drop_last());
        if xs.last().value < xs[i].value { xs.len() - 1 } else { i }
    }
}

proof fn lemma_first_max_index(xs: Seq<FixedPoint>)
    requires
        xs.len() > 0,
    ensures
        0 <= first_max_index(xs) < xs.len(),
        forall|j: int| 0 <= j < xs.len() ==> (#[trigger] xs[j]).value <= xs[first_max_index(xs)].value,
        forall|j: int| 0 <= j < first_max_index(xs) ==> (#[trigger] xs[j]).value < xs[first_max_index(xs)].value,
    decreases xs.len(),
{
    if xs.len() > 1 {
        let p = xs.drop_last();
        lemma_first_max_index(p);
        assert(forall|j: int| 0 <= j < p.len() ==> p[j] == #[trigger] xs[j]);
    }
}

proof fn lemma_first_min_index(xs: Seq<FixedPoint>)
    requires
        xs.len() > 0,
    ensures
        0 <= first_min_index(xs) < xs.len(),
        forall|j: int| 0 <= j < xs.len() ==> xs[first_min_index(xs)].value <= (#[trigger] xs[j]).value,
        forall|j: int| 0 <= j < first_min_index(xs) ==> xs[first_min_index(xs)].value < (#[trigger] xs[j]).value,
    decreases xs.len(),
{
    if xs.len() > 1 {
        let p = xs.drop_last();
        lemma_first_min_index(p);
        assert(forall|j: int| 0 <= j < p.len() ==> p[j] == #[trigger] xs[j]);
    }
}

/// Largest value in a slice (the first one on ties); `None` when empty.
pub fn max(xs: &[FixedPoint]) -> (r: Option<FixedPoint>)
    ensures
        xs@.len() == 0 ==> r is None,
        xs@.len() > 0 ==> r == Some(xs@[first_max_index(xs@)]),
{
    let r = argmax(xs);
    proof {
        if xs@.len() > 0 {
            lemma_first_max_index(xs@);
        }
    }
    match r {
        Some(i) => Some(xs[i]),
        None => None,
    }
}

/// Smallest value in a slice (the first one on ties); `None` when empty.
pub fn min(xs: &[FixedPoint]) -> (r: Option<FixedPoint>)
    ensures
        xs@.len() == 0 ==> r is None,
        xs@.len() > 0 ==> r == Some(xs@[first_min_index(xs@)]),
{
    if xs.len() == 0 {
        return None;
    }
    let mut best: usize = 0;
    let mut i: usize = 1;
    while i < xs.len()
        invariant
            1 <= i <= xs@.len(),
            best == first_min_index(xs@.take(i as int)),
        decreases xs@.len() - i,
    {
        assert(xs@.take(i + 1).drop_last() =~= xs@.take(i as int));
        proof {
            lemma_first_min_index(xs@.take(i as int));
        }
        if xs[i].value < xs[best].value {
            best = i;
        }
        i = i + 1;
    }
    assert(xs@.take(xs@.len() as int) =~= xs@);
    proof {
        lemma_first_min_index(xs@);
    }
    Some(xs[best])
}

/// Index of the largest value in a slice; the lowest index wins on ties.
/// `None` for an empty slice.
pub fn argmax(xs: &[FixedPoint]) -> (r: Option<usize>)
    ensures
        xs@.len() == 0 ==> r is None,
        xs@.len() > 0 ==> r == Some(first_max_index(xs@) as usize),
        r matches Some(i) ==> i < xs@.len(),
{
    if xs.len() == 0 {
        return None;
    }
    let mut best: usize = 0;
    let mut i: usize = 1;
    while i < xs.len()
        invariant
            1 <= i <= xs@.len(),
            best == first_max_index(xs@.take(i as int)),
        decreases xs@.len() - i,
    {
        assert(xs@.take(i + 1).drop_last() =~= xs@.take(i as int));
        proof {
            lemma_first_max_index(xs@.take(i as int));
        }
        if xs[i].value > xs[best].value {
            best = i;
        }
        i = i + 1;
    }
    assert(xs@.take(xs@.len() as int) =~= xs@);
    proof {
        lemma_first_max_index(xs@);
    }
    Some(best)
}

/// The index `argmax` reports is a largest value, and every earlier value is
/// strictly smaller.
pub proof fn lemma_argmax_is_first_largest(xs: Seq<FixedPoint>)
    requires
        xs.len() > 0,
    ensures
        0 <= first_max_index(xs) < xs.len(),
        forall|j: int| 0 <= j < xs.len() ==> (#[trigger] xs[j]).value <= xs[first_max_index(xs)].value,
        forall|j: int| 0 <= j < first_max_index(xs) ==> (#[trigger] xs[j]).value < xs[first_max_index(xs)].value,
{
    lemma_first_max_index(xs);
}

/// The value `min` reports is a smallest value, and every earlier value is
/// strictly larger.
pub proof fn lemma_min_is_first_smallest(xs: Seq<FixedPoint>)
    requires
        xs.len() > 0,
    ensures
        0 <= first_min_index(xs) < xs.len(),
        forall|j: int| 0 <= j < xs.len() ==> xs[first_min_index(xs)].value <= (#[trigger] xs[j]).value,
        forall|j: int| 0 <= j < first_min_index(xs) ==> xs[first_min_index(xs)].value < (#[trigger] xs[j]).value,
{
    lemma_first_min_index(xs);
}

/// Adding and then subtracting the same value gives the original back,
/// whenever the sum fits.
pub proof fn lemma_add_then_sub(a: FixedPoint, b: FixedPoint)
    requires
        a.spec_checked_add(b) is Some,
    ensures
        a.spec_checked_add(b)->0.spec_checked_sub(b) == Some(a),
{
}

} // verus!
