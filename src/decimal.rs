use rust_decimal::prelude::MathematicalOps;
use rust_decimal::Decimal;
use std::cmp::Ordering;
use vstd::prelude::*;

verus! {

/// Largest magnitude of a mantissa: 96 bits.
pub const MAX_MANTISSA: i128 = 0xFFFF_FFFF_FFFF_FFFF_FFFF_FFFF;

/// Largest number of digits after the decimal point.
pub const MAX_SCALE: u32 = 28;

/// A decimal number, `mantissa / 10^scale`, in the representation of a
/// 96-bit fixed-point decimal.
#[derive(Clone, Copy, Debug, PartialEq, Eq, Structural)]
pub struct Dec {
    pub mantissa: i128,
    pub scale: u32,
}

pub open spec fn pow10(n: nat) -> int
    decreases n,
{
    if n == 0 {
        1
    } else {
        10 * pow10((n - 1) as nat)
    }
}

/// The decimal with integer value `n` and no digits after the point.
pub open spec fn int_dec(n: int) -> Dec {
    Dec { mantissa: n as i128, scale: 0 }
}

/// `a` is numerically smaller than `b`.
pub open spec fn dec_lt(a: Dec, b: Dec) -> bool {
    a.mantissa * pow10(b.scale as nat) < b.mantissa * pow10(a.scale as nat)
}

/// `a` is numerically at most `b`.
pub open spec fn dec_le(a: Dec, b: Dec) -> bool {
    !dec_lt(b, a)
}

impl Dec {
    /// The mantissa fits in 96 bits and the scale is at most 28.
    pub open spec fn wf(self) -> bool {
        -MAX_MANTISSA <= self.mantissa <= MAX_MANTISSA && self.scale <= MAX_SCALE
    }

    pub open spec fn is_pos(self) -> bool {
        self.mantissa > 0
    }

    pub open spec fn is_neg(self) -> bool {
        self.mantissa < 0
    }

    pub open spec fn is_zero(self) -> bool {
        self.mantissa == 0
    }

    /// A decimal from its mantissa and scale, if they are in range.
    pub fn new(mantissa: i128, scale: u32) -> (r: Option<Dec>)
        ensures
            r == (if (Dec { mantissa, scale }).wf() {
                Some(Dec { mantissa, scale })
            } else {
                None
            }),
    {
        if -MAX_MANTISSA <= mantissa && mantissa <= MAX_MANTISSA && scale <= MAX_SCALE {
            Some(Dec { mantissa, scale })
        } else {
            None
        }
    }

    /// The integer `n` as a decimal.
    pub fn from_u64(n: u64) -> (r: Dec)
        ensures
            r == int_dec(n as int),
            r.wf(),
    {
        Dec { mantissa: n as i128, scale: 0 }
    }

    pub fn zero() -> (r: Dec)
        ensures
            r == int_dec(0),
            r.wf(),
    {
        Dec { mantissa: 0, scale: 0 }
    }

    pub fn one() -> (r: Dec)
        ensures
            r == int_dec(1),
            r.wf(),
    {
        Dec { mantissa: 1, scale: 0 }
    }

    pub fn negative_one() -> (r: Dec)
        ensures
            r == int_dec(-1),
            r.wf(),
    {
        Dec { mantissa: -1, scale: 0 }
    }

    /// The value is strictly above zero.
    pub fn positive(&self) -> (r: bool)
        ensures
            r == self.is_pos(),
    {
        self.mantissa > 0
    }

    /// The value is strictly below zero.
    pub fn negative(&self) -> (r: bool)
        ensures
            r == self.is_neg(),
    {
        self.mantissa < 0
    }

    /// The value is exactly zero.
    pub fn zero_valued(&self) -> (r: bool)
        ensures
            r == self.is_zero(),
    {
        self.mantissa == 0
    }
}

/// All elements of `s` are well formed.
pub open spec fn all_wf(s: Seq<Dec>) -> bool {
    forall|i: int| 0 <= i < s.len() ==> #[trigger] s[i].wf()
}

/// What `Decimal::checked_add` gives on two decimals.
pub uninterp spec fn sum_of(a: Dec, b: Dec) -> Option<Dec>;

/// What `Decimal::checked_sub` gives on two decimals.
pub uninterp spec fn difference_of(a: Dec, b: Dec) -> Option<Dec>;

/// What `Decimal::checked_mul` gives on two decimals.
pub uninterp spec fn product_of(a: Dec, b: Dec) -> Option<Dec>;

/// What `Decimal::checked_div` gives on two decimals.
pub uninterp spec fn quotient_of(a: Dec, b: Dec) -> Option<Dec>;

/// What `MathematicalOps::checked_powu` gives on a decimal and an exponent.
pub uninterp spec fn power_of(a: Dec, exp: nat) -> Option<Dec>;

/// What `MathematicalOps::sqrt` gives on a decimal.
pub uninterp spec fn sqrt_of(a: Dec) -> Option<Dec>;

/// The magnitude of `m` fits in 32 bits.
pub open spec fn fits_u32(m: i128) -> bool {
    -0x1_0000_0000 < m < 0x1_0000_0000
}

/// A result that, where present, is a well-formed decimal.
pub open spec fn wf_opt(r: Option<Dec>) -> bool {
    r matches Some(d) ==> d.wf()
}

/// Relies on `Decimal::checked_add`: the sum, or `None` on overflow. Where
/// both operands fit in 32 bits and one is zero, its fast path returns the
/// other operand unchanged.
#[verifier::external_body]
pub(crate) fn checked_add(a: Dec, b: Dec) -> (r: Option<Dec>)
    requires
        a.wf(),
        b.wf(),
    ensures
        r == sum_of(a, b),
        wf_opt(r),
        a.is_zero() && fits_u32(b.mantissa) ==> r == Some(b),
        b.is_zero() && !a.is_zero() && fits_u32(a.mantissa) ==> r == Some(a),
{
    let x = Decimal::from_i128_with_scale(a.mantissa, a.scale);
    let y = Decimal::from_i128_with_scale(b.mantissa, b.scale);
    match x.checked_add(y) {
        Some(d) => Some(Dec { mantissa: d.mantissa(), scale: d.scale() }),
        None => None,
    }
}

/// Relies on `Decimal::checked_sub`: the difference, or `None` on overflow.
/// Where an operand that fits in 32 bits is taken from itself, its fast
/// path gives zero at the operand's scale.
#[verifier::external_body]
pub(crate) fn checked_sub(a: Dec, b: Dec) -> (r: Option<Dec>)
    requires
        a.wf(),
        b.wf(),
    ensures
        r == difference_of(a, b),
        wf_opt(r),
        a == b && !a.is_zero() && fits_u32(a.mantissa) ==> r == Some(
            Dec { mantissa: 0, scale: a.scale },
        ),
{
    let x = Decimal::from_i128_with_scale(a.mantissa, a.scale);
    let y = Decimal::from_i128_with_scale(b.mantissa, b.scale);
    match x.checked_sub(y) {
        Some(d) => Some(Dec { mantissa: d.mantissa(), scale: d.scale() }),
        None => None,
    }
}

/// Relies on `Decimal::checked_mul`: the product, or `None` on overflow.
/// Where both operands are non-zero, fit in 32 bits and their scales add up
/// to at most 28, its fast path gives the exact product.
#[verifier::external_body]
pub(crate) fn checked_mul(a: Dec, b: Dec) -> (r: Option<Dec>)
    requires
        a.wf(),
        b.wf(),
    ensures
        r == product_of(a, b),
        wf_opt(r),
        !a.is_zero() && !b.is_zero() && fits_u32(a.mantissa) && fits_u32(b.mantissa) && a.scale
            + b.scale <= MAX_SCALE ==> r == Some(
            Dec { mantissa: (a.mantissa * b.mantissa) as i128, scale: (a.scale + b.scale) as u32 },
        ),
{
    let x = Decimal::from_i128_with_scale(a.mantissa, a.scale);
    let y = Decimal::from_i128_with_scale(b.mantissa, b.scale);
    match x.checked_mul(y) {
        Some(d) => Some(Dec { mantissa: d.mantissa(), scale: d.scale() }),
        None => None,
    }
}

/// Relies on `Decimal::checked_div`: the quotient, or `None` on overflow or
/// on a zero divisor.
#[verifier::external_body]
pub(crate) fn checked_div(a: Dec, b: Dec) -> (r: Option<Dec>)
    requires
        a.wf(),
        b.wf(),
    ensures
        r == quotient_of(a, b),
        wf_opt(r),
{
    let x = Decimal::from_i128_with_scale(a.mantissa, a.scale);
    let y = Decimal::from_i128_with_scale(b.mantissa, b.scale);
    match x.checked_div(y) {
        Some(d) => Some(Dec { mantissa: d.mantissa(), scale: d.scale() }),
        None => None,
    }
}

/// Relies on `MathematicalOps::checked_powu`: `a` to the power `exp`, or
/// `None` on overflow.
#[verifier::external_body]
pub(crate) fn checked_powu(a: Dec, exp: u64) -> (r: Option<Dec>)
    requires
        a.wf(),
    ensures
        r == power_of(a, exp as nat),
        wf_opt(r),
{
    let x = Decimal::from_i128_with_scale(a.mantissa, a.scale);
    match x.checked_powu(exp) {
        Some(d) => Some(Dec { mantissa: d.mantissa(), scale: d.scale() }),
        None => None,
    }
}

/// Relies on `MathematicalOps::sqrt`: the square root, which is present for
/// every decimal that is not negative (`None` only for a negative one), and
/// never negative itself. Its Newton iteration stops at a guard of 1000
/// steps by panicking; that the rounded iteration settles before the guard
/// is not shown by its source, so this call is the one place where a
/// function of this library may panic.
#[verifier::external_body]
pub(crate) fn sqrt(a: Dec) -> (r: Option<Dec>)
    requires
        a.wf(),
    ensures
        r == sqrt_of(a),
        wf_opt(r),
        !a.is_neg() ==> r.is_some(),
        r matches Some(x) ==> !x.is_neg(),
{
    let x = Decimal::from_i128_with_scale(a.mantissa, a.scale);
    match x.sqrt() {
        Some(d) => Some(Dec { mantissa: d.mantissa(), scale: d.scale() }),
        None => None,
    }
}

/// Relies on `Decimal::cmp`, which orders decimals by numeric value.
#[verifier::external_body]
pub(crate) fn compare(a: Dec, b: Dec) -> (r: Ordering)
    requires
        a.wf(),
        b.wf(),
    ensures
        (r == Ordering::Less) == dec_lt(a, b),
        (r == Ordering::Greater) == dec_lt(b, a),
{
    let x = Decimal::from_i128_with_scale(a.mantissa, a.scale);
    let y = Decimal::from_i128_with_scale(b.mantissa, b.scale);
    x.cmp(&y)
}

} // verus!
