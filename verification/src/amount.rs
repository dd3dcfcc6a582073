//! Exact decimal money amounts.
//!
//! An [`Amount`] holds the two plain integers that make up a
//! `rust_decimal::Decimal`: a mantissa of at most 96 bits and a scale
//! between 0 and 28, the value being `mantissa / 10^scale`. All arithmetic
//! is delegated to `rust_decimal`.
use vstd::prelude::*;
use rust_decimal::Decimal;

verus! {

/// Largest magnitude of a decimal mantissa, `2^96 - 1`.
pub const MAX_MANTISSA: i128 = 0xFFFF_FFFF_FFFF_FFFF_FFFF_FFFFi128;

/// Largest decimal scale (number of fractional digits).
pub const MAX_SCALE: u32 = 28;

/// A decimal number `mantissa / 10^scale`.
#[derive(Clone, Copy, Debug, PartialEq, Eq, Structural)]
pub struct Amount {
    pub mantissa: i128,
    pub scale: u32,
}

/// The mantissa and scale describe a value that a `Decimal` can hold.
pub open spec fn decimal_parts_wf(mantissa: i128, scale: u32) -> bool {
    -MAX_MANTISSA <= mantissa <= MAX_MANTISSA && scale <= MAX_SCALE
}

/// What `Decimal::checked_add` returns for the decimals with these parts,
/// as the parts of the sum.
pub uninterp spec fn decimal_checked_add(a_mantissa: i128, a_scale: u32, b_mantissa: i128, b_scale: u32) -> Option<(i128, u32)>;

/// What `Decimal::checked_mul` returns for the decimals with these parts,
/// as the parts of the product.
pub uninterp spec fn decimal_checked_mul(a_mantissa: i128, a_scale: u32, b_mantissa: i128, b_scale: u32) -> Option<(i128, u32)>;

/// What `Decimal::checked_div` returns for the decimals with these parts,
/// as the parts of the quotient.
pub uninterp spec fn decimal_checked_div(a_mantissa: i128, a_scale: u32, b_mantissa: i128, b_scale: u32) -> Option<(i128, u32)>;

/// Builds both operands with `Decimal::from_i128_with_scale` and calls
/// `Decimal::checked_add`. Claimed: the parts of the result are
/// `decimal_checked_add` of the parts of the operands, and a result is a
/// valid decimal (rust_decimal documents the mantissa and scale ranges of
/// every `Decimal`). What the sum is, and when it overflows, is not stated.
#[verifier::external_body]
fn decimal_add_parts(a_mantissa: i128, a_scale: u32, b_mantissa: i128, b_scale: u32) -> (r: Option<(i128, u32)>)
    requires
        decimal_parts_wf(a_mantissa, a_scale),
        decimal_parts_wf(b_mantissa, b_scale),
    ensures
        r == decimal_checked_add(a_mantissa, a_scale, b_mantissa, b_scale),
        r matches Some((m, s)) ==> decimal_parts_wf(m, s),
{
    let a = Decimal::from_i128_with_scale(a_mantissa, a_scale);
    let b = Decimal::from_i128_with_scale(b_mantissa, b_scale);
    match a.checked_add(b) {
        Some(d) => Some((d.mantissa(), d.scale())),
        None => None,
    }
}

/// Builds both operands with `Decimal::from_i128_with_scale` and calls
/// `Decimal::checked_mul`. Claimed: the parts of the result are
/// `decimal_checked_mul` of the parts of the operands, and a result is a
/// valid decimal. What the product is, and when it overflows, is not stated.
#[verifier::external_body]
fn decimal_mul_parts(a_mantissa: i128, a_scale: u32, b_mantissa: i128, b_scale: u32) -> (r: Option<(i128, u32)>)
    requires
        decimal_parts_wf(a_mantissa, a_scale),
        decimal_parts_wf(b_mantissa, b_scale),
    ensures
        r == decimal_checked_mul(a_mantissa, a_scale, b_mantissa, b_scale),
        r matches Some((m, s)) ==> decimal_parts_wf(m, s),
{
    let a = Decimal::from_i128_with_scale(a_mantissa, a_scale);
    let b = Decimal::from_i128_with_scale(b_mantissa, b_scale);
    match a.checked_mul(b) {
        Some(d) => Some((d.mantissa(), d.scale())),
        None => None,
    }
}

/// Builds both operands with `Decimal::from_i128_with_scale` and calls
/// `Decimal::checked_div`. Claimed: the parts of the result are
/// `decimal_checked_div` of the parts of the operands, and a result is a
/// valid decimal. What the quotient is, and when it fails, is not stated.
#[verifier::external_body]
fn decimal_div_parts(a_mantissa: i128, a_scale: u32, b_mantissa: i128, b_scale: u32) -> (r: Option<(i128, u32)>)
    requires
        decimal_parts_wf(a_mantissa, a_scale),
        decimal_parts_wf(b_mantissa, b_scale),
    ensures
        r == decimal_checked_div(a_mantissa, a_scale, b_mantissa, b_scale),
        r matches Some((m, s)) ==> decimal_parts_wf(m, s),
{
    let a = Decimal::from_i128_with_scale(a_mantissa, a_scale);
    let b = Decimal::from_i128_with_scale(b_mantissa, b_scale);
    match a.checked_div(b) {
        Some(d) => Some((d.mantissa(), d.scale())),
        None => None,
    }
}

/// Turns the parts of a decimal result back into an amount.
pub open spec fn amount_of_parts(r: Option<(i128, u32)>) -> Option<Amount> {
    match r {
        Some((m, s)) => Some(Amount { mantissa: m, scale: s }),
        None => None,
    }
}

/// `a + b` as rust_decimal computes it, `None` on overflow.
pub open spec fn amount_add(a: Amount, b: Amount) -> Option<Amount> {
    amount_of_parts(decimal_checked_add(a.mantissa, a.scale, b.mantissa, b.scale))
}

/// `a * b` as rust_decimal computes it, `None` on overflow.
pub open spec fn amount_mul(a: Amount, b: Amount) -> Option<Amount> {
    amount_of_parts(decimal_checked_mul(a.mantissa, a.scale, b.mantissa, b.scale))
}

/// `a / b` as rust_decimal computes it, `None` on overflow or division by zero.
pub open spec fn amount_div(a: Amount, b: Amount) -> Option<Amount> {
    amount_of_parts(decimal_checked_div(a.mantissa, a.scale, b.mantissa, b.scale))
}

/// The whole number `n` (mantissa `n`, scale 0).
pub open spec fn whole(n: int) -> Amount {
    Amount { mantissa: n as i128, scale: 0 }
}

impl Amount {
    /// A value that a `Decimal` can hold.
    pub open spec fn wf(self) -> bool {
        decimal_parts_wf(self.mantissa, self.scale)
    }

    /// Builds an amount from its parts; `None` when they are out of the
    /// decimal range.
    pub fn from_parts(mantissa: i128, scale: u32) -> (r: Option<Amount>)
        ensures
            r == (if decimal_parts_wf(mantissa, scale) {
                Some(Amount { mantissa, scale })
            } else {
                None::<Amount>
            }),
    {
        if -MAX_MANTISSA <= mantissa && mantissa <= MAX_MANTISSA && scale <= MAX_SCALE {
            Some(Amount { mantissa, scale })
        } else {
            None
        }
    }

    /// Zero, as `dec!(0)` writes it.
    pub fn zero() -> (r: Amount)
        ensures
            r == whole(0),
            r.wf(),
    {
        Amount { mantissa: 0, scale: 0 }
    }

    /// `Decimal::from(n)`: mantissa `n`, scale 0.
    pub fn from_u32(n: u32) -> (r: Amount)
        ensures
            r == whole(n as int),
            r.wf(),
    {
        Amount { mantissa: n as i128, scale: 0 }
    }

    /// `self + other`, `None` where rust_decimal reports overflow.
    pub fn checked_add(self, other: Amount) -> (r: Option<Amount>)
        requires
            self.wf(),
            other.wf(),
        ensures
            r == amount_add(self, other),
            r matches Some(x) ==> x.wf(),
    {
        match decimal_add_parts(self.mantissa, self.scale, other.mantissa, other.scale) {
            Some((m, s)) => Some(Amount { mantissa: m, scale: s }),
            None => None,
        }
    }

    /// `self * other`, `None` where rust_decimal reports overflow.
    pub fn checked_mul(self, other: Amount) -> (r: Option<Amount>)
        requires
            self.wf(),
            other.wf(),
        ensures
            r == amount_mul(self, other),
            r matches Some(x) ==> x.wf(),
    {
        match decimal_mul_parts(self.mantissa, self.scale, other.mantissa, other.scale) {
            Some((m, s)) => Some(Amount { mantissa: m, scale: s }),
            None => None,
        }
    }

    /// `self / other`, `None` where rust_decimal reports overflow or a zero
    /// divisor.
    pub fn checked_div(self, other: Amount) -> (r: Option<Amount>)
        requires
            self.wf(),
            other.wf(),
        ensures
            r == amount_div(self, other),
            r matches Some(x) ==> x.wf(),
    {
        match decimal_div_parts(self.mantissa, self.scale, other.mantissa, other.scale) {
            Some((m, s)) => Some(Amount { mantissa: m, scale: s }),
            None => None,
        }
    }
}

} // verus!
