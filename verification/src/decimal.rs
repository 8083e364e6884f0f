//! Signed fixed-point numbers with eighteen decimal places in 192 bits.
//!
//! A [`Decimal`] stands for the number `attos / 10^18`, where `attos` is a
//! signed 192-bit integer: that integer is the value's view. The view of every
//! contract in this crate is therefore an `int` counted in attos, and the
//! arithmetic of the ledger is stated over the partial operations
//! [`add_spec`], [`sub_spec`], [`mul_spec`] and [`div_spec`], which yield
//! `None` where the exact result leaves the representable range, and for
//! products and quotients also where it is the least representable value.
//!
//! The four arithmetic operations themselves are computed by the `scrypto`
//! crate's `Decimal`; comparisons and constructors are verified here.

use vstd::prelude::*;
use scrypto::math::CheckedAdd;
use scrypto::math::CheckedDiv;
use scrypto::math::CheckedMul;
use scrypto::math::CheckedSub;

verus! {

/// The number of attos in one whole unit: `10^18`.
pub open spec fn one_attos() -> int {
    1_000_000_000_000_000_000
}

/// The least representable value in attos: `-2^191`.
pub open spec fn min_attos() -> int {
    -0x8000_0000_0000_0000_0000_0000_0000_0000_0000_0000_0000_0000int
}

/// The greatest representable value in attos: `2^191 - 1`.
pub open spec fn max_attos() -> int {
    0x7fff_ffff_ffff_ffff_ffff_ffff_ffff_ffff_ffff_ffff_ffff_ffffint
}

/// Whether `x` attos can be held by a [`Decimal`].
pub open spec fn in_range(x: int) -> bool {
    min_attos() <= x <= max_attos()
}

/// The quotient of `a` by `b` rounded toward zero, for `b != 0`.
pub open spec fn trunc_div(a: int, b: int) -> int {
    if a >= 0 {
        if b > 0 {
            a / b
        } else {
            -(a / (-b))
        }
    } else {
        if b > 0 {
            -((-a) / b)
        } else {
            (-a) / (-b)
        }
    }
}

/// `Some(x)` where `x` is representable, `None` where it is not.
pub open spec fn checked(x: int) -> Option<int> {
    if in_range(x) {
        Some(x)
    } else {
        None
    }
}

/// The sum of two values in attos, where it is representable.
pub open spec fn add_spec(a: int, b: int) -> Option<int> {
    checked(a + b)
}

/// The difference of two values in attos, where it is representable.
pub open spec fn sub_spec(a: int, b: int) -> Option<int> {
    checked(a - b)
}

/// `Some(x)` where `x` is a product or quotient that is given out, `None`
/// where it is not. Products and quotients are computed wider and then
/// narrowed by magnitude, so that the least representable value, which has
/// no representable magnitude, is never given out: what is given out lies
/// between `-max_attos()` and `max_attos()`.
pub open spec fn narrowed(x: int) -> Option<int> {
    if -max_attos() <= x <= max_attos() {
        Some(x)
    } else {
        None
    }
}

/// The product of two fixed-point values in attos, rounded toward zero,
/// where its magnitude is representable.
pub open spec fn mul_spec(a: int, b: int) -> Option<int> {
    narrowed(trunc_div(a * b, one_attos()))
}

/// The quotient of two fixed-point values in attos, rounded toward zero,
/// where the divisor is not zero and the quotient's magnitude is
/// representable.
pub open spec fn div_spec(a: int, b: int) -> Option<int> {
    if b == 0 {
        None
    } else {
        narrowed(trunc_div(a * one_attos(), b))
    }
}

/// [`add_spec`] on operands that may themselves be missing.
pub open spec fn add_opt(a: Option<int>, b: Option<int>) -> Option<int> {
    match (a, b) {
        (Some(x), Some(y)) => add_spec(x, y),
        _ => None,
    }
}

/// [`sub_spec`] on operands that may themselves be missing.
pub open spec fn sub_opt(a: Option<int>, b: Option<int>) -> Option<int> {
    match (a, b) {
        (Some(x), Some(y)) => sub_spec(x, y),
        _ => None,
    }
}

/// [`mul_spec`] on operands that may themselves be missing.
pub open spec fn mul_opt(a: Option<int>, b: Option<int>) -> Option<int> {
    match (a, b) {
        (Some(x), Some(y)) => mul_spec(x, y),
        _ => None,
    }
}

/// [`div_spec`] on operands that may themselves be missing.
pub open spec fn div_opt(a: Option<int>, b: Option<int>) -> Option<int> {
    match (a, b) {
        (Some(x), Some(y)) => div_spec(x, y),
        _ => None,
    }
}

/// The signed integer that three 64-bit limbs denote: little-endian, two's
/// complement, 192 bits.
pub open spec fn limbs_value(d0: u64, d1: u64, d2: u64) -> int {
    let unsigned = d0 as int + d1 as int * 0x1_0000_0000_0000_0000int + d2 as int
        * 0x1_0000_0000_0000_0000_0000_0000_0000_0000int;
    if d2 >= 0x8000_0000_0000_0000u64 {
        unsigned - 0x1_0000_0000_0000_0000_0000_0000_0000_0000_0000_0000_0000_0000int
    } else {
        unsigned
    }
}

/// Whether an optional exec value shows the optional number `m`.
pub open spec fn shows(r: Option<Decimal>, m: Option<int>) -> bool {
    match r {
        Some(d) => m == Some(d@),
        None => m is None,
    }
}

/// A fixed-point number: a signed 192-bit count of attos.
#[derive(Clone, Copy, Debug, PartialEq, Eq, Structural)]
pub struct Decimal {
    d0: u64,
    d1: u64,
    d2: u64,
}

impl View for Decimal {
    type V = int;

    closed spec fn view(&self) -> int {
        limbs_value(self.d0, self.d1, self.d2)
    }
}

/// Calls `checked_add` of `scrypto::math::Decimal` on the two values rebuilt
/// from their limbs. Claimed: the result is the exact sum where that fits in
/// 192 bits, and `None` where it does not.
#[verifier::external_body]
fn outside_checked_add(a: Decimal, b: Decimal) -> (r: Option<Decimal>)
    ensures
        shows(r, add_spec(a@, b@)),
{
    let x = scrypto::math::Decimal::from_attos(scrypto::math::I192::from_digits([a.d0, a.d1, a.d2]));
    let y = scrypto::math::Decimal::from_attos(scrypto::math::I192::from_digits([b.d0, b.d1, b.d2]));
    match x.checked_add(y) {
        Some(z) => {
            let d = z.attos().to_digits();
            Some(Decimal { d0: d[0], d1: d[1], d2: d[2] })
        },
        None => None,
    }
}

/// Calls `checked_sub` of `scrypto::math::Decimal` on the two values rebuilt
/// from their limbs. Claimed: the result is the exact difference where that
/// fits in 192 bits, and `None` where it does not.
#[verifier::external_body]
fn outside_checked_sub(a: Decimal, b: Decimal) -> (r: Option<Decimal>)
    ensures
        shows(r, sub_spec(a@, b@)),
{
    let x = scrypto::math::Decimal::from_attos(scrypto::math::I192::from_digits([a.d0, a.d1, a.d2]));
    let y = scrypto::math::Decimal::from_attos(scrypto::math::I192::from_digits([b.d0, b.d1, b.d2]));
    match x.checked_sub(y) {
        Some(z) => {
            let d = z.attos().to_digits();
            Some(Decimal { d0: d[0], d1: d[1], d2: d[2] })
        },
        None => None,
    }
}

/// Calls `checked_mul` of `scrypto::math::Decimal` on the two values rebuilt
/// from their limbs. Claimed: the result is the product of the two counts of
/// attos divided by `10^18` and rounded toward zero where the magnitude of
/// that is under `2^191`, and `None` where it is not. The least
/// representable value, `-2^191`, is never the result: the outside code
/// narrows the wide quotient by its magnitude.
#[verifier::external_body]
fn outside_checked_mul(a: Decimal, b: Decimal) -> (r: Option<Decimal>)
    ensures
        shows(r, mul_spec(a@, b@)),
{
    let x = scrypto::math::Decimal::from_attos(scrypto::math::I192::from_digits([a.d0, a.d1, a.d2]));
    let y = scrypto::math::Decimal::from_attos(scrypto::math::I192::from_digits([b.d0, b.d1, b.d2]));
    match x.checked_mul(y) {
        Some(z) => {
            let d = z.attos().to_digits();
            Some(Decimal { d0: d[0], d1: d[1], d2: d[2] })
        },
        None => None,
    }
}

/// Calls `checked_div` of `scrypto::math::Decimal` on the two values rebuilt
/// from their limbs. Claimed: the result is `None` for a zero divisor;
/// otherwise it is the dividend's count of attos times `10^18`, divided by
/// the divisor's and rounded toward zero, where the magnitude of that is
/// under `2^191`, and `None` where it is not. The least representable
/// value, `-2^191`, is never the result: the outside code narrows the wide
/// quotient by its magnitude.
#[verifier::external_body]
fn outside_checked_div(a: Decimal, b: Decimal) -> (r: Option<Decimal>)
    ensures
        shows(r, div_spec(a@, b@)),
{
    let x = scrypto::math::Decimal::from_attos(scrypto::math::I192::from_digits([a.d0, a.d1, a.d2]));
    let y = scrypto::math::Decimal::from_attos(scrypto::math::I192::from_digits([b.d0, b.d1, b.d2]));
    match x.checked_div(y) {
        Some(z) => {
            let d = z.attos().to_digits();
            Some(Decimal { d0: d[0], d1: d[1], d2: d[2] })
        },
        None => None,
    }
}

impl Decimal {
    /// Every value is representable.
    pub proof fn lemma_in_range(self)
        ensures
            in_range(self@),
    {
    }

    /// Two values with the same count of attos are the same value.
    pub proof fn lemma_view_injective(self, other: Decimal)
        ensures
            (self@ == other@) <==> (self == other),
    {
    }

    /// The value whose limbs are `d0` (least significant), `d1` and `d2`.
    pub fn from_limbs(d0: u64, d1: u64, d2: u64) -> (r: Decimal)
        ensures
            r@ == limbs_value(d0, d1, d2),
    {
        Decimal { d0, d1, d2 }
    }

    /// The three limbs, least significant first.
    pub fn limbs(&self) -> (r: (u64, u64, u64))
        ensures
            limbs_value(r.0, r.1, r.2) == self@,
    {
        (self.d0, self.d1, self.d2)
    }

    /// Zero.
    pub fn zero() -> (r: Decimal)
        ensures
            r@ == 0,
    {
        Decimal { d0: 0, d1: 0, d2: 0 }
    }

    /// One whole unit.
    pub fn one() -> (r: Decimal)
        ensures
            r@ == one_attos(),
    {
        Decimal { d0: 1_000_000_000_000_000_000, d1: 0, d2: 0 }
    }

    /// The value of `attos` attos.
    pub fn from_attos(attos: i128) -> (r: Decimal)
        ensures
            r@ == attos,
    {
        if attos >= 0 {
            let m: u128 = attos as u128;
            let d0: u64 = (m % 0x1_0000_0000_0000_0000u128) as u64;
            let d1: u64 = (m / 0x1_0000_0000_0000_0000u128) as u64;
            Decimal { d0, d1, d2: 0 }
        } else {
            let shifted: i128 = attos - i128::MIN;
            let m: u128 = (shifted as u128) + 0x8000_0000_0000_0000_0000_0000_0000_0000u128;
            let d0: u64 = (m % 0x1_0000_0000_0000_0000u128) as u64;
            let d1: u64 = (m / 0x1_0000_0000_0000_0000u128) as u64;
            Decimal { d0, d1, d2: 0xffff_ffff_ffff_ffff }
        }
    }

    /// The value of `units` whole units.
    pub fn from_units(units: u64) -> (r: Decimal)
        ensures
            r@ == units * one_attos(),
    {
        let m: u128 = (units as u128) * 1_000_000_000_000_000_000u128;
        let d0: u64 = (m % 0x1_0000_0000_0000_0000u128) as u64;
        let d1: u64 = (m / 0x1_0000_0000_0000_0000u128) as u64;
        Decimal { d0, d1, d2: 0 }
    }

    /// The count of attos, where it fits in 128 bits.
    pub fn to_attos(&self) -> (r: Option<i128>)
        ensures
            match r {
                Some(n) => n == self@,
                None => self@ < i128::MIN || self@ > i128::MAX,
            },
    {
        if self.d2 == 0 && self.d1 < 0x8000_0000_0000_0000 {
            let m: u128 = (self.d1 as u128) * 0x1_0000_0000_0000_0000u128 + (self.d0 as u128);
            Some(m as i128)
        } else if self.d2 == 0xffff_ffff_ffff_ffff && self.d1 >= 0x8000_0000_0000_0000 {
            let high: u128 = (self.d1 - 0x8000_0000_0000_0000) as u128;
            let m: u128 = high * 0x1_0000_0000_0000_0000u128 + (self.d0 as u128);
            Some((m as i128) + i128::MIN)
        } else {
            None
        }
    }

    /// Whether the value is zero.
    pub fn is_zero(&self) -> (r: bool)
        ensures
            r == (self@ == 0),
    {
        self.d0 == 0 && self.d1 == 0 && self.d2 == 0
    }

    /// Whether the value is below zero.
    pub fn is_negative(&self) -> (r: bool)
        ensures
            r == (self@ < 0),
    {
        self.d2 >= 0x8000_0000_0000_0000
    }

    /// Whether the value is above zero.
    pub fn is_positive(&self) -> (r: bool)
        ensures
            r == (self@ > 0),
    {
        self.d2 < 0x8000_0000_0000_0000 && (self.d0 != 0 || self.d1 != 0 || self.d2 != 0)
    }

    /// Whether `self` is strictly less than `other`.
    pub fn lt(&self, other: &Decimal) -> (r: bool)
        ensures
            r == (self@ < other@),
    {
        let self_negative = self.d2 >= 0x8000_0000_0000_0000;
        let other_negative = other.d2 >= 0x8000_0000_0000_0000;
        if self_negative != other_negative {
            self_negative
        } else if self.d2 != other.d2 {
            self.d2 < other.d2
        } else if self.d1 != other.d1 {
            self.d1 < other.d1
        } else {
            self.d0 < other.d0
        }
    }

    /// Whether `self` is less than or equal to `other`.
    pub fn le(&self, other: &Decimal) -> (r: bool)
        ensures
            r == (self@ <= other@),
    {
        !other.lt(self)
    }

    /// Whether `self` is strictly greater than `other`.
    pub fn gt(&self, other: &Decimal) -> (r: bool)
        ensures
            r == (self@ > other@),
    {
        other.lt(self)
    }

    /// Whether `self` is greater than or equal to `other`.
    pub fn ge(&self, other: &Decimal) -> (r: bool)
        ensures
            r == (self@ >= other@),
    {
        !self.lt(other)
    }

    /// The sum, or `None` where it is not representable.
    pub fn checked_add(self, other: Decimal) -> (r: Option<Decimal>)
        ensures
            shows(r, add_spec(self@, other@)),
    {
        outside_checked_add(self, other)
    }

    /// The difference, or `None` where it is not representable.
    pub fn checked_sub(self, other: Decimal) -> (r: Option<Decimal>)
        ensures
            shows(r, sub_spec(self@, other@)),
    {
        outside_checked_sub(self, other)
    }

    /// The product rounded toward zero, or `None` where its magnitude is
    /// not representable.
    pub fn checked_mul(self, other: Decimal) -> (r: Option<Decimal>)
        ensures
            shows(r, mul_spec(self@, other@)),
    {
        outside_checked_mul(self, other)
    }

    /// The quotient rounded toward zero, or `None` where the divisor is zero
    /// or the quotient's magnitude is not representable.
    pub fn checked_div(self, other: Decimal) -> (r: Option<Decimal>)
        ensures
            shows(r, div_spec(self@, other@)),
    {
        outside_checked_div(self, other)
    }
}

} // verus!
