//! The ways in which a ledger operation is refused, and fixed-point
//! arithmetic that reports failure as such a refusal.

use vstd::prelude::*;
use crate::decimal::Decimal;
use crate::decimal::add_spec;
use crate::decimal::div_spec;
use crate::decimal::mul_spec;
use crate::decimal::sub_spec;

verus! {

/// Why an operation was refused. A refused operation changes nothing.
#[derive(Clone, Copy, Debug, PartialEq, Eq, Structural)]
pub enum UsdError {
    /// The ledger is halted, or has surrendered its authority.
    Halted,
    /// An amount is negative, or zero where something must move.
    InvalidAmount,
    /// The redemption rate is not positive.
    InvalidRate,
    /// The oracle price is not positive.
    InvalidPrice,
    /// No position has the identifier presented.
    UnknownPosition,
    /// The price feed is older than the staleness window.
    StaleOracle,
    /// The position would be left under the minimum collateralization ratio.
    BelowMinimumCollateralization,
    /// More debt would be repaid than the position owes.
    NegativeLiabilities,
    /// More collateral would be withdrawn than the position holds.
    NegativeAssets,
    /// Total debt would exceed the issuance ceiling.
    IssuanceCeilingExceeded,
    /// The pools cannot pay out what is asked.
    InsufficientBacking,
    /// A flash operation of this kind is open, or one is open where none may be.
    FlashAlreadyActive,
    /// No flash operation of this kind is open.
    FlashNotActive,
    /// The receipt belongs to the other kind of flash operation.
    WrongFlashKind,
    /// The repayment is smaller than the receipt demands.
    InsufficientRepayment,
    /// The first position exists already.
    AlreadyBootstrapped,
    /// The first position does not exist yet.
    NotBootstrapped,
    /// The opening fee is not paid in full.
    FeeTooSmall,
    /// The caller may not write the oracle now.
    OracleWriteDenied,
    /// The amount to mint is not below both sides of the balance sheet.
    Incoherence,
    /// A result is not representable, or a divisor is zero.
    Arithmetic,
    /// A stored ledger does not add up.
    InvalidLedger,
}

/// Whether an exec result shows the optional number `m`, with
/// [`UsdError::Arithmetic`] standing for a missing one.
pub open spec fn computes(r: Result<Decimal, UsdError>, m: Option<int>) -> bool {
    match r {
        Ok(d) => m == Some(d@),
        Err(e) => e == UsdError::Arithmetic && m is None,
    }
}

impl Decimal {
    /// The sum, or [`UsdError::Arithmetic`].
    pub fn plus(self, other: Decimal) -> (r: Result<Decimal, UsdError>)
        ensures
            computes(r, add_spec(self@, other@)),
    {
        match self.checked_add(other) {
            Some(v) => Ok(v),
            None => Err(UsdError::Arithmetic),
        }
    }

    /// The difference, or [`UsdError::Arithmetic`].
    pub fn minus(self, other: Decimal) -> (r: Result<Decimal, UsdError>)
        ensures
            computes(r, sub_spec(self@, other@)),
    {
        match self.checked_sub(other) {
            Some(v) => Ok(v),
            None => Err(UsdError::Arithmetic),
        }
    }

    /// The product rounded toward zero, or [`UsdError::Arithmetic`].
    pub fn times(self, other: Decimal) -> (r: Result<Decimal, UsdError>)
        ensures
            computes(r, mul_spec(self@, other@)),
    {
        match self.checked_mul(other) {
            Some(v) => Ok(v),
            None => Err(UsdError::Arithmetic),
        }
    }

    /// The quotient rounded toward zero, or [`UsdError::Arithmetic`].
    pub fn over(self, other: Decimal) -> (r: Result<Decimal, UsdError>)
        ensures
            computes(r, div_spec(self@, other@)),
    {
        match self.checked_div(other) {
            Some(v) => Ok(v),
            None => Err(UsdError::Arithmetic),
        }
    }
}

} // verus!
