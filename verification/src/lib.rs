//! A collateralised stablecoin ledger.
//!
//! Positions lock collateral, held in two forms, and mint a stablecoin
//! against it. Each position holds shares of the pooled collateral and of
//! the pooled debt, so that yield on the collateral and write-offs of debt
//! reach every position in proportion. Under-collateralised positions are
//! liquidated, flash loans and flash mints are lent against receipts, and
//! a three-phase controller mints or releases to keep the market price in
//! its band.
//!
//! The ledger moves no token and reads no clock. Every operation takes the
//! amounts that came in, the time and the redemption rate as plain values,
//! and answers with the amounts to pay out, or with the reason for which
//! it refuses; a refusal changes nothing.
//!
//! - [`decimal`]: fixed-point numbers and their arithmetic
//! - [`arith`]: facts about products and quotients
//! - [`error`]: refusals
//! - [`position`]: positions and the sums of their shares
//! - [`ledger`]: the state, its invariant, and what can be read of it
//! - [`lifecycle`]: opening, minting, burning, depositing, withdrawing
//! - [`liquidation`]: liquidation
//! - [`flash`]: flash loans and flash mints
//! - [`peg`]: the peg controller
//! - [`oracle`]: writing the price
//! - [`record`]: laying the ledger open for storage, and taking it up again
//! - [`laws`]: what holds of every ledger

pub mod arith;
pub mod decimal;
pub mod error;
pub mod flash;
pub mod laws;
pub mod ledger;
pub mod lifecycle;
pub mod liquidation;
pub mod oracle;
pub mod peg;
pub mod position;
pub mod record;
