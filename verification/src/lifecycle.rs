//! The life of a position: the first one, which seeds both share prices;
//! opening; minting and burning debt; adding and withdrawing collateral.
//!
//! Every operation first tests what needs no arithmetic, then computes, and
//! last compares what it computed with the protocol's thresholds. A refusal
//! at any step leaves the ledger as it was.

use vstd::prelude::*;
use crate::arith::lemma_conversion_bounded;
use crate::arith::lemma_product_nonnegative;
use crate::arith::lemma_quotient_nonnegative;
use crate::decimal::Decimal;
use crate::decimal::add_opt;
use crate::decimal::add_spec;
use crate::decimal::div_opt;
use crate::decimal::mul_opt;
use crate::decimal::mul_spec;
use crate::decimal::one_attos;
use crate::decimal::sub_opt;
use crate::decimal::sub_spec;
use crate::error::UsdError;
use crate::ledger::Usd;
use crate::ledger::UsdState;
use crate::ledger::decides;
use crate::ledger::holds_ratio;
use crate::ledger::ratio_at_least;
use crate::position::Ecdp;
use crate::position::EcdpState;
use crate::position::lemma_sums_nonnegative;
use crate::position::lemma_sums_push;
use crate::position::lemma_sums_update;
use crate::position::positions_view;

verus! {

/// The debt that the first position starts with: 777 stablecoin.
pub open spec fn first_debt() -> int {
    777 * one_attos()
}

/// The fee for opening a position: 100 base asset.
pub open spec fn opening_fee() -> int {
    100 * one_attos()
}

impl UsdState {
    /// Whether `id` names a position.
    pub open spec fn has_position(self, id: int) -> bool {
        0 <= id < self.positions.len()
    }

    /// The ledger with position `id` replaced.
    pub open spec fn with_position(self, id: int, e: EcdpState) -> UsdState {
        UsdState { positions: self.positions.update(id, e), ..self }
    }

    /// The first position: a deposit of staked collateral is valued at the
    /// redemption rate and becomes as many collateral shares; the debt
    /// starts at [`first_debt`], one share per stablecoin.
    pub open spec fn first_ecdp(self, input: int, rate: int) -> Result<UsdState, UsdError> {
        if !(self.liabilities_lp_total == 0 && self.assets_lp_total == 0) {
            Err(UsdError::AlreadyBootstrapped)
        } else if input < 0 {
            Err(UsdError::InvalidAmount)
        } else if rate <= 0 {
            Err(UsdError::InvalidRate)
        } else {
            let assets_lp = mul_spec(rate, input);
            let exrd = add_spec(self.exrd, input);
            if assets_lp is None || exrd is None {
                Err(UsdError::Arithmetic)
            } else {
                Ok(
                    UsdState {
                        assets_lp_total: assets_lp.unwrap(),
                        liabilities_lp_total: first_debt(),
                        liabilities_total: first_debt(),
                        exrd: exrd.unwrap(),
                        positions: self.positions.push(
                            EcdpState {
                                assets_lp: assets_lp.unwrap(),
                                liabilities_lp: first_debt(),
                            },
                        ),
                        ..self
                    },
                )
            }
        }
    }

    /// A new, empty position, against a payment of at least the opening
    /// fee, all of which joins the base-asset pool.
    pub open spec fn open_ecdp(self, fee: int) -> Result<UsdState, UsdError> {
        if self.liabilities_lp_total == 0 || self.assets_lp_total == 0 {
            Err(UsdError::NotBootstrapped)
        } else if fee < 0 {
            Err(UsdError::InvalidAmount)
        } else if fee < opening_fee() {
            Err(UsdError::FeeTooSmall)
        } else {
            match add_spec(self.xrd, fee) {
                None => Err(UsdError::Arithmetic),
                Some(xrd) => Ok(
                    UsdState {
                        xrd,
                        positions: self.positions.push(
                            EcdpState { assets_lp: 0, liabilities_lp: 0 },
                        ),
                        ..self
                    },
                ),
            }
        }
    }

    /// What `liabilities_lp` debt shares owe in stablecoin, at the debt share
    /// price in force: nothing where there are none.
    pub open spec fn position_owed(self, liabilities_lp: Option<int>) -> Option<int> {
        match liabilities_lp {
            Some(shares) => if shares == 0 {
                Some(0)
            } else {
                mul_opt(Some(shares), self.liability_lp_usd())
            },
            None => None,
        }
    }

    /// Whether a position that holds `assets_lp` and owes `liabilities_lp`
    /// is at or above the minimum collateralization ratio, at the share
    /// prices in force. A position that owes nothing is.
    pub open spec fn position_sound(
        self,
        assets_lp: Option<int>,
        liabilities_lp: Option<int>,
        rate: int,
    ) -> Option<bool> {
        ratio_at_least(
            mul_opt(self.asset_lp_usd(rate), assets_lp),
            self.position_owed(liabilities_lp),
            self.mcr,
        )
    }

    /// Minting `lia_lp` debt shares on position `id`: the stablecoin minted
    /// is their worth at the debt share price; the position must stay at or
    /// above `mcr`, and the total debt at or under the ceiling.
    pub open spec fn ecdp_mint(self, id: int, lia_lp: int, now: int, rate: int) -> Result<
        (UsdState, int),
        UsdError,
    > {
        if !self.running() {
            Err(UsdError::Halted)
        } else if lia_lp <= 0 {
            Err(UsdError::InvalidAmount)
        } else if !self.has_position(id) {
            Err(UsdError::UnknownPosition)
        } else if rate <= 0 {
            Err(UsdError::InvalidRate)
        } else if !self.oracle_fresh(now) {
            Err(UsdError::StaleOracle)
        } else {
            let pos = self.positions[id];
            let new_lp = add_spec(pos.liabilities_lp, lia_lp);
            let sound = self.position_sound(Some(pos.assets_lp), new_lp, rate);
            let minted = mul_opt(Some(lia_lp), self.liability_lp_usd());
            let total = add_opt(Some(self.liabilities_total), minted);
            let lp_total = add_spec(self.liabilities_lp_total, lia_lp);
            if sound is None || total is None || lp_total is None {
                Err(UsdError::Arithmetic)
            } else if !sound.unwrap() {
                Err(UsdError::BelowMinimumCollateralization)
            } else if total.unwrap() > self.maximum_minted {
                Err(UsdError::IssuanceCeilingExceeded)
            } else {
                Ok(
                    (
                        UsdState {
                            liabilities_total: total.unwrap(),
                            liabilities_lp_total: lp_total.unwrap(),
                            ..self.with_position(
                                id,
                                EcdpState { liabilities_lp: new_lp.unwrap(), ..pos },
                            )
                        },
                        minted.unwrap(),
                    ),
                )
            }
        }
    }

    /// Burning `amount` stablecoin on position `id`: the debt shares retired
    /// are the amount's worth at the debt share price, and the position
    /// cannot retire more than it has.
    pub open spec fn ecdp_burn(self, id: int, amount: int) -> Result<UsdState, UsdError> {
        if !self.running() {
            Err(UsdError::Halted)
        } else if amount <= 0 {
            Err(UsdError::InvalidAmount)
        } else if !self.has_position(id) {
            Err(UsdError::UnknownPosition)
        } else {
            let pos = self.positions[id];
            let retired = div_opt(Some(amount), self.liability_lp_usd());
            let new_lp = sub_opt(Some(pos.liabilities_lp), retired);
            let total = sub_spec(self.liabilities_total, amount);
            let lp_total = sub_opt(Some(self.liabilities_lp_total), retired);
            if new_lp is None || total is None || lp_total is None {
                Err(UsdError::Arithmetic)
            } else if new_lp.unwrap() < 0 {
                Err(UsdError::NegativeLiabilities)
            } else {
                Ok(
                    UsdState {
                        liabilities_total: total.unwrap(),
                        liabilities_lp_total: lp_total.unwrap(),
                        ..self.with_position(
                            id,
                            EcdpState { liabilities_lp: new_lp.unwrap(), ..pos },
                        )
                    },
                )
            }
        }
    }

    /// What a deposit of `amount` is worth in base asset: staked collateral
    /// at the redemption rate, base asset at par.
    pub open spec fn deposit_worth(amount: int, exrd: bool, rate: int) -> Option<int> {
        if exrd {
            mul_spec(rate, amount)
        } else {
            Some(amount)
        }
    }

    /// Adding `amount` of collateral, staked where `exrd`, to position `id`:
    /// the shares issued are the deposit's worth at the collateral share
    /// price before the deposit.
    pub open spec fn ecdp_collateralize(self, id: int, amount: int, exrd: bool, rate: int)
        -> Result<UsdState, UsdError> {
        if !self.running() {
            Err(UsdError::Halted)
        } else if amount <= 0 {
            Err(UsdError::InvalidAmount)
        } else if !self.has_position(id) {
            Err(UsdError::UnknownPosition)
        } else if rate <= 0 {
            Err(UsdError::InvalidRate)
        } else {
            let pos = self.positions[id];
            let added = div_opt(Self::deposit_worth(amount, exrd, rate), self.asset_lp_xrd(rate));
            let held = add_spec(
                if exrd {
                    self.exrd
                } else {
                    self.xrd
                },
                amount,
            );
            let new_lp = add_opt(Some(pos.assets_lp), added);
            let lp_total = add_opt(Some(self.assets_lp_total), added);
            if held is None || new_lp is None || lp_total is None {
                Err(UsdError::Arithmetic)
            } else {
                Ok(
                    UsdState {
                        assets_lp_total: lp_total.unwrap(),
                        exrd: if exrd {
                            held.unwrap()
                        } else {
                            self.exrd
                        },
                        xrd: if exrd {
                            self.xrd
                        } else {
                            held.unwrap()
                        },
                        ..self.with_position(id, EcdpState { assets_lp: new_lp.unwrap(), ..pos })
                    },
                )
            }
        }
    }

    /// Withdrawing `ass_lp` collateral shares from position `id`: the
    /// position must stay at or above `mcr`, which a position that owes
    /// nothing does. The shares' worth is paid in
    /// staked collateral as far as the pool reaches, and in base asset for
    /// the rest. Gives the new state, the staked collateral paid, and the
    /// base asset paid if any.
    pub open spec fn ecdp_uncollateralize(self, id: int, ass_lp: int, now: int, rate: int)
        -> Result<(UsdState, int, Option<int>), UsdError> {
        if !self.running() {
            Err(UsdError::Halted)
        } else if ass_lp <= 0 {
            Err(UsdError::InvalidAmount)
        } else if !self.has_position(id) {
            Err(UsdError::UnknownPosition)
        } else if rate <= 0 {
            Err(UsdError::InvalidRate)
        } else if !self.oracle_fresh(now) {
            Err(UsdError::StaleOracle)
        } else {
            let pos = self.positions[id];
            let new_lp = sub_spec(pos.assets_lp, ass_lp);
            let sound = self.position_sound(new_lp, Some(pos.liabilities_lp), rate);
            let refund = mul_opt(Some(ass_lp), self.asset_lp_xrd(rate));
            let staked_worth = mul_spec(rate, self.exrd);
            let lp_total = sub_spec(self.assets_lp_total, ass_lp);
            if sound is None || refund is None || staked_worth is None || lp_total is None {
                Err(UsdError::Arithmetic)
            } else if new_lp.unwrap() < 0 {
                Err(UsdError::NegativeAssets)
            } else if !sound.unwrap() {
                Err(UsdError::BelowMinimumCollateralization)
            } else {
                let after = UsdState {
                    assets_lp_total: lp_total.unwrap(),
                    ..self.with_position(id, EcdpState { assets_lp: new_lp.unwrap(), ..pos })
                };
                if staked_worth.unwrap() < refund.unwrap() {
                    let rest = sub_opt(refund, staked_worth);
                    let xrd = sub_opt(Some(self.xrd), rest);
                    if rest is None || xrd is None {
                        Err(UsdError::Arithmetic)
                    } else if rest.unwrap() > self.xrd {
                        Err(UsdError::InsufficientBacking)
                    } else {
                        Ok((UsdState { exrd: 0, xrd: xrd.unwrap(), ..after }, self.exrd, rest))
                    }
                } else {
                    let paid = div_opt(refund, Some(rate));
                    let exrd = sub_opt(Some(self.exrd), paid);
                    if exrd is None {
                        Err(UsdError::Arithmetic)
                    } else {
                        Ok((UsdState { exrd: exrd.unwrap(), ..after }, paid.unwrap(), None))
                    }
                }
            }
        }
    }
}

/// Replacing a position in the arena replaces it in the model.
pub proof fn lemma_view_update(ps: Seq<Ecdp>, i: int, e: Ecdp)
    requires
        0 <= i < ps.len(),
    ensures
        positions_view(ps.update(i, e)) == positions_view(ps).update(i, e@),
{
    assert(positions_view(ps.update(i, e)) =~= positions_view(ps).update(i, e@));
}

/// A position added to the arena is added to the model.
pub proof fn lemma_view_push(ps: Seq<Ecdp>, e: Ecdp)
    ensures
        positions_view(ps.push(e)) == positions_view(ps).push(e@),
{
    assert(positions_view(ps.push(e)) =~= positions_view(ps).push(e@));
}

impl Usd {
    /// Opens the first position on a deposit of `input` staked collateral
    /// at redemption rate `exrdxrd`. Gives the position's identifier and
    /// the stablecoin minted to the caller.
    pub fn first_ecdp(&mut self, input: Decimal, exrdxrd: Decimal) -> (r: Result<
        (u64, Decimal),
        UsdError,
    >)
        ensures
            old(self)@.wf() ==> final(self)@.wf(),
            match r {
                Ok(out) => {
                    &&& old(self)@.first_ecdp(input@, exrdxrd@) == Ok::<UsdState, UsdError>(
                        final(self)@,
                    )
                    &&& out.0 == old(self)@.positions.len()
                    &&& out.1@ == first_debt()
                },
                Err(e) => {
                    &&& old(self)@.first_ecdp(input@, exrdxrd@) == Err::<UsdState, UsdError>(e)
                    &&& *final(self) == *old(self)
                },
            },
    {
        if !(self.liabilities_lp_total.is_zero() && self.assets_lp_total.is_zero()) {
            return Err(UsdError::AlreadyBootstrapped);
        }
        if input.is_negative() {
            return Err(UsdError::InvalidAmount);
        }
        if !exrdxrd.is_positive() {
            return Err(UsdError::InvalidRate);
        }
        let assets_lp = exrdxrd.times(input)?;
        let exrd = self.exrd_vault.plus(input)?;
        let liabilities_lp = Decimal::from_units(777);
        let id = self.positions.len() as u64;
        let ecdp = Ecdp { assets_lp, liabilities_lp };
        proof {
            lemma_view_push(self.positions@, ecdp);
            if self@.wf() {
                self@.law_first_ecdp_keeps_valid(input@, exrdxrd@);
            }
        }
        self.assets_lp_total = assets_lp;
        self.liabilities_lp_total = liabilities_lp;
        self.liabilities_total = liabilities_lp;
        self.exrd_vault = exrd;
        self.positions.push(ecdp);
        Ok((id, liabilities_lp))
    }

    /// Opens an empty position against a payment of `fee` base asset. Gives
    /// the position's identifier.
    pub fn open_ecdp(&mut self, fee: Decimal) -> (r: Result<u64, UsdError>)
        ensures
            old(self)@.wf() ==> final(self)@.wf(),
            match r {
                Ok(id) => {
                    &&& old(self)@.open_ecdp(fee@) == Ok::<UsdState, UsdError>(final(self)@)
                    &&& id == old(self)@.positions.len()
                },
                Err(e) => {
                    &&& old(self)@.open_ecdp(fee@) == Err::<UsdState, UsdError>(e)
                    &&& *final(self) == *old(self)
                },
            },
    {
        if self.liabilities_lp_total.is_zero() || self.assets_lp_total.is_zero() {
            return Err(UsdError::NotBootstrapped);
        }
        if fee.is_negative() {
            return Err(UsdError::InvalidAmount);
        }
        if fee.lt(&Decimal::from_units(100)) {
            return Err(UsdError::FeeTooSmall);
        }
        let xrd = self.xrd_vault.plus(fee)?;
        let id = self.positions.len() as u64;
        let ecdp = Ecdp { assets_lp: Decimal::zero(), liabilities_lp: Decimal::zero() };
        proof {
            lemma_view_push(self.positions@, ecdp);
            if self@.wf() {
                self@.law_open_ecdp_keeps_valid(fee@);
            }
        }
        self.xrd_vault = xrd;
        self.positions.push(ecdp);
        Ok(id)
    }

    /// Whether a position that would hold `assets_lp` and owe
    /// `liabilities_lp` is at or above the minimum ratio, at the share
    /// prices in force.
    pub(crate) fn position_sound(
        &self,
        assets_lp: Decimal,
        liabilities_lp: Decimal,
        now: i64,
        exrdxrd: Decimal,
    ) -> (r: Result<bool, UsdError>)
        requires
            self@.oracle_fresh(now as int),
            exrdxrd@ > 0,
        ensures
            decides(r, self@.position_sound(Some(assets_lp@), Some(liabilities_lp@), exrdxrd@)),
    {
        let ass_usd = self.asset_lp_usd(now, exrdxrd)?;
        let worth = ass_usd.times(assets_lp)?;
        let owed = self.position_owed(liabilities_lp)?;
        holds_ratio(worth, owed, self.mcr)
    }

    /// What `liabilities_lp` debt shares owe in stablecoin.
    pub(crate) fn position_owed(&self, liabilities_lp: Decimal) -> (r: Result<Decimal, UsdError>)
        ensures
            crate::error::computes(r, self@.position_owed(Some(liabilities_lp@))),
    {
        if liabilities_lp.is_zero() {
            return Ok(Decimal::zero());
        }
        let lia_usd = self.liability_lp_usd()?;
        liabilities_lp.times(lia_usd)
    }

    /// Mints `lia_lp` debt shares on position `id`. Gives the stablecoin
    /// minted to the caller. The position is left at or above the minimum
    /// ratio, at the share prices that the call was quoted.
    pub fn ecdp_mint(&mut self, lia_lp: Decimal, id: u64, now: i64, exrdxrd: Decimal) -> (r:
        Result<Decimal, UsdError>)
        ensures
            old(self)@.wf() ==> final(self)@.wf(),
            r is Ok ==> old(self)@.position_sound(
                Some(final(self)@.positions[id as int].assets_lp),
                Some(final(self)@.positions[id as int].liabilities_lp),
                exrdxrd@,
            ) == Some(true),
            match r {
                Ok(minted) => old(self)@.ecdp_mint(id as int, lia_lp@, now as int, exrdxrd@)
                    == Ok::<(UsdState, int), UsdError>((final(self)@, minted@)),
                Err(e) => {
                    &&& old(self)@.ecdp_mint(id as int, lia_lp@, now as int, exrdxrd@) == Err::<
                        (UsdState, int),
                        UsdError,
                    >(e)
                    &&& *final(self) == *old(self)
                },
            },
    {
        if self.stopped || !self.powered {
            return Err(UsdError::Halted);
        }
        if !lia_lp.is_positive() {
            return Err(UsdError::InvalidAmount);
        }
        if id >= self.positions.len() as u64 {
            return Err(UsdError::UnknownPosition);
        }
        if !exrdxrd.is_positive() {
            return Err(UsdError::InvalidRate);
        }
        if self.guarded_get_oracle(now).is_none() {
            return Err(UsdError::StaleOracle);
        }
        let data = self.positions[id as usize];
        let new_liabilities_lp = data.liabilities_lp.plus(lia_lp)?;
        let sound = self.position_sound(data.assets_lp, new_liabilities_lp, now, exrdxrd)?;
        let lp_usd = self.liability_lp_usd()?;
        let minted = lia_lp.times(lp_usd)?;
        let total = self.liabilities_total.plus(minted)?;
        let lp_total = self.liabilities_lp_total.plus(lia_lp)?;
        if !sound {
            return Err(UsdError::BelowMinimumCollateralization);
        }
        if total.gt(&self.maximum_minted) {
            return Err(UsdError::IssuanceCeilingExceeded);
        }
        let ecdp = Ecdp { assets_lp: data.assets_lp, liabilities_lp: new_liabilities_lp };
        proof {
            lemma_view_update(self.positions@, id as int, ecdp);
            if self@.wf() {
                self@.law_mint_keeps_valid(id as int, lia_lp@, now as int, exrdxrd@);
            }
        }
        self.liabilities_total = total;
        self.liabilities_lp_total = lp_total;
        self.positions.set(id as usize, ecdp);
        Ok(minted)
    }

    /// Burns `amount` stablecoin against the debt of position `id`.
    pub fn ecdp_burn(&mut self, amount: Decimal, id: u64) -> (r: Result<(), UsdError>)
        ensures
            old(self)@.wf() ==> final(self)@.wf(),
            match r {
                Ok(_) => old(self)@.ecdp_burn(id as int, amount@) == Ok::<UsdState, UsdError>(
                    final(self)@,
                ),
                Err(e) => {
                    &&& old(self)@.ecdp_burn(id as int, amount@) == Err::<UsdState, UsdError>(e)
                    &&& *final(self) == *old(self)
                },
            },
    {
        if self.stopped || !self.powered {
            return Err(UsdError::Halted);
        }
        if !amount.is_positive() {
            return Err(UsdError::InvalidAmount);
        }
        if id >= self.positions.len() as u64 {
            return Err(UsdError::UnknownPosition);
        }
        let data = self.positions[id as usize];
        let lp_usd = self.liability_lp_usd()?;
        let retired = amount.over(lp_usd)?;
        let new_liabilities_lp = data.liabilities_lp.minus(retired)?;
        let total = self.liabilities_total.minus(amount)?;
        let lp_total = self.liabilities_lp_total.minus(retired)?;
        if new_liabilities_lp.is_negative() {
            return Err(UsdError::NegativeLiabilities);
        }
        let ecdp = Ecdp { assets_lp: data.assets_lp, liabilities_lp: new_liabilities_lp };
        proof {
            lemma_view_update(self.positions@, id as int, ecdp);
            if self@.wf() {
                self@.law_burn_keeps_valid(id as int, amount@);
            }
        }
        self.liabilities_total = total;
        self.liabilities_lp_total = lp_total;
        self.positions.set(id as usize, ecdp);
        Ok(())
    }

    /// Adds `amount` of collateral to position `id`: staked collateral
    /// where `exrd`, base asset otherwise.
    pub fn ecdp_collateralize(&mut self, amount: Decimal, exrd: bool, id: u64, exrdxrd: Decimal)
        -> (r: Result<(), UsdError>)
        ensures
            old(self)@.wf() ==> final(self)@.wf(),
            match r {
                Ok(_) => old(self)@.ecdp_collateralize(id as int, amount@, exrd, exrdxrd@) == Ok::<
                    UsdState,
                    UsdError,
                >(final(self)@),
                Err(e) => {
                    &&& old(self)@.ecdp_collateralize(id as int, amount@, exrd, exrdxrd@) == Err::<
                        UsdState,
                        UsdError,
                    >(e)
                    &&& *final(self) == *old(self)
                },
            },
    {
        if self.stopped || !self.powered {
            return Err(UsdError::Halted);
        }
        if !amount.is_positive() {
            return Err(UsdError::InvalidAmount);
        }
        if id >= self.positions.len() as u64 {
            return Err(UsdError::UnknownPosition);
        }
        if !exrdxrd.is_positive() {
            return Err(UsdError::InvalidRate);
        }
        let data = self.positions[id as usize];
        let worth = if exrd {
            exrdxrd.times(amount)?
        } else {
            amount
        };
        let lp_xrd = self.asset_lp_xrd(exrdxrd)?;
        let added_assets_lp = worth.over(lp_xrd)?;
        let held = if exrd {
            self.exrd_vault.plus(amount)?
        } else {
            self.xrd_vault.plus(amount)?
        };
        let new_assets_lp = data.assets_lp.plus(added_assets_lp)?;
        let lp_total = self.assets_lp_total.plus(added_assets_lp)?;
        let ecdp = Ecdp { assets_lp: new_assets_lp, liabilities_lp: data.liabilities_lp };
        proof {
            lemma_view_update(self.positions@, id as int, ecdp);
            if self@.wf() {
                self@.law_collateralize_keeps_valid(id as int, amount@, exrd, exrdxrd@);
            }
        }
        if exrd {
            self.exrd_vault = held;
        } else {
            self.xrd_vault = held;
        }
        self.assets_lp_total = lp_total;
        self.positions.set(id as usize, ecdp);
        Ok(())
    }

    /// Withdraws `ass_lp` collateral shares from position `id`. Gives the
    /// staked collateral paid out and, where the staked pool did not reach,
    /// the base asset paid out. The position is left at or above the
    /// minimum ratio, at the share prices that the call was quoted.
    pub fn ecdp_uncollateralize(&mut self, ass_lp: Decimal, id: u64, now: i64, exrdxrd: Decimal)
        -> (r: Result<(Decimal, Option<Decimal>), UsdError>)
        ensures
            old(self)@.wf() ==> final(self)@.wf(),
            r is Ok ==> old(self)@.position_sound(
                Some(final(self)@.positions[id as int].assets_lp),
                Some(final(self)@.positions[id as int].liabilities_lp),
                exrdxrd@,
            ) == Some(true),
            match r {
                Ok(out) => {
                    &&& old(self)@.ecdp_uncollateralize(id as int, ass_lp@, now as int, exrdxrd@)
                        matches Ok(t)
                    &&& t.0 == final(self)@
                    &&& t.1 == out.0@
                    &&& crate::decimal::shows(out.1, t.2)
                },
                Err(e) => {
                    &&& old(self)@.ecdp_uncollateralize(id as int, ass_lp@, now as int, exrdxrd@)
                        == Err::<(UsdState, int, Option<int>), UsdError>(e)
                    &&& *final(self) == *old(self)
                },
            },
    {
        if self.stopped || !self.powered {
            return Err(UsdError::Halted);
        }
        if !ass_lp.is_positive() {
            return Err(UsdError::InvalidAmount);
        }
        if id >= self.positions.len() as u64 {
            return Err(UsdError::UnknownPosition);
        }
        if !exrdxrd.is_positive() {
            return Err(UsdError::InvalidRate);
        }
        if self.guarded_get_oracle(now).is_none() {
            return Err(UsdError::StaleOracle);
        }
        let data = self.positions[id as usize];
        let new_assets_lp = data.assets_lp.minus(ass_lp)?;
        let sound = self.position_sound(new_assets_lp, data.liabilities_lp, now, exrdxrd)?;
        let lp_xrd = self.asset_lp_xrd(exrdxrd)?;
        let refund_xrd = ass_lp.times(lp_xrd)?;
        let staked_worth = exrdxrd.times(self.exrd_vault)?;
        let lp_total = self.assets_lp_total.minus(ass_lp)?;
        if new_assets_lp.is_negative() {
            return Err(UsdError::NegativeAssets);
        }
        if !sound {
            return Err(UsdError::BelowMinimumCollateralization);
        }
        let ecdp = Ecdp { assets_lp: new_assets_lp, liabilities_lp: data.liabilities_lp };
        proof {
            lemma_view_update(self.positions@, id as int, ecdp);
        }
        if staked_worth.lt(&refund_xrd) {
            let rest = refund_xrd.minus(staked_worth)?;
            let xrd = self.xrd_vault.minus(rest)?;
            if rest.gt(&self.xrd_vault) {
                return Err(UsdError::InsufficientBacking);
            }
            proof {
                if self@.wf() {
                    self@.law_uncollateralize_keeps_valid(
                        id as int,
                        ass_lp@,
                        now as int,
                        exrdxrd@,
                    );
                }
            }
            let ret_exrd = self.exrd_vault;
            self.exrd_vault = Decimal::zero();
            self.xrd_vault = xrd;
            self.assets_lp_total = lp_total;
            self.positions.set(id as usize, ecdp);
            Ok((ret_exrd, Some(rest)))
        } else {
            let paid = refund_xrd.over(exrdxrd)?;
            let exrd = self.exrd_vault.minus(paid)?;
            proof {
                if self@.wf() {
                    self@.law_uncollateralize_keeps_valid(
                        id as int,
                        ass_lp@,
                        now as int,
                        exrdxrd@,
                    );
                }
            }
            self.exrd_vault = exrd;
            self.assets_lp_total = lp_total;
            self.positions.set(id as usize, ecdp);
            Ok((paid, None))
        }
    }
}

impl UsdState {
    /// The first position leaves a valid ledger valid.
    pub proof fn law_first_ecdp_keeps_valid(self, input: int, rate: int)
        requires
            self.wf(),
            self.first_ecdp(input, rate) is Ok,
        ensures
            self.first_ecdp(input, rate).unwrap().wf(),
    {
        lemma_product_nonnegative(rate, input);
        let after = self.first_ecdp(input, rate).unwrap();
        lemma_sums_push(self.positions, after.positions.last());
    }

    /// Opening a position leaves a valid ledger valid.
    pub proof fn law_open_ecdp_keeps_valid(self, fee: int)
        requires
            self.wf(),
            self.open_ecdp(fee) is Ok,
        ensures
            self.open_ecdp(fee).unwrap().wf(),
    {
        lemma_sums_push(self.positions, EcdpState { assets_lp: 0, liabilities_lp: 0 });
    }

    /// A mint leaves a valid ledger valid: the debt share total grows by
    /// what the position's debt shares grow by.
    pub proof fn law_mint_keeps_valid(self, id: int, lia_lp: int, now: int, rate: int)
        requires
            self.wf(),
            self.ecdp_mint(id, lia_lp, now, rate) is Ok,
        ensures
            self.ecdp_mint(id, lia_lp, now, rate).unwrap().0.wf(),
    {
        let after = self.ecdp_mint(id, lia_lp, now, rate).unwrap().0;
        lemma_sums_update(self.positions, id, after.positions[id]);
    }

    /// A burn leaves a valid ledger valid: the debt share total falls by
    /// what the position's debt shares fall by.
    pub proof fn law_burn_keeps_valid(self, id: int, amount: int)
        requires
            self.wf(),
            self.ecdp_burn(id, amount) is Ok,
        ensures
            self.ecdp_burn(id, amount).unwrap().wf(),
    {
        let after = self.ecdp_burn(id, amount).unwrap();
        lemma_sums_update(self.positions, id, after.positions[id]);
    }

    /// A deposit leaves a valid ledger valid: the collateral share total
    /// grows by what the position's collateral shares grow by, and no
    /// negative number of shares is issued.
    pub proof fn law_collateralize_keeps_valid(self, id: int, amount: int, exrd: bool, rate: int)
        requires
            self.wf(),
            self.ecdp_collateralize(id, amount, exrd, rate) is Ok,
        ensures
            self.ecdp_collateralize(id, amount, exrd, rate).unwrap().wf(),
    {
        let after = self.ecdp_collateralize(id, amount, exrd, rate).unwrap();
        self.lemma_share_price_nonnegative(rate);
        lemma_product_nonnegative(rate, amount);
        lemma_quotient_nonnegative(
            Self::deposit_worth(amount, exrd, rate).unwrap(),
            self.asset_lp_xrd(rate).unwrap(),
        );
        lemma_sums_update(self.positions, id, after.positions[id]);
    }

    /// A withdrawal leaves a valid ledger valid: the collateral share total
    /// falls by what the position's collateral shares fall by, and neither
    /// pool pays out more than it holds.
    pub proof fn law_uncollateralize_keeps_valid(self, id: int, ass_lp: int, now: int, rate: int)
        requires
            self.wf(),
            self.ecdp_uncollateralize(id, ass_lp, now, rate) is Ok,
        ensures
            self.ecdp_uncollateralize(id, ass_lp, now, rate).unwrap().0.wf(),
    {
        let after = self.ecdp_uncollateralize(id, ass_lp, now, rate).unwrap().0;
        self.lemma_share_price_nonnegative(rate);
        let price = self.asset_lp_xrd(rate).unwrap();
        lemma_product_nonnegative(ass_lp, price);
        let refund = crate::decimal::trunc_div(ass_lp * price, one_attos());
        if crate::decimal::trunc_div(rate * self.exrd, one_attos()) >= refund {
            lemma_conversion_bounded(refund, rate, self.exrd);
        }
        lemma_sums_update(self.positions, id, after.positions[id]);
    }

    /// In a valid ledger, at a positive redemption rate, a collateral share
    /// is never worth a negative amount of base asset.
    pub proof fn lemma_share_price_nonnegative(self, rate: int)
        requires
            self.wf(),
            rate > 0,
        ensures
            self.asset_lp_xrd(rate) matches Some(p) ==> p >= 0,
            self.assets_lp_total >= 0,
    {
        lemma_sums_nonnegative(self.positions);
        lemma_product_nonnegative(rate, self.exrd);
        if self.assets_lp_total != 0 {
            if let Some(worth) = self.collateral_xrd(rate) {
                lemma_quotient_nonnegative(worth, self.assets_lp_total);
            }
        }
    }
}

} // verus!
