//! Liquidation: a position that has fallen under the minimum ratio, or
//! whose collateral is dust, loses its debt and the collateral that covers
//! it. A position that owes nothing is under no ratio, so that only dust
//! exposes it. One hundredth of its collateral shares goes to the liquidator; what
//! is left after the debt stays with the position.

use vstd::prelude::*;
use crate::arith::lemma_fraction_bounded;
use crate::arith::lemma_product_nonnegative;
use crate::arith::lemma_quotient_nonnegative;
use crate::decimal::Decimal;
use crate::decimal::add_opt;
use crate::decimal::div_opt;
use crate::decimal::mul_opt;
use crate::decimal::mul_spec;
use crate::decimal::one_attos;
use crate::decimal::sub_opt;
use crate::decimal::sub_spec;
use crate::error::UsdError;
use crate::ledger::Usd;
use crate::ledger::UsdState;
use crate::ledger::holds_ratio;
use crate::ledger::ratio_at_least;
use crate::lifecycle::lemma_view_update;
use crate::position::Ecdp;
use crate::position::EcdpState;
use crate::position::lemma_sums_nonnegative;
use crate::position::lemma_sums_update;

verus! {

/// The part of a liquidated position's collateral shares that is not the
/// liquidator's: 0.99.
pub open spec fn liquidation_cut() -> int {
    990_000_000_000_000_000
}

/// The collateral worth under which a position is dust: 30 USD.
pub open spec fn dust_floor() -> int {
    30 * one_attos()
}

/// `v`, or zero where `v` is negative.
pub open spec fn clamp_opt(v: Option<int>) -> Option<int> {
    match v {
        Some(x) => Some(
            if x <= 0 {
                0
            } else {
                x
            },
        ),
        None => None,
    }
}

impl UsdState {
    /// Whether position `id` is safe from liquidation: at or above `mcr`,
    /// which a position that owes nothing is, and with collateral worth at
    /// least the dust floor. `None` where that cannot be computed.
    pub open spec fn position_safe(self, id: int, rate: int) -> Option<bool> {
        let target = self.positions[id];
        let worth = mul_opt(Some(target.assets_lp), self.asset_lp_usd(rate));
        let owed = self.position_owed(Some(target.liabilities_lp));
        match ratio_at_least(worth, owed, self.mcr) {
            Some(sound) => Some(sound && worth.unwrap() >= dust_floor()),
            None => None,
        }
    }

    /// Liquidating position `ted` to the benefit of position `tor`. Gives
    /// the new state and whether anything was liquidated.
    pub open spec fn liquidate(self, ted: int, tor: int, now: int, rate: int) -> Result<
        (UsdState, bool),
        UsdError,
    > {
        if !self.running() {
            Err(UsdError::Halted)
        } else if self.fl_active || self.fm_active {
            Err(UsdError::FlashAlreadyActive)
        } else if !self.has_position(ted) || !self.has_position(tor) {
            Err(UsdError::UnknownPosition)
        } else if rate <= 0 {
            Err(UsdError::InvalidRate)
        } else if !self.oracle_fresh(now) {
            Err(UsdError::StaleOracle)
        } else {
            match self.position_safe(ted, rate) {
                None => Err(UsdError::Arithmetic),
                Some(true) => Ok((self, false)),
                Some(false) => {
                    let target = self.positions[ted];
                    let ass_usd = self.asset_lp_usd(rate);
                    let owed = self.position_owed(Some(target.liabilities_lp));
                    let kept = mul_spec(target.assets_lp, liquidation_cut());
                    let tor_cut = sub_opt(Some(target.assets_lp), kept);
                    let surplus = clamp_opt(sub_opt(mul_opt(kept, ass_usd), owed));
                    let remaining = mul_opt(surplus, div_opt(Some(one_attos()), ass_usd));
                    let seized = sub_opt(kept, remaining);
                    let assets_total = sub_opt(Some(self.assets_lp_total), seized);
                    let liabilities_total = sub_spec(
                        self.liabilities_lp_total,
                        target.liabilities_lp,
                    );
                    if tor_cut is None || assets_total is None || liabilities_total is None {
                        Err(UsdError::Arithmetic)
                    } else {
                        let emptied = self.positions.update(
                            ted,
                            EcdpState { assets_lp: remaining.unwrap(), liabilities_lp: 0 },
                        );
                        match add_opt(Some(emptied[tor].assets_lp), tor_cut) {
                            None => Err(UsdError::Arithmetic),
                            Some(rewarded) => Ok(
                                (
                                    UsdState {
                                        assets_lp_total: assets_total.unwrap(),
                                        liabilities_lp_total: liabilities_total.unwrap(),
                                        positions: emptied.update(
                                            tor,
                                            EcdpState { assets_lp: rewarded, ..emptied[tor] },
                                        ),
                                        ..self
                                    },
                                    true,
                                ),
                            ),
                        }
                    }
                },
            }
        }
    }

    /// A liquidation leaves a valid ledger valid: what the liquidated
    /// position loses beyond the liquidator's cut leaves the collateral
    /// share total, its debt shares leave the debt share total, and no
    /// position is left with negative shares.
    pub proof fn law_liquidate_keeps_valid(self, ted: int, tor: int, now: int, rate: int)
        requires
            self.wf(),
            self.liquidate(ted, tor, now, rate) is Ok,
        ensures
            self.liquidate(ted, tor, now, rate).unwrap().0.wf(),
    {
        let (after, done) = self.liquidate(ted, tor, now, rate).unwrap();
        if done {
            let target = self.positions[ted];
            let ass_usd = self.asset_lp_usd(rate).unwrap();
            self.lemma_share_worth_nonnegative(rate);
            lemma_quotient_nonnegative(one_attos(), ass_usd);
            let owed = self.position_owed(Some(target.liabilities_lp));
            let kept = mul_spec(target.assets_lp, liquidation_cut());
            let surplus = clamp_opt(sub_opt(mul_opt(kept, Some(ass_usd)), owed)).unwrap();
            lemma_product_nonnegative(
                surplus,
                crate::decimal::trunc_div(one_attos() * one_attos(), ass_usd),
            );
            lemma_fraction_bounded(target.assets_lp, liquidation_cut());
            let remaining = mul_opt(Some(surplus), div_opt(Some(one_attos()), Some(ass_usd)));
            let emptied = self.positions.update(
                ted,
                EcdpState { assets_lp: remaining.unwrap(), liabilities_lp: 0 },
            );
            lemma_sums_update(self.positions, ted, emptied[ted]);
            lemma_sums_update(emptied, tor, after.positions[tor]);
        }
    }

    /// In a valid ledger, at a positive redemption rate, a collateral share
    /// is never worth a negative amount of USD.
    pub proof fn lemma_share_worth_nonnegative(self, rate: int)
        requires
            self.wf(),
            rate > 0,
        ensures
            self.asset_lp_usd(rate) matches Some(p) ==> p >= 0,
    {
        lemma_sums_nonnegative(self.positions);
        lemma_product_nonnegative(self.xrd, self.oracle);
        lemma_product_nonnegative(self.exrd, self.oracle);
        if let Some(staked) = mul_spec(self.exrd, self.oracle) {
            lemma_product_nonnegative(staked, rate);
        }
        if self.assets_lp_total != 0 {
            if let Some(worth) = self.collateral_usd(rate) {
                lemma_quotient_nonnegative(worth, self.assets_lp_total);
            }
        }
    }
}

impl Usd {
    /// Liquidates position `liquidated_id` if it is not safe, and credits
    /// the liquidator's cut to position `liquidator_id`. Gives whether
    /// anything was liquidated; a safe position is left alone.
    pub fn liquidate(&mut self, liquidated_id: u64, liquidator_id: u64, now: i64, exrdxrd: Decimal)
        -> (r: Result<bool, UsdError>)
        ensures
            old(self)@.wf() ==> final(self)@.wf(),
            match r {
                Ok(done) => old(self)@.liquidate(
                    liquidated_id as int,
                    liquidator_id as int,
                    now as int,
                    exrdxrd@,
                ) == Ok::<(UsdState, bool), UsdError>((final(self)@, done)),
                Err(e) => {
                    &&& old(self)@.liquidate(
                        liquidated_id as int,
                        liquidator_id as int,
                        now as int,
                        exrdxrd@,
                    ) == Err::<(UsdState, bool), UsdError>(e)
                    &&& *final(self) == *old(self)
                },
            },
    {
        if self.stopped || !self.powered {
            return Err(UsdError::Halted);
        }
        if self.fl_active || self.fm_active {
            return Err(UsdError::FlashAlreadyActive);
        }
        let count = self.positions.len() as u64;
        if liquidated_id >= count || liquidator_id >= count {
            return Err(UsdError::UnknownPosition);
        }
        if !exrdxrd.is_positive() {
            return Err(UsdError::InvalidRate);
        }
        if self.guarded_get_oracle(now).is_none() {
            return Err(UsdError::StaleOracle);
        }
        let data_ted = self.positions[liquidated_id as usize];
        let ass_usd = self.asset_lp_usd(now, exrdxrd)?;
        let worth = data_ted.assets_lp.times(ass_usd)?;
        let owed = self.position_owed(data_ted.liabilities_lp)?;
        let sound = holds_ratio(worth, owed, self.mcr)?;
        if sound && worth.ge(&Decimal::from_units(30)) {
            return Ok(false);
        }
        let kept = data_ted.assets_lp.times(Decimal::from_attos(990_000_000_000_000_000))?;
        let tor_cut = data_ted.assets_lp.minus(kept)?;
        let surplus = kept.times(ass_usd)?.minus(owed)?;
        let ted_remaining_usd = if surplus.is_positive() {
            surplus
        } else {
            Decimal::zero()
        };
        let ted_remaining_assets = ted_remaining_usd.times(Decimal::one().over(ass_usd)?)?;
        let seized = kept.minus(ted_remaining_assets)?;
        let assets_total = self.assets_lp_total.minus(seized)?;
        let liabilities_total = self.liabilities_lp_total.minus(data_ted.liabilities_lp)?;
        let emptied = Ecdp { assets_lp: ted_remaining_assets, liabilities_lp: Decimal::zero() };
        let data_tor = if liquidator_id == liquidated_id {
            emptied
        } else {
            self.positions[liquidator_id as usize]
        };
        let rewarded = data_tor.assets_lp.plus(tor_cut)?;
        let credited = Ecdp { assets_lp: rewarded, liabilities_lp: data_tor.liabilities_lp };
        proof {
            lemma_view_update(self.positions@, liquidated_id as int, emptied);
            if self@.wf() {
                self@.law_liquidate_keeps_valid(
                    liquidated_id as int,
                    liquidator_id as int,
                    now as int,
                    exrdxrd@,
                );
            }
        }
        self.positions.set(liquidated_id as usize, emptied);
        proof {
            lemma_view_update(self.positions@, liquidator_id as int, credited);
        }
        self.positions.set(liquidator_id as usize, credited);
        self.assets_lp_total = assets_total;
        self.liabilities_lp_total = liabilities_total;
        Ok(true)
    }
}

} // verus!
