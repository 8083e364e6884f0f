//! Peg arbitrage, in three phases that the trading venue calls around a
//! swap: `poke` says whether the market price has left its band and where
//! it should be brought; `woke` hands out what the correction trades with,
//! stablecoin minted or staked collateral released; `choke` books what the
//! trade brought back.
//!
//! The venue calls on the controller twice for each swap, before it and
//! after it, and the correction runs at one of the two at most:
//! [`correction_due`] says at which.
//!
//! Where `woke` must release more staked collateral than the pool holds,
//! base asset has to be staked first. Staking happens outside: `woke` then
//! sets aside the base asset that the shortfall costs at the redemption
//! rate and says how much to stake, and `aa_woke_staked` takes what the
//! staking returned and releases.

use vstd::prelude::*;
use crate::decimal::trunc_div;
use crate::arith::lemma_trunc_div_floor;
use crate::arith::lemma_product_nonnegative;
use crate::decimal::Decimal;
use crate::decimal::add_spec;
use crate::decimal::div_opt;
use crate::decimal::mul_opt;
use crate::decimal::mul_spec;
use crate::decimal::one_attos;
use crate::decimal::sub_opt;
use crate::decimal::sub_spec;
use crate::error::UsdError;
use crate::ledger::Usd;
use crate::ledger::UsdState;
use crate::ledger::exceeds_ratio;
use crate::ledger::ratio_above;

verus! {

/// What `woke` decided, as the model sees it.
pub enum WokeState {
    /// The safety ratio does not allow a correction.
    Idle,
    /// Stablecoin was minted.
    Minted(int),
    /// Staked collateral was released.
    Released(int),
    /// Base asset was set aside to be staked; `release` is owed after.
    Stake { xrd: int, release: int },
}

/// What `woke` decided.
#[derive(Clone, Copy, Debug, PartialEq, Eq, Structural)]
pub enum Woke {
    /// The safety ratio does not allow a correction.
    Idle,
    /// This much stablecoin was minted to the caller.
    Minted(Decimal),
    /// This much staked collateral was released to the caller.
    Released(Decimal),
    /// This much base asset left the pool to be staked; once it is, the
    /// caller is owed `release` staked collateral.
    Stake { xrd: Decimal, release: Decimal },
}

impl View for Woke {
    type V = WokeState;

    open spec fn view(&self) -> WokeState {
        match *self {
            Woke::Idle => WokeState::Idle,
            Woke::Minted(m) => WokeState::Minted(m@),
            Woke::Released(m) => WokeState::Released(m@),
            Woke::Stake { xrd, release } => WokeState::Stake { xrd: xrd@, release: release@ },
        }
    }
}

/// Whether a correction is due at one of the two calls round a swap.
///
/// `aligned` says whether the user swaps the way that the correction would;
/// `first_aa` tells the call before the swap from the call after it;
/// `first_ran` says whether the call before the swap corrected. A swap the
/// way of the correction is corrected before it, so that the user does not
/// trade at the price that is off; a swap against it is corrected after it,
/// on what the swap left; and what was corrected before is not corrected
/// again after.
pub open spec fn correction_due_spec(aligned: bool, first_aa: bool, first_ran: bool) -> bool {
    !first_ran && aligned == first_aa
}

/// Whether a correction is due at one of the two calls round a swap.
pub fn correction_due(aligned: bool, first_aa: bool, first_ran: bool) -> (r: bool)
    ensures
        r == correction_due_spec(aligned, first_aa, first_ran),
{
    if first_ran {
        return false;
    }
    if (!aligned && first_aa) || (aligned && !first_aa) {
        return false;
    }
    true
}

/// One correction for each swap at most: where the call before the swap
/// corrected, the call after it does not, whichever way the market stands
/// by then.
pub proof fn law_one_correction_for_each_swap(
    aligned_before: bool,
    aligned_after: bool,
    first_ran: bool,
)
    requires
        first_ran ==> correction_due_spec(aligned_before, true, false),
    ensures
        !(first_ran && correction_due_spec(aligned_after, false, first_ran)),
{
}

/// A swap that leaves the market on the side where it found it has a
/// correction due at exactly one of the two calls.
pub proof fn law_steady_swap_is_corrected_once(aligned: bool)
    ensures
        correction_due_spec(aligned, true, false) != correction_due_spec(aligned, false, false),
{
}

/// A swap the way of the correction may carry the market through the band
/// to the other side. It is corrected before it; after it the user has
/// swapped against the correction that is then called for, and that one
/// is due only if the first did not run.
pub proof fn law_flipping_swap_is_corrected_once(first_ran: bool)
    ensures
        correction_due_spec(true, true, false),
        correction_due_spec(false, false, first_ran) == !first_ran,
{
}

/// The base asset to stake for `shortfall` staked collateral at redemption
/// rate `rate`, which is base asset for each unit of staked collateral: the
/// shortfall's worth at the rate, and one atto more where the worth was
/// rounded down, so that what is staked converts back into the shortfall
/// at least.
pub open spec fn stake_for(shortfall: int, rate: int) -> Option<int> {
    let worth = mul_spec(rate, shortfall);
    match div_opt(worth, Some(rate)) {
        Some(back) => if back >= shortfall {
            worth
        } else {
            add_spec(worth.unwrap(), 1)
        },
        None => None,
    }
}

/// Staking covers the shortfall: at a positive rate, the amount to stake
/// for a shortfall converts back at that rate into the shortfall at least,
/// and it is the least amount that does.
pub proof fn law_stake_covers_shortfall(shortfall: int, rate: int)
    requires
        rate > 0,
        shortfall >= 0,
        stake_for(shortfall, rate) is Some,
    ensures
        ({
            let stake = stake_for(shortfall, rate).unwrap();
            &&& stake >= 0
            &&& trunc_div(stake * one_attos(), rate) >= shortfall
            &&& stake > 0 ==> trunc_div((stake - 1) * one_attos(), rate) < shortfall
        }),
{
    let stake = stake_for(shortfall, rate).unwrap();
    let worth = trunc_div(rate * shortfall, one_attos());
    lemma_product_nonnegative(rate, shortfall);
    lemma_trunc_div_floor(rate * shortfall, one_attos());
    lemma_product_nonnegative(worth, one_attos());
    lemma_trunc_div_floor(worth * one_attos(), rate);
    lemma_product_nonnegative(stake, one_attos());
    lemma_trunc_div_floor(stake * one_attos(), rate);
    let back = trunc_div(worth * one_attos(), rate);
    let covered = trunc_div(stake * one_attos(), rate);
    assert(covered >= shortfall) by (nonlinear_arith)
        requires
            rate > 0,
            shortfall >= 0,
            stake == worth && back >= shortfall || stake == worth + 1,
            covered == back || stake == worth + 1,
            rate * shortfall < worth * one_attos() + one_attos(),
            stake * one_attos() < covered * rate + rate,
    ;
    if stake > 0 {
        lemma_product_nonnegative(stake - 1, one_attos());
        lemma_trunc_div_floor((stake - 1) * one_attos(), rate);
        let under = trunc_div((stake - 1) * one_attos(), rate);
        assert(under < shortfall) by (nonlinear_arith)
            requires
                rate > 0,
                shortfall >= 0,
                stake == worth && back >= shortfall || stake == worth + 1 && back < shortfall,
                worth * one_attos() <= rate * shortfall,
                back * rate <= worth * one_attos(),
                worth * one_attos() < back * rate + rate,
                under * rate <= (stake - 1) * one_attos(),
                one_attos() > 0,
        ;
    }
}

/// The lesser of two numbers.
pub open spec fn lesser(a: int, b: int) -> int {
    if a > b {
        b
    } else {
        a
    }
}

impl UsdState {
    /// The stablecoin's fair price in staked collateral: one over the
    /// staked collateral's price in USD.
    pub open spec fn usdexrd(self, rate: int) -> Option<int> {
        div_opt(Some(one_attos()), self.rescaled_oracle(rate))
    }

    /// Where the market price `spot` stands: `None` within the band; else
    /// the band's edge to steer to, the fair price, and whether the market
    /// is too high.
    pub open spec fn aa_poke(self, spot: int, now: int, rate: int) -> Result<
        Option<(int, int, bool)>,
        UsdError,
    > {
        if self.fl_active || self.fm_active {
            Err(UsdError::FlashAlreadyActive)
        } else if rate <= 0 {
            Err(UsdError::InvalidRate)
        } else if !self.oracle_fresh(now) {
            Err(UsdError::StaleOracle)
        } else {
            let fair = self.usdexrd(rate);
            let upper = mul_opt(fair, Some(self.upper_bound));
            if upper is None {
                Err(UsdError::Arithmetic)
            } else if spot > upper.unwrap() {
                Ok(Some((upper.unwrap(), fair.unwrap(), true)))
            } else {
                match mul_opt(fair, Some(self.lower_bound)) {
                    None => Err(UsdError::Arithmetic),
                    Some(lower) => if spot < lower {
                        Ok(Some((lower, fair.unwrap(), false)))
                    } else {
                        Ok(None)
                    },
                }
            }
        }
    }

    /// The most stablecoin that may be minted while the total ratio stays
    /// at `bp` and the total debt under the ceiling. The first bound is the
    /// collateral's worth over `bp` less the debt, each step rounded toward
    /// zero, so that a mint of all of it can leave the ratio an atto under
    /// `bp`.
    pub open spec fn mint_room(self, rate: int) -> Option<int> {
        let by_ratio = div_opt(
            sub_opt(self.collateral_usd(rate), mul_spec(self.liabilities_total, self.bp)),
            Some(self.bp),
        );
        let by_ceiling = sub_spec(self.maximum_minted, self.liabilities_total);
        match (by_ratio, by_ceiling) {
            (Some(a), Some(b)) => Some(lesser(a, b)),
            _ => None,
        }
    }

    /// Minting toward the peg, at most `size`. A correction mints less than
    /// the collateral is worth and less than the debt that is outstanding:
    /// one that would not is refused as incoherent, and so is every one
    /// while there is no debt.
    pub open spec fn woke_mint(self, size: int, rate: int) -> Result<
        (UsdState, WokeState),
        UsdError,
    > {
        match self.mint_room(rate) {
            None => Err(UsdError::Arithmetic),
            Some(room) => {
                let mint = lesser(room, size);
                match add_spec(self.liabilities_total, mint) {
                    None => Err(UsdError::Arithmetic),
                    Some(total) => if mint < 0 {
                        Err(UsdError::IssuanceCeilingExceeded)
                    } else if !(mint < self.collateral_usd(rate).unwrap() && mint
                        < self.liabilities_total) {
                        Err(UsdError::Incoherence)
                    } else {
                        Ok((UsdState { liabilities_total: total, ..self }, WokeState::Minted(mint)))
                    },
                }
            },
        }
    }

    /// Releasing `size` staked collateral toward the peg: from the pool
    /// where it reaches; else the base asset that the shortfall costs at the
    /// redemption rate is set aside to be staked, and the release is owed
    /// after. It is refused only where the base pool does not hold that
    /// much.
    pub open spec fn woke_release(self, size: int, rate: int) -> Result<
        (UsdState, WokeState),
        UsdError,
    > {
        if size <= self.exrd {
            match sub_spec(self.exrd, size) {
                None => Err(UsdError::Arithmetic),
                Some(left) => Ok((UsdState { exrd: left, ..self }, WokeState::Released(size))),
            }
        } else {
            let reqxrd = match sub_spec(size, self.exrd) {
                Some(shortfall) => stake_for(shortfall, rate),
                None => None,
            };
            match sub_opt(Some(self.xrd), reqxrd) {
                None => Err(UsdError::Arithmetic),
                Some(left) => if reqxrd.unwrap() > self.xrd {
                    Err(UsdError::InsufficientBacking)
                } else {
                    Ok(
                        (
                            UsdState { xrd: left, ..self },
                            WokeState::Stake { xrd: reqxrd.unwrap(), release: size },
                        ),
                    )
                },
            }
        }
    }

    /// The correction for a market that is too high where `direction`, too
    /// low otherwise: minting needs the total ratio above `bp`, releasing
    /// needs it above `ep`. With no debt at all the collateral is above any
    /// ratio.
    pub open spec fn aa_woke(self, size: int, direction: bool, now: int, rate: int) -> Result<
        (UsdState, WokeState),
        UsdError,
    > {
        if size < 0 {
            Err(UsdError::InvalidAmount)
        } else if rate <= 0 {
            Err(UsdError::InvalidRate)
        } else if !self.oracle_fresh(now) {
            Err(UsdError::StaleOracle)
        } else {
            let bound = if direction {
                self.bp
            } else {
                self.ep
            };
            match ratio_above(self.collateral_usd(rate), Some(self.liabilities_total), bound) {
                None => Err(UsdError::Arithmetic),
                Some(false) => Ok((self, WokeState::Idle)),
                Some(true) => if direction {
                    self.woke_mint(size, rate)
                } else {
                    self.woke_release(size, rate)
                },
            }
        }
    }

    /// Booking `staked` staked collateral that staking returned, and
    /// releasing `release` of the pool.
    pub open spec fn aa_woke_staked(self, staked: int, release: int) -> Result<UsdState, UsdError> {
        if staked < 0 || release < 0 {
            Err(UsdError::InvalidAmount)
        } else {
            let held = add_spec(self.exrd, staked);
            let left = sub_opt(held, Some(release));
            if left is None {
                Err(UsdError::Arithmetic)
            } else if release > held.unwrap() {
                Err(UsdError::InsufficientBacking)
            } else {
                Ok(UsdState { exrd: left.unwrap(), ..self })
            }
        }
    }

    /// Booking what the correction brought back: staked collateral where
    /// `direction`, else stablecoin, which is retired from the total debt.
    pub open spec fn aa_choke(self, ret: int, profit: int, direction: bool) -> Result<
        UsdState,
        UsdError,
    > {
        if ret < 0 || profit < 0 {
            Err(UsdError::InvalidAmount)
        } else if direction {
            match add_spec(self.exrd, ret) {
                None => Err(UsdError::Arithmetic),
                Some(held) => Ok(UsdState { exrd: held, ..self }),
            }
        } else {
            match sub_spec(self.liabilities_total, ret) {
                None => Err(UsdError::Arithmetic),
                Some(total) => Ok(UsdState { liabilities_total: total, ..self }),
            }
        }
    }
}

impl UsdState {
    /// A correction leaves a valid ledger valid: what it releases or sets
    /// aside, the pools hold.
    pub proof fn law_woke_keeps_valid(self, size: int, direction: bool, now: int, rate: int)
        requires
            self.wf(),
            self.aa_woke(size, direction, now, rate) is Ok,
        ensures
            self.aa_woke(size, direction, now, rate).unwrap().0.wf(),
    {
    }

    /// Booking staked collateral and releasing from it leaves a valid
    /// ledger valid.
    pub proof fn law_woke_staked_keeps_valid(self, staked: int, release: int)
        requires
            self.wf(),
            self.aa_woke_staked(staked, release) is Ok,
        ensures
            self.aa_woke_staked(staked, release).unwrap().wf(),
    {
    }

    /// Booking what a correction brought back leaves a valid ledger valid.
    pub proof fn law_choke_keeps_valid(self, ret: int, profit: int, direction: bool)
        requires
            self.wf(),
            self.aa_choke(ret, profit, direction) is Ok,
        ensures
            self.aa_choke(ret, profit, direction).unwrap().wf(),
    {
    }
}

impl Usd {
    /// Says whether the market price `spot` of the stablecoin in staked
    /// collateral calls for a correction: if so, the price to steer to, the
    /// fair price, and whether the market is too high.
    pub fn aa_poke(&self, spot: Decimal, now: i64, exrdxrd: Decimal) -> (r: Result<
        Option<(Decimal, Decimal, bool)>,
        UsdError,
    >)
        ensures
            match r {
                Ok(Some(t)) => self@.aa_poke(spot@, now as int, exrdxrd@) == Ok::<
                    Option<(int, int, bool)>,
                    UsdError,
                >(Some((t.0@, t.1@, t.2))),
                Ok(None) => self@.aa_poke(spot@, now as int, exrdxrd@) == Ok::<
                    Option<(int, int, bool)>,
                    UsdError,
                >(None),
                Err(e) => self@.aa_poke(spot@, now as int, exrdxrd@) == Err::<
                    Option<(int, int, bool)>,
                    UsdError,
                >(e),
            },
    {
        if self.fl_active || self.fm_active {
            return Err(UsdError::FlashAlreadyActive);
        }
        if !exrdxrd.is_positive() {
            return Err(UsdError::InvalidRate);
        }
        let rescaled = match self.guarded_get_rescaled_oracle(now, exrdxrd)? {
            Some(p) => p,
            None => {
                return Err(UsdError::StaleOracle);
            },
        };
        let usdexrd = Decimal::one().over(rescaled)?;
        let upper = usdexrd.times(self.upper_bound)?;
        if spot.gt(&upper) {
            return Ok(Some((upper, usdexrd, true)));
        }
        let lower = usdexrd.times(self.lower_bound)?;
        if spot.lt(&lower) {
            Ok(Some((lower, usdexrd, false)))
        } else {
            Ok(None)
        }
    }

    /// Hands out what the correction of the size and direction given trades
    /// with, if the safety ratio allows one.
    pub fn aa_woke(&mut self, size: Decimal, direction: bool, now: i64, exrdxrd: Decimal) -> (r:
        Result<Woke, UsdError>)
        ensures
            match r {
                Ok(woke) => old(self)@.aa_woke(size@, direction, now as int, exrdxrd@) == Ok::<
                    (UsdState, WokeState),
                    UsdError,
                >((final(self)@, woke@)),
                Err(e) => {
                    &&& old(self)@.aa_woke(size@, direction, now as int, exrdxrd@) == Err::<
                        (UsdState, WokeState),
                        UsdError,
                    >(e)
                    &&& *final(self) == *old(self)
                },
            },
            old(self)@.wf() ==> final(self)@.wf(),
    {
        if size.is_negative() {
            return Err(UsdError::InvalidAmount);
        }
        if !exrdxrd.is_positive() {
            return Err(UsdError::InvalidRate);
        }
        if self.guarded_get_oracle(now).is_none() {
            return Err(UsdError::StaleOracle);
        }
        let au = self.collateral_usd(exrdxrd)?;
        let lu = self.liabilities_total;
        if direction {
            if !exceeds_ratio(au, lu, self.bp)? {
                return Ok(Woke::Idle);
            }
            let by_ratio = au.minus(lu.times(self.bp)?)?.over(self.bp)?;
            let by_ceiling = self.maximum_minted.minus(self.liabilities_total)?;
            let room = if by_ratio.gt(&by_ceiling) {
                by_ceiling
            } else {
                by_ratio
            };
            let mint = if room.gt(&size) {
                size
            } else {
                room
            };
            let total = self.liabilities_total.plus(mint)?;
            if mint.is_negative() {
                return Err(UsdError::IssuanceCeilingExceeded);
            }
            if !(mint.lt(&au) && mint.lt(&lu)) {
                return Err(UsdError::Incoherence);
            }
            self.liabilities_total = total;
            Ok(Woke::Minted(mint))
        } else {
            if !exceeds_ratio(au, lu, self.ep)? {
                return Ok(Woke::Idle);
            }
            if size.le(&self.exrd_vault) {
                let left = self.exrd_vault.minus(size)?;
                self.exrd_vault = left;
                Ok(Woke::Released(size))
            } else {
                let diff = size.minus(self.exrd_vault)?;
                let worth = exrdxrd.times(diff)?;
                let back = worth.over(exrdxrd)?;
                let reqxrd = if back.ge(&diff) {
                    worth
                } else {
                    worth.plus(Decimal::from_attos(1))?
                };
                let left = self.xrd_vault.minus(reqxrd)?;
                if reqxrd.gt(&self.xrd_vault) {
                    return Err(UsdError::InsufficientBacking);
                }
                self.xrd_vault = left;
                Ok(Woke::Stake { xrd: reqxrd, release: size })
            }
        }
    }

    /// Books `staked` staked collateral that staking returned and releases
    /// `release` to the caller. Gives the amount released.
    pub fn aa_woke_staked(&mut self, staked: Decimal, release: Decimal) -> (r: Result<
        Decimal,
        UsdError,
    >)
        ensures
            match r {
                Ok(out) => {
                    &&& old(self)@.aa_woke_staked(staked@, release@) == Ok::<UsdState, UsdError>(
                        final(self)@,
                    )
                    &&& out == release
                },
                Err(e) => {
                    &&& old(self)@.aa_woke_staked(staked@, release@) == Err::<UsdState, UsdError>(
                        e,
                    )
                    &&& *final(self) == *old(self)
                },
            },
            old(self)@.wf() ==> final(self)@.wf(),
    {
        if staked.is_negative() || release.is_negative() {
            return Err(UsdError::InvalidAmount);
        }
        let held = self.exrd_vault.plus(staked)?;
        let left = held.minus(release)?;
        if release.gt(&held) {
            return Err(UsdError::InsufficientBacking);
        }
        self.exrd_vault = left;
        Ok(release)
    }

    /// Books `ret` that the correction brought back, and gives the profit
    /// to forward to the treasury.
    pub fn aa_choke(&mut self, ret: Decimal, profit: Decimal, direction: bool) -> (r: Result<
        Decimal,
        UsdError,
    >)
        ensures
            match r {
                Ok(out) => {
                    &&& old(self)@.aa_choke(ret@, profit@, direction) == Ok::<UsdState, UsdError>(
                        final(self)@,
                    )
                    &&& out == profit
                },
                Err(e) => {
                    &&& old(self)@.aa_choke(ret@, profit@, direction) == Err::<
                        UsdState,
                        UsdError,
                    >(e)
                    &&& *final(self) == *old(self)
                },
            },
            old(self)@.wf() ==> final(self)@.wf(),
    {
        if ret.is_negative() || profit.is_negative() {
            return Err(UsdError::InvalidAmount);
        }
        if direction {
            let held = self.exrd_vault.plus(ret)?;
            self.exrd_vault = held;
        } else {
            let total = self.liabilities_total.minus(ret)?;
            self.liabilities_total = total;
        }
        Ok(profit)
    }
}

} // verus!
