//! The ledger: pooled collateral in two forms, total debt, the share totals
//! of both, the protocol's parameters and the positions.
//!
//! [`UsdState`] is the ledger as mathematics sees it, every amount an `int`
//! counted in attos; [`Usd`] is the ledger that runs, and its view is a
//! `UsdState`. What an operation does is stated once, over `UsdState`, and
//! the running code is proved to do exactly that.
//!
//! The clock and the redemption rate of the staked collateral come from
//! outside: each operation that needs one takes it as an argument. The
//! rate is base asset for each unit of staked collateral, and whatever is
//! given a rate that is not positive refuses it.

use vstd::prelude::*;
use crate::decimal::Decimal;
use crate::decimal::add_opt;
use crate::decimal::div_opt;
use crate::decimal::div_spec;
use crate::decimal::mul_opt;
use crate::decimal::mul_spec;
use crate::decimal::one_attos;
use crate::error::UsdError;
use crate::error::computes;
use crate::position::Ecdp;
use crate::position::EcdpState;
use crate::position::positions_view;
use crate::position::shares_nonnegative;
use crate::position::sum_assets;
use crate::position::sum_liabilities;

verus! {

/// Seconds after which an unrefreshed oracle price is stale.
pub open spec fn staleness_window() -> int {
    300
}

/// The ledger's state, amounts in attos and times in seconds.
pub struct UsdState {
    /// Whether the ledger still holds the authority to mint and burn.
    pub powered: bool,
    /// Collateral shares issued to all positions.
    pub assets_lp_total: int,
    /// Debt shares issued to all positions.
    pub liabilities_lp_total: int,
    /// Outstanding debt in stablecoin.
    pub liabilities_total: int,
    /// Staked collateral held.
    pub exrd: int,
    /// Base-asset collateral held.
    pub xrd: int,
    /// Ratio above which collateral may be released to defend the peg.
    pub ep: int,
    /// Minimum collateralization ratio of a position.
    pub mcr: int,
    /// Ratio above which stablecoin may be minted to defend the peg.
    pub bp: int,
    /// Lowest tolerated market price, as a fraction of the oracle's.
    pub lower_bound: int,
    /// Highest tolerated market price, as a fraction of the oracle's.
    pub upper_bound: int,
    /// Issuance ceiling.
    pub maximum_minted: int,
    /// Whether a flash loan is open.
    pub fl_active: bool,
    /// Whether a flash mint is open.
    pub fm_active: bool,
    /// What a flash operation owes per unit taken.
    pub flash_fee: int,
    /// Price of the base asset in USD.
    pub oracle: int,
    /// When the price was last written.
    pub oracle_timestamp: int,
    /// The circuit breaker.
    pub stopped: bool,
    /// The positions, each at the place that is its identifier.
    pub positions: Seq<EcdpState>,
}

/// A refusal for a redemption rate that is not positive, else what `m`
/// computes.
pub open spec fn rated(rate: int, m: Option<int>) -> Result<int, UsdError> {
    if rate <= 0 {
        Err(UsdError::InvalidRate)
    } else {
        or_arithmetic(m)
    }
}

/// A refusal for a missing number, the number otherwise.
pub open spec fn or_arithmetic(m: Option<int>) -> Result<int, UsdError> {
    match m {
        Some(v) => Ok(v),
        None => Err(UsdError::Arithmetic),
    }
}

/// Whether `worth` stands to `owed` in a ratio of at least `least`. Where
/// nothing is owed it does, whatever the worth: no debt cannot be short of
/// collateral. `None` where a side is missing or the ratio cannot be
/// computed.
pub open spec fn ratio_at_least(worth: Option<int>, owed: Option<int>, least: int) -> Option<
    bool,
> {
    match (worth, owed) {
        (Some(w), Some(o)) => if o == 0 {
            Some(true)
        } else {
            match div_spec(w, o) {
                Some(ratio) => Some(ratio >= least),
                None => None,
            }
        },
        _ => None,
    }
}

/// Whether `worth` stands to `owed` in a ratio above `bound`. Where nothing
/// is owed it does. `None` where a side is missing or the ratio cannot be
/// computed.
pub open spec fn ratio_above(worth: Option<int>, owed: Option<int>, bound: int) -> Option<bool> {
    match (worth, owed) {
        (Some(w), Some(o)) => if o == 0 {
            Some(true)
        } else {
            match div_spec(w, o) {
                Some(ratio) => Some(ratio > bound),
                None => None,
            }
        },
        _ => None,
    }
}

/// Whether an exec answer shows the modelled one, with
/// [`UsdError::Arithmetic`] standing for a missing one.
pub open spec fn decides(r: Result<bool, UsdError>, m: Option<bool>) -> bool {
    match r {
        Ok(b) => m == Some(b),
        Err(e) => e == UsdError::Arithmetic && m is None,
    }
}

/// Whether `worth` stands to `owed` in a ratio of at least `least`.
pub(crate) fn holds_ratio(worth: Decimal, owed: Decimal, least: Decimal) -> (r: Result<
    bool,
    UsdError,
>)
    ensures
        decides(r, ratio_at_least(Some(worth@), Some(owed@), least@)),
{
    if owed.is_zero() {
        return Ok(true);
    }
    let ratio = worth.over(owed)?;
    Ok(ratio.ge(&least))
}

/// Whether `worth` stands to `owed` in a ratio above `bound`.
pub(crate) fn exceeds_ratio(worth: Decimal, owed: Decimal, bound: Decimal) -> (r: Result<
    bool,
    UsdError,
>)
    ensures
        decides(r, ratio_above(Some(worth@), Some(owed@), bound@)),
{
    if owed.is_zero() {
        return Ok(true);
    }
    let ratio = worth.over(owed)?;
    Ok(ratio.gt(&bound))
}

/// Whether an exec result shows the modelled one.
pub open spec fn yields(r: Result<Decimal, UsdError>, m: Result<int, UsdError>) -> bool {
    match r {
        Ok(d) => m == Ok::<int, UsdError>(d@),
        Err(e) => m == Err::<int, UsdError>(e),
    }
}

impl UsdState {
    /// The ledger's invariant: the pools are not overdrawn, the price is
    /// positive, no position holds negative shares, and each share total is
    /// the sum over the positions.
    pub open spec fn wf(self) -> bool {
        &&& self.xrd >= 0
        &&& self.exrd >= 0
        &&& self.oracle > 0
        &&& shares_nonnegative(self.positions)
        &&& self.assets_lp_total == sum_assets(self.positions)
        &&& self.liabilities_lp_total == sum_liabilities(self.positions)
    }

    /// Whether operations on positions are open.
    pub open spec fn running(self) -> bool {
        !self.stopped && self.powered
    }

    /// Whether the price is fresh at time `now`.
    pub open spec fn oracle_fresh(self, now: int) -> bool {
        now - self.oracle_timestamp <= staleness_window()
    }

    /// The price, if fresh.
    pub open spec fn guarded_oracle(self, now: int) -> Option<int> {
        if self.oracle_fresh(now) {
            Some(self.oracle)
        } else {
            None
        }
    }

    /// A refusal for a redemption rate that is not positive, then for a
    /// stale price, else what `m` computes.
    pub open spec fn quote(self, now: int, rate: int, m: Option<int>) -> Result<int, UsdError> {
        if rate <= 0 {
            Err(UsdError::InvalidRate)
        } else if !self.oracle_fresh(now) {
            Err(UsdError::StaleOracle)
        } else {
            or_arithmetic(m)
        }
    }

    /// The price of the staked collateral in USD.
    pub open spec fn rescaled_oracle(self, rate: int) -> Option<int> {
        mul_spec(self.oracle, rate)
    }

    /// The collateral's worth in base asset: the base asset held, plus the
    /// staked collateral at the redemption rate.
    pub open spec fn collateral_xrd(self, rate: int) -> Option<int> {
        add_opt(Some(self.xrd), mul_spec(rate, self.exrd))
    }

    /// The collateral's worth in USD.
    pub open spec fn collateral_usd(self, rate: int) -> Option<int> {
        add_opt(
            mul_spec(self.xrd, self.oracle),
            mul_opt(mul_spec(self.exrd, self.oracle), Some(rate)),
        )
    }

    /// What one collateral share is worth in USD: the oracle price while no
    /// share is issued.
    pub open spec fn asset_lp_usd(self, rate: int) -> Option<int> {
        if self.assets_lp_total == 0 {
            Some(self.oracle)
        } else {
            div_opt(self.collateral_usd(rate), Some(self.assets_lp_total))
        }
    }

    /// What one collateral share is worth in base asset: one while no share
    /// is issued.
    pub open spec fn asset_lp_xrd(self, rate: int) -> Option<int> {
        if self.assets_lp_total == 0 {
            Some(one_attos())
        } else {
            div_opt(self.collateral_xrd(rate), Some(self.assets_lp_total))
        }
    }

    /// What one debt share owes in stablecoin: one while no share is issued.
    pub open spec fn liability_lp_usd(self) -> Option<int> {
        if self.liabilities_lp_total == 0 {
            Some(one_attos())
        } else {
            div_opt(Some(self.liabilities_total), Some(self.liabilities_lp_total))
        }
    }

    /// The total collateralization ratio: the collateral's worth in USD
    /// over the total debt. It has no value where there is no debt.
    pub open spec fn tcr(self, rate: int) -> Option<int> {
        div_opt(self.collateral_usd(rate), Some(self.liabilities_total))
    }

    /// A fresh ledger: parameters at their defaults, nothing held, nothing
    /// owed, no position.
    pub open spec fn genesis(
        lower_bound: int,
        upper_bound: int,
        flash_fee: int,
        oracle: int,
        now: int,
    ) -> UsdState {
        UsdState {
            powered: true,
            assets_lp_total: 0,
            liabilities_lp_total: 0,
            liabilities_total: 0,
            exrd: 0,
            xrd: 0,
            ep: 1_200_000_000_000_000_000,
            mcr: 1_500_000_000_000_000_000,
            bp: 1_700_000_000_000_000_000,
            lower_bound,
            upper_bound,
            maximum_minted: 1_000_000 * one_attos(),
            fl_active: false,
            fm_active: false,
            flash_fee,
            oracle,
            oracle_timestamp: now,
            stopped: false,
            positions: Seq::empty(),
        }
    }
}

/// The ledger.
#[derive(Clone, Debug)]
pub struct Usd {
    pub(crate) powered: bool,
    pub(crate) assets_lp_total: Decimal,
    pub(crate) liabilities_lp_total: Decimal,
    pub(crate) liabilities_total: Decimal,
    pub(crate) exrd_vault: Decimal,
    pub(crate) xrd_vault: Decimal,
    pub(crate) ep: Decimal,
    pub(crate) mcr: Decimal,
    pub(crate) bp: Decimal,
    pub(crate) lower_bound: Decimal,
    pub(crate) upper_bound: Decimal,
    pub(crate) maximum_minted: Decimal,
    pub(crate) fl_active: bool,
    pub(crate) fm_active: bool,
    pub(crate) flash_fee: Decimal,
    pub(crate) oracle: Decimal,
    pub(crate) oracle_timestamp: i64,
    pub(crate) stopped: bool,
    pub(crate) positions: Vec<Ecdp>,
}

impl View for Usd {
    type V = UsdState;

    open(crate) spec fn view(&self) -> UsdState {
        UsdState {
            powered: self.powered,
            assets_lp_total: self.assets_lp_total@,
            liabilities_lp_total: self.liabilities_lp_total@,
            liabilities_total: self.liabilities_total@,
            exrd: self.exrd_vault@,
            xrd: self.xrd_vault@,
            ep: self.ep@,
            mcr: self.mcr@,
            bp: self.bp@,
            lower_bound: self.lower_bound@,
            upper_bound: self.upper_bound@,
            maximum_minted: self.maximum_minted@,
            fl_active: self.fl_active,
            fm_active: self.fm_active,
            flash_fee: self.flash_fee@,
            oracle: self.oracle@,
            oracle_timestamp: self.oracle_timestamp as int,
            stopped: self.stopped,
            positions: positions_view(self.positions@),
        }
    }
}

impl Usd {
    /// A fresh ledger priced at `oracle_init` at time `now`. Refused where
    /// the price is not positive.
    pub fn from_nothing(
        lower_bound: Decimal,
        upper_bound: Decimal,
        flash_fee: Decimal,
        oracle_init: Decimal,
        now: i64,
    ) -> (r: Result<Usd, UsdError>)
        ensures
            match r {
                Ok(usd) => oracle_init@ > 0 && usd@ == UsdState::genesis(
                    lower_bound@,
                    upper_bound@,
                    flash_fee@,
                    oracle_init@,
                    now as int,
                ) && usd@.wf(),
                Err(e) => oracle_init@ <= 0 && e == UsdError::InvalidPrice,
            },
    {
        if !oracle_init.is_positive() {
            return Err(UsdError::InvalidPrice);
        }
        let usd = Usd {
            powered: true,
            assets_lp_total: Decimal::zero(),
            liabilities_lp_total: Decimal::zero(),
            liabilities_total: Decimal::zero(),
            exrd_vault: Decimal::zero(),
            xrd_vault: Decimal::zero(),
            ep: Decimal::from_attos(1_200_000_000_000_000_000),
            mcr: Decimal::from_attos(1_500_000_000_000_000_000),
            bp: Decimal::from_attos(1_700_000_000_000_000_000),
            lower_bound,
            upper_bound,
            maximum_minted: Decimal::from_units(1_000_000),
            fl_active: false,
            fm_active: false,
            flash_fee,
            oracle: oracle_init,
            oracle_timestamp: now,
            stopped: false,
            positions: Vec::new(),
        };
        assert(usd@.positions =~= Seq::empty());
        Ok(usd)
    }

    /// Winds the ledger down: hands out all collateral, staked form first,
    /// and gives up the authority to mint and burn.
    pub fn to_nothing(&mut self) -> (r: (Decimal, Decimal))
        ensures
            r.0@ == old(self)@.exrd,
            r.1@ == old(self)@.xrd,
            final(self)@ == (UsdState { powered: false, exrd: 0, xrd: 0, ..old(self)@ }),
            old(self)@.wf() ==> final(self)@.wf(),
    {
        let out = (self.exrd_vault, self.xrd_vault);
        self.powered = false;
        self.exrd_vault = Decimal::zero();
        self.xrd_vault = Decimal::zero();
        out
    }

    /// The share totals, the total debt and the oracle price.
    pub fn look_within(&self) -> (r: (Decimal, Decimal, Decimal, Decimal))
        ensures
            r.0@ == self@.assets_lp_total,
            r.1@ == self@.liabilities_lp_total,
            r.2@ == self@.liabilities_total,
            r.3@ == self@.oracle,
    {
        (self.assets_lp_total, self.liabilities_lp_total, self.liabilities_total, self.oracle)
    }

    /// The collateral held: staked form, then base asset.
    pub fn vaults(&self) -> (r: (Decimal, Decimal))
        ensures
            r.0@ == self@.exrd,
            r.1@ == self@.xrd,
    {
        (self.exrd_vault, self.xrd_vault)
    }

    /// Whether the circuit breaker is set, a flash loan is open, and a flash
    /// mint is open.
    pub fn flags(&self) -> (r: (bool, bool, bool))
        ensures
            r.0 == self@.stopped,
            r.1 == self@.fl_active,
            r.2 == self@.fm_active,
    {
        (self.stopped, self.fl_active, self.fm_active)
    }

    /// How many positions there are: identifiers run from zero up to this.
    pub fn ecdp_count(&self) -> (r: u64)
        ensures
            r == self@.positions.len(),
    {
        self.positions.len() as u64
    }

    /// The position with identifier `id`, if there is one.
    pub fn ecdp(&self, id: u64) -> (r: Option<Ecdp>)
        ensures
            match r {
                Some(e) => id < self@.positions.len() && e@ == self@.positions[id as int],
                None => id >= self@.positions.len(),
            },
    {
        if id < self.positions.len() as u64 {
            Some(self.positions[id as usize])
        } else {
            None
        }
    }

    /// Sets or releases the circuit breaker.
    pub fn start_stop(&mut self, input: bool)
        ensures
            final(self)@ == (UsdState { stopped: input, ..old(self)@ }),
            old(self)@.wf() ==> final(self)@.wf(),
    {
        self.stopped = input;
    }

    /// The parameters: `ep`, `mcr`, `bp`, the lower and upper bound, the
    /// issuance ceiling and the flash fee.
    pub fn get_params(&self) -> (r: (Decimal, Decimal, Decimal, Decimal, Decimal, Decimal, Decimal))
        ensures
            r.0@ == self@.ep,
            r.1@ == self@.mcr,
            r.2@ == self@.bp,
            r.3@ == self@.lower_bound,
            r.4@ == self@.upper_bound,
            r.5@ == self@.maximum_minted,
            r.6@ == self@.flash_fee,
    {
        (
            self.ep,
            self.mcr,
            self.bp,
            self.lower_bound,
            self.upper_bound,
            self.maximum_minted,
            self.flash_fee,
        )
    }

    /// Replaces the parameters.
    pub fn set_params(
        &mut self,
        ep: Decimal,
        mcr: Decimal,
        bp: Decimal,
        lb: Decimal,
        ub: Decimal,
        mm: Decimal,
        ff: Decimal,
    )
        ensures
            final(self)@ == (UsdState {
                ep: ep@,
                mcr: mcr@,
                bp: bp@,
                lower_bound: lb@,
                upper_bound: ub@,
                maximum_minted: mm@,
                flash_fee: ff@,
                ..old(self)@
            }),
            old(self)@.wf() ==> final(self)@.wf(),
    {
        self.ep = ep;
        self.mcr = mcr;
        self.bp = bp;
        self.lower_bound = lb;
        self.upper_bound = ub;
        self.maximum_minted = mm;
        self.flash_fee = ff;
    }

    /// The collateral's worth in USD at redemption rate `exrdxrd`.
    pub(crate) fn collateral_usd(&self, exrdxrd: Decimal) -> (r: Result<Decimal, UsdError>)
        ensures
            computes(r, self@.collateral_usd(exrdxrd@)),
    {
        let usd_xrd = self.xrd_vault.times(self.oracle)?;
        let usd_exrd = self.exrd_vault.times(self.oracle)?.times(exrdxrd)?;
        usd_xrd.plus(usd_exrd)
    }

    /// The collateral's worth in base asset at redemption rate `exrdxrd`.
    pub(crate) fn collateral_xrd(&self, exrdxrd: Decimal) -> (r: Result<Decimal, UsdError>)
        ensures
            computes(r, self@.collateral_xrd(exrdxrd@)),
    {
        let staked = exrdxrd.times(self.exrd_vault)?;
        self.xrd_vault.plus(staked)
    }

    /// The total collateralization ratio at time `now` and redemption rate
    /// `exrdxrd`: the collateral's worth in USD over the total debt. Where
    /// the total debt is zero the ratio has no value, and the answer is
    /// [`UsdError::Arithmetic`].
    pub fn tcr(&self, now: i64, exrdxrd: Decimal) -> (r: Result<Decimal, UsdError>)
        ensures
            yields(r, self@.quote(now as int, exrdxrd@, self@.tcr(exrdxrd@))),
    {
        if !exrdxrd.is_positive() {
            return Err(UsdError::InvalidRate);
        }
        if self.guarded_get_oracle(now).is_none() {
            return Err(UsdError::StaleOracle);
        }
        let au = self.collateral_usd(exrdxrd)?;
        au.over(self.liabilities_total)
    }

    /// The total collateralization ratio with its two sides: the ratio, the
    /// collateral's worth in USD, and the total debt.
    pub fn tcr_au_lu(&self, now: i64, exrdxrd: Decimal) -> (r: Result<
        (Decimal, Decimal, Decimal),
        UsdError,
    >)
        ensures
            match r {
                Ok(t) => {
                    &&& self@.quote(now as int, exrdxrd@, self@.tcr(exrdxrd@)) == Ok::<int, UsdError>(t.0@)
                    &&& self@.collateral_usd(exrdxrd@) == Some(t.1@)
                    &&& t.2@ == self@.liabilities_total
                },
                Err(e) => self@.quote(now as int, exrdxrd@, self@.tcr(exrdxrd@)) == Err::<int, UsdError>(e),
            },
    {
        if !exrdxrd.is_positive() {
            return Err(UsdError::InvalidRate);
        }
        if self.guarded_get_oracle(now).is_none() {
            return Err(UsdError::StaleOracle);
        }
        let au = self.collateral_usd(exrdxrd)?;
        let tcr = au.over(self.liabilities_total)?;
        Ok((tcr, au, self.liabilities_total))
    }

    /// What one collateral share is worth in USD.
    pub fn asset_lp_usd(&self, now: i64, exrdxrd: Decimal) -> (r: Result<Decimal, UsdError>)
        ensures
            yields(r, self@.quote(now as int, exrdxrd@, self@.asset_lp_usd(exrdxrd@))),
    {
        if !exrdxrd.is_positive() {
            return Err(UsdError::InvalidRate);
        }
        if self.guarded_get_oracle(now).is_none() {
            return Err(UsdError::StaleOracle);
        }
        if self.assets_lp_total.is_zero() {
            return Ok(self.oracle);
        }
        let au = self.collateral_usd(exrdxrd)?;
        au.over(self.assets_lp_total)
    }

    /// What one collateral share is worth in base asset.
    pub fn asset_lp_xrd(&self, exrdxrd: Decimal) -> (r: Result<Decimal, UsdError>)
        ensures
            yields(r, rated(exrdxrd@, self@.asset_lp_xrd(exrdxrd@))),
    {
        if !exrdxrd.is_positive() {
            return Err(UsdError::InvalidRate);
        }
        if self.assets_lp_total.is_zero() {
            return Ok(Decimal::one());
        }
        let ax = self.collateral_xrd(exrdxrd)?;
        ax.over(self.assets_lp_total)
    }

    /// What one debt share owes in stablecoin.
    pub fn liability_lp_usd(&self) -> (r: Result<Decimal, UsdError>)
        ensures
            computes(r, self@.liability_lp_usd()),
    {
        if self.liabilities_lp_total.is_zero() {
            return Ok(Decimal::one());
        }
        self.liabilities_total.over(self.liabilities_lp_total)
    }

    /// The oracle price and the time it was written.
    pub fn get_oracle(&self) -> (r: (Decimal, i64))
        ensures
            r.0@ == self@.oracle,
            r.1 == self@.oracle_timestamp,
    {
        (self.oracle, self.oracle_timestamp)
    }

    /// The oracle price, unless it is stale at time `now`: written more than
    /// five minutes ago.
    pub fn guarded_get_oracle(&self, now: i64) -> (r: Option<Decimal>)
        ensures
            crate::decimal::shows(r, self@.guarded_oracle(now as int)),
    {
        let age: i128 = (now as i128) - (self.oracle_timestamp as i128);
        if age > 300 {
            None
        } else {
            Some(self.oracle)
        }
    }

    /// The price of the staked collateral in USD at a positive redemption
    /// rate, unless the oracle is stale.
    pub fn guarded_get_rescaled_oracle(&self, now: i64, exrdxrd: Decimal) -> (r: Result<
        Option<Decimal>,
        UsdError,
    >)
        ensures
            match r {
                Ok(Some(p)) => exrdxrd@ > 0 && self@.oracle_fresh(now as int)
                    && self@.rescaled_oracle(exrdxrd@) == Some(p@),
                Ok(None) => exrdxrd@ > 0 && !self@.oracle_fresh(now as int),
                Err(e) => if exrdxrd@ <= 0 {
                    e == UsdError::InvalidRate
                } else {
                    self@.oracle_fresh(now as int) && self@.rescaled_oracle(exrdxrd@) is None
                        && e == UsdError::Arithmetic
                },
            },
    {
        if !exrdxrd.is_positive() {
            return Err(UsdError::InvalidRate);
        }
        match self.guarded_get_oracle(now) {
            Some(xrdusd) => {
                let rescaled = xrdusd.times(exrdxrd)?;
                Ok(Some(rescaled))
            },
            None => Ok(None),
        }
    }
}

} // verus!
