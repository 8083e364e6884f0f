//! What holds of the ledger whatever is done to it: the share totals are
//! what the positions hold, shares times their price give back the pooled
//! value up to rounding, positions leave `mint` and `uncollateralize`
//! solvent, a burn and the mint that undoes it cancel, and yield never
//! lowers the collateral share price.

use vstd::prelude::*;
use crate::arith::lemma_conversion_bounded;
use crate::arith::lemma_product_nonnegative;
use crate::arith::lemma_trunc_div_floor;
use crate::arith::lemma_trunc_div_monotone;
use crate::decimal::max_attos;
use crate::decimal::one_attos;
use crate::decimal::trunc_div;
use crate::flash::FlashState;
use crate::error::UsdError;
use crate::ledger::UsdState;
use crate::oracle::OracleSource;
use crate::peg::WokeState;
use crate::peg::law_stake_covers_shortfall;
use crate::peg::stake_for;
use crate::position::lemma_sums_bound;
use crate::position::lemma_sums_nonnegative;
use crate::position::sum_assets;
use crate::position::sum_liabilities;

verus! {

/// One operation on the ledger, with what it is given.
pub enum Step {
    FirstEcdp { input: int, rate: int },
    OpenEcdp { fee: int },
    Mint { id: int, lia_lp: int, now: int, rate: int },
    Burn { id: int, amount: int },
    Collateralize { id: int, amount: int, exrd: bool, rate: int },
    Uncollateralize { id: int, ass_lp: int, now: int, rate: int },
    Liquidate { ted: int, tor: int, now: int, rate: int },
    FlashLoanStart { size: int, res: bool },
    FlashLoanEnd { amount: int, exrd: bool, flash: FlashState, rate: int },
    FlashMintStart { size: int },
    FlashMintEnd { amount: int, flash: FlashState },
    Woke { size: int, direction: bool, now: int, rate: int },
    WokeStaked { staked: int, release: int },
    Choke { ret: int, profit: int, direction: bool },
    SetOracle { exch: int, source: OracleSource, now: int },
}

/// The state that a result carries, or `before` where the operation was
/// refused.
pub open spec fn state_or<T>(r: Result<(UsdState, T), UsdError>, before: UsdState) -> UsdState {
    match r {
        Ok(t) => t.0,
        Err(_) => before,
    }
}

/// The state that a result is, or `before` where the operation was refused.
pub open spec fn or_before(r: Result<UsdState, UsdError>, before: UsdState) -> UsdState {
    match r {
        Ok(after) => after,
        Err(_) => before,
    }
}

impl UsdState {
    /// The ledger after one operation: as before where it is refused.
    pub open spec fn step(self, op: Step) -> UsdState {
        match op {
            Step::FirstEcdp { input, rate } => or_before(self.first_ecdp(input, rate), self),
            Step::OpenEcdp { fee } => or_before(self.open_ecdp(fee), self),
            Step::Mint { id, lia_lp, now, rate } => state_or(
                self.ecdp_mint(id, lia_lp, now, rate),
                self,
            ),
            Step::Burn { id, amount } => or_before(self.ecdp_burn(id, amount), self),
            Step::Collateralize { id, amount, exrd, rate } => or_before(
                self.ecdp_collateralize(id, amount, exrd, rate),
                self,
            ),
            Step::Uncollateralize { id, ass_lp, now, rate } => match self.ecdp_uncollateralize(
                id,
                ass_lp,
                now,
                rate,
            ) {
                Ok(t) => t.0,
                Err(_) => self,
            },
            Step::Liquidate { ted, tor, now, rate } => state_or(
                self.liquidate(ted, tor, now, rate),
                self,
            ),
            Step::FlashLoanStart { size, res } => state_or(self.flash_loan_start(size, res), self),
            Step::FlashLoanEnd { amount, exrd, flash, rate } => or_before(
                self.flash_loan_end(amount, exrd, flash, rate),
                self,
            ),
            Step::FlashMintStart { size } => state_or(self.flash_mint_start(size), self),
            Step::FlashMintEnd { amount, flash } => or_before(
                self.flash_mint_end(amount, flash),
                self,
            ),
            Step::Woke { size, direction, now, rate } => state_or(
                self.aa_woke(size, direction, now, rate),
                self,
            ),
            Step::WokeStaked { staked, release } => or_before(
                self.aa_woke_staked(staked, release),
                self,
            ),
            Step::Choke { ret, profit, direction } => or_before(
                self.aa_choke(ret, profit, direction),
                self,
            ),
            Step::SetOracle { exch, source, now } => or_before(
                self.set_oracle(exch, source, now),
                self,
            ),
        }
    }

    /// The ledger after a sequence of operations, first to last.
    pub open spec fn run(self, ops: Seq<Step>) -> UsdState
        decreases ops.len(),
    {
        if ops.len() == 0 {
            self
        } else {
            self.run(ops.drop_last()).step(ops.last())
        }
    }

    /// One operation, whichever, leaves a valid ledger valid.
    pub proof fn law_step_keeps_valid(self, op: Step)
        requires
            self.wf(),
        ensures
            self.step(op).wf(),
    {
        match op {
            Step::FirstEcdp { input, rate } => {
                if self.first_ecdp(input, rate) is Ok {
                    self.law_first_ecdp_keeps_valid(input, rate);
                }
            },
            Step::OpenEcdp { fee } => {
                if self.open_ecdp(fee) is Ok {
                    self.law_open_ecdp_keeps_valid(fee);
                }
            },
            Step::Mint { id, lia_lp, now, rate } => {
                if self.ecdp_mint(id, lia_lp, now, rate) is Ok {
                    self.law_mint_keeps_valid(id, lia_lp, now, rate);
                }
            },
            Step::Burn { id, amount } => {
                if self.ecdp_burn(id, amount) is Ok {
                    self.law_burn_keeps_valid(id, amount);
                }
            },
            Step::Collateralize { id, amount, exrd, rate } => {
                if self.ecdp_collateralize(id, amount, exrd, rate) is Ok {
                    self.law_collateralize_keeps_valid(id, amount, exrd, rate);
                }
            },
            Step::Uncollateralize { id, ass_lp, now, rate } => {
                if self.ecdp_uncollateralize(id, ass_lp, now, rate) is Ok {
                    self.law_uncollateralize_keeps_valid(id, ass_lp, now, rate);
                }
            },
            Step::Liquidate { ted, tor, now, rate } => {
                if self.liquidate(ted, tor, now, rate) is Ok {
                    self.law_liquidate_keeps_valid(ted, tor, now, rate);
                }
            },
            _ => {},
        }
    }

    /// Conservation: whatever operations a valid ledger goes through, in
    /// whatever order, each share total stays the sum of what the positions
    /// hold, no position holds negative shares, and no pool is overdrawn.
    pub proof fn law_conservation(self, ops: Seq<Step>)
        requires
            self.wf(),
        ensures
            self.run(ops).wf(),
            self.run(ops).assets_lp_total == sum_assets(self.run(ops).positions),
            self.run(ops).liabilities_lp_total == sum_liabilities(self.run(ops).positions),
        decreases ops.len(),
    {
        if ops.len() > 0 {
            self.law_conservation(ops.drop_last());
            self.run(ops.drop_last()).law_step_keeps_valid(ops.last());
        }
    }

    /// Conservation of debt: in a valid ledger with debt shares
    /// outstanding and a total debt that is not negative, the debt shares
    /// of all positions, valued at the debt share price, give the total
    /// debt up to rounding. The shortfall, before the product is scaled
    /// back by `10^18`, is less than the number of shares: under one atto of
    /// stablecoin for each whole share.
    pub proof fn law_debt_conserved(self)
        requires
            self.wf(),
            self.liabilities_lp_total != 0,
            self.liabilities_total >= 0,
            self.liability_lp_usd() is Some,
        ensures
            0 <= self.liabilities_total * one_attos() - sum_liabilities(self.positions)
                * self.liability_lp_usd().unwrap() < sum_liabilities(self.positions),
    {
        lemma_sums_nonnegative(self.positions);
        let total = self.liabilities_total;
        let shares = self.liabilities_lp_total;
        lemma_product_nonnegative(total, one_attos());
        lemma_trunc_div_floor(total * one_attos(), shares);
        let price = trunc_div(total * one_attos(), shares);
        assert(shares * price == price * shares) by (nonlinear_arith);
    }

    /// Conservation of collateral: in a valid ledger with collateral shares
    /// outstanding, at a positive redemption rate, the collateral shares of
    /// all positions, valued at the collateral share price in USD, give the
    /// collateral's worth in USD up to rounding. The shortfall, before the
    /// product is scaled back by `10^18`, is less than the number of shares.
    pub proof fn law_collateral_conserved(self, rate: int)
        requires
            self.wf(),
            rate > 0,
            self.assets_lp_total != 0,
            self.asset_lp_usd(rate) is Some,
        ensures
            self.collateral_usd(rate) is Some,
            0 <= self.collateral_usd(rate).unwrap() * one_attos() - sum_assets(self.positions)
                * self.asset_lp_usd(rate).unwrap() < sum_assets(self.positions),
    {
        lemma_sums_nonnegative(self.positions);
        self.lemma_collateral_nonnegative(rate);
        let worth = self.collateral_usd(rate).unwrap();
        let shares = self.assets_lp_total;
        lemma_product_nonnegative(worth, one_attos());
        lemma_trunc_div_floor(worth * one_attos(), shares);
        let price = trunc_div(worth * one_attos(), shares);
        assert(shares * price == price * shares) by (nonlinear_arith);
    }

    /// In a valid ledger, at a positive redemption rate, the collateral is
    /// worth no negative amount, in USD or in base asset.
    pub proof fn lemma_collateral_nonnegative(self, rate: int)
        requires
            self.wf(),
            rate > 0,
        ensures
            self.collateral_usd(rate) matches Some(v) ==> v >= 0,
            self.collateral_xrd(rate) matches Some(v) ==> v >= 0,
    {
        lemma_product_nonnegative(self.xrd, self.oracle);
        lemma_product_nonnegative(self.exrd, self.oracle);
        lemma_product_nonnegative(trunc_div(self.exrd * self.oracle, one_attos()), rate);
        lemma_product_nonnegative(rate, self.exrd);
    }

    /// Solvency of `mint`: the position leaves a successful mint at or
    /// above the minimum ratio, or owing nothing, at the share prices that
    /// the call was quoted.
    pub proof fn law_mint_solvent(self, id: int, lia_lp: int, now: int, rate: int)
        requires
            self.ecdp_mint(id, lia_lp, now, rate) is Ok,
        ensures
            ({
                let after = self.ecdp_mint(id, lia_lp, now, rate).unwrap().0.positions[id];
                self.position_sound(Some(after.assets_lp), Some(after.liabilities_lp), rate)
                    == Some(true)
            }),
    {
    }

    /// Solvency of `uncollateralize`: the position leaves a successful
    /// withdrawal at or above the minimum ratio, or owing nothing, at the
    /// share prices that the call was quoted.
    pub proof fn law_uncollateralize_solvent(self, id: int, ass_lp: int, now: int, rate: int)
        requires
            self.ecdp_uncollateralize(id, ass_lp, now, rate) is Ok,
        ensures
            ({
                let after = self.ecdp_uncollateralize(id, ass_lp, now, rate).unwrap().0.positions[id];
                self.position_sound(Some(after.assets_lp), Some(after.liabilities_lp), rate)
                    == Some(true)
            }),
    {
    }

    /// A mint is neutral to the debt share price up to rounding: in a valid
    /// ledger whose total debt is not negative, and is zero where no debt
    /// share is outstanding, the price after a successful mint, where it
    /// can be computed, is at most the price before, and at most one atto
    /// under it once a whole share is outstanding. The collateral share
    /// price is not touched.
    pub proof fn law_mint_keeps_debt_price(self, id: int, lia_lp: int, now: int, rate: int)
        requires
            self.wf(),
            self.liabilities_total >= 0,
            self.liabilities_lp_total != 0 || self.liabilities_total == 0,
            self.ecdp_mint(id, lia_lp, now, rate) is Ok,
        ensures
            ({
                let after = self.ecdp_mint(id, lia_lp, now, rate).unwrap().0;
                &&& self.liability_lp_usd() matches Some(before)
                &&& before >= 0
                &&& after.liability_lp_usd() matches Some(p) ==> 0 <= p <= before
                &&& after.liability_lp_usd() matches Some(p) ==> (after.liabilities_lp_total
                    >= one_attos() ==> p >= before - 1)
                &&& after.asset_lp_usd(rate) == self.asset_lp_usd(rate)
            }),
    {
        lemma_sums_nonnegative(self.positions);
        let total = self.liabilities_total;
        let shares = self.liabilities_lp_total;
        let before = self.liability_lp_usd().unwrap();
        if shares == 0 {
            lemma_unit_price(lia_lp);
            lemma_price_at_par(lia_lp);
        } else {
            lemma_product_nonnegative(total, one_attos());
            lemma_trunc_div_floor(total * one_attos(), shares);
            lemma_product_nonnegative(lia_lp, before);
            lemma_trunc_div_floor(lia_lp * before, one_attos());
            let minted = trunc_div(lia_lp * before, one_attos());
            let after = self.ecdp_mint(id, lia_lp, now, rate).unwrap().0;
            assert(after.liabilities_total == total + minted);
            assert(after.liabilities_lp_total == shares + lia_lp);
            lemma_product_nonnegative(total + minted, one_attos());
            lemma_trunc_div_floor((total + minted) * one_attos(), shares + lia_lp);
            let p = trunc_div((total + minted) * one_attos(), shares + lia_lp);
            assert(p <= before) by (nonlinear_arith)
                requires
                    shares > 0,
                    lia_lp > 0,
                    before >= 0,
                    minted >= 0,
                    total >= 0,
                    before * shares <= total * one_attos(),
                    total * one_attos() < before * shares + shares,
                    minted * one_attos() <= lia_lp * before,
                    p * (shares + lia_lp) <= (total + minted) * one_attos(),
            ;
            if shares + lia_lp >= one_attos() {
                assert(p >= before - 1) by (nonlinear_arith)
                    requires
                        shares > 0,
                        lia_lp > 0,
                        shares + lia_lp >= one_attos(),
                        before * shares <= total * one_attos(),
                        lia_lp * before < minted * one_attos() + one_attos(),
                        (total + minted) * one_attos() < p * (shares + lia_lp) + (shares + lia_lp),
                ;
            }
        }
    }

    /// Solvency of `mint` at the prices that it leaves: in a valid ledger
    /// whose total debt is not negative, and is zero where no debt share is
    /// outstanding, the position after a successful mint, judged anew on
    /// the ledger as the mint left it, is at or above the minimum ratio
    /// wherever the ratio can be computed.
    pub proof fn law_mint_solvent_after(self, id: int, lia_lp: int, now: int, rate: int)
        requires
            self.wf(),
            self.liabilities_total >= 0,
            self.liabilities_lp_total != 0 || self.liabilities_total == 0,
            self.ecdp_mint(id, lia_lp, now, rate) is Ok,
        ensures
            ({
                let after = self.ecdp_mint(id, lia_lp, now, rate).unwrap().0;
                after.position_sound(
                    Some(after.positions[id].assets_lp),
                    Some(after.positions[id].liabilities_lp),
                    rate,
                ) != Some(false)
            }),
    {
        self.law_mint_keeps_debt_price(id, lia_lp, now, rate);
        self.law_mint_solvent(id, lia_lp, now, rate);
        self.lemma_share_worth_nonnegative(rate);
        lemma_sums_bound(self.positions, id);
        let after = self.ecdp_mint(id, lia_lp, now, rate).unwrap().0;
        let pos = after.positions[id];
        let sound_after = after.position_sound(
            Some(pos.assets_lp),
            Some(pos.liabilities_lp),
            rate,
        );
        if sound_after is Some {
            let worth = trunc_div(self.asset_lp_usd(rate).unwrap() * pos.assets_lp, one_attos());
            let price_before = self.liability_lp_usd().unwrap();
            let price_after = after.liability_lp_usd().unwrap();
            let owed_before = trunc_div(pos.liabilities_lp * price_before, one_attos());
            let owed_after = trunc_div(pos.liabilities_lp * price_after, one_attos());
            lemma_product_nonnegative(self.asset_lp_usd(rate).unwrap(), pos.assets_lp);
            lemma_product_nonnegative(pos.liabilities_lp, price_after);
            lemma_product_nonnegative(pos.liabilities_lp, price_before);
            assert(pos.liabilities_lp * price_after <= pos.liabilities_lp * price_before)
                by (nonlinear_arith)
                requires
                    pos.liabilities_lp >= 0,
                    price_after <= price_before,
            ;
            lemma_trunc_div_monotone(
                pos.liabilities_lp * price_after,
                pos.liabilities_lp * price_before,
                one_attos(),
            );
            lemma_product_nonnegative(worth, one_attos());
            if owed_after > 0 {
                lemma_quotient_antitone(worth * one_attos(), owed_after, owed_before);
            }
        }
    }

    /// Solvency of `uncollateralize` at the prices that it leaves: in a
    /// valid ledger with a total debt that is not negative, a withdrawal
    /// touches neither the debt nor its shares, so that the position owes
    /// after it what it owed before; and where the collateral share price
    /// in USD has not fallen, which only rounding can make it do and then
    /// by a few attos (`law_uncollateralize_keeps_share_worth`), or the
    /// position has no collateral share left, the position after a
    /// successful withdrawal, judged anew on the ledger as the withdrawal
    /// left it, is at or above the minimum ratio wherever the ratio can be
    /// computed.
    pub proof fn law_uncollateralize_solvent_after(self, id: int, ass_lp: int, now: int, rate: int)
        requires
            self.wf(),
            self.liabilities_total >= 0,
            self.ecdp_uncollateralize(id, ass_lp, now, rate) is Ok,
        ensures
            ({
                let after = self.ecdp_uncollateralize(id, ass_lp, now, rate).unwrap().0;
                let pos = after.positions[id];
                &&& after.liabilities_total == self.liabilities_total
                &&& after.liabilities_lp_total == self.liabilities_lp_total
                &&& pos.liabilities_lp == self.positions[id].liabilities_lp
                &&& after.position_owed(Some(pos.liabilities_lp)) == self.position_owed(
                    Some(pos.liabilities_lp),
                )
                &&& (pos.assets_lp == 0 || (after.asset_lp_usd(rate) is Some
                    && after.asset_lp_usd(rate).unwrap() >= self.asset_lp_usd(rate).unwrap()))
                    ==> after.position_sound(
                    Some(pos.assets_lp),
                    Some(pos.liabilities_lp),
                    rate,
                ) != Some(false)
            }),
    {
        self.law_uncollateralize_solvent(id, ass_lp, now, rate);
        self.law_uncollateralize_keeps_valid(id, ass_lp, now, rate);
        self.lemma_share_worth_nonnegative(rate);
        lemma_sums_nonnegative(self.positions);
        let after = self.ecdp_uncollateralize(id, ass_lp, now, rate).unwrap().0;
        let pos = after.positions[id];
        if after.asset_lp_usd(rate) is Some && (pos.assets_lp == 0 || after.asset_lp_usd(
            rate,
        ).unwrap() >= self.asset_lp_usd(rate).unwrap()) && after.position_sound(
            Some(pos.assets_lp),
            Some(pos.liabilities_lp),
            rate,
        ) is Some {
            let price = self.asset_lp_usd(rate).unwrap();
            let price_after = after.asset_lp_usd(rate).unwrap();
            let owed = self.position_owed(Some(pos.liabilities_lp)).unwrap();
            if owed != 0 {
                let debt_price = self.liability_lp_usd().unwrap();
                if self.liabilities_lp_total != 0 {
                    lemma_product_nonnegative(self.liabilities_total, one_attos());
                    lemma_trunc_div_floor(
                        self.liabilities_total * one_attos(),
                        self.liabilities_lp_total,
                    );
                }
                lemma_product_nonnegative(pos.liabilities_lp, debt_price);
                lemma_product_nonnegative(price, pos.assets_lp);
                after.lemma_share_worth_nonnegative(rate);
                assert(price * pos.assets_lp <= price_after * pos.assets_lp) by (nonlinear_arith)
                    requires
                        pos.assets_lp >= 0,
                        price <= price_after || pos.assets_lp == 0,
                ;
                assert(price_after * pos.assets_lp >= 0) by (nonlinear_arith)
                    requires
                        pos.assets_lp >= 0,
                        price_after >= 0 || pos.assets_lp == 0,
                ;
                lemma_trunc_div_monotone(
                    price * pos.assets_lp,
                    price_after * pos.assets_lp,
                    one_attos(),
                );
                let worth = trunc_div(price * pos.assets_lp, one_attos());
                let worth_after = trunc_div(price_after * pos.assets_lp, one_attos());
                assert(worth * one_attos() <= worth_after * one_attos()) by (nonlinear_arith)
                    requires
                        worth <= worth_after,
                ;
                lemma_product_nonnegative(worth, one_attos());
                lemma_trunc_div_monotone(worth * one_attos(), worth_after * one_attos(), owed);
            }
        }
    }

    /// At an oracle price of exactly one and a positive redemption rate, a
    /// collateral share of a valid ledger whose pools are representable is
    /// worth in USD what it is worth in base asset.
    pub proof fn lemma_share_worth_at_unit_price(self, rate: int)
        requires
            self.wf(),
            self.oracle == one_attos(),
            rate > 0,
            self.xrd <= max_attos(),
            self.exrd <= max_attos(),
        ensures
            self.asset_lp_usd(rate) == self.asset_lp_xrd(rate),
    {
        lemma_unit_price(self.xrd);
        lemma_unit_price(self.exrd);
        assert(self.exrd * rate == rate * self.exrd) by (nonlinear_arith);
        lemma_product_nonnegative(rate, self.exrd);
    }

    /// Solvency of `uncollateralize` at the prices that it leaves, at an
    /// oracle price of exactly one: there no rounding comes between the
    /// worth in base asset and the worth in USD, and in a valid ledger with
    /// representable pools and a total debt that is not negative the
    /// position after a successful
    /// withdrawal, judged anew on the ledger as the withdrawal left it, is
    /// at or above the minimum ratio wherever the ratio can be computed.
    pub proof fn law_uncollateralize_solvent_at_unit_price(
        self,
        id: int,
        ass_lp: int,
        now: int,
        rate: int,
    )
        requires
            self.wf(),
            self.oracle == one_attos(),
            self.xrd <= max_attos(),
            self.exrd <= max_attos(),
            self.liabilities_total >= 0,
            self.ecdp_uncollateralize(id, ass_lp, now, rate) is Ok,
        ensures
            ({
                let after = self.ecdp_uncollateralize(id, ass_lp, now, rate).unwrap().0;
                after.position_sound(
                    Some(after.positions[id].assets_lp),
                    Some(after.positions[id].liabilities_lp),
                    rate,
                ) != Some(false)
            }),
    {
        let after = self.ecdp_uncollateralize(id, ass_lp, now, rate).unwrap().0;
        self.law_uncollateralize_keeps_valid(id, ass_lp, now, rate);
        self.law_uncollateralize_keeps_share_price(id, ass_lp, now, rate);
        self.law_uncollateralize_solvent_after(id, ass_lp, now, rate);
        self.lemma_share_worth_at_unit_price(rate);
        after.lemma_share_worth_at_unit_price(rate);
        lemma_sums_bound(after.positions, id);
    }

    /// Share-price neutrality: where a burn succeeds, and a mint of the
    /// debt shares that the burn retired succeeds after it, the positions
    /// and the debt share total are as they were before the burn. Where
    /// that mint gives out the stablecoin amount that was burned, the whole
    /// ledger is as it was.
    pub proof fn law_burn_then_mint_restores(self, id: int, amount: int, now: int, rate: int)
        requires
            self.ecdp_burn(id, amount) is Ok,
            ({
                let burned = self.ecdp_burn(id, amount).unwrap();
                let retired = self.positions[id].liabilities_lp
                    - burned.positions[id].liabilities_lp;
                burned.ecdp_mint(id, retired, now, rate) is Ok
            }),
        ensures
            ({
                let burned = self.ecdp_burn(id, amount).unwrap();
                let retired = self.positions[id].liabilities_lp
                    - burned.positions[id].liabilities_lp;
                let (after, minted) = burned.ecdp_mint(id, retired, now, rate).unwrap();
                &&& after.positions == self.positions
                &&& after.liabilities_lp_total == self.liabilities_lp_total
                &&& after.assets_lp_total == self.assets_lp_total
                &&& after.liabilities_total == self.liabilities_total - amount + minted
                &&& minted == amount ==> after == self
            }),
    {
        let burned = self.ecdp_burn(id, amount).unwrap();
        let retired = self.positions[id].liabilities_lp - burned.positions[id].liabilities_lp;
        let (after, minted) = burned.ecdp_mint(id, retired, now, rate).unwrap();
        assert(after.positions =~= self.positions);
    }

    /// Share-price neutrality at par: in a ledger whose total debt equals
    /// its debt share total, so that a debt share owes exactly one
    /// stablecoin, a successful burn followed by a successful mint of the
    /// shares retired gives out exactly the amount burned and leaves the
    /// ledger as it was.
    pub proof fn law_burn_then_mint_at_par(self, id: int, amount: int, now: int, rate: int)
        requires
            self.liabilities_total == self.liabilities_lp_total,
            self.ecdp_burn(id, amount) is Ok,
            ({
                let burned = self.ecdp_burn(id, amount).unwrap();
                let retired = self.positions[id].liabilities_lp
                    - burned.positions[id].liabilities_lp;
                burned.ecdp_mint(id, retired, now, rate) is Ok
            }),
        ensures
            ({
                let burned = self.ecdp_burn(id, amount).unwrap();
                let retired = self.positions[id].liabilities_lp
                    - burned.positions[id].liabilities_lp;
                let (after, minted) = burned.ecdp_mint(id, retired, now, rate).unwrap();
                &&& retired == amount
                &&& minted == amount
                &&& after == self
            }),
    {
        let burned = self.ecdp_burn(id, amount).unwrap();
        let retired = self.positions[id].liabilities_lp - burned.positions[id].liabilities_lp;
        if self.liabilities_total != 0 {
            lemma_price_at_par(self.liabilities_total);
        }
        lemma_unit_price(amount);
        assert(retired == amount);
        if burned.liabilities_total != 0 {
            lemma_price_at_par(burned.liabilities_total);
        }
        self.law_burn_then_mint_restores(id, amount, now, rate);
    }

    /// Monotonic collateral yield: in a valid ledger with collateral shares
    /// outstanding, a higher redemption rate never gives a lower
    /// collateral share price in base asset.
    pub proof fn law_yield_monotone(self, rate: int, higher: int)
        requires
            self.wf(),
            self.assets_lp_total != 0,
            0 < rate <= higher,
            self.asset_lp_xrd(rate) is Some,
            self.asset_lp_xrd(higher) is Some,
        ensures
            self.asset_lp_xrd(rate).unwrap() <= self.asset_lp_xrd(higher).unwrap(),
    {
        lemma_sums_nonnegative(self.positions);
        self.lemma_worth_monotone(rate, higher);
        let low = self.collateral_xrd(rate).unwrap();
        let high = self.collateral_xrd(higher).unwrap();
        assert(low * one_attos() <= high * one_attos()) by (nonlinear_arith)
            requires
                low <= high,
        ;
        lemma_product_nonnegative(low, one_attos());
        lemma_trunc_div_monotone(low * one_attos(), high * one_attos(), self.assets_lp_total);
    }

    /// Strictly monotonic collateral yield: in a valid ledger with
    /// collateral shares outstanding, a redemption rate that raises the
    /// collateral's worth in base asset by at least one atto for each whole
    /// share outstanding raises the collateral share price in base asset.
    pub proof fn law_yield_raises_share_price(self, rate: int, higher: int)
        requires
            self.wf(),
            self.assets_lp_total != 0,
            0 < rate < higher,
            self.asset_lp_xrd(rate) is Some,
            self.asset_lp_xrd(higher) is Some,
            (self.collateral_xrd(higher).unwrap() - self.collateral_xrd(rate).unwrap())
                * one_attos() >= self.assets_lp_total,
        ensures
            self.asset_lp_xrd(rate).unwrap() < self.asset_lp_xrd(higher).unwrap(),
    {
        lemma_sums_nonnegative(self.positions);
        self.lemma_worth_monotone(rate, higher);
        let low = self.collateral_xrd(rate).unwrap();
        let high = self.collateral_xrd(higher).unwrap();
        let shares = self.assets_lp_total;
        lemma_product_nonnegative(low, one_attos());
        lemma_product_nonnegative(high, one_attos());
        lemma_trunc_div_floor(low * one_attos(), shares);
        lemma_trunc_div_floor(high * one_attos(), shares);
        let p = trunc_div(low * one_attos(), shares);
        let q = trunc_div(high * one_attos(), shares);
        assert(p < q) by (nonlinear_arith)
            requires
                shares > 0,
                p * shares <= low * one_attos(),
                high * one_attos() < q * shares + shares,
                (high - low) * one_attos() >= shares,
        ;
    }

    /// A deposit never lowers the collateral share price: in a valid ledger
    /// with collateral shares outstanding, the price in base asset after a
    /// successful deposit, where it can be computed, is at least the price
    /// before, at the same redemption rate.
    pub proof fn law_collateralize_keeps_share_price(
        self,
        id: int,
        amount: int,
        exrd: bool,
        rate: int,
    )
        requires
            self.wf(),
            self.assets_lp_total != 0,
            self.ecdp_collateralize(id, amount, exrd, rate) is Ok,
        ensures
            ({
                let after = self.ecdp_collateralize(id, amount, exrd, rate).unwrap();
                &&& self.asset_lp_xrd(rate) is Some
                &&& after.asset_lp_xrd(rate) is Some ==> after.asset_lp_xrd(rate).unwrap()
                    >= self.asset_lp_xrd(rate).unwrap()
            }),
    {
        let after = self.ecdp_collateralize(id, amount, exrd, rate).unwrap();
        if after.asset_lp_xrd(rate) is Some {
            lemma_sums_nonnegative(self.positions);
            self.lemma_share_price_nonnegative(rate);
            self.lemma_collateral_nonnegative(rate);
            let shares = self.assets_lp_total;
            let worth = self.collateral_xrd(rate).unwrap();
            let price = self.asset_lp_xrd(rate).unwrap();
            let deposit = UsdState::deposit_worth(amount, exrd, rate).unwrap();
            let added = trunc_div(deposit * one_attos(), price);
            lemma_product_nonnegative(rate, amount);
            lemma_product_nonnegative(worth, one_attos());
            lemma_trunc_div_floor(worth * one_attos(), shares);
            lemma_product_nonnegative(deposit, one_attos());
            lemma_trunc_div_floor(deposit * one_attos(), price);
            let worth_after = after.collateral_xrd(rate).unwrap();
            if exrd {
                lemma_product_nonnegative(rate, self.exrd);
                lemma_floor_superadditive(rate * self.exrd, rate * amount, one_attos());
                assert(rate * (self.exrd + amount) == rate * self.exrd + rate * amount)
                    by (nonlinear_arith);
                lemma_product_nonnegative(rate, self.exrd + amount);
                lemma_trunc_div_floor(rate * (self.exrd + amount), one_attos());
                lemma_trunc_div_floor(rate * self.exrd, one_attos());
                lemma_trunc_div_floor(rate * amount, one_attos());
            }
            assert(worth_after >= worth + deposit);
            lemma_product_nonnegative(worth_after, one_attos());
            lemma_trunc_div_floor(worth_after * one_attos(), shares + added);
            let price_after = trunc_div(worth_after * one_attos(), shares + added);
            assert(price_after >= price) by (nonlinear_arith)
                requires
                    shares > 0,
                    added >= 0,
                    price * shares <= worth * one_attos(),
                    added * price <= deposit * one_attos(),
                    worth_after >= worth + deposit,
                    worth_after * one_attos() < price_after * (shares + added) + (shares + added),
            ;
        }
    }

    /// A withdrawal never lowers the collateral share price: in a valid
    /// ledger, the price in base asset after a successful withdrawal that
    /// leaves shares outstanding, where it can be computed, is at least the
    /// price before, at the same redemption rate.
    pub proof fn law_uncollateralize_keeps_share_price(
        self,
        id: int,
        ass_lp: int,
        now: int,
        rate: int,
    )
        requires
            self.wf(),
            self.ecdp_uncollateralize(id, ass_lp, now, rate) is Ok,
        ensures
            ({
                let after = self.ecdp_uncollateralize(id, ass_lp, now, rate).unwrap().0;
                &&& self.asset_lp_xrd(rate) is Some
                &&& (after.assets_lp_total != 0 && after.asset_lp_xrd(rate) is Some)
                    ==> after.asset_lp_xrd(rate).unwrap() >= self.asset_lp_xrd(rate).unwrap()
            }),
    {
        let (after, paid, rest) = self.ecdp_uncollateralize(id, ass_lp, now, rate).unwrap();
        lemma_sums_nonnegative(self.positions);
        lemma_sums_bound(self.positions, id);
        if after.assets_lp_total != 0 && after.asset_lp_xrd(rate) is Some {
            self.lemma_share_price_nonnegative(rate);
            self.lemma_collateral_nonnegative(rate);
            self.law_uncollateralize_keeps_valid(id, ass_lp, now, rate);
            after.lemma_collateral_nonnegative(rate);
            let shares = self.assets_lp_total;
            let worth = self.collateral_xrd(rate).unwrap();
            let price = self.asset_lp_xrd(rate).unwrap();
            let refund = trunc_div(ass_lp * price, one_attos());
            let staked = trunc_div(rate * self.exrd, one_attos());
            lemma_product_nonnegative(worth, one_attos());
            lemma_trunc_div_floor(worth * one_attos(), shares);
            lemma_product_nonnegative(ass_lp, price);
            lemma_trunc_div_floor(ass_lp * price, one_attos());
            lemma_product_nonnegative(rate, self.exrd);
            lemma_trunc_div_floor(rate * self.exrd, one_attos());
            let worth_after = after.collateral_xrd(rate).unwrap();
            if staked < refund {
                assert(rate * 0 == 0) by (nonlinear_arith);
                assert(worth_after == worth - refund);
            } else {
                let out = trunc_div(refund * one_attos(), rate);
                lemma_product_nonnegative(refund, one_attos());
                lemma_trunc_div_floor(refund * one_attos(), rate);
                crate::arith::lemma_conversion_bounded(refund, rate, self.exrd);
                let left = self.exrd - out;
                lemma_product_nonnegative(rate, left);
                lemma_trunc_div_floor(rate * left, one_attos());
                let staked_after = trunc_div(rate * left, one_attos());
                assert(staked_after >= staked - refund) by (nonlinear_arith)
                    requires
                        rate > 0,
                        left == self.exrd - out,
                        out * rate <= refund * one_attos(),
                        staked * one_attos() <= rate * self.exrd,
                        rate * left < staked_after * one_attos() + one_attos(),
                ;
                assert(worth_after >= worth - refund);
            }
            let shares_after = shares - ass_lp;
            lemma_product_nonnegative(worth_after, one_attos());
            lemma_trunc_div_floor(worth_after * one_attos(), shares_after);
            let price_after = trunc_div(worth_after * one_attos(), shares_after);
            assert(price_after >= price) by (nonlinear_arith)
                requires
                    shares_after > 0,
                    shares_after == shares - ass_lp,
                    price * shares <= worth * one_attos(),
                    refund * one_attos() <= ass_lp * price,
                    worth_after >= worth - refund,
                    worth_after * one_attos() < price_after * shares_after + shares_after,
            ;
        }
    }

    /// A withdrawal lowers the collateral share price in USD by rounding
    /// only: in a valid ledger, after a successful withdrawal that leaves
    /// shares outstanding, the price, where it can be computed, has fallen
    /// by at most one atto more than three, twice the rate and the oracle
    /// price together are to the shares left: by a few attos in a ledger of
    /// whole shares.
    pub proof fn law_uncollateralize_keeps_share_worth(
        self,
        id: int,
        ass_lp: int,
        now: int,
        rate: int,
    )
        requires
            self.wf(),
            self.ecdp_uncollateralize(id, ass_lp, now, rate) is Ok,
            self.ecdp_uncollateralize(id, ass_lp, now, rate).unwrap().0.assets_lp_total != 0,
            self.ecdp_uncollateralize(id, ass_lp, now, rate).unwrap().0.asset_lp_usd(rate)
                is Some,
        ensures
            ({
                let after = self.ecdp_uncollateralize(id, ass_lp, now, rate).unwrap().0;
                &&& self.asset_lp_usd(rate) is Some
                &&& (self.asset_lp_usd(rate).unwrap() - after.asset_lp_usd(rate).unwrap() - 1)
                    * after.assets_lp_total < 3 * one_attos() + 2 * rate + self.oracle
            }),
    {
        let after = self.ecdp_uncollateralize(id, ass_lp, now, rate).unwrap().0;
        self.law_uncollateralize_keeps_valid(id, ass_lp, now, rate);
        lemma_sums_nonnegative(self.positions);
        lemma_sums_nonnegative(after.positions);
        lemma_sums_bound(self.positions, id);
        lemma_payout_keeps_worth(
            self.xrd,
            self.exrd,
            self.oracle,
            rate,
            self.assets_lp_total,
            ass_lp,
        );
    }

    /// In a valid ledger, the collateral's worth in base asset does not
    /// fall as the redemption rate rises.
    pub proof fn lemma_worth_monotone(self, rate: int, higher: int)
        requires
            self.wf(),
            0 < rate <= higher,
            self.collateral_xrd(rate) is Some,
            self.collateral_xrd(higher) is Some,
        ensures
            0 <= self.collateral_xrd(rate).unwrap() <= self.collateral_xrd(higher).unwrap(),
    {
        lemma_product_nonnegative(rate, self.exrd);
        assert(rate * self.exrd <= higher * self.exrd) by (nonlinear_arith)
            requires
                rate <= higher,
                self.exrd >= 0,
        ;
        lemma_trunc_div_monotone(rate * self.exrd, higher * self.exrd, one_attos());
    }

    /// The backstop holds up to rounding: where a correction mints, with a
    /// positive backstop ratio, the collateral's worth is untouched, the
    /// total debt grows by what was minted, and the total ratio after it,
    /// where it can be computed, is at least `bp` less one atto once the
    /// total debt is a whole stablecoin or more.
    pub proof fn law_woke_mint_keeps_backstop(self, size: int, now: int, rate: int)
        requires
            self.bp > 0,
            self.aa_woke(size, true, now, rate) is Ok,
            self.aa_woke(size, true, now, rate).unwrap().1 is Minted,
        ensures
            ({
                let (after, woke) = self.aa_woke(size, true, now, rate).unwrap();
                &&& after.collateral_usd(rate) == self.collateral_usd(rate)
                &&& woke matches WokeState::Minted(m) && 0 <= m <= size
                    && after.liabilities_total == self.liabilities_total + m
                &&& (after.liabilities_total >= one_attos() && after.tcr(rate) is Some)
                    ==> after.tcr(rate).unwrap() >= self.bp - 1
            }),
    {
        let (after, woke) = self.aa_woke(size, true, now, rate).unwrap();
        let worth = self.collateral_usd(rate).unwrap();
        let debt = self.liabilities_total;
        let bp = self.bp;
        let minted = after.liabilities_total - debt;
        assert(woke == WokeState::Minted(minted));
        assert(debt > 0);
        let ratio = trunc_div(worth * one_attos(), debt);
        assert(ratio > bp);
        assert(worth >= 0 && worth * one_attos() >= 0) by (nonlinear_arith)
            requires
                debt > 0,
                ratio > 0,
                ratio == trunc_div(worth * one_attos(), debt),
                one_attos() > 0,
        {
            if worth < 0 {
                assert(worth * one_attos() < 0);
                assert((-(worth * one_attos())) / debt >= 0);
            }
        }
        lemma_trunc_div_floor(worth * one_attos(), debt);
        lemma_product_nonnegative(debt, bp);
        lemma_trunc_div_floor(debt * bp, one_attos());
        let covered = trunc_div(debt * bp, one_attos());
        assert(worth >= covered) by (nonlinear_arith)
            requires
                debt > 0,
                bp > 0,
                ratio > bp,
                ratio * debt <= worth * one_attos(),
                covered * one_attos() <= debt * bp,
                one_attos() > 0,
        ;
        let spare = worth - covered;
        lemma_product_nonnegative(spare, one_attos());
        lemma_trunc_div_floor(spare * one_attos(), bp);
        let by_ratio = trunc_div(spare * one_attos(), bp);
        assert(minted <= by_ratio);
        if after.liabilities_total >= one_attos() && after.tcr(rate) is Some {
            lemma_trunc_div_floor(worth * one_attos(), debt + minted);
            let left = trunc_div(worth * one_attos(), debt + minted);
            assert(left >= bp - 1) by (nonlinear_arith)
                requires
                    bp > 0,
                    minted >= 0,
                    minted <= by_ratio,
                    by_ratio * bp <= spare * one_attos(),
                    spare == worth - covered,
                    debt * bp < covered * one_attos() + one_attos(),
                    debt + minted >= one_attos(),
                    worth * one_attos() < left * (debt + minted) + (debt + minted),
            ;
        }
    }

    /// Staking covers the release: where a correction set base asset aside
    /// to be staked, in a ledger whose staked pool is not overdrawn, and
    /// staking returns at least what the amount converts into at the
    /// redemption rate, the release that is owed is paid in full, provided
    /// the pool can hold what came back. What was set aside is the least
    /// amount that converts into the shortfall, and the base pool held it.
    pub proof fn law_woke_stake_covers_release(
        self,
        size: int,
        now: int,
        rate: int,
        staked: int,
    )
        requires
            self.exrd >= 0,
            self.aa_woke(size, false, now, rate) is Ok,
            self.aa_woke(size, false, now, rate).unwrap().1 is Stake,
            staked >= trunc_div(
                self.aa_woke(size, false, now, rate).unwrap().1->xrd * one_attos(),
                rate,
            ),
            staked + self.exrd <= max_attos(),
        ensures
            ({
                let (after, woke) = self.aa_woke(size, false, now, rate).unwrap();
                let shortfall = size - self.exrd;
                &&& rate > 0
                &&& shortfall > 0
                &&& woke == (WokeState::Stake {
                    xrd: stake_for(shortfall, rate).unwrap(),
                    release: size,
                })
                &&& 0 <= woke->xrd <= self.xrd
                &&& after == (UsdState { xrd: self.xrd - woke->xrd, ..self })
                &&& trunc_div(woke->xrd * one_attos(), rate) >= shortfall
                &&& after.aa_woke_staked(staked, size) == Ok::<UsdState, UsdError>(
                    UsdState { exrd: self.exrd + staked - size, ..after },
                )
                &&& self.exrd + staked - size >= 0
            }),
    {
        law_stake_covers_shortfall(size - self.exrd, rate);
    }

    /// A burn is neutral to the debt share price up to rounding: in a valid
    /// ledger, where a successful burn leaves debt shares outstanding and a
    /// total debt that is not negative, the price after it, where it can be
    /// computed, differs from the price before by less than rounding
    /// accounts for. It rises by less than the shares before are to the
    /// shares after, and it falls by at most one atto more than the price
    /// is to the shares after: by an atto or two in a ledger of whole
    /// shares.
    pub proof fn law_burn_keeps_debt_price(self, id: int, amount: int)
        requires
            self.wf(),
            self.ecdp_burn(id, amount) is Ok,
            self.ecdp_burn(id, amount).unwrap().liabilities_lp_total != 0,
            self.ecdp_burn(id, amount).unwrap().liabilities_total >= 0,
        ensures
            ({
                let after = self.ecdp_burn(id, amount).unwrap();
                let shares = after.liabilities_lp_total;
                &&& self.liability_lp_usd() matches Some(before)
                &&& before > 0
                &&& shares > 0
                &&& after.liability_lp_usd() matches Some(p) ==> (p - before) * shares
                    < self.liabilities_lp_total
                &&& after.liability_lp_usd() matches Some(p) ==> (before - p - 1) * shares
                    < before
            }),
    {
        let after = self.ecdp_burn(id, amount).unwrap();
        self.law_burn_keeps_valid(id, amount);
        lemma_sums_nonnegative(self.positions);
        lemma_sums_nonnegative(after.positions);
        lemma_sums_bound(self.positions, id);
        let total = self.liabilities_total;
        let shares = self.liabilities_lp_total;
        let before = self.liability_lp_usd().unwrap();
        assert(shares > 0);
        assert(total >= 0);
        lemma_product_nonnegative(total, one_attos());
        lemma_trunc_div_floor(total * one_attos(), shares);
        assert(before != 0);
        lemma_product_nonnegative(amount, one_attos());
        lemma_trunc_div_floor(amount * one_attos(), before);
        let retired = trunc_div(amount * one_attos(), before);
        assert(after.liabilities_lp_total == shares - retired);
        assert(after.liabilities_total == total - amount);
        if after.liability_lp_usd() is Some {
            let left = shares - retired;
            lemma_product_nonnegative(total - amount, one_attos());
            lemma_trunc_div_floor((total - amount) * one_attos(), left);
            let p = trunc_div((total - amount) * one_attos(), left);
            assert((p - before) * left < shares) by (nonlinear_arith)
                requires
                    left > 0,
                    left == shares - retired,
                    before > 0,
                    total * one_attos() < before * shares + shares,
                    retired * before <= amount * one_attos(),
                    p * left <= (total - amount) * one_attos(),
            ;
            assert((before - p - 1) * left < before) by (nonlinear_arith)
                requires
                    left > 0,
                    left == shares - retired,
                    before > 0,
                    before * shares <= total * one_attos(),
                    amount * one_attos() < retired * before + before,
                    (total - amount) * one_attos() < p * left + left,
            ;
        }
    }

    /// The ledger after an atomic operation made of the steps `ops`: the
    /// host commits what the steps did only if no flash receipt is left
    /// unredeemed, and discards all of it otherwise.
    pub open spec fn transact(self, ops: Seq<Step>) -> UsdState {
        let end = self.run(ops);
        if end.fl_active || end.fm_active {
            self
        } else {
            end
        }
    }

    /// Flash atomicity of whole operations: between atomic operations no
    /// flash is ever open, and an operation that leaves a flash mint or
    /// loan open leaves the ledger, its total debt included, exactly as it
    /// found it.
    pub proof fn law_flash_atomicity(self, ops: Seq<Step>)
        requires
            !self.fl_active,
            !self.fm_active,
        ensures
            !self.transact(ops).fl_active,
            !self.transact(ops).fm_active,
            (self.run(ops).fm_active || self.run(ops).fl_active) ==> self.transact(ops) == self,
            self.wf() ==> self.transact(ops).wf(),
    {
        if self.wf() {
            self.law_conservation(ops);
        }
    }

    /// Flash atomicity: a flash mint that is opened changes nothing of the
    /// ledger but the mark that one is open. The total debt in particular
    /// stays, so discarding the operation restores it with nothing to
    /// undo.
    pub proof fn law_flash_mint_start_keeps_debt(self, size: int)
        requires
            self.flash_mint_start(size) is Ok,
        ensures
            self.flash_mint_start(size).unwrap().0 == (UsdState { fm_active: true, ..self }),
            self.flash_mint_start(size).unwrap().0.liabilities_total == self.liabilities_total,
            self.flash_mint_start(size).unwrap().1 == (FlashState {
                size: trunc_div(size * self.flash_fee, one_attos()),
                isloan: None,
            }),
    {
    }
}

/// The worth in USD of pools that hold `xrd` base asset and `exrd` staked
/// collateral, as the ledger computes it: each product rounded toward zero.
pub open spec fn pools_worth(xrd: int, exrd: int, price: int, rate: int) -> int {
    trunc_div(xrd * price, one_attos()) + trunc_div(
        trunc_div(exrd * price, one_attos()) * rate,
        one_attos(),
    )
}

/// What pools are worth in USD is, up to rounding, their worth in base
/// asset at the price: it exceeds the pools' worth in USD by less than two
/// and the rate.
pub proof fn lemma_worth_in_usd(xrd: int, exrd: int, price: int, rate: int)
    requires
        xrd >= 0,
        exrd >= 0,
        price > 0,
        rate > 0,
    ensures
        (xrd + trunc_div(rate * exrd, one_attos())) * price < pools_worth(xrd, exrd, price, rate)
            * one_attos() + 2 * one_attos() + rate,
        trunc_div(trunc_div(exrd * price, one_attos()) * rate, one_attos()) * one_attos()
            * one_attos() <= exrd * price * rate,
        exrd * price * rate < trunc_div(trunc_div(exrd * price, one_attos()) * rate, one_attos())
            * one_attos() * one_attos() + one_attos() * one_attos() + rate * one_attos(),
{
    let one = one_attos();
    lemma_product_nonnegative(xrd, price);
    lemma_trunc_div_floor(xrd * price, one);
    lemma_product_nonnegative(exrd, price);
    lemma_trunc_div_floor(exrd * price, one);
    let a1 = trunc_div(xrd * price, one);
    let b1 = trunc_div(exrd * price, one);
    lemma_product_nonnegative(b1, rate);
    lemma_trunc_div_floor(b1 * rate, one);
    let c1 = trunc_div(b1 * rate, one);
    lemma_product_nonnegative(rate, exrd);
    lemma_trunc_div_floor(rate * exrd, one);
    let x1 = trunc_div(rate * exrd, one);
    assert(c1 * one * one <= exrd * price * rate) by (nonlinear_arith)
        requires
            rate > 0,
            one > 0,
            c1 * one <= b1 * rate,
            b1 * one <= exrd * price,
    ;
    assert(exrd * price * rate < c1 * one * one + one * one + rate * one) by (nonlinear_arith)
        requires
            rate > 0,
            one > 0,
            b1 * rate < c1 * one + one,
            exrd * price < b1 * one + one,
    ;
    assert(x1 * price < c1 * one + one + rate) by (nonlinear_arith)
        requires
            price > 0,
            one > 0,
            x1 * one <= rate * exrd,
            exrd * price * rate < c1 * one * one + one * one + rate * one,
    ;
    assert((xrd + x1) * price < (a1 + c1) * one + 2 * one + rate) by (nonlinear_arith)
        requires
            xrd * price < a1 * one + one,
            x1 * price < c1 * one + one + rate,
    ;
}

/// The rounding of a payout: where pools pay out `refund`, the worth of
/// `paid` shares of `shares` at the share price in base asset, in staked
/// collateral as far as it reaches and in base asset for the rest, the
/// share price in USD of what is left falls by less than rounding accounts
/// for.
pub proof fn lemma_payout_keeps_worth(
    xrd: int,
    exrd: int,
    price: int,
    rate: int,
    shares: int,
    paid: int,
)
    requires
        xrd >= 0,
        exrd >= 0,
        price > 0,
        rate > 0,
        0 < paid < shares,
    ensures
        ({
            let one = one_attos();
            let staked = trunc_div(rate * exrd, one);
            let base_price = trunc_div((xrd + staked) * one, shares);
            let refund = trunc_div(paid * base_price, one);
            let (xrd_after, exrd_after) = if staked < refund {
                (xrd - (refund - staked), 0int)
            } else {
                (xrd, exrd - trunc_div(refund * one, rate))
            };
            let before = trunc_div(pools_worth(xrd, exrd, price, rate) * one, shares);
            let after = trunc_div(
                pools_worth(xrd_after, exrd_after, price, rate) * one,
                shares - paid,
            );
            &&& xrd_after >= 0
            &&& exrd_after >= 0
            &&& (before - after - 1) * (shares - paid) < 3 * one + 2 * rate + price
        }),
{
    let one = one_attos();
    let staked = trunc_div(rate * exrd, one);
    lemma_product_nonnegative(rate, exrd);
    lemma_trunc_div_floor(rate * exrd, one);
    lemma_product_nonnegative(xrd + staked, one);
    lemma_trunc_div_floor((xrd + staked) * one, shares);
    let base_price = trunc_div((xrd + staked) * one, shares);
    lemma_product_nonnegative(paid, base_price);
    lemma_trunc_div_floor(paid * base_price, one);
    let refund = trunc_div(paid * base_price, one);
    // what is paid out is no more than the pools are worth
    assert(refund * shares <= paid * (xrd + staked)) by (nonlinear_arith)
        requires
            shares > 0,
            paid > 0,
            one > 0,
            refund * one <= paid * base_price,
            base_price * shares <= (xrd + staked) * one,
    ;
    assert(refund <= xrd + staked) by (nonlinear_arith)
        requires
            refund * shares <= paid * (xrd + staked),
            0 < paid < shares,
            xrd + staked >= 0,
            refund >= 0,
    ;
    lemma_worth_in_usd(xrd, exrd, price, rate);
    let worth = pools_worth(xrd, exrd, price, rate);
    lemma_product_nonnegative(xrd, price);
    lemma_trunc_div_floor(xrd * price, one);
    lemma_product_nonnegative(exrd, price);
    lemma_trunc_div_floor(exrd * price, one);
    lemma_product_nonnegative(trunc_div(exrd * price, one), rate);
    lemma_trunc_div_floor(trunc_div(exrd * price, one) * rate, one);
    assert(worth >= 0);
    // the worth in USD of what is paid out
    assert(refund * price * shares < paid * (worth * one + 2 * one + rate)) by (nonlinear_arith)
        requires
            price > 0,
            paid > 0,
            refund * shares <= paid * (xrd + staked),
            (xrd + staked) * price < worth * one + 2 * one + rate,
    ;
    let (xrd_after, exrd_after) = if staked < refund {
        (xrd - (refund - staked), 0int)
    } else {
        (xrd, exrd - trunc_div(refund * one, rate))
    };
    if staked >= refund {
        lemma_conversion_bounded(refund, rate, exrd);
        lemma_product_nonnegative(refund, one);
        lemma_trunc_div_floor(refund * one, rate);
    }
    let out = exrd - exrd_after;
    assert(xrd_after >= 0 && exrd_after >= 0);
    lemma_worth_in_usd(xrd_after, exrd_after, price, rate);
    let worth_after = pools_worth(xrd_after, exrd_after, price, rate);
    lemma_product_nonnegative(xrd_after, price);
    lemma_trunc_div_floor(xrd_after * price, one);
    lemma_product_nonnegative(exrd_after, price);
    lemma_trunc_div_floor(exrd_after * price, one);
    lemma_product_nonnegative(trunc_div(exrd_after * price, one), rate);
    lemma_trunc_div_floor(trunc_div(exrd_after * price, one) * rate, one);
    assert(worth_after >= 0);
    // the worth in USD lost is the worth of what is paid out, up to rounding
    let a1 = trunc_div(xrd * price, one);
    let c1 = trunc_div(trunc_div(exrd * price, one) * rate, one);
    let a2 = trunc_div(xrd_after * price, one);
    let c2 = trunc_div(trunc_div(exrd_after * price, one) * rate, one);
    if staked < refund {
        assert(0 * price == 0) by (nonlinear_arith);
        assert(c2 == 0);
        assert((a1 - a2) * one < (refund - staked) * price + one) by (nonlinear_arith)
            requires
                a1 * one <= xrd * price,
                xrd_after * price < a2 * one + one,
                xrd_after == xrd - (refund - staked),
        ;
        assert(c1 * one < staked * price + price) by (nonlinear_arith)
            requires
                price > 0,
                one > 0,
                c1 * one * one <= exrd * price * rate,
                rate * exrd < staked * one + one,
        ;
        assert((worth - worth_after) * one < refund * price + one + price) by (nonlinear_arith)
            requires
                worth == a1 + c1,
                worth_after == a2,
                (a1 - a2) * one < (refund - staked) * price + one,
                c1 * one < staked * price + price,
        ;
    } else {
        assert(a1 == a2);
        assert((c1 - c2) * one < refund * price + rate + one) by (nonlinear_arith)
            requires
                price > 0,
                rate > 0,
                one > 0,
                out == exrd - exrd_after,
                out * rate <= refund * one,
                c1 * one * one <= exrd * price * rate,
                exrd_after * price * rate < c2 * one * one + one * one + rate * one,
        ;
        assert((worth - worth_after) * one < refund * price + one + rate) by (nonlinear_arith)
            requires
                worth == a1 + c1,
                worth_after == a2 + c2,
                a1 == a2,
                (c1 - c2) * one < refund * price + rate + one,
        ;
    }
    let slack = 3 * one + 2 * rate + price;
    assert((worth - worth_after) * one * shares < paid * worth * one + slack * shares)
        by (nonlinear_arith)
        requires
            shares > 0,
            0 < paid < shares,
            one > 0,
            rate > 0,
            price > 0,
            (worth - worth_after) * one < refund * price + one + rate + price,
            refund * price * shares < paid * (worth * one + 2 * one + rate),
            slack == 3 * one + 2 * rate + price,
    ;
    lemma_product_nonnegative(worth, one);
    lemma_trunc_div_floor(worth * one, shares);
    lemma_product_nonnegative(worth_after, one);
    lemma_trunc_div_floor(worth_after * one, shares - paid);
    let before = trunc_div(worth * one, shares);
    let after = trunc_div(worth_after * one, shares - paid);
    let left = shares - paid;
    assert((before - after - 1) * left < slack) by (nonlinear_arith)
        requires
            shares > 0,
            left > 0,
            left == shares - paid,
            one > 0,
            before * shares <= worth * one,
            worth_after * one < after * left + left,
            (worth - worth_after) * one * shares < paid * worth * one + slack * shares,
    ;
}

/// A quotient of a non-negative value does not fall as its positive
/// divisor falls.
pub proof fn lemma_quotient_antitone(a: int, small: int, large: int)
    requires
        a >= 0,
        0 < small <= large,
    ensures
        trunc_div(a, large) <= trunc_div(a, small),
{
    lemma_trunc_div_floor(a, large);
    lemma_trunc_div_floor(a, small);
    let p = trunc_div(a, large);
    let q = trunc_div(a, small);
    assert(p <= q) by (nonlinear_arith)
        requires
            0 < small <= large,
            p >= 0,
            p * large <= a,
            a < q * small + small,
    ;
}

/// The floor of a sum is at least the sum of the floors.
pub proof fn lemma_floor_superadditive(a: int, b: int, c: int)
    requires
        a >= 0,
        b >= 0,
        c > 0,
    ensures
        (a + b) / c >= a / c + b / c,
{
    assert((a + b) / c >= a / c + b / c) by (nonlinear_arith)
        requires
            a >= 0,
            b >= 0,
            c > 0,
    ;
}

/// A total divided by itself is one.
pub proof fn lemma_price_at_par(total: int)
    requires
        total != 0,
    ensures
        trunc_div(total * one_attos(), total) == one_attos(),
{
    if total > 0 {
        assert((total * one_attos()) / total == one_attos()) by (nonlinear_arith)
            requires
                total > 0,
        ;
        assert(total * one_attos() >= 0) by (nonlinear_arith)
            requires
                total > 0,
        ;
    } else {
        assert((-(total * one_attos())) / (-total) == one_attos()) by (nonlinear_arith)
            requires
                total < 0,
        ;
        assert(total * one_attos() < 0) by (nonlinear_arith)
            requires
                total < 0,
        ;
    }
}

/// Multiplying or dividing by one changes nothing.
pub proof fn lemma_unit_price(amount: int)
    ensures
        trunc_div(amount * one_attos(), one_attos()) == amount,
{
    if amount >= 0 {
        assert((amount * one_attos()) / one_attos() == amount) by (nonlinear_arith);
        assert(amount * one_attos() >= 0) by (nonlinear_arith)
            requires
                amount >= 0,
        ;
    } else {
        assert((-(amount * one_attos())) / one_attos() == -amount) by (nonlinear_arith);
        assert(amount * one_attos() < 0) by (nonlinear_arith)
            requires
                amount < 0,
        ;
    }
}

} // verus!
