//! A ledger laid open for storage, and the way back: a stored ledger is
//! taken up again only if it adds up.

use vstd::prelude::*;
use crate::decimal::Decimal;
use crate::error::UsdError;
use crate::ledger::Usd;
use crate::ledger::UsdState;
use crate::position::Ecdp;
use crate::position::lemma_sums_prefix;
use crate::position::lemma_sums_take;
use crate::position::positions_view;
use crate::position::shares_nonnegative;
use crate::position::sum_assets;
use crate::position::sum_liabilities;

verus! {

/// The fields of a ledger, each in the open.
#[derive(Clone, Debug)]
pub struct UsdRecord {
    pub powered: bool,
    pub assets_lp_total: Decimal,
    pub liabilities_lp_total: Decimal,
    pub liabilities_total: Decimal,
    pub exrd_vault: Decimal,
    pub xrd_vault: Decimal,
    pub ep: Decimal,
    pub mcr: Decimal,
    pub bp: Decimal,
    pub lower_bound: Decimal,
    pub upper_bound: Decimal,
    pub maximum_minted: Decimal,
    pub fl_active: bool,
    pub fm_active: bool,
    pub flash_fee: Decimal,
    pub oracle: Decimal,
    pub oracle_timestamp: i64,
    pub stopped: bool,
    pub positions: Vec<Ecdp>,
}

impl View for UsdRecord {
    type V = UsdState;

    open spec fn view(&self) -> UsdState {
        UsdState {
            powered: self.powered,
            assets_lp_total: self.assets_lp_total@,
            liabilities_lp_total: self.liabilities_lp_total@,
            liabilities_total: self.liabilities_total@,
            exrd: self.exrd_vault@,
            xrd: self.xrd_vault@,
            ep: self.ep@,
            mcr: self.mcr@,
            bp: self.bp@,
            lower_bound: self.lower_bound@,
            upper_bound: self.upper_bound@,
            maximum_minted: self.maximum_minted@,
            fl_active: self.fl_active,
            fm_active: self.fm_active,
            flash_fee: self.flash_fee@,
            oracle: self.oracle@,
            oracle_timestamp: self.oracle_timestamp as int,
            stopped: self.stopped,
            positions: positions_view(self.positions@),
        }
    }
}

/// Adds up the shares of `positions`. Gives the two sums where no share
/// count is negative and both sums are representable.
fn add_up(positions: &Vec<Ecdp>) -> (r: Option<(Decimal, Decimal)>)
    ensures
        match r {
            Some(sums) => {
                &&& shares_nonnegative(positions_view(positions@))
                &&& sums.0@ == sum_assets(positions_view(positions@))
                &&& sums.1@ == sum_liabilities(positions_view(positions@))
            },
            None => {
                ||| !shares_nonnegative(positions_view(positions@))
                ||| !crate::decimal::in_range(sum_assets(positions_view(positions@)))
                ||| !crate::decimal::in_range(sum_liabilities(positions_view(positions@)))
            },
        },
{
    let ghost all = positions_view(positions@);
    let mut assets = Decimal::zero();
    let mut liabilities = Decimal::zero();
    let mut i: usize = 0;
    while i < positions.len()
        invariant
            i <= positions.len(),
            all == positions_view(positions@),
            shares_nonnegative(all.take(i as int)),
            assets@ == sum_assets(all.take(i as int)),
            liabilities@ == sum_liabilities(all.take(i as int)),
        decreases positions.len() - i,
    {
        let e = positions[i];
        proof {
            lemma_sums_take(all, i as int);
            assets.lemma_in_range();
            liabilities.lemma_in_range();
            if shares_nonnegative(all) {
                lemma_sums_prefix(all, i as int + 1);
            }
        }
        if e.assets_lp.is_negative() || e.liabilities_lp.is_negative() {
            assert(all[i as int] == e@);
            return None;
        }
        let next_assets = assets.checked_add(e.assets_lp);
        let next_liabilities = liabilities.checked_add(e.liabilities_lp);
        if next_assets.is_none() || next_liabilities.is_none() {
            return None;
        }
        assets = next_assets.unwrap();
        liabilities = next_liabilities.unwrap();
        assert forall|j: int| 0 <= j < i + 1 implies (#[trigger] all.take(i + 1)[j]).assets_lp >= 0
            && all.take(i + 1)[j].liabilities_lp >= 0 by {
            if j < i {
                assert(all.take(i + 1)[j] == all.take(i as int)[j]);
            }
        }
        i = i + 1;
    }
    assert(all.take(i as int) =~= all);
    Some((assets, liabilities))
}

impl Usd {
    /// Lays the ledger open.
    pub fn into_record(self) -> (r: UsdRecord)
        ensures
            r@ == self@,
    {
        UsdRecord {
            powered: self.powered,
            assets_lp_total: self.assets_lp_total,
            liabilities_lp_total: self.liabilities_lp_total,
            liabilities_total: self.liabilities_total,
            exrd_vault: self.exrd_vault,
            xrd_vault: self.xrd_vault,
            ep: self.ep,
            mcr: self.mcr,
            bp: self.bp,
            lower_bound: self.lower_bound,
            upper_bound: self.upper_bound,
            maximum_minted: self.maximum_minted,
            fl_active: self.fl_active,
            fm_active: self.fm_active,
            flash_fee: self.flash_fee,
            oracle: self.oracle,
            oracle_timestamp: self.oracle_timestamp,
            stopped: self.stopped,
            positions: self.positions,
        }
    }

    /// Takes a stored ledger up again, if and only if it is valid.
    pub fn from_record(record: UsdRecord) -> (r: Result<Usd, UsdError>)
        ensures
            match r {
                Ok(usd) => record@.wf() && usd@ == record@,
                Err(e) => !record@.wf() && e == UsdError::InvalidLedger,
            },
    {
        if record.xrd_vault.is_negative() || record.exrd_vault.is_negative()
            || !record.oracle.is_positive() {
            return Err(UsdError::InvalidLedger);
        }
        proof {
            record.assets_lp_total.lemma_in_range();
            record.liabilities_lp_total.lemma_in_range();
        }
        match add_up(&record.positions) {
            None => Err(UsdError::InvalidLedger),
            Some(sums) => {
                if sums.0 != record.assets_lp_total || sums.1 != record.liabilities_lp_total {
                    proof {
                        sums.0.lemma_view_injective(record.assets_lp_total);
                        sums.1.lemma_view_injective(record.liabilities_lp_total);
                    }
                    return Err(UsdError::InvalidLedger);
                }
                Ok(
                    Usd {
                        powered: record.powered,
                        assets_lp_total: record.assets_lp_total,
                        liabilities_lp_total: record.liabilities_lp_total,
                        liabilities_total: record.liabilities_total,
                        exrd_vault: record.exrd_vault,
                        xrd_vault: record.xrd_vault,
                        ep: record.ep,
                        mcr: record.mcr,
                        bp: record.bp,
                        lower_bound: record.lower_bound,
                        upper_bound: record.upper_bound,
                        maximum_minted: record.maximum_minted,
                        fl_active: record.fl_active,
                        fm_active: record.fm_active,
                        flash_fee: record.flash_fee,
                        oracle: record.oracle,
                        oracle_timestamp: record.oracle_timestamp,
                        stopped: record.stopped,
                        positions: record.positions,
                    },
                )
            },
        }
    }
}

} // verus!
