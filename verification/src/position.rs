//! Positions: each holds shares of the pooled collateral and of the pooled
//! debt. The ledger keeps them in an arena; a position's identifier is its
//! place there, and it stays for good.

use vstd::prelude::*;
use crate::decimal::Decimal;

verus! {

/// What a position holds, in attos of shares.
pub struct EcdpState {
    /// Shares of the collateral pool.
    pub assets_lp: int,
    /// Shares of the total debt.
    pub liabilities_lp: int,
}

/// A collateralised debt position.
#[derive(Clone, Copy, Debug, PartialEq, Eq, Structural)]
pub struct Ecdp {
    pub assets_lp: Decimal,
    pub liabilities_lp: Decimal,
}

impl View for Ecdp {
    type V = EcdpState;

    open spec fn view(&self) -> EcdpState {
        EcdpState { assets_lp: self.assets_lp@, liabilities_lp: self.liabilities_lp@ }
    }
}

/// The positions of an arena as the model sees them.
pub open spec fn positions_view(ps: Seq<Ecdp>) -> Seq<EcdpState> {
    Seq::new(ps.len(), |i: int| ps[i]@)
}

/// The collateral shares of all positions together.
pub open spec fn sum_assets(ps: Seq<EcdpState>) -> int
    decreases ps.len(),
{
    if ps.len() == 0 {
        0
    } else {
        sum_assets(ps.drop_last()) + ps.last().assets_lp
    }
}

/// The debt shares of all positions together.
pub open spec fn sum_liabilities(ps: Seq<EcdpState>) -> int
    decreases ps.len(),
{
    if ps.len() == 0 {
        0
    } else {
        sum_liabilities(ps.drop_last()) + ps.last().liabilities_lp
    }
}

/// No position holds a negative number of shares.
pub open spec fn shares_nonnegative(ps: Seq<EcdpState>) -> bool {
    forall|i: int| 0 <= i < ps.len() ==> (#[trigger] ps[i]).assets_lp >= 0 && ps[i].liabilities_lp >= 0
}

/// A new position adds its shares to both sums.
pub proof fn lemma_sums_push(ps: Seq<EcdpState>, e: EcdpState)
    ensures
        sum_assets(ps.push(e)) == sum_assets(ps) + e.assets_lp,
        sum_liabilities(ps.push(e)) == sum_liabilities(ps) + e.liabilities_lp,
{
    assert(ps.push(e).drop_last() =~= ps);
}

/// Replacing one position moves both sums by the difference.
pub proof fn lemma_sums_update(ps: Seq<EcdpState>, i: int, e: EcdpState)
    requires
        0 <= i < ps.len(),
    ensures
        sum_assets(ps.update(i, e)) == sum_assets(ps) - ps[i].assets_lp + e.assets_lp,
        sum_liabilities(ps.update(i, e)) == sum_liabilities(ps) - ps[i].liabilities_lp
            + e.liabilities_lp,
    decreases ps.len(),
{
    if i == ps.len() - 1 {
        assert(ps.update(i, e).drop_last() =~= ps.drop_last());
    } else {
        lemma_sums_update(ps.drop_last(), i, e);
        assert(ps.update(i, e).drop_last() =~= ps.drop_last().update(i, e));
    }
}

/// Where no share count is negative, neither sum is, and no position holds
/// more than the sum.
pub proof fn lemma_sums_bound(ps: Seq<EcdpState>, i: int)
    requires
        shares_nonnegative(ps),
        0 <= i < ps.len(),
    ensures
        0 <= ps[i].assets_lp <= sum_assets(ps),
        0 <= ps[i].liabilities_lp <= sum_liabilities(ps),
    decreases ps.len(),
{
    lemma_sums_nonnegative(ps.drop_last());
    if i < ps.len() - 1 {
        lemma_sums_bound(ps.drop_last(), i);
    }
}

/// The sums over the first `k + 1` positions are those over the first `k`
/// and the next position's shares.
pub proof fn lemma_sums_take(ps: Seq<EcdpState>, k: int)
    requires
        0 <= k < ps.len(),
    ensures
        sum_assets(ps.take(k + 1)) == sum_assets(ps.take(k)) + ps[k].assets_lp,
        sum_liabilities(ps.take(k + 1)) == sum_liabilities(ps.take(k)) + ps[k].liabilities_lp,
{
    assert(ps.take(k + 1).drop_last() =~= ps.take(k));
}

/// Where no share count is negative, the sums over the first `k` positions
/// are at most the sums over all.
pub proof fn lemma_sums_prefix(ps: Seq<EcdpState>, k: int)
    requires
        shares_nonnegative(ps),
        0 <= k <= ps.len(),
    ensures
        sum_assets(ps.take(k)) <= sum_assets(ps),
        sum_liabilities(ps.take(k)) <= sum_liabilities(ps),
    decreases ps.len() - k,
{
    if k < ps.len() {
        lemma_sums_take(ps, k);
        lemma_sums_prefix(ps, k + 1);
    } else {
        assert(ps.take(k) =~= ps);
    }
}

/// Where no share count is negative, neither sum is.
pub proof fn lemma_sums_nonnegative(ps: Seq<EcdpState>)
    requires
        shares_nonnegative(ps),
    ensures
        sum_assets(ps) >= 0,
        sum_liabilities(ps) >= 0,
    decreases ps.len(),
{
    if ps.len() > 0 {
        lemma_sums_nonnegative(ps.drop_last());
    }
}

} // verus!
