use ethereal_usd::decimal::Decimal;
use ethereal_usd::error::UsdError;
use ethereal_usd::ledger::Usd;
use ethereal_usd::peg::correction_due;
use ethereal_usd::peg::Woke;

const ONE: i128 = 1_000_000_000_000_000_000;

fn d(units: u64) -> Decimal {
    Decimal::from_units(units)
}

fn a(attos: i128) -> Decimal {
    Decimal::from_attos(attos)
}

fn fresh(oracle: Decimal) -> Usd {
    Usd::from_nothing(a(99 * ONE / 100), a(101 * ONE / 100), a(1001 * ONE / 1000), oracle, 0)
        .unwrap()
}

fn booted() -> Usd {
    let mut usd = fresh(d(1));
    usd.first_ecdp(d(100_000), d(1)).unwrap();
    usd
}

/// Pools of 10 staked collateral and 1200 base asset against a debt of 877.
fn thin() -> Usd {
    let mut usd = fresh(d(1));
    usd.first_ecdp(d(10), d(1)).unwrap();
    usd.open_ecdp(d(100)).unwrap();
    usd.ecdp_collateralize(d(1100), false, 1, d(1)).unwrap();
    usd.ecdp_mint(d(100), 1, 0, d(1)).unwrap();
    assert_eq!(usd.vaults(), (d(10), d(1200)));
    assert_eq!(usd.look_within().2, d(877));
    usd
}

fn with_params(usd: &mut Usd, ep: Decimal, bp: Decimal, maximum_minted: Decimal) {
    usd.set_params(
        ep,
        a(15 * ONE / 10),
        bp,
        a(99 * ONE / 100),
        a(101 * ONE / 100),
        maximum_minted,
        a(1001 * ONE / 1000),
    );
}

#[test]
fn poke_compares_with_the_band_round_the_fair_price() {
    // staked collateral costs 2 * 1.25 = 2.5 USD: a stablecoin is worth 0.4
    let usd = fresh(d(2));
    let rate = a(125 * ONE / 100);
    let upper = a(404 * ONE / 1000);
    let lower = a(396 * ONE / 1000);
    let fair = a(4 * ONE / 10);
    assert_eq!(usd.aa_poke(a(41 * ONE / 100), 0, rate), Ok(Some((upper, fair, true))));
    assert_eq!(usd.aa_poke(a(404 * ONE / 1000 + 1), 0, rate), Ok(Some((upper, fair, true))));
    assert_eq!(usd.aa_poke(upper, 0, rate), Ok(None));
    assert_eq!(usd.aa_poke(fair, 0, rate), Ok(None));
    assert_eq!(usd.aa_poke(lower, 0, rate), Ok(None));
    assert_eq!(usd.aa_poke(a(396 * ONE / 1000 - 1), 0, rate), Ok(Some((lower, fair, false))));
    assert_eq!(usd.aa_poke(a(39 * ONE / 100), 0, rate), Ok(Some((lower, fair, false))));
}

#[test]
fn poke_is_refused() {
    let usd = fresh(d(2));
    assert_eq!(usd.aa_poke(d(1), 301, d(1)), Err(UsdError::StaleOracle));
    assert_eq!(usd.aa_poke(d(1), 0, d(0)), Err(UsdError::InvalidRate));
    assert_eq!(usd.aa_poke(d(1), 301, a(-1)), Err(UsdError::InvalidRate));
    // a rate so high that the staked collateral has no price
    let huge = Decimal::from_limbs(u64::MAX, u64::MAX, 0x7fff_ffff_ffff_ffff);
    assert_eq!(usd.aa_poke(d(1), 0, huge), Err(UsdError::Arithmetic));
    // a price and a rate so low that the staked collateral is worth
    // nothing, and the stablecoin has no price in it
    let cheap = fresh(a(1));
    assert_eq!(cheap.aa_poke(d(1), 0, a(1)), Err(UsdError::Arithmetic));
}

#[test]
fn woke_mints_what_is_asked_within_the_room() {
    let mut usd = booted();
    assert_eq!(usd.tcr(0, d(1)), Ok(a(128_700_128_700_128_700_128)));
    assert_eq!(usd.aa_woke(d(500), true, 0, d(1)), Ok(Woke::Minted(d(500))));
    assert_eq!(usd.look_within(), (d(100_000), d(777), d(1277), d(1)));
    assert_eq!(usd.vaults(), (d(100_000), d(0)));
}

#[test]
fn woke_mint_is_capped_by_the_ceiling() {
    let mut usd = booted();
    with_params(&mut usd, a(12 * ONE / 10), a(17 * ONE / 10), d(1000));
    assert_eq!(usd.aa_woke(d(500), true, 0, d(1)), Ok(Woke::Minted(d(223))));
    assert_eq!(usd.look_within().2, d(1000));
    assert_eq!(usd.aa_woke(d(500), true, 0, d(1)), Ok(Woke::Minted(d(0))));
    assert_eq!(usd.look_within().2, d(1000));
}

#[test]
fn woke_mint_is_capped_by_the_backstop_ratio() {
    let mut usd = thin();
    // 1210 / 877 = 1.379..; with the backstop at 1.25 there is room for
    // (1210 - 877 * 1.25) / 1.25 = 91
    with_params(&mut usd, d(1), a(125 * ONE / 100), d(1_000_000));
    assert_eq!(usd.aa_woke(d(500), true, 0, d(1)), Ok(Woke::Minted(d(91))));
    assert_eq!(usd.look_within().2, d(968));
    assert_eq!(usd.tcr(0, d(1)), Ok(a(125 * ONE / 100)));
    // at the backstop nothing more is minted
    assert_eq!(usd.aa_woke(d(500), true, 0, d(1)), Ok(Woke::Idle));
}

#[test]
fn woke_mint_is_refused() {
    let mut usd = booted();
    assert_eq!(usd.aa_woke(a(-1), true, 0, d(1)), Err(UsdError::InvalidAmount));
    assert_eq!(usd.aa_woke(d(1), true, 301, d(1)), Err(UsdError::StaleOracle));
    assert_eq!(usd.aa_woke(d(1), true, 0, d(0)), Err(UsdError::InvalidRate));
    assert_eq!(usd.aa_woke(d(1), false, 0, a(-1)), Err(UsdError::InvalidRate));
    assert_eq!(usd.aa_woke(d(200_000), false, 0, a(-1)), Err(UsdError::InvalidRate));
    assert_eq!(usd.vaults(), (d(100_000), d(0)));
    // not below the total debt
    assert_eq!(usd.aa_woke(d(777), true, 0, d(1)), Err(UsdError::Incoherence));
    // total debt over the ceiling already
    with_params(&mut usd, a(12 * ONE / 10), a(17 * ONE / 10), d(700));
    assert_eq!(usd.aa_woke(d(1), true, 0, d(1)), Err(UsdError::IssuanceCeilingExceeded));
    assert_eq!(usd.look_within().2, d(777));
    // with no debt at all the collateral is above any ratio, but there is
    // no debt for a mint to stay below
    let mut empty = fresh(d(1));
    assert_eq!(empty.aa_woke(d(1), true, 0, d(1)), Err(UsdError::Incoherence));
    assert_eq!(empty.aa_woke(d(0), true, 0, d(1)), Err(UsdError::Incoherence));
}

#[test]
fn woke_releases_while_there_is_no_debt() {
    let mut usd = booted();
    assert_eq!(usd.aa_choke(d(777), d(0), false), Ok(d(0)));
    assert_eq!(usd.look_within().2, d(0));
    assert_eq!(usd.tcr(0, d(1)), Err(UsdError::Arithmetic));
    assert_eq!(usd.aa_woke(d(5), false, 0, d(1)), Ok(Woke::Released(d(5))));
    assert_eq!(usd.vaults(), (d(99_995), d(0)));
    assert_eq!(usd.aa_woke(d(5), true, 0, d(1)), Err(UsdError::Incoherence));
    assert_eq!(usd.aa_woke(d(5), false, 301, d(1)), Err(UsdError::StaleOracle));
}

#[test]
fn woke_idles_under_the_safety_ratios() {
    let mut usd = thin();
    with_params(&mut usd, a(14 * ONE / 10), a(14 * ONE / 10), d(1_000_000));
    assert_eq!(usd.aa_woke(d(1), true, 0, d(1)), Ok(Woke::Idle));
    assert_eq!(usd.aa_woke(d(1), false, 0, d(1)), Ok(Woke::Idle));
    assert_eq!(usd.vaults(), (d(10), d(1200)));
    assert_eq!(usd.look_within().2, d(877));
}

#[test]
fn woke_releases_from_the_staked_pool() {
    let mut usd = thin();
    assert_eq!(usd.aa_woke(d(4), false, 0, d(1)), Ok(Woke::Released(d(4))));
    assert_eq!(usd.vaults(), (d(6), d(1200)));
    assert_eq!(usd.aa_woke(d(6), false, 0, d(1)), Ok(Woke::Released(d(6))));
    assert_eq!(usd.vaults(), (d(0), d(1200)));
}

#[test]
fn woke_stakes_base_asset_for_the_shortfall() {
    let mut usd = thin();
    let rate = a(125 * ONE / 100);
    // 100 staked collateral short: they cost 125 base asset at rate 1.25
    assert_eq!(
        usd.aa_woke(d(110), false, 0, rate),
        Ok(Woke::Stake { xrd: d(125), release: d(110) })
    );
    assert_eq!(usd.vaults(), (d(10), d(1075)));

    // 125 base asset stake into 100; had staking returned one too few, the
    // release would be refused
    assert_eq!(d(125).checked_div(rate), Some(d(100)));
    assert_eq!(usd.aa_woke_staked(d(99), d(110)), Err(UsdError::InsufficientBacking));
    assert_eq!(usd.vaults(), (d(10), d(1075)));
    assert_eq!(usd.aa_woke_staked(d(100), d(110)), Ok(d(110)));
    assert_eq!(usd.vaults(), (d(0), d(1075)));
    assert_eq!(usd.aa_woke_staked(a(-1), d(0)), Err(UsdError::InvalidAmount));
    assert_eq!(usd.aa_woke_staked(d(0), a(-1)), Err(UsdError::InvalidAmount));
}

/// Pools of `staked` staked collateral and `base` base asset against a
/// debt of 10.
fn pools(staked: Decimal, base: Decimal) -> Usd {
    let mut record = booted().into_record();
    record.exrd_vault = staked;
    record.xrd_vault = base;
    record.liabilities_total = d(10);
    Usd::from_record(record).unwrap()
}

#[test]
fn base_asset_that_covers_the_release_is_staked_for_it() {
    // at rate 2 the 100 base asset held are worth 50 staked collateral
    let mut usd = pools(d(0), d(100));
    assert_eq!(
        usd.aa_woke(d(40), false, 0, d(2)),
        Ok(Woke::Stake { xrd: d(80), release: d(40) })
    );
    assert_eq!(usd.vaults(), (d(0), d(20)));
    assert_eq!(d(80).checked_div(d(2)), Some(d(40)));
    assert_eq!(usd.aa_woke_staked(d(40), d(40)), Ok(d(40)));
    assert_eq!(usd.vaults(), (d(0), d(20)));

    // all of it covers 50, and not an atto more
    let mut usd = pools(d(0), d(100));
    assert_eq!(
        usd.aa_woke(d(50), false, 0, d(2)),
        Ok(Woke::Stake { xrd: d(100), release: d(50) })
    );
    let mut usd = pools(d(0), d(100));
    assert_eq!(
        usd.aa_woke(a(50 * ONE + 1), false, 0, d(2)),
        Err(UsdError::InsufficientBacking)
    );
    assert_eq!(usd.vaults(), (d(0), d(100)));

    // only the shortfall is staked for
    let mut usd = pools(d(30), d(100));
    assert_eq!(
        usd.aa_woke(d(40), false, 0, d(2)),
        Ok(Woke::Stake { xrd: d(20), release: d(40) })
    );
    assert_eq!(usd.vaults(), (d(30), d(80)));
    assert_eq!(usd.aa_woke_staked(d(10), d(40)), Ok(d(40)));
    assert_eq!(usd.vaults(), (d(0), d(80)));
}

#[test]
fn stake_is_rounded_up_to_cover_the_shortfall() {
    // one atto short at rate 1.5 is worth 1.5 attos: one atto would stake
    // into nothing, two stake into one
    let rate = a(15 * ONE / 10);
    let mut usd = pools(d(0), d(100));
    assert_eq!(
        usd.aa_woke(a(1), false, 0, rate),
        Ok(Woke::Stake { xrd: a(2), release: a(1) })
    );
    assert_eq!(a(1).checked_div(rate), Some(a(0)));
    assert_eq!(a(2).checked_div(rate), Some(a(1)));
    assert_eq!(usd.aa_woke_staked(a(1), a(1)), Ok(a(1)));

    // a third short at rate 0.3: 0.1 exactly, nothing to round
    let mut usd = pools(d(0), d(100));
    assert_eq!(
        usd.aa_woke(a(ONE), false, 0, a(3 * ONE / 10)),
        Ok(Woke::Stake { xrd: a(3 * ONE / 10), release: a(ONE) })
    );

    // 7 short at rate 1.000000000000000001
    let rate = a(ONE + 1);
    let mut usd = pools(d(0), d(100));
    assert_eq!(
        usd.aa_woke(d(7), false, 0, rate),
        Ok(Woke::Stake { xrd: a(7 * ONE + 7), release: d(7) })
    );
    assert_eq!(a(7 * ONE + 7).checked_div(rate), Some(d(7)));
    assert_eq!(a(7 * ONE + 6).checked_div(rate), Some(a(7 * ONE - 1)));
}

#[test]
fn woke_release_beyond_all_backing_is_refused() {
    let mut usd = thin();
    // 1201 short at rate one costs more base asset than the 1200 held
    assert_eq!(usd.aa_woke(d(1211), false, 0, d(1)), Err(UsdError::InsufficientBacking));
    assert_eq!(usd.vaults(), (d(10), d(1200)));
    assert_eq!(
        usd.aa_woke(d(1210), false, 0, d(1)),
        Ok(Woke::Stake { xrd: d(1200), release: d(1210) })
    );
    assert_eq!(usd.vaults(), (d(10), d(0)));
}

#[test]
fn choke_books_what_came_back() {
    let mut usd = booted();
    assert_eq!(usd.aa_choke(d(40), d(3), true), Ok(d(3)));
    assert_eq!(usd.vaults(), (d(100_040), d(0)));
    assert_eq!(usd.look_within().2, d(777));
    assert_eq!(usd.aa_choke(d(77), d(5), false), Ok(d(5)));
    assert_eq!(usd.vaults(), (d(100_040), d(0)));
    assert_eq!(usd.look_within().2, d(700));
    assert_eq!(usd.aa_choke(a(-1), d(0), true), Err(UsdError::InvalidAmount));
    assert_eq!(usd.aa_choke(d(0), a(-1), false), Err(UsdError::InvalidAmount));
}

#[test]
fn direction_may_flip_from_one_correction_to_the_next() {
    let mut usd = booted();
    // before the swap the market is too high: mint and sell
    assert_eq!(
        usd.aa_poke(a(105 * ONE / 100), 0, d(1)),
        Ok(Some((a(101 * ONE / 100), d(1), true)))
    );
    assert_eq!(usd.aa_woke(d(200), true, 0, d(1)), Ok(Woke::Minted(d(200))));
    assert_eq!(usd.aa_choke(d(204), d(1), true), Ok(d(1)));
    assert_eq!(usd.look_within().2, d(977));
    assert_eq!(usd.vaults(), (d(100_204), d(0)));

    // the swap overshoots: after it the market is too low, and the
    // correction the other way is judged afresh
    assert_eq!(
        usd.aa_poke(a(95 * ONE / 100), 0, d(1)),
        Ok(Some((a(99 * ONE / 100), d(1), false)))
    );
    assert_eq!(usd.aa_woke(d(150), false, 0, d(1)), Ok(Woke::Released(d(150))));
    assert_eq!(usd.aa_choke(d(155), d(2), false), Ok(d(2)));
    assert_eq!(usd.look_within().2, d(822));
    assert_eq!(usd.vaults(), (d(100_054), d(0)));

    // back inside the band nothing is called for
    assert_eq!(usd.aa_poke(d(1), 0, d(1)), Ok(None));
}

#[test]
fn correction_runs_at_one_of_the_two_calls_round_a_swap() {
    // the user swaps the way of the correction: corrected before the swap
    assert!(correction_due(true, true, false));
    assert!(!correction_due(true, false, true));
    // had the first call found nothing to trade with, the second stays out
    assert!(!correction_due(true, false, false));
    // the user swaps against the correction: corrected after the swap
    assert!(!correction_due(false, true, false));
    assert!(correction_due(false, false, false));
    // never twice
    assert!(!correction_due(false, false, true));
    assert!(!correction_due(false, true, true));
    assert!(!correction_due(true, true, true));
}

#[test]
fn swap_that_flips_the_direction_is_corrected_once() {
    let mut usd = booted();
    // before the swap the market is too high, and the user sells
    // stablecoin, the way of the correction: it is due at once
    let before = usd.aa_poke(a(105 * ONE / 100), 0, d(1)).unwrap().unwrap();
    assert!(before.2);
    let user_sells_stablecoin = true;
    assert!(correction_due(user_sells_stablecoin == before.2, true, false));
    let first_ran = usd.aa_woke(d(100), before.2, 0, d(1)) == Ok(Woke::Minted(d(100)));
    assert!(first_ran);
    assert_eq!(usd.aa_choke(d(102), d(1), before.2), Ok(d(1)));

    // the swap carries the market under the band: a correction the other
    // way is called for, but this swap has had its correction
    let after = usd.aa_poke(a(95 * ONE / 100), 0, d(1)).unwrap().unwrap();
    assert!(!after.2);
    assert!(!correction_due(user_sells_stablecoin == after.2, false, first_ran));
    let untouched = usd.look_within();

    // the next swap finds the market too low and has it corrected: before
    // it where the user buys stablecoin, after it where the user sells
    assert!(correction_due(true, true, false));
    assert!(correction_due(false, false, false));
    assert_eq!(usd.look_within(), untouched);
}

#[test]
fn swap_out_of_the_band_is_corrected_after_it() {
    let usd = booted();
    // inside the band before the swap: nothing to correct, nothing ran
    assert_eq!(usd.aa_poke(d(1), 0, d(1)), Ok(None));
    let first_ran = false;
    // the user buys stablecoin and leaves the market too high: the
    // correction sells, against the user's swap, and is due now
    let after = usd.aa_poke(a(105 * ONE / 100), 0, d(1)).unwrap().unwrap();
    assert!(after.2);
    let user_sells_stablecoin = false;
    assert!(correction_due(user_sells_stablecoin == after.2, false, first_ran));
}

#[test]
fn mint_of_all_the_room_can_leave_the_ratio_an_atto_under_the_backstop() {
    let mut record = booted().into_record();
    record.exrd_vault = d(0);
    record.xrd_vault = a(800_380_003_350_642_462_590);
    record.liabilities_total = a(283_505_726_384_713_937_976);
    let mut usd = Usd::from_record(record).unwrap();
    assert_eq!(usd.tcr(0, d(1)), Ok(a(2_823_152_863_813_890_682)));

    // (800.38.. - 283.50.. * 1.7) / 1.7, each step rounded toward zero
    assert_eq!(
        usd.aa_woke(d(1000), true, 0, d(1)),
        Ok(Woke::Minted(a(187_306_040_292_134_569_430)))
    );
    assert_eq!(usd.look_within().2, a(470_811_766_676_848_507_406));
    assert_eq!(usd.tcr(0, d(1)), Ok(a(1_699_999_999_999_999_999)));
    // at or under the backstop nothing more is minted
    assert_eq!(usd.aa_woke(d(1000), true, 0, d(1)), Ok(Woke::Idle));
}
