use ethereal_usd::decimal::Decimal;
use ethereal_usd::error::UsdError;
use ethereal_usd::ledger::Usd;
use ethereal_usd::position::Ecdp;
use ethereal_usd::record::UsdRecord;

const ONE: i128 = 1_000_000_000_000_000_000;

fn d(units: u64) -> Decimal {
    Decimal::from_units(units)
}

fn a(attos: i128) -> Decimal {
    Decimal::from_attos(attos)
}

fn ledger(upper_bound: Decimal) -> Usd {
    Usd::from_nothing(a(99 * ONE / 100), upper_bound, a(1001 * ONE / 1000), d(1), 0).unwrap()
}

fn booted() -> Usd {
    let mut usd = ledger(a(101 * ONE / 100));
    assert_eq!(usd.first_ecdp(d(100_000), d(1)), Ok((0, d(777))));
    usd
}

/// The booted ledger with a second position of `assets_lp` collateral
/// shares and `liabilities_lp` debt shares, both share prices at one.
fn with_second_position(assets_lp: u64, liabilities_lp: u64) -> Usd {
    let mut record: UsdRecord = booted().into_record();
    record.positions.push(Ecdp { assets_lp: d(assets_lp), liabilities_lp: d(liabilities_lp) });
    record.assets_lp_total = d(100_000 + assets_lp);
    record.liabilities_lp_total = d(777 + liabilities_lp);
    record.liabilities_total = d(777 + liabilities_lp);
    record.xrd_vault = d(assets_lp);
    Usd::from_record(record).unwrap()
}

#[test]
fn bootstrap_seeds_debt_at_777_and_price_one() {
    let usd = booted();
    let (assets_lp, liabilities_lp, liabilities, oracle) = usd.look_within();
    assert_eq!(assets_lp, d(100_000));
    assert_eq!(liabilities_lp, d(777));
    assert_eq!(liabilities, d(777));
    assert_eq!(oracle, d(1));
    assert_eq!(usd.liability_lp_usd(), Ok(d(1)));
    assert_eq!(usd.asset_lp_xrd(d(1)), Ok(d(1)));
    assert_eq!(usd.asset_lp_usd(0, d(1)), Ok(d(1)));
    assert_eq!(usd.vaults(), (d(100_000), d(0)));
    let first = usd.ecdp(0).unwrap();
    assert_eq!(first.assets_lp, d(100_000));
    assert_eq!(first.liabilities_lp, d(777));
}

#[test]
fn mint_is_held_to_the_minimum_ratio() {
    let mut usd = with_second_position(200, 0);
    assert_eq!(usd.asset_lp_usd(0, d(1)), Ok(d(1)));
    assert_eq!(usd.liability_lp_usd(), Ok(d(1)));

    // 200 / 100 = 2 >= 1.5
    assert_eq!(usd.ecdp_mint(d(100), 1, 0, d(1)), Ok(d(100)));
    assert_eq!(usd.ecdp(1).unwrap().liabilities_lp, d(100));
    let (_, liabilities_lp, liabilities, _) = usd.look_within();
    assert_eq!(liabilities_lp, d(877));
    assert_eq!(liabilities, d(877));

    // 200 / (100 + 100) = 1 < 1.5
    let before = usd.look_within();
    assert_eq!(
        usd.ecdp_mint(d(100), 1, 0, d(1)),
        Err(UsdError::BelowMinimumCollateralization)
    );
    assert_eq!(usd.look_within(), before);
    assert_eq!(usd.ecdp(1).unwrap().liabilities_lp, d(100));

    // 200 / 134 < 1.5 <= 200 / 133
    assert_eq!(
        usd.ecdp_mint(d(34), 1, 0, d(1)),
        Err(UsdError::BelowMinimumCollateralization)
    );
    assert_eq!(usd.ecdp_mint(d(33), 1, 0, d(1)), Ok(d(33)));
}

#[test]
fn mint_with_prior_debt_counts_it() {
    // 200 / (100 + 34) < 1.5
    let mut usd = with_second_position(200, 34);
    assert_eq!(
        usd.ecdp_mint(d(100), 1, 0, d(1)),
        Err(UsdError::BelowMinimumCollateralization)
    );
    // 200 / (100 + 33) >= 1.5
    let mut usd = with_second_position(200, 33);
    assert_eq!(usd.ecdp_mint(d(100), 1, 0, d(1)), Ok(d(100)));
    assert_eq!(usd.ecdp(1).unwrap().liabilities_lp, d(133));
}

#[test]
fn poke_above_the_band_steers_to_its_upper_edge() {
    let usd = ledger(a(105 * ONE / 100));
    assert_eq!(
        usd.aa_poke(a(112 * ONE / 100), 0, d(1)),
        Ok(Some((a(105 * ONE / 100), d(1), true)))
    );
}

#[test]
fn share_price_follows_the_redemption_rate() {
    let usd = booted();
    assert_eq!(usd.asset_lp_xrd(d(1)), Ok(d(1)));
    assert_eq!(usd.asset_lp_xrd(a(110 * ONE / 100)), Ok(a(110 * ONE / 100)));
}

#[test]
fn dust_is_liquidated_above_the_minimum_ratio() {
    let mut usd = with_second_position(28, 10);
    // ratio 2.8, collateral worth 28 USD
    assert_eq!(usd.liquidate(1, 0, 0, d(1)), Ok(true));

    let target = usd.ecdp(1).unwrap();
    assert_eq!(target.liabilities_lp, d(0));
    // 28 * 0.99 - 10 = 17.72
    assert_eq!(target.assets_lp, a(1772 * ONE / 100));
    // the liquidator's hundredth: 0.28
    assert_eq!(usd.ecdp(0).unwrap().assets_lp, a(100_000 * ONE + 28 * ONE / 100));
    let (assets_lp, liabilities_lp, liabilities, _) = usd.look_within();
    assert_eq!(assets_lp, d(100_018));
    assert_eq!(liabilities_lp, d(777));
    assert_eq!(liabilities, d(787));

    // without debt the position is under no ratio, but it is still dust:
    // another hundredth goes to the liquidator, and the rest stays, less
    // the rounding of the way through USD and back
    assert_eq!(usd.liquidate(1, 0, 0, d(1)), Ok(true));
    assert_eq!(
        usd.ecdp(1).unwrap(),
        Ecdp { assets_lp: a(17_542_799_999_999_999_991), liabilities_lp: d(0) }
    );
    assert_eq!(usd.ecdp(0).unwrap().assets_lp, a(100_000_457_200_000_000_000_000));
    let (assets_lp, liabilities_lp, liabilities, _) = usd.look_within();
    assert_eq!(assets_lp, a(100_017_999_999_999_999_999_991));
    assert_eq!(liabilities_lp, d(777));
    assert_eq!(liabilities, d(787));
}

#[test]
fn position_without_debt_is_safe_unless_dust() {
    let mut usd = with_second_position(1000, 0);
    assert_eq!(usd.liquidate(1, 0, 0, d(1)), Ok(false));
    assert_eq!(usd.ecdp(1).unwrap(), Ecdp { assets_lp: d(1000), liabilities_lp: d(0) });
    assert_eq!(usd.look_within(), (d(101_000), d(777), d(777), d(1)));

    let mut usd = with_second_position(30, 0);
    assert_eq!(usd.liquidate(1, 0, 0, d(1)), Ok(false));

    // worth 29: dust, whatever it owes
    let mut usd = with_second_position(29, 0);
    assert_eq!(usd.liquidate(1, 0, 0, d(1)), Ok(true));
    assert_eq!(usd.ecdp(1).unwrap(), Ecdp { assets_lp: a(2871 * ONE / 100), liabilities_lp: d(0) });
    assert_eq!(usd.ecdp(0).unwrap().assets_lp, a(100_000 * ONE + 29 * ONE / 100));
    assert_eq!(usd.look_within(), (d(100_029), d(777), d(777), d(1)));
}

#[test]
fn collateral_at_the_dust_floor_is_safe() {
    let mut usd = with_second_position(30, 10);
    assert_eq!(usd.liquidate(1, 0, 0, d(1)), Ok(false));
    assert_eq!(usd.ecdp(1).unwrap(), Ecdp { assets_lp: d(30), liabilities_lp: d(10) });
}
