use ethereal_usd::decimal::Decimal;
use ethereal_usd::error::UsdError;
use ethereal_usd::ledger::Usd;
use ethereal_usd::oracle::OracleSource;
use ethereal_usd::position::Ecdp;

const ONE: i128 = 1_000_000_000_000_000_000;

fn d(units: u64) -> Decimal {
    Decimal::from_units(units)
}

fn a(attos: i128) -> Decimal {
    Decimal::from_attos(attos)
}

/// A first position of 100 000 shares and 777 debt, and a second of 300
/// shares and 200 debt, every share worth one base asset.
fn ledger() -> Usd {
    let mut usd =
        Usd::from_nothing(a(99 * ONE / 100), a(101 * ONE / 100), a(1001 * ONE / 1000), d(1), 0)
            .unwrap();
    usd.first_ecdp(d(100_000), d(1)).unwrap();
    let mut record = usd.into_record();
    record.positions.push(Ecdp { assets_lp: d(300), liabilities_lp: d(200) });
    record.assets_lp_total = d(100_300);
    record.liabilities_lp_total = d(977);
    record.liabilities_total = d(977);
    record.xrd_vault = d(300);
    Usd::from_record(record).unwrap()
}

fn priced(price: Decimal) -> Usd {
    let mut usd = ledger();
    usd.set_oracle(price, OracleSource::Primary, 0).unwrap();
    usd
}

#[test]
fn safe_position_is_left_alone() {
    let mut usd = ledger();
    // 300 / 200 = 1.5
    assert_eq!(usd.liquidate(1, 0, 0, d(1)), Ok(false));
    assert_eq!(usd.ecdp(1), Some(Ecdp { assets_lp: d(300), liabilities_lp: d(200) }));
    assert_eq!(usd.ecdp(0), Some(Ecdp { assets_lp: d(100_000), liabilities_lp: d(777) }));
    assert_eq!(usd.look_within(), (d(100_300), d(977), d(977), d(1)));
    // and again
    assert_eq!(usd.liquidate(1, 0, 0, d(1)), Ok(false));
    assert_eq!(usd.look_within(), (d(100_300), d(977), d(977), d(1)));
}

#[test]
fn position_under_the_minimum_ratio_keeps_what_is_left_after_its_debt() {
    let mut usd = priced(a(9 * ONE / 10));
    // 300 * 0.9 / 200 = 1.35
    assert_eq!(usd.liquidate(1, 0, 0, d(1)), Ok(true));
    // 297 shares are worth 267.3 USD; 67.3 USD are left after the debt,
    // which at 1 / 0.9 = 1.111111111111111111 shares per USD makes
    // 74.77777777777777777 shares
    assert_eq!(
        usd.ecdp(1),
        Some(Ecdp { assets_lp: a(74_777_777_777_777_777_770), liabilities_lp: d(0) })
    );
    assert_eq!(usd.ecdp(0), Some(Ecdp { assets_lp: d(100_003), liabilities_lp: d(777) }));
    assert_eq!(
        usd.look_within(),
        (a(100_077_777_777_777_777_777_770), d(777), d(977), a(9 * ONE / 10))
    );
    // the pools are untouched
    assert_eq!(usd.vaults(), (d(100_000), d(300)));
}

#[test]
fn bad_debt_wipes_the_position_out() {
    let mut usd = priced(a(5 * ONE / 10));
    // 297 shares are worth 148.5 USD against a debt of 200
    assert_eq!(usd.liquidate(1, 0, 0, d(1)), Ok(true));
    assert_eq!(usd.ecdp(1), Some(Ecdp { assets_lp: d(0), liabilities_lp: d(0) }));
    assert_eq!(usd.ecdp(0), Some(Ecdp { assets_lp: d(100_003), liabilities_lp: d(777) }));
    assert_eq!(usd.look_within(), (d(100_003), d(777), d(977), a(5 * ONE / 10)));
}

#[test]
fn liquidator_may_be_the_liquidated() {
    let mut usd = priced(a(9 * ONE / 10));
    assert_eq!(usd.liquidate(1, 1, 0, d(1)), Ok(true));
    // what is left after the debt, and the cut of 3 on top
    assert_eq!(
        usd.ecdp(1),
        Some(Ecdp { assets_lp: a(77_777_777_777_777_777_770), liabilities_lp: d(0) })
    );
    assert_eq!(usd.ecdp(0), Some(Ecdp { assets_lp: d(100_000), liabilities_lp: d(777) }));
    assert_eq!(
        usd.look_within(),
        (a(100_077_777_777_777_777_777_770), d(777), d(977), a(9 * ONE / 10))
    );
}

#[test]
fn liquidation_is_refused() {
    let mut usd = priced(a(9 * ONE / 10));
    assert_eq!(usd.liquidate(2, 0, 0, d(1)), Err(UsdError::UnknownPosition));
    assert_eq!(usd.liquidate(1, 2, 0, d(1)), Err(UsdError::UnknownPosition));
    assert_eq!(usd.liquidate(1, 0, 0, d(0)), Err(UsdError::InvalidRate));
    assert_eq!(usd.liquidate(1, 0, 301, d(1)), Err(UsdError::StaleOracle));
    usd.start_stop(true);
    assert_eq!(usd.liquidate(1, 0, 0, d(1)), Err(UsdError::Halted));
    usd.start_stop(false);
    assert_eq!(usd.ecdp(1), Some(Ecdp { assets_lp: d(300), liabilities_lp: d(200) }));
    assert_eq!(usd.look_within(), (d(100_300), d(977), d(977), a(9 * ONE / 10)));
    assert_eq!(usd.liquidate(1, 0, 300, d(1)), Ok(true));
}

#[test]
fn liquidated_debt_falls_on_the_remaining_shares() {
    let mut usd = priced(a(9 * ONE / 10));
    assert_eq!(usd.liability_lp_usd(), Ok(d(1)));
    usd.liquidate(1, 0, 0, d(1)).unwrap();
    // 977 of debt on 777 shares
    assert_eq!(usd.liability_lp_usd(), Ok(a(1_257_400_257_400_257_400)));
}
