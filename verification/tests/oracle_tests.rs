use ethereal_usd::decimal::Decimal;
use ethereal_usd::error::UsdError;
use ethereal_usd::ledger::Usd;
use ethereal_usd::oracle::OracleSource;

const ONE: i128 = 1_000_000_000_000_000_000;

fn d(units: u64) -> Decimal {
    Decimal::from_units(units)
}

fn a(attos: i128) -> Decimal {
    Decimal::from_attos(attos)
}

fn fresh(now: i64) -> Usd {
    Usd::from_nothing(a(99 * ONE / 100), a(101 * ONE / 100), a(1001 * ONE / 1000), d(1), now)
        .unwrap()
}

#[test]
fn price_goes_stale_after_five_minutes() {
    let usd = fresh(1000);
    assert_eq!(usd.get_oracle(), (d(1), 1000));
    assert_eq!(usd.guarded_get_oracle(1000), Some(d(1)));
    assert_eq!(usd.guarded_get_oracle(1300), Some(d(1)));
    assert_eq!(usd.guarded_get_oracle(1301), None);
    assert_eq!(usd.guarded_get_oracle(i64::MAX), None);
    assert_eq!(usd.guarded_get_oracle(i64::MIN), Some(d(1)));
    assert_eq!(usd.guarded_get_rescaled_oracle(1300, a(12 * ONE / 10)), Ok(Some(a(12 * ONE / 10))));
    assert_eq!(usd.guarded_get_rescaled_oracle(1301, a(12 * ONE / 10)), Ok(None));
    let huge = Decimal::from_limbs(u64::MAX, u64::MAX, 0x7fff_ffff_ffff_ffff);
    let mut dear = fresh(1000);
    dear.set_oracle(d(2), OracleSource::Primary, 1000).unwrap();
    assert_eq!(dear.guarded_get_rescaled_oracle(1000, huge), Err(UsdError::Arithmetic));
}

#[test]
fn stale_price_blocks_every_ratio() {
    let mut usd = fresh(0);
    usd.first_ecdp(d(100_000), d(1)).unwrap();
    assert_eq!(usd.tcr(301, d(1)), Err(UsdError::StaleOracle));
    assert_eq!(usd.tcr_au_lu(301, d(1)), Err(UsdError::StaleOracle));
    assert_eq!(usd.asset_lp_usd(301, d(1)), Err(UsdError::StaleOracle));
    assert_eq!(usd.liquidate(0, 0, 301, d(1)), Err(UsdError::StaleOracle));
    // a fresh price from the primary source opens them again
    assert_eq!(usd.set_oracle(d(2), OracleSource::Primary, 301), Ok(()));
    assert_eq!(usd.tcr(301, d(1)), Ok(a(257_400_257_400_257_400_257)));
    assert_eq!(
        usd.tcr_au_lu(301, d(1)),
        Ok((a(257_400_257_400_257_400_257), d(200_000), d(777)))
    );
    assert_eq!(usd.asset_lp_usd(301, d(1)), Ok(d(2)));
}

#[test]
fn total_ratio_needs_debt() {
    let usd = fresh(0);
    assert_eq!(usd.tcr(0, d(1)), Err(UsdError::Arithmetic));
}

#[test]
fn primary_source_writes_at_any_time() {
    let mut usd = fresh(1000);
    assert_eq!(usd.set_oracle(a(15 * ONE / 10), OracleSource::Primary, 1000), Ok(()));
    assert_eq!(usd.get_oracle(), (a(15 * ONE / 10), 1000));
    assert_eq!(usd.set_oracle(d(3), OracleSource::Primary, 1001), Ok(()));
    assert_eq!(usd.get_oracle(), (d(3), 1001));
    assert_eq!(usd.look_within().3, d(3));
}

#[test]
fn secondary_source_writes_after_half_an_hour_of_silence() {
    let mut usd = fresh(1000);
    assert_eq!(
        usd.set_oracle(d(2), OracleSource::Secondary, 1000),
        Err(UsdError::OracleWriteDenied)
    );
    assert_eq!(
        usd.set_oracle(d(2), OracleSource::Secondary, 2800),
        Err(UsdError::OracleWriteDenied)
    );
    assert_eq!(usd.get_oracle(), (d(1), 1000));
    assert_eq!(usd.set_oracle(d(2), OracleSource::Secondary, 2801), Ok(()));
    assert_eq!(usd.get_oracle(), (d(2), 2801));
    // its own write starts the wait anew
    assert_eq!(
        usd.set_oracle(d(3), OracleSource::Secondary, 2802),
        Err(UsdError::OracleWriteDenied)
    );
    assert_eq!(usd.set_oracle(d(3), OracleSource::Secondary, 4602), Ok(()));
}

#[test]
fn oracle_write_is_refused() {
    let mut usd = fresh(0);
    assert_eq!(usd.set_oracle(d(2), OracleSource::Other, 5000), Err(UsdError::OracleWriteDenied));
    assert_eq!(usd.set_oracle(d(0), OracleSource::Primary, 1), Err(UsdError::InvalidPrice));
    assert_eq!(usd.set_oracle(a(-1), OracleSource::Secondary, 5000), Err(UsdError::InvalidPrice));
    assert_eq!(usd.set_oracle(a(-1), OracleSource::Other, 5000), Err(UsdError::OracleWriteDenied));
    assert_eq!(usd.get_oracle(), (d(1), 0));
}

#[test]
fn rate_that_is_not_positive_is_refused_by_every_reading() {
    let mut usd = fresh(0);
    usd.first_ecdp(d(100_000), d(1)).unwrap();
    for rate in [d(0), a(-1), a(-ONE)] {
        assert_eq!(usd.tcr(0, rate), Err(UsdError::InvalidRate));
        assert_eq!(usd.tcr_au_lu(0, rate), Err(UsdError::InvalidRate));
        assert_eq!(usd.asset_lp_usd(0, rate), Err(UsdError::InvalidRate));
        assert_eq!(usd.asset_lp_xrd(rate), Err(UsdError::InvalidRate));
        assert_eq!(usd.guarded_get_rescaled_oracle(0, rate), Err(UsdError::InvalidRate));
        // before the staleness of the price
        assert_eq!(usd.tcr(301, rate), Err(UsdError::InvalidRate));
        assert_eq!(usd.guarded_get_rescaled_oracle(301, rate), Err(UsdError::InvalidRate));
    }
    assert_eq!(usd.asset_lp_xrd(a(1)), Ok(a(1)));
}
