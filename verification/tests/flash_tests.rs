use ethereal_usd::decimal::Decimal;
use ethereal_usd::error::UsdError;
use ethereal_usd::flash::Flash;
use ethereal_usd::ledger::Usd;

const ONE: i128 = 1_000_000_000_000_000_000;

fn d(units: u64) -> Decimal {
    Decimal::from_units(units)
}

fn a(attos: i128) -> Decimal {
    Decimal::from_attos(attos)
}

/// 100 000 staked collateral and 100 base asset in the pools, fee 1.001.
fn booted() -> Usd {
    let mut usd =
        Usd::from_nothing(a(99 * ONE / 100), a(101 * ONE / 100), a(1001 * ONE / 1000), d(1), 0)
            .unwrap();
    usd.first_ecdp(d(100_000), d(1)).unwrap();
    usd.open_ecdp(d(100)).unwrap();
    usd
}

#[test]
fn loan_pays_out_and_records_what_is_owed() {
    let mut usd = booted();
    let (payout, flash) = usd.flash_loan_start(d(500), true).unwrap();
    assert_eq!(payout, d(500));
    assert_eq!(flash.size, a(5005 * ONE / 10));
    assert_eq!(flash.isloan, Some(true));
    assert_eq!(usd.vaults(), (d(99_500), d(100)));
    assert_eq!(usd.flags(), (false, true, false));

    // short by a hundredth
    let short = Flash { size: flash.size, isloan: flash.isloan };
    assert_eq!(
        usd.flash_loan_end(a(50_049 * ONE / 100), true, short, d(1)),
        Err(UsdError::InsufficientRepayment)
    );
    assert_eq!(usd.vaults(), (d(99_500), d(100)));
    assert_eq!(usd.flags(), (false, true, false));

    assert_eq!(usd.flash_loan_end(a(5005 * ONE / 10), true, flash, d(1)), Ok(()));
    assert_eq!(usd.vaults(), (a(1_000_005 * ONE / 10), d(100)));
    assert_eq!(usd.flags(), (false, false, false));
}

#[test]
fn staked_loan_repaid_in_base_asset_is_valued_at_the_rate() {
    let rate = a(11 * ONE / 10);
    let mut usd = booted();
    let (_, flash) = usd.flash_loan_start(d(500), true).unwrap();
    // 500.5 staked collateral are worth 550.55 base asset
    let short = Flash { size: flash.size, isloan: flash.isloan };
    assert_eq!(
        usd.flash_loan_end(a(55_054 * ONE / 100), false, short, rate),
        Err(UsdError::InsufficientRepayment)
    );
    assert_eq!(usd.flash_loan_end(a(55_055 * ONE / 100), false, flash, rate), Ok(()));
    assert_eq!(usd.vaults(), (d(99_500), a(65_055 * ONE / 100)));
}

#[test]
fn base_loan_repaid_in_staked_collateral_is_valued_at_the_rate() {
    let rate = a(11 * ONE / 10);
    let mut usd = booted();
    let (payout, flash) = usd.flash_loan_start(d(100), false).unwrap();
    assert_eq!(payout, d(100));
    assert_eq!(flash.size, a(1001 * ONE / 10));
    assert_eq!(flash.isloan, Some(false));
    assert_eq!(usd.vaults(), (d(100_000), d(0)));
    // 90.9 staked collateral are worth 99.99, 91 are worth 100.1
    let short = Flash { size: flash.size, isloan: flash.isloan };
    assert_eq!(
        usd.flash_loan_end(a(909 * ONE / 10), true, short, rate),
        Err(UsdError::InsufficientRepayment)
    );
    assert_eq!(usd.flash_loan_end(d(91), true, flash, rate), Ok(()));
    assert_eq!(usd.vaults(), (d(100_091), d(0)));
}

#[test]
fn base_loan_repaid_in_kind() {
    let mut usd = booted();
    let (_, flash) = usd.flash_loan_start(d(100), false).unwrap();
    assert_eq!(usd.flash_loan_end(a(1001 * ONE / 10), false, flash, d(3)), Ok(()));
    assert_eq!(usd.vaults(), (d(100_000), a(1001 * ONE / 10)));
}

#[test]
fn loan_is_refused() {
    let mut usd = booted();
    assert_eq!(usd.flash_loan_start(a(-1), true).err(), Some(UsdError::InvalidAmount));
    assert_eq!(
        usd.flash_loan_start(a(100_000 * ONE + 1), true).err(),
        Some(UsdError::InsufficientBacking)
    );
    assert_eq!(
        usd.flash_loan_start(a(100 * ONE + 1), false).err(),
        Some(UsdError::InsufficientBacking)
    );
    usd.start_stop(true);
    assert_eq!(usd.flash_loan_start(d(1), true).err(), Some(UsdError::Halted));
    usd.start_stop(false);

    let (_, flash) = usd.flash_loan_start(d(100_000), true).unwrap();
    assert_eq!(usd.flash_loan_start(d(0), true).err(), Some(UsdError::FlashAlreadyActive));
    assert_eq!(usd.flash_loan_start(d(1), false).err(), Some(UsdError::FlashAlreadyActive));
    assert_eq!(usd.vaults(), (d(0), d(100)));

    assert_eq!(
        usd.flash_loan_end(d(1), true, Flash { size: d(1), isloan: None }, d(1)),
        Err(UsdError::WrongFlashKind)
    );
    assert_eq!(
        usd.flash_loan_end(a(-1), true, Flash { size: a(-2), isloan: Some(true) }, d(1)),
        Err(UsdError::InvalidAmount)
    );
    assert_eq!(
        usd.flash_loan_end(d(100_100), true, Flash { size: d(1), isloan: Some(true) }, d(0)),
        Err(UsdError::InvalidRate)
    );
    assert_eq!(usd.flags(), (false, true, false));
    assert_eq!(usd.flash_loan_end(d(100_100), true, flash, d(1)), Ok(()));
    assert_eq!(
        usd.flash_loan_end(d(1), true, Flash { size: d(1), isloan: Some(true) }, d(1)),
        Err(UsdError::FlashNotActive)
    );
}

#[test]
fn loan_fee_that_cannot_be_represented_is_an_arithmetic_fault() {
    let mut usd = booted();
    let huge = Decimal::from_limbs(u64::MAX, u64::MAX, 0x7fff_ffff_ffff_ffff);
    usd.set_params(d(1), d(1), d(1), d(1), d(1), d(1), huge);
    assert_eq!(usd.flash_loan_start(d(2), true).err(), Some(UsdError::Arithmetic));
    assert_eq!(usd.flash_mint_start(d(2)).err(), Some(UsdError::Arithmetic));
    assert_eq!(usd.flags(), (false, false, false));
    assert_eq!(usd.vaults(), (d(100_000), d(100)));
}

#[test]
fn mint_leaves_total_debt_until_repaid() {
    let mut usd = booted();
    let (minted, flash) = usd.flash_mint_start(d(1000)).unwrap();
    assert_eq!(minted, d(1000));
    assert_eq!(flash.size, d(1001));
    assert_eq!(flash.isloan, None);
    assert_eq!(usd.look_within(), (d(100_000), d(777), d(777), d(1)));
    assert_eq!(usd.flags(), (false, false, true));

    let short = Flash { size: flash.size, isloan: None };
    assert_eq!(
        usd.flash_mint_end(a(1001 * ONE - 1), short),
        Err(UsdError::InsufficientRepayment)
    );
    assert_eq!(usd.flags(), (false, false, true));
    assert_eq!(usd.look_within().2, d(777));

    // the fee's part of the repayment, 1001 * 0.001, leaves the total debt
    assert_eq!(usd.flash_mint_end(d(1001), flash), Ok(()));
    assert_eq!(usd.look_within(), (d(100_000), d(777), a(775_999 * ONE / 1000), d(1)));
    assert_eq!(usd.flags(), (false, false, false));
    // and every debt share owes less
    assert_eq!(usd.liability_lp_usd(), Ok(a(998_711_711_711_711_711)));
}

#[test]
fn mint_is_refused() {
    let mut usd = booted();
    assert_eq!(usd.flash_mint_start(a(-1)).err(), Some(UsdError::InvalidAmount));
    assert_eq!(
        usd.flash_mint_end(d(1), Flash { size: d(1), isloan: None }),
        Err(UsdError::FlashNotActive)
    );
    let (_, flash) = usd.flash_mint_start(d(10)).unwrap();
    assert_eq!(usd.flash_mint_start(d(10)).err(), Some(UsdError::FlashAlreadyActive));
    assert_eq!(
        usd.flash_mint_end(d(20), Flash { size: d(1), isloan: Some(false) }),
        Err(UsdError::WrongFlashKind)
    );
    assert_eq!(
        usd.flash_mint_end(a(-1), Flash { size: a(-2), isloan: None }),
        Err(UsdError::InvalidAmount)
    );
    usd.start_stop(true);
    // a halt does not keep an open mint from being repaid
    assert_eq!(usd.flash_mint_end(d(20), flash), Ok(()));
    assert_eq!(usd.flash_mint_start(d(10)).err(), Some(UsdError::Halted));
}

#[test]
fn open_flash_blocks_liquidation_and_poke() {
    let mut usd = booted();
    let (_, flash) = usd.flash_mint_start(d(10)).unwrap();
    assert_eq!(usd.liquidate(0, 1, 0, d(1)), Err(UsdError::FlashAlreadyActive));
    assert_eq!(usd.aa_poke(d(1), 0, d(1)), Err(UsdError::FlashAlreadyActive));
    usd.flash_mint_end(d(11), flash).unwrap();
    let (_, flash) = usd.flash_loan_start(d(10), true).unwrap();
    assert_eq!(usd.liquidate(0, 1, 0, d(1)), Err(UsdError::FlashAlreadyActive));
    assert_eq!(usd.aa_poke(d(1), 0, d(1)), Err(UsdError::FlashAlreadyActive));
    usd.flash_loan_end(d(11), true, flash, d(1)).unwrap();
    assert_eq!(usd.aa_poke(d(1), 0, d(1)), Ok(None));
}

#[test]
fn discarded_flash_mint_leaves_total_debt_unchanged() {
    let committed = booted();
    let before = committed.look_within();
    {
        // the operation works on its own copy; it never calls the matching
        // end, so the copy is dropped and nothing is committed
        let mut scratch = committed.clone();
        let (minted, flash) = scratch.flash_mint_start(d(5000)).unwrap();
        assert_eq!(minted, d(5000));
        assert_eq!(flash.size, d(5005));
        assert_eq!(scratch.look_within().2, before.2);
    }
    assert_eq!(committed.look_within(), before);
    assert_eq!(committed.flags(), (false, false, false));
}
