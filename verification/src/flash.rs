//! Flash issuance: collateral lent, or stablecoin minted, against a receipt
//! that must be redeemed before the enclosing operation ends. One loan and
//! one mint can be open at a time.
//!
//! A [`Flash`] receipt cannot be copied, and only the matching `end`
//! consumes it. That an unredeemed receipt undoes the whole operation is
//! the host's guarantee, not the ledger's.

use vstd::prelude::*;
use crate::decimal::Decimal;
use crate::decimal::add_spec;
use crate::decimal::mul_opt;
use crate::decimal::mul_spec;
use crate::decimal::one_attos;
use crate::decimal::sub_opt;
use crate::decimal::sub_spec;
use crate::error::UsdError;
use crate::ledger::Usd;
use crate::ledger::UsdState;

verus! {

/// A receipt as the model sees it.
pub struct FlashState {
    /// What must come back, fee included.
    pub size: int,
    /// `None` for a mint; for a loan, whether staked collateral was lent.
    pub isloan: Option<bool>,
}

/// The receipt of an open flash operation.
#[derive(Debug)]
pub struct Flash {
    pub size: Decimal,
    pub isloan: Option<bool>,
}

impl View for Flash {
    type V = FlashState;

    open spec fn view(&self) -> FlashState {
        FlashState { size: self.size@, isloan: self.isloan }
    }
}

impl UsdState {
    /// The pool of staked collateral where `exrd`, of base asset otherwise.
    pub open spec fn held(self, exrd: bool) -> int {
        if exrd {
            self.exrd
        } else {
            self.xrd
        }
    }

    /// The ledger with one pool's balance replaced.
    pub open spec fn with_held(self, exrd: bool, amount: int) -> UsdState {
        if exrd {
            UsdState { exrd: amount, ..self }
        } else {
            UsdState { xrd: amount, ..self }
        }
    }

    /// Lending `size` from a pool: the receipt records the size times the
    /// flash fee.
    pub open spec fn flash_loan_start(self, size: int, res: bool) -> Result<
        (UsdState, FlashState),
        UsdError,
    > {
        if !self.running() {
            Err(UsdError::Halted)
        } else if size < 0 {
            Err(UsdError::InvalidAmount)
        } else if size > self.held(res) {
            Err(UsdError::InsufficientBacking)
        } else if self.fl_active {
            Err(UsdError::FlashAlreadyActive)
        } else {
            let owed = mul_spec(size, self.flash_fee);
            let left = sub_spec(self.held(res), size);
            if owed is None || left is None {
                Err(UsdError::Arithmetic)
            } else {
                Ok(
                    (
                        UsdState { fl_active: true, ..self.with_held(res, left.unwrap()) },
                        FlashState { size: owed.unwrap(), isloan: Some(res) },
                    ),
                )
            }
        }
    }

    /// What a repayment of `amount` counts for, and what is due, each in
    /// the form that the other is measured in: a repayment in the form that
    /// was lent is taken at par; base asset for staked collateral must
    /// reach the receipt's worth at the redemption rate; staked collateral
    /// for base asset counts at its worth at that rate.
    pub open spec fn repayment(amount: int, exrd: bool, size: int, lent_exrd: bool, rate: int) -> (
        Option<int>,
        Option<int>,
    ) {
        if exrd == lent_exrd {
            (Some(amount), Some(size))
        } else if lent_exrd {
            (Some(amount), mul_spec(rate, size))
        } else {
            (mul_spec(rate, amount), Some(size))
        }
    }

    /// Repaying a loan with `amount`, in staked collateral where `exrd`.
    pub open spec fn flash_loan_end(self, amount: int, exrd: bool, flash: FlashState, rate: int)
        -> Result<UsdState, UsdError> {
        if !self.fl_active {
            Err(UsdError::FlashNotActive)
        } else if flash.isloan is None {
            Err(UsdError::WrongFlashKind)
        } else if amount < 0 {
            Err(UsdError::InvalidAmount)
        } else if rate <= 0 {
            Err(UsdError::InvalidRate)
        } else {
            let (paid, due) = Self::repayment(amount, exrd, flash.size, flash.isloan.unwrap(), rate);
            let held = add_spec(self.held(exrd), amount);
            if paid is None || due is None || held is None {
                Err(UsdError::Arithmetic)
            } else if paid.unwrap() < due.unwrap() {
                Err(UsdError::InsufficientRepayment)
            } else {
                Ok(UsdState { fl_active: false, ..self.with_held(exrd, held.unwrap()) })
            }
        }
    }

    /// Minting `size` stablecoin against a receipt for the size times the
    /// flash fee. The total debt does not move.
    pub open spec fn flash_mint_start(self, size: int) -> Result<(UsdState, FlashState), UsdError> {
        if !self.running() {
            Err(UsdError::Halted)
        } else if size < 0 {
            Err(UsdError::InvalidAmount)
        } else if self.fm_active {
            Err(UsdError::FlashAlreadyActive)
        } else {
            match mul_spec(size, self.flash_fee) {
                None => Err(UsdError::Arithmetic),
                Some(owed) => Ok(
                    (UsdState { fm_active: true, ..self }, FlashState { size: owed, isloan: None }),
                ),
            }
        }
    }

    /// Repaying a mint with `amount` stablecoin: the total debt falls by
    /// the fee's part of the amount, which is the amount times the flash
    /// fee less one. Nothing was added to the total when the mint was
    /// opened, so every debt share owes that much less from now on.
    pub open spec fn flash_mint_end(self, amount: int, flash: FlashState) -> Result<
        UsdState,
        UsdError,
    > {
        if !self.fm_active {
            Err(UsdError::FlashNotActive)
        } else if flash.isloan is Some {
            Err(UsdError::WrongFlashKind)
        } else if amount < 0 {
            Err(UsdError::InvalidAmount)
        } else if amount < flash.size {
            Err(UsdError::InsufficientRepayment)
        } else {
            let written_off = mul_opt(Some(amount), sub_spec(self.flash_fee, one_attos()));
            match sub_opt(Some(self.liabilities_total), written_off) {
                None => Err(UsdError::Arithmetic),
                Some(total) => Ok(UsdState { fm_active: false, liabilities_total: total, ..self }),
            }
        }
    }
}

impl UsdState {
    /// Opening a loan leaves a valid ledger valid: no pool lends more than
    /// it holds.
    pub proof fn law_flash_loan_start_keeps_valid(self, size: int, res: bool)
        requires
            self.wf(),
            self.flash_loan_start(size, res) is Ok,
        ensures
            self.flash_loan_start(size, res).unwrap().0.wf(),
    {
    }

    /// Repaying a loan leaves a valid ledger valid.
    pub proof fn law_flash_loan_end_keeps_valid(
        self,
        amount: int,
        exrd: bool,
        flash: FlashState,
        rate: int,
    )
        requires
            self.wf(),
            self.flash_loan_end(amount, exrd, flash, rate) is Ok,
        ensures
            self.flash_loan_end(amount, exrd, flash, rate).unwrap().wf(),
    {
    }

    /// Opening a flash mint leaves a valid ledger valid.
    pub proof fn law_flash_mint_start_keeps_valid(self, size: int)
        requires
            self.wf(),
            self.flash_mint_start(size) is Ok,
        ensures
            self.flash_mint_start(size).unwrap().0.wf(),
    {
    }

    /// Repaying a flash mint leaves a valid ledger valid.
    pub proof fn law_flash_mint_end_keeps_valid(self, amount: int, flash: FlashState)
        requires
            self.wf(),
            self.flash_mint_end(amount, flash) is Ok,
        ensures
            self.flash_mint_end(amount, flash).unwrap().wf(),
    {
    }
}

impl Usd {
    /// Lends `size` of staked collateral where `res`, of base asset
    /// otherwise. Gives the amount paid out and the receipt.
    pub fn flash_loan_start(&mut self, size: Decimal, res: bool) -> (r: Result<
        (Decimal, Flash),
        UsdError,
    >)
        ensures
            old(self)@.wf() ==> final(self)@.wf(),
            match r {
                Ok(out) => {
                    &&& old(self)@.flash_loan_start(size@, res) == Ok::<
                        (UsdState, FlashState),
                        UsdError,
                    >((final(self)@, out.1@))
                    &&& out.0 == size
                },
                Err(e) => {
                    &&& old(self)@.flash_loan_start(size@, res) == Err::<
                        (UsdState, FlashState),
                        UsdError,
                    >(e)
                    &&& *final(self) == *old(self)
                },
            },
    {
        if self.stopped || !self.powered {
            return Err(UsdError::Halted);
        }
        if size.is_negative() {
            return Err(UsdError::InvalidAmount);
        }
        let held = if res {
            self.exrd_vault
        } else {
            self.xrd_vault
        };
        if size.gt(&held) {
            return Err(UsdError::InsufficientBacking);
        }
        if self.fl_active {
            return Err(UsdError::FlashAlreadyActive);
        }
        let owed = size.times(self.flash_fee)?;
        let left = held.minus(size)?;
        self.fl_active = true;
        if res {
            self.exrd_vault = left;
        } else {
            self.xrd_vault = left;
        }
        Ok((size, Flash { size: owed, isloan: Some(res) }))
    }

    /// Takes `amount` in repayment of the loan that `flash` is the receipt
    /// of: staked collateral where `exrd`, base asset otherwise.
    pub fn flash_loan_end(&mut self, amount: Decimal, exrd: bool, flash: Flash, exrdxrd: Decimal)
        -> (r: Result<(), UsdError>)
        ensures
            old(self)@.wf() ==> final(self)@.wf(),
            match r {
                Ok(_) => old(self)@.flash_loan_end(amount@, exrd, flash@, exrdxrd@) == Ok::<
                    UsdState,
                    UsdError,
                >(final(self)@),
                Err(e) => {
                    &&& old(self)@.flash_loan_end(amount@, exrd, flash@, exrdxrd@) == Err::<
                        UsdState,
                        UsdError,
                    >(e)
                    &&& *final(self) == *old(self)
                },
            },
    {
        if !self.fl_active {
            return Err(UsdError::FlashNotActive);
        }
        let lent_exrd = match flash.isloan {
            Some(b) => b,
            None => {
                return Err(UsdError::WrongFlashKind);
            },
        };
        if amount.is_negative() {
            return Err(UsdError::InvalidAmount);
        }
        if !exrdxrd.is_positive() {
            return Err(UsdError::InvalidRate);
        }
        let paid = if exrd == lent_exrd || lent_exrd {
            amount
        } else {
            exrdxrd.times(amount)?
        };
        let due = if exrd != lent_exrd && lent_exrd {
            exrdxrd.times(flash.size)?
        } else {
            flash.size
        };
        let held = if exrd {
            self.exrd_vault.plus(amount)?
        } else {
            self.xrd_vault.plus(amount)?
        };
        if paid.lt(&due) {
            return Err(UsdError::InsufficientRepayment);
        }
        self.fl_active = false;
        if exrd {
            self.exrd_vault = held;
        } else {
            self.xrd_vault = held;
        }
        Ok(())
    }

    /// Mints `size` stablecoin to the caller. Gives the amount minted and
    /// the receipt.
    pub fn flash_mint_start(&mut self, size: Decimal) -> (r: Result<(Decimal, Flash), UsdError>)
        ensures
            match r {
                Ok(out) => {
                    &&& old(self)@.flash_mint_start(size@) == Ok::<
                        (UsdState, FlashState),
                        UsdError,
                    >((final(self)@, out.1@))
                    &&& out.0 == size
                },
                Err(e) => {
                    &&& old(self)@.flash_mint_start(size@) == Err::<
                        (UsdState, FlashState),
                        UsdError,
                    >(e)
                    &&& *final(self) == *old(self)
                },
            },
            final(self)@.liabilities_total == old(self)@.liabilities_total,
            old(self)@.wf() ==> final(self)@.wf(),
    {
        if self.stopped || !self.powered {
            return Err(UsdError::Halted);
        }
        if size.is_negative() {
            return Err(UsdError::InvalidAmount);
        }
        if self.fm_active {
            return Err(UsdError::FlashAlreadyActive);
        }
        let owed = size.times(self.flash_fee)?;
        self.fm_active = true;
        Ok((size, Flash { size: owed, isloan: None }))
    }

    /// Burns `amount` stablecoin in repayment of the mint that `flash` is
    /// the receipt of.
    pub fn flash_mint_end(&mut self, amount: Decimal, flash: Flash) -> (r: Result<(), UsdError>)
        ensures
            match r {
                Ok(_) => old(self)@.flash_mint_end(amount@, flash@) == Ok::<UsdState, UsdError>(
                    final(self)@,
                ),
                Err(e) => {
                    &&& old(self)@.flash_mint_end(amount@, flash@) == Err::<UsdState, UsdError>(e)
                    &&& *final(self) == *old(self)
                },
            },
            old(self)@.wf() ==> final(self)@.wf(),
    {
        if !self.fm_active {
            return Err(UsdError::FlashNotActive);
        }
        if flash.isloan.is_some() {
            return Err(UsdError::WrongFlashKind);
        }
        if amount.is_negative() {
            return Err(UsdError::InvalidAmount);
        }
        if amount.lt(&flash.size) {
            return Err(UsdError::InsufficientRepayment);
        }
        let written_off = amount.times(self.flash_fee.minus(Decimal::one())?)?;
        let total = self.liabilities_total.minus(written_off)?;
        self.fm_active = false;
        self.liabilities_total = total;
        Ok(())
    }
}

} // verus!
