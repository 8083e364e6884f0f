//! Writing the price: the primary source may write at any time, the
//! secondary only once the price has gone unwritten for half an hour.

use vstd::prelude::*;
use crate::decimal::Decimal;
use crate::error::UsdError;
use crate::ledger::Usd;
use crate::ledger::UsdState;

verus! {

/// Seconds that the price must have gone unwritten before the secondary
/// source may write it.
pub open spec fn failover_delay() -> int {
    1800
}

/// Who presents a price.
#[derive(Clone, Copy, Debug, PartialEq, Eq, Structural)]
pub enum OracleSource {
    /// The holder of the primary oracle badge.
    Primary,
    /// The holder of the secondary oracle badge.
    Secondary,
    /// Anyone else.
    Other,
}

impl UsdState {
    /// Whether `source` may write the price at time `now`.
    pub open spec fn may_write(self, source: OracleSource, now: int) -> bool {
        source == OracleSource::Primary || (source == OracleSource::Secondary && now
            - self.oracle_timestamp > failover_delay())
    }

    /// Writing price `exch` at time `now`.
    pub open spec fn set_oracle(self, exch: int, source: OracleSource, now: int) -> Result<
        UsdState,
        UsdError,
    > {
        if !self.may_write(source, now) {
            Err(UsdError::OracleWriteDenied)
        } else if exch <= 0 {
            Err(UsdError::InvalidPrice)
        } else {
            Ok(UsdState { oracle: exch, oracle_timestamp: now, ..self })
        }
    }
}

impl UsdState {
    /// Writing the price leaves a valid ledger valid: only a positive price
    /// is taken.
    pub proof fn law_set_oracle_keeps_valid(self, exch: int, source: OracleSource, now: int)
        requires
            self.wf(),
            self.set_oracle(exch, source, now) is Ok,
        ensures
            self.set_oracle(exch, source, now).unwrap().wf(),
    {
    }
}

impl Usd {
    /// Writes the price `exch`, presented by `source` at time `now`.
    pub fn set_oracle(&mut self, exch: Decimal, source: OracleSource, now: i64) -> (r: Result<
        (),
        UsdError,
    >)
        ensures
            match r {
                Ok(_) => old(self)@.set_oracle(exch@, source, now as int) == Ok::<
                    UsdState,
                    UsdError,
                >(final(self)@),
                Err(e) => {
                    &&& old(self)@.set_oracle(exch@, source, now as int) == Err::<
                        UsdState,
                        UsdError,
                    >(e)
                    &&& *final(self) == *old(self)
                },
            },
            old(self)@.wf() ==> final(self)@.wf(),
    {
        let age: i128 = (now as i128) - (self.oracle_timestamp as i128);
        let allowed = match source {
            OracleSource::Primary => true,
            OracleSource::Secondary => age > 1800,
            OracleSource::Other => false,
        };
        if !allowed {
            return Err(UsdError::OracleWriteDenied);
        }
        if !exch.is_positive() {
            return Err(UsdError::InvalidPrice);
        }
        self.oracle = exch;
        self.oracle_timestamp = now;
        Ok(())
    }
}

} // verus!
