use vstd::prelude::*;

verus! {

/// Identifies a client account; stable for the process lifetime, never reused.
pub type ClientId = u16;

/// Identifies a deposit or withdrawal; unique over the whole input stream and
/// used as the join key for dispute, resolve and chargeback.
pub type TransactionId = u32;

/// A signed monetary value with exactly four fractional decimal digits,
/// stored as a count of ten-thousandths. All arithmetic on amounts and
/// balances is exact integer arithmetic on this count; there is no rounding.
#[derive(Clone, Copy, Debug, PartialEq, Eq, Structural)]
pub struct Amount {
    pub units: i64,
}

impl View for Amount {
    type V = int;

    open spec fn view(&self) -> int {
        self.units as int
    }
}

impl Amount {
    /// The amount worth `units` ten-thousandths, so `from_units(51234)`
    /// is 5.1234 currency units.
    pub fn from_units(units: i64) -> (r: Amount)
        ensures
            r@ == units as int,
    {
        Amount { units }
    }

    /// The zero amount.
    pub fn zero() -> (r: Amount)
        ensures
            r@ == 0,
    {
        Amount { units: 0 }
    }
}

/// Whether a balance value fits the machine representation of an `Amount`.
pub open spec fn in_range(v: int) -> bool {
    i64::MIN <= v <= i64::MAX
}

} // verus!
