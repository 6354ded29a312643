//! Accessors through which richer records (price bars) hand one of their
//! values to an indicator.
use vstd::prelude::*;

verus! {

/// A record with a highest value, as the bit pattern of a binary64 number.
pub trait High {
    /// The highest value the record holds.
    spec fn high_value(&self) -> u64;

    fn high(&self) -> (r: u64)
        ensures
            r == self.high_value(),
    ;
}

/// A record with a lowest value, as the bit pattern of a binary64 number.
pub trait Low {
    /// The lowest value the record holds.
    spec fn low_value(&self) -> u64;

    fn low(&self) -> (r: u64)
        ensures
            r == self.low_value(),
    ;
}

} // verus!
