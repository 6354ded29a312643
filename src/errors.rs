use vstd::prelude::*;

verus! {

/// The errors reported by the indicators of this library.
#[derive(Debug, PartialEq, Eq, Clone, Copy, Structural)]
pub enum TaError {
    InvalidParameter,
    DataItemIncomplete,
    DataItemInvalid,
}

} // verus!
