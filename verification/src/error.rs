use vstd::prelude::*;

verus! {

/// Why an operation on a treasury was rejected.
#[derive(Clone, Copy, Debug, PartialEq, Eq, Structural)]
pub enum TreasuryError {
    /// The shares of the owners do not add up to 10000 basis points.
    InvalidBpsTotal,
    /// An account handed to a distribution is not an owner of the treasury.
    OwnerNotFound,
    /// An owner was handed to a distribution more than once.
    DuplicateOwner,
    /// A distribution was handed more or fewer accounts than the treasury has owners.
    InvalidOwnersCount,
    /// The treasury has not been marked closeable.
    TreasuryIsNotCloseable,
    /// The treasury still holds funds that can be distributed.
    TreasuryIsNotEmpty,
}

} // verus!
