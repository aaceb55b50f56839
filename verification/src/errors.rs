//! Error types of the indexing core and of the query surface.

use vstd::prelude::*;

verus! {

/// A fatal indexing failure.  The indexing process aborts on any of these
/// and resumes from the persisted checkpoint; the library surfaces them as
/// typed results so that the control loop can unwind deliberately.
#[derive(Clone, Copy, Debug, PartialEq, Eq, Structural)]
pub enum IndexerError {
    /// A chain-native value does not fit the stored width, or a fee
    /// computation exceeds the unsigned wide accumulator.
    Overflow,
    /// A proof event references no batch at all; the even fee split is
    /// undefined for it.
    EmptyProofEvent,
    /// A proved batch is present in the table but the historical balance
    /// pair for its coinbase was not supplied with the observation.
    MissingBalanceData,
    /// The coinbase balance at the end of the batch span is lower than at
    /// its start, so no non-negative fee can be earned.
    BalanceDecreased,
    /// A configuration value that must be positive is zero.
    InvalidConfig,
}

/// A request-level failure of the read-only query surface; never fatal.
#[derive(Clone, Copy, Debug, PartialEq, Eq, Structural)]
pub enum QueryError {
    /// The batch-id range bounds are inverted or empty.
    InvalidRange,
    /// The integrity check found no batch in the requested range.
    NoBatchesInRange,
    /// The integrity check found a gap in the requested range.
    IncompleteRange,
    /// A stored fee string is not a decimal number.
    FeeParse,
    /// A fee value or a fee sum exceeds the unsigned wide accumulator.
    FeeOverflow,
}

impl QueryError {
    /// The client-facing message, as the query surface reports it.
    pub fn message(&self) -> (r: String)
        ensures
            *self == QueryError::InvalidRange ==> r@ == "from must be less than to"@,
            *self == QueryError::NoBatchesInRange ==> r@ == "Integrity error: No batches found in range"@,
            *self == QueryError::IncompleteRange ==> r@ == "Integrity error: Not all batches found in range"@,
            *self == QueryError::FeeParse ==> r@ == "Cannot parse propose fee"@,
            *self == QueryError::FeeOverflow ==> r@ == "Fee total does not fit the accumulator"@,
    {
        match self {
            QueryError::InvalidRange => String::from_str("from must be less than to"),
            QueryError::NoBatchesInRange => String::from_str("Integrity error: No batches found in range"),
            QueryError::IncompleteRange => String::from_str("Integrity error: Not all batches found in range"),
            QueryError::FeeParse => String::from_str("Cannot parse propose fee"),
            QueryError::FeeOverflow => String::from_str("Fee total does not fit the accumulator"),
        }
    }
}

} // verus!
