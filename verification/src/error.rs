//! The typed failures of the store's fallible operations.

use vstd::prelude::*;

verus! {

/// A typed failure of a store operation.  Lookups that match nothing are
/// not errors: they return empty results.
#[derive(Debug, Copy, Clone, PartialEq, Eq, Structural)]
pub enum StoreError {
    /// A field-targeted operation named the id column, which identifies
    /// records and is never a legal target.
    InvalidFieldTarget,
    /// A level token did not name one of the five difficulty tiers.
    InvalidLevel,
    /// A value did not satisfy the targeted column's constraints: an empty
    /// text for a required text column, or a token that does not parse as
    /// the column's type.
    InvalidValue,
    /// The monotonic id counter would leave the engine's integer range.
    IdOverflow,
    /// A practice counter, or a sum of practice counters, would leave the
    /// engine's integer range.
    CounterOverflow,
}

} // verus!
