//! Failure kinds reported by the lifecycle operations.

use vstd::prelude::*;

verus! {

/// Why an operation on a team or its sign-up sheet was refused.
#[derive(Clone, Copy, Debug, PartialEq, Eq, Structural)]
pub enum CoreError {
    /// A user-supplied field was empty or malformed.
    InvalidInput,
    /// The team does not exist, or it has no sign-up sheet open.
    NotFound,
    /// The supplied admin secret differs from the stored one.
    Unauthorized,
    /// The team points at a sheet that the store no longer holds.
    GameMissing,
    /// The random source could not supply bytes for a token.
    EntropyUnavailable,
}

/// Why no trigger instant could be computed for a schedule.
#[derive(Clone, Copy, Debug, PartialEq, Eq, Structural)]
pub enum ScheduleError {
    /// The cron expression does not follow the grammar.
    InvalidExpression,
    /// The time zone identifier is not known.
    InvalidTimezone,
    /// No occurrence lies within the supported calendar range.
    NoOccurrence,
}

} // verus!
