//! Defaults of the integer settings of the smear cursor.
use vstd::prelude::*;

verus! {

/// How long the slowest part of the smear takes to catch up with the cursor
pub const DEFAULT_DURATION_MS: u64 = 130;

/// How long a movement that crosses the window is allowed to take
pub const DEFAULT_MAX_DURATION_MS: u64 = 250;

/// Default of `duration_ms`: how long, in milliseconds, a short movement
/// takes to close the smear back up.
pub fn default_duration_ms() -> (ms: u64)
    ensures
        ms == DEFAULT_DURATION_MS,
        ms == 130,
{
    DEFAULT_DURATION_MS
}

/// Default of `max_duration_ms`: how long, in milliseconds, a movement that
/// crosses the window is allowed to take.
pub fn default_max_duration_ms() -> (ms: u64)
    ensures
        ms == DEFAULT_MAX_DURATION_MS,
        ms == 250,
{
    DEFAULT_MAX_DURATION_MS
}

} // verus!
