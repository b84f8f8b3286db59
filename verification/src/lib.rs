//! Verified decision logic of the "smear" cursor animation: configuration
//! defaults, the detection of how far the visible content moved between two
//! frames, and the bookkeeping that decides, frame by frame, whether the
//! cursor's movement is worth animating.
use vstd::prelude::*;

pub mod config;
pub mod content_shift;
pub mod state;

verus! {

} // verus!
