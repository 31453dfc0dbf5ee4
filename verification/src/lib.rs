//! Core of a line-oriented text colorizer: lines are split into columns by a
//! delimiter pattern, and each distinct value seen in a chosen column is
//! assigned a stable color drawn from a finite palette.
use vstd::prelude::*;

pub mod assign;
pub mod delimiter;
pub mod errors;
pub mod keymap;
pub mod laws;
pub mod palette;

verus! {

/// The whole range of assignable color ids runs from `1` up to this bound,
/// inclusive, before the configured filter is applied.
pub const MAX_COLOR_ID: u8 = 254;

} // verus!
