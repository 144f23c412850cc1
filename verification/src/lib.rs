//! A verified toy payments engine.
//!
//! Records (deposits, withdrawals, disputes, resolves, chargebacks) are
//! applied one at a time to per-client accounts.  Monetary amounts are exact
//! fixed-point decimals held as a signed count of ten-thousandths, so four
//! fractional digits are represented without rounding.

pub mod account;
pub mod engine;
pub mod laws;
pub mod parse;
pub mod record;
pub mod render;

use vstd::prelude::*;

verus! {

/// Number of fixed-point units in one whole currency unit.
pub const UNIT_SCALE: i64 = 10000;

} // verus!
