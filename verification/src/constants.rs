//! Timing and chance of the simulated network.

use vstd::prelude::*;

verus! {

/// Time a shop takes to handle one purchase, in milliseconds. The shop
/// blocks for that long.
pub const PURCHASE_MILLIS: u64 = 200;

/// Shortest pause between two in-store orders, in milliseconds.
pub const LOCAL_PROCESING_MILLIS_MIN: u64 = 100;

/// Longest pause between two in-store orders, in milliseconds.
pub const LOCAL_PROCESING_MILLIS_MAX: u64 = 300;

/// Shortest time a delivery takes, in milliseconds.
pub const DELIVER_MILLIS_MIN: u64 = 500;

/// Longest time a delivery takes, in milliseconds.
pub const DELIVER_MILLIS_MAX: u64 = 700;

/// Shortest pause between two online orders, in milliseconds.
pub const ECOM_PROCESING_MILLIS_MIN: u64 = 250;

/// Longest pause between two online orders, in milliseconds.
pub const ECOM_PROCESING_MILLIS_MAX: u64 = 400;

/// Time a router waits for a shop's answer before it takes the order for
/// lost, in milliseconds.
pub const ECOM_MAX_WAITING_MILLIS: u64 = 5000;

/// A delivery arrives in `DELIVER_RATE_HITS` cases out of `DELIVER_RATE_OUT_OF`.
pub const DELIVER_RATE_HITS: u32 = 1;

/// See `DELIVER_RATE_HITS`.
pub const DELIVER_RATE_OUT_OF: u32 = 2;

} // verus!
