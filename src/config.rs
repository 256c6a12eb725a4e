//! Configuration constants of a node.
use vstd::prelude::*;

verus! {

/// Leading zero bits the SHA-256 digest of a public key must have.
pub const C1: u32 = 8;

/// Capacity of a k-bucket.
pub const K: usize = 20;

/// Lower bound (inclusive) of the refresh interval, in seconds.
pub const REFRESH_TIMER_LOWER: u64 = 30;

/// Upper bound (inclusive) of the refresh interval, in seconds.
pub const REFRESH_TIMER_UPPER: u64 = 90;

/// Time allowed for one outbound RPC attempt, in seconds.
pub const TIMEOUT_TIMER: u64 = 5;

/// Attempts made for one outbound RPC before giving up.
pub const TIMEOUT_MAX_ATTEMPTS: u32 = 3;

/// Identity generation reports progress every this many attempts.
pub const LOG_INTERVAL: u64 = 10000;

/// Largest accepted difference, in seconds, between a request's timestamp and the
/// receiver's clock.
pub const SKEW: i64 = 30;

} // verus!
