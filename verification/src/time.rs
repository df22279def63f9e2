//! Points on a monotonic clock and the protocol's timeouts.
//!
//! The clock is never read here: every operation that depends on the time
//! takes the current instant as an argument.

use vstd::prelude::*;

verus! {

/// Nanoseconds in one second.
pub const NANOS_PER_SEC: u64 = 1_000_000_000;

/// Ping interval in seconds for each node in our lists.
pub const PING_INTERVAL: u64 = 60;

/// The number of seconds for a non responsive node to become bad.
pub const BAD_NODE_TIMEOUT: u64 = PING_INTERVAL * 2 + 2;

/// The timeout in seconds after which a node is discarded completely.
pub const KILL_NODE_TIMEOUT: u64 = BAD_NODE_TIMEOUT + PING_INTERVAL;

/// A point on a monotonic clock, in nanoseconds since an origin that the
/// application fixes once.
#[derive(Clone, Copy, Debug, PartialEq, Eq, Structural)]
pub struct Timestamp {
    /// Nanoseconds since the origin.
    pub nanos: u64,
}

/// Time that has passed at `now` since `then`, in nanoseconds; zero where
/// `then` is not in the past.
pub open spec fn elapsed_nanos(now: Timestamp, then: Timestamp) -> nat {
    if now.nanos >= then.nanos {
        (now.nanos - then.nanos) as nat
    } else {
        0
    }
}

/// At `now`, more than `secs` seconds have passed since `then`.
pub open spec fn longer_than(now: Timestamp, then: Timestamp, secs: u64) -> bool {
    elapsed_nanos(now, then) > secs * NANOS_PER_SEC
}

/// At `now`, at least `secs` seconds have passed since `then`.
pub open spec fn at_least(now: Timestamp, then: Timestamp, secs: u64) -> bool {
    elapsed_nanos(now, then) >= secs * NANOS_PER_SEC
}

impl Timestamp {
    /// The instant `nanos` nanoseconds after the origin.
    pub fn from_nanos(nanos: u64) -> (t: Timestamp)
        ensures
            t.nanos == nanos,
    {
        Timestamp { nanos }
    }

    /// The instant `secs` seconds after the origin, or the last
    /// representable instant where that lies beyond it.
    pub fn from_secs(secs: u64) -> (t: Timestamp)
        ensures
            t.nanos == if secs * NANOS_PER_SEC <= u64::MAX {
                secs * NANOS_PER_SEC
            } else {
                u64::MAX as int
            },
    {
        if secs <= u64::MAX / NANOS_PER_SEC {
            Timestamp { nanos: secs * NANOS_PER_SEC }
        } else {
            Timestamp { nanos: u64::MAX }
        }
    }

    /// Nanoseconds that have passed at `self` since `then`, zero where `then`
    /// is not in the past.
    pub fn since(&self, then: Timestamp) -> (d: u64)
        ensures
            d == elapsed_nanos(*self, then),
    {
        if self.nanos >= then.nanos {
            self.nanos - then.nanos
        } else {
            0
        }
    }

    /// Whether more than `secs` seconds have passed at `self` since `then`.
    pub fn is_longer_than(&self, then: Timestamp, secs: u64) -> (r: bool)
        ensures
            r == longer_than(*self, then, secs),
    {
        let passed: u128 = self.since(then) as u128;
        assert(secs * NANOS_PER_SEC <= 0xffff_ffff_ffff_ffff * 1_000_000_000);
        let limit: u128 = (secs as u128) * (NANOS_PER_SEC as u128);
        passed > limit
    }

    /// Whether at least `secs` seconds have passed at `self` since `then`.
    pub fn is_at_least(&self, then: Timestamp, secs: u64) -> (r: bool)
        ensures
            r == at_least(*self, then, secs),
    {
        let passed: u128 = self.since(then) as u128;
        assert(secs * NANOS_PER_SEC <= 0xffff_ffff_ffff_ffff * 1_000_000_000);
        let limit: u128 = (secs as u128) * (NANOS_PER_SEC as u128);
        passed >= limit
    }
}

} // verus!
