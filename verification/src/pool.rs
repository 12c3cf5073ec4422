//! Accounting model of the bounded connection pool.
//!
//! The pool hands out exclusively-owned connections, opens new ones
//! lazily up to its cap, and takes them back on release. This model
//! carries the counts and the decisions; the sockets live with the
//! caller. Its well-formedness — held handles plus idle connections
//! never exceed the cap — is the pool-cap guarantee: at no point do
//! in-flight protocol conversations exceed the configured connection
//! count.

use vstd::prelude::*;

verus! {

/// A bounded population of reusable connections.
pub struct ConnectionPool {
    /// The configured `connections` limit.
    pub cap: usize,
    /// Connections sitting idle in the pool.
    pub idle: usize,
    /// Handles currently held by tasks.
    pub in_flight: usize,
}

/// What an acquisition attempt decides.
pub enum AcquireOutcome {
    /// An idle connection was handed out.
    Reused,
    /// No idle connection, cap not reached: open a fresh one.
    Opened,
    /// Cap reached: the caller must wait for a release.
    MustWait,
}

impl ConnectionPool {
    /// Outstanding handles plus idle connections never exceed the cap.
    pub open spec fn wf(self) -> bool {
        self.in_flight + self.idle <= self.cap
    }

    pub fn new(cap: usize) -> (r: Self)
        ensures
            r.wf(),
            r.cap == cap,
            r.idle == 0,
            r.in_flight == 0,
    {
        ConnectionPool { cap, idle: 0, in_flight: 0 }
    }

    /// One acquisition attempt: reuse an idle connection, else open a
    /// new one if the cap allows, else make the caller wait.
    pub fn try_acquire(&mut self) -> (r: AcquireOutcome)
        requires
            old(self).wf(),
        ensures
            final(self).wf(),
            final(self).cap == old(self).cap,
            match r {
                AcquireOutcome::Reused => old(self).idle > 0 && final(self).idle == old(self).idle
                    - 1 && final(self).in_flight == old(self).in_flight + 1,
                AcquireOutcome::Opened => old(self).idle == 0 && old(self).in_flight < old(
                    self,
                ).cap && final(self).idle == 0 && final(self).in_flight == old(self).in_flight
                    + 1,
                AcquireOutcome::MustWait => old(self).idle == 0 && old(self).in_flight >= old(
                    self,
                ).cap && *final(self) == *old(self),
            },
            final(self).in_flight <= final(self).cap,
    {
        if self.idle > 0 {
            self.idle = self.idle - 1;
            self.in_flight = self.in_flight + 1;
            AcquireOutcome::Reused
        } else if self.in_flight < self.cap {
            self.in_flight = self.in_flight + 1;
            AcquireOutcome::Opened
        } else {
            AcquireOutcome::MustWait
        }
    }

    /// A held connection goes back to the pool.
    pub fn release(&mut self)
        requires
            old(self).wf(),
            old(self).in_flight > 0,
        ensures
            final(self).wf(),
            final(self).cap == old(self).cap,
            final(self).in_flight == old(self).in_flight - 1,
            final(self).idle == old(self).idle + 1,
    {
        self.in_flight = self.in_flight - 1;
        self.idle = self.idle + 1;
    }

    /// A held connection is discarded instead of returned: after a
    /// protocol desync or a failed health check it must never be reused.
    pub fn destroy(&mut self)
        requires
            old(self).wf(),
            old(self).in_flight > 0,
        ensures
            final(self).wf(),
            final(self).cap == old(self).cap,
            final(self).in_flight == old(self).in_flight - 1,
            final(self).idle == old(self).idle,
    {
        self.in_flight = self.in_flight - 1;
    }

    /// An idle connection found unhealthy is dropped from the pool.
    pub fn evict_idle(&mut self)
        requires
            old(self).wf(),
            old(self).idle > 0,
        ensures
            final(self).wf(),
            final(self).cap == old(self).cap,
            final(self).in_flight == old(self).in_flight,
            final(self).idle == old(self).idle - 1,
    {
        self.idle = self.idle - 1;
    }
}

/// Pool cap: a well-formed pool never has more conversations in flight
/// than its configured connection count, and every operation above
/// keeps it well-formed.
pub proof fn lemma_pool_cap(p: ConnectionPool)
    requires
        p.wf(),
    ensures
        p.in_flight <= p.cap,
{
}

// --- the caller's acquisition discipline --------------------------------

/// The sleep before retry `attempt` (1-based): 500 ms, doubling,
/// capped at 8 s.
pub open spec fn spec_backoff_ms(attempt: u32) -> int {
    if attempt <= 1 {
        500
    } else if attempt == 2 {
        1000
    } else if attempt == 3 {
        2000
    } else if attempt == 4 {
        4000
    } else {
        8000
    }
}

pub fn backoff_delay_ms(attempt: u32) -> (r: u64)
    ensures
        r == spec_backoff_ms(attempt),
{
    if attempt <= 1 {
        500
    } else if attempt == 2 {
        1000
    } else if attempt == 3 {
        2000
    } else if attempt == 4 {
        4000
    } else {
        8000
    }
}

/// A visible "waiting for connection" notice is due after every fifth
/// failed attempt.
pub fn should_emit_wait_notice(attempt: u32) -> (r: bool)
    ensures
        r == (attempt > 0 && attempt % 5 == 0),
{
    attempt > 0 && attempt % 5 == 0
}

/// Acquisition gives up on a batch once the total wait has reached the
/// configured timeout.
pub fn should_give_up(elapsed_ms: u64, wait_timeout_ms: u64) -> (r: bool)
    ensures
        r == (elapsed_ms >= wait_timeout_ms),
{
    elapsed_ms >= wait_timeout_ms
}

} // verus!
