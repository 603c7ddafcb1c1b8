//! Server-side roaming observability.
//!
//! These counters describe what the server authenticated and committed for one profile. They are
//! separate from the attempt and fallback counters of clients.

use vstd::prelude::*;

verus! {

#[derive(Debug, Clone, Copy, PartialEq, Eq, Structural)]
pub struct TcpRoamingSnapshot {
    pub attempts_total: u64,
    pub commits_total: u64,
    pub failures_total: u64,
    pub grace_expired_total: u64,
}

impl Default for TcpRoamingSnapshot {
    fn default() -> (snapshot: TcpRoamingSnapshot)
        ensures
            snapshot == (TcpRoamingSnapshot {
                attempts_total: 0,
                commits_total: 0,
                failures_total: 0,
                grace_expired_total: 0,
            }),
    {
        TcpRoamingSnapshot {
            attempts_total: 0,
            commits_total: 0,
            failures_total: 0,
            grace_expired_total: 0,
        }
    }
}

#[derive(Debug)]
pub struct TcpRoamingMetrics {
    counters: TcpRoamingSnapshot,
}

/// A counter after one more event; it starts over once all its values are used up.
pub open spec fn counted(counter: u64) -> u64 {
    if counter == u64::MAX {
        0
    } else {
        (counter + 1) as u64
    }
}

fn count(counter: u64) -> (next: u64)
    ensures
        next == counted(counter),
{
    if counter == u64::MAX {
        0
    } else {
        counter + 1
    }
}

impl View for TcpRoamingMetrics {
    type V = TcpRoamingSnapshot;

    closed spec fn view(&self) -> TcpRoamingSnapshot {
        self.counters
    }
}

impl Default for TcpRoamingMetrics {
    fn default() -> (metrics: TcpRoamingMetrics)
        ensures
            metrics@ == (TcpRoamingSnapshot {
                attempts_total: 0,
                commits_total: 0,
                failures_total: 0,
                grace_expired_total: 0,
            }),
    {
        TcpRoamingMetrics { counters: TcpRoamingSnapshot::default() }
    }
}

impl TcpRoamingMetrics {
    pub fn note_attempt(&mut self)
        ensures
            final(self)@ == (TcpRoamingSnapshot {
                attempts_total: counted(old(self)@.attempts_total),
                ..old(self)@
            }),
    {
        self.counters.attempts_total = count(self.counters.attempts_total);
    }

    pub fn note_commit(&mut self)
        ensures
            final(self)@ == (TcpRoamingSnapshot {
                commits_total: counted(old(self)@.commits_total),
                ..old(self)@
            }),
    {
        self.counters.commits_total = count(self.counters.commits_total);
    }

    pub fn note_failure(&mut self)
        ensures
            final(self)@ == (TcpRoamingSnapshot {
                failures_total: counted(old(self)@.failures_total),
                ..old(self)@
            }),
    {
        self.counters.failures_total = count(self.counters.failures_total);
    }

    pub fn note_grace_expired(&mut self)
        ensures
            final(self)@ == (TcpRoamingSnapshot {
                grace_expired_total: counted(old(self)@.grace_expired_total),
                ..old(self)@
            }),
    {
        self.counters.grace_expired_total = count(self.counters.grace_expired_total);
    }

    pub fn snapshot(&self) -> (snapshot: TcpRoamingSnapshot)
        ensures
            snapshot == self@,
    {
        self.counters
    }
}

/// Counting is counting by one, and starts over after the last value of 64 bits.
pub proof fn law_events_are_counted_one_by_one(counter: u64)
    ensures
        counted(counter) == (counter + 1) % 0x1_0000_0000_0000_0000,
{
}

/// Each event counts in its own counter and in no other.
pub proof fn law_events_have_their_own_counter()
    ensures
        forall|metrics: &mut TcpRoamingMetrics| #[trigger]
            call_ensures(TcpRoamingMetrics::note_attempt, (metrics,), ()) && metrics@.attempts_total
                < u64::MAX ==> final(metrics)@ == (TcpRoamingSnapshot {
                attempts_total: (metrics@.attempts_total + 1) as u64,
                ..metrics@
            }),
        forall|metrics: &mut TcpRoamingMetrics| #[trigger]
            call_ensures(TcpRoamingMetrics::note_commit, (metrics,), ()) && metrics@.commits_total
                < u64::MAX ==> final(metrics)@ == (TcpRoamingSnapshot {
                commits_total: (metrics@.commits_total + 1) as u64,
                ..metrics@
            }),
        forall|metrics: &mut TcpRoamingMetrics| #[trigger]
            call_ensures(TcpRoamingMetrics::note_failure, (metrics,), ()) && metrics@.failures_total
                < u64::MAX ==> final(metrics)@ == (TcpRoamingSnapshot {
                failures_total: (metrics@.failures_total + 1) as u64,
                ..metrics@
            }),
        forall|metrics: &mut TcpRoamingMetrics| #[trigger]
            call_ensures(TcpRoamingMetrics::note_grace_expired, (metrics,), ())
                && metrics@.grace_expired_total < u64::MAX ==> final(metrics)@
                == (TcpRoamingSnapshot {
                grace_expired_total: (metrics@.grace_expired_total + 1) as u64,
                ..metrics@
            }),
{
}

} // verus!
