//! Profile-wide bound for TCP sessions that are retained during their grace period.

use vstd::prelude::*;

verus! {

/// Why a lifecycle request was refused.
#[derive(Debug, Clone, Copy, PartialEq, Eq, Structural)]
pub enum LifecycleError {
    InvalidSession,
    Terminal,
    InitialTransportPending,
    ResumeBusy,
    InvalidProof,
    WrongLocator,
    StaleEpoch,
    InvalidSlot,
    HandoverNotNegotiated,
    SlotDraining,
    StaleReservation,
    OrphanLimit,
    DuplicateOrphan,
    GenerationExhausted,
}

impl LifecycleError {
    pub open spec fn message_text(self) -> Seq<char> {
        match self {
            LifecycleError::InvalidSession =>
                "TCP roaming requires a non-zero session id and at least one logical slot"@,
            LifecycleError::Terminal => "session is closing or revoked"@,
            LifecycleError::InitialTransportPending =>
                "initial TCP transport has not entered the live scheduler yet"@,
            LifecycleError::ResumeBusy => "another resume transaction already owns this session"@,
            LifecycleError::InvalidProof =>
                "resume proof or fresh-handshake transcript does not match"@,
            LifecycleError::WrongLocator => "resume locator does not identify this session"@,
            LifecycleError::StaleEpoch => "resume epoch is stale or was already consumed"@,
            LifecycleError::InvalidSlot =>
                "logical slot is outside the negotiated session limit"@,
            LifecycleError::HandoverNotNegotiated =>
                "make-before-break handover was not negotiated for this session"@,
            LifecycleError::SlotDraining => "logical slot still has a draining transport"@,
            LifecycleError::StaleReservation =>
                "resume reservation is stale or belongs to another transaction"@,
            LifecycleError::OrphanLimit => "orphan session or retained-byte limit reached"@,
            LifecycleError::DuplicateOrphan =>
                "orphan ownership already exists for this session generation"@,
            LifecycleError::GenerationExhausted => "session generation is exhausted"@,
        }
    }

    /// The sentence shown to an operator.
    pub fn message(self) -> (text: &'static str)
        ensures
            text@ == self.message_text(),
    {
        match self {
            LifecycleError::InvalidSession =>
                "TCP roaming requires a non-zero session id and at least one logical slot",
            LifecycleError::Terminal => "session is closing or revoked",
            LifecycleError::InitialTransportPending =>
                "initial TCP transport has not entered the live scheduler yet",
            LifecycleError::ResumeBusy => "another resume transaction already owns this session",
            LifecycleError::InvalidProof =>
                "resume proof or fresh-handshake transcript does not match",
            LifecycleError::WrongLocator => "resume locator does not identify this session",
            LifecycleError::StaleEpoch => "resume epoch is stale or was already consumed",
            LifecycleError::InvalidSlot => "logical slot is outside the negotiated session limit",
            LifecycleError::HandoverNotNegotiated =>
                "make-before-break handover was not negotiated for this session",
            LifecycleError::SlotDraining => "logical slot still has a draining transport",
            LifecycleError::StaleReservation =>
                "resume reservation is stale or belongs to another transaction",
            LifecycleError::OrphanLimit => "orphan session or retained-byte limit reached",
            LifecycleError::DuplicateOrphan =>
                "orphan ownership already exists for this session generation",
            LifecycleError::GenerationExhausted => "session generation is exhausted",
        }
    }
}

/// Ownership of one orphan generation. `deadline` is a point on the caller's monotonic clock,
/// in nanoseconds.
#[derive(Debug, Clone, Copy, PartialEq, Eq, Hash, Structural)]
pub struct ReapTicket {
    pub session_id: u64,
    pub generation: u64,
    pub deadline: u64,
}

impl ReapTicket {
    /// The session generation that the ticket owns a lease of.
    pub open spec fn key(self) -> (u64, u64) {
        (self.session_id, self.generation)
    }

    pub fn session_id(self) -> (id: u64)
        ensures
            id == self.session_id,
    {
        self.session_id
    }

    pub fn generation(self) -> (generation: u64)
        ensures
            generation == self.generation,
    {
        self.generation
    }

    pub fn deadline(self) -> (deadline: u64)
        ensures
            deadline == self.deadline,
    {
        self.deadline
    }
}

#[derive(Debug, Clone, Copy, PartialEq, Eq, Structural)]
struct Lease {
    session_id: u64,
    generation: u64,
    bytes: usize,
}

impl Lease {
    spec fn key(self) -> (u64, u64) {
        (self.session_id, self.generation)
    }
}

/// What a limiter holds: its two limits, the retained bytes it has counted, and the bytes that
/// each leased session generation retains.
#[verifier::ext_equal]
pub struct LimiterView {
    pub max_sessions: nat,
    pub max_bytes: nat,
    pub bytes: nat,
    pub leases: Map<(u64, u64), nat>,
}

impl LimiterView {
    /// The limiter after `ticket` has given its lease back. A ticket without a lease changes
    /// nothing.
    pub open spec fn released(self, ticket: ReapTicket) -> LimiterView {
        if self.leases.dom().contains(ticket.key()) {
            LimiterView {
                bytes: (self.bytes - self.leases[ticket.key()]) as nat,
                leases: self.leases.remove(ticket.key()),
                ..self
            }
        } else {
            self
        }
    }

    /// The refusal of a lease for `key`, if there is one.
    pub open spec fn refusal(self, key: (u64, u64), retained: nat) -> Option<LifecycleError> {
        if self.leases.dom().contains(key) {
            Some(LifecycleError::DuplicateOrphan)
        } else if self.leases.len() + 1 > self.max_sessions || self.bytes + retained
            > self.max_bytes {
            Some(LifecycleError::OrphanLimit)
        } else {
            None
        }
    }

    /// The limiter after `key` has taken a lease of `retained` bytes.
    pub open spec fn leased(self, key: (u64, u64), retained: nat) -> LimiterView {
        LimiterView {
            bytes: self.bytes + retained,
            leases: self.leases.insert(key, retained),
            ..self
        }
    }
}

/// The sum of the bytes that all leases retain.
pub open spec fn total_retained(leases: Map<(u64, u64), nat>) -> nat
    decreases leases.dom().len(),
    when leases.dom().finite()
{
    if leases.dom().len() == 0 {
        0
    } else {
        let key = leases.dom().choose();
        leases[key] + total_retained(leases.remove(key))
    }
}

/// The sum can be split at any leased key.
pub proof fn lemma_total_split(leases: Map<(u64, u64), nat>, key: (u64, u64))
    requires
        leases.dom().finite(),
        leases.dom().contains(key),
    ensures
        total_retained(leases) == leases[key] + total_retained(leases.remove(key)),
    decreases leases.dom().len(),
{
    let first = leases.dom().choose();
    assert(leases.dom().len() != 0) by {
        if leases.dom().len() == 0 {
            assert(leases.dom() =~= Set::empty());
        }
    }
    assert(leases.dom().contains(first));
    if first != key {
        assert(leases.remove(first).dom() =~= leases.dom().remove(first));
        assert(leases.remove(key).dom() =~= leases.dom().remove(key));
        lemma_total_split(leases.remove(first), key);
        lemma_total_split(leases.remove(key), first);
        assert(leases.remove(first).remove(key) =~= leases.remove(key).remove(first));
    }
}

/// A new key adds its bytes to the sum.
proof fn lemma_total_insert(leases: Map<(u64, u64), nat>, key: (u64, u64), bytes: nat)
    requires
        leases.dom().finite(),
        !leases.dom().contains(key),
    ensures
        total_retained(leases.insert(key, bytes)) == total_retained(leases) + bytes,
{
    let grown = leases.insert(key, bytes);
    assert(grown.dom() =~= leases.dom().insert(key));
    lemma_total_split(grown, key);
    assert(grown.remove(key) =~= leases);
}

spec fn lease_map(list: Seq<Lease>) -> Map<(u64, u64), nat>
    decreases list.len(),
{
    if list.len() == 0 {
        Map::empty()
    } else {
        lease_map(list.drop_last()).insert(list.last().key(), list.last().bytes as nat)
    }
}

spec fn distinct_keys(list: Seq<Lease>) -> bool {
    forall|i: int, j: int| 0 <= i < j < list.len() ==> list[i].key() != list[j].key()
}

spec fn has_key(list: Seq<Lease>, key: (u64, u64)) -> bool {
    exists|i: int| 0 <= i < list.len() && list[i].key() == key
}

proof fn lemma_lease_map(list: Seq<Lease>)
    requires
        distinct_keys(list),
    ensures
        lease_map(list).dom().finite(),
        lease_map(list).len() == list.len(),
        forall|key: (u64, u64)| #[trigger]
            lease_map(list).dom().contains(key) <==> has_key(list, key),
        forall|i: int|
            0 <= i < list.len() ==> lease_map(list)[(#[trigger] list[i]).key()] == list[i].bytes,
    decreases list.len(),
{
    if list.len() > 0 {
        let shorter = list.drop_last();
        lemma_lease_map(shorter);
        assert forall|key: (u64, u64)| #[trigger]
            lease_map(list).dom().contains(key) <==> has_key(list, key) by {
            if has_key(shorter, key) {
                let i = choose|i: int| 0 <= i < shorter.len() && shorter[i].key() == key;
                assert(list[i].key() == key);
            }
            if has_key(list, key) {
                let i = choose|i: int| 0 <= i < list.len() && list[i].key() == key;
                if i < shorter.len() {
                    assert(shorter[i].key() == key);
                }
            }
            assert(list[list.len() - 1].key() == list.last().key());
        }
        assert(!has_key(shorter, list.last().key())) by {
            if has_key(shorter, list.last().key()) {
                let i = choose|i: int|
                    0 <= i < shorter.len() && shorter[i].key() == list.last().key();
                assert(list[i].key() == list[list.len() - 1].key());
            }
        }
        assert forall|i: int| 0 <= i < list.len() implies lease_map(list)[(#[trigger]
        list[i]).key()] == list[i].bytes by {
            if i < shorter.len() {
                assert(shorter[i] == list[i]);
            }
        }
    }
}

proof fn lemma_lease_map_remove(list: Seq<Lease>, i: int)
    requires
        distinct_keys(list),
        0 <= i < list.len(),
    ensures
        distinct_keys(list.remove(i)),
        lease_map(list.remove(i)) =~= lease_map(list).remove(list[i].key()),
{
    let shorter = list.remove(i);
    assert forall|a: int, b: int| 0 <= a < b < shorter.len() implies shorter[a].key()
        != shorter[b].key() by {
        let a1 = if a < i { a } else { a + 1 };
        let b1 = if b < i { b } else { b + 1 };
        assert(list[a1].key() != list[b1].key());
    }
    lemma_lease_map(list);
    lemma_lease_map(shorter);
    assert forall|key: (u64, u64)| #[trigger]
        lease_map(shorter).dom().contains(key) <==> lease_map(list).remove(
            list[i].key(),
        ).dom().contains(key) by {
        if has_key(shorter, key) {
            let a = choose|a: int| 0 <= a < shorter.len() && shorter[a].key() == key;
            let a1 = if a < i { a } else { a + 1 };
            assert(list[a1].key() == key);
            assert(key != list[i].key());
        }
        if has_key(list, key) && key != list[i].key() {
            let a = choose|a: int| 0 <= a < list.len() && list[a].key() == key;
            let a1 = if a < i { a } else { a - 1 };
            assert(shorter[a1].key() == key);
        }
    }
    assert forall|key: (u64, u64)| lease_map(shorter).dom().contains(key) implies #[trigger]
        lease_map(shorter)[key] == lease_map(list)[key] by {
        assert(has_key(shorter, key));
        let a = choose|a: int| 0 <= a < shorter.len() && shorter[a].key() == key;
        let a1 = if a < i { a } else { a + 1 };
        assert(list[a1] == shorter[a]);
    }
}

/// Profile-wide bound for sessions retained during TCP grace.
///
/// Ownership is generation-tagged. Releasing a stale ticket is a no-op, so a delayed reaper
/// cannot subtract the bytes of a newer orphan generation or underflow the counters.
pub struct OrphanLimiter {
    max_sessions: usize,
    max_bytes: usize,
    sessions: usize,
    bytes: usize,
    leases: Vec<Lease>,
}

impl View for OrphanLimiter {
    type V = LimiterView;

    closed spec fn view(&self) -> LimiterView {
        LimiterView {
            max_sessions: self.max_sessions as nat,
            max_bytes: self.max_bytes as nat,
            bytes: self.bytes as nat,
            leases: lease_map(self.leases@),
        }
    }
}

impl OrphanLimiter {
    /// The counters are those of the leases, and both stay within the limits.
    pub closed spec fn wf(&self) -> bool {
        &&& distinct_keys(self.leases@)
        &&& self.sessions == self.leases@.len()
        &&& self.bytes == total_retained(lease_map(self.leases@))
        &&& self.sessions <= self.max_sessions
        &&& self.bytes <= self.max_bytes
    }

    /// What every limiter keeps: the counted bytes are the sum of the leases, and neither limit
    /// is exceeded.
    pub proof fn law_counters_match_leases(&self)
        requires
            self.wf(),
        ensures
            self@.leases.dom().finite(),
            self@.bytes == total_retained(self@.leases),
            self@.leases.len() <= self@.max_sessions,
            self@.bytes <= self@.max_bytes,
    {
        lemma_lease_map(self.leases@);
    }

    pub fn new(max_sessions: usize, max_bytes: usize) -> (limiter: OrphanLimiter)
        ensures
            limiter.wf(),
            limiter@ == (LimiterView {
                max_sessions: max_sessions as nat,
                max_bytes: max_bytes as nat,
                bytes: 0,
                leases: Map::empty(),
            }),
    {
        let limiter = OrphanLimiter {
            max_sessions,
            max_bytes,
            sessions: 0,
            bytes: 0,
            leases: Vec::new(),
        };
        proof {
            lemma_lease_map(limiter.leases@);
        }
        limiter
    }

    /// How many session generations hold a lease.
    pub fn sessions(&self) -> (count: usize)
        requires
            self.wf(),
        ensures
            count == self@.leases.len(),
    {
        proof {
            lemma_lease_map(self.leases@);
        }
        self.sessions
    }

    /// How many bytes the leases retain together.
    pub fn bytes(&self) -> (count: usize)
        ensures
            count == self@.bytes,
    {
        self.bytes
    }

    fn position(&self, session_id: u64, generation: u64) -> (found: Option<usize>)
        requires
            distinct_keys(self.leases@),
        ensures
            match found {
                Some(i) => i < self.leases@.len() && self.leases@[i as int].key() == (
                    session_id,
                    generation,
                ) && self@.leases.dom().contains((session_id, generation)),
                None => !self@.leases.dom().contains((session_id, generation)),
            },
    {
        proof {
            lemma_lease_map(self.leases@);
        }
        let mut i: usize = 0;
        while i < self.leases.len()
            invariant
                i <= self.leases@.len(),
                forall|j: int|
                    0 <= j < i ==> (#[trigger] self.leases@[j]).key() != (session_id, generation),
                forall|key: (u64, u64)| #[trigger]
                    lease_map(self.leases@).dom().contains(key) <==> has_key(self.leases@, key),
            decreases self.leases@.len() - i,
        {
            if self.leases[i].session_id == session_id && self.leases[i].generation == generation {
                assert(self.leases@[i as int].key() == (session_id, generation));
                return Some(i);
            }
            i += 1;
        }
        None
    }

    /// Takes a lease for one session generation.
    pub fn reserve(&mut self, session_id: u64, generation: u64, retained_bytes: usize) -> (result:
        Result<(), LifecycleError>)
        requires
            old(self).wf(),
        ensures
            final(self).wf(),
            match old(self)@.refusal((session_id, generation), retained_bytes as nat) {
                Some(error) => result == Err::<(), LifecycleError>(error) && final(self)@ == old(
                    self,
                )@,
                None => result == Ok::<(), LifecycleError>(()) && final(self)@ == old(
                    self,
                )@.leased((session_id, generation), retained_bytes as nat),
            },
    {
        proof {
            lemma_lease_map(self.leases@);
        }
        if self.position(session_id, generation).is_some() {
            return Err(LifecycleError::DuplicateOrphan);
        }
        let next_sessions: usize = match self.sessions.checked_add(1) {
            Some(value) => value,
            None => return Err(LifecycleError::OrphanLimit),
        };
        let next_bytes: usize = match self.bytes.checked_add(retained_bytes) {
            Some(value) => value,
            None => return Err(LifecycleError::OrphanLimit),
        };
        if next_sessions > self.max_sessions || next_bytes > self.max_bytes {
            return Err(LifecycleError::OrphanLimit);
        }
        let lease = Lease { session_id, generation, bytes: retained_bytes };
        let ghost before = self.leases@;
        self.leases.push(lease);
        proof {
            let after = self.leases@;
            assert(after.drop_last() =~= before);
            assert forall|i: int, j: int| 0 <= i < j < after.len() implies after[i].key()
                != after[j].key() by {
                if j == before.len() {
                    assert(before[i].key() == after[i].key());
                    assert(has_key(before, before[i].key()));
                }
            }
            lemma_total_insert(lease_map(before), lease.key(), retained_bytes as nat);
        }
        self.sessions = next_sessions;
        self.bytes = next_bytes;
        Ok(())
    }

    /// Gives the lease of `ticket` back; `false` where it holds none.
    pub fn release(&mut self, ticket: ReapTicket) -> (held: bool)
        requires
            old(self).wf(),
        ensures
            final(self).wf(),
            held == old(self)@.leases.dom().contains(ticket.key()),
            final(self)@ == old(self)@.released(ticket),
    {
        proof {
            lemma_lease_map(self.leases@);
        }
        let found = self.position(ticket.session_id, ticket.generation);
        match found {
            None => false,
            Some(i) => {
                let ghost before = self.leases@;
                let lease = self.leases.remove(i);
                proof {
                    lemma_lease_map_remove(before, i as int);
                    lemma_total_split(lease_map(before), ticket.key());
                }
                self.sessions = self.sessions.saturating_sub(1);
                self.bytes = self.bytes.saturating_sub(lease.bytes);
                true
            },
        }
    }
}

/// A lease is granted exactly when its session generation has none, one session more is within
/// the limit of sessions and its bytes are within the limit of bytes; both limits may be reached.
pub proof fn law_leases_are_granted_up_to_the_limits(
    limiter: LimiterView,
    key: (u64, u64),
    retained: nat,
)
    ensures
        limiter.refusal(key, retained) is None <==> !limiter.leases.contains_key(key)
            && limiter.leases.len() < limiter.max_sessions && limiter.bytes + retained
            <= limiter.max_bytes,
        limiter.leases.contains_key(key) ==> limiter.refusal(key, retained) == Some(
            LifecycleError::DuplicateOrphan,
        ),
        !limiter.leases.contains_key(key) && (limiter.leases.len() >= limiter.max_sessions
            || limiter.bytes + retained > limiter.max_bytes) ==> limiter.refusal(key, retained)
            == Some(LifecycleError::OrphanLimit),
{
}

/// A lease that is given back leaves no trace, and it can be given back once: a ticket of a
/// session generation without a lease changes nothing, whatever its deadline.
pub proof fn law_leases_are_given_back(
    limiter: LimiterView,
    session_id: u64,
    generation: u64,
    deadline: u64,
    later: u64,
    retained: nat,
)
    requires
        !limiter.leases.contains_key((session_id, generation)),
    ensures
        ({
            let ticket = ReapTicket { session_id, generation, deadline };
            let again = ReapTicket { session_id, generation, deadline: later };
            let held = limiter.leased((session_id, generation), retained);
            &&& held.leases == limiter.leases.insert((session_id, generation), retained)
            &&& held.bytes == limiter.bytes + retained
            &&& held.released(ticket) == limiter
            &&& held.released(again) == limiter
            &&& limiter.released(ticket) == limiter
        }),
{
    let held = limiter.leased((session_id, generation), retained);
    assert(held.leases.remove((session_id, generation)) =~= limiter.leases);
}

/// Giving back one lease touches no other: the others keep their bytes, and the limits stay.
pub proof fn law_other_leases_stay(limiter: LimiterView, ticket: ReapTicket, other: (u64, u64))
    requires
        limiter.leases.contains_key((ticket.session_id, ticket.generation)),
        other != (ticket.session_id, ticket.generation),
        limiter.leases[(ticket.session_id, ticket.generation)] <= limiter.bytes,
    ensures
        ({
            let after = limiter.released(ticket);
            &&& after.leases.contains_key(other) == limiter.leases.contains_key(other)
            &&& limiter.leases.contains_key(other) ==> after.leases[other] == limiter.leases[other]
            &&& !after.leases.contains_key((ticket.session_id, ticket.generation))
            &&& after.bytes + limiter.leases[(ticket.session_id, ticket.generation)]
                == limiter.bytes
            &&& after.max_sessions == limiter.max_sessions && after.max_bytes == limiter.max_bytes
        }),
{
}

/// What is retained in all: nothing without leases, and each lease adds its bytes.
pub proof fn law_retained_bytes_add_up(
    leases: Map<(u64, u64), nat>,
    key: (u64, u64),
    retained: nat,
)
    requires
        leases.dom().finite(),
        !leases.contains_key(key),
    ensures
        total_retained(Map::empty()) == 0,
        total_retained(leases.insert(key, retained)) == total_retained(leases) + retained,
{
    lemma_total_insert(leases, key, retained);
}

/// Reserving: a session generation gets its lease within both limits and once; releasing gives it
/// back, with its bytes.
pub proof fn law_leases_come_and_go(
    session_id: u64,
    generation: u64,
    retained: usize,
    ticket: ReapTicket,
    result: Result<(), LifecycleError>,
    held: bool,
)
    ensures
        forall|limiter: &mut OrphanLimiter| #[trigger]
            call_ensures(OrphanLimiter::reserve, (limiter, session_id, generation, retained), result)
                && limiter.wf() ==> {
                let before = limiter@;
                let after = final(limiter)@;
                let key = (session_id, generation);
                &&& result is Ok <==> !before.leases.contains_key(key) && before.leases.len()
                    < before.max_sessions && before.bytes + retained <= before.max_bytes
                &&& result is Ok ==> after.leases == before.leases.insert(key, retained as nat)
                    && after.bytes == before.bytes + retained
                &&& result is Err ==> after == before
                &&& after.max_sessions == before.max_sessions && after.max_bytes
                    == before.max_bytes
            },
        forall|limiter: &mut OrphanLimiter| #[trigger]
            call_ensures(OrphanLimiter::release, (limiter, ticket), held) && limiter.wf() ==> {
                let before = limiter@;
                let after = final(limiter)@;
                let key = (ticket.session_id, ticket.generation);
                &&& held <==> before.leases.contains_key(key)
                &&& held ==> after.leases == before.leases.remove(key)
                &&& !held ==> after == before
            },
{
}

} // verus!
