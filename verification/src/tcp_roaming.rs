//! Race-safe server lifecycle for TCP resume and make-before-break handover.
//!
//! A session owns a few stable logical slots. Each slot has at most one ready transport and at
//! most one that is draining. The state machine decides every JOIN, reaper and kick race, and
//! gives each orphan generation exactly one lease of the profile-wide [`OrphanLimiter`].

use crate::orphan_limiter::{LifecycleError, LimiterView, OrphanLimiter, ReapTicket};
use crate::text::same_bytes;
use vstd::prelude::*;

verus! {

/// Bytes of the locator by which a resuming client names its session.
pub const SESSION_LOCATOR_LEN: usize = 16;

#[derive(Debug, Clone, Copy, PartialEq, Eq, Structural)]
pub enum LifecycleState {
    Active,
    Orphaned,
    Resuming,
    Closing,
    Revoked,
}

#[derive(Debug, Clone, Copy, PartialEq, Eq, Structural)]
pub enum DetachReason {
    /// Carrier/path loss, wake, or another recoverable I/O failure.
    Unexpected,
    /// Authenticated CLOSE_SESSION or orderly local shutdown.
    CleanClose,
    /// Kick, quota/expiry, protocol violation, profile shutdown, or admin revoke.
    Revoked,
}

#[derive(Debug, Clone, Copy, PartialEq, Eq, Structural)]
pub enum DetachOutcome {
    StreamRemains,
    Orphaned(ReapTicket),
    Closing,
    Revoked,
}

/// The one resume transaction that currently owns a session.
#[derive(Debug, Clone, Copy, PartialEq, Eq, Structural)]
pub struct ResumeReservation {
    pub session_id: u64,
    pub generation: u64,
    pub resume_epoch: u64,
    pub logical_slot_id: u32,
    pub handover: bool,
}

impl ResumeReservation {
    pub fn session_id(self) -> (id: u64)
        ensures
            id == self.session_id,
    {
        self.session_id
    }

    pub fn generation(self) -> (generation: u64)
        ensures
            generation == self.generation,
    {
        self.generation
    }

    pub fn resume_epoch(self) -> (epoch: u64)
        ensures
            epoch == self.resume_epoch,
    {
        self.resume_epoch
    }

    pub fn logical_slot_id(self) -> (id: u32)
        ensures
            id == self.logical_slot_id,
    {
        self.logical_slot_id
    }

    pub fn is_handover(self) -> (handover: bool)
        ensures
            handover == self.handover,
    {
        self.handover
    }
}

#[derive(Debug, Clone, Copy, PartialEq, Eq, Structural)]
pub struct CommitOutcome {
    /// Previous transport in this stable slot. Stop it, then acknowledge the exact generation.
    pub drain_transport: Option<u64>,
    pub slot_generation: u64,
}

/// What a resume proof covers.
#[derive(Clone, Copy)]
pub struct ResumeProofInput {
    pub transcript_hash: [u8; 32],
    pub session_locator: [u8; SESSION_LOCATOR_LEN],
    pub resume_epoch: u64,
    pub logical_slot_id: u32,
    pub handover: bool,
}

/// A client's request to resume a session. Whether its proof is genuine is the verdict of the
/// keyed MAC, which is computed where the session secret lives.
#[derive(Clone, Copy)]
pub struct TcpResumeJoin {
    pub input: ResumeProofInput,
}

#[derive(Debug, Clone, Copy, PartialEq, Eq, Structural)]
pub struct LogicalSlot {
    pub generation: u64,
    pub ready: Option<u64>,
    pub draining: Option<u64>,
}

impl LogicalSlot {
    /// Whether the slot has this transport, ready or draining.
    pub open spec fn holds(self, transport_id: u64) -> bool {
        self.ready == Some(transport_id) || self.draining == Some(transport_id)
    }

    /// The transports of the slot, the ready one first.
    pub open spec fn carriers(self) -> Seq<u64> {
        (match self.ready {
            Some(id) => seq![id],
            None => Seq::empty(),
        }) + (match self.draining {
            Some(id) => seq![id],
            None => Seq::empty(),
        })
    }

    pub open spec fn emptied(self) -> LogicalSlot {
        LogicalSlot { generation: self.generation, ready: None, draining: None }
    }
}

/// What a session falls back to when its resume transaction is aborted.
#[derive(Debug, Clone, Copy, PartialEq, Eq, Structural)]
pub enum ResumeFallback {
    Active,
    Orphaned(ReapTicket),
}

#[derive(Debug, Clone, Copy, PartialEq, Eq, Structural)]
pub enum SessionState {
    Active,
    Orphaned(ReapTicket),
    Resuming { reservation: ResumeReservation, fallback: ResumeFallback },
    Closing,
    Revoked,
}

impl SessionState {
    pub open spec fn is_terminal(self) -> bool {
        self is Closing || self is Revoked
    }

    /// The ticket whose lease the session owns in this state.
    pub open spec fn ticket(self) -> Option<ReapTicket> {
        match self {
            SessionState::Orphaned(ticket) => Some(ticket),
            SessionState::Resuming { fallback: ResumeFallback::Orphaned(ticket), .. } => Some(
                ticket,
            ),
            _ => None,
        }
    }

    pub open spec fn kind(self) -> LifecycleState {
        match self {
            SessionState::Active => LifecycleState::Active,
            SessionState::Orphaned(_) => LifecycleState::Orphaned,
            SessionState::Resuming { .. } => LifecycleState::Resuming,
            SessionState::Closing => LifecycleState::Closing,
            SessionState::Revoked => LifecycleState::Revoked,
        }
    }
}

/// How many of the slots below `end` have a ready transport.
pub open spec fn ready_below(slots: Map<u32, LogicalSlot>, end: nat) -> nat
    decreases end,
{
    if end == 0 {
        0
    } else {
        ready_below(slots, (end - 1) as nat) + if slots.dom().contains((end - 1) as u32)
            && slots[(end - 1) as u32].ready is Some {
            1nat
        } else {
            0nat
        }
    }
}

/// The transports of the slots below `end`, in slot order.
pub open spec fn carriers_below(slots: Map<u32, LogicalSlot>, end: nat) -> Seq<u64>
    decreases end,
{
    if end == 0 {
        Seq::empty()
    } else {
        carriers_below(slots, (end - 1) as nat) + if slots.dom().contains((end - 1) as u32) {
            slots[(end - 1) as u32].carriers()
        } else {
            Seq::empty()
        }
    }
}

/// `id` is the lowest slot that has the transport.
pub open spec fn first_holder(
    slots: Map<u32, LogicalSlot>,
    transport_id: u64,
    id: u32,
) -> bool {
    &&& slots.dom().contains(id)
    &&& slots[id].holds(transport_id)
    &&& forall|other: u32| #[trigger]
        slots.dom().contains(other) && other < id ==> !slots[other].holds(transport_id)
}

/// One logical TCP session, as its contracts see it.
#[verifier::ext_equal]
pub struct LifecycleView {
    pub session_id: u64,
    pub locator: Seq<u8>,
    pub max_slots: u32,
    pub grace: u64,
    pub generation: u64,
    pub last_resume_epoch: u64,
    pub state: SessionState,
    pub slots: Map<u32, LogicalSlot>,
}

impl LifecycleView {
    /// A session that holds a ticket has no ready transport, and nothing drains in the slot that
    /// an open transaction reserved. Only in a slot whose generations are used up neither need
    /// hold: a commit to it leaves its transport behind without ending the transaction.
    pub open spec fn settled(self) -> bool {
        &&& self.state.ticket() is Some ==> forall|id: u32| #[trigger]
            self.slots.dom().contains(id) && self.slots[id].generation < u64::MAX
                ==> self.slots[id].ready is None
        &&& self.state matches SessionState::Resuming { reservation, .. } ==> {
            let slot = self.slot_or_new(reservation.logical_slot_id);
            slot.generation < u64::MAX ==> slot.draining is None
        }
    }

    /// What every session keeps: its slots are within the negotiated limit, the ticket and the
    /// reservation of its state are its own and not newer than its generation, and it is settled.
    pub open spec fn valid(self) -> bool {
        &&& self.session_id != 0
        &&& self.max_slots > 0
        &&& self.locator.len() == SESSION_LOCATOR_LEN
        &&& forall|id: u32| #[trigger] self.slots.dom().contains(id) ==> id < self.max_slots
        &&& match self.state.ticket() {
            Some(ticket) => ticket.session_id == self.session_id && ticket.generation
                <= self.generation,
            None => true,
        }
        &&& match self.state {
            SessionState::Resuming { reservation, .. } => {
                &&& reservation.session_id == self.session_id
                &&& reservation.generation <= self.generation
                &&& reservation.resume_epoch <= self.last_resume_epoch
                &&& reservation.logical_slot_id < self.max_slots
            },
            _ => true,
        }
        &&& self.settled()
    }

    pub open spec fn ready_count(self) -> nat {
        ready_below(self.slots, self.max_slots as nat)
    }

    /// All transports of the session, in slot order.
    pub open spec fn carriers(self) -> Seq<u64> {
        carriers_below(self.slots, self.max_slots as nat)
    }

    pub open spec fn with_slot(self, id: u32, slot: LogicalSlot) -> LifecycleView {
        LifecycleView { slots: self.slots.insert(id, slot), ..self }
    }

    /// The session once it is closed or revoked: no slot has a transport.
    pub open spec fn ended(self, revoked: bool) -> LifecycleView {
        LifecycleView {
            state: if revoked {
                SessionState::Revoked
            } else {
                SessionState::Closing
            },
            slots: self.slots.map_values(|slot: LogicalSlot| slot.emptied()),
            ..self
        }
    }

    /// The answer to a resume request.
    pub open spec fn resume_answer(
        self,
        join: TcpResumeJoin,
        fresh_transcript_hash: Seq<u8>,
        proof_verified: bool,
    ) -> Result<ResumeReservation, LifecycleError> {
        let slot_id = join.input.logical_slot_id;
        if self.state is Resuming {
            Err(LifecycleError::ResumeBusy)
        } else if self.state.is_terminal() {
            Err(LifecycleError::Terminal)
        } else if join.input.session_locator@ != self.locator {
            Err(LifecycleError::WrongLocator)
        } else if join.input.transcript_hash@ != fresh_transcript_hash || !proof_verified {
            Err(LifecycleError::InvalidProof)
        } else if join.input.resume_epoch <= self.last_resume_epoch {
            Err(LifecycleError::StaleEpoch)
        } else if slot_id >= self.max_slots {
            Err(LifecycleError::InvalidSlot)
        } else if self.slots.dom().contains(slot_id) && self.slots[slot_id].draining is Some {
            Err(LifecycleError::SlotDraining)
        } else if self.generation == u64::MAX {
            Err(LifecycleError::GenerationExhausted)
        } else {
            Ok(
                ResumeReservation {
                    session_id: self.session_id,
                    generation: (self.generation + 1) as u64,
                    resume_epoch: join.input.resume_epoch,
                    logical_slot_id: slot_id,
                    handover: join.input.handover,
                },
            )
        }
    }

    /// The session after a resume request was answered. The epoch of a request that passed every
    /// check is consumed, also where no generation is left for it.
    pub open spec fn resumed(
        self,
        join: TcpResumeJoin,
        answer: Result<ResumeReservation, LifecycleError>,
    ) -> LifecycleView {
        match answer {
            Ok(reservation) => LifecycleView {
                last_resume_epoch: join.input.resume_epoch,
                generation: reservation.generation,
                state: SessionState::Resuming {
                    reservation,
                    fallback: match self.state {
                        SessionState::Orphaned(ticket) => ResumeFallback::Orphaned(ticket),
                        _ => ResumeFallback::Active,
                    },
                },
                ..self
            },
            Err(LifecycleError::GenerationExhausted) => LifecycleView {
                last_resume_epoch: join.input.resume_epoch,
                ..self
            },
            Err(_) => self,
        }
    }

    /// Why a commit or an abort of `reservation` is refused before anything changes.
    pub open spec fn transaction_refusal(self, reservation: ResumeReservation) -> Option<
        LifecycleError,
    > {
        if self.state.is_terminal() {
            Some(LifecycleError::Terminal)
        } else if self.state matches SessionState::Resuming { reservation: current, .. } && current
            == reservation {
            None
        } else {
            Some(LifecycleError::StaleReservation)
        }
    }

    /// The slot that a commit works on: an unused one starts at generation 0.
    pub open spec fn slot_or_new(self, id: u32) -> LogicalSlot {
        if self.slots.dom().contains(id) {
            self.slots[id]
        } else {
            LogicalSlot { generation: 0, ready: None, draining: None }
        }
    }

    /// Whether `ticket` may be reaped at `now`.
    pub open spec fn reapable(self, ticket: ReapTicket, now: u64) -> bool {
        self.state == SessionState::Orphaned(ticket) && now >= ticket.deadline
    }

    /// Every ticket of the session has its lease, and nothing else of the session has one.
    pub open spec fn owns_its_lease(self, limiter: LimiterView) -> bool {
        forall|key: (u64, u64)| #[trigger]
            limiter.leases.dom().contains(key) && key.0 == self.session_id <==> (
            self.state.ticket() matches Some(ticket) && ticket.key() == key)
    }
}

/// The limiter after the session's lease, if it owns one, was given back.
pub open spec fn lease_returned(limiter: LimiterView, state: SessionState) -> LimiterView {
    match state.ticket() {
        Some(ticket) => limiter.released(ticket),
        None => limiter,
    }
}

/// How the last ready transport of a session is given up: where nothing is retained yet, a lease
/// is taken for a new generation until `now` plus the grace period.
pub open spec fn orphan_step(
    before: LifecycleView,
    limiter_before: LimiterView,
    now: u64,
    retained_bytes: nat,
    after: LifecycleView,
    limiter_after: LimiterView,
    result: Result<DetachOutcome, LifecycleError>,
) -> bool {
    if before.state.ticket() is Some {
        let ticket = before.state.ticket()->Some_0;
        after == before && limiter_after == limiter_before && result
            == Ok::<DetachOutcome, LifecycleError>(DetachOutcome::Orphaned(ticket))
    } else if before.generation == u64::MAX {
        after == before && limiter_after == limiter_before && result
            == Err::<DetachOutcome, LifecycleError>(LifecycleError::GenerationExhausted)
    } else {
        let generation = (before.generation + 1) as u64;
        let bumped = LifecycleView { generation, ..before };
        if now + before.grace > u64::MAX {
            after == bumped && limiter_after == limiter_before && result
                == Err::<DetachOutcome, LifecycleError>(LifecycleError::GenerationExhausted)
        } else {
            let ticket = ReapTicket {
                session_id: before.session_id,
                generation,
                deadline: (now + before.grace) as u64,
            };
            match limiter_before.refusal(ticket.key(), retained_bytes) {
                Some(error) => {
                    &&& after == (LifecycleView { state: SessionState::Closing, ..bumped })
                    &&& limiter_after == limiter_before
                    &&& result == Err::<DetachOutcome, LifecycleError>(error)
                },
                None => {
                    &&& after == (LifecycleView {
                        state: match before.state {
                            SessionState::Resuming { reservation, .. } => SessionState::Resuming {
                                reservation,
                                fallback: ResumeFallback::Orphaned(ticket),
                            },
                            _ => SessionState::Orphaned(ticket),
                        },
                        ..bumped
                    })
                    &&& limiter_after == limiter_before.leased(ticket.key(), retained_bytes)
                    &&& result == Ok::<DetachOutcome, LifecycleError>(
                        DetachOutcome::Orphaned(ticket),
                    )
                },
            }
        }
    }
}

/// What a detach does.
pub open spec fn detach_step(
    before: LifecycleView,
    limiter_before: LimiterView,
    transport_id: u64,
    reason: DetachReason,
    now: u64,
    retained_bytes: nat,
    after: LifecycleView,
    limiter_after: LimiterView,
    result: Result<DetachOutcome, LifecycleError>,
) -> bool {
    if before.state is Closing {
        after == before && limiter_after == limiter_before && result
            == Ok::<DetachOutcome, LifecycleError>(DetachOutcome::Closing)
    } else if before.state is Revoked {
        after == before && limiter_after == limiter_before && result
            == Ok::<DetachOutcome, LifecycleError>(DetachOutcome::Revoked)
    } else if !(reason is Unexpected) {
        &&& after == before.ended(reason is Revoked)
        &&& limiter_after == lease_returned(limiter_before, before.state)
        &&& result == Ok::<DetachOutcome, LifecycleError>(
            if reason is Revoked {
                DetachOutcome::Revoked
            } else {
                DetachOutcome::Closing
            },
        )
    } else if !(exists|id: u32| first_holder(before.slots, transport_id, id)) {
        after == before && limiter_after == limiter_before && result
            == Ok::<DetachOutcome, LifecycleError>(DetachOutcome::StreamRemains)
    } else {
        let id = choose|id: u32| first_holder(before.slots, transport_id, id);
        let slot = before.slots[id];
        if slot.ready == Some(transport_id) {
            let cleared = before.with_slot(id, LogicalSlot { ready: None, ..slot });
            if cleared.ready_count() > 0 {
                after == cleared && limiter_after == limiter_before && result
                    == Ok::<DetachOutcome, LifecycleError>(DetachOutcome::StreamRemains)
            } else {
                orphan_step(
                    cleared,
                    limiter_before,
                    now,
                    retained_bytes,
                    after,
                    limiter_after,
                    result,
                )
            }
        } else {
            &&& after == before.with_slot(id, LogicalSlot { draining: None, ..slot })
            &&& limiter_after == limiter_before
            &&& result == Ok::<DetachOutcome, LifecycleError>(DetachOutcome::StreamRemains)
        }
    }
}

/// What a commit does. The slot is taken over before its generation is counted, so a slot whose
/// generations are used up keeps the new transport although the transaction stays open.
pub open spec fn commit_step(
    before: LifecycleView,
    limiter_before: LimiterView,
    reservation: ResumeReservation,
    new_transport_id: u64,
    after: LifecycleView,
    limiter_after: LimiterView,
    result: Result<CommitOutcome, LifecycleError>,
) -> bool {
    let id = reservation.logical_slot_id;
    let slot = before.slot_or_new(id);
    if before.transaction_refusal(reservation) is Some {
        after == before && limiter_after == limiter_before && result
            == Err::<CommitOutcome, LifecycleError>(
            before.transaction_refusal(reservation)->Some_0,
        )
    } else if slot.draining is Some {
        after == before && limiter_after == limiter_before && result
            == Err::<CommitOutcome, LifecycleError>(LifecycleError::SlotDraining)
    } else {
        let taken = LogicalSlot {
            ready: Some(new_transport_id),
            draining: slot.ready,
            ..slot
        };
        if slot.generation == u64::MAX {
            &&& after == before.with_slot(id, taken)
            &&& limiter_after == limiter_before
            &&& result == Err::<CommitOutcome, LifecycleError>(LifecycleError::GenerationExhausted)
        } else {
            let generation = (slot.generation + 1) as u64;
            &&& after == (LifecycleView {
                state: SessionState::Active,
                ..before.with_slot(id, LogicalSlot { generation, ..taken })
            })
            &&& limiter_after == lease_returned(limiter_before, before.state)
            &&& result == Ok::<CommitOutcome, LifecycleError>(
                CommitOutcome { drain_transport: slot.ready, slot_generation: generation },
            )
        }
    }
}

#[derive(Debug, Clone, Copy, PartialEq, Eq, Structural)]
struct SlotEntry {
    id: u32,
    slot: LogicalSlot,
}

spec fn slot_map(entries: Seq<SlotEntry>) -> Map<u32, LogicalSlot> {
    Map::new(
        |id: u32| exists|i: int| 0 <= i < entries.len() && entries[i].id == id,
        |id: u32| entries[choose|i: int| 0 <= i < entries.len() && entries[i].id == id].slot,
    )
}

spec fn ascending(entries: Seq<SlotEntry>) -> bool {
    forall|i: int, j: int| 0 <= i < j < entries.len() ==> entries[i].id < entries[j].id
}

proof fn lemma_slot_map(entries: Seq<SlotEntry>)
    requires
        ascending(entries),
    ensures
        forall|i: int|
            0 <= i < entries.len() ==> slot_map(entries).dom().contains((#[trigger] entries[i]).id)
                && slot_map(entries)[entries[i].id] == entries[i].slot,
{
    assert forall|i: int| 0 <= i < entries.len() implies slot_map(entries).dom().contains(
        (#[trigger] entries[i]).id,
    ) && slot_map(entries)[entries[i].id] == entries[i].slot by {
        let id = entries[i].id;
        let j = choose|j: int| 0 <= j < entries.len() && entries[j].id == id;
        assert(0 <= j < entries.len() && entries[j].id == id);
        assert(i == j);
    }
}

proof fn lemma_slot_map_update(entries: Seq<SlotEntry>, i: int, slot: LogicalSlot)
    requires
        ascending(entries),
        0 <= i < entries.len(),
    ensures
        ascending(entries.update(i, SlotEntry { id: entries[i].id, slot })),
        slot_map(entries.update(i, SlotEntry { id: entries[i].id, slot })) =~= slot_map(
            entries,
        ).insert(entries[i].id, slot),
{
    let changed = entries.update(i, SlotEntry { id: entries[i].id, slot });
    assert forall|a: int, b: int| 0 <= a < b < changed.len() implies changed[a].id
        < changed[b].id by {
        assert(entries[a].id < entries[b].id);
    }
    lemma_slot_map(entries);
    lemma_slot_map(changed);
    let grown = slot_map(entries).insert(entries[i].id, slot);
    assert forall|id: u32| #[trigger]
        slot_map(changed).dom().contains(id) <==> grown.dom().contains(id) by {
        if slot_map(changed).dom().contains(id) {
            let j = choose|j: int| 0 <= j < changed.len() && changed[j].id == id;
            assert(entries[j].id == id);
        }
        if slot_map(entries).dom().contains(id) {
            let j = choose|j: int| 0 <= j < entries.len() && entries[j].id == id;
            assert(changed[j].id == id);
        }
        assert(changed[i].id == entries[i].id);
    }
    assert forall|id: u32| slot_map(changed).dom().contains(id) implies #[trigger] slot_map(
        changed,
    )[id] == grown[id] by {
        let j = choose|j: int| 0 <= j < changed.len() && changed[j].id == id;
        assert(changed[j].id == id);
        assert(slot_map(changed)[changed[j].id] == changed[j].slot);
        if j != i {
            assert(entries[j] == changed[j]);
        }
    }
}

proof fn lemma_slot_map_insert(entries: Seq<SlotEntry>, i: int, entry: SlotEntry)
    requires
        ascending(entries),
        0 <= i <= entries.len(),
        forall|j: int| 0 <= j < i ==> (#[trigger] entries[j]).id < entry.id,
        forall|j: int| i <= j < entries.len() ==> entry.id < (#[trigger] entries[j]).id,
    ensures
        ascending(entries.insert(i, entry)),
        slot_map(entries.insert(i, entry)) =~= slot_map(entries).insert(entry.id, entry.slot),
        !slot_map(entries).dom().contains(entry.id),
{
    let changed = entries.insert(i, entry);
    assert forall|a: int, b: int| 0 <= a < b < changed.len() implies changed[a].id
        < changed[b].id by {
        if a < i {
            assert(changed[a] == entries[a]);
        } else if a > i {
            assert(changed[a] == entries[a - 1]);
        }
        if b < i {
            assert(changed[b] == entries[b]);
        } else if b > i {
            assert(changed[b] == entries[b - 1]);
        }
    }
    lemma_slot_map(entries);
    lemma_slot_map(changed);
    let grown = slot_map(entries).insert(entry.id, entry.slot);
    assert forall|id: u32| #[trigger]
        slot_map(changed).dom().contains(id) <==> grown.dom().contains(id) by {
        if slot_map(changed).dom().contains(id) {
            let j = choose|j: int| 0 <= j < changed.len() && changed[j].id == id;
            if j < i {
                assert(entries[j].id == id);
            } else if j > i {
                assert(entries[j - 1].id == id);
            }
        }
        if slot_map(entries).dom().contains(id) {
            let j = choose|j: int| 0 <= j < entries.len() && entries[j].id == id;
            if j < i {
                assert(changed[j].id == id);
            } else {
                assert(changed[j + 1].id == id);
            }
        }
        assert(changed[i].id == entry.id);
    }
    assert forall|id: u32| slot_map(changed).dom().contains(id) implies #[trigger] slot_map(
        changed,
    )[id] == grown[id] by {
        let j = choose|j: int| 0 <= j < changed.len() && changed[j].id == id;
        assert(slot_map(changed)[changed[j].id] == changed[j].slot);
        if j < i {
            assert(entries[j] == changed[j]);
        } else if j > i {
            assert(entries[j - 1] == changed[j]);
        }
    }
    if slot_map(entries).dom().contains(entry.id) {
        let j = choose|j: int| 0 <= j < entries.len() && entries[j].id == entry.id;
        assert(entries[j].id == entry.id);
    }
}

/// Slot numbers that no entry has add nothing.
proof fn lemma_gap(slots: Map<u32, LogicalSlot>, from: nat, to: nat)
    requires
        from <= to <= u32::MAX + 1,
        forall|id: u32| from <= id < to ==> !#[trigger] slots.dom().contains(id),
    ensures
        ready_below(slots, from) == ready_below(slots, to),
        carriers_below(slots, from) =~= carriers_below(slots, to),
    decreases to - from,
{
    if from < to {
        lemma_gap(slots, from, (to - 1) as nat);
        assert(!slots.dom().contains((to - 1) as u32));
    }
}

/// Where no slot is ready, none counts.
proof fn lemma_none_ready(slots: Map<u32, LogicalSlot>, end: nat, id: u32)
    requires
        ready_below(slots, end) == 0,
        id < end <= u32::MAX,
        slots.dom().contains(id),
    ensures
        slots[id].ready is None,
    decreases end,
{
    if id < end - 1 {
        lemma_none_ready(slots, (end - 1) as nat, id);
    }
}

/// One step of a walk over the entries in order.
proof fn lemma_walk(entries: Seq<SlotEntry>, i: int, from: nat)
    requires
        ascending(entries),
        0 <= i < entries.len(),
        from == if i == 0 {
            0nat
        } else {
            (entries[i - 1].id + 1) as nat
        },
    ensures
        ready_below(slot_map(entries), (entries[i].id + 1) as nat) == ready_below(
            slot_map(entries),
            from,
        ) + if entries[i].slot.ready is Some {
            1nat
        } else {
            0nat
        },
        carriers_below(slot_map(entries), (entries[i].id + 1) as nat) =~= carriers_below(
            slot_map(entries),
            from,
        ) + entries[i].slot.carriers(),
{
    let slots = slot_map(entries);
    lemma_slot_map(entries);
    let id = entries[i].id;
    assert forall|other: u32| from <= other < id implies !#[trigger] slots.dom().contains(
        other,
    ) by {
        if slots.dom().contains(other) {
            let j = choose|j: int| 0 <= j < entries.len() && entries[j].id == other;
            assert(entries[j].id == other);
            if j < i && i > 0 && j < i - 1 {
                assert(entries[j].id < entries[i - 1].id);
            }
        }
    }
    lemma_gap(slots, from, id as nat);
    assert(slots.dom().contains(id));
    assert((id + 1 - 1) as u32 == id);
}

/// After the last entry nothing is left.
proof fn lemma_walk_end(entries: Seq<SlotEntry>, from: nat, end: nat)
    requires
        ascending(entries),
        from <= end <= u32::MAX,
        from == if entries.len() == 0 {
            0nat
        } else {
            (entries[entries.len() - 1].id + 1) as nat
        },
    ensures
        ready_below(slot_map(entries), end) == ready_below(slot_map(entries), from),
        carriers_below(slot_map(entries), end) =~= carriers_below(slot_map(entries), from),
{
    assert forall|other: u32| from <= other < end implies !#[trigger] slot_map(
        entries,
    ).dom().contains(other) by {
        if slot_map(entries).dom().contains(other) {
            let j = choose|j: int| 0 <= j < entries.len() && entries[j].id == other;
            assert(entries[j].id == other);
            if j < entries.len() - 1 {
                assert(entries[j].id < entries[entries.len() - 1].id);
            }
        }
    }
    lemma_gap(slot_map(entries), from, end);
}

/// One logical TCP session.
pub struct SessionLifecycle {
    session_id: u64,
    locator: [u8; SESSION_LOCATOR_LEN],
    max_slots: u32,
    grace: u64,
    generation: u64,
    last_resume_epoch: u64,
    state: SessionState,
    slots: Vec<SlotEntry>,
}

impl View for SessionLifecycle {
    type V = LifecycleView;

    closed spec fn view(&self) -> LifecycleView {
        LifecycleView {
            session_id: self.session_id,
            locator: self.locator@,
            max_slots: self.max_slots,
            grace: self.grace,
            generation: self.generation,
            last_resume_epoch: self.last_resume_epoch,
            state: self.state,
            slots: slot_map(self.slots@),
        }
    }
}

impl SessionLifecycle {
    pub closed spec fn ordered(&self) -> bool {
        ascending(self.slots@)
    }

    pub open spec fn wf(&self) -> bool {
        self.ordered() && self@.valid()
    }

    /// A session with one ready transport in slot 0. `grace` is in nanoseconds.
    pub fn new(
        session_id: u64,
        locator: [u8; SESSION_LOCATOR_LEN],
        max_slots: u32,
        grace: u64,
        primary_transport: u64,
    ) -> (result: Result<SessionLifecycle, LifecycleError>)
        ensures
            if session_id == 0 || max_slots == 0 {
                result is Err && result->Err_0 == LifecycleError::InvalidSession
            } else {
                &&& result is Ok
                &&& result->Ok_0.wf()
                &&& result->Ok_0@ == (LifecycleView {
                    session_id,
                    locator: locator@,
                    max_slots,
                    grace,
                    generation: 1,
                    last_resume_epoch: 0,
                    state: SessionState::Active,
                    slots: Map::empty().insert(
                        0u32,
                        LogicalSlot {
                            generation: 1,
                            ready: Some(primary_transport),
                            draining: None,
                        },
                    ),
                })
            },
    {
        if session_id == 0 || max_slots == 0 {
            return Err(LifecycleError::InvalidSession);
        }
        let slot = LogicalSlot { generation: 1, ready: Some(primary_transport), draining: None };
        let mut slots: Vec<SlotEntry> = Vec::new();
        proof {
            lemma_slot_map_insert(slots@, 0, SlotEntry { id: 0, slot });
            assert(slots@.insert(0, SlotEntry { id: 0, slot }) =~= slots@.push(
                SlotEntry { id: 0, slot },
            ));
            assert(slot_map(slots@) =~= Map::empty());
        }
        slots.push(SlotEntry { id: 0, slot });
        Ok(
            SessionLifecycle {
                session_id,
                locator,
                max_slots,
                grace,
                generation: 1,
                last_resume_epoch: 0,
                state: SessionState::Active,
                slots,
            },
        )
    }

    pub fn state(&self) -> (state: LifecycleState)
        ensures
            state == self@.state.kind(),
    {
        match self.state {
            SessionState::Active => LifecycleState::Active,
            SessionState::Orphaned(_) => LifecycleState::Orphaned,
            SessionState::Resuming { .. } => LifecycleState::Resuming,
            SessionState::Closing => LifecycleState::Closing,
            SessionState::Revoked => LifecycleState::Revoked,
        }
    }

    /// How many slots have a ready transport.
    pub fn ready_streams(&self) -> (count: usize)
        requires
            self.wf(),
        ensures
            count == self@.ready_count(),
    {
        let mut count: usize = 0;
        let mut i: usize = 0;
        let ghost mut from: nat = 0;
        while i < self.slots.len()
            invariant
                self.wf(),
                i <= self.slots@.len(),
                count <= i,
                count == ready_below(slot_map(self.slots@), from),
                from == if i == 0 {
                    0nat
                } else {
                    (self.slots@[i - 1].id + 1) as nat
                },
            decreases self.slots@.len() - i,
        {
            proof {
                lemma_walk(self.slots@, i as int, from);
                from = (self.slots@[i as int].id + 1) as nat;
            }
            if self.slots[i].slot.ready.is_some() {
                count += 1;
            }
            i += 1;
        }
        proof {
            lemma_slot_map(self.slots@);
            if self.slots@.len() > 0 {
                assert(self@.slots.dom().contains(self.slots@[self.slots@.len() - 1].id));
            }
            lemma_walk_end(self.slots@, from, self.max_slots as nat);
        }
        count
    }

    fn position(&self, id: u32) -> (found: Option<usize>)
        requires
            self.ordered(),
        ensures
            match found {
                Some(i) => i < self.slots@.len() && self.slots@[i as int].id == id
                    && self@.slots.dom().contains(id) && self@.slots[id]
                    == self.slots@[i as int].slot,
                None => !self@.slots.dom().contains(id),
            },
    {
        proof {
            lemma_slot_map(self.slots@);
        }
        let mut i: usize = 0;
        while i < self.slots.len()
            invariant
                i <= self.slots@.len(),
                forall|j: int| 0 <= j < i ==> (#[trigger] self.slots@[j]).id != id,
                forall|j: int|
                    0 <= j < self.slots@.len() ==> slot_map(self.slots@).dom().contains(
                        (#[trigger] self.slots@[j]).id,
                    ) && slot_map(self.slots@)[self.slots@[j].id] == self.slots@[j].slot,
            decreases self.slots@.len() - i,
        {
            if self.slots[i].id == id {
                return Some(i);
            }
            i += 1;
        }
        None
    }

    pub fn ready_transport(&self, logical_slot_id: u32) -> (transport: Option<u64>)
        requires
            self.wf(),
        ensures
            transport == if self@.slots.dom().contains(logical_slot_id) {
                self@.slots[logical_slot_id].ready
            } else {
                None
            },
    {
        match self.position(logical_slot_id) {
            Some(i) => self.slots[i].slot.ready,
            None => None,
        }
    }

    pub fn draining_transport(&self, logical_slot_id: u32) -> (transport: Option<u64>)
        requires
            self.wf(),
        ensures
            transport == if self@.slots.dom().contains(logical_slot_id) {
                self@.slots[logical_slot_id].draining
            } else {
                None
            },
    {
        match self.position(logical_slot_id) {
            Some(i) => self.slots[i].slot.draining,
            None => None,
        }
    }

    fn bump_generation(&mut self) -> (result: Result<u64, LifecycleError>)
        requires
            old(self).wf(),
        ensures
            final(self).wf(),
            if old(self)@.generation == u64::MAX {
                final(self)@ == old(self)@ && result == Err::<u64, LifecycleError>(
                    LifecycleError::GenerationExhausted,
                )
            } else {
                &&& final(self)@ == (LifecycleView {
                    generation: (old(self)@.generation + 1) as u64,
                    ..old(self)@
                })
                &&& result == Ok::<u64, LifecycleError>((old(self)@.generation + 1) as u64)
            },
    {
        match self.generation.checked_add(1) {
            Some(generation) => {
                self.generation = generation;
                Ok(generation)
            },
            None => Err(LifecycleError::GenerationExhausted),
        }
    }

    /// Takes a lease for a new generation and keeps it in the session's state: as the orphan
    /// ticket, or as what an open resume transaction falls back to.
    fn orphan(&mut self, now: u64, retained_bytes: usize, limiter: &mut OrphanLimiter) -> (result:
        Result<DetachOutcome, LifecycleError>)
        requires
            old(self).wf(),
            old(limiter).wf(),
            old(self)@.state.ticket() is None,
            old(self)@.ready_count() == 0,
        ensures
            final(self).wf(),
            final(limiter).wf(),
            orphan_step(
                old(self)@,
                old(limiter)@,
                now,
                retained_bytes as nat,
                final(self)@,
                final(limiter)@,
                result,
            ),
    {
        proof {
            assert forall|id: u32| #[trigger] self@.slots.dom().contains(id) implies
                self@.slots[id].ready is None by {
                lemma_none_ready(self@.slots, self@.max_slots as nat, id);
            }
        }
        let generation: u64 = match self.bump_generation() {
            Ok(generation) => generation,
            Err(error) => return Err(error),
        };
        let deadline: u64 = match now.checked_add(self.grace) {
            Some(deadline) => deadline,
            None => return Err(LifecycleError::GenerationExhausted),
        };
        let ticket = ReapTicket { session_id: self.session_id, generation, deadline };
        match limiter.reserve(self.session_id, generation, retained_bytes) {
            Err(error) => {
                self.state = SessionState::Closing;
                Err(error)
            },
            Ok(()) => {
                self.state = match self.state {
                    SessionState::Resuming { reservation, .. } => SessionState::Resuming {
                        reservation,
                        fallback: ResumeFallback::Orphaned(ticket),
                    },
                    _ => SessionState::Orphaned(ticket),
                };
                Ok(DetachOutcome::Orphaned(ticket))
            },
        }
    }

    fn release_orphan_fallback(&self, limiter: &mut OrphanLimiter)
        requires
            old(limiter).wf(),
        ensures
            final(limiter).wf(),
            final(limiter)@ == lease_returned(old(limiter)@, self@.state),
    {
        match self.state {
            SessionState::Orphaned(ticket) => {
                limiter.release(ticket);
            },
            SessionState::Resuming { fallback: ResumeFallback::Orphaned(ticket), .. } => {
                limiter.release(ticket);
            },
            _ => {},
        }
    }

    /// Ends the session and hands out every transport it had.
    fn terminal(&mut self, revoked: bool, limiter: &mut OrphanLimiter) -> (transports: Vec<u64>)
        requires
            old(self).wf(),
            old(limiter).wf(),
        ensures
            final(self).wf(),
            final(limiter).wf(),
            final(self)@ == old(self)@.ended(revoked),
            final(limiter)@ == lease_returned(old(limiter)@, old(self)@.state),
            transports@ == old(self)@.carriers(),
    {
        self.release_orphan_fallback(limiter);
        let mut transports: Vec<u64> = Vec::new();
        let ghost before = self.slots@;
        let ghost mut from: nat = 0;
        let mut i: usize = 0;
        while i < self.slots.len()
            invariant
                ascending(before),
                self.slots@.len() == before.len(),
                i <= before.len(),
                self.session_id == old(self).session_id,
                self.locator == old(self).locator,
                self.max_slots == old(self).max_slots,
                self.grace == old(self).grace,
                self.generation == old(self).generation,
                self.last_resume_epoch == old(self).last_resume_epoch,
                self.state == old(self).state,
                forall|j: int|
                    0 <= j < i ==> #[trigger] self.slots@[j] == (SlotEntry {
                        id: before[j].id,
                        slot: before[j].slot.emptied(),
                    }),
                forall|j: int| i <= j < before.len() ==> #[trigger] self.slots@[j] == before[j],
                transports@ == carriers_below(slot_map(before), from),
                from == if i == 0 {
                    0nat
                } else {
                    (before[i - 1].id + 1) as nat
                },
            decreases before.len() - i,
        {
            proof {
                lemma_walk(before, i as int, from);
                from = (before[i as int].id + 1) as nat;
            }
            let entry = self.slots[i];
            let ghost listed = transports@;
            if let Some(ready) = entry.slot.ready {
                transports.push(ready);
            }
            if let Some(draining) = entry.slot.draining {
                transports.push(draining);
            }
            assert(transports@ =~= listed + before[i as int].slot.carriers());
            self.slots.set(
                i,
                SlotEntry {
                    id: entry.id,
                    slot: LogicalSlot {
                        generation: entry.slot.generation,
                        ready: None,
                        draining: None,
                    },
                },
            );
            i += 1;
        }
        self.state = if revoked {
            SessionState::Revoked
        } else {
            SessionState::Closing
        };
        proof {
            lemma_slot_map(before);
            if before.len() > 0 {
                assert(old(self)@.slots.dom().contains(before[before.len() - 1].id));
            }
            lemma_walk_end(before, from, self.max_slots as nat);
            let after = self.slots@;
            assert forall|a: int, b: int| 0 <= a < b < after.len() implies after[a].id
                < after[b].id by {
                assert(before[a].id < before[b].id);
            }
            lemma_slot_map(after);
            let ended = old(self)@.ended(revoked);
            assert forall|id: u32| #[trigger]
                slot_map(after).dom().contains(id) <==> ended.slots.dom().contains(id) by {
                if slot_map(after).dom().contains(id) {
                    let j = choose|j: int| 0 <= j < after.len() && after[j].id == id;
                    assert(before[j].id == id);
                }
                if slot_map(before).dom().contains(id) {
                    let j = choose|j: int| 0 <= j < before.len() && before[j].id == id;
                    assert(after[j].id == id);
                }
            }
            assert forall|id: u32| slot_map(after).dom().contains(id) implies #[trigger] slot_map(
                after,
            )[id] == ended.slots[id] by {
                let j = choose|j: int| 0 <= j < after.len() && after[j].id == id;
                assert(slot_map(after)[after[j].id] == after[j].slot);
                assert(slot_map(before)[before[j].id] == before[j].slot);
            }
            assert(slot_map(after) =~= ended.slots);
        }
        transports
    }

    /// Takes a transport off the session.
    pub fn detach(
        &mut self,
        transport_id: u64,
        reason: DetachReason,
        now: u64,
        retained_bytes: usize,
        limiter: &mut OrphanLimiter,
    ) -> (result: Result<DetachOutcome, LifecycleError>)
        requires
            old(self).wf(),
            old(limiter).wf(),
        ensures
            final(self).wf(),
            final(limiter).wf(),
            detach_step(
                old(self)@,
                old(limiter)@,
                transport_id,
                reason,
                now,
                retained_bytes as nat,
                final(self)@,
                final(limiter)@,
                result,
            ),
    {
        match self.state {
            SessionState::Closing => return Ok(DetachOutcome::Closing),
            SessionState::Revoked => return Ok(DetachOutcome::Revoked),
            _ => {},
        }
        match reason {
            DetachReason::CleanClose => {
                self.terminal(false, limiter);
                return Ok(DetachOutcome::Closing);
            },
            DetachReason::Revoked => {
                self.terminal(true, limiter);
                return Ok(DetachOutcome::Revoked);
            },
            DetachReason::Unexpected => {},
        }
        let ghost entries = self.slots@;
        proof {
            lemma_slot_map(entries);
        }
        let mut i: usize = 0;
        while i < self.slots.len()
            invariant_except_break
                *self == *old(self),
            invariant
                entries == old(self).slots@,
                self.slots@.len() == entries.len(),
                old(self).wf(),
                i <= entries.len(),
                forall|j: int|
                    0 <= j < i ==> !(#[trigger] entries[j]).slot.holds(transport_id),
            ensures
                *self == *old(self),
                i < entries.len() ==> entries[i as int].slot.holds(transport_id),
            decreases entries.len() - i,
        {
            let slot = self.slots[i].slot;
            if slot.ready == Some(transport_id) || slot.draining == Some(transport_id) {
                break;
            }
            i += 1;
        }
        if i == self.slots.len() {
            proof {
                if exists|id: u32| first_holder(old(self)@.slots, transport_id, id) {
                    let id = choose|id: u32| first_holder(old(self)@.slots, transport_id, id);
                    let j = choose|j: int| 0 <= j < entries.len() && entries[j].id == id;
                    assert(entries[j].id == id);
                    assert(slot_map(entries)[entries[j].id] == entries[j].slot);
                }
            }
            return Ok(DetachOutcome::StreamRemains);
        }
        let entry = self.slots[i];
        proof {
            let slots = old(self)@.slots;
            assert forall|other: u32| #[trigger]
                slots.dom().contains(other) && other < entry.id implies !slots[other].holds(
                transport_id,
            ) by {
                let j = choose|j: int| 0 <= j < entries.len() && entries[j].id == other;
                assert(entries[j].id == other);
                assert(slot_map(entries)[entries[j].id] == entries[j].slot);
            }
            assert(first_holder(slots, transport_id, entry.id));
            let id = choose|id: u32| first_holder(slots, transport_id, id);
            assert(first_holder(slots, transport_id, id));
            assert(id == entry.id);
        }
        if entry.slot.ready != Some(transport_id) {
            let cleared = LogicalSlot {
                generation: entry.slot.generation,
                ready: entry.slot.ready,
                draining: None,
            };
            proof {
                lemma_slot_map_update(entries, i as int, cleared);
            }
            self.slots.set(i, SlotEntry { id: entry.id, slot: cleared });
            return Ok(DetachOutcome::StreamRemains);
        }
        let cleared = LogicalSlot {
            generation: entry.slot.generation,
            ready: None,
            draining: entry.slot.draining,
        };
        proof {
            lemma_slot_map_update(entries, i as int, cleared);
        }
        self.slots.set(i, SlotEntry { id: entry.id, slot: cleared });
        if self.ready_streams() > 0 {
            return Ok(DetachOutcome::StreamRemains);
        }
        match self.state {
            SessionState::Orphaned(ticket) => Ok(DetachOutcome::Orphaned(ticket)),
            SessionState::Resuming { fallback: ResumeFallback::Orphaned(ticket), .. } => Ok(
                DetachOutcome::Orphaned(ticket),
            ),
            _ => self.orphan(now, retained_bytes, limiter),
        }
    }

    /// Opens the one resume transaction of the session. `proof_verified` says whether the proof
    /// of `join` was made with the session's resume secret.
    pub fn begin_resume(
        &mut self,
        join: &TcpResumeJoin,
        fresh_transcript_hash: &[u8; 32],
        proof_verified: bool,
    ) -> (result: Result<ResumeReservation, LifecycleError>)
        requires
            old(self).wf(),
        ensures
            final(self).wf(),
            result == old(self)@.resume_answer(*join, fresh_transcript_hash@, proof_verified),
            final(self)@ == old(self)@.resumed(*join, result),
    {
        let fallback = match self.state {
            SessionState::Active => ResumeFallback::Active,
            SessionState::Orphaned(ticket) => ResumeFallback::Orphaned(ticket),
            SessionState::Resuming { .. } => return Err(LifecycleError::ResumeBusy),
            SessionState::Closing => return Err(LifecycleError::Terminal),
            SessionState::Revoked => return Err(LifecycleError::Terminal),
        };
        let input = join.input;
        if !same_bytes(input.session_locator.as_slice(), self.locator.as_slice()) {
            return Err(LifecycleError::WrongLocator);
        }
        if !same_bytes(input.transcript_hash.as_slice(), fresh_transcript_hash.as_slice())
            || !proof_verified {
            return Err(LifecycleError::InvalidProof);
        }
        if input.resume_epoch <= self.last_resume_epoch {
            return Err(LifecycleError::StaleEpoch);
        }
        if input.logical_slot_id >= self.max_slots {
            return Err(LifecycleError::InvalidSlot);
        }
        // A hard-resume client may know that its carrier is dead before the server sees EOF/RST,
        // so a ready transport in the slot does not refuse the request: the commit replaces it.
        if self.draining_transport(input.logical_slot_id).is_some() {
            return Err(LifecycleError::SlotDraining);
        }
        // Consumed at reservation time. A failed socket retries with a fresh handshake and epoch.
        self.last_resume_epoch = input.resume_epoch;
        let generation: u64 = match self.bump_generation() {
            Ok(generation) => generation,
            Err(error) => return Err(error),
        };
        let reservation = ResumeReservation {
            session_id: self.session_id,
            generation,
            resume_epoch: input.resume_epoch,
            logical_slot_id: input.logical_slot_id,
            handover: input.handover,
        };
        self.state = SessionState::Resuming { reservation, fallback };
        Ok(reservation)
    }

    /// Publishes the new transport of the open transaction in its slot.
    pub fn commit_resume(
        &mut self,
        reservation: ResumeReservation,
        new_transport_id: u64,
        limiter: &mut OrphanLimiter,
    ) -> (result: Result<CommitOutcome, LifecycleError>)
        requires
            old(self).wf(),
            old(limiter).wf(),
        ensures
            final(self).wf(),
            final(limiter).wf(),
            commit_step(
                old(self)@,
                old(limiter)@,
                reservation,
                new_transport_id,
                final(self)@,
                final(limiter)@,
                result,
            ),
    {
        match self.state {
            SessionState::Resuming { reservation: current, .. } => {
                if current != reservation {
                    return Err(LifecycleError::StaleReservation);
                }
            },
            SessionState::Closing => return Err(LifecycleError::Terminal),
            SessionState::Revoked => return Err(LifecycleError::Terminal),
            _ => return Err(LifecycleError::StaleReservation),
        }
        let id: u32 = reservation.logical_slot_id;
        let found = self.position(id);
        let slot = match found {
            Some(i) => self.slots[i].slot,
            None => LogicalSlot { generation: 0, ready: None, draining: None },
        };
        if slot.draining.is_some() {
            return Err(LifecycleError::SlotDraining);
        }
        let next_generation: Option<u64> = slot.generation.checked_add(1);
        let taken = LogicalSlot {
            generation: match next_generation {
                Some(generation) => generation,
                None => slot.generation,
            },
            ready: Some(new_transport_id),
            draining: slot.ready,
        };
        self.put_slot(id, found, taken);
        let slot_generation: u64 = match next_generation {
            Some(generation) => generation,
            None => return Err(LifecycleError::GenerationExhausted),
        };
        self.release_orphan_fallback(limiter);
        self.state = SessionState::Active;
        Ok(CommitOutcome { drain_transport: slot.ready, slot_generation })
    }

    fn put_slot(&mut self, id: u32, found: Option<usize>, slot: LogicalSlot)
        requires
            old(self).ordered(),
            match found {
                Some(i) => i < old(self).slots@.len() && old(self).slots@[i as int].id == id,
                None => !old(self)@.slots.dom().contains(id),
            },
        ensures
            final(self).ordered(),
            final(self)@ == old(self)@.with_slot(id, slot),
    {
        let ghost entries = self.slots@;
        match found {
            Some(i) => {
                proof {
                    lemma_slot_map_update(entries, i as int, slot);
                }
                self.slots.set(i, SlotEntry { id, slot });
            },
            None => {
                let mut i: usize = 0;
                while i < self.slots.len() && self.slots[i].id < id
                    invariant
                        *self == *old(self),
                        entries == self.slots@,
                        ascending(entries),
                        i <= entries.len(),
                        forall|j: int| 0 <= j < i ==> (#[trigger] entries[j]).id < id,
                    decreases entries.len() - i,
                {
                    i += 1;
                }
                proof {
                    lemma_slot_map(entries);
                    assert forall|j: int| i <= j < entries.len() implies id < (#[trigger]
                    entries[j]).id by {
                        assert(old(self)@.slots.dom().contains(entries[j].id));
                    }
                    lemma_slot_map_insert(entries, i as int, SlotEntry { id, slot });
                }
                self.slots.insert(i, SlotEntry { id, slot });
            },
        }
    }

    /// Gives the open transaction up. Its epoch stays consumed.
    pub fn abort_resume(&mut self, reservation: ResumeReservation) -> (result: Result<
        (),
        LifecycleError,
    >)
        requires
            old(self).wf(),
        ensures
            final(self).wf(),
            match old(self)@.transaction_refusal(reservation) {
                Some(error) => result == Err::<(), LifecycleError>(error) && final(self)@ == old(
                    self,
                )@,
                None => {
                    &&& result == Ok::<(), LifecycleError>(())
                    &&& final(self)@ == (LifecycleView {
                        state: match old(self)@.state.ticket() {
                            Some(ticket) => SessionState::Orphaned(ticket),
                            None => SessionState::Active,
                        },
                        ..old(self)@
                    })
                },
            },
    {
        match self.state {
            SessionState::Resuming { reservation: current, fallback } => {
                if current != reservation {
                    return Err(LifecycleError::StaleReservation);
                }
                self.state = match fallback {
                    ResumeFallback::Active => SessionState::Active,
                    ResumeFallback::Orphaned(ticket) => SessionState::Orphaned(ticket),
                };
                Ok(())
            },
            SessionState::Closing => Err(LifecycleError::Terminal),
            SessionState::Revoked => Err(LifecycleError::Terminal),
            _ => Err(LifecycleError::StaleReservation),
        }
    }

    /// Acknowledges that the draining transport of a slot is gone.
    pub fn complete_drain(
        &mut self,
        logical_slot_id: u32,
        slot_generation: u64,
        transport_id: u64,
    ) -> (done: bool)
        requires
            old(self).wf(),
        ensures
            final(self).wf(),
            done == {
                &&& old(self)@.slots.dom().contains(logical_slot_id)
                &&& old(self)@.slots[logical_slot_id].generation == slot_generation
                &&& old(self)@.slots[logical_slot_id].draining == Some(transport_id)
            },
            final(self)@ == if done {
                old(self)@.with_slot(
                    logical_slot_id,
                    LogicalSlot { draining: None, ..old(self)@.slots[logical_slot_id] },
                )
            } else {
                old(self)@
            },
    {
        let found = self.position(logical_slot_id);
        match found {
            None => false,
            Some(i) => {
                let slot = self.slots[i].slot;
                if slot.generation != slot_generation || slot.draining != Some(transport_id) {
                    return false;
                }
                self.put_slot(
                    logical_slot_id,
                    found,
                    LogicalSlot { generation: slot.generation, ready: slot.ready, draining: None },
                );
                true
            },
        }
    }

    /// Ends an orphaned session whose grace is over. A ticket of another generation never does.
    pub fn reap(&mut self, ticket: ReapTicket, now: u64, limiter: &mut OrphanLimiter) -> (reaped:
        bool)
        requires
            old(self).wf(),
            old(limiter).wf(),
        ensures
            final(self).wf(),
            final(limiter).wf(),
            reaped == old(self)@.reapable(ticket, now),
            if reaped {
                &&& final(self)@ == (LifecycleView { state: SessionState::Closing, ..old(self)@ })
                &&& final(limiter)@ == old(limiter)@.released(ticket)
            } else {
                final(self)@ == old(self)@ && final(limiter)@ == old(limiter)@
            },
    {
        let current = match self.state {
            SessionState::Orphaned(current) => current,
            _ => return false,
        };
        if current != ticket || now < ticket.deadline {
            return false;
        }
        limiter.release(ticket);
        self.state = SessionState::Closing;
        true
    }

    /// Revokes the session and hands out the transports to stop.
    pub fn revoke(&mut self, limiter: &mut OrphanLimiter) -> (transports: Vec<u64>)
        requires
            old(self).wf(),
            old(limiter).wf(),
        ensures
            final(self).wf(),
            final(limiter).wf(),
            final(self)@ == old(self)@.ended(true),
            final(limiter)@ == lease_returned(old(limiter)@, old(self)@.state),
            transports@ == old(self)@.carriers(),
    {
        self.terminal(true, limiter)
    }

    /// Closes the session and hands out the transports to stop.
    pub fn close(&mut self, limiter: &mut OrphanLimiter) -> (transports: Vec<u64>)
        requires
            old(self).wf(),
            old(limiter).wf(),
        ensures
            final(self).wf(),
            final(limiter).wf(),
            final(self)@ == old(self)@.ended(false),
            final(limiter)@ == lease_returned(old(limiter)@, old(self)@.state),
            transports@ == old(self)@.carriers(),
    {
        self.terminal(false, limiter)
    }
}

/// A closed or revoked session never comes back: every request is refused or leaves it as it is,
/// and a second close or revoke leaves it terminal.
pub proof fn law_terminal_is_final(
    session: LifecycleView,
    limiter: LimiterView,
    join: TcpResumeJoin,
    transcript: Seq<u8>,
    proof_verified: bool,
    reservation: ResumeReservation,
    ticket: ReapTicket,
    transport_id: u64,
    reason: DetachReason,
    now: u64,
    retained_bytes: nat,
    after: LifecycleView,
    limiter_after: LimiterView,
    result: Result<DetachOutcome, LifecycleError>,
)
    requires
        session.state.is_terminal(),
    ensures
        session.resume_answer(join, transcript, proof_verified) == Err::<
            ResumeReservation,
            LifecycleError,
        >(LifecycleError::Terminal),
        session.transaction_refusal(reservation) == Some(LifecycleError::Terminal),
        !session.reapable(ticket, now),
        detach_step(
            session,
            limiter,
            transport_id,
            reason,
            now,
            retained_bytes,
            after,
            limiter_after,
            result,
        ) ==> after == session && limiter_after == limiter && result is Ok,
        session.ended(true).state.is_terminal(),
        session.ended(false).state.is_terminal(),
{
}

/// A resume transaction opens only for a proof that was found genuine and that covers this very
/// session, the transcript of the connection it came over, a fresh epoch and a slot of the
/// session; the reservation carries exactly that.
pub proof fn law_accepted_resume_is_bound(
    session: LifecycleView,
    join: TcpResumeJoin,
    transcript: Seq<u8>,
    proof_verified: bool,
)
    requires
        session.resume_answer(join, transcript, proof_verified) is Ok,
    ensures
        proof_verified,
        join.input.session_locator@ == session.locator,
        join.input.transcript_hash@ == transcript,
        join.input.resume_epoch > session.last_resume_epoch,
        join.input.logical_slot_id < session.max_slots,
        ({
            let reservation = session.resume_answer(join, transcript, proof_verified)->Ok_0;
            &&& reservation.session_id == session.session_id
            &&& reservation.resume_epoch == join.input.resume_epoch
            &&& reservation.logical_slot_id == join.input.logical_slot_id
            &&& reservation.handover == join.input.handover
        }),
{
}

/// A handover makes before it breaks: once it is committed the new transport is ready in the slot,
/// the old one drains there until its end is acknowledged, and no other slot has changed.
pub proof fn law_commit_makes_before_it_breaks(
    session: LifecycleView,
    limiter: LimiterView,
    reservation: ResumeReservation,
    new_transport_id: u64,
    after: LifecycleView,
    limiter_after: LimiterView,
    committed: Result<CommitOutcome, LifecycleError>,
    other: u32,
)
    requires
        commit_step(
            session,
            limiter,
            reservation,
            new_transport_id,
            after,
            limiter_after,
            committed,
        ),
        committed is Ok,
        other != reservation.logical_slot_id,
    ensures
        ({
            let id = reservation.logical_slot_id;
            &&& after.slots.dom().contains(id)
            &&& after.slots[id].ready == Some(new_transport_id)
            &&& after.slots[id].draining == session.slot_or_new(id).ready
            &&& committed->Ok_0.drain_transport == session.slot_or_new(id).ready
        }),
        after.slots.dom().contains(other) == session.slots.dom().contains(other),
        after.slots.dom().contains(other) ==> after.slots[other] == session.slots[other],
        after.session_id == session.session_id,
        after.locator == session.locator,
{
}

/// Resume epochs are consumed for good. A request that opened a transaction had an epoch above
/// every earlier one, and in any later state of the session no request with that epoch, or a
/// lower one, is accepted.
pub proof fn law_resume_epoch_is_consumed(
    session: LifecycleView,
    join: TcpResumeJoin,
    transcript: Seq<u8>,
    proof_verified: bool,
    later: LifecycleView,
    replay: TcpResumeJoin,
    later_transcript: Seq<u8>,
    later_verified: bool,
)
    requires
        session.resume_answer(join, transcript, proof_verified) is Ok,
        later.last_resume_epoch >= session.resumed(
            join,
            session.resume_answer(join, transcript, proof_verified),
        ).last_resume_epoch,
        replay.input.resume_epoch <= join.input.resume_epoch,
    ensures
        session.last_resume_epoch < join.input.resume_epoch,
        later.resume_answer(replay, later_transcript, later_verified) is Err,
{
}

/// Neither the consumed epoch nor the generation of a session ever goes back, whatever is asked
/// of it.
pub proof fn law_counters_never_go_back(
    session: LifecycleView,
    limiter: LimiterView,
    join: TcpResumeJoin,
    transcript: Seq<u8>,
    proof_verified: bool,
    transport_id: u64,
    reason: DetachReason,
    now: u64,
    retained_bytes: nat,
    reservation: ResumeReservation,
    after: LifecycleView,
    limiter_after: LimiterView,
    detached: Result<DetachOutcome, LifecycleError>,
    committed: Result<CommitOutcome, LifecycleError>,
)
    ensures
        ({
            let next = session.resumed(
                join,
                session.resume_answer(join, transcript, proof_verified),
            );
            next.last_resume_epoch >= session.last_resume_epoch && next.generation
                >= session.generation
        }),
        detach_step(
            session,
            limiter,
            transport_id,
            reason,
            now,
            retained_bytes,
            after,
            limiter_after,
            detached,
        ) ==> after.last_resume_epoch == session.last_resume_epoch && after.generation
            >= session.generation,
        commit_step(
            session,
            limiter,
            reservation,
            transport_id,
            after,
            limiter_after,
            committed,
        ) ==> after.last_resume_epoch == session.last_resume_epoch && after.generation
            == session.generation,
        session.ended(true).last_resume_epoch == session.last_resume_epoch,
        session.ended(false).last_resume_epoch == session.last_resume_epoch,
{
}

/// Aborting a transaction undoes its opening but for the consumed epoch and generation: the
/// session is as ready, or as orphaned, as before.
pub proof fn law_abort_restores_the_session(
    session: LifecycleView,
    join: TcpResumeJoin,
    transcript: Seq<u8>,
    proof_verified: bool,
)
    requires
        session.resume_answer(join, transcript, proof_verified) is Ok,
    ensures
        ({
            let answer = session.resume_answer(join, transcript, proof_verified);
            let opened = session.resumed(join, answer);
            &&& opened.transaction_refusal(answer->Ok_0) is None
            &&& opened.state.ticket() == session.state.ticket()
            &&& session.state == match opened.state.ticket() {
                Some(ticket) => SessionState::Orphaned(ticket),
                None => SessionState::Active,
            }
            &&& opened.slots == session.slots
            &&& opened.last_resume_epoch == join.input.resume_epoch
        }),
{
}

/// A ticket reaps only the generation it was issued for, and none while a resume transaction is
/// open: a delayed reaper cannot end a revived session or a newer orphan.
pub proof fn law_stale_ticket_never_reaps(session: LifecycleView, ticket: ReapTicket, now: u64)
    requires
        session.state.ticket() != Some(ticket) || session.state is Resuming,
    ensures
        !session.reapable(ticket, now),
{
}

/// Releasing a ticket twice is releasing it once, and it leaves every other lease alone.
pub proof fn law_release_is_idempotent(
    limiter: LimiterView,
    ticket: ReapTicket,
    other: (u64, u64),
)
    requires
        other != ticket.key(),
    ensures
        limiter.released(ticket).released(ticket) == limiter.released(ticket),
        limiter.released(ticket).leases.dom().contains(other) == limiter.leases.dom().contains(
            other,
        ),
        limiter.leases.dom().contains(other) ==> limiter.released(ticket).leases[other]
            == limiter.leases[other],
{
}

proof fn lemma_no_carriers(slots: Map<u32, LogicalSlot>, end: nat)
    requires
        end <= u32::MAX,
        forall|id: u32| #[trigger]
            slots.dom().contains(id) ==> slots[id].ready is None && slots[id].draining is None,
    ensures
        carriers_below(slots, end) =~= Seq::<u64>::empty(),
        ready_below(slots, end) == 0,
    decreases end,
{
    if end > 0 {
        lemma_no_carriers(slots, (end - 1) as nat);
        if slots.dom().contains((end - 1) as u32) {
            assert(slots[(end - 1) as u32].carriers() =~= Seq::<u64>::empty());
        }
    }
}

/// Ending a session again hands out no transport and gives no lease back.
pub proof fn law_end_is_idempotent(
    session: LifecycleView,
    limiter: LimiterView,
    revoked: bool,
    again: bool,
)
    ensures
        session.ended(revoked).carriers() == Seq::<u64>::empty(),
        session.ended(revoked).ready_count() == 0,
        lease_returned(limiter, session.ended(revoked).state) == limiter,
        session.ended(revoked).ended(again) == session.ended(again),
{
    let ended = session.ended(revoked);
    lemma_no_carriers(ended.slots, ended.max_slots as nat);
    assert(ended.ended(again).slots =~= session.ended(again).slots);
}

/// The slots below `end` that have a ready transport.
pub open spec fn ready_slots(slots: Map<u32, LogicalSlot>, end: nat) -> Set<u32> {
    Set::new(|id: u32| id < end && slots.dom().contains(id) && slots[id].ready is Some)
}

proof fn lemma_ready_slots(slots: Map<u32, LogicalSlot>, end: nat)
    requires
        end <= u32::MAX,
    ensures
        ready_slots(slots, end).finite(),
        ready_slots(slots, end).len() == ready_below(slots, end),
        ready_below(slots, end) <= end,
    decreases end,
{
    if end == 0 {
        assert(ready_slots(slots, end) =~= Set::empty());
    } else {
        let last = (end - 1) as u32;
        let lower = ready_slots(slots, (end - 1) as nat);
        lemma_ready_slots(slots, (end - 1) as nat);
        if slots.dom().contains(last) && slots[last].ready is Some {
            assert(ready_slots(slots, end) =~= lower.insert(last));
        } else {
            assert(ready_slots(slots, end) =~= lower);
        }
    }
}

/// The ready streams of a session are its slots with a ready transport: no slot beyond the
/// negotiated limit has a transport, and there are never more of them than that limit.
pub proof fn law_ready_streams_are_the_ready_slots(session: LifecycleView, beyond: u32)
    requires
        session.valid(),
        beyond >= session.max_slots,
    ensures
        session.ready_count() == ready_slots(session.slots, session.max_slots as nat).len(),
        ready_slots(session.slots, session.max_slots as nat).finite(),
        session.ready_count() <= session.max_slots,
        !session.slots.dom().contains(beyond),
{
    lemma_ready_slots(session.slots, session.max_slots as nat);
}

/// An orphaned session has no ready transport, nor has one whose open transaction falls back to
/// an orphan. A slot whose generations are used up is left out: a commit to it fails after it
/// took the slot over.
pub proof fn law_orphans_have_no_ready_transport(session: LifecycleView)
    requires
        session.valid(),
        session.state.ticket() is Some,
    ensures
        forall|id: u32| #[trigger]
            session.slots.dom().contains(id) && session.slots[id].generation < u64::MAX
                ==> session.slots[id].ready is None,
        (forall|id: u32| #[trigger]
            session.slots.dom().contains(id) ==> session.slots[id].generation < u64::MAX)
            ==> session.ready_count() == 0,
{
    if forall|id: u32| #[trigger]
        session.slots.dom().contains(id) ==> session.slots[id].generation < u64::MAX {
        let end = session.max_slots as nat;
        lemma_ready_slots(session.slots, end);
        assert(ready_slots(session.slots, end) =~= Set::empty());
    }
}

/// The commit of the open transaction succeeds: its slot was clear when it was reserved, and stays
/// so. A slot whose generations are used up is left out.
pub proof fn law_reserved_slot_stays_clear(
    session: LifecycleView,
    limiter: LimiterView,
    reservation: ResumeReservation,
    new_transport_id: u64,
    after: LifecycleView,
    limiter_after: LimiterView,
    committed: Result<CommitOutcome, LifecycleError>,
)
    requires
        session.valid(),
        session.slot_or_new(reservation.logical_slot_id).generation < u64::MAX,
        session.transaction_refusal(reservation) is None,
        commit_step(
            session,
            limiter,
            reservation,
            new_transport_id,
            after,
            limiter_after,
            committed,
        ),
    ensures
        committed is Ok,
        after.state is Active,
{
}

/// Each session owns exactly the lease of its current ticket, whatever is asked of it: nothing
/// leaks, nothing is counted twice, and no other session's lease is touched.
pub proof fn law_lease_follows_the_ticket(
    session: LifecycleView,
    limiter: LimiterView,
    join: TcpResumeJoin,
    transcript: Seq<u8>,
    proof_verified: bool,
    transport_id: u64,
    reason: DetachReason,
    now: u64,
    retained_bytes: nat,
    reservation: ResumeReservation,
    after: LifecycleView,
    limiter_after: LimiterView,
    detached: Result<DetachOutcome, LifecycleError>,
    committed: Result<CommitOutcome, LifecycleError>,
    other: (u64, u64),
)
    requires
        session.valid(),
        session.owns_its_lease(limiter),
        other.0 != session.session_id,
    ensures
        session.resumed(
            join,
            session.resume_answer(join, transcript, proof_verified),
        ).owns_its_lease(limiter),
        detach_step(
            session,
            limiter,
            transport_id,
            reason,
            now,
            retained_bytes,
            after,
            limiter_after,
            detached,
        ) ==> {
            &&& after.owns_its_lease(limiter_after)
            &&& detached != Err::<DetachOutcome, LifecycleError>(LifecycleError::DuplicateOrphan)
            &&& limiter_after.leases.dom().contains(other) == limiter.leases.dom().contains(other)
        },
        commit_step(
            session,
            limiter,
            reservation,
            transport_id,
            after,
            limiter_after,
            committed,
        ) ==> {
            &&& after.owns_its_lease(limiter_after)
            &&& limiter_after.leases.dom().contains(other) == limiter.leases.dom().contains(other)
        },
        session.ended(true).owns_its_lease(lease_returned(limiter, session.state)),
        session.ended(false).owns_its_lease(lease_returned(limiter, session.state)),
{
    let returned = lease_returned(limiter, session.state);
    assert(session.ended(true).owns_its_lease(returned)) by {
        if session.state.ticket() is Some {
            let ticket = session.state.ticket()->Some_0;
            assert(limiter.leases.dom().contains(ticket.key()));
        }
    }
    if detach_step(
        session,
        limiter,
        transport_id,
        reason,
        now,
        retained_bytes,
        after,
        limiter_after,
        detached,
    ) {
        if session.state.ticket() is None {
            let key = (session.session_id, (session.generation + 1) as u64);
            assert(!limiter.leases.dom().contains(key));
        }
    }
    if commit_step(
        session,
        limiter,
        reservation,
        transport_id,
        after,
        limiter_after,
        committed,
    ) {
        assert(after.session_id == session.session_id);
    }
}

/// A resume is owed to every request that is in order: the session is up or orphaned, the request
/// names it, covers the transcript of its own connection with a proof that was found genuine, has
/// a fresh epoch, and asks for any slot of the session in which nothing drains. No other request
/// gets one, and an accepted one is the only thing that changes but for the epoch.
pub proof fn law_resume_is_owed_to_a_proper_request(
    session: LifecycleView,
    join: TcpResumeJoin,
    transcript: Seq<u8>,
    proof_verified: bool,
)
    requires
        session.valid(),
    ensures
        ({
            let answer = session.resume_answer(join, transcript, proof_verified);
            let after = session.resumed(join, answer);
            let slot_id = join.input.logical_slot_id;
            let proper = (session.state is Active || session.state is Orphaned)
                && join.input.session_locator@ == session.locator && join.input.transcript_hash@
                == transcript && proof_verified && join.input.resume_epoch
                > session.last_resume_epoch && slot_id < session.max_slots && !(
            session.slots.dom().contains(slot_id) && session.slots[slot_id].draining is Some);
            &&& answer is Ok <==> proper && session.generation < u64::MAX
            &&& answer is Ok ==> {
                &&& answer->Ok_0.session_id == session.session_id
                &&& answer->Ok_0.generation == session.generation + 1
                &&& answer->Ok_0.resume_epoch == join.input.resume_epoch
                &&& answer->Ok_0.logical_slot_id == slot_id
                &&& answer->Ok_0.handover == join.input.handover
                &&& after.state matches SessionState::Resuming { reservation, fallback }
                    && reservation == answer->Ok_0 && match fallback {
                    ResumeFallback::Active => session.state is Active,
                    ResumeFallback::Orphaned(ticket) => session.state == SessionState::Orphaned(
                        ticket,
                    ),
                }
                &&& after.generation == session.generation + 1
                &&& after.slots == session.slots
            }
            &&& after.last_resume_epoch == if proper {
                join.input.resume_epoch
            } else {
                session.last_resume_epoch
            }
            &&& answer is Err && !proper ==> after == session
            &&& answer matches Err(error) ==> match error {
                LifecycleError::ResumeBusy => session.state is Resuming,
                LifecycleError::Terminal => session.state is Closing || session.state is Revoked,
                LifecycleError::WrongLocator => join.input.session_locator@ != session.locator,
                LifecycleError::InvalidProof => join.input.transcript_hash@ != transcript
                    || !proof_verified,
                LifecycleError::StaleEpoch => join.input.resume_epoch <= session.last_resume_epoch,
                LifecycleError::InvalidSlot => slot_id >= session.max_slots,
                LifecycleError::SlotDraining => session.slots.dom().contains(slot_id)
                    && session.slots[slot_id].draining is Some,
                LifecycleError::GenerationExhausted => session.generation == u64::MAX,
                _ => false,
            }
        }),
{
}

/// What a session tells of its state, and which ticket it holds in it.
pub proof fn law_states_are_told_apart(state: SessionState, ticket: ReapTicket)
    ensures
        state is Active <==> state.kind() is Active,
        state is Orphaned <==> state.kind() is Orphaned,
        state is Resuming <==> state.kind() is Resuming,
        state is Closing <==> state.kind() is Closing,
        state is Revoked <==> state.kind() is Revoked,
        state.is_terminal() <==> state.kind() is Closing || state.kind() is Revoked,
        state.ticket() == Some(ticket) <==> state == SessionState::Orphaned(ticket) || (
        state matches SessionState::Resuming { fallback, .. } && fallback
            == ResumeFallback::Orphaned(ticket)),
{
}

/// Committing the open transaction succeeds wherever its slot has generations left: the new
/// transport is ready in the slot, one generation on; what was ready there drains; the session is
/// active again, and the lease that it held is given back with its bytes.
pub proof fn law_commit_revives_the_session(
    session: LifecycleView,
    limiter: LimiterView,
    reservation: ResumeReservation,
    fallback: ResumeFallback,
    new_transport_id: u64,
    after: LifecycleView,
    limiter_after: LimiterView,
    committed: Result<CommitOutcome, LifecycleError>,
)
    requires
        session.valid(),
        session.state == (SessionState::Resuming { reservation, fallback }),
        session.slots.dom().contains(reservation.logical_slot_id)
            ==> session.slots[reservation.logical_slot_id].generation < u64::MAX,
        commit_step(
            session,
            limiter,
            reservation,
            new_transport_id,
            after,
            limiter_after,
            committed,
        ),
    ensures
        ({
            let id = reservation.logical_slot_id;
            let used = session.slots.dom().contains(id);
            let old_ready: Option<u64> = if used {
                session.slots[id].ready
            } else {
                None
            };
            let old_generation: u64 = if used {
                session.slots[id].generation
            } else {
                0
            };
            &&& committed is Ok
            &&& committed->Ok_0.drain_transport == old_ready
            &&& committed->Ok_0.slot_generation == old_generation + 1
            &&& after.state is Active
            &&& after.slots.dom().contains(id)
            &&& after.slots[id].ready == Some(new_transport_id)
            &&& after.slots[id].draining == old_ready
            &&& after.slots[id].generation == old_generation + 1
            &&& after.generation == session.generation
            &&& after.last_resume_epoch == session.last_resume_epoch
        }),
        match fallback {
            ResumeFallback::Active => limiter_after == limiter,
            ResumeFallback::Orphaned(ticket) => {
                let key = (ticket.session_id, ticket.generation);
                &&& !limiter_after.leases.dom().contains(key)
                &&& limiter.leases.dom().contains(key) && limiter.leases[key] <= limiter.bytes
                    ==> limiter_after.bytes == limiter.bytes - limiter.leases[key]
            },
        },
{
}

/// A commit is refused to everyone but the holder of the open transaction.
pub proof fn law_only_the_holder_commits(session: LifecycleView, reservation: ResumeReservation)
    ensures
        session.transaction_refusal(reservation) is None <==> (session.state matches SessionState::Resuming {
            reservation: current,
            ..
        } && current == reservation),
        session.transaction_refusal(reservation) matches Some(error) ==> error == if session.state
            is Closing || session.state is Revoked {
            LifecycleError::Terminal
        } else {
            LifecycleError::StaleReservation
        },
{
}

proof fn lemma_first_holder_exists(slots: Map<u32, LogicalSlot>, transport_id: u64, id: u32)
    requires
        slots.dom().contains(id),
        slots[id].holds(transport_id),
    ensures
        exists|first: u32| first_holder(slots, transport_id, first) && first <= id,
    decreases id,
{
    if exists|lower: u32| #[trigger]
        slots.dom().contains(lower) && lower < id && slots[lower].holds(transport_id) {
        let lower = choose|lower: u32| #[trigger]
            slots.dom().contains(lower) && lower < id && slots[lower].holds(transport_id);
        lemma_first_holder_exists(slots, transport_id, lower);
    } else {
        assert(first_holder(slots, transport_id, id));
    }
}

/// The loss of the last ready transport of an active session orphans it: it gets a ticket of a new
/// generation that runs out after its grace period, and a lease for the bytes that it retains.
/// Where the limiter has no room the session is over; and where another transport is left, or the
/// lost one only drained, the session goes on.
pub proof fn law_losing_a_transport(
    session: LifecycleView,
    limiter: LimiterView,
    id: u32,
    transport_id: u64,
    now: u64,
    retained_bytes: nat,
    after: LifecycleView,
    limiter_after: LimiterView,
    result: Result<DetachOutcome, LifecycleError>,
)
    requires
        session.valid(),
        session.state is Active,
        session.slots.dom().contains(id),
        session.slots[id].ready == Some(transport_id) || session.slots[id].draining == Some(
            transport_id,
        ),
        forall|other: u32| #[trigger]
            session.slots.dom().contains(other) && other != id ==> session.slots[other].ready
                != Some(transport_id) && session.slots[other].draining != Some(transport_id),
        session.generation < u64::MAX,
        now + session.grace <= u64::MAX,
        detach_step(
            session,
            limiter,
            transport_id,
            DetachReason::Unexpected,
            now,
            retained_bytes,
            after,
            limiter_after,
            result,
        ),
    ensures
        ({
            let was_ready = session.slots[id].ready == Some(transport_id);
            let others_ready = exists|other: u32| #[trigger]
                session.slots.dom().contains(other) && other != id && session.slots[other].ready
                    is Some;
            &&& after.slots.dom() == session.slots.dom()
            &&& after.slots[id].generation == session.slots[id].generation
            &&& after.slots[id].ready == if was_ready {
                None
            } else {
                session.slots[id].ready
            }
            &&& after.slots[id].draining == if was_ready {
                session.slots[id].draining
            } else {
                None
            }
            &&& forall|other: u32| #[trigger]
                session.slots.dom().contains(other) && other != id ==> after.slots[other]
                    == session.slots[other]
            &&& if !was_ready || others_ready {
                &&& result == Ok::<DetachOutcome, LifecycleError>(DetachOutcome::StreamRemains)
                &&& after.state is Active
                &&& limiter_after == limiter
            } else {
                let key = (session.session_id, (session.generation + 1) as u64);
                let room = limiter.leases.len() < limiter.max_sessions && limiter.bytes
                    + retained_bytes <= limiter.max_bytes;
                &&& !limiter.leases.dom().contains(key) && room ==> {
                    &&& result matches Ok(DetachOutcome::Orphaned(ticket)) && after.state
                        == SessionState::Orphaned(ticket) && ticket.session_id
                        == session.session_id && ticket.generation == session.generation + 1
                        && ticket.deadline == now + session.grace
                    &&& limiter_after.leases.dom() == limiter.leases.dom().insert(key)
                    &&& limiter_after.leases[key] == retained_bytes
                    &&& limiter_after.bytes == limiter.bytes + retained_bytes
                }
                &&& !limiter.leases.dom().contains(key) && !room ==> {
                    &&& result == Err::<DetachOutcome, LifecycleError>(LifecycleError::OrphanLimit)
                    &&& after.state is Closing
                    &&& limiter_after == limiter
                }
            }
        }),
{
    lemma_first_holder_exists(session.slots, transport_id, id);
    let first = choose|first: u32| first_holder(session.slots, transport_id, first);
    assert(first == id);
    let slot = session.slots[id];
    if slot.ready == Some(transport_id) {
        let cleared = session.with_slot(id, LogicalSlot { ready: None, ..slot });
        assert(cleared.slots.dom() =~= session.slots.dom());
        let end = session.max_slots as nat;
        lemma_ready_slots(cleared.slots, end);
        if exists|other: u32| #[trigger]
            session.slots.dom().contains(other) && other != id && session.slots[other].ready
                is Some {
            let other = choose|other: u32| #[trigger]
                session.slots.dom().contains(other) && other != id && session.slots[other].ready
                    is Some;
            assert(ready_slots(cleared.slots, end).contains(other));
            assert(ready_slots(cleared.slots, end).len() > 0);
        } else {
            assert(ready_slots(cleared.slots, end) =~= Set::empty());
        }
        assert(limiter.leases.insert(
            (session.session_id, (session.generation + 1) as u64),
            retained_bytes,
        ).dom() =~= limiter.leases.dom().insert(
            (session.session_id, (session.generation + 1) as u64),
        ));
    } else {
        assert(session.with_slot(id, LogicalSlot { draining: None, ..slot }).slots.dom()
            =~= session.slots.dom());
    }
}

/// A transport that no slot has is lost without a trace.
pub proof fn law_losing_a_strange_transport(
    session: LifecycleView,
    limiter: LimiterView,
    transport_id: u64,
    now: u64,
    retained_bytes: nat,
    after: LifecycleView,
    limiter_after: LimiterView,
    result: Result<DetachOutcome, LifecycleError>,
)
    requires
        !(session.state is Closing),
        !(session.state is Revoked),
        forall|id: u32| #[trigger]
            session.slots.dom().contains(id) ==> session.slots[id].ready != Some(transport_id)
                && session.slots[id].draining != Some(transport_id),
        detach_step(
            session,
            limiter,
            transport_id,
            DetachReason::Unexpected,
            now,
            retained_bytes,
            after,
            limiter_after,
            result,
        ),
    ensures
        after == session,
        limiter_after == limiter,
        result == Ok::<DetachOutcome, LifecycleError>(DetachOutcome::StreamRemains),
{
}

/// While a resume transaction is open, losing the last ready transport keeps the transaction: its
/// fallback becomes the orphan. A session that holds a ticket already keeps that one.
pub proof fn law_losing_a_transport_while_resuming(
    session: LifecycleView,
    limiter: LimiterView,
    reservation: ResumeReservation,
    fallback: ResumeFallback,
    id: u32,
    transport_id: u64,
    now: u64,
    retained_bytes: nat,
    after: LifecycleView,
    limiter_after: LimiterView,
    result: Result<DetachOutcome, LifecycleError>,
)
    requires
        session.valid(),
        session.state == (SessionState::Resuming { reservation, fallback }),
        session.slots.dom().contains(id),
        session.slots[id].ready == Some(transport_id),
        forall|other: u32| #[trigger]
            session.slots.dom().contains(other) && other != id ==> session.slots[other].ready
                is None && session.slots[other].draining != Some(transport_id),
        session.generation < u64::MAX,
        now + session.grace <= u64::MAX,
        !limiter.leases.dom().contains((session.session_id, (session.generation + 1) as u64)),
        limiter.leases.len() < limiter.max_sessions,
        limiter.bytes + retained_bytes <= limiter.max_bytes,
        detach_step(
            session,
            limiter,
            transport_id,
            DetachReason::Unexpected,
            now,
            retained_bytes,
            after,
            limiter_after,
            result,
        ),
    ensures
        after.slots[id].ready is None,
        match fallback {
            ResumeFallback::Orphaned(ticket) => {
                &&& result == Ok::<DetachOutcome, LifecycleError>(DetachOutcome::Orphaned(ticket))
                &&& after.state == session.state
                &&& limiter_after == limiter
            },
            ResumeFallback::Active => {
                &&& result matches Ok(DetachOutcome::Orphaned(ticket)) && after.state == (
                SessionState::Resuming { reservation, fallback: ResumeFallback::Orphaned(ticket) })
                    && ticket.session_id == session.session_id && ticket.generation
                    == session.generation + 1 && ticket.deadline == now + session.grace
                &&& limiter_after.leases.dom().contains(
                    (session.session_id, (session.generation + 1) as u64),
                )
            },
        },
{
    lemma_first_holder_exists(session.slots, transport_id, id);
    let first = choose|first: u32| first_holder(session.slots, transport_id, first);
    assert(first == id);
    let slot = session.slots[id];
    let cleared = session.with_slot(id, LogicalSlot { ready: None, ..slot });
    let end = session.max_slots as nat;
    lemma_ready_slots(cleared.slots, end);
    assert(ready_slots(cleared.slots, end) =~= Set::empty());
}

/// A clean close and a revocation end the session at once, whatever it was doing: nothing is left
/// in any slot, and the lease that it held is given back.
pub proof fn law_closing_ends_everything(
    session: LifecycleView,
    limiter: LimiterView,
    transport_id: u64,
    revoked: bool,
    now: u64,
    retained_bytes: nat,
    after: LifecycleView,
    limiter_after: LimiterView,
    result: Result<DetachOutcome, LifecycleError>,
    id: u32,
    ticket: ReapTicket,
)
    requires
        !(session.state is Closing),
        !(session.state is Revoked),
        detach_step(
            session,
            limiter,
            transport_id,
            if revoked {
                DetachReason::Revoked
            } else {
                DetachReason::CleanClose
            },
            now,
            retained_bytes,
            after,
            limiter_after,
            result,
        ),
    ensures
        after.state is Revoked <==> revoked,
        after.state is Closing <==> !revoked,
        result == Ok::<DetachOutcome, LifecycleError>(
            if revoked {
                DetachOutcome::Revoked
            } else {
                DetachOutcome::Closing
            },
        ),
        after.slots.dom() == session.slots.dom(),
        session.slots.dom().contains(id) ==> after.slots[id].ready is None
            && after.slots[id].draining is None && after.slots[id].generation
            == session.slots[id].generation,
        session.state == SessionState::Orphaned(ticket) ==> !limiter_after.leases.dom().contains(
            (ticket.session_id, ticket.generation),
        ),
        session.state is Active ==> limiter_after == limiter,
{
    assert(after.slots.dom() =~= session.slots.dom());
}

proof fn lemma_carriers_listed(slots: Map<u32, LogicalSlot>, end: nat, transport_id: u64)
    requires
        end <= u32::MAX,
    ensures
        carriers_below(slots, end).contains(transport_id) <==> exists|id: u32| #[trigger]
            slots.dom().contains(id) && id < end && (slots[id].ready == Some(transport_id)
                || slots[id].draining == Some(transport_id)),
    decreases end,
{
    if end > 0 {
        let last = (end - 1) as u32;
        let lower = carriers_below(slots, (end - 1) as nat);
        lemma_carriers_listed(slots, (end - 1) as nat, transport_id);
        let own = if slots.dom().contains(last) {
            slots[last].carriers()
        } else {
            Seq::empty()
        };
        let whole = lower + own;
        assert(carriers_below(slots, end) == whole);
        assert(whole.contains(transport_id) <==> lower.contains(transport_id) || own.contains(
            transport_id,
        )) by {
            if lower.contains(transport_id) {
                let k = choose|k: int| 0 <= k < lower.len() && lower[k] == transport_id;
                assert(whole[k] == transport_id);
            }
            if own.contains(transport_id) {
                let k = choose|k: int| 0 <= k < own.len() && own[k] == transport_id;
                assert(whole[lower.len() + k] == transport_id);
            }
        }
        if slots.dom().contains(last) {
            let slot = slots[last];
            if slot.ready == Some(transport_id) {
                assert(own[0] == transport_id);
            }
            if slot.draining == Some(transport_id) {
                assert(own[own.len() - 1] == transport_id);
            }
        }
    }
}

/// Ending a session hands out exactly the transports that its slots have, ready or draining.
pub proof fn law_ending_hands_out_every_transport(session: LifecycleView, transport_id: u64)
    requires
        session.valid(),
    ensures
        session.carriers().contains(transport_id) <==> exists|id: u32| #[trigger]
            session.slots.dom().contains(id) && (session.slots[id].ready == Some(transport_id)
                || session.slots[id].draining == Some(transport_id)),
{
    lemma_carriers_listed(session.slots, session.max_slots as nat, transport_id);
    if exists|id: u32| #[trigger]
        session.slots.dom().contains(id) && (session.slots[id].ready == Some(transport_id)
            || session.slots[id].draining == Some(transport_id)) {
        let id = choose|id: u32| #[trigger]
            session.slots.dom().contains(id) && (session.slots[id].ready == Some(transport_id)
                || session.slots[id].draining == Some(transport_id));
        assert(id < session.max_slots);
    }
}

/// A ticket reaps its session from its deadline on, and not a moment before.
pub proof fn law_grace_is_kept(session: LifecycleView, ticket: ReapTicket, now: u64)
    requires
        session.state == SessionState::Orphaned(ticket),
    ensures
        session.reapable(ticket, now) <==> ticket.deadline <= now,
{
}

/// Asking to resume: a request that is in order gets its slot, whichever of the session's it is, as
/// the next generation of the session; any other request is refused. Nobody else is told anything.
pub proof fn law_resuming_is_granted(
    join: TcpResumeJoin,
    transcript: [u8; 32],
    proof_verified: bool,
    result: Result<ResumeReservation, LifecycleError>,
)
    ensures
        forall|session: &mut SessionLifecycle| #[trigger]
            call_ensures(
                SessionLifecycle::begin_resume,
                (session, &join, &transcript, proof_verified),
                result,
            ) && session.wf() ==> {
                let before = session@;
                let after = final(session)@;
                let slot_id = join.input.logical_slot_id;
                let proper = (before.state is Active || before.state is Orphaned)
                    && join.input.session_locator@ == before.locator && join.input.transcript_hash@
                    == transcript@ && proof_verified && join.input.resume_epoch
                    > before.last_resume_epoch && slot_id < before.max_slots && !(
                before.slots.dom().contains(slot_id) && before.slots[slot_id].draining is Some);
                &&& result is Ok <==> proper && before.generation < u64::MAX
                &&& result is Ok ==> {
                    &&& result->Ok_0.session_id == before.session_id
                    &&& result->Ok_0.generation == before.generation + 1
                    &&& result->Ok_0.resume_epoch == join.input.resume_epoch
                    &&& result->Ok_0.logical_slot_id == slot_id
                    &&& result->Ok_0.handover == join.input.handover
                    &&& after.state is Resuming
                    &&& after.generation == before.generation + 1
                    &&& after.last_resume_epoch == join.input.resume_epoch
                    &&& after.slots == before.slots
                }
                &&& !proper ==> after == before
            },
{
    assert forall|session: &mut SessionLifecycle| #[trigger]
        call_ensures(
            SessionLifecycle::begin_resume,
            (session, &join, &transcript, proof_verified),
            result,
        ) && session.wf() implies ({
        let before = session@;
        let after = final(session)@;
        let slot_id = join.input.logical_slot_id;
        let proper = (before.state is Active || before.state is Orphaned)
            && join.input.session_locator@ == before.locator && join.input.transcript_hash@
            == transcript@ && proof_verified && join.input.resume_epoch
            > before.last_resume_epoch && slot_id < before.max_slots && !(
        before.slots.dom().contains(slot_id) && before.slots[slot_id].draining is Some);
        &&& result is Ok <==> proper && before.generation < u64::MAX
        &&& result is Ok ==> {
            &&& result->Ok_0.session_id == before.session_id
            &&& result->Ok_0.generation == before.generation + 1
            &&& result->Ok_0.resume_epoch == join.input.resume_epoch
            &&& result->Ok_0.logical_slot_id == slot_id
            &&& result->Ok_0.handover == join.input.handover
            &&& after.state is Resuming
            &&& after.generation == before.generation + 1
            &&& after.last_resume_epoch == join.input.resume_epoch
            &&& after.slots == before.slots
        }
        &&& !proper ==> after == before
    }) by {
        law_resume_is_owed_to_a_proper_request(session@, join, transcript@, proof_verified);
    }
}

/// A session starts in slot 0 with its first transport, in its first generation; it needs a number
/// and a slot.
pub proof fn law_sessions_start_with_one_transport(
    session_id: u64,
    locator: [u8; SESSION_LOCATOR_LEN],
    max_slots: u32,
    grace: u64,
    primary: u64,
    result: Result<SessionLifecycle, LifecycleError>,
)
    requires
        call_ensures(
            SessionLifecycle::new,
            (session_id, locator, max_slots, grace, primary),
            result,
        ),
    ensures
        result is Ok <==> session_id != 0 && max_slots >= 1,
        result is Err ==> result->Err_0 == LifecycleError::InvalidSession,
        result matches Ok(session) ==> {
            &&& session.wf()
            &&& session@.session_id == session_id && session@.locator == locator@
            &&& session@.max_slots == max_slots && session@.grace == grace
            &&& session@.state is Active && session@.generation == 1
            &&& session@.last_resume_epoch == 0
            &&& session@.slots.dom() == set![0u32]
            &&& session@.slots[0].ready == Some(primary) && session@.slots[0].draining is None
        },
{
    if let Ok(session) = result {
        assert(session@.slots.dom() =~= set![0u32]);
    }
}

/// A drain is over where its own transport says so: the slot, its generation and the transport
/// must be those that drain. Then the slot is free, and nothing else has changed.
pub proof fn law_drains_end_by_their_own_transport(
    slot_id: u32,
    generation: u64,
    transport_id: u64,
    done: bool,
)
    ensures
        forall|session: &mut SessionLifecycle| #[trigger]
            call_ensures(
                SessionLifecycle::complete_drain,
                (session, slot_id, generation, transport_id),
                done,
            ) && session.wf() ==> {
                let before = session@;
                let after = final(session)@;
                &&& done <==> before.slots.contains_key(slot_id)
                    && before.slots[slot_id].generation == generation
                    && before.slots[slot_id].draining == Some(transport_id)
                &&& done ==> after.slots.contains_key(slot_id) && after.slots[slot_id].draining
                    is None && after.slots[slot_id].ready == before.slots[slot_id].ready
                    && after.slots[slot_id].generation == generation && after.slots.remove(slot_id)
                    == before.slots.remove(slot_id) && after.state == before.state
                    && after.generation == before.generation && after.last_resume_epoch
                    == before.last_resume_epoch
                &&& !done ==> after == before
            },
{
    assert forall|session: &mut SessionLifecycle| #[trigger]
        call_ensures(
            SessionLifecycle::complete_drain,
            (session, slot_id, generation, transport_id),
            done,
        ) && session.wf() && done implies final(session)@.slots.remove(slot_id)
        == session@.slots.remove(slot_id) by {
        assert(final(session)@.slots.remove(slot_id) =~= session@.slots.remove(slot_id));
    }
}

/// A resume that is given up puts the session back to where it was: orphaned with its ticket, or
/// active. Only the transaction that owns it can give it up.
pub proof fn law_given_up_resumes_fall_back(
    reservation: ResumeReservation,
    result: Result<(), LifecycleError>,
)
    ensures
        forall|session: &mut SessionLifecycle| #[trigger]
            call_ensures(SessionLifecycle::abort_resume, (session, reservation), result)
                && session.wf() ==> {
                let before = session@;
                let after = final(session)@;
                let own = before.state matches SessionState::Resuming {
                    reservation: held,
                    fallback,
                } && held == reservation;
                &&& result is Ok <==> own
                &&& own ==> match before.state->fallback {
                    ResumeFallback::Active => after.state is Active,
                    ResumeFallback::Orphaned(ticket) => after.state == SessionState::Orphaned(
                        ticket,
                    ),
                }
                &&& own ==> after.slots == before.slots && after.generation == before.generation
                    && after.last_resume_epoch == before.last_resume_epoch
                &&& !own ==> after == before
            },
{
}

/// An orphan is reaped by its own ticket once its time has come, and its lease goes with it; no
/// other ticket and no earlier moment ends a session.
pub proof fn law_orphans_are_reaped_in_time(ticket: ReapTicket, now: u64, reaped: bool)
    ensures
        forall|session: &mut SessionLifecycle, limiter: &mut OrphanLimiter| #[trigger]
            call_ensures(SessionLifecycle::reap, (session, ticket, now, limiter), reaped)
                && session.wf() && limiter.wf() ==> {
                let before = session@;
                let after = final(session)@;
                &&& reaped <==> before.state == SessionState::Orphaned(ticket) && now
                    >= ticket.deadline
                &&& reaped ==> after.state is Closing && after.slots == before.slots
                    && final(limiter)@ == limiter@.released(ticket)
                &&& !reaped ==> after == before && final(limiter)@ == limiter@
            },
{
}

} // verus!
