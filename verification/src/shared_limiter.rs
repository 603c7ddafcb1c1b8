//! All TCP sessions of a profile and the limiter that they share.
//!
//! Every call on a session is one operation under the profile's lock. Whatever the sessions are
//! asked, in any order, the leases of the limiter are exactly the orphan tickets that are
//! outstanding.

use crate::orphan_limiter::{
    total_retained, LifecycleError, LimiterView, OrphanLimiter, ReapTicket,
};
use crate::tcp_roaming::{
    commit_step, detach_step, lease_returned, CommitOutcome, DetachOutcome, DetachReason,
    LifecycleView, LogicalSlot, ResumeReservation, SessionState, TcpResumeJoin,
};
use vstd::prelude::*;

verus! {

/// What can be asked of a session.
pub enum SessionCall {
    BeginResume(TcpResumeJoin, Seq<u8>, bool),
    Detach(u64, DetachReason, u64, nat),
    CommitResume(ResumeReservation, u64),
    AbortResume(ResumeReservation),
    CompleteDrain(u32, u64, u64),
    Reap(ReapTicket, u64),
    /// Close, or revoke.
    End(bool),
}

impl SessionCall {
    /// What a call makes of a session and the limiter: what the methods of
    /// [`SessionLifecycle`](crate::tcp_roaming::SessionLifecycle) promise.
    pub open spec fn makes(
        self,
        before: LifecycleView,
        limiter: LimiterView,
        after: LifecycleView,
        limiter_after: LimiterView,
    ) -> bool {
        match self {
            SessionCall::BeginResume(join, transcript, verified) => after == before.resumed(
                join,
                before.resume_answer(join, transcript, verified),
            ) && limiter_after == limiter,
            SessionCall::Detach(transport_id, reason, now, retained) => exists|
                result: Result<DetachOutcome, LifecycleError>,
            | #[trigger]
                detach_step(
                    before,
                    limiter,
                    transport_id,
                    reason,
                    now,
                    retained,
                    after,
                    limiter_after,
                    result,
                ),
            SessionCall::CommitResume(reservation, transport_id) => exists|
                result: Result<CommitOutcome, LifecycleError>,
            | #[trigger]
                commit_step(
                    before,
                    limiter,
                    reservation,
                    transport_id,
                    after,
                    limiter_after,
                    result,
                ),
            SessionCall::AbortResume(reservation) => limiter_after == limiter && after
                == match before.transaction_refusal(reservation) {
                Some(_) => before,
                None => LifecycleView {
                    state: match before.state.ticket() {
                        Some(ticket) => SessionState::Orphaned(ticket),
                        None => SessionState::Active,
                    },
                    ..before
                },
            },
            SessionCall::CompleteDrain(id, generation, transport_id) => limiter_after == limiter
                && after == if before.slots.dom().contains(id) && before.slots[id].generation
                == generation && before.slots[id].draining == Some(transport_id) {
                before.with_slot(id, LogicalSlot { draining: None, ..before.slots[id] })
            } else {
                before
            },
            SessionCall::Reap(ticket, now) => if before.reapable(ticket, now) {
                after == (LifecycleView { state: SessionState::Closing, ..before })
                    && limiter_after == limiter.released(ticket)
            } else {
                after == before && limiter_after == limiter
            },
            SessionCall::End(revoked) => after == before.ended(revoked) && limiter_after
                == lease_returned(limiter, before.state),
        }
    }
}

/// The tickets that were issued and not yet given back, by the session generation that they own.
pub open spec fn outstanding(sessions: Map<u64, LifecycleView>) -> Set<(u64, u64)> {
    Set::new(
        |key: (u64, u64)|
            sessions.contains_key(key.0) && (sessions[key.0].state.ticket() matches Some(ticket)
                && ticket.key() == key),
    )
}

/// The sessions that hold a ticket.
pub open spec fn orphans(sessions: Map<u64, LifecycleView>) -> Set<u64> {
    Set::new(|id: u64| sessions.contains_key(id) && sessions[id].state.ticket() is Some)
}

/// Sessions with distinct numbers share a limiter, and its leases are their outstanding tickets.
pub open spec fn share(sessions: Map<u64, LifecycleView>, limiter: LimiterView) -> bool {
    &&& forall|id: u64| #[trigger]
        sessions.contains_key(id) ==> sessions[id].valid() && sessions[id].session_id == id
    &&& limiter.leases.dom() == outstanding(sessions)
}

/// A limiter starts without sessions.
pub proof fn law_new_limiter_has_no_tickets(max_sessions: nat, max_bytes: nat)
    ensures
        share(
            Map::empty(),
            LimiterView { max_sessions, max_bytes, bytes: 0, leases: Map::empty() },
        ),
{
    assert(outstanding(Map::empty()) =~= Set::<(u64, u64)>::empty());
}

/// A session can join, and one that holds no ticket can leave.
pub proof fn law_sessions_come_and_go(
    sessions: Map<u64, LifecycleView>,
    limiter: LimiterView,
    session: LifecycleView,
)
    requires
        share(sessions, limiter),
        session.valid(),
        session.state.ticket() is None,
    ensures
        !sessions.contains_key(session.session_id) ==> share(
            sessions.insert(session.session_id, session),
            limiter,
        ),
        sessions.contains_key(session.session_id) && sessions[session.session_id] == session
            ==> share(sessions.remove(session.session_id), limiter),
{
    let id = session.session_id;
    if !sessions.contains_key(id) {
        assert(outstanding(sessions.insert(id, session)) =~= outstanding(sessions));
    } else if sessions[id] == session {
        assert(outstanding(sessions.remove(id)) =~= outstanding(sessions));
    }
}

/// Whatever is asked of one session, the leases are the outstanding tickets of all of them
/// afterwards, and no lease of another session has changed.
pub proof fn law_leases_are_the_outstanding_tickets(
    sessions: Map<u64, LifecycleView>,
    limiter: LimiterView,
    id: u64,
    call: SessionCall,
    after: LifecycleView,
    limiter_after: LimiterView,
)
    requires
        share(sessions, limiter),
        sessions.contains_key(id),
        after.valid(),
        call.makes(sessions[id], limiter, after, limiter_after),
    ensures
        share(sessions.insert(id, after), limiter_after),
        forall|key: (u64, u64)| #[trigger]
            limiter_after.leases.dom().contains(key) ==> limiter_after.leases[key]
                == if limiter.leases.dom().contains(key) {
                limiter.leases[key]
            } else {
                call->Detach_3
            },
        forall|key: (u64, u64)| #[trigger]
            limiter_after.leases.dom().contains(key) && !limiter.leases.dom().contains(key)
                ==> call is Detach && key.0 == id,
{
    let before = sessions[id];
    let changed = sessions.insert(id, after);
    assert(after.session_id == before.session_id);
    if before.state.ticket() is Some {
        let ticket = before.state.ticket()->Some_0;
        assert(outstanding(sessions).contains(ticket.key()));
    } else {
        assert(forall|generation: u64|
            !(#[trigger] outstanding(sessions).contains((id, generation))));
    }
    assert(limiter_after.leases.dom() =~= outstanding(changed));
}

/// As many leases as sessions hold a ticket: each holds at most one.
proof fn lemma_one_ticket_each(sessions: Map<u64, LifecycleView>)
    requires
        outstanding(sessions).finite(),
        forall|id: u64| #[trigger]
            sessions.contains_key(id) ==> sessions[id].valid() && sessions[id].session_id == id,
    ensures
        orphans(sessions).finite(),
        orphans(sessions).len() == outstanding(sessions).len(),
{
    let keys = outstanding(sessions);
    let number = |key: (u64, u64)| key.0;
    assert(orphans(sessions) =~= keys.map(number)) by {
        assert forall|id: u64| orphans(sessions).contains(id) <==> keys.map(number).contains(
            id,
        ) by {
            if orphans(sessions).contains(id) {
                let key = sessions[id].state.ticket()->Some_0.key();
                assert(keys.contains(key) && number(key) == id);
            }
        }
    }
    assert(vstd::relations::injective_on(number, keys)) by {
        assert forall|left: (u64, u64), right: (u64, u64)|
            keys.contains(left) && keys.contains(right) && #[trigger] number(left)
                == #[trigger] number(right) implies left == right by {}
    }
    vstd::set_lib::lemma_map_size(keys, keys.map(number), number);
}

impl OrphanLimiter {
    /// The counters of a limiter are those of the sessions that share it: as many sessions as hold
    /// a ticket, and the bytes that their leases retain together. Neither exceeds its limit, and
    /// without a ticket nothing is retained.
    pub proof fn law_counters_are_those_of_the_tickets(&self, sessions: Map<u64, LifecycleView>)
        requires
            self.wf(),
            share(sessions, self@),
        ensures
            outstanding(sessions).finite(),
            self@.leases.len() == outstanding(sessions).len(),
            self@.leases.len() == orphans(sessions).len(),
            self@.leases.len() <= self@.max_sessions,
            self@.bytes == total_retained(self@.leases),
            self@.bytes <= self@.max_bytes,
            outstanding(sessions).len() == 0 ==> self@.bytes == 0,
    {
        self.law_counters_match_leases();
        lemma_one_ticket_each(sessions);
    }
}

} // verus!
