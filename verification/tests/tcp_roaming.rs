use qeli::orphan_limiter::{LifecycleError, OrphanLimiter, ReapTicket};
use qeli::roaming_metrics::{TcpRoamingMetrics, TcpRoamingSnapshot};
use qeli::tcp_roaming::{
    DetachOutcome, DetachReason, LifecycleState, ResumeProofInput, ResumeReservation,
    SessionLifecycle, TcpResumeJoin, SESSION_LOCATOR_LEN,
};

const LOCATOR: [u8; SESSION_LOCATOR_LEN] = [0x44; SESSION_LOCATOR_LEN];
const SECRET: [u8; 32] = [0x55; 32];
const NOW: u64 = 1_000_000_000_000;
const SECOND: u64 = 1_000_000_000;
const MILLISECOND: u64 = 1_000_000;

fn lifecycle(id: u64, transport: u64) -> SessionLifecycle {
    SessionLifecycle::new(id, LOCATOR, 4, 30 * SECOND, transport).unwrap()
}

/// A join together with the key and the input that its proof was made with.
struct SealedJoin {
    join: TcpResumeJoin,
    secret: [u8; 32],
}

fn input(transcript: [u8; 32], locator: [u8; 16], epoch: u64, slot: u32, handover: bool) -> ResumeProofInput {
    ResumeProofInput {
        transcript_hash: transcript,
        session_locator: locator,
        resume_epoch: epoch,
        logical_slot_id: slot,
        handover,
    }
}

fn join(transcript: [u8; 32], epoch: u64, slot: u32, handover: bool) -> SealedJoin {
    SealedJoin { join: TcpResumeJoin { input: input(transcript, LOCATOR, epoch, slot, handover) }, secret: SECRET }
}

fn begin(
    session: &mut SessionLifecycle,
    sealed: &SealedJoin,
    transcript: &[u8; 32],
    secret: &[u8; 32],
) -> Result<ResumeReservation, LifecycleError> {
    let verified = sealed.secret == *secret;
    session.begin_resume(&sealed.join, transcript, verified)
}

#[test]
fn authenticated_handover_binds_transcript_epoch_locator_and_slot() {
    let mut limiter = OrphanLimiter::new(8, 1 << 20);
    let mut session = lifecycle(7, 100);
    let transcript = [0x33; 32];
    let reservation = begin(&mut session, &join(transcript, 1, 0, true), &transcript, &SECRET).unwrap();
    let committed = session.commit_resume(reservation, 200, &mut limiter).unwrap();
    assert_eq!(committed.drain_transport, Some(100));
    assert_eq!(session.ready_transport(0), Some(200));
    assert_eq!(session.draining_transport(0), Some(100));
    assert!(session.complete_drain(0, committed.slot_generation, 100));
    assert!(!session.complete_drain(0, committed.slot_generation, 100));
    assert_eq!(
        begin(&mut session, &join(transcript, 1, 0, true), &transcript, &SECRET),
        Err(LifecycleError::StaleEpoch)
    );
    assert_eq!(
        begin(&mut session, &join([9; 32], 2, 0, true), &transcript, &SECRET),
        Err(LifecycleError::InvalidProof)
    );
    let wrong_locator = SealedJoin {
        join: TcpResumeJoin { input: input(transcript, [9; 16], 2, 0, true) },
        secret: SECRET,
    };
    assert_eq!(
        begin(&mut session, &wrong_locator, &transcript, &SECRET),
        Err(LifecycleError::WrongLocator)
    );
    assert_eq!(
        begin(&mut session, &join(transcript, 2, 0, true), &transcript, &[0x56; 32]),
        Err(LifecycleError::InvalidProof)
    );
}

#[test]
fn hard_handover_keeps_session_and_releases_budget_on_commit() {
    let mut limiter = OrphanLimiter::new(2, 4096);
    let mut session = lifecycle(1, 10);
    let ticket = match session.detach(10, DetachReason::Unexpected, NOW, 1024, &mut limiter).unwrap() {
        DetachOutcome::Orphaned(ticket) => ticket,
        other => panic!("unexpected detach outcome: {other:?}"),
    };
    assert_eq!(session.state(), LifecycleState::Orphaned);
    assert_eq!((limiter.sessions(), limiter.bytes()), (1, 1024));
    let transcript = [3; 32];
    let reservation = begin(&mut session, &join(transcript, 9, 0, false), &transcript, &SECRET).unwrap();
    assert!(!session.reap(ticket, ticket.deadline(), &mut limiter));
    session.commit_resume(reservation, 11, &mut limiter).unwrap();
    assert_eq!(session.ready_transport(0), Some(11));
    assert_eq!((limiter.sessions(), limiter.bytes()), (0, 0));
    assert!(!session.reap(ticket, ticket.deadline(), &mut limiter));
}

#[test]
fn old_path_may_die_after_reservation_without_losing_the_pending_join() {
    let mut limiter = OrphanLimiter::new(2, 4096);
    let mut session = lifecycle(2, 20);
    let transcript = [4; 32];
    let reservation = begin(&mut session, &join(transcript, 1, 0, true), &transcript, &SECRET).unwrap();

    let ticket = match session.detach(20, DetachReason::Unexpected, NOW, 512, &mut limiter).unwrap() {
        DetachOutcome::Orphaned(ticket) => ticket,
        other => panic!("unexpected detach outcome: {other:?}"),
    };
    assert_eq!(session.state(), LifecycleState::Resuming);
    assert_eq!((limiter.sessions(), limiter.bytes()), (1, 512));
    assert!(
        !session.reap(ticket, ticket.deadline(), &mut limiter),
        "a reaper cannot win while a reserved fresh JOIN is being validated"
    );

    let committed = session.commit_resume(reservation, 21, &mut limiter).unwrap();
    assert_eq!(committed.drain_transport, None);
    assert_eq!(session.state(), LifecycleState::Active);
    assert_eq!(session.ready_transport(0), Some(21));
    assert_eq!((limiter.sessions(), limiter.bytes()), (0, 0));
}

#[test]
fn orphan_caps_fail_closed_without_counter_leaks() {
    let mut limiter = OrphanLimiter::new(1, 1024);
    let mut first = lifecycle(1, 10);
    let mut second = lifecycle(2, 20);
    first.detach(10, DetachReason::Unexpected, NOW, 800, &mut limiter).unwrap();
    assert_eq!(
        second.detach(20, DetachReason::Unexpected, NOW, 300, &mut limiter),
        Err(LifecycleError::OrphanLimit)
    );
    assert_eq!(second.state(), LifecycleState::Closing);
    assert_eq!((limiter.sessions(), limiter.bytes()), (1, 800));
    first.revoke(&mut limiter);
    first.revoke(&mut limiter);
    assert_eq!((limiter.sessions(), limiter.bytes()), (0, 0));
}

#[test]
fn stale_reaper_cannot_remove_revived_or_newer_generation() {
    let mut limiter = OrphanLimiter::new(4, 4096);
    let mut session = lifecycle(9, 90);
    let first = match session.detach(90, DetachReason::Unexpected, NOW, 100, &mut limiter).unwrap() {
        DetachOutcome::Orphaned(ticket) => ticket,
        _ => unreachable!(),
    };
    let transcript = [7; 32];
    let reservation = begin(&mut session, &join(transcript, 1, 0, false), &transcript, &SECRET).unwrap();
    session.commit_resume(reservation, 91, &mut limiter).unwrap();
    let second = match session
        .detach(91, DetachReason::Unexpected, NOW + SECOND, 100, &mut limiter)
        .unwrap()
    {
        DetachOutcome::Orphaned(ticket) => ticket,
        _ => unreachable!(),
    };
    assert_ne!(first.generation(), second.generation());
    assert!(!session.reap(first, NOW + 60 * SECOND, &mut limiter));
    assert!(!session.reap(second, second.deadline() - MILLISECOND, &mut limiter));
    assert!(session.reap(second, second.deadline(), &mut limiter));
    assert_eq!((limiter.sessions(), limiter.bytes()), (0, 0));
}

#[test]
fn revoke_wins_over_inflight_resume_and_releases_once() {
    let mut limiter = OrphanLimiter::new(1, 1024);
    let mut session = lifecycle(3, 30);
    session.detach(30, DetachReason::Unexpected, NOW, 512, &mut limiter).unwrap();
    let transcript = [8; 32];
    let reservation = begin(&mut session, &join(transcript, 1, 0, false), &transcript, &SECRET).unwrap();
    assert!(session.revoke(&mut limiter).is_empty());
    assert_eq!(
        session.commit_resume(reservation, 31, &mut limiter),
        Err(LifecycleError::Terminal)
    );
    session.revoke(&mut limiter);
    assert_eq!((limiter.sessions(), limiter.bytes()), (0, 0));
}

#[test]
fn aborting_prepared_handover_preserves_the_ready_transport() {
    let mut session = lifecycle(41, 410);
    let transcript = [0x41; 32];
    let reservation = begin(&mut session, &join(transcript, 1, 0, true), &transcript, &SECRET).unwrap();

    assert!(reservation.is_handover());
    assert_eq!(session.ready_transport(0), Some(410));
    session.abort_resume(reservation).unwrap();

    assert_eq!(session.state(), LifecycleState::Active);
    assert_eq!(session.ready_transport(0), Some(410));
    assert_eq!(session.draining_transport(0), None);
    assert_eq!(session.ready_streams(), 1);
}

#[test]
fn abort_returns_to_orphan_but_burns_epoch() {
    let mut limiter = OrphanLimiter::new(2, 1024);
    let mut session = lifecycle(4, 40);
    session.detach(40, DetachReason::Unexpected, NOW, 256, &mut limiter).unwrap();
    let transcript = [6; 32];
    let sealed = join(transcript, 11, 0, false);
    let reservation = begin(&mut session, &sealed, &transcript, &SECRET).unwrap();
    assert_eq!(session.ready_streams(), 0);
    session.abort_resume(reservation).unwrap();
    assert_eq!(session.state(), LifecycleState::Orphaned);
    assert_eq!(session.ready_streams(), 0);
    assert_eq!(
        begin(&mut session, &sealed, &transcript, &SECRET),
        Err(LifecycleError::StaleEpoch)
    );
}

#[test]
fn hard_resume_replaces_server_stale_carrier_and_rejects_late_drain_ack() {
    let mut limiter = OrphanLimiter::new(2, 1024);
    let mut session = lifecycle(5, 50);
    let transcript = [5; 32];
    let reservation = begin(&mut session, &join(transcript, 1, 0, false), &transcript, &SECRET).unwrap();
    assert!(!reservation.is_handover());
    let committed = session.commit_resume(reservation, 51, &mut limiter).unwrap();
    assert_eq!(committed.drain_transport, Some(50));
    assert_eq!(
        begin(&mut session, &join(transcript, 2, 0, false), &transcript, &SECRET),
        Err(LifecycleError::SlotDraining)
    );
    assert!(!session.complete_drain(0, committed.slot_generation + 1, 50));
    assert_eq!(session.draining_transport(0), Some(50));
}

#[test]
fn clean_close_never_enters_grace() {
    let mut limiter = OrphanLimiter::new(4, 4096);
    let mut session = lifecycle(6, 60);
    assert_eq!(
        session.detach(60, DetachReason::CleanClose, NOW, 1024, &mut limiter).unwrap(),
        DetachOutcome::Closing
    );
    assert_eq!(session.state(), LifecycleState::Closing);
    assert_eq!((limiter.sessions(), limiter.bytes()), (0, 0));
}

#[test]
fn explicit_close_is_terminal_idempotent_and_never_orphans() {
    let mut limiter = OrphanLimiter::new(4, 4096);
    let mut session = lifecycle(8, 80);
    assert_eq!(session.close(&mut limiter), vec![80]);
    assert!(session.close(&mut limiter).is_empty());
    assert_eq!(
        session.detach(80, DetachReason::Unexpected, NOW, 1024, &mut limiter).unwrap(),
        DetachOutcome::Closing
    );
    assert_eq!(session.state(), LifecycleState::Closing);
    assert_eq!((limiter.sessions(), limiter.bytes()), (0, 0));
}

#[test]
fn snapshot_is_monotonic_and_keeps_outcomes_separate() {
    let mut metrics = TcpRoamingMetrics::default();
    assert_eq!(metrics.snapshot(), TcpRoamingSnapshot::default());

    metrics.note_attempt();
    metrics.note_attempt();
    metrics.note_commit();
    metrics.note_failure();
    metrics.note_grace_expired();

    assert_eq!(
        metrics.snapshot(),
        TcpRoamingSnapshot {
            attempts_total: 2,
            commits_total: 1,
            failures_total: 1,
            grace_expired_total: 1,
        }
    );
}

#[test]
fn sessions_without_a_name_or_slots_are_refused() {
    assert_eq!(
        SessionLifecycle::new(0, LOCATOR, 4, SECOND, 1).err(),
        Some(LifecycleError::InvalidSession)
    );
    assert_eq!(
        SessionLifecycle::new(1, LOCATOR, 0, SECOND, 1).err(),
        Some(LifecycleError::InvalidSession)
    );
}

#[test]
fn resume_is_refused_while_busy_in_a_foreign_slot_or_after_the_end() {
    let mut limiter = OrphanLimiter::new(2, 1024);
    let mut session = lifecycle(12, 120);
    let transcript = [1; 32];
    assert_eq!(
        begin(&mut session, &join(transcript, 1, 4, false), &transcript, &SECRET),
        Err(LifecycleError::InvalidSlot)
    );
    let reservation = begin(&mut session, &join(transcript, 2, 0, true), &transcript, &SECRET).unwrap();
    assert_eq!(reservation.session_id(), 12);
    assert_eq!(reservation.resume_epoch(), 2);
    assert_eq!(reservation.logical_slot_id(), 0);
    assert_eq!(
        begin(&mut session, &join(transcript, 3, 0, true), &transcript, &SECRET),
        Err(LifecycleError::ResumeBusy)
    );
    session.close(&mut limiter);
    assert_eq!(
        begin(&mut session, &join(transcript, 4, 0, true), &transcript, &SECRET),
        Err(LifecycleError::Terminal)
    );
    assert!(session.abort_resume(reservation).is_err());
}

#[test]
fn limiter_counts_each_lease_once() {
    let mut limiter = OrphanLimiter::new(2, 100);
    assert!(limiter.reserve(1, 1, 60).is_ok());
    assert_eq!(limiter.reserve(2, 1, 50).err(), Some(LifecycleError::OrphanLimit));
    assert!(limiter.reserve(2, 1, 40).is_ok());
    assert_eq!(limiter.reserve(3, 1, 0).err(), Some(LifecycleError::OrphanLimit));
    let ticket = ReapTicket { session_id: 1, generation: 1, deadline: 5 };
    assert_eq!((ticket.session_id(), ticket.generation(), ticket.deadline()), (1, 1, 5));
    assert!(limiter.release(ticket));
    assert!(!limiter.release(ticket));
    assert_eq!((limiter.sessions(), limiter.bytes()), (1, 40));
}

#[test]
fn a_shared_limiter_counts_the_outstanding_tickets_of_all_sessions() {
    let mut limiter = OrphanLimiter::new(2, 1024);
    let mut first = lifecycle(71, 1);
    let mut second = lifecycle(72, 2);
    let mut third = lifecycle(73, 3);
    let ticket = match first.detach(1, DetachReason::Unexpected, NOW, 300, &mut limiter).unwrap() {
        DetachOutcome::Orphaned(ticket) => ticket,
        other => panic!("unexpected detach outcome: {other:?}"),
    };
    second.detach(2, DetachReason::Unexpected, NOW, 200, &mut limiter).unwrap();
    assert_eq!((limiter.sessions(), limiter.bytes()), (2, 500));
    assert_eq!(
        third.detach(3, DetachReason::Unexpected, NOW, 1, &mut limiter),
        Err(LifecycleError::OrphanLimit)
    );
    assert_eq!((limiter.sessions(), limiter.bytes()), (2, 500));
    assert!(first.reap(ticket, ticket.deadline(), &mut limiter));
    assert_eq!((limiter.sessions(), limiter.bytes()), (1, 200));
    second.revoke(&mut limiter);
    assert_eq!((limiter.sessions(), limiter.bytes()), (0, 0));
}
