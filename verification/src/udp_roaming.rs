//! Datagrams that name their session by a connection id.
//!
//! A datagram is classified by the exact path that it came over before anything is decrypted.
//! Control is answered on the candidate or committed path only, data is taken from the committed
//! or draining path only, and a path is switched in one step together with the session's address.
//! Decryption, the roaming registry and sockets are left to the caller, who reports what came
//! back.

use crate::budget_math::{after, next_number, sum_wrapping, wrapping_add};
use crate::carrier::CarrierAddress;
use crate::udp_budget::{take_answer, DownlinkMtuProbe};
use crate::udp_client::{RoamingRegistration, UdpClient};
use crate::udp_directory::{
    inserted, removed, resolved, CidLookup, DirectoryView, UdpRoamingOwner, UdpSessionDirectory,
};
use crate::udp_egress::{
    commit_problem, committed, drained, ingress_path, CommitOutcome, EgressSocket,
    UdpActiveEgress, UdpEgressCommit, UdpEgressFraming, UdpHeader, UdpRoamingIngressPath,
};
use vstd::prelude::*;

verus! {

/// Control messages about paths.
#[derive(Debug, Clone, Copy, PartialEq, Eq)]
pub enum PathControl {
    Init { cid: [u8; 8], epoch: u64 },
    Challenge { epoch: u64, token: [u8; 16] },
    Response { epoch: u64, token: [u8; 16] },
    Commit { cid: [u8; 8], epoch: u64 },
}

/// A control frame: whether it acknowledges a management message, its place in a longer message,
/// and the path message that it holds, if it holds one.
#[derive(Debug, Clone, Copy)]
pub struct ControlFrame {
    pub acknowledgement: bool,
    pub flags: u8,
    pub message_id: u32,
    pub part_index: u16,
    pub part_count: u16,
    pub message: Option<PathControl>,
}

/// What a record decrypts to.
#[derive(Debug, Clone, Copy)]
pub enum RecordContent {
    /// It does not decrypt, or was seen before.
    Unreadable,
    Data,
    /// It is marked as control but no frame can be read from it.
    BadControl,
    Control(ControlFrame),
}

#[derive(Debug, Clone, Copy, PartialEq, Eq, Structural)]
pub enum UdpRoamingControlError {
    FragmentNotNegotiated,
    FragmentPending,
    BadFragment,
    PoolExhausted,
    Oversize,
    Decrypt,
    BadControl,
    FragmentedControl,
    UnexpectedDirection,
}

/// Control that a client may send.
#[derive(Debug, Clone, Copy)]
pub enum UdpRoamingControlIngress {
    Path { message_id: u32, message: PathControl },
    ManagementAck { message_id: u32 },
}

/// What a decrypted record means: control that a client may send, data, or an error. Malformed
/// control and control of the server's direction never count as data.
pub open spec fn record_meaning(content: RecordContent) -> Result<
    Option<UdpRoamingControlIngress>,
    UdpRoamingControlError,
> {
    match content {
        RecordContent::Unreadable => Err(UdpRoamingControlError::Decrypt),
        RecordContent::Data => Ok(None),
        RecordContent::BadControl => Err(UdpRoamingControlError::BadControl),
        RecordContent::Control(frame) => if frame.acknowledgement {
            Ok(
                Some(
                    UdpRoamingControlIngress::ManagementAck { message_id: frame.message_id },
                ),
            )
        } else if frame.flags != 0 || frame.part_index != 0 || frame.part_count != 1 {
            Err(UdpRoamingControlError::FragmentedControl)
        } else {
            match frame.message {
                None => Err(UdpRoamingControlError::BadControl),
                Some(message) => if message is Init || message is Response {
                    Ok(
                        Some(
                            UdpRoamingControlIngress::Path {
                                message_id: frame.message_id,
                                message,
                            },
                        ),
                    )
                } else {
                    Err(UdpRoamingControlError::UnexpectedDirection)
                },
            }
        },
    }
}

pub fn decrypt_udp_roaming_record(content: &RecordContent) -> (result: Result<
    Option<UdpRoamingControlIngress>,
    UdpRoamingControlError,
>)
    ensures
        result == record_meaning(*content),
{
    match content {
        RecordContent::Unreadable => Err(UdpRoamingControlError::Decrypt),
        RecordContent::Data => Ok(None),
        RecordContent::BadControl => Err(UdpRoamingControlError::BadControl),
        RecordContent::Control(frame) => {
            if frame.acknowledgement {
                return Ok(
                    Some(
                        UdpRoamingControlIngress::ManagementAck { message_id: frame.message_id },
                    ),
                );
            }
            if frame.flags != 0 || frame.part_index != 0 || frame.part_count != 1 {
                return Err(UdpRoamingControlError::FragmentedControl);
            }
            match frame.message {
                None => Err(UdpRoamingControlError::BadControl),
                Some(message) => {
                    let from_client = match message {
                        PathControl::Init { .. } => true,
                        PathControl::Response { .. } => true,
                        _ => false,
                    };
                    if from_client {
                        Ok(
                            Some(
                                UdpRoamingControlIngress::Path {
                                    message_id: frame.message_id,
                                    message,
                                },
                            ),
                        )
                    } else {
                        Err(UdpRoamingControlError::UnexpectedDirection)
                    }
                },
            }
        },
    }
}

/// What putting a record together came to.
#[derive(Debug, Clone, Copy, PartialEq, Eq, Structural)]
pub enum Reassembly {
    /// The payload is a whole record.
    Whole,
    Complete,
    Pending,
    Bad,
}

/// Whether a record of `record_len` bytes gets as far as decryption. `reassembly` counts only
/// where fragments were negotiated.
pub open spec fn record_admission(
    is_fragment: bool,
    data_frag_enabled: bool,
    reassembly: Reassembly,
    buffer_free: bool,
    buffer_capacity: int,
    record_len: int,
) -> Option<UdpRoamingControlError> {
    if is_fragment && !data_frag_enabled {
        Some(UdpRoamingControlError::FragmentNotNegotiated)
    } else if is_fragment && reassembly is Pending {
        Some(UdpRoamingControlError::FragmentPending)
    } else if is_fragment && !(reassembly is Complete) {
        Some(UdpRoamingControlError::BadFragment)
    } else if !buffer_free {
        Some(UdpRoamingControlError::PoolExhausted)
    } else if record_len > buffer_capacity {
        Some(UdpRoamingControlError::Oversize)
    } else {
        None
    }
}

pub fn check_record(
    is_fragment: bool,
    data_frag_enabled: bool,
    reassembly: Reassembly,
    buffer_free: bool,
    buffer_capacity: usize,
    record_len: usize,
) -> (result: Result<(), UdpRoamingControlError>)
    ensures
        match result {
            Ok(()) => record_admission(
                is_fragment,
                data_frag_enabled,
                reassembly,
                buffer_free,
                buffer_capacity as int,
                record_len as int,
            ) is None,
            Err(error) => record_admission(
                is_fragment,
                data_frag_enabled,
                reassembly,
                buffer_free,
                buffer_capacity as int,
                record_len as int,
            ) == Some(error),
        },
{
    if is_fragment {
        if !data_frag_enabled {
            return Err(UdpRoamingControlError::FragmentNotNegotiated);
        }
        match reassembly {
            Reassembly::Complete => {},
            Reassembly::Pending => {
                return Err(UdpRoamingControlError::FragmentPending);
            },
            _ => {
                return Err(UdpRoamingControlError::BadFragment);
            },
        }
    }
    if !buffer_free {
        return Err(UdpRoamingControlError::PoolExhausted);
    }
    if record_len > buffer_capacity {
        return Err(UdpRoamingControlError::Oversize);
    }
    Ok(())
}

/// A client's probe of the path towards the server: what it asks to have echoed, if that can be
/// read.
#[derive(Debug, Clone, Copy)]
pub enum UplinkProbe {
    NotProbe,
    V2(Option<(u128, u16)>),
    Legacy(Option<(u16, u16)>),
}

#[derive(Debug, Clone, Copy, PartialEq, Eq, Structural)]
pub enum UdpRoamingPmtuAction {
    NotProbe,
    Drop,
    /// Echo token and size.
    Ack(u128, u16),
    /// Echo id and size.
    AckLegacy(u16, u16),
}

/// A probe is echoed only on the committed path.
pub open spec fn probe_action(
    probe: UplinkProbe,
    path: UdpRoamingIngressPath,
) -> UdpRoamingPmtuAction {
    match probe {
        UplinkProbe::NotProbe => UdpRoamingPmtuAction::NotProbe,
        UplinkProbe::V2(request) => match request {
            Some((token, size)) => if path is Committed {
                UdpRoamingPmtuAction::Ack(token, size)
            } else {
                UdpRoamingPmtuAction::Drop
            },
            None => UdpRoamingPmtuAction::Drop,
        },
        UplinkProbe::Legacy(request) => match request {
            Some((id, size)) => if path is Committed {
                UdpRoamingPmtuAction::AckLegacy(id, size)
            } else {
                UdpRoamingPmtuAction::Drop
            },
            None => UdpRoamingPmtuAction::Drop,
        },
    }
}

pub fn classify_udp_roaming_uplink_probe(probe: &UplinkProbe, path: UdpRoamingIngressPath) -> (action:
    UdpRoamingPmtuAction)
    ensures
        action == probe_action(*probe, path),
{
    match probe {
        UplinkProbe::NotProbe => UdpRoamingPmtuAction::NotProbe,
        UplinkProbe::V2(request) => {
            if path != UdpRoamingIngressPath::Committed {
                return UdpRoamingPmtuAction::Drop;
            }
            match request {
                Some((token, size)) => UdpRoamingPmtuAction::Ack(*token, *size),
                None => UdpRoamingPmtuAction::Drop,
            }
        },
        UplinkProbe::Legacy(request) => {
            if path != UdpRoamingIngressPath::Committed {
                return UdpRoamingPmtuAction::Drop;
            }
            match request {
                Some((id, size)) => UdpRoamingPmtuAction::AckLegacy(*id, *size),
                None => UdpRoamingPmtuAction::Drop,
            }
        },
    }
}

/// A datagram with a connection id that resolved.
#[derive(Clone, Copy)]
pub struct RoamingDatagram {
    pub lookup: CidLookup,
    pub peer: CarrierAddress,
    pub socket: EgressSocket,
    pub datagram_len: usize,
}

/// What follows the connection id.
#[derive(Clone, Copy)]
pub enum CarrierFrame {
    /// An encrypted record.
    Record,
    /// The answer to a probe of the server: token and size, if they can be read.
    ProbeAnswer(Option<(u128, u16)>),
    /// An answer that only clients use.
    LegacyProbeAnswer,
    Probe(UplinkProbe),
}

#[derive(Debug, Clone, Copy, PartialEq, Eq, Structural)]
pub enum DropReason {
    WrongWorker,
    /// The session is gone or is another one now.
    StaleSession,
    FamilyMismatch,
    Revoked,
    /// The AuthOK of the session has not been sent.
    NotReady,
    NoEgress,
    /// The epoch or the path is not one that counts.
    StalePath,
    NotCommitted,
    CarrierOnly,
    DrainingControl,
    CandidateData,
    Rejected(UdpRoamingControlError),
    BadRecordizer,
    AddressInUse,
    NoCandidate,
}

/// What to do with a datagram.
#[derive(Clone, Copy)]
pub enum RoamingStep {
    Drop(DropReason),
    /// The probe answer counted; the budget was replaced where it still applied.
    Certified(Option<u32>),
    /// Echo a probe, behind this header.
    SendProbeAck(UdpRoamingPmtuAction, UdpHeader),
    /// Put together and decrypt the record of the session at this address.
    Decode(CarrierAddress, UdpRoamingIngressPath),
}

/// The registry entry that a lookup names.
pub open spec fn entry_of(lookup: CidLookup) -> RoamingRegistration {
    RoamingRegistration {
        session_id: lookup.session_id,
        session_generation: lookup.session_generation,
    }
}

/// Takes the answer to a probe: the pending probe that it answers, if it answers one.
pub open spec fn answered_probe(
    pending: Option<DownlinkMtuProbe>,
    answer: Option<(u128, u16)>,
    epoch: u64,
    peer: CarrierAddress,
) -> Option<DownlinkMtuProbe> {
    match (pending, answer) {
        (Some(probe), Some((token, size))) => if probe.token == token && probe.payload_size == size
            && probe.path_epoch == epoch && probe.peer == peer {
            Some(probe)
        } else {
            None
        },
        _ => None,
    }
}

/// A client after the answer to a probe, and the budget that was replaced. The answer widens the
/// budget only of a session that negotiated fragments, on the path that is still active.
pub open spec fn after_answer(
    client: UdpClient,
    egress: UdpActiveEgress,
    answer: Option<(u128, u16)>,
    epoch: u64,
    peer: CarrierAddress,
) -> (UdpClient, Option<u32>) {
    match answered_probe(client.probe, answer, epoch, peer) {
        None => (UdpClient { egress: Some(egress), ..client }, None),
        Some(probe) => if client.data_frag_enabled && egress.current.path_epoch == probe.path_epoch
            && egress.current.peer == probe.peer {
            (
                UdpClient {
                    probe: None,
                    egress: Some(
                        UdpActiveEgress { payload_budget: probe.udp_payload_budget, ..egress },
                    ),
                    ..client
                },
                Some(egress.payload_budget),
            )
        } else {
            (UdpClient { probe: None, egress: Some(egress), ..client }, None)
        },
    }
}

/// The session after a datagram over a path of its own, and what to do.
pub open spec fn on_own_path(
    client: UdpClient,
    egress: UdpActiveEgress,
    owner: CarrierAddress,
    datagram: RoamingDatagram,
    frame: CarrierFrame,
    path: UdpRoamingIngressPath,
) -> (UdpClient, RoamingStep) {
    let same = UdpClient { egress: Some(egress), ..client };
    match frame {
        CarrierFrame::Record => (same, RoamingStep::Decode(owner, path)),
        CarrierFrame::ProbeAnswer(answer) => if path is Committed {
            let (after, previous) = after_answer(
                client,
                egress,
                answer,
                datagram.lookup.path_epoch,
                datagram.peer,
            );
            (after, RoamingStep::Certified(previous))
        } else {
            (same, RoamingStep::Drop(DropReason::NotCommitted))
        },
        CarrierFrame::LegacyProbeAnswer => (same, RoamingStep::Drop(DropReason::CarrierOnly)),
        CarrierFrame::Probe(probe) => {
            let action = probe_action(probe, path);
            if action is NotProbe {
                (same, RoamingStep::Decode(owner, path))
            } else if action is Drop {
                (same, RoamingStep::Drop(DropReason::NotCommitted))
            } else {
                (
                    UdpClient {
                        packet_counter: next_number(client.packet_counter),
                        ..same
                    },
                    RoamingStep::SendProbeAck(
                        action,
                        egress.current.framing.header_of(client.packet_counter),
                    ),
                )
            }
        },
    }
}

/// The directory after a datagram, and what to do with it.
pub open spec fn roaming_ingress(
    directory: DirectoryView,
    worker_id: usize,
    datagram: RoamingDatagram,
    frame: CarrierFrame,
    now: u64,
) -> (DirectoryView, RoamingStep) {
    let lookup = datagram.lookup;
    if lookup.owner_worker_id != worker_id {
        (directory, RoamingStep::Drop(DropReason::WrongWorker))
    } else {
        match resolved(directory, lookup) {
            None => (directory, RoamingStep::Drop(DropReason::StaleSession)),
            Some(owner) => {
                let client = directory.clients[owner];
                if datagram.socket.local_is_ipv4 != Some(datagram.peer.ip is V4) {
                    (directory, RoamingStep::Drop(DropReason::FamilyMismatch))
                } else if client.revoked {
                    (removed(directory, owner), RoamingStep::Drop(DropReason::Revoked))
                } else if !client.auth_ok_sent {
                    (directory, RoamingStep::Drop(DropReason::NotReady))
                } else {
                    match client.egress {
                        None => (directory, RoamingStep::Drop(DropReason::NoEgress)),
                        Some(egress) => {
                            let kept = UdpActiveEgress {
                                draining: drained(egress.draining, now),
                                ..egress
                            };
                            let (after, step) = match ingress_path(
                                egress,
                                lookup.path_epoch,
                                datagram.peer,
                                datagram.socket.id,
                                now,
                            ) {
                                None => (
                                    UdpClient { egress: Some(kept), ..client },
                                    RoamingStep::Drop(DropReason::StalePath),
                                ),
                                Some(path) => on_own_path(
                                    client,
                                    kept,
                                    owner,
                                    datagram,
                                    frame,
                                    path,
                                ),
                            };
                            (
                                DirectoryView {
                                    clients: directory.clients.insert(owner, after),
                                    ..directory
                                },
                                step,
                            )
                        },
                    }
                }
            },
        }
    }
}

/// Decides on a datagram before anything is decrypted.
pub fn begin_roaming_ingress(
    directory: &mut UdpSessionDirectory,
    worker_id: usize,
    datagram: &RoamingDatagram,
    frame: &CarrierFrame,
    now: u64,
) -> (step: RoamingStep)
    requires
        old(directory).valid(),
    ensures
        final(directory).valid(),
        (final(directory)@, step) == roaming_ingress(
            old(directory)@,
            worker_id,
            *datagram,
            *frame,
            now,
        ),
{
    let lookup = datagram.lookup;
    if lookup.owner_worker_id as u64 != worker_id as u64 {
        return RoamingStep::Drop(DropReason::WrongWorker);
    }
    let owner = match directory.resolve_roaming_owner(lookup) {
        Some(owner) => owner,
        None => {
            return RoamingStep::Drop(DropReason::StaleSession);
        },
    };
    let family_matches = match datagram.socket.local_is_ipv4 {
        Some(local) => local == datagram.peer.ip.is_ipv4(),
        None => false,
    };
    if !family_matches {
        return RoamingStep::Drop(DropReason::FamilyMismatch);
    }
    let (revoked, ready, has_egress) = match directory.get(owner) {
        Some(client) => (client.revoked, client.auth_ok_sent, client.egress.is_some()),
        None => (false, false, false),
    };
    if revoked {
        directory.remove(owner);
        return RoamingStep::Drop(DropReason::Revoked);
    }
    if !ready {
        return RoamingStep::Drop(DropReason::NotReady);
    }
    if !has_egress {
        return RoamingStep::Drop(DropReason::NoEgress);
    }
    match directory.get_mut(owner) {
        Some(client) => step_on_client(client, owner, datagram, frame, now),
        None => RoamingStep::Drop(DropReason::StaleSession),
    }
}

fn step_on_client(
    client: &mut UdpClient,
    owner: CarrierAddress,
    datagram: &RoamingDatagram,
    frame: &CarrierFrame,
    now: u64,
) -> (step: RoamingStep)
    requires
        old(client).egress is Some,
    ensures
        ({
            let egress = old(client).egress->Some_0;
            let kept = UdpActiveEgress { draining: drained(egress.draining, now), ..egress };
            (*final(client), step) == match ingress_path(
                egress,
                datagram.lookup.path_epoch,
                datagram.peer,
                datagram.socket.id,
                now,
            ) {
                None => (
                    UdpClient { egress: Some(kept), ..*old(client) },
                    RoamingStep::Drop(DropReason::StalePath),
                ),
                Some(path) => on_own_path(*old(client), kept, owner, *datagram, *frame, path),
            }
        }),
{
    let mut egress = match client.egress.take() {
        Some(egress) => egress,
        None => {
            return RoamingStep::Drop(DropReason::NoEgress);
        },
    };
    let path = egress.classify_roaming_ingress(
        datagram.lookup.path_epoch,
        datagram.peer,
        datagram.socket.id,
        now,
    );
    let path = match path {
        Some(path) => path,
        None => {
            client.egress = Some(egress);
            return RoamingStep::Drop(DropReason::StalePath);
        },
    };
    match frame {
        CarrierFrame::Record => {
            client.egress = Some(egress);
            RoamingStep::Decode(owner, path)
        },
        CarrierFrame::ProbeAnswer(answer) => {
            if path != UdpRoamingIngressPath::Committed {
                client.egress = Some(egress);
                return RoamingStep::Drop(DropReason::NotCommitted);
            }
            let probe = match answer {
                Some((token, size)) => take_answer(
                    &mut client.probe,
                    *token,
                    *size,
                    datagram.lookup.path_epoch,
                    datagram.peer,
                ),
                None => None,
            };
            let previous = match probe {
                Some(probe) => {
                    if client.data_frag_enabled {
                        egress.certify_payload_budget(
                            probe.path_epoch,
                            probe.peer,
                            probe.udp_payload_budget,
                        )
                    } else {
                        None
                    }
                },
                None => None,
            };
            client.egress = Some(egress);
            RoamingStep::Certified(previous)
        },
        CarrierFrame::LegacyProbeAnswer => {
            client.egress = Some(egress);
            RoamingStep::Drop(DropReason::CarrierOnly)
        },
        CarrierFrame::Probe(probe) => {
            let action = classify_udp_roaming_uplink_probe(probe, path);
            match action {
                UdpRoamingPmtuAction::NotProbe => {
                    client.egress = Some(egress);
                    RoamingStep::Decode(owner, path)
                },
                UdpRoamingPmtuAction::Drop => {
                    client.egress = Some(egress);
                    RoamingStep::Drop(DropReason::NotCommitted)
                },
                _ => {
                    let header = egress.current.framing.header(client.packet_counter);
                    client.egress = Some(egress);
                    client.take_packet_number();
                    RoamingStep::SendProbeAck(action, header)
                },
            }
        },
    }
}

/// What a record of a session came to.
#[derive(Clone, Copy)]
pub enum RecordOutcome {
    /// It did not get as far as decryption, or what it holds is not acceptable.
    Rejected(UdpRoamingControlError),
    Control(UdpRoamingControlIngress),
    /// Data. Where packets are bundled, how many of them found no buffer or were too large, and
    /// whether the bundle could be read.
    Data { lost: u64, readable: bool },
}

/// What to do once a record was read.
#[derive(Clone, Copy)]
pub enum RecordStep {
    Drop(DropReason),
    /// Forward the packets.
    Forward,
    /// Note the acknowledgement of a management message.
    Acknowledge(u32),
    /// Ask the registry about a new path.
    Observe { message_id: u32, cid: [u8; 8], epoch: u64 },
    /// Ask the registry whether the response validates the path of this candidate.
    Validate { message_id: u32, ticket: u64, epoch: u64, token: [u8; 16] },
}

/// A session and a path message: whether a response can be validated at all.
pub open spec fn response_step(
    directory: DirectoryView,
    owner: CarrierAddress,
    lookup: CidLookup,
    peer: CarrierAddress,
    message_id: u32,
    epoch: u64,
    token: [u8; 16],
) -> RecordStep {
    if peer != owner && directory.clients.contains_key(peer) {
        RecordStep::Drop(DropReason::AddressInUse)
    } else if !directory.clients.contains_key(owner) || directory.clients[owner].registration
        != Some(entry_of(lookup)) {
        RecordStep::Drop(DropReason::StaleSession)
    } else {
        let client = directory.clients[owner];
        match client.candidate {
            None => RecordStep::Drop(DropReason::NoCandidate),
            Some(ticket) => if client.egress is None || !client.data_frag_enabled {
                RecordStep::Drop(DropReason::NoEgress)
            } else {
                RecordStep::Validate { message_id, ticket, epoch, token }
            },
        }
    }
}

/// The directory after a record was read, and what to do. Control is not taken from a draining
/// path, nor data from a candidate; only what decrypted counts as activity.
pub open spec fn after_record(
    directory: DirectoryView,
    owner: CarrierAddress,
    lookup: CidLookup,
    peer: CarrierAddress,
    path: UdpRoamingIngressPath,
    outcome: RecordOutcome,
    now: u64,
) -> (DirectoryView, RecordStep) {
    if !directory.clients.contains_key(owner) {
        (directory, RecordStep::Drop(DropReason::StaleSession))
    } else {
        let client = directory.clients[owner];
        match outcome {
            RecordOutcome::Rejected(error) => (
                if error is PoolExhausted || error is Oversize {
                    with_client(
                        directory,
                        owner,
                        UdpClient { dropped: sum_wrapping(client.dropped, 1), ..client },
                    )
                } else {
                    directory
                },
                RecordStep::Drop(DropReason::Rejected(error)),
            ),
            RecordOutcome::Data { lost, readable } => if path is Candidate {
                (directory, RecordStep::Drop(DropReason::CandidateData))
            } else if !readable {
                (
                    with_client(
                        directory,
                        owner,
                        UdpClient { dropped: sum_wrapping(client.dropped, lost), ..client },
                    ),
                    RecordStep::Drop(DropReason::BadRecordizer),
                )
            } else {
                (
                    with_client(
                        directory,
                        owner,
                        UdpClient {
                            dropped: sum_wrapping(client.dropped, lost),
                            last_activity: now,
                            ..client
                        },
                    ),
                    RecordStep::Forward,
                )
            },
            RecordOutcome::Control(control) => if path is Draining {
                (directory, RecordStep::Drop(DropReason::DrainingControl))
            } else {
                let active = with_client(
                    directory,
                    owner,
                    UdpClient { last_activity: now, ..client },
                );
                (
                    active,
                    match control {
                        UdpRoamingControlIngress::ManagementAck { message_id } => if path
                            is Committed {
                            RecordStep::Acknowledge(message_id)
                        } else {
                            RecordStep::Drop(DropReason::NotCommitted)
                        },
                        UdpRoamingControlIngress::Path { message_id, message } => match message {
                            PathControl::Init { cid, epoch } => RecordStep::Observe {
                                message_id,
                                cid,
                                epoch,
                            },
                            PathControl::Response { epoch, token } => response_step(
                                active,
                                owner,
                                lookup,
                                peer,
                                message_id,
                                epoch,
                                token,
                            ),
                            _ => RecordStep::Drop(
                                DropReason::Rejected(
                                    UdpRoamingControlError::UnexpectedDirection,
                                ),
                            ),
                        },
                    },
                )
            },
        }
    }
}

/// The directory with one session changed.
pub open spec fn with_client(
    directory: DirectoryView,
    owner: CarrierAddress,
    client: UdpClient,
) -> DirectoryView {
    DirectoryView { clients: directory.clients.insert(owner, client), ..directory }
}

/// Takes what a record came to.
pub fn take_record(
    directory: &mut UdpSessionDirectory,
    owner: CarrierAddress,
    lookup: CidLookup,
    peer: CarrierAddress,
    path: UdpRoamingIngressPath,
    outcome: &RecordOutcome,
    now: u64,
) -> (step: RecordStep)
    requires
        old(directory).valid(),
    ensures
        final(directory).valid(),
        (final(directory)@, step) == after_record(
            old(directory)@,
            owner,
            lookup,
            peer,
            path,
            *outcome,
            now,
        ),
{
    let client = match directory.get_mut(owner) {
        Some(client) => client,
        None => {
            return RecordStep::Drop(DropReason::StaleSession);
        },
    };
    match outcome {
        RecordOutcome::Rejected(error) => {
            if *error == UdpRoamingControlError::PoolExhausted || *error
                == UdpRoamingControlError::Oversize {
                client.dropped = wrapping_add(client.dropped, 1);
            } else {
                assert(with_client(directory@, owner, directory@.clients[owner]).clients
                    =~= directory@.clients);
            }
            RecordStep::Drop(DropReason::Rejected(*error))
        },
        RecordOutcome::Data { lost, readable } => {
            if path == UdpRoamingIngressPath::Candidate {
                return RecordStep::Drop(DropReason::CandidateData);
            }
            client.dropped = wrapping_add(client.dropped, *lost);
            if !*readable {
                return RecordStep::Drop(DropReason::BadRecordizer);
            }
            client.last_activity = now;
            RecordStep::Forward
        },
        RecordOutcome::Control(control) => {
            if path == UdpRoamingIngressPath::Draining {
                return RecordStep::Drop(DropReason::DrainingControl);
            }
            client.last_activity = now;
            match control {
                UdpRoamingControlIngress::ManagementAck { message_id } => {
                    if path == UdpRoamingIngressPath::Committed {
                        RecordStep::Acknowledge(*message_id)
                    } else {
                        RecordStep::Drop(DropReason::NotCommitted)
                    }
                },
                UdpRoamingControlIngress::Path { message_id, message } => match message {
                    PathControl::Init { cid, epoch } => RecordStep::Observe {
                        message_id: *message_id,
                        cid: *cid,
                        epoch: *epoch,
                    },
                    PathControl::Response { epoch, token } => check_response(
                        directory,
                        owner,
                        lookup,
                        peer,
                        *message_id,
                        *epoch,
                        *token,
                    ),
                    _ => RecordStep::Drop(
                        DropReason::Rejected(UdpRoamingControlError::UnexpectedDirection),
                    ),
                },
            }
        },
    }
}

fn check_response(
    directory: &UdpSessionDirectory,
    owner: CarrierAddress,
    lookup: CidLookup,
    peer: CarrierAddress,
    message_id: u32,
    epoch: u64,
    token: [u8; 16],
) -> (step: RecordStep)
    requires
        directory.valid(),
    ensures
        step == response_step(directory@, owner, lookup, peer, message_id, epoch, token),
{
    if peer != owner && directory.contains(peer) {
        return RecordStep::Drop(DropReason::AddressInUse);
    }
    match directory.get(owner) {
        None => RecordStep::Drop(DropReason::StaleSession),
        Some(client) => {
            let same = match client.registration {
                Some(entry) => entry.session_id == lookup.session_id && entry.session_generation
                    == lookup.session_generation,
                None => false,
            };
            if !same {
                return RecordStep::Drop(DropReason::StaleSession);
            }
            match client.candidate {
                None => RecordStep::Drop(DropReason::NoCandidate),
                Some(ticket) => {
                    if client.egress.is_none() || !client.data_frag_enabled {
                        RecordStep::Drop(DropReason::NoEgress)
                    } else {
                        RecordStep::Validate { message_id, ticket, epoch, token }
                    }
                },
            }
        },
    }
}

/// A control message as it is sent: always whole, behind the header of its destination.
#[derive(Clone, Copy)]
pub struct ControlDatagram {
    pub header: UdpHeader,
    pub flags: u8,
    pub message_id: u32,
    pub message: PathControl,
}

/// The datagram of a control message. `sealed` says that the message fit into one frame and was
/// encrypted; a packet number is used up only then.
pub fn encrypt_udp_roaming_control(
    packet_counter: &mut u32,
    destination_cid: [u8; 8],
    message_id: u32,
    message: PathControl,
    sealed: bool,
) -> (datagram: Option<ControlDatagram>)
    ensures
        match datagram {
            Some(datagram) => sealed && datagram == (ControlDatagram {
                header: UdpHeader::RoamingShort(destination_cid, *old(packet_counter)),
                flags: 0,
                message_id,
                message,
            }) && *final(packet_counter) == next_number(*old(packet_counter)),
            None => !sealed && *final(packet_counter) == *old(packet_counter),
        },
{
    if !sealed {
        return None;
    }
    let packet_number: u32 = *packet_counter;
    *packet_counter = after(packet_number);
    Some(
        ControlDatagram {
            header: UdpHeader::RoamingShort(destination_cid, packet_number),
            flags: 0,
            message_id,
            message,
        },
    )
}

/// Remembers the candidate that the registry gave a ticket for. Where the session is gone
/// meanwhile the candidate is to be withdrawn.
pub fn note_candidate(
    directory: &mut UdpSessionDirectory,
    owner: CarrierAddress,
    lookup: CidLookup,
    ticket: u64,
) -> (noted: bool)
    requires
        old(directory).valid(),
    ensures
        final(directory).valid(),
        noted == (old(directory)@.clients.contains_key(owner) && old(
            directory,
        )@.clients[owner].registration == Some(entry_of(lookup))),
        final(directory)@ == if noted {
            with_client(
                old(directory)@,
                owner,
                UdpClient { candidate: Some(ticket), ..old(directory)@.clients[owner] },
            )
        } else {
            old(directory)@
        },
{
    let ghost before = directory@;
    match directory.get_mut(owner) {
        None => false,
        Some(client) => {
            let same = match client.registration {
                Some(entry) => entry.session_id == lookup.session_id && entry.session_generation
                    == lookup.session_generation,
                None => false,
            };
            if same {
                client.candidate = Some(ticket);
            } else {
                assert(with_client(before, owner, before.clients[owner]) =~= before);
            }
            same
        },
    }
}

/// Forgets a candidate, unless another one has taken its place.
pub fn forget_candidate(directory: &mut UdpSessionDirectory, owner: CarrierAddress, ticket: u64)
    requires
        old(directory).valid(),
    ensures
        final(directory).valid(),
        final(directory)@ == if old(directory)@.clients.contains_key(owner) && old(
            directory,
        )@.clients[owner].candidate == Some(ticket) {
            with_client(
                old(directory)@,
                owner,
                UdpClient { candidate: None, ..old(directory)@.clients[owner] },
            )
        } else {
            old(directory)@
        },
{
    let ghost before = directory@;
    match directory.get_mut(owner) {
        None => {},
        Some(client) => {
            let same = match client.candidate {
                Some(held) => held == ticket,
                None => false,
            };
            if same {
                client.candidate = None;
            } else {
                assert(with_client(before, owner, before.clients[owner]) =~= before);
            }
        },
    }
}

/// What the registry says about sending a challenge to an unverified path.
#[derive(Debug, Clone, Copy, PartialEq, Eq, Structural)]
pub enum SendPermit {
    Granted,
    /// Not now: the path has not received enough yet. The candidate stays.
    AmplificationLimit,
    /// The candidate is no longer good.
    Refused,
}

/// Whether a challenge goes out.
pub fn permit_challenge(
    directory: &mut UdpSessionDirectory,
    owner: CarrierAddress,
    ticket: u64,
    permit: SendPermit,
) -> (send: bool)
    requires
        old(directory).valid(),
    ensures
        final(directory).valid(),
        send == (permit is Granted),
        final(directory)@ == if permit is Refused && old(directory)@.clients.contains_key(owner)
            && old(directory)@.clients[owner].candidate == Some(ticket) {
            with_client(
                old(directory)@,
                owner,
                UdpClient { candidate: None, ..old(directory)@.clients[owner] },
            )
        } else {
            old(directory)@
        },
{
    match permit {
        SendPermit::Granted => true,
        SendPermit::AmplificationLimit => false,
        SendPermit::Refused => {
            forget_candidate(directory, owner, ticket);
            false
        },
    }
}

/// What the registry decided on a response: the path that is committed, the connection id that
/// the server receives on, and whether this repeats an earlier decision.
#[derive(Clone, Copy)]
pub struct PathDecision {
    pub outcome: CommitOutcome,
    pub receive_cid: [u8; 8],
    pub replay: bool,
}

#[derive(Debug, Clone, Copy, PartialEq, Eq, Structural)]
pub enum CommitFailure {
    StaleSession,
    InvalidState,
    NotSent,
}

/// The commit that a decision asks for, if it applies to the session at an address. A repeated
/// decision changes nothing and asks for none.
pub open spec fn wanted_commit(decision: PathDecision, socket: EgressSocket) -> UdpEgressCommit {
    UdpEgressCommit {
        expected_epoch: (decision.outcome.path_epoch - 1) as u64,
        expected_peer: decision.outcome.old_peer,
        next_epoch: decision.outcome.path_epoch,
        socket,
        peer: decision.outcome.new_peer,
        destination_cid: decision.outcome.transmit_cid,
    }
}

/// Why a decision cannot be carried out, if it cannot. The marker is sent only where it can.
pub open spec fn decision_problem(
    directory: DirectoryView,
    owner: CarrierAddress,
    lookup: CidLookup,
    decision: PathDecision,
    socket: EgressSocket,
) -> Option<CommitFailure> {
    let peer = decision.outcome.new_peer;
    if !directory.clients.contains_key(owner) || directory.clients[owner].registration != Some(
        entry_of(lookup),
    ) || (peer != owner && directory.clients.contains_key(peer)) {
        Some(CommitFailure::StaleSession)
    } else {
        match directory.clients[owner].egress {
            None => Some(CommitFailure::InvalidState),
            Some(egress) => if decision.replay {
                None
            } else if decision.outcome.path_epoch == 0 || commit_problem(
                egress,
                wanted_commit(decision, socket),
            ) is Some {
                Some(CommitFailure::InvalidState)
            } else {
                None
            },
        }
    }
}

/// Whether a decision can be carried out.
pub fn check_decision(
    directory: &UdpSessionDirectory,
    owner: CarrierAddress,
    lookup: CidLookup,
    decision: &PathDecision,
    socket: EgressSocket,
) -> (result: Result<(), CommitFailure>)
    requires
        directory.valid(),
    ensures
        match result {
            Ok(()) => decision_problem(directory@, owner, lookup, *decision, socket) is None,
            Err(error) => decision_problem(directory@, owner, lookup, *decision, socket) == Some(
                error,
            ),
        },
{
    let peer = decision.outcome.new_peer;
    if peer != owner && directory.contains(peer) {
        return Err(CommitFailure::StaleSession);
    }
    match directory.get(owner) {
        None => Err(CommitFailure::StaleSession),
        Some(client) => {
            let same = match client.registration {
                Some(entry) => entry.session_id == lookup.session_id && entry.session_generation
                    == lookup.session_generation,
                None => false,
            };
            if !same {
                return Err(CommitFailure::StaleSession);
            }
            match &client.egress {
                None => Err(CommitFailure::InvalidState),
                Some(egress) => {
                    if decision.replay {
                        return Ok(());
                    }
                    match UdpEgressCommit::from_outcome(&decision.outcome, socket) {
                        Err(_) => Err(CommitFailure::InvalidState),
                        Ok(commit) => {
                            if egress.check_commit(&commit).is_err() {
                                Err(CommitFailure::InvalidState)
                            } else {
                                Ok(())
                            }
                        },
                    }
                },
            }
        },
    }
}

/// The session once a decision was carried out.
pub open spec fn switched_client(
    client: UdpClient,
    decision: PathDecision,
    socket: EgressSocket,
    drain_until: u64,
) -> UdpClient {
    if decision.replay {
        client
    } else {
        UdpClient {
            egress: Some(
                committed(
                    client.egress->Some_0,
                    wanted_commit(decision, socket),
                    drain_until,
                ),
            ),
            ..client
        }
    }
}

/// The directory once a decision was carried out: the session on its new path, under its new
/// address.
pub open spec fn switched(
    directory: DirectoryView,
    owner: CarrierAddress,
    lookup: CidLookup,
    decision: PathDecision,
    socket: EgressSocket,
    drain_until: u64,
) -> DirectoryView {
    let client = switched_client(directory.clients[owner], decision, socket, drain_until);
    let peer = decision.outcome.new_peer;
    let updated = with_client(directory, owner, client);
    if peer == owner {
        updated
    } else {
        let moved = inserted(removed(updated, owner), peer, client);
        DirectoryView {
            owners: moved.owners.insert(
                lookup.session_id,
                UdpRoamingOwner {
                    address: peer,
                    session_generation: lookup.session_generation,
                },
            ),
            ..moved
        }
    }
}

/// Carries a decision out once its marker was sent; `sent` says whether it was. Without the
/// marker, and on a decision that does not apply, everything stays as it is.
pub fn finish_decision(
    directory: &mut UdpSessionDirectory,
    owner: CarrierAddress,
    lookup: CidLookup,
    decision: &PathDecision,
    socket: EgressSocket,
    sent: bool,
    drain_until: u64,
) -> (result: Result<(), CommitFailure>)
    requires
        old(directory).valid(),
    ensures
        final(directory).valid(),
        match decision_problem(old(directory)@, owner, lookup, *decision, socket) {
            Some(error) => result == Err::<(), CommitFailure>(error) && final(directory)@ == old(
                directory,
            )@,
            None => if sent {
                result is Ok && final(directory)@ == switched(
                    old(directory)@,
                    owner,
                    lookup,
                    *decision,
                    socket,
                    drain_until,
                )
            } else {
                result == Err::<(), CommitFailure>(CommitFailure::NotSent) && final(directory)@
                    == old(directory)@
            },
        },
{
    if let Err(error) = check_decision(directory, owner, lookup, decision, socket) {
        return Err(error);
    }
    if !sent {
        return Err(CommitFailure::NotSent);
    }
    let ghost before = directory@;
    if !decision.replay {
        match UdpEgressCommit::from_outcome(&decision.outcome, socket) {
            Err(_) => {
                return Err(CommitFailure::InvalidState);
            },
            Ok(commit) => {
                switch_egress(directory, owner, &commit, drain_until);
            },
        }
    } else {
        assert(with_client(before, owner, before.clients[owner]) =~= before);
    }
    let peer = decision.outcome.new_peer;
    if peer != owner {
        if let Some(client) = directory.remove(owner) {
            directory.insert(peer, client);
            directory.publish_owner(lookup, peer);
        }
    }
    Ok(())
}

fn switch_egress(
    directory: &mut UdpSessionDirectory,
    owner: CarrierAddress,
    commit: &UdpEgressCommit,
    drain_until: u64,
)
    requires
        old(directory).valid(),
        old(directory)@.clients.contains_key(owner),
        old(directory)@.clients[owner].egress is Some,
        commit_problem(old(directory)@.clients[owner].egress->Some_0, *commit) is None,
    ensures
        final(directory).valid(),
        final(directory)@ == with_client(
            old(directory)@,
            owner,
            UdpClient {
                egress: Some(
                    committed(
                        old(directory)@.clients[owner].egress->Some_0,
                        *commit,
                        drain_until,
                    ),
                ),
                ..old(directory)@.clients[owner]
            },
        ),
{
    if let Some(client) = directory.get_mut(owner) {
        if let Some(mut egress) = client.egress.take() {
            let _ = egress.commit_roaming_with(commit, true, drain_until);
            client.egress = Some(egress);
        }
    }
}

/// After a commit the session is found under its connection id at the new address and nowhere
/// else, its old address is free, no other session changed, and both tables are in step.
pub proof fn law_commit_moves_exactly_one_session(
    directory: DirectoryView,
    owner: CarrierAddress,
    lookup: CidLookup,
    decision: PathDecision,
    socket: EgressSocket,
    drain_until: u64,
)
    requires
        directory.consistent(),
        resolved(directory, lookup) == Some(owner),
        decision_problem(directory, owner, lookup, decision, socket) is None,
    ensures
        ({
            let after = switched(directory, owner, lookup, decision, socket, drain_until);
            let peer = decision.outcome.new_peer;
            &&& after.consistent()
            &&& resolved(after, lookup) == Some(peer)
            &&& after.clients.contains_key(peer)
            &&& after.clients[peer].session_id() == directory.clients[owner].session_id()
            &&& peer != owner ==> !after.clients.contains_key(owner)
            &&& forall|other: CarrierAddress|
                other != owner && other != peer ==> (#[trigger] after.clients.contains_key(other)
                    == directory.clients.contains_key(other) && (directory.clients.contains_key(
                    other,
                ) ==> after.clients[other] == directory.clients[other]))
        }),
{
    let client = switched_client(directory.clients[owner], decision, socket, drain_until);
    let peer = decision.outcome.new_peer;
    let updated = with_client(directory, owner, client);
    let identity = entry_of(lookup);
    assert(directory.owners.contains_key(lookup.session_id));
    assert(client.identity() == directory.clients[owner].identity());
    assert(updated.consistent()) by {
        assert forall|session_id: u64| #[trigger] updated.owners.contains_key(session_id) implies ({
            let owner = updated.owners[session_id];
            &&& updated.clients.contains_key(owner.address)
            &&& updated.clients[owner.address].identity() == Some(
                RoamingRegistration { session_id, session_generation: owner.session_generation },
            )
        }) by {
            assert(directory.owners.contains_key(session_id));
        }
    }
    if peer != owner {
        let gone = removed(updated, owner);
        crate::udp_directory::law_directory_stays_consistent(updated, owner, client);
        let moved = inserted(gone, peer, client);
        crate::udp_directory::law_directory_stays_consistent(gone, peer, client);
        crate::udp_directory::law_directory_stays_consistent(moved, peer, client);
        assert(client.identity() == Some(identity));
    }
}

/// A session is switched only onto the path whose response the registry validated, once: the
/// marker for the same path again is refused as stale.
pub proof fn law_commit_is_not_repeated(
    directory: DirectoryView,
    owner: CarrierAddress,
    lookup: CidLookup,
    decision: PathDecision,
    socket: EgressSocket,
    drain_until: u64,
)
    requires
        !decision.replay,
        decision.outcome.new_peer == owner,
        decision_problem(directory, owner, lookup, decision, socket) is None,
    ensures
        decision_problem(
            switched(directory, owner, lookup, decision, socket, drain_until),
            owner,
            lookup,
            decision,
            socket,
        ) == Some(CommitFailure::InvalidState),
{
}

/// Candidate paths carry control only, and draining paths data only; nothing that is not read
/// from an authenticated record counts as activity.
pub proof fn law_paths_carry_what_they_may(
    directory: DirectoryView,
    owner: CarrierAddress,
    lookup: CidLookup,
    peer: CarrierAddress,
    path: UdpRoamingIngressPath,
    outcome: RecordOutcome,
    now: u64,
)
    requires
        directory.clients.contains_key(owner),
    ensures
        ({
            let (after, step) = after_record(directory, owner, lookup, peer, path, outcome, now);
            &&& path is Candidate ==> !(step is Forward) && !(step is Acknowledge)
            &&& path is Draining ==> !(step is Observe) && !(step is Validate) && !(step
                is Acknowledge)
            &&& outcome is Rejected ==> after.clients[owner].last_activity
                == directory.clients[owner].last_activity
        }),
{
}

/// A probe is echoed only to the authenticated session that owns the path, once it was told that
/// it is authenticated and as long as it is not revoked.
pub proof fn law_roaming_probes_are_echoed_to_their_owner(
    directory: DirectoryView,
    worker_id: usize,
    datagram: RoamingDatagram,
    frame: CarrierFrame,
    now: u64,
)
    requires
        directory.consistent(),
        roaming_ingress(directory, worker_id, datagram, frame, now).1 is SendProbeAck,
    ensures
        resolved(directory, datagram.lookup) is Some,
        ({
            let client = directory.clients[resolved(directory, datagram.lookup)->Some_0];
            client.state is Authenticated && client.auth_ok_sent && !client.revoked
        }),
{
}

/// Data flows on the committed path and on one that drains: what was read is forwarded, keeps the
/// session alive and adds what was lost to its count. Nothing else of the session changes, and no
/// other session does.
pub proof fn law_data_flows_on_paths_in_use(
    directory: DirectoryView,
    owner: CarrierAddress,
    lookup: CidLookup,
    peer: CarrierAddress,
    path: UdpRoamingIngressPath,
    lost: u64,
    now: u64,
)
    requires
        directory.clients.contains_key(owner),
        path is Committed || path is Draining,
    ensures
        ({
            let (after, step) = after_record(
                directory,
                owner,
                lookup,
                peer,
                path,
                RecordOutcome::Data { lost, readable: true },
                now,
            );
            let client = directory.clients[owner];
            &&& step is Forward
            &&& after.clients[owner].last_activity == now
            &&& after.clients[owner].dropped == (client.dropped + lost) % 0x1_0000_0000_0000_0000
            &&& after.clients[owner] == (UdpClient {
                last_activity: now,
                dropped: after.clients[owner].dropped,
                ..client
            })
            &&& after.clients.remove(owner) =~= directory.clients.remove(owner)
            &&& after.clients.contains_key(owner)
            &&& after.owners == directory.owners
        }),
        ({
            let (after, step) = after_record(
                directory,
                owner,
                lookup,
                peer,
                path,
                RecordOutcome::Data { lost, readable: false },
                now,
            );
            &&& step == RecordStep::Drop(DropReason::BadRecordizer)
            &&& after.clients[owner].last_activity == directory.clients[owner].last_activity
            &&& after.clients[owner].dropped == (directory.clients[owner].dropped + lost)
                % 0x1_0000_0000_0000_0000
        }),
{
}

/// Control is heard on the committed path and on a candidate: it keeps the session alive, a new
/// path is taken to the registry as the client named it, and a management message is noted as
/// acknowledged on the committed path.
pub proof fn law_control_is_heard(
    directory: DirectoryView,
    owner: CarrierAddress,
    lookup: CidLookup,
    peer: CarrierAddress,
    path: UdpRoamingIngressPath,
    message_id: u32,
    cid: [u8; 8],
    epoch: u64,
    now: u64,
)
    requires
        directory.clients.contains_key(owner),
        path is Committed || path is Candidate,
    ensures
        ({
            let (after, step) = after_record(
                directory,
                owner,
                lookup,
                peer,
                path,
                RecordOutcome::Control(
                    UdpRoamingControlIngress::Path {
                        message_id,
                        message: PathControl::Init { cid, epoch },
                    },
                ),
                now,
            );
            &&& step == (RecordStep::Observe { message_id, cid, epoch })
            &&& after.clients[owner] == (UdpClient {
                last_activity: now,
                ..directory.clients[owner]
            })
            &&& after.clients.remove(owner) =~= directory.clients.remove(owner)
        }),
        ({
            let (after, step) = after_record(
                directory,
                owner,
                lookup,
                peer,
                path,
                RecordOutcome::Control(UdpRoamingControlIngress::ManagementAck { message_id }),
                now,
            );
            &&& path is Committed ==> step == RecordStep::Acknowledge(message_id)
            &&& path is Candidate ==> step is Drop
            &&& after.clients[owner].last_activity == now
        }),
{
}

/// A response is taken to the registry with the ticket of the session's candidate, wherever the
/// session is still the one that the connection id names, its new address is free, it has a path
/// and negotiated fragments; otherwise it is dropped.
pub proof fn law_responses_are_validated(
    directory: DirectoryView,
    owner: CarrierAddress,
    lookup: CidLookup,
    peer: CarrierAddress,
    path: UdpRoamingIngressPath,
    message_id: u32,
    epoch: u64,
    token: [u8; 16],
    now: u64,
)
    requires
        directory.clients.contains_key(owner),
        path is Committed || path is Candidate,
    ensures
        ({
            let client = directory.clients[owner];
            let (after, step) = after_record(
                directory,
                owner,
                lookup,
                peer,
                path,
                RecordOutcome::Control(
                    UdpRoamingControlIngress::Path {
                        message_id,
                        message: PathControl::Response { epoch, token },
                    },
                ),
                now,
            );
            let in_order = (peer == owner || !directory.clients.contains_key(peer))
                && client.candidate is Some && client.egress is Some && client.data_frag_enabled
                && client.registration is Some && client.registration->Some_0.session_id
                == lookup.session_id && client.registration->Some_0.session_generation
                == lookup.session_generation;
            &&& after.clients[owner].last_activity == now
            &&& in_order ==> step == (RecordStep::Validate {
                message_id,
                ticket: client.candidate->Some_0,
                epoch,
                token,
            })
            &&& !in_order ==> step is Drop
        }),
{
}

/// A client's control is understood: an acknowledgement by its number, and a whole message that
/// opens or answers a path as it was sent. Whatever else claims to be control is an error and
/// never data; only data counts as data.
pub proof fn law_client_control_is_understood(frame: ControlFrame)
    ensures
        record_meaning(RecordContent::Data) == Ok::<
            Option<UdpRoamingControlIngress>,
            UdpRoamingControlError,
        >(None),
        record_meaning(RecordContent::Unreadable) is Err,
        record_meaning(RecordContent::BadControl) is Err,
        frame.acknowledgement ==> record_meaning(RecordContent::Control(frame)) == Ok::<
            Option<UdpRoamingControlIngress>,
            UdpRoamingControlError,
        >(Some(UdpRoamingControlIngress::ManagementAck { message_id: frame.message_id })),
        !frame.acknowledgement ==> {
            let whole = frame.flags == 0 && frame.part_index == 0 && frame.part_count == 1;
            let owed = whole && (frame.message matches Some(message) && (message is Init || message
                is Response));
            &&& owed ==> record_meaning(RecordContent::Control(frame)) == Ok::<
                Option<UdpRoamingControlIngress>,
                UdpRoamingControlError,
            >(
                Some(
                    UdpRoamingControlIngress::Path {
                        message_id: frame.message_id,
                        message: frame.message->Some_0,
                    },
                ),
            )
            &&& !owed ==> record_meaning(RecordContent::Control(frame)) is Err
        },
{
}

/// A record gets as far as decryption exactly where it is whole, or completed from negotiated
/// fragments, and a buffer that holds it is at hand.
pub proof fn law_records_are_admitted(
    is_fragment: bool,
    data_frag_enabled: bool,
    reassembly: Reassembly,
    buffer_free: bool,
    buffer_capacity: int,
    record_len: int,
)
    ensures
        ({
            let refusal = record_admission(
                is_fragment,
                data_frag_enabled,
                reassembly,
                buffer_free,
                buffer_capacity,
                record_len,
            );
            &&& refusal is None <==> (is_fragment ==> data_frag_enabled && reassembly is Complete)
                && buffer_free && record_len <= buffer_capacity
            &&& refusal matches Some(error) ==> match error {
                UdpRoamingControlError::FragmentNotNegotiated => is_fragment
                    && !data_frag_enabled,
                UdpRoamingControlError::FragmentPending => is_fragment && reassembly is Pending,
                UdpRoamingControlError::BadFragment => is_fragment && (reassembly is Bad
                    || reassembly is Whole),
                UdpRoamingControlError::PoolExhausted => !buffer_free,
                UdpRoamingControlError::Oversize => record_len > buffer_capacity,
                _ => false,
            }
        }),
{
}

/// A probe on the committed path is echoed as it was sent; on any other path, or where it cannot
/// be read, it is dropped.
pub proof fn law_probes_are_echoed_on_the_committed_path(
    path: UdpRoamingIngressPath,
    token: u128,
    id: u16,
    size: u16,
)
    ensures
        probe_action(UplinkProbe::V2(Some((token, size))), path) == if path is Committed {
            UdpRoamingPmtuAction::Ack(token, size)
        } else {
            UdpRoamingPmtuAction::Drop
        },
        probe_action(UplinkProbe::Legacy(Some((id, size))), path) == if path is Committed {
            UdpRoamingPmtuAction::AckLegacy(id, size)
        } else {
            UdpRoamingPmtuAction::Drop
        },
        probe_action(UplinkProbe::V2(None), path) is Drop,
        probe_action(UplinkProbe::Legacy(None), path) is Drop,
        probe_action(UplinkProbe::NotProbe, path) is NotProbe,
{
}

/// Whether a datagram reaches the session that its connection id names: the worker is the right
/// one, the index leads to the session, the socket is of the peer's family, and the session is up.
pub open spec fn reaches_its_session(
    directory: DirectoryView,
    worker_id: usize,
    datagram: RoamingDatagram,
    owner: CarrierAddress,
) -> bool {
    let lookup = datagram.lookup;
    let client = directory.clients[owner];
    &&& lookup.owner_worker_id == worker_id
    &&& directory.owners.contains_key(lookup.session_id)
    &&& directory.owners[lookup.session_id].address == owner
    &&& directory.owners[lookup.session_id].session_generation == lookup.session_generation
    &&& directory.clients.contains_key(owner)
    &&& client.registration is Some
    &&& client.registration->Some_0.session_id == lookup.session_id
    &&& client.registration->Some_0.session_generation == lookup.session_generation
    &&& datagram.socket.local_is_ipv4 == Some(datagram.peer.ip is V4)
    &&& !client.revoked
    &&& client.auth_ok_sent
    &&& client.egress is Some
}

/// A record that reaches its session is decoded as what its path is: committed where it came over
/// exactly the active path, candidate where it carries the next epoch from anywhere, draining where
/// it came over exactly the previous path before its time was over; over any other path it is
/// dropped.
pub proof fn law_records_are_decoded_by_their_path(
    directory: DirectoryView,
    worker_id: usize,
    datagram: RoamingDatagram,
    owner: CarrierAddress,
    now: u64,
)
    requires
        reaches_its_session(directory, worker_id, datagram, owner),
    ensures
        ({
            let egress = directory.clients[owner].egress->Some_0;
            let epoch = datagram.lookup.path_epoch;
            let step = roaming_ingress(
                directory,
                worker_id,
                datagram,
                CarrierFrame::Record,
                now,
            ).1;
            let active = egress.current.path_epoch == epoch && egress.current.peer == datagram.peer
                && egress.current.socket.id == datagram.socket.id && egress.current.framing
                is RoamingCid;
            let next = epoch == egress.current.path_epoch + 1;
            let previous = epoch != egress.current.path_epoch && !next && (
            egress.draining matches Some(old) && now <= old.expires_at && old.snapshot.path_epoch
                == epoch && old.snapshot.peer == datagram.peer && old.snapshot.socket.id
                == datagram.socket.id && old.snapshot.framing is RoamingCid);
            &&& active ==> step == RoamingStep::Decode(owner, UdpRoamingIngressPath::Committed)
            &&& next ==> step == RoamingStep::Decode(owner, UdpRoamingIngressPath::Candidate)
            &&& previous ==> step == RoamingStep::Decode(owner, UdpRoamingIngressPath::Draining)
            &&& !active && !next && !previous ==> step == RoamingStep::Drop(DropReason::StalePath)
        }),
{
}

/// On the active path a readable probe is echoed under the next packet number, and the answer to
/// the pending probe of that path certifies its size: the budget becomes what was probed, and the
/// budget before it is reported.
pub proof fn law_active_path_answers_probes(
    directory: DirectoryView,
    worker_id: usize,
    datagram: RoamingDatagram,
    owner: CarrierAddress,
    cid: [u8; 8],
    token: u128,
    size: u16,
    now: u64,
)
    requires
        reaches_its_session(directory, worker_id, datagram, owner),
        ({
            let current = directory.clients[owner].egress->Some_0.current;
            &&& current.path_epoch == datagram.lookup.path_epoch
            &&& current.peer == datagram.peer
            &&& current.socket.id == datagram.socket.id
            &&& current.framing == UdpEgressFraming::RoamingCid(cid)
        }),
    ensures
        ({
            let client = directory.clients[owner];
            let (after, step) = roaming_ingress(
                directory,
                worker_id,
                datagram,
                CarrierFrame::Probe(UplinkProbe::V2(Some((token, size)))),
                now,
            );
            &&& step == RoamingStep::SendProbeAck(
                UdpRoamingPmtuAction::Ack(token, size),
                UdpHeader::RoamingShort(cid, client.packet_counter),
            )
            &&& after.clients[owner].packet_counter == (client.packet_counter + 1) % 0x1_0000_0000
            &&& after.clients.remove(owner) =~= directory.clients.remove(owner)
        }),
        ({
            let client = directory.clients[owner];
            let egress = client.egress->Some_0;
            let (after, step) = roaming_ingress(
                directory,
                worker_id,
                datagram,
                CarrierFrame::ProbeAnswer(Some((token, size))),
                now,
            );
            let answers = client.probe matches Some(probe) && probe.token == token
                && probe.payload_size == size && probe.path_epoch == datagram.lookup.path_epoch
                && probe.peer == datagram.peer;
            &&& answers && client.data_frag_enabled ==> step == RoamingStep::Certified(
                Some(egress.payload_budget),
            ) && after.clients[owner].egress->Some_0.payload_budget
                == client.probe->Some_0.udp_payload_budget && after.clients[owner].probe is None
            &&& answers && !client.data_frag_enabled ==> step == RoamingStep::Certified(None)
                && after.clients[owner].egress->Some_0.payload_budget == egress.payload_budget
                && after.clients[owner].probe is None
            &&& !answers ==> step == RoamingStep::Certified(None)
                && after.clients[owner].egress->Some_0.payload_budget == egress.payload_budget
                && after.clients[owner].probe == client.probe
        }),
{
}

/// What does not reach a session is dropped and changes nothing, but that a revoked session is
/// taken out.
pub proof fn law_strays_are_dropped(
    directory: DirectoryView,
    worker_id: usize,
    datagram: RoamingDatagram,
    frame: CarrierFrame,
    now: u64,
)
    requires
        forall|owner: CarrierAddress| !reaches_its_session(directory, worker_id, datagram, owner),
    ensures
        ({
            let (after, step) = roaming_ingress(directory, worker_id, datagram, frame, now);
            &&& step is Drop
            &&& step != RoamingStep::Drop(DropReason::Revoked) ==> after == directory
        }),
{
    if let Some(owner) = resolved(directory, datagram.lookup) {
        assert(!reaches_its_session(directory, worker_id, datagram, owner));
    }
}

/// A decision that the registry made for this session is carried out wherever it continues the
/// session's path: the next epoch, from the peer that is active, over a socket of the new peer's
/// family, to an address that is free. Then the session sends over exactly the new path, with the
/// budget that every path carries, and the old path drains if it was a roaming one.
pub proof fn law_validated_paths_are_taken(
    directory: DirectoryView,
    owner: CarrierAddress,
    lookup: CidLookup,
    decision: PathDecision,
    socket: EgressSocket,
    drain_until: u64,
)
    requires
        directory.clients.contains_key(owner),
        !decision.replay,
    ensures
        ({
            let client = directory.clients[owner];
            let outcome = decision.outcome;
            let peer = outcome.new_peer;
            let fits = client.registration is Some && client.registration->Some_0.session_id
                == lookup.session_id && client.registration->Some_0.session_generation
                == lookup.session_generation && (peer == owner
                || !directory.clients.contains_key(peer)) && client.egress is Some
                && outcome.path_epoch == client.egress->Some_0.current.path_epoch + 1
                && outcome.old_peer == client.egress->Some_0.current.peer && socket.local_is_ipv4
                == Some(peer.ip is V4);
            let after = switched(directory, owner, lookup, decision, socket, drain_until);
            &&& decision_problem(directory, owner, lookup, decision, socket) is None <==> fits
            &&& fits ==> {
                let old = client.egress->Some_0.current;
                let egress = after.clients[peer].egress->Some_0;
                &&& after.clients.contains_key(peer)
                &&& after.clients[peer].egress is Some
                &&& egress.current.peer == peer
                &&& egress.current.socket == socket
                &&& egress.current.path_epoch == outcome.path_epoch
                &&& egress.current.framing == UdpEgressFraming::RoamingCid(outcome.transmit_cid)
                &&& egress.payload_budget == if peer.ip is V4 {
                    548int
                } else {
                    1232int
                }
                &&& egress.draining is Some <==> old.framing is RoamingCid
                &&& egress.draining matches Some(draining) ==> draining.snapshot == old
                    && draining.expires_at == drain_until
                &&& after.clients[peer] == (UdpClient {
                    egress: after.clients[peer].egress,
                    ..client
                })
                &&& peer != owner ==> !after.clients.contains_key(owner)
                    && after.owners.contains_key(lookup.session_id)
                    && after.owners[lookup.session_id].address == peer
            }
        }),
{
}

/// Taking a record: data that can be read on the committed path or on one that drains is forwarded,
/// keeps its session alive and adds what was lost to its count. Nothing else changes.
pub proof fn law_taken_data_is_forwarded(
    owner: CarrierAddress,
    lookup: CidLookup,
    peer: CarrierAddress,
    path: UdpRoamingIngressPath,
    lost: u64,
    now: u64,
    step: RecordStep,
)
    requires
        path is Committed || path is Draining,
    ensures
        forall|directory: &mut UdpSessionDirectory| #[trigger]
            call_ensures(
                take_record,
                (
                    directory,
                    owner,
                    lookup,
                    peer,
                    path,
                    &RecordOutcome::Data { lost, readable: true },
                    now,
                ),
                step,
            ) && directory.valid() && directory@.clients.contains_key(owner) ==> {
                let client = directory@.clients[owner];
                let after = final(directory)@;
                &&& step is Forward
                &&& after.clients.contains_key(owner)
                &&& after.clients[owner].last_activity == now
                &&& after.clients[owner].dropped == (client.dropped + lost)
                    % 0x1_0000_0000_0000_0000
                &&& after.clients[owner] == (UdpClient {
                    last_activity: now,
                    dropped: after.clients[owner].dropped,
                    ..client
                })
                &&& after.clients.remove(owner) == directory@.clients.remove(owner)
                &&& after.owners == directory@.owners
            },
{
    assert forall|directory: &mut UdpSessionDirectory| #[trigger]
        call_ensures(
            take_record,
            (
                directory,
                owner,
                lookup,
                peer,
                path,
                &RecordOutcome::Data { lost, readable: true },
                now,
            ),
            step,
        ) && directory.valid() && directory@.clients.contains_key(owner) implies ({
        let client = directory@.clients[owner];
        let after = final(directory)@;
        &&& step is Forward
        &&& after.clients.contains_key(owner)
        &&& after.clients[owner].last_activity == now
        &&& after.clients[owner].dropped == (client.dropped + lost) % 0x1_0000_0000_0000_0000
        &&& after.clients[owner] == (UdpClient {
            last_activity: now,
            dropped: after.clients[owner].dropped,
            ..client
        })
        &&& after.clients.remove(owner) == directory@.clients.remove(owner)
        &&& after.owners == directory@.owners
    }) by {
        law_data_flows_on_paths_in_use(directory@, owner, lookup, peer, path, lost, now);
    }
}

/// A candidate path is noted for the session that its connection id leads to, and for no other; it
/// is forgotten by its own ticket, also where its challenge may not be sent.
pub proof fn law_candidates_belong_to_their_session(
    owner: CarrierAddress,
    lookup: CidLookup,
    ticket: u64,
    permit: SendPermit,
    noted: bool,
    send: bool,
)
    ensures
        forall|directory: &mut UdpSessionDirectory| #[trigger]
            call_ensures(note_candidate, (directory, owner, lookup, ticket), noted)
                && directory.valid() ==> {
                let after = final(directory)@;
                let own = (RoamingRegistration {
                    session_id: lookup.session_id,
                    session_generation: lookup.session_generation,
                });
                &&& noted <==> directory@.clients.contains_key(owner)
                    && directory@.clients[owner].registration == Some(own)
                &&& noted ==> after.clients.contains_key(owner) && after.clients[owner]
                    == (UdpClient { candidate: Some(ticket), ..directory@.clients[owner] })
                    && after.clients.remove(owner) =~= directory@.clients.remove(owner)
                    && after.owners == directory@.owners
                &&& !noted ==> after == directory@
            },
        forall|directory: &mut UdpSessionDirectory| #[trigger]
            call_ensures(forget_candidate, (directory, owner, ticket), ()) && directory.valid()
                ==> {
                let after = final(directory)@;
                let own = directory@.clients.contains_key(owner)
                    && directory@.clients[owner].candidate == Some(ticket);
                &&& own ==> after.clients.contains_key(owner) && after.clients[owner]
                    == (UdpClient { candidate: None, ..directory@.clients[owner] })
                    && after.clients.remove(owner) =~= directory@.clients.remove(owner)
                    && after.owners == directory@.owners
                &&& !own ==> after == directory@
            },
        forall|directory: &mut UdpSessionDirectory| #[trigger]
            call_ensures(permit_challenge, (directory, owner, ticket, permit), send)
                && directory.valid() ==> {
                let after = final(directory)@;
                let own = directory@.clients.contains_key(owner)
                    && directory@.clients[owner].candidate == Some(ticket);
                &&& send <==> permit is Granted
                &&& permit is Refused && own ==> after.clients.contains_key(owner)
                    && after.clients[owner].candidate is None
                &&& !(permit is Refused && own) ==> after == directory@
            },
{
}

/// A decision is carried out where nothing stands against it and its answer went out; otherwise
/// nothing changes.
pub proof fn law_decisions_are_carried_out_whole(
    owner: CarrierAddress,
    lookup: CidLookup,
    decision: PathDecision,
    socket: EgressSocket,
    sent: bool,
    drain_until: u64,
    result: Result<(), CommitFailure>,
)
    ensures
        forall|directory: &mut UdpSessionDirectory| #[trigger]
            call_ensures(
                finish_decision,
                (directory, owner, lookup, &decision, socket, sent, drain_until),
                result,
            ) && directory.valid() ==> {
                let problem = decision_problem(directory@, owner, lookup, decision, socket);
                &&& result is Ok <==> problem is None && sent
                &&& result is Err ==> final(directory)@ == directory@
                &&& result is Ok ==> final(directory)@ == switched(
                    directory@,
                    owner,
                    lookup,
                    decision,
                    socket,
                    drain_until,
                )
                &&& problem is None && !sent ==> result->Err_0 == CommitFailure::NotSent
                &&& problem matches Some(error) ==> result->Err_0 == error
            },
{
}

} // verus!
