//! What a UDP worker does with one datagram, from the source address that it came from.
//!
//! Unmasking, reassembly, decryption and the handshake itself are left to the caller, who reports
//! what came back. Junk and carrier frames are told apart first; a known peer that repeats a
//! request is answered from memory; only what decrypts goes further; a new source gets a bounded
//! place before any work is spent on it.

use crate::budget_math::{after, next_number, sum_wrapping, wrapping_add};
use crate::carrier::CarrierAddress;
use crate::udp_budget::{take_answer, DownlinkMtuProbe};
use crate::udp_client::{received, ReceiveStep, UdpClient, UdpIdentity, UdpSessionState};
use crate::udp_directory::{removed, DirectoryView, UdpSessionDirectory};
use crate::udp_egress::UdpHeader;
use crate::udp_roaming::{
    after_answer, with_client, UdpRoamingControlError, UdpRoamingPmtuAction, UplinkProbe,
};
use vstd::prelude::*;

verus! {

/// Most half-open handshakes of a worker, and most hellos that are being put together.
pub const MAX_PENDING_HANDSHAKES: usize = 1024;

/// Packets that wait for a limited client's upload.
pub const UDP_UPLOAD_QUEUE_PACKETS: usize = 256;

/// What a payload looks like from the outside.
#[derive(Clone, Copy)]
pub struct PayloadMarks {
    /// A decoy without content.
    pub junk: bool,
    /// The answer to a probe of the server: what it answers, if that can be read.
    pub answer: Option<Option<(u128, u16)>>,
    /// An answer that only clients use.
    pub legacy_answer: bool,
    pub probe: UplinkProbe,
    /// A piece of a handshake message.
    pub fragment: bool,
    /// A piece of a data record.
    pub data_fragment: bool,
}

#[derive(Debug, Clone, Copy, PartialEq, Eq, Structural)]
pub enum DatagramDrop {
    Junk,
    CarrierOnly,
    /// The probe cannot be read, or its source has no authenticated session.
    UnansweredProbe,
    /// A request was repeated beyond its allowance.
    Suppressed,
    NothingCached,
    Revoked,
    FragmentNotNegotiated,
}

/// What to do with a datagram.
#[derive(Clone, Copy)]
pub enum DatagramStep {
    Drop(DatagramDrop),
    /// The answer to a probe was taken; the budget was replaced where it still applied.
    Certified(Option<u32>),
    /// Echo a probe, behind this header.
    SendProbeAck(UdpRoamingPmtuAction, UdpHeader),
    /// Send the ServerHello again.
    ReemitHello,
    /// Send the answer to the authentication again.
    ReemitAuth,
    /// Put together and decrypt the record.
    Record,
    /// A source without a session.
    NewSource,
}

/// Whether a datagram is masked as QUIC: a session keeps what it started with, a new source shows
/// it by its first packet.
pub fn expects_quic(
    directory: &UdpSessionDirectory,
    address: CarrierAddress,
    looks_like_initial: bool,
) -> (masked: bool)
    requires
        directory.valid(),
    ensures
        masked == if directory@.clients.contains_key(address) {
            directory@.clients[address].quic_enabled
        } else {
            looks_like_initial
        },
{
    match directory.get(address) {
        Some(client) => client.quic_enabled,
        None => looks_like_initial,
    }
}

/// The header of a short answer to a session that does not roam.
pub open spec fn short_header(client: UdpClient) -> UdpHeader {
    if client.quic_enabled {
        UdpHeader::QuicShort(client.connection_id, client.packet_counter)
    } else {
        UdpHeader::Bare
    }
}

/// The epoch that a pending probe was sent in.
pub open spec fn probe_epoch(probe: Option<DownlinkMtuProbe>) -> u64 {
    match probe {
        Some(probe) => probe.path_epoch,
        None => 0,
    }
}

/// The echo that a probe asks for.
pub open spec fn echo(probe: UplinkProbe) -> Option<UdpRoamingPmtuAction> {
    match probe {
        UplinkProbe::V2(Some((token, size))) => Some(UdpRoamingPmtuAction::Ack(token, size)),
        UplinkProbe::Legacy(Some((id, size))) => Some(UdpRoamingPmtuAction::AckLegacy(id, size)),
        _ => None,
    }
}

/// The directory after a datagram with a payload, and what to do.
pub open spec fn datagram_step(
    directory: DirectoryView,
    address: CarrierAddress,
    data_len: u64,
    payload: Seq<u8>,
    marks: PayloadMarks,
    now: u64,
) -> (DirectoryView, DatagramStep) {
    let known = directory.clients.contains_key(address);
    let client = directory.clients[address];
    if marks.junk {
        (directory, DatagramStep::Drop(DatagramDrop::Junk))
    } else if marks.answer is Some {
        if known && client.egress is Some {
            let (answered, previous) = after_answer(
                client,
                client.egress->Some_0,
                marks.answer->Some_0,
                probe_epoch(client.probe),
                address,
            );
            (with_client(directory, address, answered), DatagramStep::Certified(previous))
        } else {
            (directory, DatagramStep::Certified(None))
        }
    } else if marks.legacy_answer {
        (directory, DatagramStep::Drop(DatagramDrop::CarrierOnly))
    } else if !(marks.probe is NotProbe) {
        match echo(marks.probe) {
            Some(action) => if known && client.state is Authenticated {
                (
                    with_client(
                        directory,
                        address,
                        UdpClient {
                            packet_counter: next_number(client.packet_counter),
                            ..client
                        },
                    ),
                    DatagramStep::SendProbeAck(action, short_header(client)),
                )
            } else {
                (directory, DatagramStep::Drop(DatagramDrop::UnansweredProbe))
            },
            None => (directory, DatagramStep::Drop(DatagramDrop::UnansweredProbe)),
        }
    } else if !known {
        (directory, DatagramStep::NewSource)
    } else {
        let (counted, step) = received(client, data_len, payload, marks.fragment, now);
        match step {
            ReceiveStep::Suppress => (
                with_client(directory, address, counted),
                DatagramStep::Drop(DatagramDrop::Suppressed),
            ),
            ReceiveStep::ReemitHello => (
                with_client(directory, address, counted),
                if client.server_hello@.len() == 0 {
                    DatagramStep::Drop(DatagramDrop::NothingCached)
                } else {
                    DatagramStep::ReemitHello
                },
            ),
            ReceiveStep::ReemitAuth => (
                with_client(directory, address, counted),
                DatagramStep::ReemitAuth,
            ),
            ReceiveStep::Forget => (
                removed(with_client(directory, address, counted), address),
                DatagramStep::Drop(DatagramDrop::Revoked),
            ),
            ReceiveStep::Process => (
                with_client(directory, address, counted),
                if marks.data_fragment && (client.state is AwaitingAuth
                    || !client.data_frag_enabled) {
                    DatagramStep::Drop(DatagramDrop::FragmentNotNegotiated)
                } else {
                    DatagramStep::Record
                },
            ),
        }
    }
}

/// Decides on a datagram of `data_len` bytes with an unmasked payload.
pub fn begin_datagram(
    directory: &mut UdpSessionDirectory,
    address: CarrierAddress,
    data_len: usize,
    payload: &[u8],
    marks: &PayloadMarks,
    now: u64,
) -> (step: DatagramStep)
    requires
        old(directory).valid(),
    ensures
        final(directory).valid(),
        (final(directory)@, step) == datagram_step(
            old(directory)@,
            address,
            data_len as u64,
            payload@,
            *marks,
            now,
        ),
{
    if marks.junk {
        return DatagramStep::Drop(DatagramDrop::Junk);
    }
    if let Some(answer) = marks.answer {
        let ready = match directory.get(address) {
            Some(client) => client.egress.is_some(),
            None => false,
        };
        if !ready {
            return DatagramStep::Certified(None);
        }
        return match directory.get_mut(address) {
            Some(client) => DatagramStep::Certified(take_probe_answer(client, answer, address)),
            None => DatagramStep::Certified(None),
        };
    }
    if marks.legacy_answer {
        return DatagramStep::Drop(DatagramDrop::CarrierOnly);
    }
    let echoed = match marks.probe {
        UplinkProbe::NotProbe => None,
        UplinkProbe::V2(Some((token, size))) => Some(Some(UdpRoamingPmtuAction::Ack(token, size))),
        UplinkProbe::Legacy(Some((id, size))) => Some(
            Some(UdpRoamingPmtuAction::AckLegacy(id, size)),
        ),
        _ => Some(None),
    };
    if let Some(action) = echoed {
        let action = match action {
            Some(action) => action,
            None => {
                return DatagramStep::Drop(DatagramDrop::UnansweredProbe);
            },
        };
        let authenticated = match directory.get(address) {
            Some(client) => match &client.state {
                UdpSessionState::AwaitingAuth => false,
                UdpSessionState::Authenticated(_) => true,
            },
            None => false,
        };
        if !authenticated {
            return DatagramStep::Drop(DatagramDrop::UnansweredProbe);
        }
        return match directory.get_mut(address) {
            Some(client) => {
                let header = if client.quic_enabled {
                    UdpHeader::QuicShort(client.connection_id, client.packet_counter)
                } else {
                    UdpHeader::Bare
                };
                client.packet_counter = after(client.packet_counter);
                DatagramStep::SendProbeAck(action, header)
            },
            None => DatagramStep::Drop(DatagramDrop::UnansweredProbe),
        };
    }
    let (step, hello_cached, fragments_allowed) = match directory.get_mut(address) {
        None => {
            return DatagramStep::NewSource;
        },
        Some(client) => {
            let cached = client.server_hello.len() > 0;
            let waiting = match &client.state {
                UdpSessionState::AwaitingAuth => true,
                UdpSessionState::Authenticated(_) => false,
            };
            let allowed = !waiting && client.data_frag_enabled;
            (client.receive(data_len, payload, marks.fragment, now), cached, allowed)
        },
    };
    match step {
        ReceiveStep::Suppress => DatagramStep::Drop(DatagramDrop::Suppressed),
        ReceiveStep::ReemitHello => if hello_cached {
            DatagramStep::ReemitHello
        } else {
            DatagramStep::Drop(DatagramDrop::NothingCached)
        },
        ReceiveStep::ReemitAuth => DatagramStep::ReemitAuth,
        ReceiveStep::Forget => {
            directory.remove(address);
            DatagramStep::Drop(DatagramDrop::Revoked)
        },
        ReceiveStep::Process => if marks.data_fragment && !fragments_allowed {
            DatagramStep::Drop(DatagramDrop::FragmentNotNegotiated)
        } else {
            DatagramStep::Record
        },
    }
}

fn take_probe_answer(
    client: &mut UdpClient,
    answer: Option<(u128, u16)>,
    address: CarrierAddress,
) -> (previous: Option<u32>)
    requires
        old(client).egress is Some,
    ensures
        (*final(client), previous) == after_answer(
            *old(client),
            old(client).egress->Some_0,
            answer,
            probe_epoch(old(client).probe),
            address,
        ),
{
    let mut egress = match client.egress.take() {
        Some(egress) => egress,
        None => {
            return None;
        },
    };
    let epoch: u64 = match &client.probe {
        Some(probe) => probe.path_epoch,
        None => 0,
    };
    let probe = match answer {
        Some((token, size)) => take_answer(&mut client.probe, token, size, epoch, address),
        None => None,
    };
    let previous = match probe {
        Some(probe) => {
            if client.data_frag_enabled {
                egress.certify_payload_budget(
                    probe.path_epoch,
                    probe.peer,
                    probe.udp_payload_budget,
                )
            } else {
                None
            }
        },
        None => None,
    };
    client.egress = Some(egress);
    previous
}

/// What the record of a datagram came to.
#[derive(Debug, Clone, Copy, PartialEq, Eq, Structural)]
pub enum PlainOutcome {
    /// It was not put together, found no buffer, was too large or did not decrypt.
    Rejected(UdpRoamingControlError),
    Plain {
        /// The content is control that is not bundled.
        direct_control: bool,
        empty: bool,
        /// Packets of a bundle that found no buffer or were too large.
        lost: u64,
        /// Whether the bundle could be read.
        readable: bool,
    },
}

/// What to do with the content of a record.
#[derive(Debug, Clone, Copy, PartialEq, Eq, Structural)]
pub enum PlainStep {
    Drop,
    /// Hand the content to authentication.
    Authenticate,
    /// Forward the packets of a bundle.
    ForwardBundle(u64),
    /// Forward the content as one packet.
    ForwardPacket(u64),
}

/// Whether the records of a session bundle packets.
pub open spec fn bundles(client: UdpClient, direct_control: bool) -> bool {
    client.state is Authenticated && client.has_recordizer && !direct_control
}

/// The directory after a record, and what to do with its content. Only what decrypted, and could
/// be read, counts as activity.
pub open spec fn plain_step(
    directory: DirectoryView,
    address: CarrierAddress,
    outcome: PlainOutcome,
    now: u64,
) -> (DirectoryView, PlainStep) {
    let client = directory.clients[address];
    if !directory.clients.contains_key(address) {
        (directory, PlainStep::Drop)
    } else {
        match outcome {
            PlainOutcome::Rejected(error) => (
                if error is PoolExhausted || error is Oversize {
                    with_client(
                        directory,
                        address,
                        UdpClient { dropped: sum_wrapping(client.dropped, 1), ..client },
                    )
                } else {
                    directory
                },
                PlainStep::Drop,
            ),
            PlainOutcome::Plain { direct_control, empty, lost, readable } => {
                let bundled = bundles(client, direct_control);
                let counted = UdpClient {
                    dropped: if bundled && !empty {
                        sum_wrapping(client.dropped, lost)
                    } else {
                        client.dropped
                    },
                    ..client
                };
                if bundled && !empty && !readable {
                    (with_client(directory, address, counted), PlainStep::Drop)
                } else {
                    (
                        with_client(
                            directory,
                            address,
                            UdpClient { last_activity: now, ..counted },
                        ),
                        match client.session_id() {
                            None => PlainStep::Authenticate,
                            Some(session_id) => if bundled {
                                PlainStep::ForwardBundle(session_id)
                            } else {
                                PlainStep::ForwardPacket(session_id)
                            },
                        },
                    )
                }
            },
        }
    }
}

/// Takes what a record came to.
pub fn take_plaintext(
    directory: &mut UdpSessionDirectory,
    address: CarrierAddress,
    outcome: PlainOutcome,
    now: u64,
) -> (step: PlainStep)
    requires
        old(directory).valid(),
    ensures
        final(directory).valid(),
        (final(directory)@, step) == plain_step(old(directory)@, address, outcome, now),
{
    let ghost before = directory@;
    let client = match directory.get_mut(address) {
        Some(client) => client,
        None => {
            return PlainStep::Drop;
        },
    };
    assert(with_client(before, address, before.clients[address]) =~= before);
    match outcome {
        PlainOutcome::Rejected(error) => {
            if error == UdpRoamingControlError::PoolExhausted || error
                == UdpRoamingControlError::Oversize {
                client.dropped = wrapping_add(client.dropped, 1);
            }
            PlainStep::Drop
        },
        PlainOutcome::Plain { direct_control, empty, lost, readable } => {
            let session = client.authenticated_session_id();
            let bundled = session.is_some() && client.has_recordizer && !direct_control;
            if bundled && !empty {
                client.dropped = wrapping_add(client.dropped, lost);
                if !readable {
                    return PlainStep::Drop;
                }
            }
            client.last_activity = now;
            match session {
                None => PlainStep::Authenticate,
                Some(session_id) => if bundled {
                    PlainStep::ForwardBundle(session_id)
                } else {
                    PlainStep::ForwardPacket(session_id)
                },
            }
        },
    }
}

/// Only a datagram that decrypts, or that is answered from memory within its allowance, keeps a
/// session alive.
pub proof fn law_liveness_needs_decryption(
    directory: DirectoryView,
    address: CarrierAddress,
    data_len: u64,
    payload: Seq<u8>,
    marks: PayloadMarks,
    error: UdpRoamingControlError,
    now: u64,
)
    requires
        directory.clients.contains_key(address),
    ensures
        ({
            let (after, step) = datagram_step(directory, address, data_len, payload, marks, now);
            !(step is ReemitHello) && !(step is ReemitAuth) && step != DatagramStep::Drop(
                DatagramDrop::NothingCached,
            ) && after.clients.contains_key(address) ==> after.clients[address].last_activity
                == directory.clients[address].last_activity
        }),
        ({
            let (after, step) = plain_step(
                directory,
                address,
                PlainOutcome::Rejected(error),
                now,
            );
            step is Drop && after.clients[address].last_activity
                == directory.clients[address].last_activity
        }),
{
}

/// A probe of the path is echoed to an authenticated session only; any other source, one that
/// still has to authenticate too, gets nothing and changes nothing.
pub proof fn law_probes_are_echoed_to_authenticated_sessions(
    directory: DirectoryView,
    address: CarrierAddress,
    data_len: u64,
    payload: Seq<u8>,
    marks: PayloadMarks,
    now: u64,
)
    ensures
        ({
            let (after, step) = datagram_step(directory, address, data_len, payload, marks, now);
            let authenticated = directory.clients.contains_key(address)
                && directory.clients[address].state is Authenticated;
            &&& step is SendProbeAck ==> authenticated
            &&& !marks.junk && marks.answer is None && !marks.legacy_answer && !(
            marks.probe is NotProbe) && !authenticated ==> step == DatagramStep::Drop(
                DatagramDrop::UnansweredProbe,
            ) && after == directory
        }),
{
}

/// A datagram from one address never changes the session of another.
pub proof fn law_datagram_touches_its_own_session(
    directory: DirectoryView,
    address: CarrierAddress,
    other: CarrierAddress,
    data_len: u64,
    payload: Seq<u8>,
    marks: PayloadMarks,
    now: u64,
)
    requires
        other != address,
    ensures
        ({
            let (after, _) = datagram_step(directory, address, data_len, payload, marks, now);
            &&& after.clients.contains_key(other) == directory.clients.contains_key(other)
            &&& directory.clients.contains_key(other) ==> after.clients[other]
                == directory.clients[other]
        }),
{
}

/// Authentications that are under way, by source. A repeated request does not start a second one.
pub struct AuthInFlight {
    sources: Vec<CarrierAddress>,
}

impl View for AuthInFlight {
    type V = Set<CarrierAddress>;

    closed spec fn view(&self) -> Set<CarrierAddress> {
        self.sources@.to_set()
    }
}

impl AuthInFlight {
    pub fn new() -> (in_flight: AuthInFlight)
        ensures
            in_flight@ == Set::<CarrierAddress>::empty(),
    {
        let in_flight = AuthInFlight { sources: Vec::new() };
        assert(in_flight@ =~= Set::<CarrierAddress>::empty());
        in_flight
    }

    /// Whether an authentication may start now; if so it is under way.
    pub fn begin(&mut self, source: CarrierAddress) -> (started: bool)
        ensures
            started == !old(self)@.contains(source),
            final(self)@ == old(self)@.insert(source),
    {
        let ghost before = self.sources@;
        let mut i: usize = 0;
        while i < self.sources.len()
            invariant
                i <= self.sources@.len(),
                self.sources@ == before,
                forall|j: int| 0 <= j < i ==> self.sources@[j] != source,
            decreases self.sources@.len() - i,
        {
            if self.sources[i] == source {
                assert(before.to_set().contains(source));
                assert(before.to_set().insert(source) =~= before.to_set());
                return false;
            }
            i += 1;
        }
        self.sources.push(source);
        proof {
            assert(!before.contains(source));
            assert(before.push(source).to_set() =~= before.to_set().insert(source)) by {
                assert forall|other: CarrierAddress|
                    before.push(source).contains(other) <==> before.contains(other) || other
                        == source by {
                    if before.contains(other) {
                        let k = choose|k: int| 0 <= k < before.len() && before[k] == other;
                        assert(before.push(source)[k] == other);
                    }
                    assert(before.push(source)[before.len() as int] == source);
                }
            }
        }
        true
    }

    /// Ends an authentication.
    pub fn end(&mut self, source: CarrierAddress)
        ensures
            final(self)@ == old(self)@.remove(source),
    {
        let ghost before = self.sources@;
        let mut kept: Vec<CarrierAddress> = Vec::new();
        let mut i: usize = 0;
        while i < self.sources.len()
            invariant
                i <= self.sources@.len(),
                self.sources@ == before,
                forall|other: CarrierAddress| #[trigger]
                    kept@.contains(other) <==> other != source && exists|j: int|
                        0 <= j < i && before[j] == other,
            decreases self.sources@.len() - i,
        {
            let ghost held = kept@;
            let address = self.sources[i];
            if address != source {
                kept.push(address);
            }
            proof {
                assert forall|other: CarrierAddress| #[trigger]
                    kept@.contains(other) <==> other != source && exists|j: int|
                        0 <= j < i + 1 && before[j] == other by {
                    if held.contains(other) {
                        let k = choose|k: int| 0 <= k < held.len() && held[k] == other;
                        assert(kept@[k] == other);
                    }
                    if address != source {
                        assert(kept@[held.len() as int] == address);
                    }
                    if kept@.contains(other) && other != address {
                        let k = choose|k: int| 0 <= k < kept@.len() && kept@[k] == other;
                        assert(held[k] == other);
                    }
                    assert(before[i as int] == address);
                }
            }
            i += 1;
        }
        self.sources = kept;
        assert(self@ =~= before.to_set().remove(source)) by {
            assert forall|other: CarrierAddress| self.sources@.contains(other) <==> before.contains(
                other,
            ) && other != source by {
                if before.contains(other) && other != source {
                    let j = choose|j: int| 0 <= j < before.len() && before[j] == other;
                    assert(0 <= j < i && before[j] == other);
                }
            }
        }
    }
}

/// Whether a payload is neither junk nor a frame of the carrier.
pub open spec fn is_content(marks: PayloadMarks) -> bool {
    !marks.junk && marks.answer is None && !marks.legacy_answer && marks.probe is NotProbe
}

/// Content of an authenticated session goes to decryption, unless it repeats the authentication
/// request or comes in pieces that were not negotiated; content of a session that has to
/// authenticate does unless it is a piece. Nothing changes but the count of what came.
pub proof fn law_content_reaches_decryption(
    directory: DirectoryView,
    address: CarrierAddress,
    data_len: u64,
    payload: Seq<u8>,
    marks: PayloadMarks,
    now: u64,
)
    requires
        is_content(marks),
        directory.clients.contains_key(address),
        !directory.clients[address].revoked,
        directory.clients[address].auth_ok@.len() == 0 || payload
            != directory.clients[address].auth_request@,
        directory.clients[address].state is Authenticated || !marks.fragment,
        marks.data_fragment ==> directory.clients[address].state is Authenticated
            && directory.clients[address].data_frag_enabled,
    ensures
        ({
            let (after, step) = datagram_step(directory, address, data_len, payload, marks, now);
            let client = directory.clients[address];
            &&& step is Record
            &&& after.clients.contains_key(address)
            &&& after.clients[address] == (UdpClient {
                amp_received: after.clients[address].amp_received,
                ..client
            })
            &&& client.amp_received + data_len <= u64::MAX
                ==> after.clients[address].amp_received == client.amp_received + data_len
            &&& after.owners == directory.owners
        }),
{
}

/// Content from an address without a session is that of a new source; junk is dropped, from
/// wherever it comes, and so is an answer that only clients send.
pub proof fn law_strangers_and_junk(
    directory: DirectoryView,
    address: CarrierAddress,
    data_len: u64,
    payload: Seq<u8>,
    marks: PayloadMarks,
    now: u64,
)
    ensures
        ({
            let (after, step) = datagram_step(directory, address, data_len, payload, marks, now);
            &&& is_content(marks) && !directory.clients.contains_key(address) ==> step is NewSource
                && after == directory
            &&& marks.junk ==> step == DatagramStep::Drop(DatagramDrop::Junk) && after == directory
            &&& !marks.junk && marks.answer is None && marks.legacy_answer ==> step is Drop && after
                == directory
            &&& is_content(marks) && directory.clients.contains_key(address) && (
            directory.clients[address].state is Authenticated || !marks.fragment) && (
            directory.clients[address].auth_ok@.len() == 0 || payload
                != directory.clients[address].auth_request@) && directory.clients[address].revoked
                ==> !after.clients.contains_key(address) && step is Drop
        }),
{
}

/// A peer that lost an answer gets it again: the answer to its authentication up to five times, the
/// hello of its handshake within three times what came from it.
pub proof fn law_lost_answers_come_again(
    directory: DirectoryView,
    address: CarrierAddress,
    data_len: u64,
    payload: Seq<u8>,
    marks: PayloadMarks,
    now: u64,
)
    requires
        is_content(marks),
        directory.clients.contains_key(address),
    ensures
        ({
            let client = directory.clients[address];
            let (after, step) = datagram_step(directory, address, data_len, payload, marks, now);
            let asks_again = client.auth_ok@.len() > 0 && payload == client.auth_request@;
            &&& asks_again && client.auth_ok_reemits < 5 ==> step is ReemitAuth
                && after.clients[address].last_activity == now
            &&& asks_again && client.auth_ok_reemits >= 5 ==> step == DatagramStep::Drop(
                DatagramDrop::Suppressed,
            )
            &&& !asks_again && client.state is AwaitingAuth && marks.fragment
                && client.server_hello@.len() > 0 && client.amp_sent + client.server_hello@.len()
                <= 3 * (client.amp_received + data_len) && 3 * (client.amp_received + data_len)
                <= u64::MAX ==> step is ReemitHello && after.clients[address].last_activity == now
        }),
{
}

/// A readable probe of an authenticated session is echoed as it came, under the next packet number
/// of the session, masked where the session is.
pub proof fn law_authenticated_probes_are_echoed(
    directory: DirectoryView,
    address: CarrierAddress,
    data_len: u64,
    payload: Seq<u8>,
    marks: PayloadMarks,
    token: u128,
    id: u16,
    size: u16,
    now: u64,
)
    requires
        !marks.junk,
        marks.answer is None,
        !marks.legacy_answer,
        directory.clients.contains_key(address),
        directory.clients[address].state is Authenticated,
        marks.probe == UplinkProbe::V2(Some((token, size))) || marks.probe == UplinkProbe::Legacy(
            Some((id, size)),
        ),
    ensures
        ({
            let client = directory.clients[address];
            let (after, step) = datagram_step(directory, address, data_len, payload, marks, now);
            &&& step == DatagramStep::SendProbeAck(
                if marks.probe is V2 {
                    UdpRoamingPmtuAction::Ack(token, size)
                } else {
                    UdpRoamingPmtuAction::AckLegacy(id, size)
                },
                if client.quic_enabled {
                    UdpHeader::QuicShort(client.connection_id, client.packet_counter)
                } else {
                    UdpHeader::Bare
                },
            )
            &&& after.clients[address].packet_counter == (client.packet_counter + 1)
                % 0x1_0000_0000
            &&& after.clients[address] == (UdpClient {
                packet_counter: after.clients[address].packet_counter,
                ..client
            })
        }),
{
}

/// The answer to the pending probe of a session, from the peer that it went to, certifies its size
/// on the path that is still active; any other answer changes nothing of the budget.
pub proof fn law_answers_certify_their_probe(
    directory: DirectoryView,
    address: CarrierAddress,
    data_len: u64,
    payload: Seq<u8>,
    marks: PayloadMarks,
    token: u128,
    size: u16,
    now: u64,
)
    requires
        !marks.junk,
        marks.answer == Some(Some((token, size))),
        directory.clients.contains_key(address),
        directory.clients[address].egress is Some,
    ensures
        ({
            let client = directory.clients[address];
            let egress = client.egress->Some_0;
            let (after, step) = datagram_step(directory, address, data_len, payload, marks, now);
            let answers = client.probe matches Some(probe) && probe.token == token
                && probe.payload_size == size && probe.peer == address;
            let active = client.probe matches Some(probe) && probe.path_epoch
                == egress.current.path_epoch && probe.peer == egress.current.peer;
            &&& after.clients[address].egress is Some
            &&& answers && active && client.data_frag_enabled ==> step == DatagramStep::Certified(
                Some(egress.payload_budget),
            ) && after.clients[address].egress->Some_0.payload_budget
                == client.probe->Some_0.udp_payload_budget
            &&& !(answers && active && client.data_frag_enabled) ==> step
                == DatagramStep::Certified(None)
                && after.clients[address].egress->Some_0.payload_budget == egress.payload_budget
            &&& answers ==> after.clients[address].probe is None
            &&& !answers ==> after.clients[address].probe == client.probe
        }),
{
}

/// What decrypts is used: it authenticates a peer that still has to, and is forwarded for one that
/// has, packet by packet where its records bundle packets and as it is otherwise, or where it is
/// control. That keeps the session alive.
pub proof fn law_decrypted_content_is_used(
    directory: DirectoryView,
    address: CarrierAddress,
    direct_control: bool,
    empty: bool,
    lost: u64,
    readable: bool,
    identity: UdpIdentity,
    now: u64,
)
    requires
        directory.clients.contains_key(address),
    ensures
        ({
            let client = directory.clients[address];
            let (after, step) = plain_step(
                directory,
                address,
                PlainOutcome::Plain { direct_control, empty, lost, readable },
                now,
            );
            let known = client.state == UdpSessionState::Authenticated(identity);
            &&& client.state is AwaitingAuth ==> step is Authenticate
                && after.clients[address].last_activity == now
            &&& known && (!client.has_recordizer || direct_control) ==> step
                == PlainStep::ForwardPacket(identity.session_id)
                && after.clients[address].last_activity == now && after.clients[address].dropped
                == client.dropped
            &&& known && client.has_recordizer && !direct_control && (readable || empty) ==> step
                == PlainStep::ForwardBundle(identity.session_id)
                && after.clients[address].last_activity == now
            &&& known && client.has_recordizer && !direct_control && !readable && !empty ==> step
                is Drop && after.clients[address].last_activity == client.last_activity
            &&& known && client.has_recordizer && !direct_control && !empty
                ==> after.clients[address].dropped == (client.dropped + lost)
                % 0x1_0000_0000_0000_0000
            &&& after.clients.contains_key(address)
            &&& after.owners == directory.owners
        }),
{
}

/// A datagram is unmasked as its session was set up; only without a session do its looks decide.
pub proof fn law_sessions_decide_on_masking(
    directory: UdpSessionDirectory,
    address: CarrierAddress,
    looks_like_initial: bool,
    masked: bool,
)
    requires
        directory.valid(),
        call_ensures(expects_quic, (&directory, address, looks_like_initial), masked),
    ensures
        directory@.clients.contains_key(address) ==> masked
            == directory@.clients[address].quic_enabled,
        !directory@.clients.contains_key(address) ==> masked == looks_like_initial,
{
}

/// One authentication runs for a source at a time: a second one starts only once the first has
/// ended, and other sources do not matter.
pub proof fn law_one_authentication_runs(
    source: CarrierAddress,
    other: CarrierAddress,
    started: bool,
    fresh: AuthInFlight,
)
    requires
        call_ensures(AuthInFlight::new, (), fresh),
    ensures
        !fresh@.contains(source),
        forall|running: &mut AuthInFlight| #[trigger]
            call_ensures(AuthInFlight::begin, (running, source), started) ==> {
                &&& started <==> !running@.contains(source)
                &&& final(running)@.contains(source)
                &&& other != source ==> final(running)@.contains(other) == running@.contains(other)
            },
        forall|running: &mut AuthInFlight| #[trigger]
            call_ensures(AuthInFlight::end, (running, source), ()) ==> {
                &&& !final(running)@.contains(source)
                &&& other != source ==> final(running)@.contains(other) == running@.contains(other)
            },
{
}

} // verus!
