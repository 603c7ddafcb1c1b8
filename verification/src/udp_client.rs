//! What a UDP worker keeps of one peer, and what a datagram does to it.
//!
//! A connectionless listener cannot trust a source address: until a peer has authenticated,
//! whatever is sent to it stays within three times what came from it. Times are nanoseconds on
//! the caller's monotonic clock.

use crate::budget_math::{
    after, next_number, saturating_add, saturating_mul, sum_saturating, times_saturating,
};
use crate::cidr::IpAddress;
use crate::text::{append_bytes, same_bytes};
use crate::udp_budget::DownlinkMtuProbe;
use crate::udp_egress::{UdpActiveEgress, UdpEgressFraming, UdpEgressSnapshot, UdpHeader};
use crate::udp_handshake_wire::{reserve_packet_numbers, reserved, UDP_SESSION_FIRST_PN};
use vstd::prelude::*;

verus! {

/// The smallest first message that is answered.
pub const MIN_UDP_INITIAL: usize = 1200;

/// How many times one session may have its AuthOK sent again.
pub const MAX_AUTH_OK_REEMITS: u8 = 5;

/// A peer that sent something within this time is not idle.
pub const COVER_IDLE_THRESHOLD: u64 = 50_000_000;

/// Who a session belongs to.
#[derive(Debug)]
pub struct UdpIdentity {
    pub session_id: u64,
    /// Names the pool lease and the session of one device.
    pub device_key: String,
    pub client_ip: IpAddress,
}

#[derive(Debug)]
pub enum UdpSessionState {
    AwaitingAuth,
    Authenticated(UdpIdentity),
}

/// The entry of a session in the roaming registry.
#[derive(Debug, Clone, Copy, PartialEq, Eq, Structural)]
pub struct RoamingRegistration {
    pub session_id: u64,
    pub session_generation: u64,
}

pub struct UdpClient {
    pub state: UdpSessionState,
    pub registration: Option<RoamingRegistration>,
    /// The path candidate that was challenged last. It stays after a commit, so that a repeated
    /// response gets the same answer.
    pub candidate: Option<u64>,
    pub data_frag_enabled: bool,
    pub has_recordizer: bool,
    pub last_activity: u64,
    pub created_at: u64,
    pub dropped: u64,
    pub connection_id: [u8; 4],
    pub quic_enabled: bool,
    pub packet_counter: u32,
    pub egress: Option<UdpActiveEgress>,
    pub probe: Option<DownlinkMtuProbe>,
    /// When the next cover packet or beacon is due.
    pub next_cover_at: u64,
    /// The ServerHello, kept until authentication for a peer that lost it.
    pub server_hello: Vec<u8>,
    pub hello_frag_mode: bool,
    /// The authentication request and its answer, kept for a peer that lost the answer.
    pub auth_request: Vec<u8>,
    pub auth_ok: Vec<Vec<u8>>,
    /// Raised by a kick, a quota cut-off or a newer session of the device.
    pub revoked: bool,
    pub amp_received: u64,
    pub amp_sent: u64,
    pub auth_ok_reemits: u8,
    /// Whether the AuthOK has reached the socket. Nothing may precede it.
    pub auth_ok_sent: bool,
}

impl UdpClient {
    /// The session that the peer authenticated for.
    pub open spec fn session_id(&self) -> Option<u64> {
        match self.state {
            UdpSessionState::Authenticated(identity) => Some(identity.session_id),
            UdpSessionState::AwaitingAuth => None,
        }
    }

    pub fn authenticated_session_id(&self) -> (session_id: Option<u64>)
        ensures
            session_id == self.session_id(),
    {
        match &self.state {
            UdpSessionState::Authenticated(identity) => Some(identity.session_id),
            UdpSessionState::AwaitingAuth => None,
        }
    }

    /// The registry entry of the session that the peer authenticated for.
    pub open spec fn identity(&self) -> Option<RoamingRegistration> {
        match (self.session_id(), self.registration) {
            (Some(session_id), Some(registration)) => if registration.session_id == session_id {
                Some(registration)
            } else {
                None
            },
            _ => None,
        }
    }

    pub fn roaming_identity(&self) -> (identity: Option<RoamingRegistration>)
        ensures
            identity == self.identity(),
    {
        let session_id: u64 = match self.authenticated_session_id() {
            Some(session_id) => session_id,
            None => {
                return None;
            },
        };
        match self.registration {
            Some(registration) => if registration.session_id == session_id {
                Some(registration)
            } else {
                None
            },
            None => None,
        }
    }

    pub fn roaming_enabled(&self) -> (enabled: bool)
        ensures
            enabled == (self.identity() is Some),
    {
        self.roaming_identity().is_some()
    }

    /// Whether cover and beacons may be sent: only after the AuthOK.
    pub open spec fn may_send(&self) -> bool {
        self.state is Authenticated && self.auth_ok_sent
    }

    pub fn accepts_traffic(&self) -> (accepts: bool)
        ensures
            accepts == self.may_send(),
    {
        match &self.state {
            UdpSessionState::Authenticated(_) => self.auth_ok_sent,
            UdpSessionState::AwaitingAuth => false,
        }
    }

    /// What has been sent to a peer that did not authenticate stays within three times what came
    /// from it.
    pub open spec fn within_budget(&self) -> bool {
        self.amp_sent <= times_saturating(self.amp_received, 3)
    }

    /// The header of the next data packet on a path. A path that numbers no packets takes no
    /// number.
    pub fn next_header(&mut self, path: &UdpEgressSnapshot) -> (header: UdpHeader)
        ensures
            header == path.framing.header_of(old(self).packet_counter),
            *final(self) == if path.framing is Unmasked {
                *old(self)
            } else {
                UdpClient { packet_counter: next_number(old(self).packet_counter), ..*old(self) }
            },
    {
        let header = path.framing.header(self.packet_counter);
        if path.framing.uses_packet_number() {
            self.take_packet_number();
        }
        header
    }

    /// Takes the next packet number.
    pub fn take_packet_number(&mut self) -> (packet_number: u32)
        ensures
            packet_number == old(self).packet_counter,
            *final(self) == (UdpClient {
                packet_counter: next_number(old(self).packet_counter),
                ..*old(self)
            }),
    {
        let packet_number: u32 = self.packet_counter;
        self.packet_counter = after(packet_number);
        packet_number
    }
}

/// The records of a handshake response.
#[derive(Debug)]
pub struct HandshakeRecords {
    pub server_hello: Vec<u8>,
    pub ccs: Vec<u8>,
    pub cert: Vec<u8>,
    pub finished: Vec<u8>,
    pub nst: Vec<u8>,
    pub auth_proof: Vec<u8>,
}

/// The records one after the other.
pub open spec fn response_bytes(records: HandshakeRecords) -> Seq<u8> {
    records.server_hello@ + records.ccs@ + records.cert@ + records.finished@ + records.nst@
        + records.auth_proof@
}

#[derive(Debug, Clone, Copy, PartialEq, Eq, Structural)]
pub enum NewClientError {
    InitialTooSmall,
    ResponseTooLarge,
}

/// Refuses a first message that is too small to be answered, before any work is spent on it.
pub fn check_initial(initial_len: usize) -> (result: Result<(), NewClientError>)
    ensures
        result == if initial_len < MIN_UDP_INITIAL {
            Err::<(), NewClientError>(NewClientError::InitialTooSmall)
        } else {
            Ok(())
        },
{
    if initial_len < MIN_UDP_INITIAL {
        return Err(NewClientError::InitialTooSmall);
    }
    Ok(())
}

fn handshake_response(records: &HandshakeRecords) -> (response: Vec<u8>)
    ensures
        response@ == response_bytes(*records),
{
    let mut response: Vec<u8> = Vec::new();
    append_bytes(&mut response, records.server_hello.as_slice());
    assert(response@ =~= records.server_hello@);
    append_bytes(&mut response, records.ccs.as_slice());
    append_bytes(&mut response, records.cert.as_slice());
    append_bytes(&mut response, records.finished.as_slice());
    append_bytes(&mut response, records.nst.as_slice());
    append_bytes(&mut response, records.auth_proof.as_slice());
    response
}

/// A peer that has just been answered: half open, with the exchange on its account.
pub open spec fn fresh_client(
    client: UdpClient,
    initial_len: int,
    response: Seq<u8>,
    quic_detected: bool,
    connection_id: [u8; 4],
    frag_mode: bool,
    now: u64,
    next_cover_at: u64,
) -> bool {
    &&& client.state is AwaitingAuth
    &&& client.registration is None && client.candidate is None
    &&& !client.data_frag_enabled && !client.has_recordizer
    &&& client.last_activity == now && client.created_at == now && client.dropped == 0
    &&& client.connection_id == if quic_detected {
        connection_id
    } else {
        [0u8, 0u8, 0u8, 0u8]
    }
    &&& client.quic_enabled == quic_detected
    &&& client.packet_counter == UDP_SESSION_FIRST_PN
    &&& client.egress is None && client.probe is None
    &&& client.next_cover_at == next_cover_at
    &&& client.server_hello@ == response && client.hello_frag_mode == frag_mode
    &&& client.auth_request@.len() == 0 && client.auth_ok@.len() == 0
    &&& !client.revoked
    &&& client.amp_received == initial_len && client.amp_sent == response.len()
    &&& client.auth_ok_reemits == 0 && !client.auth_ok_sent
}

/// Answers a first message of `initial_len` bytes. The answer is refused where it would be more
/// than three times as large. `next_cover_at` is now where cover traffic is on, else the first
/// beacon.
pub fn accept_new_client(
    initial_len: usize,
    records: &HandshakeRecords,
    quic_detected: bool,
    connection_id: [u8; 4],
    frag_mode: bool,
    now: u64,
    next_cover_at: u64,
) -> (result: Result<UdpClient, NewClientError>)
    ensures
        ({
            let response = response_bytes(*records);
            match result {
                Ok(client) => {
                    &&& MIN_UDP_INITIAL <= initial_len
                    &&& response.len() <= 3 * initial_len
                    &&& client.within_budget()
                    &&& fresh_client(
                        client,
                        initial_len as int,
                        response,
                        quic_detected,
                        connection_id,
                        frag_mode,
                        now,
                        next_cover_at,
                    )
                },
                Err(NewClientError::InitialTooSmall) => initial_len < MIN_UDP_INITIAL,
                Err(NewClientError::ResponseTooLarge) => initial_len >= MIN_UDP_INITIAL
                    && response.len() > 3 * initial_len,
            }
        }),
{
    if let Err(error) = check_initial(initial_len) {
        return Err(error);
    }
    let response = handshake_response(records);
    if response.len() as u128 > 3 * initial_len as u128 {
        return Err(NewClientError::ResponseTooLarge);
    }
    let sent: u64 = response.len() as u64;
    let none: [u8; 4] = [0, 0, 0, 0];
    Ok(
        UdpClient {
            state: UdpSessionState::AwaitingAuth,
            registration: None,
            candidate: None,
            data_frag_enabled: false,
            has_recordizer: false,
            last_activity: now,
            created_at: now,
            dropped: 0,
            connection_id: if quic_detected {
                connection_id
            } else {
                none
            },
            quic_enabled: quic_detected,
            packet_counter: UDP_SESSION_FIRST_PN,
            egress: None,
            probe: None,
            next_cover_at,
            server_hello: response,
            hello_frag_mode: frag_mode,
            auth_request: Vec::new(),
            auth_ok: Vec::new(),
            revoked: false,
            amp_received: initial_len as u64,
            amp_sent: sent,
            auth_ok_reemits: 0,
            auth_ok_sent: false,
        },
    )
}

/// What a datagram from a known peer asks for, before anything is decrypted.
#[derive(Debug, Clone, Copy, PartialEq, Eq, Structural)]
pub enum ReceiveStep {
    /// The peer lost the ServerHello: send it again.
    ReemitHello,
    /// The peer lost the answer to its authentication: send it again.
    ReemitAuth,
    /// The peer asks again beyond its allowance.
    Suppress,
    /// Forget the peer.
    Forget,
    Process,
}

/// The lengths of datagrams added up, the first `end` of them.
pub open spec fn total_len(datagrams: Seq<Vec<u8>>, end: int) -> u64
    decreases end,
{
    if end <= 0 {
        0
    } else {
        sum_saturating(total_len(datagrams, end - 1), datagrams[end - 1]@.len() as u64)
    }
}

pub fn datagrams_len(datagrams: &Vec<Vec<u8>>) -> (total: u64)
    ensures
        total == total_len(datagrams@, datagrams@.len() as int),
{
    let mut total: u64 = 0;
    let mut i: usize = 0;
    while i < datagrams.len()
        invariant
            i <= datagrams@.len(),
            total == total_len(datagrams@, i as int),
        decreases datagrams@.len() - i,
    {
        total = saturating_add(total, datagrams[i].len() as u64);
        i += 1;
    }
    total
}

/// The peer after a datagram, and what it asks for. A repeated request is answered from memory:
/// the ServerHello within the byte budget, since its source is not verified; the answer to an
/// authentication a few times, since that budget would deny it exactly where it is large. Only
/// an answer that goes out counts as activity.
pub open spec fn received(
    client: UdpClient,
    data_len: u64,
    payload: Seq<u8>,
    is_fragment: bool,
    now: u64,
) -> (UdpClient, ReceiveStep) {
    let counted = UdpClient {
        amp_received: sum_saturating(client.amp_received, data_len),
        ..client
    };
    let answers_auth = client.auth_ok@.len() > 0 && payload == client.auth_request@;
    if answers_auth {
        if client.auth_ok_reemits >= MAX_AUTH_OK_REEMITS {
            (counted, ReceiveStep::Suppress)
        } else {
            (
                UdpClient {
                    auth_ok_reemits: (client.auth_ok_reemits + 1) as u8,
                    last_activity: now,
                    amp_sent: sum_saturating(
                        client.amp_sent,
                        total_len(client.auth_ok@, client.auth_ok@.len() as int),
                    ),
                    ..counted
                },
                ReceiveStep::ReemitAuth,
            )
        }
    } else if client.state is AwaitingAuth && is_fragment {
        let after = sum_saturating(client.amp_sent, client.server_hello@.len() as u64);
        if after > times_saturating(counted.amp_received, 3) {
            (counted, ReceiveStep::Suppress)
        } else {
            (
                UdpClient { last_activity: now, amp_sent: after, ..counted },
                ReceiveStep::ReemitHello,
            )
        }
    } else if client.revoked {
        (counted, ReceiveStep::Forget)
    } else {
        (counted, ReceiveStep::Process)
    }
}

impl UdpClient {
    /// Takes a datagram of `data_len` bytes with a payload. `is_fragment` says that the payload
    /// is a piece of a handshake message.
    pub fn receive(&mut self, data_len: usize, payload: &[u8], is_fragment: bool, now: u64) -> (step:
        ReceiveStep)
        ensures
            (*final(self), step) == received(
                *old(self),
                data_len as u64,
                payload@,
                is_fragment,
                now,
            ),
    {
        self.amp_received = saturating_add(self.amp_received, data_len as u64);
        if self.auth_ok.len() > 0 && same_bytes(payload, self.auth_request.as_slice()) {
            if self.auth_ok_reemits >= MAX_AUTH_OK_REEMITS {
                return ReceiveStep::Suppress;
            }
            self.auth_ok_reemits = self.auth_ok_reemits + 1;
            self.last_activity = now;
            self.amp_sent = saturating_add(self.amp_sent, datagrams_len(&self.auth_ok));
            return ReceiveStep::ReemitAuth;
        }
        let waiting = match &self.state {
            UdpSessionState::AwaitingAuth => true,
            UdpSessionState::Authenticated(_) => false,
        };
        if waiting && is_fragment {
            let after: u64 = saturating_add(self.amp_sent, self.server_hello.len() as u64);
            if after > saturating_mul(self.amp_received, 3) {
                return ReceiveStep::Suppress;
            }
            self.last_activity = now;
            self.amp_sent = after;
            return ReceiveStep::ReemitHello;
        }
        if self.revoked {
            return ReceiveStep::Forget;
        }
        ReceiveStep::Process
    }
}

/// A peer that has not been answered yet on its authentication never gets more than three times
/// what came from it, however often it asks again.
pub proof fn law_amplification_is_bounded(
    client: UdpClient,
    data_len: u64,
    payload: Seq<u8>,
    is_fragment: bool,
    now: u64,
)
    requires
        client.within_budget(),
        client.auth_ok@.len() == 0,
    ensures
        ({
            let (after, _) = received(client, data_len, payload, is_fragment, now);
            after.within_budget() && after.auth_ok@.len() == 0
        }),
{
}

/// An answer to an authentication is repeated at most five times, and repeating the request
/// beyond that neither sends anything nor keeps the session alive.
pub proof fn law_replayed_request_is_bounded(
    client: UdpClient,
    data_len: u64,
    is_fragment: bool,
    now: u64,
)
    requires
        client.auth_ok@.len() > 0,
        client.auth_ok_reemits <= MAX_AUTH_OK_REEMITS,
    ensures
        ({
            let (after, step) = received(
                client,
                data_len,
                client.auth_request@,
                is_fragment,
                now,
            );
            &&& after.auth_ok_reemits <= MAX_AUTH_OK_REEMITS
            &&& step is ReemitAuth ==> after.auth_ok_reemits == client.auth_ok_reemits + 1
            &&& client.auth_ok_reemits == MAX_AUTH_OK_REEMITS ==> step is Suppress
                && after.last_activity == client.last_activity && after.amp_sent == client.amp_sent
        }),
{
}

/// Whether a session is over: a half-open one after the handshake timeout, an authenticated one
/// after the reap window without activity, if there is one.
pub open spec fn is_expired(
    client: UdpClient,
    now: u64,
    handshake_timeout: u64,
    reap_after: Option<u64>,
) -> bool {
    match client.state {
        UdpSessionState::AwaitingAuth => now - client.created_at > handshake_timeout,
        UdpSessionState::Authenticated(_) => match reap_after {
            Some(limit) => now - client.last_activity > limit,
            None => false,
        },
    }
}

/// What a maintenance tick does for a peer.
#[derive(Debug, Clone, Copy, PartialEq, Eq, Structural)]
pub enum TickStep {
    Nothing,
    /// Send a packet without payload.
    Send,
}

impl UdpClient {
    pub fn expired(&self, now: u64, handshake_timeout: u64, reap_after: Option<u64>) -> (expired: bool)
        ensures
            expired == is_expired(*self, now, handshake_timeout, reap_after),
    {
        match &self.state {
            UdpSessionState::AwaitingAuth => now > self.created_at && now - self.created_at
                > handshake_timeout,
            UdpSessionState::Authenticated(_) => match reap_after {
                Some(limit) => now > self.last_activity && now - self.last_activity > limit,
                None => false,
            },
        }
    }

    /// Cover traffic: due by its schedule, which moves on by `gap`, and only into an idle peer
    /// unless `stealth` asks for it under load.
    pub fn cover_tick(&mut self, now: u64, gap: u64, stealth: bool) -> (step: TickStep)
        ensures
            ({
                let due = old(self).may_send() && now >= old(self).next_cover_at;
                let idle = now - old(self).last_activity >= COVER_IDLE_THRESHOLD;
                &&& step == if due && (stealth || idle) {
                    TickStep::Send
                } else {
                    TickStep::Nothing
                }
                &&& *final(self) == if due {
                    UdpClient { next_cover_at: sum_saturating(now, gap), ..*old(self) }
                } else {
                    *old(self)
                }
            }),
    {
        if !self.accepts_traffic() || now < self.next_cover_at {
            return TickStep::Nothing;
        }
        self.next_cover_at = saturating_add(now, gap);
        let idle = now >= self.last_activity && now - self.last_activity >= COVER_IDLE_THRESHOLD;
        if !stealth && !idle {
            return TickStep::Nothing;
        }
        TickStep::Send
    }

    /// Beacons: due by their schedule, which moves on by `delay`, whatever the peer sends itself;
    /// a peer that is idle beyond the timeout gets none.
    pub fn beacon_tick(&mut self, now: u64, delay: u64, idle_timeout: u64) -> (step: TickStep)
        ensures
            ({
                let idle = idle_timeout >= 1_000_000_000 && now - old(self).last_activity
                    > idle_timeout;
                let due = old(self).may_send() && !idle && now >= old(self).next_cover_at;
                &&& step == if due {
                    TickStep::Send
                } else {
                    TickStep::Nothing
                }
                &&& *final(self) == if due {
                    UdpClient { next_cover_at: sum_saturating(now, delay), ..*old(self) }
                } else {
                    *old(self)
                }
            }),
    {
        if !self.accepts_traffic() {
            return TickStep::Nothing;
        }
        if idle_timeout >= 1_000_000_000 && now > self.last_activity && now - self.last_activity
            > idle_timeout {
            return TickStep::Nothing;
        }
        if now < self.next_cover_at {
            return TickStep::Nothing;
        }
        self.next_cover_at = saturating_add(now, delay);
        TickStep::Send
    }

    /// Keeps the refusal of an authentication: the request is answered with it from now on.
    pub fn refuse_auth(&mut self, request: Vec<u8>, packets: Vec<Vec<u8>>)
        requires
            packets@.len() <= 0xffff,
        ensures
            final(self).auth_request == request,
            final(self).auth_ok == packets,
            final(self).server_hello@.len() == 0,
            *final(self) == (UdpClient {
                auth_request: request,
                auth_ok: packets,
                server_hello: final(self).server_hello,
                hello_frag_mode: false,
                packet_counter: reserved(old(self).packet_counter, packets@.len() as int) as u32,
                amp_sent: sum_saturating(
                    old(self).amp_sent,
                    total_len(packets@, packets@.len() as int),
                ),
                ..*old(self)
            }),
    {
        self.packet_counter = reserve_packet_numbers(self.packet_counter, packets.len());
        self.amp_sent = saturating_add(self.amp_sent, datagrams_len(&packets));
        self.auth_request = request;
        self.auth_ok = packets;
        self.server_hello = Vec::new();
        self.hello_frag_mode = false;
    }
}

/// What a successful authentication settles for a session.
pub struct AuthOutcome {
    pub identity: UdpIdentity,
    pub registration: Option<RoamingRegistration>,
    pub data_frag_enabled: bool,
    pub has_recordizer: bool,
    pub egress: UdpActiveEgress,
    pub request: Vec<u8>,
    pub packets: Vec<Vec<u8>>,
}

impl UdpClient {
    /// Makes the peer an authenticated session. The AuthOK is kept, not sent: it goes out once
    /// the session is admitted.
    pub fn authenticate(&mut self, outcome: AuthOutcome)
        requires
            outcome.packets@.len() <= 0xffff,
        ensures
            final(self).server_hello@.len() == 0,
            *final(self) == (UdpClient {
                state: UdpSessionState::Authenticated(outcome.identity),
                registration: outcome.registration,
                data_frag_enabled: outcome.data_frag_enabled,
                has_recordizer: outcome.has_recordizer,
                egress: Some(outcome.egress),
                auth_request: outcome.request,
                auth_ok: outcome.packets,
                server_hello: final(self).server_hello,
                hello_frag_mode: false,
                packet_counter: reserved(
                    old(self).packet_counter,
                    outcome.packets@.len() as int,
                ) as u32,
                revoked: false,
                dropped: 0,
                ..*old(self)
            }),
    {
        self.packet_counter = reserve_packet_numbers(self.packet_counter, outcome.packets.len());
        self.state = UdpSessionState::Authenticated(outcome.identity);
        self.registration = outcome.registration;
        self.data_frag_enabled = outcome.data_frag_enabled;
        self.has_recordizer = outcome.has_recordizer;
        self.egress = Some(outcome.egress);
        self.auth_request = outcome.request;
        self.auth_ok = outcome.packets;
        self.server_hello = Vec::new();
        self.hello_frag_mode = false;
        self.revoked = false;
        self.dropped = 0;
    }

    /// Charges the AuthOK that is about to be sent.
    pub fn charge_auth_ok(&mut self)
        ensures
            *final(self) == (UdpClient {
                amp_sent: sum_saturating(
                    old(self).amp_sent,
                    total_len(old(self).auth_ok@, old(self).auth_ok@.len() as int),
                ),
                ..*old(self)
            }),
    {
        self.amp_sent = saturating_add(self.amp_sent, datagrams_len(&self.auth_ok));
    }

    /// The AuthOK is on the wire: other traffic may follow.
    pub fn note_auth_ok_sent(&mut self)
        ensures
            *final(self) == (UdpClient { auth_ok_sent: true, ..*old(self) }),
    {
        self.auth_ok_sent = true;
    }
}

/// What has authenticated is named by its session, and by its registry entry where that is the
/// entry of the same session; what has not is named by neither.
pub proof fn law_sessions_are_named_by_their_identity(
    client: UdpClient,
    identity: UdpIdentity,
    registration: RoamingRegistration,
)
    ensures
        client.state is AwaitingAuth ==> client.session_id() is None && client.identity() is None
            && !client.may_send(),
        client.state == UdpSessionState::Authenticated(identity) ==> client.session_id() == Some(
            identity.session_id,
        ) && client.may_send() == client.auth_ok_sent,
        client.state == UdpSessionState::Authenticated(identity) && client.registration == Some(
            registration,
        ) ==> client.identity() == if registration.session_id == identity.session_id {
            Some(registration)
        } else {
            None
        },
        client.registration is None ==> client.identity() is None,
{
}

/// An authenticated peer that is not revoked has every datagram of its own looked into, unless it
/// repeats its authentication request; so has a peer that still has to authenticate, unless it
/// repeats its handshake. Nothing of the session changes but the count of what came from it.
pub proof fn law_ordinary_datagrams_are_processed(
    client: UdpClient,
    data_len: u64,
    payload: Seq<u8>,
    is_fragment: bool,
    now: u64,
)
    requires
        client.auth_ok@.len() == 0 || payload != client.auth_request@,
        client.state is Authenticated || !is_fragment,
    ensures
        ({
            let (after, step) = received(client, data_len, payload, is_fragment, now);
            &&& !client.revoked ==> step is Process
            &&& client.revoked ==> step is Forget
            &&& after == (UdpClient { amp_received: after.amp_received, ..client })
            &&& client.amp_received + data_len <= u64::MAX ==> after.amp_received
                == client.amp_received + data_len
            &&& client.amp_received + data_len > u64::MAX ==> after.amp_received == u64::MAX
        }),
{
}

/// The lengths of datagrams are added up one by one; a sum that does not fit stays at the limit.
pub proof fn law_lengths_add_up(datagrams: Seq<Vec<u8>>, next: Vec<u8>)
    requires
        next@.len() <= u64::MAX,
    ensures
        total_len(Seq::empty(), 0) == 0,
        ({
            let before = total_len(datagrams, datagrams.len() as int);
            let all = total_len(datagrams.push(next), datagrams.len() as int + 1);
            &&& before + next@.len() <= u64::MAX ==> all == before + next@.len()
            &&& before + next@.len() > u64::MAX ==> all == u64::MAX
        }),
{
    lemma_total_of_prefix(datagrams, datagrams.push(next), datagrams.len() as int);
}

proof fn lemma_total_of_prefix(left: Seq<Vec<u8>>, right: Seq<Vec<u8>>, end: int)
    requires
        0 <= end <= left.len(),
        end <= right.len(),
        forall|i: int| 0 <= i < end ==> left[i] == right[i],
    ensures
        total_len(left, end) == total_len(right, end),
    decreases end,
{
    if end > 0 {
        lemma_total_of_prefix(left, right, end - 1);
    }
}

/// A peer that repeats its authentication request gets the same answer again, up to five times:
/// that keeps it alive, and what is sent is charged to it.
pub proof fn law_lost_answers_are_repeated(
    client: UdpClient,
    data_len: u64,
    is_fragment: bool,
    now: u64,
)
    requires
        client.auth_ok@.len() > 0,
        client.auth_ok_reemits < 5,
    ensures
        ({
            let (after, step) = received(
                client,
                data_len,
                client.auth_request@,
                is_fragment,
                now,
            );
            let sent = total_len(client.auth_ok@, client.auth_ok@.len() as int);
            &&& step is ReemitAuth
            &&& after.last_activity == now
            &&& after.auth_ok_reemits == client.auth_ok_reemits + 1
            &&& client.amp_sent + sent <= u64::MAX ==> after.amp_sent == client.amp_sent + sent
            &&& after.auth_ok == client.auth_ok && after.auth_request == client.auth_request
            &&& after.state == client.state
        }),
{
}

/// A peer that repeats its handshake gets the same hello again exactly as long as all that was sent
/// to it, this answer too, is no more than three times what came from it.
pub proof fn law_lost_hellos_are_repeated(
    client: UdpClient,
    data_len: u64,
    payload: Seq<u8>,
    now: u64,
)
    requires
        client.state is AwaitingAuth,
        client.auth_ok@.len() == 0 || payload != client.auth_request@,
        3 * (client.amp_received + data_len) <= u64::MAX,
        client.server_hello@.len() <= u64::MAX,
        client.amp_sent + client.server_hello@.len() <= u64::MAX,
    ensures
        ({
            let (after, step) = received(client, data_len, payload, true, now);
            let sent = client.amp_sent + client.server_hello@.len();
            &&& after.amp_received == client.amp_received + data_len
            &&& sent <= 3 * (client.amp_received + data_len) ==> step is ReemitHello
                && after.amp_sent == sent && after.last_activity == now
            &&& sent > 3 * (client.amp_received + data_len) ==> step is Suppress && after.amp_sent
                == client.amp_sent && after.last_activity == client.last_activity
        }),
{
}

/// The limit on what may be sent to a peer that is not verified is three times what came from it.
pub proof fn law_budget_is_threefold(client: UdpClient)
    requires
        3 * client.amp_received <= u64::MAX,
    ensures
        client.within_budget() <==> client.amp_sent <= 3 * client.amp_received,
{
}

/// A half-open session is over once it is older than the handshake may take; an authenticated one
/// once it was silent for longer than the window, where there is one.
pub proof fn law_sessions_expire(
    client: UdpClient,
    now: u64,
    handshake_timeout: u64,
    limit: u64,
)
    ensures
        client.state is AwaitingAuth ==> (is_expired(client, now, handshake_timeout, Some(limit))
            <==> now > client.created_at + handshake_timeout) && (is_expired(
            client,
            now,
            handshake_timeout,
            None,
        ) <==> now > client.created_at + handshake_timeout),
        client.state is Authenticated ==> (is_expired(client, now, handshake_timeout, Some(limit))
            <==> now > client.last_activity + limit) && !is_expired(
            client,
            now,
            handshake_timeout,
            None,
        ),
{
}

/// A new peer starts half open and unverified, at the second packet number, with its hello and what
/// was exchanged on its account; the hello is the records of the handshake in their order.
pub proof fn law_new_peers_start_half_open(
    client: UdpClient,
    initial_len: int,
    records: HandshakeRecords,
    quic_detected: bool,
    connection_id: [u8; 4],
    frag_mode: bool,
    now: u64,
    next_cover_at: u64,
)
    requires
        fresh_client(
            client,
            initial_len,
            response_bytes(records),
            quic_detected,
            connection_id,
            frag_mode,
            now,
            next_cover_at,
        ),
    ensures
        client.state is AwaitingAuth,
        !client.auth_ok_sent && !client.revoked,
        client.auth_ok@.len() == 0 && client.auth_ok_reemits == 0,
        client.packet_counter == 2,
        client.quic_enabled == quic_detected,
        quic_detected ==> client.connection_id == connection_id,
        client.created_at == now && client.last_activity == now,
        client.next_cover_at == next_cover_at,
        client.hello_frag_mode == frag_mode,
        client.egress is None && client.registration is None && client.probe is None,
        client.amp_received == initial_len,
        client.amp_sent == client.server_hello@.len(),
        client.server_hello@.len() == records.server_hello@.len() + records.ccs@.len()
            + records.cert@.len() + records.finished@.len() + records.nst@.len()
            + records.auth_proof@.len(),
        ({
            let hello = client.server_hello@;
            let one = records.server_hello@.len() as int;
            let two = one + records.ccs@.len();
            let three = two + records.cert@.len();
            let four = three + records.finished@.len();
            let five = four + records.nst@.len();
            &&& hello.subrange(0, one) == records.server_hello@
            &&& hello.subrange(one, two) == records.ccs@
            &&& hello.subrange(two, three) == records.cert@
            &&& hello.subrange(three, four) == records.finished@
            &&& hello.subrange(four, five) == records.nst@
            &&& hello.skip(five) == records.auth_proof@
        }),
{
    let hello = client.server_hello@;
    let one = records.server_hello@.len() as int;
    let two = one + records.ccs@.len();
    let three = two + records.cert@.len();
    let four = three + records.finished@.len();
    let five = four + records.nst@.len();
    assert(hello.subrange(0, one) =~= records.server_hello@);
    assert(hello.subrange(one, two) =~= records.ccs@);
    assert(hello.subrange(two, three) =~= records.cert@);
    assert(hello.subrange(three, four) =~= records.finished@);
    assert(hello.subrange(four, five) =~= records.nst@);
    assert(hello.skip(five) =~= records.auth_proof@);
}

/// A peer is taken on when its first datagram has 1200 bytes and the answer is at most three times
/// as long; a shorter one is refused before anything else is looked at.
pub proof fn law_peers_are_taken_on(
    initial_len: usize,
    records: HandshakeRecords,
    quic_detected: bool,
    connection_id: [u8; 4],
    frag_mode: bool,
    now: u64,
    next_cover_at: u64,
    result: Result<UdpClient, NewClientError>,
    checked: Result<(), NewClientError>,
)
    requires
        call_ensures(
            accept_new_client,
            (initial_len, &records, quic_detected, connection_id, frag_mode, now, next_cover_at),
            result,
        ),
        call_ensures(check_initial, (initial_len,), checked),
    ensures
        checked is Ok <==> initial_len >= 1200,
        result is Ok <==> initial_len >= 1200 && response_bytes(records).len() <= 3 * initial_len,
        initial_len < 1200 ==> result == Err::<UdpClient, NewClientError>(
            NewClientError::InitialTooSmall,
        ) && checked == Err::<(), NewClientError>(NewClientError::InitialTooSmall),
        initial_len >= 1200 && result is Err ==> result->Err_0 is ResponseTooLarge,
{
}

/// Cover goes out to an authenticated session when its time has come, in stealth always and else
/// once nothing was heard for 50 milliseconds; the next time is set whether or not it goes out.
pub proof fn law_cover_goes_out_in_time(now: u64, gap: u64, stealth: bool, step: TickStep)
    ensures
        forall|client: &mut UdpClient| #[trigger]
            call_ensures(UdpClient::cover_tick, (client, now, gap, stealth), step) ==> {
                let due = client.state is Authenticated && client.auth_ok_sent && now
                    >= client.next_cover_at;
                let quiet = now - client.last_activity >= 50_000_000;
                let after = *final(client);
                &&& step is Send <==> due && (stealth || quiet)
                &&& due && now + gap <= u64::MAX ==> after.next_cover_at == now + gap
                &&& due && now + gap > u64::MAX ==> after.next_cover_at == u64::MAX
                &&& after == (UdpClient { next_cover_at: after.next_cover_at, ..*client })
                &&& !due ==> after == *client
            },
{
}

/// A beacon goes out to an authenticated session when its time has come, unless the session has
/// been silent beyond an idle timeout of a second or more; then it is left to be reaped.
pub proof fn law_beacons_go_out_in_time(now: u64, delay: u64, idle_timeout: u64, step: TickStep)
    ensures
        forall|client: &mut UdpClient| #[trigger]
            call_ensures(UdpClient::beacon_tick, (client, now, delay, idle_timeout), step) ==> {
                let idle = idle_timeout >= 1_000_000_000 && now - client.last_activity
                    > idle_timeout;
                let due = client.state is Authenticated && client.auth_ok_sent && now
                    >= client.next_cover_at && !idle;
                let after = *final(client);
                &&& step is Send <==> due
                &&& due && now + delay <= u64::MAX ==> after.next_cover_at == now + delay
                &&& due && now + delay > u64::MAX ==> after.next_cover_at == u64::MAX
                &&& after == (UdpClient { next_cover_at: after.next_cover_at, ..*client })
                &&& !due ==> after == *client
            },
{
}

/// Packet numbers are handed out one after the other, and only to packets that carry one.
pub proof fn law_packet_numbers_are_handed_out(
    path: UdpEgressSnapshot,
    header: UdpHeader,
    number: u32,
)
    ensures
        forall|client: &mut UdpClient| #[trigger]
            call_ensures(UdpClient::take_packet_number, (client,), number) ==> number
                == client.packet_counter && final(client).packet_counter == (number + 1)
                % 0x1_0000_0000 && *final(client) == (UdpClient {
                packet_counter: final(client).packet_counter,
                ..*client
            }),
        forall|client: &mut UdpClient| #[trigger]
            call_ensures(UdpClient::next_header, (client, &path), header) ==> {
                let used = client.packet_counter;
                &&& path.framing is Unmasked ==> header is Bare && *final(client) == *client
                &&& path.framing matches UdpEgressFraming::LegacyQuic(id) ==> header
                    == UdpHeader::QuicShort(id, used)
                &&& path.framing matches UdpEgressFraming::RoamingCid(cid) ==> header
                    == UdpHeader::RoamingShort(cid, used)
                &&& !(path.framing is Unmasked) ==> final(client).packet_counter == (used + 1)
                    % 0x1_0000_0000
            },
{
}

/// Traffic is for authenticated sessions that were told so, and roaming for those that have a
/// roaming identity.
pub proof fn law_sessions_say_what_they_take(
    client: UdpClient,
    accepts: bool,
    enabled: bool,
    identity: Option<RoamingRegistration>,
)
    requires
        call_ensures(UdpClient::accepts_traffic, (&client,), accepts),
        call_ensures(UdpClient::roaming_enabled, (&client,), enabled),
        call_ensures(UdpClient::roaming_identity, (&client,), identity),
    ensures
        accepts <==> client.state is Authenticated && client.auth_ok_sent,
        enabled <==> identity is Some,
{
}

/// A refused request is answered with the refusal, which counts against what the peer may be sent;
/// the hello is no longer repeated, and the session stays unauthenticated.
pub proof fn law_refusals_are_kept(request: Vec<u8>, packets: Vec<Vec<u8>>)
    ensures
        forall|client: &mut UdpClient| #[trigger]
            call_ensures(UdpClient::refuse_auth, (client, request, packets), ())
                && packets@.len() <= 0xffff ==> {
                let after = *final(client);
                let owed = client.amp_sent + total_len(packets@, packets@.len() as int);
                &&& after.state == client.state
                &&& after.auth_request == request && after.auth_ok == packets
                &&& after.server_hello@.len() == 0 && !after.hello_frag_mode
                &&& owed <= u64::MAX ==> after.amp_sent == owed
                &&& after.auth_ok_sent == client.auth_ok_sent
            },
{
}

/// An accepted request authenticates the session as what it was granted; the grant is kept to be
/// repeated, and counts only once it is charged and once it was sent.
pub proof fn law_grants_are_kept(outcome: AuthOutcome)
    ensures
        forall|client: &mut UdpClient| #[trigger]
            call_ensures(UdpClient::authenticate, (client, outcome), ()) && outcome.packets@.len()
                <= 0xffff ==> {
                let after = *final(client);
                &&& after.state == UdpSessionState::Authenticated(outcome.identity)
                &&& after.egress == Some(outcome.egress)
                &&& after.registration == outcome.registration
                &&& after.auth_request == outcome.request && after.auth_ok == outcome.packets
                &&& after.data_frag_enabled == outcome.data_frag_enabled
                &&& after.has_recordizer == outcome.has_recordizer
                &&& after.server_hello@.len() == 0
                &&& !after.revoked && after.dropped == 0
                &&& after.amp_sent == client.amp_sent && after.auth_ok_sent == client.auth_ok_sent
                &&& after.last_activity == client.last_activity
            },
        forall|client: &mut UdpClient| #[trigger]
            call_ensures(UdpClient::charge_auth_ok, (client,), ()) && client.amp_sent + total_len(
                client.auth_ok@,
                client.auth_ok@.len() as int,
            ) <= u64::MAX ==> final(client).amp_sent == client.amp_sent + total_len(
                client.auth_ok@,
                client.auth_ok@.len() as int,
            ),
        forall|client: &mut UdpClient| #[trigger]
            call_ensures(UdpClient::note_auth_ok_sent, (client,), ())
                ==> final(client).auth_ok_sent && final(client).state == client.state,
{
}

} // verus!
