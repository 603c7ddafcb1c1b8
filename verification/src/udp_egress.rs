//! The publication point of server-to-client UDP traffic.
//!
//! The data writer takes a snapshot per record. A path commit replaces address, socket, framing
//! and payload budget in one step; everything else of the session stays. The owner keeps the
//! value behind a lock; every operation here is one step under it. Times are nanoseconds on the
//! caller's monotonic clock.

use crate::carrier::CarrierAddress;
use vstd::prelude::*;

verus! {

/// Outer UDP payload that every IPv4 path carries.
pub const SAFE_IPV4_PAYLOAD: usize = 548;

/// Outer UDP payload that every IPv6 path carries.
pub const SAFE_IPV6_PAYLOAD: usize = 1232;

pub const CID_LEN: usize = 8;

/// Sizes of the wire format.
#[derive(Debug, Clone, Copy, PartialEq, Eq, Structural)]
pub struct UdpWire {
    /// Bytes of the short header that masks a record as QUIC.
    pub quic_short_header: usize,
    /// Bytes of the short header that carries a roaming connection id.
    pub roaming_short_header: usize,
    /// Bytes of a data fragment header.
    pub data_frag_header: usize,
    /// The largest record that a peer reassembles.
    pub max_record: usize,
    /// What a probe adds to the inner packet that it stands for.
    pub probe_overhead: usize,
    /// The smallest payload that can hold a probe.
    pub min_probe_payload: usize,
    /// The smallest inner MTU.
    pub mtu_min: u16,
}

impl UdpWire {
    /// A record can be as large as every path carries.
    pub open spec fn valid(&self) -> bool {
        SAFE_IPV6_PAYLOAD <= self.max_record && self.mtu_min > 0
    }

    /// Whether the smallest payload that every path carries has room for some of a record behind
    /// each header and what the socket adds.
    pub open spec fn leaves_room(&self, seal_overhead: usize) -> bool {
        &&& seal_overhead + self.data_frag_header < SAFE_IPV4_PAYLOAD
        &&& seal_overhead + self.quic_short_header + self.data_frag_header < SAFE_IPV4_PAYLOAD
        &&& seal_overhead + self.roaming_short_header + self.data_frag_header < SAFE_IPV4_PAYLOAD
    }
}

/// How records are framed on the active path.
#[derive(Clone, Copy)]
pub enum UdpEgressFraming {
    Unmasked,
    LegacyQuic([u8; 4]),
    RoamingCid([u8; 8]),
}

/// The header that goes before a record.
#[derive(Clone, Copy)]
pub enum UdpHeader {
    Bare,
    QuicShort([u8; 4], u32),
    RoamingShort([u8; 8], u32),
}

impl UdpEgressFraming {
    pub open spec fn legacy_framing(quic_enabled: bool, connection_id: [u8; 4]) -> UdpEgressFraming {
        if quic_enabled {
            UdpEgressFraming::LegacyQuic(connection_id)
        } else {
            UdpEgressFraming::Unmasked
        }
    }

    pub fn legacy(quic_enabled: bool, connection_id: [u8; 4]) -> (framing: UdpEgressFraming)
        ensures
            framing == Self::legacy_framing(quic_enabled, connection_id),
    {
        if quic_enabled {
            UdpEgressFraming::LegacyQuic(connection_id)
        } else {
            UdpEgressFraming::Unmasked
        }
    }

    pub fn uses_packet_number(&self) -> (uses: bool)
        ensures
            uses == !(self is Unmasked),
    {
        match self {
            UdpEgressFraming::Unmasked => false,
            _ => true,
        }
    }

    /// Bytes that the framing adds to a record.
    pub open spec fn wrapper(&self, wire: UdpWire) -> int {
        match self {
            UdpEgressFraming::Unmasked => 0,
            UdpEgressFraming::LegacyQuic(_) => wire.quic_short_header as int,
            UdpEgressFraming::RoamingCid(_) => wire.roaming_short_header as int,
        }
    }

    pub fn wrapper_len(&self, wire: &UdpWire) -> (len: usize)
        ensures
            len == self.wrapper(*wire),
    {
        match self {
            UdpEgressFraming::Unmasked => 0,
            UdpEgressFraming::LegacyQuic(_) => wire.quic_short_header,
            UdpEgressFraming::RoamingCid(_) => wire.roaming_short_header,
        }
    }

    /// The header of a record with a given packet number.
    pub open spec fn header_of(&self, packet_number: u32) -> UdpHeader {
        match self {
            UdpEgressFraming::Unmasked => UdpHeader::Bare,
            UdpEgressFraming::LegacyQuic(id) => UdpHeader::QuicShort(*id, packet_number),
            UdpEgressFraming::RoamingCid(cid) => UdpHeader::RoamingShort(*cid, packet_number),
        }
    }

    pub fn header(&self, packet_number: u32) -> (header: UdpHeader)
        ensures
            header == self.header_of(packet_number),
    {
        match self {
            UdpEgressFraming::Unmasked => UdpHeader::Bare,
            UdpEgressFraming::LegacyQuic(id) => UdpHeader::QuicShort(*id, packet_number),
            UdpEgressFraming::RoamingCid(cid) => UdpHeader::RoamingShort(*cid, packet_number),
        }
    }
}

/// A listening socket, named by a number: how much it adds to every datagram, and the family that
/// it is bound to, if that is known.
#[derive(Debug, Clone, Copy, PartialEq, Eq, Structural)]
pub struct EgressSocket {
    pub id: u64,
    pub seal_overhead: usize,
    pub local_is_ipv4: Option<bool>,
}

/// Path metadata for one record.
#[derive(Clone, Copy)]
pub struct UdpEgressSnapshot {
    pub socket: EgressSocket,
    pub peer: CarrierAddress,
    pub framing: UdpEgressFraming,
    pub path_epoch: u64,
}

/// The payload that every path of the peer's family carries.
pub open spec fn safe_budget(peer: CarrierAddress) -> int {
    if peer.ip is V4 {
        SAFE_IPV4_PAYLOAD as int
    } else {
        SAFE_IPV6_PAYLOAD as int
    }
}

pub fn conservative_udp_payload_budget(ipv6: bool) -> (budget: usize)
    ensures
        budget == if ipv6 {
            SAFE_IPV6_PAYLOAD
        } else {
            SAFE_IPV4_PAYLOAD
        },
{
    if ipv6 {
        SAFE_IPV6_PAYLOAD
    } else {
        SAFE_IPV4_PAYLOAD
    }
}

impl UdpEgressSnapshot {
    pub fn safe_payload_budget(&self) -> (budget: usize)
        ensures
            budget == safe_budget(self.peer),
    {
        conservative_udp_payload_budget(!self.peer.ip.is_ipv4())
    }

    /// Everything that goes around a record on this path.
    pub open spec fn overhead(&self, wire: UdpWire) -> int {
        self.socket.seal_overhead + self.framing.wrapper(wire)
    }

    /// The record that fits into a payload, if more than a fragment header fits.
    pub fn record_budget(&self, wire: &UdpWire, udp_payload_budget: usize) -> (budget: Option<usize>)
        ensures
            budget == if udp_payload_budget - self.overhead(*wire) > wire.data_frag_header {
                Some((udp_payload_budget - self.overhead(*wire)) as usize)
            } else {
                None
            },
    {
        let wrapper: usize = self.framing.wrapper_len(wire);
        if udp_payload_budget < wrapper || udp_payload_budget - wrapper
            < self.socket.seal_overhead {
            return None;
        }
        let rest: usize = udp_payload_budget - wrapper - self.socket.seal_overhead;
        if rest > wire.data_frag_header {
            Some(rest)
        } else {
            None
        }
    }
}

#[derive(Debug, Clone, Copy, PartialEq, Eq, Structural)]
pub enum UdpEgressCommitError {
    StaleEpoch,
    StalePeer,
    InvalidEpoch,
    FamilyMismatch,
}

#[derive(Debug, Clone, Copy, PartialEq, Eq, Structural)]
pub enum UdpEgressPublishError {
    State(UdpEgressCommitError),
    /// The commit marker could not be sent.
    Publish,
}

/// What a datagram on a roaming path may carry.
#[derive(Debug, Clone, Copy, PartialEq, Eq, Structural)]
pub enum UdpRoamingIngressPath {
    Committed,
    Candidate,
    Draining,
}

/// A path that replaces the active one.
#[derive(Clone, Copy)]
pub struct UdpEgressCommit {
    pub expected_epoch: u64,
    pub expected_peer: CarrierAddress,
    pub next_epoch: u64,
    pub socket: EgressSocket,
    pub peer: CarrierAddress,
    pub destination_cid: [u8; 8],
}

/// What the roaming registry decided: the epoch that begins, the old and the new peer, and the
/// connection id to send to.
#[derive(Clone, Copy)]
pub struct CommitOutcome {
    pub path_epoch: u64,
    pub old_peer: CarrierAddress,
    pub new_peer: CarrierAddress,
    pub transmit_cid: [u8; 8],
}

impl UdpEgressCommit {
    /// The commit that follows from a decision; epoch zero has no predecessor.
    pub fn from_outcome(outcome: &CommitOutcome, socket: EgressSocket) -> (commit: Result<
        UdpEgressCommit,
        UdpEgressCommitError,
    >)
        ensures
            match commit {
                Ok(commit) => outcome.path_epoch > 0 && commit == (UdpEgressCommit {
                    expected_epoch: (outcome.path_epoch - 1) as u64,
                    expected_peer: outcome.old_peer,
                    next_epoch: outcome.path_epoch,
                    socket,
                    peer: outcome.new_peer,
                    destination_cid: outcome.transmit_cid,
                }),
                Err(error) => outcome.path_epoch == 0 && error
                    == UdpEgressCommitError::InvalidEpoch,
            },
    {
        if outcome.path_epoch == 0 {
            return Err(UdpEgressCommitError::InvalidEpoch);
        }
        Ok(
            UdpEgressCommit {
                expected_epoch: outcome.path_epoch - 1,
                expected_peer: outcome.old_peer,
                next_epoch: outcome.path_epoch,
                socket,
                peer: outcome.new_peer,
                destination_cid: outcome.transmit_cid,
            },
        )
    }
}

/// The previous roaming path, which still receives for a while.
#[derive(Clone, Copy)]
pub struct UdpDrainingIngress {
    pub snapshot: UdpEgressSnapshot,
    pub expires_at: u64,
}

/// The active path, the one before it while it drains, and the payload budget of the active path.
pub struct UdpActiveEgress {
    pub current: UdpEgressSnapshot,
    pub draining: Option<UdpDrainingIngress>,
    pub payload_budget: u32,
}

/// Whether a datagram came over exactly this path.
pub open spec fn on_path(
    snapshot: UdpEgressSnapshot,
    epoch: u64,
    peer: CarrierAddress,
    socket: u64,
) -> bool {
    snapshot.path_epoch == epoch && snapshot.peer == peer && snapshot.socket.id == socket
        && snapshot.framing is RoamingCid
}

/// What is left of a draining path at a time.
pub open spec fn drained(draining: Option<UdpDrainingIngress>, now: u64) -> Option<
    UdpDrainingIngress,
> {
    match draining {
        Some(previous) => if now > previous.expires_at {
            None
        } else {
            Some(previous)
        },
        None => None,
    }
}

/// What a datagram may carry by its connection-id epoch and the path that it came over.
pub open spec fn ingress_path(
    egress: UdpActiveEgress,
    epoch: u64,
    peer: CarrierAddress,
    socket: u64,
    now: u64,
) -> Option<UdpRoamingIngressPath> {
    if epoch == egress.current.path_epoch {
        if on_path(egress.current, epoch, peer, socket) {
            Some(UdpRoamingIngressPath::Committed)
        } else {
            None
        }
    } else if egress.current.path_epoch + 1 == epoch {
        Some(UdpRoamingIngressPath::Candidate)
    } else {
        match drained(egress.draining, now) {
            Some(previous) => if on_path(previous.snapshot, epoch, peer, socket) {
                Some(UdpRoamingIngressPath::Draining)
            } else {
                None
            },
            None => None,
        }
    }
}

/// Why a commit does not apply, if it does not.
pub open spec fn commit_problem(egress: UdpActiveEgress, commit: UdpEgressCommit) -> Option<
    UdpEgressCommitError,
> {
    if commit.next_epoch != commit.expected_epoch + 1 {
        Some(UdpEgressCommitError::InvalidEpoch)
    } else if commit.socket.local_is_ipv4 != Some(commit.peer.ip is V4) {
        Some(UdpEgressCommitError::FamilyMismatch)
    } else if egress.current.path_epoch != commit.expected_epoch {
        Some(UdpEgressCommitError::StaleEpoch)
    } else if egress.current.peer != commit.expected_peer {
        Some(UdpEgressCommitError::StalePeer)
    } else {
        None
    }
}

/// The state after a commit: the new path with a safe budget, and the old path draining if it was
/// a roaming one.
pub open spec fn committed(
    egress: UdpActiveEgress,
    commit: UdpEgressCommit,
    drain_until: u64,
) -> UdpActiveEgress {
    UdpActiveEgress {
        current: UdpEgressSnapshot {
            socket: commit.socket,
            peer: commit.peer,
            framing: UdpEgressFraming::RoamingCid(commit.destination_cid),
            path_epoch: commit.next_epoch,
        },
        draining: if egress.current.framing is RoamingCid {
            Some(UdpDrainingIngress { snapshot: egress.current, expires_at: drain_until })
        } else {
            None
        },
        payload_budget: safe_budget(commit.peer) as u32,
    }
}

impl UdpActiveEgress {
    pub fn new_legacy(
        socket: EgressSocket,
        peer: CarrierAddress,
        quic_enabled: bool,
        connection_id: [u8; 4],
        payload_budget: u32,
    ) -> (egress: UdpActiveEgress)
        ensures
            egress == (UdpActiveEgress {
                current: UdpEgressSnapshot {
                    socket,
                    peer,
                    framing: UdpEgressFraming::legacy_framing(quic_enabled, connection_id),
                    path_epoch: 0,
                },
                draining: None,
                payload_budget,
            }),
    {
        UdpActiveEgress {
            current: UdpEgressSnapshot {
                socket,
                peer,
                framing: UdpEgressFraming::legacy(quic_enabled, connection_id),
                path_epoch: 0,
            },
            draining: None,
            payload_budget,
        }
    }

    pub fn new_roaming(
        socket: EgressSocket,
        peer: CarrierAddress,
        destination_cid: [u8; 8],
        payload_budget: u32,
    ) -> (egress: UdpActiveEgress)
        ensures
            egress == (UdpActiveEgress {
                current: UdpEgressSnapshot {
                    socket,
                    peer,
                    framing: UdpEgressFraming::RoamingCid(destination_cid),
                    path_epoch: 0,
                },
                draining: None,
                payload_budget,
            }),
    {
        UdpActiveEgress {
            current: UdpEgressSnapshot {
                socket,
                peer,
                framing: UdpEgressFraming::RoamingCid(destination_cid),
                path_epoch: 0,
            },
            draining: None,
            payload_budget,
        }
    }

    /// Path and budget, taken together: one record never combines an old path with the budget of
    /// a new one.
    pub fn snapshot_with_payload_budget(&self) -> (snapshot: (UdpEgressSnapshot, u32))
        ensures
            snapshot == (self.current, self.payload_budget),
    {
        (self.current, self.payload_budget)
    }

    pub fn snapshot(&self) -> (snapshot: UdpEgressSnapshot)
        ensures
            snapshot == self.current,
    {
        self.current
    }

    /// Lets go of the previous path once its time is over.
    pub fn expire_draining_ingress(&mut self, now: u64)
        ensures
            *final(self) == (UdpActiveEgress {
                draining: drained(old(self).draining, now),
                ..*old(self)
            }),
    {
        let expired = match &self.draining {
            Some(previous) => now > previous.expires_at,
            None => false,
        };
        if expired {
            self.draining = None;
        }
    }

    /// Classifies a datagram before any cryptographic state is consumed. The current epoch counts
    /// only on the exact path that the writer uses; the next epoch may carry candidate control;
    /// the previous roaming path drains for a bounded time.
    pub fn classify_roaming_ingress(
        &mut self,
        path_epoch: u64,
        peer: CarrierAddress,
        socket: u64,
        now: u64,
    ) -> (path: Option<UdpRoamingIngressPath>)
        ensures
            path == ingress_path(*old(self), path_epoch, peer, socket, now),
            *final(self) == (UdpActiveEgress {
                draining: drained(old(self).draining, now),
                ..*old(self)
            }),
    {
        self.expire_draining_ingress(now);
        if path_epoch == self.current.path_epoch {
            return if is_on_path(&self.current, path_epoch, peer, socket) {
                Some(UdpRoamingIngressPath::Committed)
            } else {
                None
            };
        }
        if path_epoch > 0 && path_epoch - 1 == self.current.path_epoch {
            return Some(UdpRoamingIngressPath::Candidate);
        }
        match &self.draining {
            Some(previous) => {
                if is_on_path(&previous.snapshot, path_epoch, peer, socket) {
                    Some(UdpRoamingIngressPath::Draining)
                } else {
                    None
                }
            },
            None => None,
        }
    }

    /// Widens the budget only while the exact path that carried the probe is published; gives the
    /// budget that was replaced.
    pub fn certify_payload_budget(
        &mut self,
        path_epoch: u64,
        peer: CarrierAddress,
        certified: u32,
    ) -> (previous: Option<u32>)
        ensures
            if old(self).current.path_epoch == path_epoch && old(self).current.peer == peer {
                &&& previous == Some(old(self).payload_budget)
                &&& *final(self) == (UdpActiveEgress { payload_budget: certified, ..*old(self) })
            } else {
                previous is None && *final(self) == *old(self)
            },
    {
        if self.current.path_epoch != path_epoch || self.current.peer != peer {
            return None;
        }
        let previous: u32 = self.payload_budget;
        self.payload_budget = certified;
        Some(previous)
    }

    /// Whether a commit applies to what is published now. The commit marker is sent only after
    /// this, under the same lock.
    pub fn check_commit(&self, commit: &UdpEgressCommit) -> (result: Result<(), UdpEgressCommitError>)
        ensures
            match result {
                Ok(()) => commit_problem(*self, *commit) is None,
                Err(error) => commit_problem(*self, *commit) == Some(error),
            },
    {
        if commit.expected_epoch == u64::MAX || commit.next_epoch != commit.expected_epoch + 1 {
            return Err(UdpEgressCommitError::InvalidEpoch);
        }
        let family_matches = match commit.socket.local_is_ipv4 {
            Some(local) => local == commit.peer.ip.is_ipv4(),
            None => false,
        };
        if !family_matches {
            return Err(UdpEgressCommitError::FamilyMismatch);
        }
        if self.current.path_epoch != commit.expected_epoch {
            return Err(UdpEgressCommitError::StaleEpoch);
        }
        if self.current.peer != commit.expected_peer {
            return Err(UdpEgressCommitError::StalePeer);
        }
        Ok(())
    }

    /// Publishes the new path once its commit marker was accepted by the socket; `published` says
    /// whether it was. On any error the old path and its budget stay.
    pub fn commit_roaming_with(&mut self, commit: &UdpEgressCommit, published: bool, drain_until: u64)
        -> (result: Result<(), UdpEgressPublishError>)
        ensures
            match commit_problem(*old(self), *commit) {
                Some(error) => result == Err::<(), UdpEgressPublishError>(
                    UdpEgressPublishError::State(error),
                ) && *final(self) == *old(self),
                None => if published {
                    result is Ok && *final(self) == committed(*old(self), *commit, drain_until)
                } else {
                    result == Err::<(), UdpEgressPublishError>(UdpEgressPublishError::Publish)
                        && *final(self) == *old(self)
                },
            },
    {
        if let Err(error) = self.check_commit(commit) {
            return Err(UdpEgressPublishError::State(error));
        }
        if !published {
            return Err(UdpEgressPublishError::Publish);
        }
        let roaming = match self.current.framing {
            UdpEgressFraming::RoamingCid(_) => true,
            _ => false,
        };
        self.payload_budget = conservative_udp_payload_budget(!commit.peer.ip.is_ipv4()) as u32;
        self.draining = if roaming {
            Some(UdpDrainingIngress { snapshot: self.current, expires_at: drain_until })
        } else {
            None
        };
        self.current = UdpEgressSnapshot {
            socket: commit.socket,
            peer: commit.peer,
            framing: UdpEgressFraming::RoamingCid(commit.destination_cid),
            path_epoch: commit.next_epoch,
        };
        Ok(())
    }

    /// Answers a datagram that was too large for its path. The report may come after another path
    /// was committed: the budget of the path that is published now is made safe, and a late report
    /// never widens it.
    pub fn downgrade_payload_budget(&mut self, attempted_epoch: u64) -> (safe: usize)
        ensures
            safe == safe_budget(old(self).current.peer),
            *final(self) == (UdpActiveEgress {
                payload_budget: if old(self).current.path_epoch != attempted_epoch || old(
                    self,
                ).payload_budget > safe {
                    safe as u32
                } else {
                    old(self).payload_budget
                },
                ..*old(self)
            }),
    {
        let safe: usize = self.current.safe_payload_budget();
        if self.current.path_epoch != attempted_epoch || self.payload_budget as usize > safe {
            self.payload_budget = safe as u32;
        }
        safe
    }
}

fn is_on_path(
    snapshot: &UdpEgressSnapshot,
    epoch: u64,
    peer: CarrierAddress,
    socket: u64,
) -> (same: bool)
    ensures
        same == on_path(*snapshot, epoch, peer, socket),
{
    let roaming = match snapshot.framing {
        UdpEgressFraming::RoamingCid(_) => true,
        _ => false,
    };
    snapshot.path_epoch == epoch && snapshot.peer == peer && snapshot.socket.id == socket && roaming
}

/// A record fits on every path, whatever its framing and family.
pub proof fn law_safe_budget_fits_every_framing(snapshot: UdpEgressSnapshot, wire: UdpWire)
    requires
        wire.leaves_room(snapshot.socket.seal_overhead),
    ensures
        safe_budget(snapshot.peer) - snapshot.overhead(wire) > wire.data_frag_header,
{
}

/// A commit takes effect once: applied again it is stale, and whatever was in flight for the old
/// epoch can no longer change the budget of the new path.
pub proof fn law_commit_is_epoch_guarded(
    egress: UdpActiveEgress,
    commit: UdpEgressCommit,
    drain_until: u64,
)
    requires
        commit_problem(egress, commit) is None,
    ensures
        ({
            let after = committed(egress, commit, drain_until);
            &&& commit_problem(after, commit) == Some(UdpEgressCommitError::StaleEpoch)
            &&& after.current.path_epoch == egress.current.path_epoch + 1
            &&& after.payload_budget == safe_budget(after.current.peer)
        }),
{
}

/// After a commit the new path is the only one that carries everything. The exact previous path
/// drains until its time is over if it was a roaming path; no other path carries an old epoch.
pub proof fn law_old_path_only_drains(
    egress: UdpActiveEgress,
    commit: UdpEgressCommit,
    drain_until: u64,
    epoch: u64,
    peer: CarrierAddress,
    socket: u64,
    now: u64,
)
    requires
        commit_problem(egress, commit) is None,
        epoch <= commit.expected_epoch,
    ensures
        ({
            let path = ingress_path(
                committed(egress, commit, drain_until),
                epoch,
                peer,
                socket,
                now,
            );
            path == if now <= drain_until && on_path(egress.current, epoch, peer, socket) {
                Some(UdpRoamingIngressPath::Draining)
            } else {
                None
            }
        }),
        ingress_path(
            committed(egress, commit, drain_until),
            commit.next_epoch,
            commit.peer,
            commit.socket.id,
            now,
        ) == Some(UdpRoamingIngressPath::Committed),
{
}

/// What every path carries is 548 bytes over IPv4 and 1232 over IPv6; a record loses to it the
/// header of the framing and what the socket adds.
pub proof fn law_safe_payloads(
    snapshot: UdpEgressSnapshot,
    wire: UdpWire,
    id: [u8; 4],
    cid: [u8; 8],
    number: u32,
)
    ensures
        snapshot.peer.ip is V4 ==> safe_budget(snapshot.peer) == 548,
        snapshot.peer.ip is V6 ==> safe_budget(snapshot.peer) == 1232,
        snapshot.framing is Unmasked ==> snapshot.overhead(wire) == snapshot.socket.seal_overhead
            && snapshot.framing.header_of(number) is Bare,
        snapshot.framing == UdpEgressFraming::LegacyQuic(id) ==> snapshot.overhead(wire)
            == snapshot.socket.seal_overhead + wire.quic_short_header && snapshot.framing.header_of(
            number,
        ) == UdpHeader::QuicShort(id, number),
        snapshot.framing == UdpEgressFraming::RoamingCid(cid) ==> snapshot.overhead(wire)
            == snapshot.socket.seal_overhead + wire.roaming_short_header
            && snapshot.framing.header_of(number) == UdpHeader::RoamingShort(cid, number),
        UdpEgressFraming::legacy_framing(true, id) == UdpEgressFraming::LegacyQuic(id),
        UdpEgressFraming::legacy_framing(false, id) is Unmasked,
{
}

/// A datagram is taken for what its path is: committed over exactly the active path, candidate with
/// the next epoch from anywhere, draining over exactly the previous path while it drains.
pub proof fn law_paths_are_told_apart(
    egress: UdpActiveEgress,
    epoch: u64,
    peer: CarrierAddress,
    socket: u64,
    now: u64,
)
    ensures
        ({
            let path = ingress_path(egress, epoch, peer, socket, now);
            let current = egress.current;
            &&& path == Some(UdpRoamingIngressPath::Committed) <==> current.path_epoch == epoch
                && current.peer == peer && current.socket.id == socket && current.framing
                is RoamingCid
            &&& path == Some(UdpRoamingIngressPath::Candidate) <==> epoch == current.path_epoch + 1
            &&& path == Some(UdpRoamingIngressPath::Draining) <==> epoch != current.path_epoch
                && epoch != current.path_epoch + 1 && (egress.draining matches Some(previous) && now
                <= previous.expires_at && previous.snapshot.path_epoch == epoch
                && previous.snapshot.peer == peer && previous.snapshot.socket.id == socket
                && previous.snapshot.framing is RoamingCid)
        }),
{
}

/// A commit applies exactly where it leads from the active path to its next epoch, over a socket of
/// the family of the new peer. Then the new path is what it says, with the safe budget of its
/// family, and a roaming path before it drains.
pub proof fn law_commits_lead_on(
    egress: UdpActiveEgress,
    commit: UdpEgressCommit,
    drain_until: u64,
)
    ensures
        commit_problem(egress, commit) is None <==> commit.expected_epoch
            == egress.current.path_epoch && commit.next_epoch == egress.current.path_epoch + 1
            && commit.expected_peer == egress.current.peer && commit.socket.local_is_ipv4 == Some(
            commit.peer.ip is V4,
        ),
        ({
            let after = committed(egress, commit, drain_until);
            &&& after.current.socket == commit.socket
            &&& after.current.peer == commit.peer
            &&& after.current.path_epoch == commit.next_epoch
            &&& after.current.framing == UdpEgressFraming::RoamingCid(commit.destination_cid)
            &&& commit.peer.ip is V4 ==> after.payload_budget == 548
            &&& commit.peer.ip is V6 ==> after.payload_budget == 1232
            &&& egress.current.framing is RoamingCid ==> (after.draining matches Some(draining)
                && draining.snapshot == egress.current && draining.expires_at == drain_until)
            &&& !(egress.current.framing is RoamingCid) ==> after.draining is None
        }),
        commit_problem(egress, commit) matches Some(error) ==> match error {
            UdpEgressCommitError::InvalidEpoch => commit.next_epoch != commit.expected_epoch + 1,
            UdpEgressCommitError::FamilyMismatch => commit.socket.local_is_ipv4 != Some(
                commit.peer.ip is V4,
            ),
            UdpEgressCommitError::StaleEpoch => commit.expected_epoch
                != egress.current.path_epoch,
            UdpEgressCommitError::StalePeer => commit.expected_peer != egress.current.peer,
        },
{
}

/// A path that drains goes on draining up to its last moment, and is gone after it.
pub proof fn law_draining_ends(draining: UdpDrainingIngress, now: u64)
    ensures
        now <= draining.expires_at ==> drained(Some(draining), now) == Some(draining),
        now > draining.expires_at ==> drained(Some(draining), now) is None,
        drained(None, now) is None,
{
}

/// A session that starts without a connection id is masked as QUIC where that is asked for, and
/// bare otherwise; only a masked or roaming one numbers its packets, and each carries its own id and
/// the number that it is given.
pub proof fn law_framings_carry_their_id(
    quic_enabled: bool,
    connection_id: [u8; 4],
    framing: UdpEgressFraming,
    cid: [u8; 8],
    number: u32,
    header: UdpHeader,
    uses: bool,
    roaming: UdpHeader,
    wire: UdpWire,
    len: usize,
)
    requires
        call_ensures(UdpEgressFraming::legacy, (quic_enabled, connection_id), framing),
        call_ensures(UdpEgressFraming::header, (&framing, number), header),
        call_ensures(UdpEgressFraming::uses_packet_number, (&framing,), uses),
        call_ensures(UdpEgressFraming::wrapper_len, (&framing, &wire), len),
        call_ensures(
            UdpEgressFraming::header,
            (&UdpEgressFraming::RoamingCid(cid), number),
            roaming,
        ),
    ensures
        uses <==> quic_enabled,
        quic_enabled ==> header == UdpHeader::QuicShort(connection_id, number) && len
            == wire.quic_short_header,
        !quic_enabled ==> header is Bare && len == 0,
        roaming == UdpHeader::RoamingShort(cid, number),
{
}

/// Without knowledge of the path a datagram carries 548 bytes over IPv4 and 1232 over IPv6.
pub proof fn law_cautious_budgets(
    over_ipv4: usize,
    over_ipv6: usize,
    path: UdpEgressSnapshot,
    safe: usize,
)
    requires
        call_ensures(conservative_udp_payload_budget, (false,), over_ipv4),
        call_ensures(conservative_udp_payload_budget, (true,), over_ipv6),
        call_ensures(UdpEgressSnapshot::safe_payload_budget, (&path,), safe),
    ensures
        over_ipv4 == 548,
        over_ipv6 == 1232,
        path.peer.ip is V4 ==> safe == 548,
        path.peer.ip is V6 ==> safe == 1232,
{
}

/// A commit leads from the path before to the one that was validated: the epoch goes up by one,
/// the peers are those of the outcome, and the new path has the socket that it was given.
pub proof fn law_outcomes_become_commits(
    outcome: CommitOutcome,
    socket: EgressSocket,
    commit: Result<UdpEgressCommit, UdpEgressCommitError>,
)
    requires
        call_ensures(UdpEgressCommit::from_outcome, (&outcome, socket), commit),
    ensures
        commit is Ok <==> outcome.path_epoch >= 1,
        commit matches Ok(next) ==> {
            &&& next.next_epoch == outcome.path_epoch
            &&& next.expected_epoch + 1 == outcome.path_epoch
            &&& next.expected_peer == outcome.old_peer
            &&& next.peer == outcome.new_peer
            &&& next.socket == socket
            &&& next.destination_cid == outcome.transmit_cid
        },
        commit is Err ==> commit->Err_0 == UdpEgressCommitError::InvalidEpoch,
{
}

/// A size is certified for the path that it was measured on: for its epoch and its peer. The size
/// before is handed out, and nothing but the size changes.
pub proof fn law_sizes_are_certified_for_their_path(
    path_epoch: u64,
    peer: CarrierAddress,
    certified: u32,
    previous: Option<u32>,
)
    ensures
        forall|egress: &mut UdpActiveEgress| #[trigger]
            call_ensures(
                UdpActiveEgress::certify_payload_budget,
                (egress, path_epoch, peer, certified),
                previous,
            ) ==> {
                let here = egress.current.path_epoch == path_epoch && egress.current.peer == peer;
                &&& here ==> previous == Some(egress.payload_budget)
                    && final(egress).payload_budget == certified
                &&& !here ==> previous is None && final(egress).payload_budget
                    == egress.payload_budget
                &&& final(egress).current == egress.current && final(egress).draining
                    == egress.draining
            },
{
}

/// A path that refused a datagram falls back to the cautious size, and so does one that was
/// replaced meanwhile; a size that is already smaller stays.
pub proof fn law_refused_sizes_fall_back(attempted_epoch: u64, safe: usize)
    ensures
        forall|egress: &mut UdpActiveEgress| #[trigger]
            call_ensures(
                UdpActiveEgress::downgrade_payload_budget,
                (egress, attempted_epoch),
                safe,
            ) ==> {
                let after = *final(egress);
                &&& egress.current.peer.ip is V4 ==> safe == 548
                &&& egress.current.peer.ip is V6 ==> safe == 1232
                &&& egress.current.path_epoch != attempted_epoch ==> after.payload_budget == safe
                &&& egress.current.path_epoch == attempted_epoch ==> after.payload_budget <= safe
                    && (egress.payload_budget <= safe ==> after.payload_budget
                    == egress.payload_budget) && (egress.payload_budget > safe
                    ==> after.payload_budget == safe)
                &&& after.current == egress.current && after.draining == egress.draining
            },
{
}

/// A path is switched where nothing stands against it and the registry has published it, and not
/// otherwise.
pub proof fn law_switches_are_all_or_nothing(
    commit: UdpEgressCommit,
    published: bool,
    drain_until: u64,
    result: Result<(), UdpEgressPublishError>,
)
    ensures
        forall|egress: &mut UdpActiveEgress| #[trigger]
            call_ensures(
                UdpActiveEgress::commit_roaming_with,
                (egress, &commit, published, drain_until),
                result,
            ) ==> {
                let problem = commit_problem(*egress, commit);
                &&& result is Ok <==> problem is None && published
                &&& result is Err ==> *final(egress) == *egress
                &&& result is Ok ==> *final(egress) == committed(*egress, commit, drain_until)
                &&& problem is None && !published ==> result->Err_0
                    == UdpEgressPublishError::Publish
                &&& problem matches Some(error) ==> result->Err_0 == UdpEgressPublishError::State(
                    error,
                )
            },
{
}

/// A new session sends to its peer on its socket, at epoch 0 and without a path that drains.
pub proof fn law_new_sessions_have_one_path(
    socket: EgressSocket,
    peer: CarrierAddress,
    quic_enabled: bool,
    connection_id: [u8; 4],
    cid: [u8; 8],
    budget: u32,
    legacy: UdpActiveEgress,
    roaming: UdpActiveEgress,
)
    requires
        call_ensures(
            UdpActiveEgress::new_legacy,
            (socket, peer, quic_enabled, connection_id, budget),
            legacy,
        ),
        call_ensures(UdpActiveEgress::new_roaming, (socket, peer, cid, budget), roaming),
    ensures
        legacy.current.socket == socket && roaming.current.socket == socket,
        legacy.current.peer == peer && roaming.current.peer == peer,
        legacy.current.path_epoch == 0 && roaming.current.path_epoch == 0,
        legacy.draining is None && roaming.draining is None,
        legacy.payload_budget == budget && roaming.payload_budget == budget,
        roaming.current.framing == UdpEgressFraming::RoamingCid(cid),
        quic_enabled ==> legacy.current.framing == UdpEgressFraming::LegacyQuic(connection_id),
        !quic_enabled ==> legacy.current.framing is Unmasked,
{
}

} // verus!
