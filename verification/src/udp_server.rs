//! Housekeeping of a UDP worker: which datagrams get in, how often it ticks, and when a session
//! counts as dead. Times are nanoseconds unless they say milliseconds.

use crate::carrier::CarrierAddress;
use crate::udp_client::{is_expired, UdpIdentity, UdpSessionState};
use crate::udp_directory::{
    lemma_without_none, lemma_without_one_more, without_all, DirectoryView, UdpSessionDirectory,
};
use crate::udp_new_source::{listed, PartialHellos};
use vstd::prelude::*;

verus! {

/// How long an authenticated session may go without a datagram. A timeout below one second is
/// none; a liveness deadline exists only where the client has traffic of its own to send.
pub fn udp_reap_window(idle_timeout: u64, liveness_deadline: Option<u64>) -> (window: Option<u64>)
    ensures
        window == if idle_timeout < 1_000_000_000 {
            liveness_deadline
        } else {
            match liveness_deadline {
                Some(deadline) => if deadline < idle_timeout {
                    Some(deadline)
                } else {
                    Some(idle_timeout)
                },
                None => Some(idle_timeout),
            }
        },
{
    if idle_timeout < 1_000_000_000 {
        return liveness_deadline;
    }
    match liveness_deadline {
        Some(deadline) => if deadline < idle_timeout {
            Some(deadline)
        } else {
            Some(idle_timeout)
        },
        None => Some(idle_timeout),
    }
}

/// How often the worker looks for due cover packets and beacons, in milliseconds. The schedule
/// itself is kept for each client; this only finds what is due.
pub fn maintenance_tick_ms(
    shaping_on: bool,
    idle_gap_min_ms: u64,
    heartbeat_enabled: bool,
    heartbeat_interval_ms: u64,
    default_ms: u64,
) -> (tick: u64)
    ensures
        tick == if shaping_on {
            if idle_gap_min_ms < 20 {
                20
            } else {
                idle_gap_min_ms
            }
        } else if heartbeat_enabled {
            if heartbeat_interval_ms < 20 {
                20
            } else if heartbeat_interval_ms > 200 {
                200
            } else {
                heartbeat_interval_ms
            }
        } else {
            default_ms
        },
{
    if shaping_on {
        if idle_gap_min_ms < 20 {
            20
        } else {
            idle_gap_min_ms
        }
    } else if heartbeat_enabled {
        if heartbeat_interval_ms < 20 {
            20
        } else if heartbeat_interval_ms > 200 {
            200
        } else {
            heartbeat_interval_ms
        }
    } else {
        default_ms
    }
}

/// What traffic of its own a profile sends.
#[derive(Debug, Clone, Copy, PartialEq, Eq, Structural)]
pub struct IdleTraffic {
    pub heartbeat: bool,
    pub shaping: bool,
}

/// Beacons need an interval, cover traffic a budget; cover replaces beacons.
pub fn idle_traffic(
    heartbeat_enabled: bool,
    heartbeat_interval_ms: u64,
    shaping_enabled: bool,
    budget_bytes_per_sec: u64,
) -> (traffic: IdleTraffic)
    ensures
        traffic == (IdleTraffic {
            heartbeat: heartbeat_enabled && heartbeat_interval_ms > 0,
            shaping: shaping_enabled && budget_bytes_per_sec > 0,
        }),
{
    IdleTraffic {
        heartbeat: heartbeat_enabled && heartbeat_interval_ms > 0,
        shaping: shaping_enabled && budget_bytes_per_sec > 0,
    }
}

/// The padding of a beacon: from the configured size to 32 bytes more, within what fits.
pub fn beacon_padding(data_size: u16, cap: usize) -> (range: (u16, u16))
    ensures
        ({
            let limit: int = if cap > u16::MAX {
                u16::MAX as int
            } else {
                cap as int
            };
            let wanted: int = if data_size + 32 > u16::MAX {
                u16::MAX as int
            } else {
                data_size + 32
            };
            &&& range.0 == if data_size < limit {
                data_size as int
            } else {
                limit
            }
            &&& range.1 == if wanted < limit {
                wanted
            } else {
                limit
            }
            &&& range.0 <= range.1
        }),
{
    let limit: u16 = if cap > u16::MAX as usize {
        u16::MAX
    } else {
        cap as u16
    };
    let wanted: u16 = if data_size > u16::MAX - 32 {
        u16::MAX
    } else {
        data_size + 32
    };
    let low: u16 = if data_size < limit {
        data_size
    } else {
        limit
    };
    let high: u16 = if wanted < limit {
        wanted
    } else {
        limit
    };
    (low, high)
}

/// The size of a cover packet: what the shaper asks for, within what fits.
pub fn cover_size(requested: usize, cap: usize) -> (size: usize)
    ensures
        size == if requested < cap {
            requested
        } else {
            cap
        },
{
    if requested < cap {
        requested
    } else {
        cap
    }
}

/// Where a datagram goes first.
#[derive(Debug, Clone, Copy, PartialEq, Eq, Structural)]
pub enum IngressRoute {
    /// To the worker that owns the connection id.
    Roaming,
    /// A decoy from a source without a session.
    DropJunk,
    /// A source without a session: let the rate limiter decide.
    RateLimit,
    /// To the session of its address.
    Session,
}

/// Whether a datagram may be looked up by a connection id: not where its address has a session
/// that does not roam, so that a repeated request still reaches that session.
pub open spec fn may_roam(
    directory: DirectoryView,
    address: CarrierAddress,
) -> bool {
    directory.clients.contains_key(address) ==> directory.clients[address].identity() is Some
}

/// Routes a datagram. `cid_registered` says that its header names a registered connection id;
/// `junk` that it is a decoy. Only a new source is charged: a piece of a hello that is being put
/// together is none.
pub fn route_ingress(
    directory: &UdpSessionDirectory,
    partial: &PartialHellos,
    address: CarrierAddress,
    cid_registered: bool,
    junk: bool,
) -> (route: IngressRoute)
    requires
        directory.valid(),
    ensures
        route == if cid_registered && may_roam(directory@, address) {
            IngressRoute::Roaming
        } else if directory@.clients.contains_key(address) || listed(partial@, address) {
            IngressRoute::Session
        } else if junk {
            IngressRoute::DropJunk
        } else {
            IngressRoute::RateLimit
        },
{
    let may_roam = match directory.get(address) {
        Some(client) => client.roaming_enabled(),
        None => true,
    };
    if cid_registered && may_roam {
        return IngressRoute::Roaming;
    }
    if directory.contains(address) || partial.contains(address) {
        return IngressRoute::Session;
    }
    if junk {
        IngressRoute::DropJunk
    } else {
        IngressRoute::RateLimit
    }
}

/// Sizes of a worker's receive buffer: what it starts with, and what it may grow to.
#[derive(Debug, Clone, Copy, PartialEq, Eq, Structural)]
pub struct ReceiveBuffer {
    pub initial: usize,
    pub maximum: usize,
}

/// The receive buffer that the configuration asks for. An automatic buffer with a size shares the
/// budget of all workers.
pub fn receive_buffer(
    automatic: bool,
    configured: usize,
    shared: ReceiveBuffer,
    automatic_maximum: usize,
) -> (buffer: ReceiveBuffer)
    ensures
        buffer == if automatic && configured > 0 {
            shared
        } else {
            ReceiveBuffer { initial: configured, maximum: automatic_maximum }
        },
{
    if automatic && configured > 0 {
        shared
    } else {
        ReceiveBuffer { initial: configured, maximum: automatic_maximum }
    }
}

/// Why a datagram could not be handed to the worker that owns its connection id.
#[derive(Debug, Clone, Copy, PartialEq, Eq, Structural)]
pub enum RouteFailure {
    QueueFull,
    WorkerClosed,
    InvalidTopology,
    UnknownWorker,
    UnknownCid,
}

#[derive(Debug, Clone, Copy, PartialEq, Eq, Structural)]
pub enum RouteFailureNote {
    /// Count it as dropped.
    Count,
    Warn,
    Error,
    /// The session was torn down meanwhile, which is in order.
    Silent,
}

/// How a failed hand-over is noted.
pub fn note_route_failure(failure: RouteFailure) -> (note: RouteFailureNote)
    ensures
        note == match failure {
            RouteFailure::QueueFull => RouteFailureNote::Count,
            RouteFailure::WorkerClosed => RouteFailureNote::Warn,
            RouteFailure::InvalidTopology | RouteFailure::UnknownWorker => RouteFailureNote::Error,
            RouteFailure::UnknownCid => RouteFailureNote::Silent,
        },
{
    match failure {
        RouteFailure::QueueFull => RouteFailureNote::Count,
        RouteFailure::WorkerClosed => RouteFailureNote::Warn,
        RouteFailure::InvalidTopology => RouteFailureNote::Error,
        RouteFailure::UnknownWorker => RouteFailureNote::Error,
        RouteFailure::UnknownCid => RouteFailureNote::Silent,
    }
}

/// Whether a session at an address is over.
pub open spec fn over(
    directory: DirectoryView,
    address: CarrierAddress,
    now: u64,
    handshake_timeout: u64,
    reap_after: Option<u64>,
) -> bool {
    directory.clients.contains_key(address) && is_expired(
        directory.clients[address],
        now,
        handshake_timeout,
        reap_after,
    )
}

/// The addresses of all sessions that are over.
pub open spec fn all_over(
    directory: DirectoryView,
    now: u64,
    handshake_timeout: u64,
    reap_after: Option<u64>,
) -> Set<CarrierAddress> {
    Set::new(
        |address: CarrierAddress| over(directory, address, now, handshake_timeout, reap_after),
    )
}

/// Each address of a set at which someone authenticated, once.
pub open spec fn lists_authenticated(
    directory: DirectoryView,
    addresses: Set<CarrierAddress>,
    list: Seq<CarrierAddress>,
) -> bool {
    &&& list.no_duplicates()
    &&& forall|address: CarrierAddress| #[trigger]
        list.contains(address) <==> addresses.contains(address)
            && directory.clients[address].state is Authenticated
}

/// Who authenticated at the addresses of a list.
pub open spec fn identities(
    directory: DirectoryView,
    list: Seq<CarrierAddress>,
) -> Seq<UdpIdentity> {
    list.map_values(
        |address: CarrierAddress| directory.clients[address].state->Authenticated_0,
    )
}

/// Takes out every session that is over, and nothing else. What authenticated among them is given
/// back, once for each session: its place in the profile's table and its lease are to be looked
/// at.
pub fn reap_expired(
    directory: &mut UdpSessionDirectory,
    now: u64,
    handshake_timeout: u64,
    reap_after: Option<u64>,
) -> (gone: Vec<UdpIdentity>)
    requires
        old(directory).valid(),
    ensures
        final(directory).valid(),
        old(directory)@.consistent() ==> final(directory)@.consistent(),
        final(directory)@ == without_all(
            old(directory)@,
            all_over(old(directory)@, now, handshake_timeout, reap_after),
        ),
        exists|list: Seq<CarrierAddress>| #[trigger]
            lists_authenticated(
                old(directory)@,
                all_over(old(directory)@, now, handshake_timeout, reap_after),
                list,
            ) && gone@ == identities(old(directory)@, list),
{
    let ghost before = directory@;
    let ghost all = all_over(before, now, handshake_timeout, reap_after);
    let expired = directory.expired(now, handshake_timeout, reap_after);
    let mut gone: Vec<UdpIdentity> = Vec::new();
    let ghost mut list: Seq<CarrierAddress> = Seq::empty();
    let mut i: usize = 0;
    proof {
        lemma_without_none(before);
        assert(expired@.take(0).to_set() =~= Set::empty());
        assert(gone@ =~= identities(before, list));
    }
    while i < expired.len()
        invariant
            i <= expired@.len(),
            directory.valid(),
            before.consistent() ==> directory@.consistent(),
            expired@.no_duplicates(),
            all == all_over(before, now, handshake_timeout, reap_after),
            forall|address: CarrierAddress| #[trigger]
                expired@.contains(address) <==> over(
                    before,
                    address,
                    now,
                    handshake_timeout,
                    reap_after,
                ),
            directory@ == without_all(before, expired@.take(i as int).to_set()),
            lists_authenticated(before, expired@.take(i as int).to_set(), list),
            gone@ == identities(before, list),
        decreases expired@.len() - i,
    {
        let address = expired[i];
        let ghost held = list;
        let ghost earlier = expired@.take(i as int);
        proof {
            assert(expired@.contains(address));
            assert(expired@.take(i + 1) =~= earlier.push(address));
            assert(!earlier.contains(address)) by {
                if earlier.contains(address) {
                    let j = choose|j: int| 0 <= j < earlier.len() && earlier[j] == address;
                    assert(expired@[j] == expired@[i as int]);
                }
            }
            assert(earlier.push(address).to_set() =~= earlier.to_set().insert(address)) by {
                assert forall|other: CarrierAddress|
                    earlier.push(address).contains(other) <==> earlier.contains(other) || other
                        == address by {
                    if earlier.contains(other) {
                        let k = choose|k: int| 0 <= k < earlier.len() && earlier[k] == other;
                        assert(earlier.push(address)[k] == other);
                    }
                    assert(earlier.push(address)[earlier.len() as int] == address);
                }
            }
            lemma_without_one_more(before, earlier.to_set(), address);
        }
        match directory.remove(address) {
            Some(client) => match client.state {
                UdpSessionState::Authenticated(identity) => {
                    gone.push(identity);
                    proof {
                        list = held.push(address);
                        assert(gone@ =~= identities(before, list));
                    }
                },
                UdpSessionState::AwaitingAuth => {},
            },
            None => {},
        }
        proof {
            let now_gone = earlier.to_set().insert(address);
            assert(!held.contains(address));
            assert forall|other: CarrierAddress| #[trigger]
                list.contains(other) <==> now_gone.contains(other) && before.clients[other].state
                    is Authenticated by {
                if held.contains(other) {
                    let k = choose|k: int| 0 <= k < held.len() && held[k] == other;
                    assert(list[k] == other);
                }
                if list.len() > held.len() {
                    assert(list[held.len() as int] == address);
                }
                if list.contains(other) && other != address {
                    let k = choose|k: int| 0 <= k < list.len() && list[k] == other;
                    assert(held[k] == other);
                }
            }
        }
        i += 1;
    }
    proof {
        assert(expired@.take(expired@.len() as int) =~= expired@);
        assert(expired@.to_set() =~= all);
    }
    gone
}

/// What is reaped is exactly what is over: half-open peers that are older than a handshake may
/// take, and authenticated ones that were silent for longer than the window.
pub proof fn law_what_is_over_is_reaped(
    directory: DirectoryView,
    address: CarrierAddress,
    now: u64,
    handshake_timeout: u64,
    limit: u64,
)
    ensures
        all_over(directory, now, handshake_timeout, Some(limit)).contains(address)
            <==> directory.clients.contains_key(address) && {
            let client = directory.clients[address];
            if client.session_id() is Some {
                now > client.last_activity + limit
            } else {
                now > client.created_at + handshake_timeout
            }
        },
        all_over(directory, now, handshake_timeout, None).contains(address)
            <==> directory.clients.contains_key(address)
            && directory.clients[address].session_id() is None && now
            > directory.clients[address].created_at + handshake_timeout,
        may_roam(directory, address) <==> !directory.clients.contains_key(address)
            || directory.clients[address].identity() is Some,
{
}

/// The sessions that are given back are named one for one by the addresses that they leave.
pub proof fn law_reaped_sessions_are_named(
    directory: DirectoryView,
    addresses: Set<CarrierAddress>,
    list: Seq<CarrierAddress>,
    i: int,
    identity: UdpIdentity,
)
    requires
        lists_authenticated(directory, addresses, list),
        0 <= i < list.len(),
    ensures
        addresses.contains(list[i]),
        directory.clients[list[i]].session_id() is Some,
        identities(directory, list).len() == list.len(),
        directory.clients[list[i]].state == UdpSessionState::Authenticated(identity) ==> identities(
            directory,
            list,
        )[i] == identity,
        forall|address: CarrierAddress|
            addresses.contains(address) && (#[trigger]
            directory.clients[address]).session_id() is Some ==> list.contains(address),
        forall|j: int| 0 <= j < list.len() && j != i ==> list[j] != list[i],
{
    assert(list.contains(list[i]));
    assert forall|address: CarrierAddress|
        addresses.contains(address) && (#[trigger] directory.clients[address]).session_id()
            is Some implies list.contains(address) by {
        assert(directory.clients[address].state is Authenticated);
    }
}

/// Sessions are reaped after the shorter of the two times that count: the idle timeout counts from
/// a second on, the liveness deadline where there is one.
pub proof fn law_the_shorter_time_reaps(
    idle_timeout: u64,
    liveness_deadline: Option<u64>,
    window: Option<u64>,
)
    requires
        call_ensures(udp_reap_window, (idle_timeout, liveness_deadline), window),
    ensures
        window is None <==> idle_timeout < 1_000_000_000 && liveness_deadline is None,
        window matches Some(time) ==> {
            &&& idle_timeout >= 1_000_000_000 ==> time <= idle_timeout
            &&& liveness_deadline matches Some(deadline) ==> time <= deadline
            &&& time == idle_timeout && idle_timeout >= 1_000_000_000 || liveness_deadline == Some(
                time,
            )
        },
{
}

/// Maintenance runs as often as the traffic in use needs, never more often than every 20
/// milliseconds; for a heartbeat alone at least every 200.
pub proof fn law_maintenance_keeps_pace(
    shaping_on: bool,
    idle_gap_min_ms: u64,
    heartbeat_enabled: bool,
    heartbeat_interval_ms: u64,
    default_ms: u64,
    tick: u64,
)
    requires
        call_ensures(
            maintenance_tick_ms,
            (shaping_on, idle_gap_min_ms, heartbeat_enabled, heartbeat_interval_ms, default_ms),
            tick,
        ),
    ensures
        shaping_on || heartbeat_enabled ==> tick >= 20,
        shaping_on && idle_gap_min_ms >= 20 ==> tick == idle_gap_min_ms,
        shaping_on && idle_gap_min_ms < 20 ==> tick == 20,
        !shaping_on && heartbeat_enabled ==> tick <= 200,
        !shaping_on && heartbeat_enabled && 20 <= heartbeat_interval_ms <= 200 ==> tick
            == heartbeat_interval_ms,
        !shaping_on && heartbeat_enabled && heartbeat_interval_ms > 200 ==> tick == 200,
        !shaping_on && heartbeat_enabled && heartbeat_interval_ms < 20 ==> tick == 20,
        !shaping_on && !heartbeat_enabled ==> tick == default_ms,
{
}

/// Idle traffic needs both its switch and its rate.
pub proof fn law_idle_traffic_needs_a_rate(
    heartbeat_enabled: bool,
    heartbeat_interval_ms: u64,
    shaping_enabled: bool,
    budget: u64,
    traffic: IdleTraffic,
)
    requires
        call_ensures(
            idle_traffic,
            (heartbeat_enabled, heartbeat_interval_ms, shaping_enabled, budget),
            traffic,
        ),
    ensures
        traffic.heartbeat <==> heartbeat_enabled && heartbeat_interval_ms >= 1,
        traffic.shaping <==> shaping_enabled && budget >= 1,
{
}

/// A beacon has up to 32 bytes more than its size, and neither bound is above the cap.
pub proof fn law_beacons_are_padded(data_size: u16, cap: usize, range: (u16, u16))
    requires
        call_ensures(beacon_padding, (data_size, cap), range),
    ensures
        range.0 <= range.1 <= cap,
        data_size + 32 <= cap && data_size + 32 <= 65535 ==> range == (
            data_size,
            (data_size + 32) as u16,
        ),
        cap <= 65535 && data_size >= cap ==> range == (cap as u16, cap as u16),
        data_size <= cap < data_size + 32 && cap <= 65535 ==> range == (data_size, cap as u16),
        cap >= 65535 && data_size + 32 > 65535 ==> range == (data_size, 65535u16),
{
}

/// Cover has the size asked for, up to the cap.
pub proof fn law_cover_is_capped(requested: usize, cap: usize, size: usize)
    requires
        call_ensures(cover_size, (requested, cap), size),
    ensures
        size <= cap && size <= requested,
        size == cap || size == requested,
{
}

/// A datagram goes by its connection id where that is registered, unless its address has a session
/// that does not roam; else to the session or the hello of its address. Only what is left is taken
/// for junk, or charged to its source.
pub proof fn law_datagrams_are_routed(
    directory: UdpSessionDirectory,
    partial: PartialHellos,
    address: CarrierAddress,
    cid_registered: bool,
    junk: bool,
    route: IngressRoute,
)
    requires
        directory.valid(),
        call_ensures(route_ingress, (&directory, &partial, address, cid_registered, junk), route),
    ensures
        ({
            let known = directory@.clients.contains_key(address);
            let roams = known && directory@.clients[address].identity() is Some;
            let pending = exists|i: int|
                0 <= i < partial@.len() && (#[trigger] partial@[i]).address == address;
            &&& route is Roaming <==> cid_registered && (!known || roams)
            &&& !(route is Roaming) ==> (route is Session <==> known || pending)
            &&& !(route is Roaming) && !known && !pending ==> (route is DropJunk <==> junk)
            &&& !(route is Roaming) && !known && !pending ==> (route is RateLimit <==> !junk)
        }),
{
}

/// Sockets share a buffer where it is automatic and configured at all.
pub proof fn law_automatic_buffers_are_shared(
    automatic: bool,
    configured: usize,
    shared: ReceiveBuffer,
    maximum: usize,
    buffer: ReceiveBuffer,
)
    requires
        call_ensures(receive_buffer, (automatic, configured, shared, maximum), buffer),
    ensures
        automatic && configured > 0 ==> buffer == shared,
        !automatic || configured == 0 ==> buffer.initial == configured && buffer.maximum == maximum,
{
}

/// A full queue is counted, a closed worker warned of; a connection id that is unknown is no news.
pub proof fn law_route_failures_are_noted(failure: RouteFailure, note: RouteFailureNote)
    requires
        call_ensures(note_route_failure, (failure,), note),
    ensures
        note is Count <==> failure is QueueFull,
        note is Warn <==> failure is WorkerClosed,
        note is Silent <==> failure is UnknownCid,
        note is Error <==> failure is InvalidTopology || failure is UnknownWorker,
{
}

} // verus!
