//! How large a datagram towards a client may be.
//!
//! A client reports an upper bound; the server starts at what every path carries and widens only
//! after a probe of exactly that size was answered over exactly the path that is still active.

use crate::budget_math::after;
use crate::carrier::CarrierAddress;
use crate::udp_egress::{
    conservative_udp_payload_budget, UdpEgressFraming, UdpEgressSnapshot, UdpHeader, UdpWire,
    SAFE_IPV4_PAYLOAD, SAFE_IPV6_PAYLOAD,
};
use vstd::prelude::*;

verus! {

/// How long a probe may stay unanswered, in nanoseconds.
pub const DOWNLINK_MTU_PROBE_TIMEOUT: u64 = 500_000_000;

/// The payload beyond which no record needs more.
pub open spec fn useful_budget(wire: UdpWire, wire_wrapper_len: int) -> int {
    if wire.max_record + wire_wrapper_len > usize::MAX {
        usize::MAX as int
    } else {
        wire.max_record + wire_wrapper_len
    }
}

pub fn max_useful_udp_payload_budget(wire: &UdpWire, wire_wrapper_len: usize) -> (budget: usize)
    ensures
        budget == useful_budget(*wire, wire_wrapper_len as int),
{
    if wire.max_record > usize::MAX - wire_wrapper_len {
        usize::MAX
    } else {
        wire.max_record + wire_wrapper_len
    }
}

/// A reported budget, not below what the family carries and not above what is useful.
pub open spec fn sanitized(
    wire: UdpWire,
    reported: u16,
    outer_ipv6: bool,
    wire_wrapper_len: int,
) -> int {
    let least: int = if outer_ipv6 {
        SAFE_IPV6_PAYLOAD as int
    } else {
        SAFE_IPV4_PAYLOAD as int
    };
    if reported < least {
        least
    } else if reported > useful_budget(wire, wire_wrapper_len) {
        useful_budget(wire, wire_wrapper_len)
    } else {
        reported as int
    }
}

pub fn sanitized_udp_payload_budget(
    wire: &UdpWire,
    reported: u16,
    outer_ipv6: bool,
    wire_wrapper_len: usize,
) -> (budget: usize)
    requires
        wire.valid(),
    ensures
        budget == sanitized(*wire, reported, outer_ipv6, wire_wrapper_len as int),
{
    let least: usize = conservative_udp_payload_budget(outer_ipv6);
    let most: usize = max_useful_udp_payload_budget(wire, wire_wrapper_len);
    if (reported as usize) < least {
        least
    } else if (reported as usize) > most {
        most
    } else {
        reported as usize
    }
}

/// A reported budget never takes a path below what its family carries, nor beyond the largest
/// record.
pub proof fn law_reported_budget_is_bounded(
    wire: UdpWire,
    reported: u16,
    outer_ipv6: bool,
    wire_wrapper_len: int,
)
    requires
        wire.valid(),
        0 <= wire_wrapper_len,
    ensures
        sanitized(wire, reported, outer_ipv6, wire_wrapper_len) >= if outer_ipv6 {
            SAFE_IPV6_PAYLOAD
        } else {
            SAFE_IPV4_PAYLOAD
        },
        sanitized(wire, reported, outer_ipv6, wire_wrapper_len) <= wire.max_record
            + wire_wrapper_len,
{
}

/// The probes that a report calls for: at most `target` bytes, and between which inner sizes.
#[derive(Debug, Clone, Copy, PartialEq, Eq, Structural)]
pub struct ProbeRange {
    pub target: usize,
    /// What is added to an inner size to get the datagram that carries it.
    pub record_overhead: usize,
    /// Inner sizes, or nothing where only the target itself is probed.
    pub inner: Option<InnerRange>,
}

#[derive(Debug, Clone, Copy, PartialEq, Eq, Structural)]
pub struct InnerRange {
    pub ceiling: i32,
    pub floor: i32,
}

/// The lowest inner size of a ladder. On IPv6 it is the one that just fits the smallest link.
pub open spec fn ladder_floor(wire: UdpWire, ipv6: bool, record_overhead: int, ceiling: int) -> int {
    let wanted = if ipv6 {
        1280 - (record_overhead + 8 + 40)
    } else {
        wire.mtu_min as int
    };
    if wanted < wire.mtu_min {
        wire.mtu_min as int
    } else if wanted > ceiling {
        ceiling
    } else {
        wanted
    }
}

pub open spec fn range_of(
    wire: UdpWire,
    reported: u16,
    ipv6: bool,
    obfs_overhead: int,
    framing: UdpEgressFraming,
) -> ProbeRange {
    let wrapper = obfs_overhead + framing.wrapper(wire);
    let target = sanitized(wire, reported, ipv6, wrapper);
    let record_overhead = wire.probe_overhead + wrapper;
    let ceiling = if target < record_overhead {
        0
    } else {
        target - record_overhead
    };
    ProbeRange {
        target: target as usize,
        record_overhead: record_overhead as usize,
        inner: if ceiling < wire.mtu_min {
            None
        } else {
            Some(
                InnerRange {
                    ceiling: ceiling as i32,
                    floor: ladder_floor(wire, ipv6, record_overhead, ceiling) as i32,
                },
            )
        },
    }
}

/// Works out which probes a report calls for.
pub fn probe_range(
    wire: &UdpWire,
    reported: u16,
    peer_is_ipv6: bool,
    obfs_overhead: usize,
    framing: &UdpEgressFraming,
) -> (range: ProbeRange)
    requires
        wire.valid(),
        wire.probe_overhead + obfs_overhead + framing.wrapper(*wire) <= usize::MAX,
    ensures
        range == range_of(*wire, reported, peer_is_ipv6, obfs_overhead as int, *framing),
{
    let wrapper: usize = obfs_overhead + framing.wrapper_len(wire);
    let target: usize = sanitized_udp_payload_budget(wire, reported, peer_is_ipv6, wrapper);
    let record_overhead: usize = wire.probe_overhead + wrapper;
    let ceiling: usize = if target < record_overhead {
        0
    } else {
        target - record_overhead
    };
    if ceiling < wire.mtu_min as usize {
        return ProbeRange { target, record_overhead, inner: None };
    }
    let least: i32 = wire.mtu_min as i32;
    let wanted: i32 = if peer_is_ipv6 {
        1280 - (record_overhead as i32 + 48)
    } else {
        least
    };
    let floor: i32 = if wanted < least {
        least
    } else if wanted > ceiling as i32 {
        ceiling as i32
    } else {
        wanted
    };
    ProbeRange {
        target,
        record_overhead,
        inner: Some(InnerRange { ceiling: ceiling as i32, floor }),
    }
}

/// The datagram sizes of a ladder of inner sizes: those within the target, in the ladder's order.
pub open spec fn ladder_budgets(range: ProbeRange, ladder: Seq<i32>) -> Seq<usize>
    decreases ladder.len(),
{
    if ladder.len() == 0 {
        Seq::empty()
    } else {
        let front = ladder_budgets(range, ladder.drop_last());
        let budget = ladder.last() + range.record_overhead;
        if ladder.last() >= 0 && budget <= range.target {
            front.push(budget as usize)
        } else {
            front
        }
    }
}

/// The datagram sizes to probe. `ladder` are the inner sizes from the range's ceiling down to its
/// floor; it is not looked at where only the target is probed.
pub open spec fn probe_budgets(range: ProbeRange, ladder: Seq<i32>) -> Seq<usize> {
    match range.inner {
        None => seq![range.target],
        Some(_) => ladder_budgets(range, ladder),
    }
}

pub fn downlink_mtu_probe_budgets(range: &ProbeRange, ladder: &Vec<i32>) -> (budgets: Vec<usize>)
    ensures
        budgets@ == probe_budgets(*range, ladder@),
{
    let mut budgets: Vec<usize> = Vec::new();
    if range.inner.is_none() {
        budgets.push(range.target);
        assert(budgets@ =~= seq![range.target]);
        return budgets;
    }
    let mut i: usize = 0;
    assert(ladder@.take(0) =~= Seq::<i32>::empty());
    while i < ladder.len()
        invariant
            i <= ladder@.len(),
            budgets@ == ladder_budgets(*range, ladder@.take(i as int)),
        decreases ladder@.len() - i,
    {
        assert(ladder@.take(i + 1).drop_last() =~= ladder@.take(i as int));
        assert(ladder@.take(i + 1).last() == ladder@[i as int]);
        if ladder[i] >= 0 {
            let inner: usize = ladder[i] as usize;
            if range.record_overhead <= range.target && inner <= range.target
                - range.record_overhead {
                budgets.push(inner + range.record_overhead);
            }
        }
        i += 1;
    }
    assert(ladder@.take(ladder@.len() as int) =~= ladder@);
    budgets
}

/// Nothing is probed beyond the target, and a descending ladder gives descending probes.
pub proof fn law_probes_descend_within_the_target(range: ProbeRange, ladder: Seq<i32>)
    requires
        forall|i: int, j: int|
            0 <= i < j < ladder.len() ==> (#[trigger] ladder[i]) > (#[trigger] ladder[j]),
    ensures
        forall|i: int|
            0 <= i < ladder_budgets(range, ladder).len() ==> (#[trigger] ladder_budgets(
                range,
                ladder,
            )[i]) <= range.target,
        forall|i: int, j: int|
            0 <= i < j < ladder_budgets(range, ladder).len() ==> (#[trigger] ladder_budgets(
                range,
                ladder,
            )[i]) > (#[trigger] ladder_budgets(range, ladder)[j]),
        forall|i: int|
            0 <= i < ladder_budgets(range, ladder).len() ==> exists|k: int|
                0 <= k < ladder.len() && (#[trigger] ladder_budgets(range, ladder)[i]) == (
                #[trigger] ladder[k]) + range.record_overhead,
    decreases ladder.len(),
{
    if ladder.len() > 0 {
        let short = ladder.drop_last();
        let front = ladder_budgets(range, short);
        law_probes_descend_within_the_target(range, short);
        let whole = ladder_budgets(range, ladder);
        assert forall|i: int| 0 <= i < whole.len() implies exists|k: int|
            0 <= k < ladder.len() && (#[trigger] whole[i]) == (#[trigger] ladder[k])
                + range.record_overhead by {
            if i < front.len() {
                let k = choose|k: int|
                    0 <= k < short.len() && front[i] == (#[trigger] short[k])
                        + range.record_overhead;
                assert(ladder[k] == short[k]);
            } else {
                assert(ladder[ladder.len() - 1] == ladder.last());
            }
        }
        assert forall|i: int, j: int| 0 <= i < j < whole.len() implies (#[trigger] whole[i]) > (
        #[trigger] whole[j]) by {
            if j == front.len() {
                let k = choose|k: int|
                    0 <= k < short.len() && front[i] == (#[trigger] short[k])
                        + range.record_overhead;
                assert(ladder[k] == short[k]);
                assert(ladder[ladder.len() - 1] == ladder.last());
            }
        }
    }
}

/// On IPv6 the last rung of a full ladder is the datagram that just fits the smallest link.
pub proof fn law_ipv6_floor_fits_the_smallest_link(
    wire: UdpWire,
    reported: u16,
    obfs_overhead: int,
    framing: UdpEgressFraming,
)
    requires
        wire.valid(),
        0 <= obfs_overhead,
        wire.probe_overhead + obfs_overhead + framing.wrapper(wire) + wire.mtu_min
            <= SAFE_IPV6_PAYLOAD,
    ensures
        ({
            let range = range_of(wire, reported, true, obfs_overhead, framing);
            range.inner is Some && range.inner->Some_0.floor + range.record_overhead
                == SAFE_IPV6_PAYLOAD
        }),
{
}

/// The payload of a probe that makes its datagram exactly as large as a budget.
pub open spec fn probe_payload(
    wire: UdpWire,
    budget: int,
    obfs_overhead: int,
    framing: UdpEgressFraming,
) -> Option<u16> {
    let payload = budget - obfs_overhead - framing.wrapper(wire);
    if wire.min_probe_payload <= payload <= u16::MAX && 0 <= payload {
        Some(payload as u16)
    } else {
        None
    }
}

pub fn probe_payload_size(
    wire: &UdpWire,
    udp_payload_budget: usize,
    obfs_overhead: usize,
    framing: &UdpEgressFraming,
) -> (size: Option<u16>)
    ensures
        size == probe_payload(
            *wire,
            udp_payload_budget as int,
            obfs_overhead as int,
            *framing,
        ),
{
    let wrapper: usize = framing.wrapper_len(wire);
    if udp_payload_budget < obfs_overhead || udp_payload_budget - obfs_overhead < wrapper {
        return None;
    }
    let payload: usize = udp_payload_budget - obfs_overhead - wrapper;
    if payload < wire.min_probe_payload || payload > u16::MAX as usize {
        return None;
    }
    Some(payload as u16)
}

/// A probe as it is sent: its header, its token and the size of its payload.
#[derive(Clone, Copy)]
pub struct ProbeDatagram {
    pub header: UdpHeader,
    pub token: u128,
    pub payload_size: u16,
}

/// The probe that makes its datagram exactly as large as a budget, if there is one.
pub fn build_downlink_mtu_probe(
    wire: &UdpWire,
    token: u128,
    udp_payload_budget: usize,
    obfs_overhead: usize,
    framing: &UdpEgressFraming,
    packet_number: u32,
) -> (datagram: Option<ProbeDatagram>)
    ensures
        match datagram {
            Some(datagram) => probe_payload(
                *wire,
                udp_payload_budget as int,
                obfs_overhead as int,
                *framing,
            ) == Some(datagram.payload_size) && datagram.header == framing.header_of(packet_number)
                && datagram.token == token,
            None => probe_payload(
                *wire,
                udp_payload_budget as int,
                obfs_overhead as int,
                *framing,
            ) is None,
        },
{
    match probe_payload_size(wire, udp_payload_budget, obfs_overhead, framing) {
        Some(payload_size) => Some(
            ProbeDatagram { header: framing.header(packet_number), token, payload_size },
        ),
        None => None,
    }
}

/// A probe on its way: over which path, with which token, and what it would certify.
#[derive(Debug, Clone, Copy, PartialEq, Eq, Structural)]
pub struct DownlinkMtuProbe {
    pub path_epoch: u64,
    pub peer: CarrierAddress,
    pub token: u128,
    pub payload_size: u16,
    pub udp_payload_budget: u32,
}

/// What the session of a report looks like.
#[derive(Debug, Clone, Copy, PartialEq, Eq, Structural)]
pub struct ProbeSession {
    pub authenticated: bool,
    pub data_frag_enabled: bool,
    /// Whether the budget of the report is still the one that the session uses.
    pub owns_budget: bool,
}

/// The budgets above what is certified already.
pub open spec fn above(budgets: Seq<usize>, current: u32) -> Seq<usize>
    decreases budgets.len(),
{
    if budgets.len() == 0 {
        Seq::empty()
    } else if current < budgets.last() {
        above(budgets.drop_last(), current).push(budgets.last())
    } else {
        above(budgets.drop_last(), current)
    }
}

/// Whether a probe for this path is on its way.
pub open spec fn probing(pending: Option<DownlinkMtuProbe>, path: UdpEgressSnapshot) -> bool {
    pending matches Some(probe) && probe.path_epoch == path.path_epoch && probe.peer == path.peer
}

/// Which probes a report starts. A report received on a draining address starts none, and one
/// sequence at a time runs on a path.
pub fn start_probes(
    session: ProbeSession,
    path: &UdpEgressSnapshot,
    reported_from: CarrierAddress,
    budgets: &Vec<usize>,
    current: u32,
    pending: &Option<DownlinkMtuProbe>,
) -> (targets: Vec<usize>)
    ensures
        targets@ == if session.authenticated && session.data_frag_enabled && session.owns_budget
            && path.peer == reported_from && !probing(*pending, *path) {
            above(budgets@, current)
        } else {
            Seq::empty()
        },
{
    let mut targets: Vec<usize> = Vec::new();
    if !session.authenticated || !session.data_frag_enabled || !session.owns_budget {
        return targets;
    }
    if path.peer != reported_from {
        return targets;
    }
    let busy = match pending {
        Some(probe) => probe.path_epoch == path.path_epoch && probe.peer == path.peer,
        None => false,
    };
    if busy {
        return targets;
    }
    let mut i: usize = 0;
    assert(budgets@.take(0) =~= Seq::<usize>::empty());
    while i < budgets.len()
        invariant
            i <= budgets@.len(),
            targets@ == above(budgets@.take(i as int), current),
        decreases budgets@.len() - i,
    {
        assert(budgets@.take(i + 1).drop_last() =~= budgets@.take(i as int));
        assert(budgets@.take(i + 1).last() == budgets@[i as int]);
        if (current as usize) < budgets[i] {
            targets.push(budgets[i]);
        }
        i += 1;
    }
    assert(budgets@.take(budgets@.len() as int) =~= budgets@);
    targets
}

/// A probe ready to be sent.
#[derive(Clone, Copy)]
pub struct ProbeFlight {
    pub probe: DownlinkMtuProbe,
    pub header: UdpHeader,
}

/// The packet number after `count` more.
pub open spec fn packet_number_after(counter: u32, count: int) -> u32 {
    ((counter + count) % 0x1_0000_0000) as u32
}

/// The flights of the first `end` targets. Each target takes a token and a packet number, also
/// where no probe of its size can be built.
pub open spec fn flights(
    wire: UdpWire,
    path: UdpEgressSnapshot,
    targets: Seq<usize>,
    tokens: Seq<u128>,
    counter: u32,
    end: int,
) -> Seq<ProbeFlight>
    decreases end,
{
    if end <= 0 {
        Seq::empty()
    } else {
        let front = flights(wire, path, targets, tokens, counter, end - 1);
        let target = targets[end - 1];
        match probe_payload(wire, target as int, path.socket.seal_overhead as int, path.framing) {
            Some(payload_size) => if target <= u32::MAX {
                front.push(
                    ProbeFlight {
                        probe: DownlinkMtuProbe {
                            path_epoch: path.path_epoch,
                            peer: path.peer,
                            token: tokens[end - 1],
                            payload_size,
                            udp_payload_budget: target as u32,
                        },
                        header: path.framing.header_of(packet_number_after(counter, end - 1)),
                    },
                )
            } else {
                front
            },
            None => front,
        }
    }
}

/// Prepares the flights; `tokens` are fresh random numbers, one for each target.
pub fn plan_flights(
    wire: &UdpWire,
    path: &UdpEgressSnapshot,
    targets: &Vec<usize>,
    tokens: &Vec<u128>,
    packet_counter: &mut u32,
) -> (result: Vec<ProbeFlight>)
    requires
        tokens@.len() == targets@.len(),
    ensures
        result@ == flights(
            *wire,
            *path,
            targets@,
            tokens@,
            *old(packet_counter),
            targets@.len() as int,
        ),
        *final(packet_counter) == packet_number_after(
            *old(packet_counter),
            targets@.len() as int,
        ),
{
    let mut result: Vec<ProbeFlight> = Vec::new();
    let ghost first = *packet_counter;
    let mut i: usize = 0;
    while i < targets.len()
        invariant
            i <= targets@.len(),
            tokens@.len() == targets@.len(),
            *packet_counter == packet_number_after(first, i as int),
            result@ == flights(*wire, *path, targets@, tokens@, first, i as int),
        decreases targets@.len() - i,
    {
        let packet_number: u32 = *packet_counter;
        *packet_counter = after(packet_number);
        let target: usize = targets[i];
        if let Some(datagram) = build_downlink_mtu_probe(
            wire,
            tokens[i],
            target,
            path.socket.seal_overhead,
            &path.framing,
            packet_number,
        ) {
            if target as u64 <= u32::MAX as u64 {
                result.push(
                    ProbeFlight {
                        probe: DownlinkMtuProbe {
                            path_epoch: path.path_epoch,
                            peer: path.peer,
                            token: datagram.token,
                            payload_size: datagram.payload_size,
                            udp_payload_budget: target as u32,
                        },
                        header: datagram.header,
                    },
                );
            }
        }
        i += 1;
    }
    result
}

#[derive(Debug, Clone, Copy, PartialEq, Eq, Structural)]
pub enum RungStep {
    Send,
    /// Another path, an answer or another sequence took over: end this one.
    Abandon,
}

/// Moves a running sequence to its next probe. `previous` is the probe before it, which must
/// still be the pending one; on a changed path the sequence withdraws its own marker and ends.
pub fn next_rung(
    pending: &mut Option<DownlinkMtuProbe>,
    previous: Option<DownlinkMtuProbe>,
    expected: DownlinkMtuProbe,
    path_epoch: u64,
    peer: CarrierAddress,
) -> (step: RungStep)
    ensures
        ({
            let own = match previous {
                Some(probe) => probe,
                None => expected,
            };
            if path_epoch != expected.path_epoch || peer != expected.peer {
                &&& step == RungStep::Abandon
                &&& *final(pending) == if *old(pending) == Some(own) {
                    None
                } else {
                    *old(pending)
                }
            } else if *old(pending) != Some(own) {
                step == RungStep::Abandon && *final(pending) == *old(pending)
            } else {
                step == RungStep::Send && *final(pending) == Some(expected)
            }
        }),
{
    let own = match previous {
        Some(probe) => probe,
        None => expected,
    };
    let held = match *pending {
        Some(probe) => probe == own,
        None => false,
    };
    if path_epoch != expected.path_epoch || peer != expected.peer {
        if held {
            *pending = None;
        }
        return RungStep::Abandon;
    }
    if !held {
        return RungStep::Abandon;
    }
    *pending = Some(expected);
    RungStep::Send
}

/// Whether a probe is still unanswered when its time is over, or when it could not be sent.
pub fn is_unanswered(pending: &Option<DownlinkMtuProbe>, expected: DownlinkMtuProbe) -> (open: bool)
    ensures
        open == (*pending == Some(expected)),
{
    match *pending {
        Some(probe) => probe == expected,
        None => false,
    }
}

/// Ends a sequence that no probe answered.
pub fn end_sequence(pending: &mut Option<DownlinkMtuProbe>, last: DownlinkMtuProbe)
    ensures
        *final(pending) == if *old(pending) == Some(last) {
            None
        } else {
            *old(pending)
        },
{
    if is_unanswered(pending, last) {
        *pending = None;
    }
}

/// Takes the answer to a probe: only the exact token and size, over the exact path, count.
pub fn take_answer(
    pending: &mut Option<DownlinkMtuProbe>,
    token: u128,
    payload_size: u16,
    path_epoch: u64,
    peer: CarrierAddress,
) -> (answered: Option<DownlinkMtuProbe>)
    ensures
        match *old(pending) {
            Some(probe) => if probe.token == token && probe.payload_size == payload_size
                && probe.path_epoch == path_epoch && probe.peer == peer {
                answered == Some(probe) && *final(pending) is None
            } else {
                answered is None && *final(pending) == *old(pending)
            },
            None => answered is None && *final(pending) is None,
        },
{
    match *pending {
        Some(probe) => {
            if probe.token != token || probe.payload_size != payload_size || probe.path_epoch
                != path_epoch || probe.peer != peer {
                return None;
            }
            *pending = None;
            Some(probe)
        },
        None => None,
    }
}

/// A budget that a client reports is taken as it is between what its family carries and what the
/// largest record needs; below and above that the limit counts.
pub proof fn law_reports_are_taken_within_limits(
    wire: UdpWire,
    reported: u16,
    outer_ipv6: bool,
    wire_wrapper_len: int,
)
    requires
        wire.valid(),
        0 <= wire_wrapper_len,
        wire.max_record + wire_wrapper_len <= usize::MAX,
    ensures
        ({
            let least: int = if outer_ipv6 {
                1232
            } else {
                548
            };
            let most = wire.max_record + wire_wrapper_len;
            let budget = sanitized(wire, reported, outer_ipv6, wire_wrapper_len);
            &&& least <= reported <= most ==> budget == reported
            &&& reported < least ==> budget == least
            &&& reported > most ==> budget == most
        }),
{
}

/// The probes that a report calls for reach from the largest inner packet that the report carries
/// down to the smallest one, or over IPv6 to the one that just fits the smallest link; where not
/// even the smallest fits, the report itself is probed.
pub proof fn law_probe_ranges(
    wire: UdpWire,
    reported: u16,
    ipv6: bool,
    obfs_overhead: int,
    framing: UdpEgressFraming,
)
    requires
        wire.valid(),
        0 <= obfs_overhead,
        wire.probe_overhead + obfs_overhead + wire.quic_short_header + wire.roaming_short_header
            + wire.max_record <= 0x7fff_ffff,
    ensures
        ({
            let range = range_of(wire, reported, ipv6, obfs_overhead, framing);
            let header: int = match framing {
                UdpEgressFraming::Unmasked => 0,
                UdpEgressFraming::LegacyQuic(_) => wire.quic_short_header as int,
                UdpEgressFraming::RoamingCid(_) => wire.roaming_short_header as int,
            };
            let overhead = wire.probe_overhead + obfs_overhead + header;
            let target = sanitized(wire, reported, ipv6, obfs_overhead + header);
            &&& range.target == target
            &&& range.record_overhead == overhead
            &&& range.inner is Some <==> target - overhead >= wire.mtu_min
            &&& range.inner matches Some(inner) ==> {
                &&& inner.ceiling + overhead == target
                &&& wire.mtu_min <= inner.floor <= inner.ceiling
                &&& !ipv6 ==> inner.floor == wire.mtu_min
                &&& ipv6 && wire.mtu_min <= 1232 - overhead <= inner.ceiling ==> inner.floor
                    == 1232 - overhead
                &&& ipv6 && 1232 - overhead < wire.mtu_min ==> inner.floor == wire.mtu_min
            }
        }),
{
}

/// Every rung of a ladder that fits the target is probed, with what its record adds; and rungs keep
/// their order.
pub proof fn law_fitting_rungs_are_probed(range: ProbeRange, ladder: Seq<i32>, next: i32)
    requires
        range.target + range.record_overhead <= usize::MAX,
    ensures
        range.inner is None ==> probe_budgets(range, ladder) == seq![range.target],
        range.inner is Some ==> probe_budgets(range, ladder) == ladder_budgets(range, ladder),
        ladder_budgets(range, Seq::empty()).len() == 0,
        0 <= next && next + range.record_overhead <= range.target ==> ladder_budgets(
            range,
            ladder.push(next),
        ) == ladder_budgets(range, ladder).push((next + range.record_overhead) as usize),
        next < 0 || next + range.record_overhead > range.target ==> ladder_budgets(
            range,
            ladder.push(next),
        ) == ladder_budgets(range, ladder),
{
    assert(ladder.push(next).drop_last() =~= ladder);
}

/// A probe fills its datagram exactly: its payload with the header and what the socket adds is the
/// budget. There is one wherever such a payload can hold a probe and be counted in sixteen bits.
pub proof fn law_probes_fill_their_budget(
    wire: UdpWire,
    budget: int,
    obfs_overhead: int,
    framing: UdpEgressFraming,
)
    requires
        0 <= obfs_overhead,
    ensures
        ({
            let header: int = match framing {
                UdpEgressFraming::Unmasked => 0,
                UdpEgressFraming::LegacyQuic(_) => wire.quic_short_header as int,
                UdpEgressFraming::RoamingCid(_) => wire.roaming_short_header as int,
            };
            let payload = probe_payload(wire, budget, obfs_overhead, framing);
            &&& payload matches Some(size) ==> size + header + obfs_overhead == budget
            &&& payload is Some <==> wire.min_probe_payload <= budget - header - obfs_overhead
                <= 65535
        }),
{
}

/// Only sizes above what is certified are probed, in their order; and none while a probe of the same
/// path is on its way.
pub proof fn law_only_larger_sizes_are_probed(
    budgets: Seq<usize>,
    next: usize,
    current: u32,
    pending: Option<DownlinkMtuProbe>,
    path: UdpEgressSnapshot,
)
    ensures
        above(Seq::empty(), current).len() == 0,
        next > current ==> above(budgets.push(next), current) == above(budgets, current).push(next),
        next <= current ==> above(budgets.push(next), current) == above(budgets, current),
        probing(pending, path) <==> pending is Some && pending->Some_0.path_epoch
            == path.path_epoch && pending->Some_0.peer == path.peer,
{
    assert(budgets.push(next).drop_last() =~= budgets);
}

/// Each target gets a flight of its own: over the path as it is, with its own token, the payload
/// that fills it, and the packet number of its place. Packet numbers start over after the last.
pub proof fn law_flights_carry_their_target(
    wire: UdpWire,
    path: UdpEgressSnapshot,
    targets: Seq<usize>,
    tokens: Seq<u128>,
    counter: u32,
    end: int,
)
    requires
        0 <= end < targets.len(),
        tokens.len() == targets.len(),
        targets[end] <= u32::MAX,
    ensures
        ({
            let payload = probe_payload(
                wire,
                targets[end] as int,
                path.socket.seal_overhead as int,
                path.framing,
            );
            let before = flights(wire, path, targets, tokens, counter, end);
            let after = flights(wire, path, targets, tokens, counter, end + 1);
            &&& payload is None ==> after == before
            &&& payload matches Some(size) ==> {
                &&& after.len() == before.len() + 1
                &&& after.take(before.len() as int) == before
                &&& after.last().probe.path_epoch == path.path_epoch
                &&& after.last().probe.peer == path.peer
                &&& after.last().probe.token == tokens[end]
                &&& after.last().probe.payload_size == size
                &&& after.last().probe.udp_payload_budget == targets[end]
                &&& after.last().header == path.framing.header_of(
                    packet_number_after(counter, end),
                )
            }
        }),
        flights(wire, path, targets, tokens, counter, 0).len() == 0,
        packet_number_after(counter, 0) == counter,
        packet_number_after(counter, end + 1) == if packet_number_after(counter, end)
            == 0xffff_ffff {
            0
        } else {
            packet_number_after(counter, end) + 1
        },
{
    let before = flights(wire, path, targets, tokens, counter, end);
    let after = flights(wire, path, targets, tokens, counter, end + 1);
    assert(after.take(before.len() as int) =~= before);
    vstd::arithmetic::div_mod::lemma_fundamental_div_mod(counter + end, 0x1_0000_0000);
    vstd::arithmetic::div_mod::lemma_fundamental_div_mod(counter + end + 1, 0x1_0000_0000);
}

/// A report starts the probes above the budget in use where its session takes part, it came from
/// the peer of the path, and no probe of that path is on its way; otherwise it starts none.
pub proof fn law_reports_start_probes(
    session: ProbeSession,
    path: UdpEgressSnapshot,
    reported_from: CarrierAddress,
    budgets: Vec<usize>,
    current: u32,
    pending: Option<DownlinkMtuProbe>,
    targets: Vec<usize>,
    at: int,
)
    requires
        call_ensures(
            start_probes,
            (session, &path, reported_from, &budgets, current, &pending),
            targets,
        ),
    ensures
        ({
            let free = pending is None || pending->Some_0.path_epoch != path.path_epoch
                || pending->Some_0.peer != path.peer;
            let starts = session.authenticated && session.data_frag_enabled && session.owns_budget
                && path.peer == reported_from && free;
            &&& starts ==> targets@ == above(budgets@, current)
            &&& !starts ==> targets@.len() == 0
            &&& starts && 0 <= at < budgets@.len() && budgets@[at] > current ==> targets@.contains(
                budgets@[at],
            )
        }),
{
    if 0 <= at < budgets@.len() && budgets@[at] > current {
        lemma_larger_sizes_are_kept(budgets@, current, at);
    }
}

proof fn lemma_larger_sizes_are_kept(budgets: Seq<usize>, current: u32, at: int)
    requires
        0 <= at < budgets.len(),
        budgets[at] > current,
    ensures
        above(budgets, current).contains(budgets[at]),
    decreases budgets.len(),
{
    let front = budgets.drop_last();
    let before = above(front, current);
    if at < budgets.len() - 1 {
        lemma_larger_sizes_are_kept(front, current, at);
        let i = choose|i: int| 0 <= i < before.len() && before[i] == budgets[at];
        assert(above(budgets, current)[i] == budgets[at]);
    } else {
        assert(above(budgets, current)[before.len() as int] == budgets[at]);
    }
}

/// A sequence of probes goes on while its path stays and its own probe is the one that is open;
/// then the next probe takes its place. On another path its own probe is withdrawn, never that of
/// another sequence.
pub proof fn law_sequences_go_on_by_their_own_probe(
    previous: Option<DownlinkMtuProbe>,
    expected: DownlinkMtuProbe,
    path_epoch: u64,
    peer: CarrierAddress,
    step: RungStep,
)
    ensures
        forall|pending: &mut Option<DownlinkMtuProbe>| #[trigger]
            call_ensures(next_rung, (pending, previous, expected, path_epoch, peer), step) ==> {
                let here = path_epoch == expected.path_epoch && peer == expected.peer;
                let first = previous is None && *pending == Some(expected);
                let later = previous is Some && *pending == previous;
                &&& step is Send <==> here && (first || later)
                &&& step is Send ==> *final(pending) == Some(expected)
                &&& step is Abandon && here ==> *final(pending) == *pending
                &&& !here && (first || later) ==> *final(pending) is None
                &&& !here && !(first || later) ==> *final(pending) == *pending
            },
{
}

/// An answer counts where it names the open probe in every respect: its token, its size, its path
/// and its peer. It is taken once; any other answer leaves the probe open.
pub proof fn law_answers_name_their_probe(
    token: u128,
    payload_size: u16,
    path_epoch: u64,
    peer: CarrierAddress,
    answered: Option<DownlinkMtuProbe>,
)
    ensures
        forall|pending: &mut Option<DownlinkMtuProbe>| #[trigger]
            call_ensures(
                take_answer,
                (pending, token, payload_size, path_epoch, peer),
                answered,
            ) ==> {
                let own = *pending is Some && pending->Some_0.token == token
                    && pending->Some_0.payload_size == payload_size && pending->Some_0.path_epoch
                    == path_epoch && pending->Some_0.peer == peer;
                &&& own ==> answered == *pending && *final(pending) is None
                &&& !own ==> answered is None && *final(pending) == *pending
            },
{
}

/// A sequence ends by withdrawing its own last probe, and a probe is unanswered while it is the
/// open one.
pub proof fn law_sequences_end_by_their_own_probe(
    pending: Option<DownlinkMtuProbe>,
    last: DownlinkMtuProbe,
    open: bool,
)
    requires
        call_ensures(is_unanswered, (&pending, last), open),
    ensures
        open <==> pending is Some && pending->Some_0 == last,
        forall|slot: &mut Option<DownlinkMtuProbe>| #[trigger]
            call_ensures(end_sequence, (slot, last), ()) ==> (*slot == Some(last) ==> *final(slot)
                is None) && (*slot != Some(last) ==> *final(slot) == *slot),
{
}

/// The largest useful payload is that of the largest record with its header.
pub proof fn law_useful_payloads(wire: UdpWire, wrapper: usize, budget: usize)
    requires
        call_ensures(max_useful_udp_payload_budget, (&wire, wrapper), budget),
    ensures
        wire.max_record + wrapper <= usize::MAX ==> budget == wire.max_record + wrapper,
        wire.max_record + wrapper > usize::MAX ==> budget == usize::MAX,
{
}

} // verus!
