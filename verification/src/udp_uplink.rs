//! What happens to a packet that came out of a client's tunnel.
//!
//! Control never reaches the network. A source that the session may not claim is judged before
//! anything that reasons about the session's rights; a limited client waits in a queue of its own,
//! so that it cannot stall the others.

use crate::buffer_pool::{BufferPool, PoolView, PooledBuffer};
use crate::packet_tun::contents;
use crate::text::append_bytes;
use vstd::prelude::*;

verus! {

/// The packets of a bundle, where they ended up.
#[derive(Debug)]
pub struct Unbundled {
    pub packets: Vec<PooledBuffer>,
    /// Packets for which no buffer was at hand.
    pub exhausted: u64,
    /// Packets larger than a buffer.
    pub oversize: u64,
}

#[verifier::ext_equal]
pub struct UnbundledView {
    pub packets: Seq<Seq<u8>>,
    pub exhausted: nat,
    pub oversize: nat,
}

pub open spec fn bundle_views(bundle: Seq<Vec<u8>>) -> Seq<Seq<u8>> {
    bundle.map_values(|packet: Vec<u8>| packet@)
}

/// What becomes of a bundle with so many buffers at hand: one after the other, each packet takes
/// a buffer, unless none is left or it does not fit.
pub open spec fn unbundled(bundle: Seq<Seq<u8>>, buffers: nat, capacity: nat) -> UnbundledView
    decreases bundle.len(),
{
    if bundle.len() == 0 {
        UnbundledView { packets: Seq::empty(), exhausted: 0, oversize: 0 }
    } else {
        let front = unbundled(bundle.drop_last(), buffers, capacity);
        if front.packets.len() >= buffers {
            UnbundledView { exhausted: front.exhausted + 1, ..front }
        } else if bundle.last().len() > capacity {
            UnbundledView { oversize: front.oversize + 1, ..front }
        } else {
            UnbundledView { packets: front.packets.push(bundle.last()), ..front }
        }
    }
}

/// Moves the packets of a bundle into buffers of the pool.
pub fn unbundle(pool: &mut BufferPool, bundle: &Vec<Vec<u8>>) -> (result: Unbundled)
    requires
        old(pool).valid(),
    ensures
        ({
            let expected = unbundled(
                bundle_views(bundle@),
                old(pool)@.available,
                old(pool)@.capacity,
            );
            &&& contents(result.packets@) == expected.packets
            &&& result.exhausted == expected.exhausted
            &&& result.oversize == expected.oversize
            &&& final(pool).valid()
            &&& final(pool)@ == (PoolView {
                available: (old(pool)@.available - result.packets@.len()) as nat,
                ..old(pool)@
            })
        }),
{
    let mut result = Unbundled { packets: Vec::new(), exhausted: 0, oversize: 0 };
    let capacity: usize = pool.buffer_capacity();
    let total: usize = bundle.len();
    let ghost all = bundle_views(bundle@);
    let ghost at_hand = pool@.available;
    let mut i: usize = 0;
    assert(all.take(0) =~= Seq::<Seq<u8>>::empty());
    assert(contents(result.packets@) =~= Seq::<Seq<u8>>::empty());
    while i < total
        invariant
            i <= total,
            total == bundle@.len(),
            all == bundle_views(bundle@),
            at_hand == old(pool)@.available,
            capacity == old(pool)@.capacity,
            pool.valid(),
            result.packets@.len() <= at_hand,
            pool@ == (PoolView {
                available: (at_hand - result.packets@.len()) as nat,
                ..old(pool)@
            }),
            contents(result.packets@) == unbundled(all.take(i as int), at_hand, capacity as nat).packets,
            result.exhausted == unbundled(all.take(i as int), at_hand, capacity as nat).exhausted,
            result.oversize == unbundled(all.take(i as int), at_hand, capacity as nat).oversize,
            result.exhausted + result.oversize <= i,
        decreases bundle@.len() - i,
    {
        assert(all.take(i + 1).drop_last() =~= all.take(i as int));
        assert(all.take(i + 1).last() == bundle@[i as int]@);
        match pool.try_acquire() {
            None => {
                result.exhausted = result.exhausted + 1;
            },
            Some(mut buffer) => {
                if bundle[i].len() > capacity {
                    pool.give_back(buffer);
                    result.oversize = result.oversize + 1;
                } else {
                    let ghost before = result.packets@;
                    append_bytes(buffer.as_vec_mut(), bundle[i].as_slice());
                    assert(buffer@ =~= bundle@[i as int]@);
                    result.packets.push(buffer);
                    assert(contents(result.packets@) =~= contents(before).push(bundle@[i as int]@));
                }
            },
        }
        i += 1;
    }
    assert(all.take(all.len() as int) =~= all);
    result
}

/// Nothing of a bundle disappears: every packet is forwarded or counted, and no more are forwarded
/// than there were buffers.
pub proof fn law_bundles_are_accounted_for(bundle: Seq<Seq<u8>>, buffers: nat, capacity: nat)
    ensures
        ({
            let result = unbundled(bundle, buffers, capacity);
            &&& result.packets.len() + result.exhausted + result.oversize == bundle.len()
            &&& result.packets.len() <= buffers
            &&& forall|i: int|
                0 <= i < result.packets.len() ==> (#[trigger] result.packets[i]).len() <= capacity
        }),
    decreases bundle.len(),
{
    if bundle.len() > 0 {
        law_bundles_are_accounted_for(bundle.drop_last(), buffers, capacity);
    }
}

/// Control of the newer format.
#[derive(Debug, Clone, Copy, PartialEq, Eq, Structural)]
pub enum ManagementFrame {
    Unreadable,
    /// Acknowledges a management message.
    Ack(u32),
    Other,
}

/// A report of the older format.
#[derive(Debug, Clone, Copy, PartialEq, Eq, Structural)]
pub enum ClientReport {
    PathMtu(u16),
    PayloadBudget(u16),
    ClientInfo,
    Unknown,
}

/// A packet as it looks from the outside.
#[derive(Debug, Clone, Copy, PartialEq, Eq, Structural)]
pub struct UplinkPacket {
    pub management: Option<ManagementFrame>,
    pub report: Option<ClientReport>,
    pub len: usize,
    /// Whether the session may claim the source of the packet.
    pub source_allowed: bool,
    /// Whether the user may reach the destination of the packet.
    pub destination_allowed: bool,
}

#[derive(Debug, Clone, Copy, PartialEq, Eq, Structural)]
pub enum UplinkStep {
    Ignore,
    AcknowledgeManagement(u32),
    NotePathMtu(u16),
    /// Probe the path towards the client up to this budget.
    StartProbes(u16),
    NoteClientInfo,
    DropForgedSource,
    DropForbiddenDestination,
    /// Count these bytes and pass the packet on.
    Forward(usize),
    /// Put the packet into the queue of the client.
    Queue,
    /// The queue of the client is full: count the packet as dropped.
    DropQueueFull,
}

/// What happens to a packet. `bundled` packets may hold management frames; a budget report counts
/// where the session negotiated fragments; a limit of zero is none.
pub open spec fn uplink_step(
    packet: UplinkPacket,
    bundled: bool,
    has_budget: bool,
    limit: u32,
    queue_has_room: bool,
) -> UplinkStep {
    if bundled && packet.management is Some {
        match packet.management->Some_0 {
            ManagementFrame::Ack(message_id) => UplinkStep::AcknowledgeManagement(message_id),
            _ => UplinkStep::Ignore,
        }
    } else if packet.report is Some {
        match packet.report->Some_0 {
            ClientReport::PathMtu(mtu) => UplinkStep::NotePathMtu(mtu),
            ClientReport::PayloadBudget(budget) => if has_budget {
                UplinkStep::StartProbes(budget)
            } else {
                UplinkStep::Ignore
            },
            ClientReport::ClientInfo => UplinkStep::NoteClientInfo,
            ClientReport::Unknown => UplinkStep::Ignore,
        }
    } else if packet.len == 0 {
        UplinkStep::Ignore
    } else if !packet.source_allowed {
        UplinkStep::DropForgedSource
    } else if !packet.destination_allowed {
        UplinkStep::DropForbiddenDestination
    } else if limit == 0 {
        UplinkStep::Forward(packet.len)
    } else if queue_has_room {
        UplinkStep::Queue
    } else {
        UplinkStep::DropQueueFull
    }
}

pub fn classify_uplink(
    packet: &UplinkPacket,
    bundled: bool,
    has_budget: bool,
    limit: u32,
    queue_has_room: bool,
) -> (step: UplinkStep)
    ensures
        step == uplink_step(*packet, bundled, has_budget, limit, queue_has_room),
{
    if bundled {
        if let Some(frame) = packet.management {
            return match frame {
                ManagementFrame::Ack(message_id) => UplinkStep::AcknowledgeManagement(message_id),
                _ => UplinkStep::Ignore,
            };
        }
    }
    if let Some(report) = packet.report {
        return match report {
            ClientReport::PathMtu(mtu) => UplinkStep::NotePathMtu(mtu),
            ClientReport::PayloadBudget(budget) => if has_budget {
                UplinkStep::StartProbes(budget)
            } else {
                UplinkStep::Ignore
            },
            ClientReport::ClientInfo => UplinkStep::NoteClientInfo,
            ClientReport::Unknown => UplinkStep::Ignore,
        };
    }
    if packet.len == 0 {
        return UplinkStep::Ignore;
    }
    if !packet.source_allowed {
        return UplinkStep::DropForgedSource;
    }
    if !packet.destination_allowed {
        return UplinkStep::DropForbiddenDestination;
    }
    if limit == 0 {
        UplinkStep::Forward(packet.len)
    } else if queue_has_room {
        UplinkStep::Queue
    } else {
        UplinkStep::DropQueueFull
    }
}

/// Whatever goes on towards the network is a packet of this session: no report, no bundled
/// management frame, with a source that the session may claim and a destination that the user may
/// reach.
pub proof fn law_only_allowed_packets_leave(
    packet: UplinkPacket,
    bundled: bool,
    has_budget: bool,
    limit: u32,
    queue_has_room: bool,
)
    ensures
        ({
            let step = uplink_step(packet, bundled, has_budget, limit, queue_has_room);
            step is Forward || step is Queue ==> packet.report is None && !(bundled
                && packet.management is Some) && packet.len > 0 && packet.source_allowed
                && packet.destination_allowed
        }),
{
}

/// Whether a queued packet may still be sent: not once the session was revoked or its queue was
/// closed.
pub fn may_upload(closed: bool, revoked: bool) -> (allowed: bool)
    ensures
        allowed == (!closed && !revoked),
{
    !closed && !revoked
}

/// The packets of a bundle are moved one after the other and keep their order: each that fits a
/// buffer gets one as long as there are any, and each other is counted for what kept it out.
pub proof fn law_bundles_are_moved_in_order(
    bundle: Seq<Seq<u8>>,
    next: Seq<u8>,
    buffers: nat,
    capacity: nat,
)
    ensures
        unbundled(Seq::empty(), buffers, capacity).packets.len() == 0,
        unbundled(Seq::empty(), buffers, capacity).exhausted == 0,
        unbundled(Seq::empty(), buffers, capacity).oversize == 0,
        ({
            let before = unbundled(bundle, buffers, capacity);
            let after = unbundled(bundle.push(next), buffers, capacity);
            let room = before.packets.len() < buffers;
            &&& room && next.len() <= capacity ==> after.packets == before.packets.push(next)
                && after.exhausted == before.exhausted && after.oversize == before.oversize
            &&& room && next.len() > capacity ==> after.packets == before.packets
                && after.oversize == before.oversize + 1 && after.exhausted == before.exhausted
            &&& !room ==> after.packets == before.packets && after.exhausted == before.exhausted + 1
                && after.oversize == before.oversize
        }),
{
    assert(bundle.push(next).drop_last() =~= bundle);
}

/// A packet of this session goes on: at once for a client without a limit, through the queue of the
/// client while there is room in it for one with a limit. What is forged or forbidden is dropped.
pub proof fn law_allowed_packets_go_on(
    packet: UplinkPacket,
    bundled: bool,
    has_budget: bool,
    limit: u32,
    queue_has_room: bool,
)
    requires
        packet.report is None,
        !bundled || packet.management is None,
        packet.len > 0,
    ensures
        ({
            let step = uplink_step(packet, bundled, has_budget, limit, queue_has_room);
            let allowed = packet.source_allowed && packet.destination_allowed;
            &&& allowed && limit == 0 ==> step == UplinkStep::Forward(packet.len)
            &&& allowed && limit > 0 && queue_has_room ==> step is Queue
            &&& allowed && limit > 0 && !queue_has_room ==> step is DropQueueFull
            &&& !packet.source_allowed ==> step is DropForgedSource
            &&& packet.source_allowed && !packet.destination_allowed ==> step
                is DropForbiddenDestination
        }),
{
}

/// A client's reports are heard: its path MTU and itself always, a budget where fragments were
/// negotiated; and in a bundle the acknowledgement of a management message.
pub proof fn law_reports_are_heard(
    packet: UplinkPacket,
    bundled: bool,
    has_budget: bool,
    limit: u32,
    queue_has_room: bool,
    number: u16,
    message_id: u32,
)
    ensures
        ({
            let step = uplink_step(packet, bundled, has_budget, limit, queue_has_room);
            let report = packet.report is Some && !(bundled && packet.management is Some);
            &&& report && packet.report == Some(ClientReport::PathMtu(number)) ==> step
                == UplinkStep::NotePathMtu(number)
            &&& report && packet.report == Some(ClientReport::ClientInfo) ==> step is NoteClientInfo
            &&& report && packet.report == Some(ClientReport::PayloadBudget(number)) && has_budget
                ==> step == UplinkStep::StartProbes(number)
            &&& report && packet.report == Some(ClientReport::PayloadBudget(number)) && !has_budget
                ==> step is Ignore
            &&& bundled && packet.management == Some(ManagementFrame::Ack(message_id)) ==> step
                == UplinkStep::AcknowledgeManagement(message_id)
        }),
{
}

/// A session uploads while it is neither closed nor revoked.
pub proof fn law_open_sessions_upload(closed: bool, revoked: bool, allowed: bool)
    requires
        call_ensures(may_upload, (closed, revoked), allowed),
    ensures
        allowed <==> !(closed || revoked),
{
}

} // verus!
