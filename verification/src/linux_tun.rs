//! Framing, buffer budgets and worker decisions of the fd-backed TUN/TAP packet backend.
//!
//! The transports consume and produce IP packets; TAP and utun framing is added and taken off
//! here. Reading and writing descriptors is left to the caller.

use vstd::prelude::*;

verus! {

pub const FROM_TUN_CAPACITY: usize = 4096;

pub const TO_TUN_CAPACITY: usize = 2048;

pub const MAX_REUSABLE_BUFFER_BYTES: usize = 4194304;

pub const MIN_REUSABLE_BUFFERS: usize = 4;

pub const MAX_REUSABLE_BUFFERS: usize = 64;

pub const MAX_DOWNLINK_BUFFER_BYTES: usize = 4194304;

pub const MIN_DOWNLINK_BUFFERS: usize = 4;

/// Buffers beyond the queue that they feed cannot be in flight anyway.
pub const MAX_DOWNLINK_BUFFERS: usize = TO_TUN_CAPACITY;

/// One protocol-maximum record with its header.
pub const DOWNLINK_BUFFER_CAPACITY: usize = 16645;

/// Floor for a slot, so that a bogus MTU cannot produce a pool of useless slivers.
pub const MIN_DOWNLINK_SLOT_BYTES: usize = 2048;

pub const ETHERNET_HEADER_LEN: usize = 14;

pub const DARWIN_AF_INET: u32 = 2;

pub const DARWIN_AF_INET6: u32 = 30;

/// What a budget of bytes holds, within bounds.
pub open spec fn budgeted(budget: int, size: int, least: int, most: int) -> int {
    if size == 0 {
        least
    } else if budget / size < least {
        least
    } else if budget / size > most {
        most
    } else {
        budget / size
    }
}

/// How many read buffers of a size are kept.
pub fn reusable_buffer_count(buffer_size: usize) -> (count: usize)
    ensures
        count == budgeted(
            MAX_REUSABLE_BUFFER_BYTES as int,
            buffer_size as int,
            MIN_REUSABLE_BUFFERS as int,
            MAX_REUSABLE_BUFFERS as int,
        ),
{
    if buffer_size == 0 {
        return MIN_REUSABLE_BUFFERS;
    }
    let count: usize = MAX_REUSABLE_BUFFER_BYTES / buffer_size;
    if count < MIN_REUSABLE_BUFFERS {
        MIN_REUSABLE_BUFFERS
    } else if count > MAX_REUSABLE_BUFFERS {
        MAX_REUSABLE_BUFFERS
    } else {
        count
    }
}

/// How many downlink buffers of a size are kept.
pub fn reusable_downlink_buffer_count(buffer_capacity: usize) -> (count: usize)
    ensures
        count == budgeted(
            MAX_DOWNLINK_BUFFER_BYTES as int,
            buffer_capacity as int,
            MIN_DOWNLINK_BUFFERS as int,
            MAX_DOWNLINK_BUFFERS as int,
        ),
{
    if buffer_capacity == 0 {
        return MIN_DOWNLINK_BUFFERS;
    }
    let count: usize = MAX_DOWNLINK_BUFFER_BYTES / buffer_capacity;
    if count < MIN_DOWNLINK_BUFFERS {
        MIN_DOWNLINK_BUFFERS
    } else if count > MAX_DOWNLINK_BUFFERS {
        MAX_DOWNLINK_BUFFERS
    } else {
        count
    }
}

/// The slot for a record of a size, between the floor and one full record.
pub open spec fn slot_size(record_bytes: int) -> int {
    if record_bytes < MIN_DOWNLINK_SLOT_BYTES {
        MIN_DOWNLINK_SLOT_BYTES as int
    } else if record_bytes > DOWNLINK_BUFFER_CAPACITY {
        DOWNLINK_BUFFER_CAPACITY as int
    } else {
        record_bytes
    }
}

pub fn downlink_slot(record_bytes: usize) -> (slot: usize)
    ensures
        slot == slot_size(record_bytes as int),
{
    if record_bytes < MIN_DOWNLINK_SLOT_BYTES {
        MIN_DOWNLINK_SLOT_BYTES
    } else if record_bytes > DOWNLINK_BUFFER_CAPACITY {
        DOWNLINK_BUFFER_CAPACITY
    } else {
        record_bytes
    }
}

/// The downlink pool stays within its memory budget whatever record size is asked for; the read
/// pool does so for buffers of up to a quarter of its budget.
pub proof fn law_pools_stay_within_budget(record_bytes: int, buffer_size: int)
    requires
        record_bytes >= 0,
        0 < buffer_size <= MAX_REUSABLE_BUFFER_BYTES / MIN_REUSABLE_BUFFERS,
    ensures
        ({
            let slot = slot_size(record_bytes);
            let count = budgeted(
                MAX_DOWNLINK_BUFFER_BYTES as int,
                slot,
                MIN_DOWNLINK_BUFFERS as int,
                MAX_DOWNLINK_BUFFERS as int,
            );
            &&& MIN_DOWNLINK_BUFFERS <= count <= MAX_DOWNLINK_BUFFERS
            &&& count * slot <= MAX_DOWNLINK_BUFFER_BYTES
        }),
        ({
            let count = budgeted(
                MAX_REUSABLE_BUFFER_BYTES as int,
                buffer_size,
                MIN_REUSABLE_BUFFERS as int,
                MAX_REUSABLE_BUFFERS as int,
            );
            &&& MIN_REUSABLE_BUFFERS <= count <= MAX_REUSABLE_BUFFERS
            &&& count * buffer_size <= MAX_REUSABLE_BUFFER_BYTES
        }),
{
    lemma_budget(
        MAX_DOWNLINK_BUFFER_BYTES as int,
        slot_size(record_bytes),
        MIN_DOWNLINK_BUFFERS as int,
        MAX_DOWNLINK_BUFFERS as int,
    );
    lemma_budget(
        MAX_REUSABLE_BUFFER_BYTES as int,
        buffer_size,
        MIN_REUSABLE_BUFFERS as int,
        MAX_REUSABLE_BUFFERS as int,
    );
}

proof fn lemma_budget(budget: int, size: int, least: int, most: int)
    requires
        0 < size,
        0 < least <= most,
        size <= budget / least,
    ensures
        least <= budgeted(budget, size, least, most) <= most,
        budgeted(budget, size, least, most) * size <= budget,
{
    let fit = budget / size;
    assert(fit * size <= budget) by (nonlinear_arith)
        requires
            0 < size,
            fit == budget / size,
    ;
    assert(size * least <= budget) by (nonlinear_arith)
        requires
            size <= budget / least,
            0 < least,
    ;
    assert(fit >= least) by (nonlinear_arith)
        requires
            size * least <= budget,
            fit == budget / size,
            0 < size,
    ;
    if fit > most {
        assert(most * size <= fit * size) by (nonlinear_arith)
            requires
                fit > most,
                0 < size,
        ;
    }
}

/// The address family of an IP packet that is long enough for its header: as utun numbers it, and
/// as an Ethernet type.
pub open spec fn family_of_packet(packet: Seq<u8>) -> Option<(u32, Seq<u8>)> {
    if packet.len() >= 20 && packet[0] / 16 == 4 {
        Some((DARWIN_AF_INET, seq![0x08u8, 0x00u8]))
    } else if packet.len() >= 40 && packet[0] / 16 == 6 {
        Some((DARWIN_AF_INET6, seq![0x86u8, 0xddu8]))
    } else {
        None
    }
}

pub fn packet_family(packet: &[u8]) -> (family: Option<(u32, [u8; 2])>)
    ensures
        match family {
            Some((number, ethertype)) => family_of_packet(packet@) == Some(
                (number, ethertype@),
            ),
            None => family_of_packet(packet@) is None,
        },
{
    if packet.len() >= 20 && packet[0] / 16 == 4 {
        let ethertype: [u8; 2] = [0x08, 0x00];
        assert(ethertype@ =~= seq![0x08u8, 0x00u8]);
        Some((DARWIN_AF_INET, ethertype))
    } else if packet.len() >= 40 && packet[0] / 16 == 6 {
        let ethertype: [u8; 2] = [0x86, 0xdd];
        assert(ethertype@ =~= seq![0x86u8, 0xddu8]);
        Some((DARWIN_AF_INET6, ethertype))
    } else {
        None
    }
}

/// The number that four bytes, highest first, stand for.
pub open spec fn be_value(bytes: Seq<u8>) -> int {
    ((bytes[0] * 256 + bytes[1]) * 256 + bytes[2]) * 256 + bytes[3]
}

/// Addresses of the two ends of a TAP link. The gateway answers for its prefixes.
#[derive(Debug, Clone, Copy)]
pub struct TapHeaders {
    pub client_mac: [u8; 6],
    pub gateway_mac: [u8; 6],
    pub gateway_ipv4: Option<u32>,
    pub ipv4_prefix_len: u8,
    pub gateway_ipv6: Option<u128>,
    pub ipv6_prefix_len: u8,
}

/// Framing carried by one fd-backed TUN implementation.
#[derive(Debug, Clone, Copy)]
pub enum TunFraming {
    /// Raw IP packets.
    Raw,
    /// TAP Ethernet frames.
    Tap(TapHeaders),
    /// utun packets with a four-byte big-endian address-family prefix.
    Utun,
}

/// What the Ethernet layer makes of a TAP frame.
#[derive(Debug, Clone, Copy)]
pub struct TapFrame {
    /// The frame asks the gateway something that is answered locally.
    pub answered: bool,
    /// The frame belongs to the local link control plane.
    pub control: bool,
    /// Where the IP payload starts and ends.
    pub payload: Option<(usize, usize)>,
}

/// What to do with bytes read from the device.
#[derive(Debug, Clone, Copy, PartialEq, Eq, Structural)]
pub enum TunIngress {
    /// Write the local answer back to the device.
    Answer,
    Drop,
    /// Hand out the packet between these positions.
    Deliver(usize, usize),
}

/// Local link control comes first: a solicitation also carries an IP payload, which must not
/// escape into the tunnel.
pub open spec fn ingress(framing: TunFraming, raw: Seq<u8>, frame: TapFrame) -> TunIngress {
    match framing {
        TunFraming::Raw => TunIngress::Deliver(0, raw.len() as usize),
        TunFraming::Tap(_) => if frame.answered {
            TunIngress::Answer
        } else if frame.control {
            TunIngress::Drop
        } else {
            match frame.payload {
                Some((start, end)) => TunIngress::Deliver(start, end),
                None => TunIngress::Drop,
            }
        },
        TunFraming::Utun => if raw.len() < 4 {
            TunIngress::Drop
        } else {
            match family_of_packet(raw.skip(4)) {
                Some((family, _)) => if be_value(raw.take(4)) == family {
                    TunIngress::Deliver(4, raw.len() as usize)
                } else {
                    TunIngress::Drop
                },
                None => TunIngress::Drop,
            }
        },
    }
}

/// Decides on bytes read from the device. `frame` counts for TAP framing only.
pub fn classify_ingress(framing: &TunFraming, raw: &[u8], frame: TapFrame) -> (verdict: TunIngress)
    ensures
        verdict == ingress(*framing, raw@, frame),
{
    match framing {
        TunFraming::Raw => TunIngress::Deliver(0, raw.len()),
        TunFraming::Tap(_) => {
            if frame.answered {
                return TunIngress::Answer;
            }
            if frame.control {
                return TunIngress::Drop;
            }
            match frame.payload {
                Some((start, end)) => TunIngress::Deliver(start, end),
                None => TunIngress::Drop,
            }
        },
        TunFraming::Utun => {
            if raw.len() < 4 {
                return TunIngress::Drop;
            }
            let packet = vstd::slice::slice_subrange(raw, 4, raw.len());
            assert(packet@ =~= raw@.skip(4));
            match packet_family(packet) {
                Some((family, _)) => {
                    let actual: u32 = ((raw[0] as u32 * 256 + raw[1] as u32) * 256 + raw[2] as u32)
                        * 256 + raw[3] as u32;
                    assert(actual == be_value(raw@.take(4)));
                    if actual == family {
                        TunIngress::Deliver(4, raw.len())
                    } else {
                        TunIngress::Drop
                    }
                },
                None => TunIngress::Drop,
            }
        },
    }
}

/// What a packet is preceded by on the device; nothing where it is no IP packet and is dropped.
/// `destination` is the hardware address that the packet's destination implies, if it does.
pub open spec fn egress_prefix(
    framing: TunFraming,
    packet: Seq<u8>,
    destination: Option<Seq<u8>>,
) -> Option<Seq<u8>> {
    match family_of_packet(packet) {
        None => None,
        Some((family, ethertype)) => match framing {
            TunFraming::Raw => Some(Seq::empty()),
            TunFraming::Tap(headers) => Some(
                (match destination {
                    Some(mac) => mac,
                    None => headers.client_mac@,
                }) + headers.gateway_mac@ + ethertype,
            ),
            TunFraming::Utun => Some(seq![0u8, 0u8, 0u8, family as u8]),
        },
    }
}

fn push_bytes<const N: usize>(target: &mut Vec<u8>, bytes: &[u8; N])
    ensures
        final(target)@ == old(target)@ + bytes@,
{
    let ghost before = target@;
    let mut i: usize = 0;
    while i < N
        invariant
            i <= N,
            target@ =~= before + bytes@.take(i as int),
        decreases N - i,
    {
        target.push(bytes[i]);
        i += 1;
    }
    assert(target@ =~= before + bytes@);
}

/// An Ethernet header.
pub fn ethernet_header(dst_mac: &[u8; 6], src_mac: &[u8; 6], ethertype: &[u8; 2]) -> (header: Vec<
    u8,
>)
    ensures
        header@ == dst_mac@ + src_mac@ + ethertype@,
        header@.len() == ETHERNET_HEADER_LEN,
{
    let mut header: Vec<u8> = Vec::new();
    push_bytes(&mut header, dst_mac);
    push_bytes(&mut header, src_mac);
    push_bytes(&mut header, ethertype);
    assert(header@ =~= dst_mac@ + src_mac@ + ethertype@);
    header
}

/// The bytes that go before a packet, or nothing where the packet is dropped.
pub fn egress_header(framing: &TunFraming, packet: &[u8], destination: Option<[u8; 6]>) -> (header:
    Option<Vec<u8>>)
    ensures
        match header {
            Some(bytes) => egress_prefix(
                *framing,
                packet@,
                match destination {
                    Some(mac) => Some(mac@),
                    None => None,
                },
            ) == Some(bytes@),
            None => egress_prefix(
                *framing,
                packet@,
                match destination {
                    Some(mac) => Some(mac@),
                    None => None,
                },
            ) is None,
        },
{
    match packet_family(packet) {
        None => None,
        Some((family, ethertype)) => match framing {
            TunFraming::Raw => Some(Vec::new()),
            TunFraming::Tap(headers) => {
                let target = match destination {
                    Some(mac) => mac,
                    None => headers.client_mac,
                };
                Some(ethernet_header(&target, &headers.gateway_mac, &ethertype))
            },
            TunFraming::Utun => {
                let mut prefix: Vec<u8> = Vec::new();
                prefix.push(0);
                prefix.push(0);
                prefix.push(0);
                prefix.push(family as u8);
                assert(prefix@ =~= seq![0u8, 0u8, 0u8, family as u8]);
                Some(prefix)
            },
        },
    }
}

/// What one end writes for an IP packet, the other end reads back as that packet, on raw and on
/// utun devices.
pub proof fn law_framing_round_trip(framing: TunFraming, packet: Seq<u8>, frame: TapFrame)
    requires
        !(framing is Tap),
        family_of_packet(packet) is Some,
        packet.len() + 4 <= usize::MAX,
    ensures
        egress_prefix(framing, packet, None) is Some,
        ({
            let prefix = egress_prefix(framing, packet, None)->Some_0;
            let raw = prefix + packet;
            &&& ingress(framing, raw, frame) == TunIngress::Deliver(
                prefix.len() as usize,
                raw.len() as usize,
            )
            &&& raw.subrange(prefix.len() as int, raw.len() as int) == packet
        }),
{
    let prefix = egress_prefix(framing, packet, None)->Some_0;
    let raw = prefix + packet;
    assert(raw.subrange(prefix.len() as int, raw.len() as int) =~= packet);
    if framing is Utun {
        assert(raw.skip(4) =~= packet);
        assert(raw.take(4) =~= prefix);
    }
}

/// No non-IP packet is ever written to a device.
pub proof fn law_malformed_packets_are_dropped(
    framing: TunFraming,
    packet: Seq<u8>,
    destination: Option<Seq<u8>>,
)
    ensures
        egress_prefix(framing, packet, destination) is None <==> !(packet.len() >= 20
            && packet[0] / 16 == 4 || packet.len() >= 40 && packet[0] / 16 == 6),
{
}

/// Cancellation handle of the packet workers.
#[derive(Debug, Clone, Copy, PartialEq, Eq, Structural)]
pub struct LinuxTunPumpStop {
    stopped: bool,
}

impl LinuxTunPumpStop {
    pub closed spec fn is_stopped(self) -> bool {
        self.stopped
    }

    pub fn new() -> (stop: LinuxTunPumpStop)
        ensures
            !stop.is_stopped(),
    {
        LinuxTunPumpStop { stopped: false }
    }

    pub fn request_stop(&mut self)
        ensures
            final(self).is_stopped(),
    {
        self.stopped = true;
    }

    pub fn stop_requested(&self) -> (stopped: bool)
        ensures
            stopped == self.is_stopped(),
    {
        self.stopped
    }
}

/// One IP packet backed by a reusable read buffer. The full buffer keeps its configured length;
/// only the bytes of the packet are shown.
#[derive(Debug)]
pub struct TunPacket {
    buffer: Vec<u8>,
    start: usize,
    end: usize,
}

impl View for TunPacket {
    type V = Seq<u8>;

    closed spec fn view(&self) -> Seq<u8> {
        self.buffer@.subrange(self.start as int, self.end as int)
    }
}

impl TunPacket {
    #[verifier::type_invariant]
    spec fn in_range(&self) -> bool {
        self.start <= self.end <= self.buffer@.len()
    }

    /// The buffer behind the packet.
    pub closed spec fn backing(&self) -> Seq<u8> {
        self.buffer@
    }

    pub fn new(buffer: Vec<u8>, start: usize, end: usize) -> (packet: TunPacket)
        requires
            start <= end <= buffer@.len(),
        ensures
            packet@ == buffer@.subrange(start as int, end as int),
            packet.backing() == buffer@,
    {
        TunPacket { buffer, start, end }
    }

    pub fn as_slice(&self) -> (bytes: &[u8])
        ensures
            bytes@ == self@,
    {
        proof {
            use_type_invariant(self);
        }
        vstd::slice::slice_subrange(self.buffer.as_slice(), self.start, self.end)
    }

    /// Gives the buffer back for the next read.
    pub fn recycle(self) -> (buffer: Vec<u8>)
        ensures
            buffer@ == self.backing(),
    {
        self.buffer
    }
}

/// How a read from the device ended.
#[derive(Debug, Clone, Copy, PartialEq, Eq, Structural)]
pub enum ReadOutcome {
    Bytes(usize),
    Interrupted,
    WouldBlock,
    Failed,
}

#[derive(Debug, Clone, Copy, PartialEq, Eq, Structural)]
pub enum ReaderStep {
    Process(usize),
    ReadAgain,
    /// Wait until the device is readable, then read again.
    WaitReadable,
    Stop,
}

/// What the reader does after a read. End of file ends it.
pub fn reader_step(stop: &LinuxTunPumpStop, outcome: ReadOutcome) -> (step: ReaderStep)
    ensures
        step == match outcome {
            ReadOutcome::Bytes(0) => ReaderStep::Stop,
            ReadOutcome::Bytes(count) => ReaderStep::Process(count),
            ReadOutcome::Failed => ReaderStep::Stop,
            ReadOutcome::Interrupted => if stop.is_stopped() {
                ReaderStep::Stop
            } else {
                ReaderStep::ReadAgain
            },
            ReadOutcome::WouldBlock => if stop.is_stopped() {
                ReaderStep::Stop
            } else {
                ReaderStep::WaitReadable
            },
        },
{
    match outcome {
        ReadOutcome::Bytes(count) => if count == 0 {
            ReaderStep::Stop
        } else {
            ReaderStep::Process(count)
        },
        ReadOutcome::Failed => ReaderStep::Stop,
        ReadOutcome::Interrupted => if stop.stop_requested() {
            ReaderStep::Stop
        } else {
            ReaderStep::ReadAgain
        },
        ReadOutcome::WouldBlock => if stop.stop_requested() {
            ReaderStep::Stop
        } else {
            ReaderStep::WaitReadable
        },
    }
}

/// How a write to the device ended.
#[derive(Debug, Clone, Copy, PartialEq, Eq, Structural)]
pub enum WriteOutcome {
    Written(usize),
    Interrupted,
    /// The device has no room for the packet.
    NoRoom,
    Failed,
}

#[derive(Debug, Clone, Copy, PartialEq, Eq, Structural)]
pub enum WriterStep {
    Next,
    /// The device took only part of the packet: report it and go on.
    NextAfterShortWrite,
    /// Count the packet as dropped and go on.
    CountDrop,
    WriteAgain,
    Stop,
}

/// What the writer does after a write of `expected` bytes.
pub fn writer_step(outcome: WriteOutcome, expected: usize) -> (step: WriterStep)
    ensures
        step == match outcome {
            WriteOutcome::Written(count) => if count == expected {
                WriterStep::Next
            } else {
                WriterStep::NextAfterShortWrite
            },
            WriteOutcome::Interrupted => WriterStep::WriteAgain,
            WriteOutcome::NoRoom => WriterStep::CountDrop,
            WriteOutcome::Failed => WriterStep::Stop,
        },
{
    match outcome {
        WriteOutcome::Written(count) => if count == expected {
            WriterStep::Next
        } else {
            WriterStep::NextAfterShortWrite
        },
        WriteOutcome::Interrupted => WriterStep::WriteAgain,
        WriteOutcome::NoRoom => WriterStep::CountDrop,
        WriteOutcome::Failed => WriterStep::Stop,
    }
}

/// Buffers that the workers of one connection start with.
#[derive(Debug, Clone, Copy, PartialEq, Eq, Structural)]
pub struct PumpPlan {
    pub read_buffers: usize,
    pub read_buffer_bytes: usize,
    pub downlink_buffers: usize,
    pub downlink_slot_bytes: usize,
}

#[derive(Debug, Clone, Copy, PartialEq, Eq, Structural)]
pub enum PumpError {
    ZeroBufferSize,
    ZeroPool,
}

/// Plans the buffers with a given number of read buffers.
pub fn plan_pump_with_pool(
    buffer_size: usize,
    downlink_record_bytes: usize,
    pool_capacity: usize,
) -> (plan: Result<PumpPlan, PumpError>)
    ensures
        match plan {
            Ok(plan) => {
                let slot = slot_size(downlink_record_bytes as int);
                &&& buffer_size > 0 && pool_capacity > 0
                &&& plan.read_buffers == pool_capacity
                &&& plan.read_buffer_bytes == buffer_size
                &&& plan.downlink_slot_bytes == slot
                &&& plan.downlink_buffers == budgeted(
                    MAX_DOWNLINK_BUFFER_BYTES as int,
                    slot,
                    MIN_DOWNLINK_BUFFERS as int,
                    MAX_DOWNLINK_BUFFERS as int,
                )
            },
            Err(PumpError::ZeroBufferSize) => buffer_size == 0,
            Err(PumpError::ZeroPool) => buffer_size > 0 && pool_capacity == 0,
        },
{
    if buffer_size == 0 {
        return Err(PumpError::ZeroBufferSize);
    }
    if pool_capacity == 0 {
        return Err(PumpError::ZeroPool);
    }
    let slot: usize = downlink_slot(downlink_record_bytes);
    Ok(
        PumpPlan {
            read_buffers: pool_capacity,
            read_buffer_bytes: buffer_size,
            downlink_buffers: reusable_downlink_buffer_count(slot),
            downlink_slot_bytes: slot,
        },
    )
}

/// Plans the buffers of one connection.
pub fn plan_pump(buffer_size: usize, downlink_record_bytes: usize) -> (plan: Result<
    PumpPlan,
    PumpError,
>)
    ensures
        match plan {
            Ok(plan) => {
                let slot = slot_size(downlink_record_bytes as int);
                &&& buffer_size > 0
                &&& plan.read_buffers == budgeted(
                    MAX_REUSABLE_BUFFER_BYTES as int,
                    buffer_size as int,
                    MIN_REUSABLE_BUFFERS as int,
                    MAX_REUSABLE_BUFFERS as int,
                )
                &&& plan.read_buffer_bytes == buffer_size
                &&& plan.downlink_slot_bytes == slot
                &&& plan.downlink_buffers == budgeted(
                    MAX_DOWNLINK_BUFFER_BYTES as int,
                    slot,
                    MIN_DOWNLINK_BUFFERS as int,
                    MAX_DOWNLINK_BUFFERS as int,
                )
            },
            Err(error) => error == PumpError::ZeroBufferSize && buffer_size == 0,
        },
{
    plan_pump_with_pool(buffer_size, downlink_record_bytes, reusable_buffer_count(buffer_size))
}

/// As many buffers as the budget holds, never fewer than the least nor more than the most: one
/// buffer more would not fit.
pub proof fn law_budgets_are_used(budget: int, size: int, least: int, most: int)
    requires
        0 <= budget,
        0 < size,
        0 <= least <= most,
    ensures
        ({
            let count = budgeted(budget, size, least, most);
            &&& least <= count <= most
            &&& count == least || count * size <= budget
            &&& count == most || (count + 1) * size > budget
        }),
{
    let fit = budget / size;
    assert(fit * size <= budget < (fit + 1) * size) by (nonlinear_arith)
        requires
            0 < size,
            fit == budget / size,
    ;
    if fit < least {
        assert((fit + 1) * size <= (least + 1) * size) by (nonlinear_arith)
            requires
                0 < size,
                fit < least,
        ;
    } else if fit > most {
        assert(most * size <= fit * size) by (nonlinear_arith)
            requires
                0 < size,
                fit > most,
        ;
    }
}

/// A slot holds the record that it is for, up to one full record of 16645 bytes; small records get
/// 2048 bytes.
pub proof fn law_slots_hold_their_record(record_bytes: int)
    ensures
        2048 <= slot_size(record_bytes) <= 16645,
        record_bytes <= 16645 ==> record_bytes <= slot_size(record_bytes),
        2048 <= record_bytes <= 16645 ==> slot_size(record_bytes) == record_bytes,
        record_bytes < 2048 ==> slot_size(record_bytes) == 2048,
        record_bytes > 16645 ==> slot_size(record_bytes) == 16645,
{
}

/// Packets are told apart by their version: an IPv4 packet has a first byte of 0x40 to 0x4f and
/// 20 bytes at least, an IPv6 packet one of 0x60 to 0x6f and 40 bytes at least. Nothing else is an
/// IP packet.
pub proof fn law_packets_are_told_apart_by_their_version(packet: Seq<u8>)
    ensures
        packet.len() >= 20 && 0x40 <= packet[0] <= 0x4f <==> family_of_packet(packet) == Some(
            (2u32, seq![0x08u8, 0x00u8]),
        ),
        packet.len() >= 40 && 0x60 <= packet[0] <= 0x6f <==> family_of_packet(packet) == Some(
            (30u32, seq![0x86u8, 0xddu8]),
        ),
        family_of_packet(packet) is Some <==> packet.len() >= 20 && 0x40 <= packet[0] <= 0x4f
            || packet.len() >= 40 && 0x60 <= packet[0] <= 0x6f,
{
    assert(seq![0x08u8, 0x00u8][0] != seq![0x86u8, 0xddu8][0]);
}

/// A utun packet is handed out exactly when the family written before it is that of the packet;
/// the four bytes of the family are left out.
pub proof fn law_utun_families_are_checked(prefix: Seq<u8>, packet: Seq<u8>, frame: TapFrame)
    requires
        prefix.len() == 4,
        packet.len() + 4 <= usize::MAX,
    ensures
        ({
            let inet = prefix == seq![0u8, 0u8, 0u8, 2u8] && packet.len() >= 20 && 0x40 <= packet[0]
                <= 0x4f;
            let inet6 = prefix == seq![0u8, 0u8, 0u8, 30u8] && packet.len() >= 40 && 0x60
                <= packet[0] <= 0x6f;
            let verdict = ingress(TunFraming::Utun, prefix + packet, frame);
            &&& inet || inet6 ==> verdict == TunIngress::Deliver(4, (packet.len() + 4) as usize)
            &&& !(inet || inet6) ==> verdict is Drop
        }),
{
    let raw = prefix + packet;
    assert(raw.skip(4) =~= packet);
    assert(raw.take(4) =~= prefix);
    law_packets_are_told_apart_by_their_version(packet);
    if be_value(prefix) == 2 {
        assert(prefix =~= seq![0u8, 0u8, 0u8, 2u8]);
    }
    if be_value(prefix) == 30 {
        assert(prefix =~= seq![0u8, 0u8, 0u8, 30u8]);
    }
    if prefix == seq![0u8, 0u8, 0u8, 2u8] {
        assert(be_value(prefix) == 2);
    }
    if prefix == seq![0u8, 0u8, 0u8, 30u8] {
        assert(be_value(prefix) == 30);
    }
}

/// Raw bytes are handed out whole. A TAP frame that the gateway answers is answered and one of
/// the link's control plane goes no further; of any other the payload is handed out, if it has
/// one.
pub proof fn law_frames_are_handed_out(
    headers: TapHeaders,
    raw: Seq<u8>,
    frame: TapFrame,
    start: usize,
    end: usize,
)
    requires
        raw.len() <= usize::MAX,
    ensures
        ingress(TunFraming::Raw, raw, frame) == TunIngress::Deliver(0, raw.len() as usize),
        frame.answered ==> ingress(TunFraming::Tap(headers), raw, frame) is Answer,
        !frame.answered && frame.control ==> ingress(TunFraming::Tap(headers), raw, frame) is Drop,
        !frame.answered && !frame.control && frame.payload == Some((start, end)) ==> ingress(
            TunFraming::Tap(headers),
            raw,
            frame,
        ) == TunIngress::Deliver(start, end),
        !frame.answered && frame.payload is None ==> ingress(TunFraming::Tap(headers), raw, frame)
            is Drop,
{
}

/// An IP packet goes out as its device frames it: bare, behind its utun family, or behind an
/// Ethernet header from the gateway to the hardware address that the destination implies, else to
/// the client.
pub proof fn law_packets_are_framed_for_their_device(
    headers: TapHeaders,
    packet: Seq<u8>,
    mac: Seq<u8>,
)
    requires
        packet.len() >= 20 && 0x40 <= packet[0] <= 0x4f || packet.len() >= 40 && 0x60 <= packet[0]
            <= 0x6f,
    ensures
        ({
            let inet = packet[0] <= 0x4f;
            let tap = TunFraming::Tap(headers);
            let number = if inet {
                2u8
            } else {
                30u8
            };
            let ethertype = if inet {
                seq![0x08u8, 0x00u8]
            } else {
                seq![0x86u8, 0xddu8]
            };
            &&& egress_prefix(TunFraming::Raw, packet, None) == Some(Seq::<u8>::empty())
            &&& egress_prefix(TunFraming::Utun, packet, None) == Some(seq![0u8, 0u8, 0u8, number])
            &&& egress_prefix(tap, packet, Some(mac)) == Some(
                mac + headers.gateway_mac@ + ethertype,
            )
            &&& egress_prefix(tap, packet, None) == Some(
                headers.client_mac@ + headers.gateway_mac@ + ethertype,
            )
        }),
{
    law_packets_are_told_apart_by_their_version(packet);
}

/// The reader goes on with every packet until the device ends, fails, or it is told to stop while
/// it has nothing to read.
pub proof fn law_readers_go_on(stop: LinuxTunPumpStop, outcome: ReadOutcome, step: ReaderStep)
    requires
        call_ensures(reader_step, (&stop, outcome), step),
    ensures
        outcome matches ReadOutcome::Bytes(count) ==> (count > 0 ==> step == ReaderStep::Process(
            count,
        )) && (count == 0 ==> step is Stop),
        outcome is Failed ==> step is Stop,
        outcome is Interrupted && !stop.is_stopped() ==> step is ReadAgain,
        outcome is WouldBlock && !stop.is_stopped() ==> step is WaitReadable,
        (outcome is Interrupted || outcome is WouldBlock) && stop.is_stopped() ==> step is Stop,
{
}

/// The writer loses at most the packet at hand: only a device that fails ends it, and a full
/// device costs a counted packet.
pub proof fn law_writers_go_on(outcome: WriteOutcome, expected: usize, step: WriterStep)
    requires
        call_ensures(writer_step, (outcome, expected), step),
    ensures
        step is Stop <==> outcome is Failed,
        step is WriteAgain <==> outcome is Interrupted,
        step is CountDrop <==> outcome is NoRoom,
        step is Next <==> outcome == WriteOutcome::Written(expected),
        step is NextAfterShortWrite <==> (outcome matches WriteOutcome::Written(count) && count
            != expected),
{
}

/// Every buffer of at least a byte gets a pump: its read buffers are of the size asked for, 4 to
/// 64 of them within 4 mebibytes or as many as the pool is given, and its downlink slots hold a
/// record within 4 mebibytes.
pub proof fn law_pumps_are_planned(
    buffer_size: usize,
    record_bytes: usize,
    pool_capacity: usize,
    plan: Result<PumpPlan, PumpError>,
    pooled: Result<PumpPlan, PumpError>,
)
    requires
        call_ensures(plan_pump, (buffer_size, record_bytes), plan),
        call_ensures(plan_pump_with_pool, (buffer_size, record_bytes, pool_capacity), pooled),
    ensures
        plan is Ok <==> buffer_size > 0,
        pooled is Ok <==> buffer_size > 0 && pool_capacity > 0,
        buffer_size == 0 ==> plan == Err::<PumpPlan, PumpError>(PumpError::ZeroBufferSize)
            && pooled == Err::<PumpPlan, PumpError>(PumpError::ZeroBufferSize),
        plan matches Ok(pump) ==> {
            &&& pump.read_buffer_bytes == buffer_size
            &&& 4 <= pump.read_buffers <= 64
            &&& 2048 <= pump.downlink_slot_bytes <= 16645
            &&& 2048 <= record_bytes <= 16645 ==> pump.downlink_slot_bytes == record_bytes
            &&& pump.downlink_buffers * pump.downlink_slot_bytes <= 4 * 1024 * 1024
        },
        pooled matches Ok(pump) ==> pump.read_buffers == pool_capacity && pump.read_buffer_bytes
            == buffer_size && pump.downlink_buffers * pump.downlink_slot_bytes <= 4 * 1024 * 1024,
{
    law_slots_hold_their_record(record_bytes as int);
    if buffer_size > 0 {
        law_pools_stay_within_budget(record_bytes as int, 1);
        law_budgets_are_used(
            MAX_REUSABLE_BUFFER_BYTES as int,
            buffer_size as int,
            MIN_REUSABLE_BUFFERS as int,
            MAX_REUSABLE_BUFFERS as int,
        );
    }
}

/// Small read buffers are kept in full number, and large ones never below four.
pub proof fn law_read_buffers_are_counted(
    buffer_size: usize,
    count: usize,
    capacity: usize,
    slots: usize,
)
    requires
        call_ensures(reusable_buffer_count, (buffer_size,), count),
        call_ensures(reusable_downlink_buffer_count, (capacity,), slots),
    ensures
        4 <= count <= 64,
        4 <= slots,
        buffer_size == 0 ==> count == 4,
        capacity == 0 ==> slots == 4,
        buffer_size > 0 && count > 4 ==> count * buffer_size <= 4 * 1024 * 1024,
        buffer_size > 0 && count < 64 ==> (count + 1) * buffer_size > 4 * 1024 * 1024,
        capacity > 0 && slots > 4 ==> slots * capacity <= 4 * 1024 * 1024,
{
    if buffer_size > 0 {
        law_budgets_are_used(
            MAX_REUSABLE_BUFFER_BYTES as int,
            buffer_size as int,
            MIN_REUSABLE_BUFFERS as int,
            MAX_REUSABLE_BUFFERS as int,
        );
    }
    if capacity > 0 {
        law_budgets_are_used(
            MAX_DOWNLINK_BUFFER_BYTES as int,
            capacity as int,
            MIN_DOWNLINK_BUFFERS as int,
            MAX_DOWNLINK_BUFFERS as int,
        );
    }
}

/// What a device shows of a packet is what it was read with: the bytes between two positions.
pub proof fn law_packets_show_their_bytes(
    buffer: Vec<u8>,
    start: usize,
    end: usize,
    packet: TunPacket,
    shown: &[u8],
    back: Vec<u8>,
)
    requires
        start <= end <= buffer@.len(),
        call_ensures(TunPacket::new, (buffer, start, end), packet),
        call_ensures(TunPacket::as_slice, (&packet,), shown),
        call_ensures(TunPacket::recycle, (packet,), back),
    ensures
        shown@ == buffer@.subrange(start as int, end as int),
        back@ == buffer@,
{
}

} // verus!
