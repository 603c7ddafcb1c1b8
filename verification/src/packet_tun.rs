//! Bounded packet bridge for platforms whose TUN API is not a transferable file descriptor.
//!
//! Both directions use fixed pools and bounded queues; nothing allocates a fallback packet when
//! the platform outruns the transport. The owner keeps the bridge behind a lock; every operation
//! here is one step under it.

use crate::buffer_pool::{BufferPool, PoolError, PoolView, PooledBuffer};
use crate::text::{decimal, decimal_text, sentence_of_two};
use vstd::prelude::*;

verus! {

pub const MAX_PACKET_BYTES: usize = 65535;

pub const MAX_BATCH_PACKETS: usize = 64;

pub const PACKET_POOL_CAPACITY: usize = 64;

pub const FROM_PLATFORM_CAPACITY: usize = 256;

pub const TO_PLATFORM_CAPACITY: usize = 256;

/// A network extension on iOS has little memory.
pub const IOS_PACKET_POOL_CAPACITY: usize = 32;

pub const IOS_FROM_PLATFORM_CAPACITY: usize = 128;

pub const IOS_TO_PLATFORM_CAPACITY: usize = 128;

/// The fixed sizes of a bridge: buffers of each direction, and places in each queue.
#[derive(Debug, Clone, Copy, PartialEq, Eq, Structural)]
pub struct BridgeSizes {
    pub pool: usize,
    pub from_platform: usize,
    pub to_platform: usize,
}

impl BridgeSizes {
    /// Each queue has a place for every buffer that can be put into it.
    pub open spec fn valid(self) -> bool {
        1 <= self.pool && self.pool <= self.from_platform && self.pool <= self.to_platform
    }

    pub fn of_platform(ios: bool) -> (sizes: BridgeSizes)
        ensures
            sizes.valid(),
            sizes == if ios {
                BridgeSizes {
                    pool: IOS_PACKET_POOL_CAPACITY,
                    from_platform: IOS_FROM_PLATFORM_CAPACITY,
                    to_platform: IOS_TO_PLATFORM_CAPACITY,
                }
            } else {
                BridgeSizes {
                    pool: PACKET_POOL_CAPACITY,
                    from_platform: FROM_PLATFORM_CAPACITY,
                    to_platform: TO_PLATFORM_CAPACITY,
                }
            },
    {
        if ios {
            BridgeSizes {
                pool: IOS_PACKET_POOL_CAPACITY,
                from_platform: IOS_FROM_PLATFORM_CAPACITY,
                to_platform: IOS_TO_PLATFORM_CAPACITY,
            }
        } else {
            BridgeSizes {
                pool: PACKET_POOL_CAPACITY,
                from_platform: FROM_PLATFORM_CAPACITY,
                to_platform: TO_PLATFORM_CAPACITY,
            }
        }
    }
}

#[derive(Debug, Clone, Copy, PartialEq, Eq, Structural)]
pub enum BridgeError {
    Stopped,
    BatchSize,
    PacketLength,
    /// The lengths add up to the first number, the bytes given to the second.
    TotalMismatch(usize, usize),
    OutputTooSmall,
    /// The platform offers no place for a length, or too many.
    SlotCount,
}

impl BridgeError {
    pub open spec fn message_text(self) -> Seq<char> {
        match self {
            BridgeError::Stopped => "packet bridge is stopped"@,
            BridgeError::BatchSize => "packet batch must contain 1..=64 packets"@,
            BridgeError::PacketLength => "packet length must be 1..=65535"@,
            BridgeError::TotalMismatch(total, given) => "packet lengths total "@ + decimal_text(
                total as nat,
            ) + ", input contains "@ + decimal_text(given as nat) + " bytes"@,
            BridgeError::OutputTooSmall => "packet output capacity must be at least 65535"@,
            BridgeError::SlotCount => "length output must contain 1..=64 slots"@,
        }
    }

    /// The sentence that the platform is told.
    pub fn message(self) -> (text: String)
        ensures
            text@ == self.message_text(),
    {
        match self {
            BridgeError::Stopped => "packet bridge is stopped".to_owned(),
            BridgeError::BatchSize => "packet batch must contain 1..=64 packets".to_owned(),
            BridgeError::PacketLength => "packet length must be 1..=65535".to_owned(),
            BridgeError::TotalMismatch(total, given) => sentence_of_two(
                "packet lengths total ",
                decimal(total as u64).as_str(),
                ", input contains ",
                decimal(given as u64).as_str(),
                " bytes",
            ),
            BridgeError::OutputTooSmall => "packet output capacity must be at least 65535"
                .to_owned(),
            BridgeError::SlotCount => "length output must contain 1..=64 slots".to_owned(),
        }
    }
}

/// What packets hold.
pub open spec fn contents(packets: Seq<PooledBuffer>) -> Seq<Seq<u8>> {
    packets.map_values(|packet: PooledBuffer| packet@)
}

/// The sum of the first `end` lengths.
pub open spec fn total(lengths: Seq<u32>, end: int) -> int
    decreases end,
{
    if end <= 0 {
        0
    } else {
        total(lengths, end - 1) + lengths[end - 1]
    }
}

/// The packets that a batch of bytes is cut into, the first `end` of them.
pub open spec fn cut(bytes: Seq<u8>, lengths: Seq<u32>, end: int) -> Seq<Seq<u8>>
    decreases end,
{
    if end <= 0 {
        Seq::empty()
    } else {
        cut(bytes, lengths, end - 1).push(
            bytes.subrange(total(lengths, end - 1), total(lengths, end)),
        )
    }
}

/// Packets one after the other, the first `end` of them.
pub open spec fn joined(packets: Seq<Seq<u8>>, end: int) -> Seq<u8>
    decreases end,
{
    if end <= 0 {
        Seq::empty()
    } else {
        joined(packets, end - 1) + packets[end - 1]
    }
}

/// Why a batch is refused whole, if it is.
pub open spec fn batch_problem(
    active: bool,
    bytes: Seq<u8>,
    lengths: Seq<u32>,
) -> Option<BridgeError> {
    if !active {
        Some(BridgeError::Stopped)
    } else if lengths.len() == 0 || lengths.len() > MAX_BATCH_PACKETS {
        Some(BridgeError::BatchSize)
    } else if exists|i: int|
        0 <= i < lengths.len() && !(1 <= #[trigger] lengths[i] <= MAX_PACKET_BYTES) {
        Some(BridgeError::PacketLength)
    } else if total(lengths, lengths.len() as int) != bytes.len() {
        Some(
            BridgeError::TotalMismatch(
                total(lengths, lengths.len() as int) as usize,
                bytes.len() as usize,
            ),
        )
    } else {
        None
    }
}

pub open spec fn smaller(left: int, right: int) -> int {
    if left < right {
        left
    } else {
        right
    }
}

/// How many packets of a batch find a buffer and a place in the queue.
pub open spec fn accepted_packets(packets: int, buffers: int, room: int) -> int {
    smaller(packets, smaller(buffers, room))
}

/// How many of the queued packets fit into `slots` and `capacity` bytes: the longest run from the
/// front, which ends at the first packet that does not fit.
pub open spec fn pulled_packets(queue: Seq<Seq<u8>>, slots: int, capacity: int, start: int) -> int
    decreases queue.len() - start,
{
    if start < 0 || start >= queue.len() || start >= slots || joined(queue, start + 1).len()
        > capacity {
        start
    } else {
        pulled_packets(queue, slots, capacity, start + 1)
    }
}

proof fn lemma_total_grows(lengths: Seq<u32>, i: int, end: int)
    requires
        0 <= i <= end <= lengths.len(),
    ensures
        0 <= total(lengths, i) <= total(lengths, end),
        total(lengths, end) <= end * u32::MAX,
    decreases end,
{
    if end > 0 {
        if i < end {
            lemma_total_grows(lengths, i, end - 1);
        } else {
            lemma_total_grows(lengths, end - 1, end - 1);
        }
    }
}

/// Cutting a batch and putting the packets together again gives back its bytes.
pub proof fn law_cut_batch_rejoins(bytes: Seq<u8>, lengths: Seq<u32>)
    requires
        total(lengths, lengths.len() as int) == bytes.len(),
    ensures
        cut(bytes, lengths, lengths.len() as int).len() == lengths.len(),
        joined(cut(bytes, lengths, lengths.len() as int), lengths.len() as int) == bytes,
{
    lemma_cut_prefix(bytes, lengths, lengths.len() as int);
    assert(bytes.take(bytes.len() as int) =~= bytes);
}

proof fn lemma_cut_prefix(bytes: Seq<u8>, lengths: Seq<u32>, end: int)
    requires
        0 <= end <= lengths.len(),
        total(lengths, lengths.len() as int) == bytes.len(),
    ensures
        cut(bytes, lengths, end).len() == end,
        joined(cut(bytes, lengths, end), end) == bytes.take(total(lengths, end)),
    decreases end,
{
    lemma_total_grows(lengths, end, lengths.len() as int);
    if end > 0 {
        lemma_cut_prefix(bytes, lengths, end - 1);
        lemma_total_grows(lengths, end - 1, end);
        let front = cut(bytes, lengths, end - 1);
        let whole = cut(bytes, lengths, end);
        lemma_joined_prefix(front, whole, end - 1);
        assert(bytes.take(total(lengths, end - 1)) + bytes.subrange(
            total(lengths, end - 1),
            total(lengths, end),
        ) =~= bytes.take(total(lengths, end)));
    } else {
        assert(bytes.take(0) =~= Seq::empty());
    }
}

proof fn lemma_joined_prefix(front: Seq<Seq<u8>>, whole: Seq<Seq<u8>>, end: int)
    requires
        0 <= end <= front.len() <= whole.len(),
        forall|i: int| 0 <= i < end ==> front[i] == whole[i],
    ensures
        joined(front, end) == joined(whole, end),
    decreases end,
{
    if end > 0 {
        lemma_joined_prefix(front, whole, end - 1);
    }
}

/// The bridge of one transport generation.
pub struct PacketTunBridge {
    generation: u64,
    sizes: BridgeSizes,
    active: bool,
    uplink_pool: BufferPool,
    uplink: Vec<PooledBuffer>,
    downlink_pool: BufferPool,
    downlink: Vec<PooledBuffer>,
}

/// What a bridge holds: the packets on their way in each direction, oldest first, and how many
/// buffers each direction has at hand.
#[verifier::ext_equal]
pub struct BridgeView {
    pub generation: u64,
    pub sizes: BridgeSizes,
    pub active: bool,
    pub uplink: Seq<Seq<u8>>,
    pub uplink_buffers: PoolView,
    pub downlink: Seq<Seq<u8>>,
    pub downlink_buffers: PoolView,
}

impl View for PacketTunBridge {
    type V = BridgeView;

    closed spec fn view(&self) -> BridgeView {
        BridgeView {
            generation: self.generation,
            sizes: self.sizes,
            active: self.active,
            uplink: contents(self.uplink@),
            uplink_buffers: self.uplink_pool@,
            downlink: contents(self.downlink@),
            downlink_buffers: self.downlink_pool@,
        }
    }
}

impl PacketTunBridge {
    /// Every buffer is at hand, queued, or with a consumer that will give it back.
    pub open spec fn valid(&self) -> bool {
        let view = self@;
        &&& view.sizes.valid()
        &&& view.uplink.len() + view.uplink_buffers.available <= view.uplink_buffers.count
        &&& view.uplink_buffers.count == view.sizes.pool
        &&& view.downlink.len() + view.downlink_buffers.available <= view.downlink_buffers.count
        &&& view.downlink_buffers.count == view.sizes.pool
    }

    /// A new bridge, empty and with all its buffers at hand.
    pub open spec fn fresh(&self, generation: u64, sizes: BridgeSizes) -> bool {
        let buffers = PoolView {
            count: sizes.pool as nat,
            available: sizes.pool as nat,
            capacity: MAX_PACKET_BYTES as nat,
        };
        &&& self.valid()
        &&& self@ == (BridgeView {
            generation,
            sizes,
            active: true,
            uplink: Seq::empty(),
            uplink_buffers: buffers,
            downlink: Seq::empty(),
            downlink_buffers: buffers,
        })
    }

    /// A bridge of the usual sizes. It fails only where the allocator refuses its buffers, which
    /// depends on the machine.
    pub fn new(generation: u64) -> (result: Result<PacketTunBridge, PoolError>)
        ensures
            match result {
                Ok(bridge) => bridge.fresh(
                    generation,
                    BridgeSizes {
                        pool: PACKET_POOL_CAPACITY,
                        from_platform: FROM_PLATFORM_CAPACITY,
                        to_platform: TO_PLATFORM_CAPACITY,
                    },
                ),
                Err(error) => error == PoolError::OutOfMemory,
            },
    {
        Self::with_sizes(generation, BridgeSizes::of_platform(false))
    }

    /// A bridge of given sizes. It fails only where the allocator refuses its buffers, which
    /// depends on the machine.
    pub fn with_sizes(generation: u64, sizes: BridgeSizes) -> (result: Result<
        PacketTunBridge,
        PoolError,
    >)
        requires
            sizes.valid(),
        ensures
            match result {
                Ok(bridge) => bridge.fresh(generation, sizes),
                Err(error) => error == PoolError::OutOfMemory,
            },
    {
        let uplink_pool = match BufferPool::new(sizes.pool, MAX_PACKET_BYTES) {
            Ok(pool) => pool,
            Err(error) => {
                return Err(error);
            },
        };
        let downlink_pool = match BufferPool::new(sizes.pool, MAX_PACKET_BYTES) {
            Ok(pool) => pool,
            Err(error) => {
                return Err(error);
            },
        };
        let bridge = PacketTunBridge {
            generation,
            sizes,
            active: true,
            uplink_pool,
            uplink: Vec::new(),
            downlink_pool,
            downlink: Vec::new(),
        };
        assert(bridge@.uplink =~= Seq::empty());
        assert(bridge@.downlink =~= Seq::empty());
        Ok(bridge)
    }

    pub fn generation(&self) -> (generation: u64)
        ensures
            generation == self@.generation,
    {
        self.generation
    }

    /// Stops the bridge: no further batch is accepted, queued packets can still be taken out.
    pub fn stop(&mut self)
        ensures
            final(self)@ == (BridgeView { active: false, ..old(self)@ }),
    {
        self.active = false;
    }

    /// Copies as much of one contiguous packet batch as the fixed uplink pool accepts. A malformed
    /// batch is refused whole.
    pub fn push_batch(&mut self, packets: &[u8], lengths: &[u32]) -> (result: Result<
        usize,
        BridgeError,
    >)
        requires
            old(self).valid(),
        ensures
            final(self).valid(),
            match result {
                Ok(accepted) => batch_problem(old(self)@.active, packets@, lengths@) is None && {
                    &&& accepted == accepted_packets(
                        lengths@.len() as int,
                        old(self)@.uplink_buffers.available as int,
                        old(self)@.sizes.from_platform - old(self)@.uplink.len(),
                    )
                    &&& final(self)@ == (BridgeView {
                        uplink: old(self)@.uplink + cut(packets@, lengths@, accepted as int),
                        uplink_buffers: PoolView {
                            available: (old(self)@.uplink_buffers.available - accepted) as nat,
                            ..old(self)@.uplink_buffers
                        },
                        ..old(self)@
                    })
                },
                Err(error) => batch_problem(old(self)@.active, packets@, lengths@) == Some(error)
                    && final(self)@ == old(self)@,
            },
    {
        if !self.active {
            return Err(BridgeError::Stopped);
        }
        if lengths.len() == 0 || lengths.len() > MAX_BATCH_PACKETS {
            return Err(BridgeError::BatchSize);
        }
        match add_lengths(lengths) {
            None => {
                return Err(BridgeError::PacketLength);
            },
            Some(sum) => {
                if sum != packets.len() {
                    return Err(BridgeError::TotalMismatch(sum, packets.len()));
                }
            },
        }
        Ok(self.take_packets(packets, lengths))
    }

    fn take_packets(&mut self, packets: &[u8], lengths: &[u32]) -> (accepted: usize)
        requires
            old(self).valid(),
            total(lengths@, lengths@.len() as int) == packets@.len(),
        ensures
            final(self).valid(),
            accepted == accepted_packets(
                lengths@.len() as int,
                old(self)@.uplink_buffers.available as int,
                old(self)@.sizes.from_platform - old(self)@.uplink.len(),
            ),
            final(self)@ == (BridgeView {
                uplink: old(self)@.uplink + cut(packets@, lengths@, accepted as int),
                uplink_buffers: PoolView {
                    available: (old(self)@.uplink_buffers.available - accepted) as nat,
                    ..old(self)@.uplink_buffers
                },
                ..old(self)@
            }),
    {
        let ghost before = self@;
        let size: usize = packets.len();
        let mut offset: usize = 0;
        let mut accepted: usize = 0;
        assert(before.uplink + cut(packets@, lengths@, 0) =~= before.uplink);
        while accepted < lengths.len() && self.uplink_pool.available() > 0 && self.uplink.len()
            < self.sizes.from_platform
            invariant
                self.valid(),
                accepted <= lengths@.len(),
                accepted <= before.uplink_buffers.available,
                accepted + before.uplink.len() <= before.sizes.from_platform,
                total(lengths@, lengths@.len() as int) == packets@.len(),
                size == packets@.len(),
                offset == total(lengths@, accepted as int),
                cut(packets@, lengths@, accepted as int).len() == accepted,
                self@ == (BridgeView {
                    uplink: before.uplink + cut(packets@, lengths@, accepted as int),
                    uplink_buffers: PoolView {
                        available: (before.uplink_buffers.available - accepted) as nat,
                        ..before.uplink_buffers
                    },
                    ..before
                }),
            decreases lengths@.len() - accepted,
        {
            let length: usize = lengths[accepted] as usize;
            proof {
                lemma_total_grows(lengths@, accepted as int, lengths@.len() as int);
                lemma_total_grows(lengths@, accepted + 1, lengths@.len() as int);
                assert(total(lengths@, accepted + 1) == offset + length);
            }
            let ghost queue = self.uplink@;
            match self.uplink_pool.try_acquire() {
                Some(mut packet) => {
                    copy_into(packet.as_vec_mut(), packets, offset, offset + length);
                    self.uplink.push(packet);
                    assert(contents(queue.push(packet)) =~= contents(queue).push(packet@));
                },
                None => {},
            }
            assert(self@.uplink =~= before.uplink + cut(packets@, lengths@, accepted + 1));
            offset = offset + length;
            accepted += 1;
        }
        accepted
    }

    /// The oldest packet from the platform. Its buffer comes back by [`Self::recycle_uplink`].
    pub fn recv_from_tun(&mut self) -> (packet: Option<PooledBuffer>)
        requires
            old(self).valid(),
        ensures
            final(self).valid(),
            match packet {
                Some(packet) => old(self)@.uplink.len() > 0 && packet@ == old(self)@.uplink[0]
                    && final(self)@ == (BridgeView {
                    uplink: old(self)@.uplink.skip(1),
                    ..old(self)@
                }),
                None => old(self)@.uplink.len() == 0 && final(self)@ == old(self)@,
            },
    {
        if self.uplink.len() == 0 {
            return None;
        }
        let ghost queue = self.uplink@;
        let packet = self.uplink.remove(0);
        assert(contents(queue)[0] == packet@);
        assert(contents(self.uplink@) =~= contents(queue).skip(1));
        Some(packet)
    }

    /// Gives an uplink buffer back to its pool.
    pub fn recycle_uplink(&mut self, packet: PooledBuffer)
        requires
            old(self).valid(),
            old(self)@.uplink.len() + old(self)@.uplink_buffers.available < old(
                self,
            )@.uplink_buffers.count,
        ensures
            final(self).valid(),
            final(self)@ == (BridgeView {
                uplink_buffers: PoolView {
                    available: old(self)@.uplink_buffers.available + 1,
                    ..old(self)@.uplink_buffers
                },
                ..old(self)@
            }),
    {
        self.uplink_pool.give_back(packet);
    }

    /// An empty downlink buffer, if one is at hand.
    pub fn try_acquire(&mut self) -> (packet: Option<PooledBuffer>)
        requires
            old(self).valid(),
        ensures
            final(self).valid(),
            match packet {
                Some(packet) => old(self)@.downlink_buffers.available > 0 && packet@.len() == 0
                    && final(self)@ == (BridgeView {
                    downlink_buffers: PoolView {
                        available: (old(self)@.downlink_buffers.available - 1) as nat,
                        ..old(self)@.downlink_buffers
                    },
                    ..old(self)@
                }),
                None => old(self)@.downlink_buffers.available == 0 && final(self)@ == old(self)@,
            },
    {
        self.downlink_pool.try_acquire()
    }

    /// Queues a filled downlink buffer for the platform. There is a place for every buffer, and a
    /// bridge that was stopped takes it too.
    pub fn try_send(&mut self, packet: PooledBuffer) -> (result: Result<(), BridgeError>)
        requires
            old(self).valid(),
            old(self)@.downlink.len() + old(self)@.downlink_buffers.available < old(
                self,
            )@.downlink_buffers.count,
        ensures
            final(self).valid(),
            result == Ok::<(), BridgeError>(()),
            final(self)@ == (BridgeView {
                downlink: old(self)@.downlink.push(packet@),
                ..old(self)@
            }),
            final(self)@.downlink.len() <= final(self)@.sizes.to_platform,
    {
        let ghost queue = self.downlink@;
        self.downlink.push(packet);
        assert(contents(self.downlink@) =~= contents(queue).push(packet@));
        Ok(())
    }

    /// Takes a bounded downlink batch out: the packets one after the other, and their lengths.
    /// `capacity` and `slots` are what the platform has room for.
    pub fn pull_batch(&mut self, capacity: usize, slots: usize) -> (result: Result<
        (Vec<u8>, Vec<u32>),
        BridgeError,
    >)
        requires
            old(self).valid(),
        ensures
            final(self).valid(),
            match result {
                Ok((bytes, lengths)) => {
                    let count = pulled_packets(
                        old(self)@.downlink,
                        slots as int,
                        capacity as int,
                        0,
                    );
                    &&& capacity >= MAX_PACKET_BYTES && 1 <= slots <= MAX_BATCH_PACKETS
                    &&& bytes@ == joined(old(self)@.downlink, count)
                    &&& lengths@ == old(self)@.downlink.take(count).map_values(
                        |packet: Seq<u8>| packet.len() as u32,
                    )
                    &&& final(self)@ == (BridgeView {
                        downlink: old(self)@.downlink.skip(count),
                        downlink_buffers: PoolView {
                            available: old(self)@.downlink_buffers.available + count as nat,
                            ..old(self)@.downlink_buffers
                        },
                        ..old(self)@
                    })
                },
                Err(error) => final(self)@ == old(self)@ && if capacity < MAX_PACKET_BYTES {
                    error == BridgeError::OutputTooSmall
                } else {
                    !(1 <= slots <= MAX_BATCH_PACKETS) && error == BridgeError::SlotCount
                },
            },
    {
        if capacity < MAX_PACKET_BYTES {
            return Err(BridgeError::OutputTooSmall);
        }
        if slots == 0 || slots > MAX_BATCH_PACKETS {
            return Err(BridgeError::SlotCount);
        }
        let mut bytes: Vec<u8> = Vec::new();
        let mut lengths: Vec<u32> = Vec::new();
        let ghost before = self@;
        let ghost queue = before.downlink;
        assert(queue.skip(0) =~= queue);
        while lengths.len() < slots && self.downlink.len() > 0 && self.downlink[0].len() <= capacity
            - bytes.len()
            invariant
                self.valid(),
                queue == before.downlink,
                lengths@.len() <= slots,
                lengths@.len() <= queue.len(),
                bytes@ == joined(queue, lengths@.len() as int),
                bytes@.len() <= capacity,
                lengths@ =~= queue.take(lengths@.len() as int).map_values(
                    |packet: Seq<u8>| packet.len() as u32,
                ),
                self@ == (BridgeView {
                    downlink: queue.skip(lengths@.len() as int),
                    downlink_buffers: PoolView {
                        available: before.downlink_buffers.available + lengths@.len(),
                        ..before.downlink_buffers
                    },
                    ..before
                }),
                pulled_packets(queue, slots as int, capacity as int, 0) == pulled_packets(
                    queue,
                    slots as int,
                    capacity as int,
                    lengths@.len() as int,
                ),
            decreases slots - lengths@.len(),
        {
            let ghost taken = lengths@.len() as int;
            let ghost left = self.downlink@;
            assert(contents(left) == queue.skip(taken));
            assert(contents(left)[0] == left[0]@);
            let packet = self.downlink.remove(0);
            assert(packet@ == queue[taken]);
            assert(contents(self.downlink@) =~= contents(left).skip(1));
            assert(queue.skip(taken).skip(1) =~= queue.skip(taken + 1));
            copy_into(&mut bytes, packet.as_slice(), 0, packet.len());
            assert(packet@.subrange(0, packet@.len() as int) =~= packet@);
            assert(bytes@ =~= joined(queue, taken + 1));
            lengths.push(
                #[verifier::truncate]
                (packet.len() as u32),
            );
            self.downlink_pool.give_back(packet);
        }
        proof {
            let taken = lengths@.len() as int;
            if taken < queue.len() {
                assert(contents(self.downlink@)[0] == queue[taken]);
            }
        }
        Ok((bytes, lengths))
    }
}

/// The sum of the lengths, unless one of them is no packet length.
fn add_lengths(lengths: &[u32]) -> (sum: Option<usize>)
    requires
        lengths@.len() <= MAX_BATCH_PACKETS,
    ensures
        match sum {
            Some(sum) => sum == total(lengths@, lengths@.len() as int) && forall|i: int|
                0 <= i < lengths@.len() ==> 1 <= #[trigger] lengths@[i] <= MAX_PACKET_BYTES,
            None => exists|i: int|
                0 <= i < lengths@.len() && !(1 <= #[trigger] lengths@[i] <= MAX_PACKET_BYTES),
        },
{
    let mut sum: usize = 0;
    let mut i: usize = 0;
    while i < lengths.len()
        invariant
            i <= lengths@.len() <= MAX_BATCH_PACKETS,
            sum == total(lengths@, i as int),
            sum <= i * MAX_PACKET_BYTES,
            forall|j: int| 0 <= j < i ==> 1 <= #[trigger] lengths@[j] <= MAX_PACKET_BYTES,
        decreases lengths@.len() - i,
    {
        let length: usize = lengths[i] as usize;
        if length == 0 || length > MAX_PACKET_BYTES {
            assert(!(1 <= lengths@[i as int] <= MAX_PACKET_BYTES));
            return None;
        }
        sum = sum + length;
        i += 1;
    }
    Some(sum)
}

fn copy_into(target: &mut Vec<u8>, source: &[u8], start: usize, end: usize)
    requires
        start <= end <= source@.len(),
    ensures
        final(target)@ == old(target)@ + source@.subrange(start as int, end as int),
{
    let ghost before = target@;
    let mut i: usize = start;
    while i < end
        invariant
            start <= i <= end <= source@.len(),
            target@ =~= before + source@.subrange(start as int, i as int),
        decreases end - i,
    {
        target.push(source[i]);
        i += 1;
    }
}

/// Packets one after the other are their concatenation.
pub proof fn law_packets_are_concatenated(packets: Seq<Seq<u8>>, end: int)
    requires
        0 <= end <= packets.len(),
    ensures
        joined(packets, end) == packets.take(end).flatten(),
{
    lemma_joined_is_flat(packets, end);
    packets.take(end).lemma_flatten_and_flatten_alt_are_equivalent();
}

proof fn lemma_joined_is_flat(packets: Seq<Seq<u8>>, end: int)
    requires
        0 <= end <= packets.len(),
    ensures
        joined(packets, end) == packets.take(end).flatten_alt(),
    decreases end,
{
    if end > 0 {
        lemma_joined_is_flat(packets, end - 1);
        assert(packets.take(end).drop_last() =~= packets.take(end - 1));
        assert(packets.take(end).last() == packets[end - 1]);
    } else {
        assert(packets.take(0) =~= Seq::empty());
    }
}

/// The lengths that the platform names for packets.
pub open spec fn lengths_of(packets: Seq<Seq<u8>>) -> Seq<u32> {
    packets.map_values(|packet: Seq<u8>| packet.len() as u32)
}

/// Up to 64 packets of 1 to 65535 bytes, laid one after the other with their lengths beside them,
/// are accepted by an active bridge, and what it cuts the bytes into is those packets.
pub proof fn law_proper_batches_are_taken(packets: Seq<Seq<u8>>)
    requires
        1 <= packets.len() <= 64,
        forall|i: int| 0 <= i < packets.len() ==> 1 <= (#[trigger] packets[i]).len() <= 65535,
    ensures
        batch_problem(true, packets.flatten(), lengths_of(packets)) is None,
        cut(packets.flatten(), lengths_of(packets), packets.len() as int) == packets,
        batch_problem(false, packets.flatten(), lengths_of(packets)) == Some(BridgeError::Stopped),
{
    let count = packets.len() as int;
    let bytes = packets.flatten();
    let lengths = lengths_of(packets);
    law_packets_are_concatenated(packets, count);
    assert(packets.take(count) =~= packets);
    lemma_cut_of_joined(packets, count);
    assert forall|i: int| 0 <= i < lengths.len() implies 1 <= #[trigger] lengths[i]
        <= MAX_PACKET_BYTES by {
        assert(packets[i].len() <= 65535);
    }
}

proof fn lemma_cut_of_joined(packets: Seq<Seq<u8>>, end: int)
    requires
        0 <= end <= packets.len(),
        forall|i: int| 0 <= i < packets.len() ==> (#[trigger] packets[i]).len() <= 65535,
    ensures
        total(lengths_of(packets), end) == joined(packets, end).len(),
        joined(packets, end).is_prefix_of(joined(packets, packets.len() as int)),
        cut(joined(packets, packets.len() as int), lengths_of(packets), end) == packets.take(end),
    decreases end,
{
    let whole = joined(packets, packets.len() as int);
    let lengths = lengths_of(packets);
    lemma_joined_grows(packets, end, packets.len() as int);
    if end > 0 {
        lemma_cut_of_joined(packets, end - 1);
        assert(packets[end - 1].len() <= 65535);
        assert(lengths[end - 1] == packets[end - 1].len());
        let piece = whole.subrange(total(lengths, end - 1), total(lengths, end));
        assert(piece =~= packets[end - 1]) by {
            assert forall|i: int| 0 <= i < packets[end - 1].len() implies piece[i]
                == packets[end - 1][i] by {
                assert(joined(packets, end)[joined(packets, end - 1).len() + i] == packets[end
                    - 1][i]);
            }
        }
        assert(packets.take(end) =~= packets.take(end - 1).push(packets[end - 1]));
    } else {
        assert(packets.take(0) =~= Seq::empty());
    }
}

proof fn lemma_joined_grows(packets: Seq<Seq<u8>>, end: int, later: int)
    requires
        0 <= end <= later <= packets.len(),
    ensures
        joined(packets, end).is_prefix_of(joined(packets, later)),
        joined(packets, end).len() <= joined(packets, later).len(),
    decreases later - end,
{
    if end < later {
        lemma_joined_grows(packets, end, later - 1);
        assert(joined(packets, end) =~= joined(packets, later).subrange(
            0,
            joined(packets, end).len() as int,
        ));
    } else {
        assert(joined(packets, end) =~= joined(packets, end).subrange(
            0,
            joined(packets, end).len() as int,
        ));
    }
}

/// A batch is refused for what is wrong with it: its number of packets, a packet that is empty or
/// too long, or lengths that do not add up to its bytes.
pub proof fn law_improper_batches_are_refused(bytes: Seq<u8>, lengths: Seq<u32>, at: int)
    ensures
        lengths.len() == 0 || lengths.len() > 64 ==> batch_problem(true, bytes, lengths) == Some(
            BridgeError::BatchSize,
        ),
        1 <= lengths.len() <= 64 && 0 <= at < lengths.len() && (lengths[at] == 0 || lengths[at]
            > 65535) ==> batch_problem(true, bytes, lengths) == Some(BridgeError::PacketLength),
        1 <= lengths.len() <= 64 && (forall|i: int|
            0 <= i < lengths.len() ==> 1 <= #[trigger] lengths[i] <= 65535) && lengths.map_values(
            |length: u32| length as int,
        ).fold_left(0int, |sum: int, length: int| sum + length) != bytes.len() ==> batch_problem(
            true,
            bytes,
            lengths,
        ) is Some && batch_problem(true, bytes, lengths)->Some_0 is TotalMismatch,
{
    lemma_total_is_the_sum(lengths, lengths.len() as int);
    assert(lengths.take(lengths.len() as int) =~= lengths);
}

proof fn lemma_total_is_the_sum(lengths: Seq<u32>, end: int)
    requires
        0 <= end <= lengths.len(),
    ensures
        total(lengths, end) == lengths.take(end).map_values(|length: u32| length as int).fold_left(
            0int,
            |sum: int, length: int| sum + length,
        ),
    decreases end,
{
    let numbers = lengths.take(end).map_values(|length: u32| length as int);
    reveal_with_fuel(Seq::fold_left, 2);
    if end > 0 {
        lemma_total_is_the_sum(lengths, end - 1);
        assert(numbers.drop_last() =~= lengths.take(end - 1).map_values(
            |length: u32| length as int,
        ));
    }
}

/// As many packets are accepted as there are packets, buffers and places, and no fewer.
pub proof fn law_batches_fill_what_is_free(packets: int, buffers: int, room: int)
    ensures
        ({
            let accepted = accepted_packets(packets, buffers, room);
            &&& accepted <= packets && accepted <= buffers && accepted <= room
            &&& accepted == packets || accepted == buffers || accepted == room
        }),
{
}

/// The platform gets every packet that it has room for, from the oldest on: what is handed out
/// fits, and one packet more would not.
pub proof fn law_downlink_batches_are_full(
    queue: Seq<Seq<u8>>,
    slots: int,
    capacity: int,
    start: int,
)
    requires
        0 <= start <= queue.len(),
        start <= slots,
        joined(queue, start).len() <= capacity,
    ensures
        ({
            let count = pulled_packets(queue, slots, capacity, start);
            &&& start <= count <= queue.len() && count <= slots
            &&& queue.take(count).flatten().len() <= capacity
            &&& count == queue.len() || count == slots || queue.take(count + 1).flatten().len()
                > capacity
        }),
    decreases queue.len() - start,
{
    law_packets_are_concatenated(queue, start);
    if start < queue.len() {
        law_packets_are_concatenated(queue, start + 1);
    }
    if !(start >= queue.len() || start >= slots || joined(queue, start + 1).len() > capacity) {
        law_downlink_batches_are_full(queue, slots, capacity, start + 1);
    }
}

/// Handing over packets: an active bridge takes as many of a proper batch as it has buffers and
/// places for, from the front and unchanged, behind those already on their way.
pub proof fn law_packets_are_taken_from_the_platform(
    bytes: &[u8],
    lengths: &[u32],
    packets: Seq<Seq<u8>>,
    result: Result<usize, BridgeError>,
)
    requires
        1 <= packets.len() <= 64,
        forall|i: int| 0 <= i < packets.len() ==> 1 <= (#[trigger] packets[i]).len() <= 65535,
        bytes@ == packets.flatten(),
        lengths@ == lengths_of(packets),
    ensures
        forall|bridge: &mut PacketTunBridge| #[trigger]
            call_ensures(PacketTunBridge::push_batch, (bridge, bytes, lengths), result)
                && bridge.valid() ==> {
                let before = bridge@;
                let after = final(bridge)@;
                &&& before.active ==> result is Ok && {
                    let accepted = result->Ok_0 as int;
                    &&& accepted <= packets.len() && accepted <= before.uplink_buffers.available
                    &&& accepted + before.uplink.len() <= before.sizes.from_platform
                    &&& accepted == packets.len() || accepted == before.uplink_buffers.available
                        || accepted + before.uplink.len() == before.sizes.from_platform
                    &&& after.uplink == before.uplink + packets.take(accepted)
                    &&& after.uplink_buffers.available + accepted
                        == before.uplink_buffers.available
                    &&& after.downlink == before.downlink
                }
                &&& !before.active ==> result is Err && result->Err_0 is Stopped && after == before
            },
{
    law_proper_batches_are_taken(packets);
    assert forall|bridge: &mut PacketTunBridge| #[trigger]
        call_ensures(PacketTunBridge::push_batch, (bridge, bytes, lengths), result)
            && bridge.valid() && bridge@.active implies final(bridge)@.uplink == bridge@.uplink
        + packets.take(result->Ok_0 as int) by {
        let accepted = result->Ok_0 as int;
        lemma_cut_of_joined(packets, accepted);
        law_packets_are_concatenated(packets, packets.len() as int);
        assert(packets.take(packets.len() as int) =~= packets);
    }
}

/// Packets come out in the order in which they went in, and each direction has its own.
pub proof fn law_packets_keep_their_order(
    packet: Option<PooledBuffer>,
    filled: PooledBuffer,
    sent: Result<(), BridgeError>,
)
    ensures
        forall|bridge: &mut PacketTunBridge| #[trigger]
            call_ensures(PacketTunBridge::recv_from_tun, (bridge,), packet) && bridge.valid() ==> {
                &&& packet is Some <==> bridge@.uplink.len() > 0
                &&& packet matches Some(first) ==> bridge@.uplink == seq![first@]
                    + final(bridge)@.uplink
                &&& packet is None ==> final(bridge)@ == bridge@
                &&& final(bridge)@.downlink == bridge@.downlink
            },
        forall|bridge: &mut PacketTunBridge| #[trigger]
            call_ensures(PacketTunBridge::try_send, (bridge, filled), sent) && bridge.valid()
                && bridge@.downlink.len() + bridge@.downlink_buffers.available
                < bridge@.downlink_buffers.count ==> sent is Ok && final(bridge)@.downlink
                == bridge@.downlink.push(filled@) && final(bridge)@.uplink == bridge@.uplink,
        forall|bridge: &mut PacketTunBridge| #[trigger]
            call_ensures(PacketTunBridge::stop, (bridge,), ()) ==> !final(bridge)@.active
                && final(bridge)@.uplink == bridge@.uplink && final(bridge)@.downlink
                == bridge@.downlink,
{
    assert forall|bridge: &mut PacketTunBridge| #[trigger]
        call_ensures(PacketTunBridge::recv_from_tun, (bridge,), packet) && bridge.valid()
            && packet is Some implies bridge@.uplink == seq![packet->Some_0@]
        + final(bridge)@.uplink by {
        assert(bridge@.uplink =~= seq![packet->Some_0@] + final(bridge)@.uplink);
    }
}

/// Taking packets out: a platform with room for 65535 bytes and 1 to 64 lengths gets the oldest
/// packets one after the other with their lengths, all that it has room for; their buffers are at
/// hand again, and what is left stays in its order.
pub proof fn law_packets_are_handed_to_the_platform(
    capacity: usize,
    slots: usize,
    result: Result<(Vec<u8>, Vec<u32>), BridgeError>,
)
    ensures
        forall|bridge: &mut PacketTunBridge| #[trigger]
            call_ensures(PacketTunBridge::pull_batch, (bridge, capacity, slots), result)
                && bridge.valid() ==> {
                let before = bridge@;
                let after = final(bridge)@;
                &&& result is Ok <==> capacity >= 65535 && 1 <= slots <= 64
                &&& result is Err ==> after == before
                &&& result matches Ok((bytes, lengths)) ==> {
                    let count = lengths@.len() as int;
                    &&& count <= before.downlink.len() && count <= slots && bytes@.len() <= capacity
                    &&& bytes@ == before.downlink.take(count).flatten()
                    &&& lengths@ == lengths_of(before.downlink.take(count))
                    &&& after.downlink == before.downlink.skip(count)
                    &&& after.downlink_buffers.available == before.downlink_buffers.available
                        + count
                    &&& count == before.downlink.len() || count == slots || before.downlink.take(
                        count + 1,
                    ).flatten().len() > capacity
                    &&& after.uplink == before.uplink
                }
            },
{
    assert forall|bridge: &mut PacketTunBridge| #[trigger]
        call_ensures(PacketTunBridge::pull_batch, (bridge, capacity, slots), result)
            && bridge.valid() && result is Ok implies ({
        let before = bridge@;
        let after = final(bridge)@;
        let bytes = result->Ok_0.0;
        let lengths = result->Ok_0.1;
        let count = lengths@.len() as int;
        &&& count <= before.downlink.len() && count <= slots && bytes@.len() <= capacity
        &&& bytes@ == before.downlink.take(count).flatten()
        &&& lengths@ == lengths_of(before.downlink.take(count))
        &&& after.downlink == before.downlink.skip(count)
        &&& after.downlink_buffers.available == before.downlink_buffers.available + count
        &&& count == before.downlink.len() || count == slots || before.downlink.take(
            count + 1,
        ).flatten().len() > capacity
        &&& after.uplink == before.uplink
    }) by {
        let queue = bridge@.downlink;
        law_downlink_batches_are_full(queue, slots as int, capacity as int, 0);
        let count = pulled_packets(queue, slots as int, capacity as int, 0);
        law_packets_are_concatenated(queue, count);
        assert(result->Ok_0.1@.len() == count);
    }
}

/// A bridge has 64 buffers in each direction and queues of 256, half of that on iOS.
pub proof fn law_bridges_have_their_sizes(ios: bool, sizes: BridgeSizes)
    requires
        call_ensures(BridgeSizes::of_platform, (ios,), sizes),
    ensures
        ios ==> sizes.pool == 32 && sizes.from_platform == 128 && sizes.to_platform == 128,
        !ios ==> sizes.pool == 64 && sizes.from_platform == 256 && sizes.to_platform == 256,
{
}

} // verus!
