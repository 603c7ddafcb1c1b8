//! How one encrypted record leaves for a client.
//!
//! A record uses one snapshot of the active path as a whole. It is cut only where the client
//! negotiated that; a datagram that turns out too large lowers the budget and is tried once more.

use crate::udp_egress::{
    law_safe_budget_fits_every_framing, safe_budget, UdpActiveEgress, UdpEgressFraming,
    UdpEgressSnapshot, UdpWire,
};
use vstd::prelude::*;

verus! {

/// How a record is sent.
#[derive(Debug, Clone, Copy, PartialEq, Eq, Structural)]
pub enum RecordPlan {
    Whole,
    /// In pieces of at most this many bytes.
    Pieces(usize),
}

/// The record that fits a path: by its budget, or by the safe one where the budget is too small.
pub open spec fn fitting_record(path: UdpEgressSnapshot, wire: UdpWire, budget: int) -> int {
    if budget - path.overhead(wire) > wire.data_frag_header {
        budget - path.overhead(wire)
    } else {
        safe_budget(path.peer) - path.overhead(wire)
    }
}

pub fn record_limit(path: &UdpEgressSnapshot, wire: &UdpWire, budget: u32) -> (limit: usize)
    requires
        wire.leaves_room(path.socket.seal_overhead),
    ensures
        limit == fitting_record(*path, *wire, budget as int),
        limit > wire.data_frag_header,
{
    proof {
        law_safe_budget_fits_every_framing(*path, *wire);
    }
    match path.record_budget(wire, budget as usize) {
        Some(limit) => limit,
        None => match path.record_budget(wire, path.safe_payload_budget()) {
            Some(limit) => limit,
            None => 0,
        },
    }
}

/// Plans how a record is sent on a path.
pub fn plan_record(
    path: &UdpEgressSnapshot,
    wire: &UdpWire,
    budget: u32,
    record_len: usize,
    data_frag_enabled: bool,
) -> (plan: RecordPlan)
    requires
        wire.leaves_room(path.socket.seal_overhead),
    ensures
        ({
            let limit = fitting_record(*path, *wire, budget as int);
            plan == if data_frag_enabled && record_len > limit {
                RecordPlan::Pieces((limit - wire.data_frag_header) as usize)
            } else {
                RecordPlan::Whole
            }
        }),
{
    let limit: usize = record_limit(path, wire, budget);
    if data_frag_enabled && record_len > limit {
        RecordPlan::Pieces(limit - wire.data_frag_header)
    } else {
        RecordPlan::Whole
    }
}

/// A piece with its header and wrappers fits the budget that it was planned for.
pub proof fn law_pieces_fit_the_budget(path: UdpEgressSnapshot, wire: UdpWire, budget: u32)
    requires
        wire.leaves_room(path.socket.seal_overhead),
    ensures
        ({
            let piece = fitting_record(path, wire, budget as int) - wire.data_frag_header;
            let datagram = piece + wire.data_frag_header + path.overhead(wire);
            &&& piece > 0
            &&& datagram == budget || datagram == safe_budget(path.peer)
            &&& budget >= safe_budget(path.peer) ==> datagram == budget
        }),
{
    law_safe_budget_fits_every_framing(path, wire);
}

/// Whether a burst of records goes out as one batch: only for an unlimited client, and where
/// every record fits as it is.
pub fn batch_allowed(limit_mbps: u32, record_lens: &Vec<usize>, record_limit: usize) -> (allowed: bool)
    ensures
        allowed == (limit_mbps == 0 && record_lens@.len() > 1 && forall|i: int|
            0 <= i < record_lens@.len() ==> #[trigger] record_lens@[i] <= record_limit),
{
    if limit_mbps != 0 || record_lens.len() <= 1 {
        return false;
    }
    let mut i: usize = 0;
    while i < record_lens.len()
        invariant
            i <= record_lens@.len(),
            forall|j: int| 0 <= j < i ==> #[trigger] record_lens@[j] <= record_limit,
        decreases record_lens@.len() - i,
    {
        if record_lens[i] > record_limit {
            assert(!(record_lens@[i as int] <= record_limit));
            return false;
        }
        i += 1;
    }
    true
}

/// How sending a record ended.
#[derive(Debug, Clone, Copy, PartialEq, Eq, Structural)]
pub enum SendOutcome {
    Sent,
    /// The path does not take datagrams of this size.
    TooLong,
    Failed,
}

#[derive(Debug, Clone, Copy, PartialEq, Eq, Structural)]
pub enum WriterStep {
    Done,
    /// Send the same record once more, at the budget that is active now.
    Retry,
    /// Count the record as dropped.
    Drop,
}

/// What follows an attempt that was made on a path with a budget: a datagram that was too large
/// lowers the budget and is tried once more.
pub fn after_attempt(
    egress: &mut UdpActiveEgress,
    attempted: &UdpEgressSnapshot,
    attempted_budget: u32,
    outcome: SendOutcome,
    retried: bool,
    data_frag_enabled: bool,
) -> (step: WriterStep)
    ensures
        ({
            let again = outcome is TooLong && data_frag_enabled && !retried && attempted_budget
                > safe_budget(attempted.peer);
            &&& step == if outcome is Sent {
                WriterStep::Done
            } else if again {
                WriterStep::Retry
            } else {
                WriterStep::Drop
            }
            &&& *final(egress) == if again {
                let safe = safe_budget(old(egress).current.peer);
                UdpActiveEgress {
                    payload_budget: if old(egress).current.path_epoch != attempted.path_epoch
                        || old(egress).payload_budget > safe {
                        safe as u32
                    } else {
                        old(egress).payload_budget
                    },
                    ..*old(egress)
                }
            } else {
                *old(egress)
            }
        }),
{
    match outcome {
        SendOutcome::Sent => WriterStep::Done,
        SendOutcome::TooLong => {
            if data_frag_enabled && !retried && attempted_budget as usize
                > attempted.safe_payload_budget() {
                egress.downgrade_payload_budget(attempted.path_epoch);
                WriterStep::Retry
            } else {
                WriterStep::Drop
            }
        },
        SendOutcome::Failed => WriterStep::Drop,
    }
}

/// The bundle size once a wider budget was certified: it only ever grows.
pub fn widened_bundle(active: usize, certified: Option<usize>) -> (bundle: usize)
    ensures
        bundle == match certified {
            Some(size) => if size > active {
                size
            } else {
                active
            },
            None => active,
        },
{
    match certified {
        Some(size) => if size > active {
            size
        } else {
            active
        },
        None => active,
    }
}

/// What a writer takes off its queue in one go. Control is not held back: it closes the burst.
#[derive(Debug, Clone, Copy, PartialEq, Eq, Structural)]
pub struct Burst {
    pub taken: usize,
    /// Whether the last packet is control.
    pub priority: bool,
}

impl Burst {
    /// A burst that opens with a packet.
    pub fn open(is_control: bool) -> (burst: Burst)
        ensures
            burst == (Burst { taken: 1, priority: is_control }),
    {
        Burst { taken: 1, priority: is_control }
    }

    /// Whether a packet more belongs to the burst.
    pub open spec fn accepts(self, max_batch: usize) -> bool {
        !self.priority && self.taken < max_batch
    }

    pub fn wants_more(&self, max_batch: usize) -> (more: bool)
        ensures
            more == self.accepts(max_batch),
    {
        !self.priority && self.taken < max_batch
    }

    /// The burst with a packet more.
    pub open spec fn with(self, is_control: bool) -> Burst {
        Burst { taken: (self.taken + 1) as usize, priority: is_control }
    }

    /// Takes a packet that came right after the others.
    pub fn take(&mut self, is_control: bool, max_batch: usize)
        requires
            old(self).accepts(max_batch),
        ensures
            *final(self) == old(self).with(is_control),
    {
        self.taken = self.taken + 1;
        self.priority = is_control;
    }
}

/// A burst stays within one batch, and nothing follows control in it.
pub proof fn law_control_closes_the_burst(burst: Burst, is_control: bool, max_batch: usize)
    requires
        burst.accepts(max_batch),
    ensures
        burst.with(is_control).taken <= max_batch,
        is_control ==> !burst.with(is_control).accepts(max_batch),
{
}

/// The bits that a datagram of a client takes from its rate; control takes none.
pub fn paced_bits(priority: bool, wire_len: u32) -> (bits: u64)
    ensures
        bits == if priority {
            0
        } else {
            wire_len * 8
        },
{
    if priority {
        0
    } else {
        wire_len as u64 * 8
    }
}

/// The bytes on the wire of the first `end` datagrams, with what the socket adds to each.
pub open spec fn wire_bytes(lens: Seq<u16>, overhead: int, end: int) -> int
    decreases end,
{
    if end <= 0 {
        0
    } else {
        wire_bytes(lens, overhead, end - 1) + lens[end - 1] + overhead
    }
}

proof fn lemma_wire_bytes_bounded(lens: Seq<u16>, overhead: int, end: int)
    requires
        0 <= end <= lens.len(),
        0 <= overhead,
    ensures
        0 <= wire_bytes(lens, overhead, end) <= end * (u16::MAX + overhead),
    decreases end,
{
    if end > 0 {
        lemma_wire_bytes_bounded(lens, overhead, end - 1);
        assert((end - 1) * (u16::MAX + overhead) + (u16::MAX + overhead) == end * (u16::MAX
            + overhead)) by (nonlinear_arith);
    }
}

/// How handing datagrams to the socket went.
#[derive(Debug, Clone, Copy, PartialEq, Eq, Structural)]
pub enum BatchOutcome {
    /// The socket took so many of them.
    Sent(usize),
    Failed,
}

#[derive(Debug, Clone, Copy, PartialEq, Eq, Structural)]
pub enum BatchStep {
    /// Hand the datagrams from here to there to the socket.
    Send(usize, usize),
    Done,
    /// No progress can be made.
    Stop,
}

/// Datagrams on their way out, batch by batch. Only what the socket took is charged.
#[derive(Debug)]
pub struct BatchSend {
    pub lens: Vec<u16>,
    pub overhead: usize,
    pub max_batch: usize,
    pub sent: usize,
    pub charged: u64,
}

impl BatchSend {
    /// What is charged in the end can be counted.
    pub open spec fn valid(&self) -> bool {
        &&& self.lens@.len() * (u16::MAX + self.overhead) <= u64::MAX
        &&& self.max_batch > 0
        &&& self.sent <= self.lens@.len()
        &&& self.charged == wire_bytes(self.lens@, self.overhead as int, self.sent as int)
    }

    /// Where the next batch ends.
    pub open spec fn batch_end(&self) -> int {
        if self.lens@.len() - self.sent > self.max_batch {
            self.sent + self.max_batch
        } else {
            self.lens@.len() as int
        }
    }

    /// What is to be done next.
    pub open spec fn next(&self) -> BatchStep {
        if self.sent < self.lens@.len() {
            BatchStep::Send(self.sent, self.batch_end() as usize)
        } else {
            BatchStep::Done
        }
    }

    pub fn start(lens: Vec<u16>, overhead: usize, max_batch: usize) -> (batch: BatchSend)
        requires
            lens@.len() * (u16::MAX + overhead) <= u64::MAX,
            max_batch > 0,
        ensures
            batch.valid(),
            batch.lens == lens,
            batch.overhead == overhead,
            batch.max_batch == max_batch,
            batch.sent == 0,
            batch.charged == 0,
    {
        BatchSend { lens, overhead, max_batch, sent: 0, charged: 0 }
    }

    pub fn step(&self) -> (step: BatchStep)
        requires
            self.valid(),
        ensures
            step == self.next(),
    {
        if self.sent < self.lens.len() {
            let left: usize = self.lens.len() - self.sent;
            let end: usize = if left > self.max_batch {
                self.sent + self.max_batch
            } else {
                self.lens.len()
            };
            BatchStep::Send(self.sent, end)
        } else {
            BatchStep::Done
        }
    }

    /// Takes what the socket said to the batch of the last step.
    pub fn advance(&mut self, outcome: BatchOutcome) -> (step: BatchStep)
        requires
            old(self).valid(),
            outcome matches BatchOutcome::Sent(count) ==> old(self).sent + count <= old(
                self,
            ).batch_end(),
        ensures
            final(self).valid(),
            final(self).lens == old(self).lens,
            final(self).overhead == old(self).overhead,
            final(self).max_batch == old(self).max_batch,
            match outcome {
                BatchOutcome::Sent(count) => final(self).sent == old(self).sent + count && step
                    == if count == 0 {
                    BatchStep::Stop
                } else {
                    final(self).next()
                },
                BatchOutcome::Failed => *final(self) == *old(self) && step == BatchStep::Stop,
            },
    {
        let count: usize = match outcome {
            BatchOutcome::Sent(count) => count,
            BatchOutcome::Failed => {
                return BatchStep::Stop;
            },
        };
        if count == 0 {
            return BatchStep::Stop;
        }
        assert(self.lens.len() == self.lens@.len());
        let end: usize = self.sent + count;
        while self.sent < end
            invariant
                self.valid(),
                self.sent <= end <= self.lens@.len(),
                self.lens == old(self).lens,
                self.overhead == old(self).overhead,
                self.max_batch == old(self).max_batch,
            decreases end - self.sent,
        {
            proof {
                let next = self.sent as int + 1;
                lemma_wire_bytes_bounded(self.lens@, self.overhead as int, next);
                let each = u16::MAX + self.overhead as int;
                let count = self.lens@.len() as int;
                assert(each <= next * each <= count * each) by (nonlinear_arith)
                    requires
                        1 <= next <= count,
                        0 <= each,
                ;
            }
            let wire_len: u64 = self.lens[self.sent] as u64 + self.overhead as u64;
            self.charged = self.charged + wire_len;
            self.sent = self.sent + 1;
        }
        self.step()
    }
}

/// Every datagram is handed out once and in order: the next batch starts where the socket
/// stopped, and holds no more than a batch may.
pub proof fn law_batches_cover_everything_once(batch: BatchSend)
    requires
        batch.valid(),
    ensures
        match batch.next() {
            BatchStep::Send(from, to) => from == batch.sent && from < to <= batch.lens@.len() && to
                - from <= batch.max_batch,
            BatchStep::Done => batch.sent == batch.lens@.len() && batch.charged == wire_bytes(
                batch.lens@,
                batch.overhead as int,
                batch.lens@.len() as int,
            ),
            BatchStep::Stop => false,
        },
{
    assert(batch.lens.len() == batch.lens@.len());
}

/// Frames that end a session, each sent several times over.
#[derive(Debug, Clone, Copy, PartialEq, Eq, Structural)]
pub struct TerminalSend {
    pub frames: usize,
    /// Rounds that are still to be sent, the present one among them.
    pub rounds_left: usize,
    pub frame: usize,
}

#[derive(Debug, Clone, Copy, PartialEq, Eq, Structural)]
pub enum TerminalStep {
    /// Seal and send this frame.
    Send(usize),
    /// Every frame went out in every round; the writer goes on.
    Delivered,
    /// A frame could not be sent; the writer ends.
    Abandon,
}

impl TerminalSend {
    pub open spec fn next(self) -> TerminalStep {
        if self.rounds_left > 0 && self.frame < self.frames {
            TerminalStep::Send(self.frame)
        } else {
            TerminalStep::Delivered
        }
    }

    pub fn start(frames: usize, repetitions: usize) -> (outcome: (TerminalSend, TerminalStep))
        ensures
            outcome.0 == (TerminalSend { frames, rounds_left: repetitions, frame: 0 }),
            outcome.1 == outcome.0.next(),
    {
        let step = if repetitions > 0 && frames > 0 {
            TerminalStep::Send(0)
        } else {
            TerminalStep::Delivered
        };
        (TerminalSend { frames, rounds_left: repetitions, frame: 0 }, step)
    }

    /// The frame after this one: the first of the next round after the last.
    pub open spec fn moved(self) -> TerminalSend {
        if self.frame + 1 < self.frames {
            TerminalSend { frame: (self.frame + 1) as usize, ..self }
        } else {
            TerminalSend { rounds_left: (self.rounds_left - 1) as usize, frame: 0, ..self }
        }
    }

    /// Takes whether the frame of the last step went out.
    pub fn advance(&mut self, sent: bool) -> (step: TerminalStep)
        requires
            old(self).next() is Send,
        ensures
            if sent {
                *final(self) == old(self).moved() && step == old(self).moved().next()
            } else {
                *final(self) == *old(self) && step == TerminalStep::Abandon
            },
    {
        if !sent {
            return TerminalStep::Abandon;
        }
        if self.frame + 1 < self.frames {
            self.frame = self.frame + 1;
        } else {
            self.rounds_left = self.rounds_left - 1;
            self.frame = 0;
        }
        if self.rounds_left > 0 && self.frame < self.frames {
            TerminalStep::Send(self.frame)
        } else {
            TerminalStep::Delivered
        }
    }
}

/// How many frames are still to be sent.
pub open spec fn frames_left(send: TerminalSend) -> int {
    if send.rounds_left > 0 && send.frame < send.frames {
        send.rounds_left * send.frames - send.frame
    } else {
        0
    }
}

/// Success is reported only after every frame went out in every round: each one that goes out
/// leaves one less, and nothing is left at the end.
pub proof fn law_terminal_frames_are_all_sent(send: TerminalSend)
    requires
        send.next() is Send,
    ensures
        frames_left(send.moved()) == frames_left(send) - 1,
        send.moved().next() is Delivered <==> frames_left(send.moved()) == 0,
{
    let rounds = send.rounds_left as int;
    let frames = send.frames as int;
    assert(rounds * frames == (rounds - 1) * frames + frames) by (nonlinear_arith);
    assert(rounds > 1 ==> (rounds - 1) * frames >= frames) by (nonlinear_arith)
        requires
            frames > 0,
    ;
    assert(rounds >= 1 ==> rounds * frames >= frames) by (nonlinear_arith)
        requires
            frames > 0,
    ;
    if rounds == 1 {
        assert(rounds * frames == frames) by (nonlinear_arith)
            requires
                rounds == 1,
        ;
    }
}

/// A record may be as large as its budget leaves room for once the header and what the socket adds
/// are taken off; where that is no more than a fragment header, what every path carries counts.
pub proof fn law_records_use_their_budget(path: UdpEgressSnapshot, wire: UdpWire, budget: int)
    requires
        wire.leaves_room(path.socket.seal_overhead),
    ensures
        ({
            let header: int = match path.framing {
                UdpEgressFraming::Unmasked => 0,
                UdpEgressFraming::LegacyQuic(_) => wire.quic_short_header as int,
                UdpEgressFraming::RoamingCid(_) => wire.roaming_short_header as int,
            };
            let around = path.socket.seal_overhead + header;
            let safe: int = if path.peer.ip is V4 {
                548
            } else {
                1232
            };
            let record = fitting_record(path, wire, budget);
            &&& budget > around + wire.data_frag_header ==> record + around == budget
            &&& budget <= around + wire.data_frag_header ==> record + around == safe
        }),
{
}

/// A burst takes packets until it is full or has taken control; it counts each of them.
pub proof fn law_bursts_take_packets(burst: Burst, is_control: bool, max_batch: usize)
    ensures
        burst.accepts(max_batch) <==> burst.taken < max_batch && !burst.priority,
        burst.accepts(max_batch) ==> burst.with(is_control).taken == burst.taken + 1
            && burst.with(is_control).priority == is_control,
{
}

/// Datagrams are charged one by one, each with what the socket adds to it.
pub proof fn law_datagrams_are_charged(lens: Seq<u16>, overhead: int, end: int)
    requires
        0 <= end < lens.len(),
    ensures
        wire_bytes(lens, overhead, 0) == 0,
        wire_bytes(lens, overhead, end + 1) == wire_bytes(lens, overhead, end) + lens[end]
            + overhead,
{
}

/// The first frame comes first, and frames follow one another round by round.
pub proof fn law_terminal_frames_follow_one_another(send: TerminalSend)
    requires
        send.rounds_left > 0,
        send.frame < send.frames,
    ensures
        send.next() == TerminalStep::Send(send.frame),
        send.frame + 1 < send.frames ==> send.moved().frame == send.frame + 1
            && send.moved().rounds_left == send.rounds_left,
        send.frame + 1 == send.frames ==> send.moved().frame == 0 && send.moved().rounds_left
            == send.rounds_left - 1,
        send.moved().frames == send.frames,
{
}

/// A batch of more than one record goes out at once where the rate is not limited and each of them
/// fits.
pub proof fn law_batches_are_allowed(
    limit_mbps: u32,
    record_lens: Vec<usize>,
    limit: usize,
    allowed: bool,
    at: int,
)
    requires
        call_ensures(batch_allowed, (limit_mbps, &record_lens, limit), allowed),
    ensures
        limit_mbps > 0 || record_lens@.len() <= 1 ==> !allowed,
        0 <= at < record_lens@.len() && record_lens@[at] > limit ==> !allowed,
        limit_mbps == 0 && record_lens@.len() >= 2 && (forall|i: int|
            0 <= i < record_lens@.len() ==> #[trigger] record_lens@[i] <= limit) ==> allowed,
{
}

/// A record is cut only where it may be cut and does not fit; its pieces then fit with the header
/// of a piece.
pub proof fn law_records_are_cut_to_fit(
    path: UdpEgressSnapshot,
    wire: UdpWire,
    budget: u32,
    record_len: usize,
    data_frag_enabled: bool,
    plan: RecordPlan,
    limit: usize,
)
    requires
        wire.leaves_room(path.socket.seal_overhead),
        call_ensures(plan_record, (&path, &wire, budget, record_len, data_frag_enabled), plan),
        call_ensures(record_limit, (&path, &wire, budget), limit),
    ensures
        plan is Whole <==> !data_frag_enabled || record_len <= limit,
        plan matches RecordPlan::Pieces(size) ==> size >= 1 && size + wire.data_frag_header == limit,
{
}

/// A datagram that was too long is sent once more, cut smaller, where records may be cut and its
/// size was above the cautious one; the path then falls back to that size. Everything else that
/// was not sent is dropped, and changes nothing.
pub proof fn law_long_datagrams_are_sent_again(
    attempted: UdpEgressSnapshot,
    attempted_budget: u32,
    outcome: SendOutcome,
    retried: bool,
    data_frag_enabled: bool,
    step: WriterStep,
)
    ensures
        forall|egress: &mut UdpActiveEgress| #[trigger]
            call_ensures(
                after_attempt,
                (egress, &attempted, attempted_budget, outcome, retried, data_frag_enabled),
                step,
            ) ==> {
                let cautious: int = if attempted.peer.ip is V4 {
                    548
                } else {
                    1232
                };
                let own: int = if egress.current.peer.ip is V4 {
                    548
                } else {
                    1232
                };
                let after = *final(egress);
                &&& step is Done <==> outcome is Sent
                &&& step is Retry <==> outcome is TooLong && data_frag_enabled && !retried
                    && attempted_budget > cautious
                &&& step is Drop <==> !(step is Done) && !(step is Retry)
                &&& !(step is Retry) ==> after == *egress
                &&& step is Retry ==> after.current == egress.current && after.draining
                    == egress.draining && after.payload_budget <= own
                &&& step is Retry && egress.current.path_epoch == attempted.path_epoch
                    && egress.payload_budget <= own ==> after.payload_budget
                    == egress.payload_budget
            },
{
}

/// A bundle only ever grows, to what was certified.
pub proof fn law_bundles_only_grow(active: usize, certified: Option<usize>, bundle: usize)
    requires
        call_ensures(widened_bundle, (active, certified), bundle),
    ensures
        bundle >= active,
        certified matches Some(size) ==> bundle >= size && (bundle == size || bundle == active),
        certified is None ==> bundle == active,
{
}

/// Control goes out at once; every other byte counts eight bits.
pub proof fn law_control_is_not_paced(priority: bool, wire_len: u32, bits: u64)
    requires
        call_ensures(paced_bits, (priority, wire_len), bits),
    ensures
        priority ==> bits == 0,
        !priority ==> bits == 8 * wire_len,
{
}

/// A batch goes on from where it stopped, and ends where nothing went out.
pub proof fn law_batches_go_on(outcome: BatchOutcome, step: BatchStep)
    ensures
        forall|batch: &mut BatchSend| #[trigger]
            call_ensures(BatchSend::advance, (batch, outcome), step) && batch.valid() && (
            outcome matches BatchOutcome::Sent(count) ==> batch.sent + count <= batch.batch_end())
                ==> {
                let after = *final(batch);
                &&& outcome is Failed ==> step is Stop && after == *batch
                &&& outcome matches BatchOutcome::Sent(count) ==> after.sent == batch.sent + count
                    && (count == 0 ==> step is Stop) && (count > 0 ==> step == after.next())
                &&& after.lens == batch.lens && after.overhead == batch.overhead && after.max_batch
                    == batch.max_batch
            },
{
}

/// A last word that could not be sent is given up; one that was sent is followed by the next.
pub proof fn law_last_words_are_given_up_together(sent: bool, step: TerminalStep)
    ensures
        forall|terminal: &mut TerminalSend| #[trigger]
            call_ensures(TerminalSend::advance, (terminal, sent), step) && terminal.next() is Send
                ==> {
                &&& !sent ==> step is Abandon && *final(terminal) == *terminal
                &&& sent ==> step == final(terminal).next() && *final(terminal)
                    == terminal.moved()
            },
{
}

} // verus!
