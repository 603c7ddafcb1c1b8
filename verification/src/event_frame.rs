//! The event frame handed to the Android adapter: a 48-byte header in explicit little-endian
//! order, followed by the payload.

use crate::text::append_bytes;
use vstd::prelude::*;

verus! {

pub const EVENT_V1_SIZE: usize = 48;

pub const MAX_EVENT_PAYLOAD: usize = 1048576;

/// The header of one control-plane event.
#[derive(Debug, Clone, Copy, PartialEq, Eq, Structural)]
pub struct ClientEvent {
    pub abi_version: u32,
    pub kind: u32,
    pub state: u32,
    pub payload_format: u32,
    pub reserved: u32,
    pub sequence: u64,
    pub plan_generation: u64,
    pub error_code: u32,
}

/// The lowest `width` bytes of a number, lowest first.
pub open spec fn le_bytes(number: int, width: nat) -> Seq<u8>
    decreases width,
{
    if width == 0 {
        Seq::empty()
    } else {
        seq![(number % 256) as u8] + le_bytes(number / 256, (width - 1) as nat)
    }
}

/// The number that bytes, lowest first, stand for.
pub open spec fn le_value(bytes: Seq<u8>) -> int
    decreases bytes.len(),
{
    if bytes.len() == 0 {
        0
    } else {
        bytes[0] + 256 * le_value(bytes.skip(1))
    }
}

pub fn push_le(frame: &mut Vec<u8>, number: u64, width: usize)
    ensures
        final(frame)@ == old(frame)@ + le_bytes(number as int, width as nat),
    decreases width,
{
    if width > 0 {
        let low: u8 = (number % 256) as u8;
        let ghost before = frame@;
        frame.push(low);
        push_le(frame, number / 256, width - 1);
        assert(frame@ =~= before + (seq![low] + le_bytes((number / 256) as int, (width - 1) as nat)));
    } else {
        assert(frame@ =~= frame@ + Seq::<u8>::empty());
    }
}

/// The header of a frame.
pub open spec fn event_header(event: ClientEvent, payload_len: int) -> Seq<u8> {
    le_bytes(EVENT_V1_SIZE as int, 4) + le_bytes(event.abi_version as int, 4) + le_bytes(
        event.kind as int,
        4,
    ) + le_bytes(event.state as int, 4) + le_bytes(event.payload_format as int, 4) + le_bytes(
        event.reserved as int,
        4,
    ) + le_bytes(event.sequence as int, 8) + le_bytes(event.plan_generation as int, 8) + le_bytes(
        event.error_code as int,
        4,
    ) + le_bytes(payload_len, 4)
}

/// The frame of an event. The payload length is written in four bytes, which hold every payload
/// that the adapter accepts.
pub fn event_frame(event: &ClientEvent, payload: &[u8]) -> (frame: Vec<u8>)
    ensures
        frame@ == event_header(*event, payload@.len() as int) + payload@,
{
    let mut frame: Vec<u8> = Vec::new();
    push_le(&mut frame, EVENT_V1_SIZE as u64, 4);
    assert(frame@ =~= le_bytes(EVENT_V1_SIZE as int, 4));
    push_le(&mut frame, event.abi_version as u64, 4);
    push_le(&mut frame, event.kind as u64, 4);
    push_le(&mut frame, event.state as u64, 4);
    push_le(&mut frame, event.payload_format as u64, 4);
    push_le(&mut frame, event.reserved as u64, 4);
    push_le(&mut frame, event.sequence, 8);
    push_le(&mut frame, event.plan_generation, 8);
    push_le(&mut frame, event.error_code as u64, 4);
    push_le(&mut frame, payload.len() as u64, 4);
    append_bytes(&mut frame, payload);
    frame
}

/// `256` to the power of `width`.
spec fn byte_limit(width: nat) -> int
    decreases width,
{
    if width == 0 {
        1
    } else {
        256 * byte_limit((width - 1) as nat)
    }
}

proof fn lemma_byte_limits()
    ensures
        byte_limit(4) == 0x1_0000_0000,
        byte_limit(8) == 0x1_0000_0000_0000_0000,
{
    reveal_with_fuel(byte_limit, 9);
}

proof fn lemma_le_round_trip(number: int, width: nat)
    requires
        0 <= number < byte_limit(width),
    ensures
        le_bytes(number, width).len() == width,
        le_value(le_bytes(number, width)) == number,
    decreases width,
{
    if width > 0 {
        lemma_le_round_trip(number / 256, (width - 1) as nat);
        let rest = le_bytes(number / 256, (width - 1) as nat);
        assert(le_bytes(number, width).skip(1) =~= rest);
    }
}

pub(crate) proof fn lemma_le_u64(number: u64)
    ensures
        le_bytes(number as int, 8).len() == 8,
        le_value(le_bytes(number as int, 8)) == number,
{
    lemma_byte_limits();
    lemma_le_round_trip(number as int, 8);
}

/// A reader gets every field back from its place in the frame, and the payload from behind the
/// header.
pub proof fn law_frame_is_readable(event: ClientEvent, payload: Seq<u8>)
    requires
        payload.len() < 0x1_0000_0000,
    ensures
        ({
            let header = event_header(event, payload.len() as int);
            let frame = header + payload;
            &&& header.len() == EVENT_V1_SIZE
            &&& le_value(frame.subrange(0, 4)) == EVENT_V1_SIZE
            &&& le_value(frame.subrange(4, 8)) == event.abi_version
            &&& le_value(frame.subrange(8, 12)) == event.kind
            &&& le_value(frame.subrange(12, 16)) == event.state
            &&& le_value(frame.subrange(16, 20)) == event.payload_format
            &&& le_value(frame.subrange(20, 24)) == event.reserved
            &&& le_value(frame.subrange(24, 32)) == event.sequence
            &&& le_value(frame.subrange(32, 40)) == event.plan_generation
            &&& le_value(frame.subrange(40, 44)) == event.error_code
            &&& le_value(frame.subrange(44, 48)) == payload.len()
            &&& frame.skip(48) == payload
        }),
{
    lemma_byte_limits();
    lemma_le_round_trip(EVENT_V1_SIZE as int, 4);
    lemma_le_round_trip(event.abi_version as int, 4);
    lemma_le_round_trip(event.kind as int, 4);
    lemma_le_round_trip(event.state as int, 4);
    lemma_le_round_trip(event.payload_format as int, 4);
    lemma_le_round_trip(event.reserved as int, 4);
    lemma_le_round_trip(event.sequence as int, 8);
    lemma_le_round_trip(event.plan_generation as int, 8);
    lemma_le_round_trip(event.error_code as int, 4);
    lemma_le_round_trip(payload.len() as int, 4);
    let frame = event_header(event, payload.len() as int) + payload;
    assert(frame.subrange(0, 4) =~= le_bytes(EVENT_V1_SIZE as int, 4));
    assert(frame.subrange(4, 8) =~= le_bytes(event.abi_version as int, 4));
    assert(frame.subrange(8, 12) =~= le_bytes(event.kind as int, 4));
    assert(frame.subrange(12, 16) =~= le_bytes(event.state as int, 4));
    assert(frame.subrange(16, 20) =~= le_bytes(event.payload_format as int, 4));
    assert(frame.subrange(20, 24) =~= le_bytes(event.reserved as int, 4));
    assert(frame.subrange(24, 32) =~= le_bytes(event.sequence as int, 8));
    assert(frame.subrange(32, 40) =~= le_bytes(event.plan_generation as int, 8));
    assert(frame.subrange(40, 44) =~= le_bytes(event.error_code as int, 4));
    assert(frame.subrange(44, 48) =~= le_bytes(payload.len() as int, 4));
    assert(frame.skip(48) =~= payload);
}

/// Outcome of asking for the next event with a buffer of a given size.
#[derive(Debug, Clone, Copy, PartialEq, Eq, Structural)]
pub enum PollOutcome {
    NoEvent,
    Delivered,
    BufferTooSmall,
    Failed,
}

#[derive(Debug, Clone, Copy, PartialEq, Eq, Structural)]
pub enum PollStep {
    /// There is nothing to hand out.
    Nothing,
    /// Hand out a frame without payload.
    EmptyFrame,
    /// Ask again with a buffer of this size.
    Retry(usize),
}

/// What to do after asking with an empty buffer; `required` is the payload size reported.
pub fn poll_step(first: PollOutcome, required: usize) -> (step: PollStep)
    ensures
        step == match first {
            PollOutcome::NoEvent | PollOutcome::Failed => PollStep::Nothing,
            PollOutcome::Delivered => if required > MAX_EVENT_PAYLOAD {
                PollStep::Nothing
            } else {
                PollStep::EmptyFrame
            },
            PollOutcome::BufferTooSmall => if required > MAX_EVENT_PAYLOAD {
                PollStep::Nothing
            } else {
                PollStep::Retry(required)
            },
        },
{
    if first == PollOutcome::NoEvent || required > MAX_EVENT_PAYLOAD {
        return PollStep::Nothing;
    }
    match first {
        PollOutcome::Delivered => PollStep::EmptyFrame,
        PollOutcome::BufferTooSmall => PollStep::Retry(required),
        _ => PollStep::Nothing,
    }
}

/// The frame after asking again with a buffer of the size that the event needs. `payload` is
/// the buffer; `written` is the payload size reported the second time.
pub fn finish_poll(
    event: &ClientEvent,
    second: PollOutcome,
    payload: &[u8],
    written: usize,
) -> (frame: Option<Vec<u8>>)
    ensures
        frame is Some <==> second == PollOutcome::Delivered && written == payload@.len(),
        frame matches Some(bytes) ==> bytes@ == event_header(*event, payload@.len() as int)
            + payload@,
{
    if second == PollOutcome::Delivered && written == payload.len() {
        Some(event_frame(event, payload))
    } else {
        None
    }
}

/// Numbers are written with their lowest byte first: each byte is the one of its place.
pub proof fn law_numbers_are_written_lowest_byte_first(number: u64)
    ensures
        ({
            let bytes = le_bytes(number as int, 8);
            &&& bytes.len() == 8
            &&& bytes[0] == number % 0x100
            &&& bytes[1] == number / 0x100 % 0x100
            &&& bytes[2] == number / 0x1_0000 % 0x100
            &&& bytes[3] == number / 0x100_0000 % 0x100
            &&& bytes[4] == number / 0x1_0000_0000 % 0x100
            &&& bytes[5] == number / 0x100_0000_0000 % 0x100
            &&& bytes[6] == number / 0x1_0000_0000_0000 % 0x100
            &&& bytes[7] == number / 0x100_0000_0000_0000 % 0x100
            &&& le_bytes(number as int, 4) == bytes.take(4)
        }),
{
    let upper: int = number as int / 0x1_0000_0000;
    lemma_four_bytes(number as int, 4);
    lemma_four_bytes(upper, 0);
    assert(le_bytes(upper, 0) =~= Seq::empty());
    lemma_four_bytes(number as int, 0);
    assert(le_bytes(number as int, 4) =~= le_bytes(number as int, 8).take(4));
}

proof fn lemma_four_bytes(number: int, more: nat)
    requires
        number >= 0,
    ensures
        ({
            let first = (number % 0x100) as u8;
            let second = (number / 0x100 % 0x100) as u8;
            let third = (number / 0x1_0000 % 0x100) as u8;
            let fourth = (number / 0x100_0000 % 0x100) as u8;
            le_bytes(number, more + 4) == seq![first, second, third, fourth] + le_bytes(
                number / 0x1_0000_0000,
                more,
            )
        }),
{
    let one: int = number / 0x100;
    let two: int = one / 0x100;
    let three: int = two / 0x100;
    let four: int = three / 0x100;
    assert(two == number / 0x1_0000 && three == number / 0x100_0000 && four == number
        / 0x1_0000_0000);
    let last = seq![(three % 0x100) as u8] + le_bytes(four, more);
    assert(le_bytes(three, more + 1) == last);
    assert(le_bytes(two, more + 2) == seq![(two % 0x100) as u8] + last);
    assert(le_bytes(one, more + 3) == seq![(one % 0x100) as u8] + (seq![(two % 0x100) as u8]
        + last));
    assert(le_bytes(number, more + 4) =~= seq![
        (number % 0x100) as u8,
        (one % 0x100) as u8,
        (two % 0x100) as u8,
        (three % 0x100) as u8,
    ] + le_bytes(four, more));
}

/// A byte counts by its place: moving bytes up by one place makes them worth 256 times as much.
pub proof fn law_bytes_count_by_their_place(bytes: Seq<u8>, byte: u8)
    ensures
        le_value(seq![byte]) == byte,
        le_value(seq![byte] + bytes) == byte + 256 * le_value(bytes),
{
    assert((seq![byte] + bytes).skip(1) =~= bytes);
    assert(seq![byte].skip(1) =~= Seq::empty());
    assert(le_value(Seq::empty()) == 0);
}

/// An event is fetched again with a buffer of the size that it needs, up to one mebibyte; an event
/// that needs no buffer is delivered with its first fetch.
pub proof fn law_events_are_fetched(first: PollOutcome, required: usize, step: PollStep)
    requires
        call_ensures(poll_step, (first, required), step),
    ensures
        first is BufferTooSmall && required <= 1_048_576 ==> step == PollStep::Retry(required),
        first is Delivered && required <= 1_048_576 ==> step is EmptyFrame,
        first is NoEvent || first is Failed || required > 1_048_576 ==> step is Nothing,
{
}

/// The frame of an event is its header of 48 bytes and its payload, unchanged.
pub proof fn law_frames_end_with_their_payload(event: ClientEvent, payload: &[u8], frame: Vec<u8>)
    requires
        call_ensures(event_frame, (&event, payload), frame),
        payload@.len() < 0x1_0000_0000,
    ensures
        frame@.len() == 48 + payload@.len(),
        frame@.skip(48) == payload@,
        le_value(frame@.subrange(8, 12)) == event.kind,
        le_value(frame@.subrange(24, 32)) == event.sequence,
        le_value(frame@.subrange(44, 48)) == payload@.len(),
{
    law_frame_is_readable(event, payload@);
}

} // verus!
