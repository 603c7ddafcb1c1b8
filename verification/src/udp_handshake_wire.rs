//! Cutting handshake messages into datagrams, and the packet numbers that they use up.
//!
//! The handshake numbers by position: the ServerHello starts at 0, the AuthOK at 1, and the
//! session goes on behind whatever the AuthOK took.

use vstd::prelude::*;

verus! {

/// First packet number that the data plane may use.
pub const UDP_SESSION_FIRST_PN: u32 = 2;

/// Packet number of the first AuthOK datagram; the rest follow it.
pub const AUTH_OK_FIRST_PN: u32 = 1;

/// Bounds of message fragmentation.
#[derive(Debug, Clone, Copy, PartialEq, Eq, Structural)]
pub struct FragmentLimits {
    /// The largest piece of a message that one datagram carries.
    pub max_chunk: usize,
    /// The most pieces that a receiver puts together.
    pub max_frags: u32,
}

impl FragmentLimits {
    pub open spec fn valid(&self) -> bool {
        self.max_chunk > 0 && self.max_frags <= 0xffff
    }
}

/// The place of a piece in its message.
#[derive(Debug, Clone, Copy, PartialEq, Eq, Structural)]
pub struct Part {
    pub index: u32,
    pub count: u32,
}

/// One datagram of a handshake message: its piece, the place of the piece where the message was
/// cut, and its packet number where packets are numbered.
#[derive(Debug)]
pub struct HandshakeDatagram {
    pub body: Vec<u8>,
    pub part: Option<Part>,
    pub packet_number: Option<u32>,
}

#[verifier::ext_equal]
pub struct DatagramView {
    pub body: Seq<u8>,
    pub part: Option<Part>,
    pub packet_number: Option<u32>,
}

impl View for HandshakeDatagram {
    type V = DatagramView;

    open spec fn view(&self) -> DatagramView {
        DatagramView { body: self.body@, part: self.part, packet_number: self.packet_number }
    }
}

pub open spec fn datagrams_view(list: Seq<HandshakeDatagram>) -> Seq<DatagramView> {
    list.map_values(|datagram: HandshakeDatagram| datagram@)
}

/// How many pieces a message of a length takes.
pub open spec fn piece_count(len: int, max_chunk: int) -> int {
    (len + max_chunk - 1) / max_chunk
}

/// Where piece `index` ends.
pub open spec fn piece_end(len: int, max_chunk: int, index: int) -> int {
    if (index + 1) * max_chunk < len {
        (index + 1) * max_chunk
    } else {
        len
    }
}

/// The first `end` of `count` pieces of a message, numbered from `first`.
pub open spec fn pieces(
    message: Seq<u8>,
    max_chunk: int,
    count: int,
    numbered: bool,
    first: int,
    end: int,
) -> Seq<DatagramView>
    decreases end,
{
    if end <= 0 {
        Seq::empty()
    } else {
        pieces(message, max_chunk, count, numbered, first, end - 1).push(
            DatagramView {
                body: message.subrange(
                    (end - 1) * max_chunk,
                    piece_end(message.len() as int, max_chunk, end - 1),
                ),
                part: Some(Part { index: (end - 1) as u32, count: count as u32 }),
                packet_number: if numbered {
                    Some((first + end - 1) as u32)
                } else {
                    None
                },
            },
        )
    }
}

/// The message was too long for the pieces that a receiver puts together.
#[derive(Debug, Clone, Copy, PartialEq, Eq, Structural)]
pub struct TooManyFragments;

proof fn lemma_piece_bounds(len: int, max_chunk: int, index: int)
    requires
        max_chunk > 0,
        len >= 0,
        0 <= index < piece_count(len, max_chunk),
    ensures
        0 <= index * max_chunk < len,
        index * max_chunk < piece_end(len, max_chunk, index) <= len,
        piece_end(len, max_chunk, index) - index * max_chunk <= max_chunk,
        index + 1 < piece_count(len, max_chunk) ==> piece_end(len, max_chunk, index) == (index + 1)
            * max_chunk,
        index + 1 == piece_count(len, max_chunk) ==> piece_end(len, max_chunk, index) == len,
{
    let count = piece_count(len, max_chunk);
    assert(count * max_chunk < len + max_chunk && len <= count * max_chunk) by (nonlinear_arith)
        requires
            count == (len + max_chunk - 1) / max_chunk,
            max_chunk > 0,
            len >= 0,
    ;
    assert((index + 1) * max_chunk <= count * max_chunk) by (nonlinear_arith)
        requires
            index + 1 <= count,
            max_chunk > 0,
    ;
    assert(0 <= index * max_chunk) by (nonlinear_arith)
        requires
            0 <= index,
            max_chunk > 0,
    ;
    assert((index + 1) * max_chunk == index * max_chunk + max_chunk) by (nonlinear_arith);
    if index + 1 < count {
        assert((index + 2) * max_chunk <= count * max_chunk) by (nonlinear_arith)
            requires
                index + 2 <= count,
                max_chunk > 0,
        ;
        assert((index + 2) * max_chunk == (index + 1) * max_chunk + max_chunk) by (nonlinear_arith);
    }
}

/// Cuts a message into numbered pieces.
fn cut_message(message: &[u8], limits: &FragmentLimits, numbered: bool, first: u32) -> (result: Result<
    Vec<HandshakeDatagram>,
    TooManyFragments,
>)
    requires
        limits.valid(),
        first <= AUTH_OK_FIRST_PN,
    ensures
        ({
            let count = piece_count(message@.len() as int, limits.max_chunk as int);
            match result {
                Ok(list) => count <= limits.max_frags && datagrams_view(list@) == pieces(
                    message@,
                    limits.max_chunk as int,
                    count,
                    numbered,
                    first as int,
                    count,
                ),
                Err(_) => count > limits.max_frags,
            }
        }),
{
    let size: usize = message.len();
    let chunk: usize = limits.max_chunk;
    let ghost pieces_needed = piece_count(size as int, chunk as int);
    let whole: usize = size / chunk;
    let rest: usize = size % chunk;
    proof {
        assert(pieces_needed == whole + if rest > 0 {
            1int
        } else {
            0
        }) by (nonlinear_arith)
            requires
                pieces_needed == (size + chunk - 1) / (chunk as int),
                whole == size as int / chunk as int,
                rest == size as int % chunk as int,
                chunk > 0,
        ;
    }
    if whole as u64 > limits.max_frags as u64 || (rest > 0 && whole as u64
        >= limits.max_frags as u64) {
        return Err(TooManyFragments);
    }
    let count: u32 = whole as u32 + if rest > 0 {
        1
    } else {
        0
    };
    let mut list: Vec<HandshakeDatagram> = Vec::new();
    let mut index: u32 = 0;
    let mut start: usize = 0;
    while index < count
        invariant
            index <= count <= limits.max_frags,
            limits.valid(),
            first <= AUTH_OK_FIRST_PN,
            chunk == limits.max_chunk,
            size == message@.len(),
            count == piece_count(size as int, chunk as int),
            index < count ==> start == index * chunk,
            datagrams_view(list@) == pieces(
                message@,
                chunk as int,
                count as int,
                numbered,
                first as int,
                index as int,
            ),
        decreases count - index,
    {
        proof {
            lemma_piece_bounds(size as int, chunk as int, index as int);
            assert((index + 1) * chunk == index * chunk + chunk) by (nonlinear_arith);
        }
        let end: usize = if chunk < size - start {
            start + chunk
        } else {
            size
        };
        assert(end == piece_end(size as int, chunk as int, index as int));
        let ghost before = list@;
        let datagram = HandshakeDatagram {
            body: copy_range(message, start, end),
            part: Some(Part { index, count }),
            packet_number: if numbered {
                Some(first + index)
            } else {
                None
            },
        };
        assert(datagrams_view(before.push(datagram)) =~= datagrams_view(before).push(datagram@));
        list.push(datagram);
        start = end;
        index += 1;
    }
    Ok(list)
}

fn copy_range(source: &[u8], start: usize, end: usize) -> (copy: Vec<u8>)
    requires
        start <= end <= source@.len(),
    ensures
        copy@ == source@.subrange(start as int, end as int),
{
    let mut copy: Vec<u8> = Vec::new();
    let mut i: usize = start;
    while i < end
        invariant
            start <= i <= end <= source@.len(),
            copy@ =~= source@.subrange(start as int, i as int),
        decreases end - i,
    {
        copy.push(source[i]);
        i += 1;
    }
    copy
}

/// One datagram that carries a whole message.
pub open spec fn single(message: Seq<u8>, packet_number: Option<u32>) -> Seq<DatagramView> {
    seq![DatagramView { body: message, part: None, packet_number }]
}

fn whole_message(message: &[u8], packet_number: Option<u32>) -> (list: Vec<HandshakeDatagram>)
    ensures
        datagrams_view(list@) == single(message@, packet_number),
{
    let mut list: Vec<HandshakeDatagram> = Vec::new();
    let body = copy_range(message, 0, message.len());
    assert(body@ =~= message@);
    list.push(HandshakeDatagram { body, part: None, packet_number });
    assert(datagrams_view(list@) =~= single(message@, packet_number));
    list
}

/// The datagrams of an AuthOK record: one while it fits, so that it looks as it always did, else
/// pieces. Cut first and mask each piece by itself, so that nothing needs IP fragmentation.
pub open spec fn auth_ok_datagrams(
    record: Seq<u8>,
    numbered: bool,
    limits: FragmentLimits,
) -> Option<Seq<DatagramView>> {
    let count = piece_count(record.len() as int, limits.max_chunk as int);
    if record.len() <= limits.max_chunk {
        Some(
            single(
                record,
                if numbered {
                    Some(AUTH_OK_FIRST_PN)
                } else {
                    None
                },
            ),
        )
    } else if count <= limits.max_frags {
        Some(
            pieces(
                record,
                limits.max_chunk as int,
                count,
                numbered,
                AUTH_OK_FIRST_PN as int,
                count,
            ),
        )
    } else {
        None
    }
}

/// Turns an encrypted AuthOK record into the datagrams that carry it; refused where a receiver
/// could not put it together.
pub fn build_auth_ok_datagrams(record: &[u8], quic_enabled: bool, limits: &FragmentLimits) -> (result:
    Result<Vec<HandshakeDatagram>, TooManyFragments>)
    requires
        limits.valid(),
    ensures
        match result {
            Ok(list) => auth_ok_datagrams(record@, quic_enabled, *limits) == Some(
                datagrams_view(list@),
            ),
            Err(_) => auth_ok_datagrams(record@, quic_enabled, *limits) is None,
        },
{
    if record.len() <= limits.max_chunk {
        return Ok(
            whole_message(
                record,
                if quic_enabled {
                    Some(AUTH_OK_FIRST_PN)
                } else {
                    None
                },
            ),
        );
    }
    cut_message(record, limits, quic_enabled, AUTH_OK_FIRST_PN)
}

/// The datagrams of a ServerHello: cut where the client cut its hello, else whole.
pub open spec fn server_hello_datagrams(
    hello: Seq<u8>,
    numbered: bool,
    fragment_it: bool,
    limits: FragmentLimits,
) -> Option<Seq<DatagramView>> {
    let count = piece_count(hello.len() as int, limits.max_chunk as int);
    if !fragment_it {
        Some(
            single(
                hello,
                if numbered {
                    Some(0u32)
                } else {
                    None
                },
            ),
        )
    } else if count <= limits.max_frags {
        Some(pieces(hello, limits.max_chunk as int, count, numbered, 0, count))
    } else {
        None
    }
}

/// Turns a ServerHello into the datagrams that carry it.
pub fn build_server_hello_datagrams(
    hello: &[u8],
    quic_enabled: bool,
    fragment_it: bool,
    limits: &FragmentLimits,
) -> (result: Result<Vec<HandshakeDatagram>, TooManyFragments>)
    requires
        limits.valid(),
    ensures
        match result {
            Ok(list) => server_hello_datagrams(hello@, quic_enabled, fragment_it, *limits) == Some(
                datagrams_view(list@),
            ),
            Err(_) => server_hello_datagrams(hello@, quic_enabled, fragment_it, *limits) is None,
        },
{
    if fragment_it {
        return cut_message(hello, limits, quic_enabled, 0);
    }
    Ok(
        whole_message(
            hello,
            if quic_enabled {
                Some(0)
            } else {
                None
            },
        ),
    )
}

/// The text of a refusal.
pub fn build_auth_error(reason: &str) -> (text: String)
    ensures
        text@ == "ERR:"@ + reason@,
{
    let mut text = "ERR:".to_owned();
    text.append(reason);
    text
}

/// The counter of the session once an AuthOK of `datagrams` datagrams was numbered: it only moves
/// forward.
pub open spec fn reserved(counter: u32, datagrams: int) -> int {
    if counter < AUTH_OK_FIRST_PN + datagrams {
        AUTH_OK_FIRST_PN + datagrams
    } else {
        counter as int
    }
}

pub fn reserve_packet_numbers(counter: u32, datagrams: usize) -> (next: u32)
    requires
        datagrams <= 0xffff,
    ensures
        next == reserved(counter, datagrams as int),
{
    let past: u32 = AUTH_OK_FIRST_PN + datagrams as u32;
    if counter < past {
        past
    } else {
        counter
    }
}

/// The pieces of a message one after the other.
pub open spec fn joined_bodies(list: Seq<DatagramView>, end: int) -> Seq<u8>
    decreases end,
{
    if end <= 0 {
        Seq::empty()
    } else {
        joined_bodies(list, end - 1) + list[end - 1].body
    }
}

proof fn lemma_pieces(
    message: Seq<u8>,
    max_chunk: int,
    count: int,
    numbered: bool,
    first: int,
    end: int,
)
    requires
        max_chunk > 0,
        count == piece_count(message.len() as int, max_chunk),
        0 <= end <= count <= 0xffff,
        0 <= first <= 1,
    ensures
        ({
            let list = pieces(message, max_chunk, count, numbered, first, end);
            &&& list.len() == end
            &&& joined_bodies(list, end) == message.take(
                if end == 0 {
                    0
                } else {
                    piece_end(message.len() as int, max_chunk, end - 1)
                },
            )
            &&& forall|i: int|
                0 <= i < end ==> {
                    let datagram = #[trigger] list[i];
                    &&& datagram.body.len() <= max_chunk
                    &&& datagram.part == Some(Part { index: i as u32, count: count as u32 })
                    &&& datagram.packet_number == if numbered {
                        Some((first + i) as u32)
                    } else {
                        None
                    }
                }
        }),
    decreases end,
{
    if end > 0 {
        lemma_pieces(message, max_chunk, count, numbered, first, end - 1);
        lemma_piece_bounds(message.len() as int, max_chunk, end - 1);
        let front = pieces(message, max_chunk, count, numbered, first, end - 1);
        let list = pieces(message, max_chunk, count, numbered, first, end);
        lemma_joined_prefix(front, list, end - 1);
        let start = (end - 1) * max_chunk;
        let stop = piece_end(message.len() as int, max_chunk, end - 1);
        if end > 1 {
            lemma_piece_bounds(message.len() as int, max_chunk, end - 2);
            assert(piece_end(message.len() as int, max_chunk, end - 2) == start);
        } else {
            assert(start == 0) by (nonlinear_arith)
                requires
                    start == (end - 1) * max_chunk,
                    end == 1,
            ;
        }
        assert(message.take(start) + message.subrange(start, stop) =~= message.take(stop));
    } else {
        assert(message.take(0) =~= Seq::empty());
    }
}

proof fn lemma_joined_prefix(front: Seq<DatagramView>, whole: Seq<DatagramView>, end: int)
    requires
        0 <= end <= front.len() <= whole.len(),
        forall|i: int| 0 <= i < end ==> front[i] == whole[i],
    ensures
        joined_bodies(front, end) == joined_bodies(whole, end),
    decreases end,
{
    if end > 0 {
        lemma_joined_prefix(front, whole, end - 1);
    }
}

/// The datagrams of an AuthOK put together give the record back, and each fits the budget of one
/// datagram.
pub proof fn law_auth_ok_reassembles(record: Seq<u8>, numbered: bool, limits: FragmentLimits)
    requires
        limits.valid(),
        auth_ok_datagrams(record, numbered, limits) is Some,
    ensures
        ({
            let list = auth_ok_datagrams(record, numbered, limits)->Some_0;
            &&& joined_bodies(list, list.len() as int) == record
            &&& forall|i: int|
                0 <= i < list.len() ==> (#[trigger] list[i]).body.len() <= limits.max_chunk
        }),
{
    let list = auth_ok_datagrams(record, numbered, limits)->Some_0;
    if record.len() > limits.max_chunk {
        let count = piece_count(record.len() as int, limits.max_chunk as int);
        assert(count > 0) by (nonlinear_arith)
            requires
                count == (record.len() + limits.max_chunk - 1) / (limits.max_chunk as int),
                record.len() > limits.max_chunk,
                limits.max_chunk > 0,
        ;
        lemma_pieces(
            record,
            limits.max_chunk as int,
            count,
            numbered,
            AUTH_OK_FIRST_PN as int,
            count,
        );
        lemma_piece_bounds(record.len() as int, limits.max_chunk as int, count - 1);
        assert(record.take(record.len() as int) =~= record);
    } else {
        assert(joined_bodies(list, 0) =~= Seq::empty());
        reveal_with_fuel(joined_bodies, 2);
        assert(joined_bodies(list, 1) =~= record);
    }
}

/// No packet number is issued twice: the datagrams of an AuthOK are numbered one after the other,
/// and the session, which starts at its own first number, goes on behind all of them. An AuthOK
/// that was not cut leaves that start where it is.
pub proof fn law_data_plane_never_reuses_an_auth_ok_number(record: Seq<u8>, limits: FragmentLimits)
    requires
        limits.valid(),
        auth_ok_datagrams(record, true, limits) is Some,
    ensures
        ({
            let list = auth_ok_datagrams(record, true, limits)->Some_0;
            let first_data = reserved(UDP_SESSION_FIRST_PN, list.len() as int);
            &&& list.len() <= 0xffff || list.len() == 1
            &&& forall|i: int|
                0 <= i < list.len() ==> (#[trigger] list[i]).packet_number == Some(
                    (AUTH_OK_FIRST_PN + i) as u32,
                ) && AUTH_OK_FIRST_PN + i < first_data
            &&& first_data >= UDP_SESSION_FIRST_PN
            &&& list.len() == 1 ==> first_data == UDP_SESSION_FIRST_PN
        }),
{
    if record.len() > limits.max_chunk {
        let count = piece_count(record.len() as int, limits.max_chunk as int);
        assert(count >= 0) by (nonlinear_arith)
            requires
                count == (record.len() + limits.max_chunk - 1) / (limits.max_chunk as int),
                limits.max_chunk > 0,
        ;
        lemma_pieces(record, limits.max_chunk as int, count, true, AUTH_OK_FIRST_PN as int, count);
    }
}

/// An AuthOK that fits one datagram is sent as it is; a longer one is cut, into pieces that each
/// say their place and how many there are, as long as a receiver can put them together.
pub proof fn law_auth_ok_is_cut_only_where_it_must_be(
    record: Seq<u8>,
    numbered: bool,
    limits: FragmentLimits,
    i: int,
)
    requires
        limits.valid(),
    ensures
        record.len() <= limits.max_chunk ==> {
            let list = auth_ok_datagrams(record, numbered, limits);
            &&& list is Some
            &&& list->Some_0.len() == 1
            &&& list->Some_0[0].body == record
            &&& list->Some_0[0].part is None
            &&& numbered ==> list->Some_0[0].packet_number == Some(1u32)
            &&& !numbered ==> list->Some_0[0].packet_number is None
        },
        record.len() > limits.max_chunk && record.len() <= limits.max_chunk * limits.max_frags
            ==> auth_ok_datagrams(record, numbered, limits) is Some,
        record.len() > limits.max_chunk && record.len() > limits.max_chunk * limits.max_frags
            ==> auth_ok_datagrams(record, numbered, limits) is None,
        record.len() > limits.max_chunk ==> (auth_ok_datagrams(
            record,
            numbered,
            limits,
        ) matches Some(list) ==> {
            &&& (list.len() - 1) * limits.max_chunk < record.len() <= list.len() * limits.max_chunk
            &&& 0 <= i < list.len() ==> list[i].part == Some(
                Part { index: i as u32, count: list.len() as u32 },
            )
            &&& 0 <= i < list.len() && numbered ==> list[i].packet_number == Some((1 + i) as u32)
            &&& 0 <= i < list.len() && !numbered ==> list[i].packet_number is None
        }),
{
    let chunk = limits.max_chunk as int;
    let len = record.len() as int;
    let most = limits.max_frags as int;
    let count = piece_count(len, chunk);
    if len > chunk {
        assert((count - 1) * chunk < len <= count * chunk && count >= 0) by (nonlinear_arith)
            requires
                count == (len + chunk - 1) / chunk,
                chunk > 0,
                len > chunk,
        ;
        assert(len <= chunk * most ==> count <= most) by (nonlinear_arith)
            requires
                (count - 1) * chunk < len,
                chunk > 0,
        ;
        assert(count <= most ==> len <= chunk * most) by (nonlinear_arith)
            requires
                len <= count * chunk,
                chunk > 0,
        ;
        if count <= most {
            lemma_pieces(record, chunk, count, numbered, AUTH_OK_FIRST_PN as int, count);
        }
    }
}

/// A ServerHello goes out whole, unless the client sent its own hello in pieces: then it is cut the
/// same way. Its first packet number is zero.
pub proof fn law_server_hello_follows_the_client(
    hello: Seq<u8>,
    numbered: bool,
    limits: FragmentLimits,
)
    requires
        limits.valid(),
        0 < hello.len() <= limits.max_chunk * limits.max_frags,
    ensures
        server_hello_datagrams(hello, numbered, false, limits) matches Some(list) && list.len() == 1
            && list[0].body == hello && list[0].part is None && list[0].packet_number
            == if numbered {
            Some(0u32)
        } else {
            None
        },
        server_hello_datagrams(hello, numbered, true, limits) matches Some(list) && list.len() > 0
            && joined_bodies(list, list.len() as int) == hello && list[0].packet_number
            == if numbered {
            Some(0u32)
        } else {
            None
        } && list[0].part is Some,
{
    let chunk = limits.max_chunk as int;
    let len = hello.len() as int;
    let most = limits.max_frags as int;
    let count = piece_count(len, chunk);
    assert(0 < count <= most && len <= count * chunk) by (nonlinear_arith)
        requires
            count == (len + chunk - 1) / chunk,
            chunk > 0,
            0 < len <= chunk * most,
    ;
    lemma_pieces(hello, chunk, count, numbered, 0, count);
    lemma_piece_bounds(len, chunk, count - 1);
    assert(hello.take(len) =~= hello);
}

/// The numbers that an AuthOK took are never used again: the counter of the session is behind them
/// afterwards, and never goes back.
pub proof fn law_packet_numbers_move_forward(counter: u32, datagrams: int)
    requires
        0 <= datagrams,
    ensures
        reserved(counter, datagrams) >= counter,
        reserved(counter, datagrams) >= 1 + datagrams,
        reserved(counter, datagrams) == counter || reserved(counter, datagrams) == 1 + datagrams,
{
}

} // verus!
