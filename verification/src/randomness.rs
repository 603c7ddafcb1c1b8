//! Random draws, and what is made of them.

use vstd::prelude::*;

verus! {

pub const PATH_CHALLENGE_LEN: usize = 16;

/// A random number of 64 bits: `rand::random`, the thread-local generator of the `rand` crate.
/// Every value can come back, so nothing is claimed of the result. The call panics where the
/// operating system cannot seed the generator.
#[verifier::external_body]
fn random_u64() -> (number: u64) {
    rand::random::<u64>()
}

/// A random number of 64 bits that is not zero: `rand::random` at `NonZeroU64`, which draws again
/// until the number is not zero. Every other value can come back. The call panics where the
/// operating system cannot seed the generator.
#[verifier::external_body]
fn random_nonzero_u64() -> (number: u64)
    ensures
        number != 0,
{
    rand::random::<std::num::NonZeroU64>().get()
}

/// A random number of 128 bits that is not zero: `rand::random` at `NonZeroU128`, which draws
/// again until the number is not zero. Every other value can come back. The call panics where the
/// operating system cannot seed the generator.
#[verifier::external_body]
fn random_nonzero_u128() -> (number: u128)
    ensures
        number != 0,
{
    rand::random::<std::num::NonZeroU128>().get()
}

/// The item that a reservoir of size one keeps of the first `end` items, by one draw for each:
/// the last item whose draw is a multiple of its place.
pub open spec fn reservoir(draws: Seq<u64>, end: int) -> Option<int>
    decreases end,
{
    if end <= 0 {
        None
    } else if draws[end - 1] as int % end == 0 {
        Some(end - 1)
    } else {
        reservoir(draws, end - 1)
    }
}

/// Picks an item by one draw for each.
pub fn reservoir_index(draws: &Vec<u64>) -> (index: Option<usize>)
    ensures
        match index {
            Some(index) => index < draws@.len() && reservoir(draws@, draws@.len() as int) == Some(
                index as int,
            ),
            None => draws@.len() == 0,
        },
{
    let mut kept: Option<usize> = None;
    let mut i: usize = 0;
    while i < draws.len()
        invariant
            i <= draws@.len(),
            match kept {
                Some(index) => index < i && reservoir(draws@, i as int) == Some(index as int),
                None => i == 0,
            },
        decreases draws@.len() - i,
    {
        if draws[i] % (i as u64 + 1) == 0 {
            kept = Some(i);
        }
        i += 1;
    }
    kept
}

/// As many draws as asked for.
pub fn draw(count: usize) -> (draws: Vec<u64>)
    ensures
        draws@.len() == count,
{
    let mut draws: Vec<u64> = Vec::new();
    let mut i: usize = 0;
    while i < count
        invariant
            i <= count,
            draws@.len() == i,
        decreases count - i,
    {
        draws.push(random_u64());
        i += 1;
    }
    draws
}

/// A random place below `count`.
pub fn draw_index(count: usize) -> (index: Option<usize>)
    ensures
        match index {
            Some(index) => index < count,
            None => count == 0,
        },
{
    reservoir_index(&draw(count))
}

/// A random name for a session, which is never zero. Which name comes back is chance.
pub fn draw_session_id() -> (session_id: u64)
    ensures
        session_id != 0,
{
    random_nonzero_u64()
}

/// A token of two draws: the first is the lower half.
pub fn token_from(low: u64, high: u64) -> (token: u128)
    ensures
        token == high * 0x1_0000_0000_0000_0000 + low,
{
    high as u128 * 0x1_0000_0000_0000_0000 + low as u128
}

/// The tokens of so many pairs of draws.
pub open spec fn tokens_of(draws: Seq<u64>, count: int) -> Seq<u128> {
    Seq::new(
        count as nat,
        |i: int| (draws[2 * i + 1] * 0x1_0000_0000_0000_0000 + draws[2 * i]) as u128,
    )
}

pub fn tokens_from(draws: &Vec<u64>) -> (tokens: Vec<u128>)
    ensures
        tokens@ == tokens_of(draws@, draws@.len() as int / 2),
{
    let total: usize = draws.len();
    let count: usize = total / 2;
    let mut tokens: Vec<u128> = Vec::new();
    let mut i: usize = 0;
    while i < count
        invariant
            i <= count,
            total == draws@.len(),
            count == total / 2,
            tokens@ =~= tokens_of(draws@, i as int),
        decreases count - i,
    {
        tokens.push(token_from(draws[2 * i], draws[2 * i + 1]));
        i += 1;
    }
    tokens
}

/// A fresh token for each of `count` probes.
pub fn draw_tokens(count: usize) -> (tokens: Vec<u128>)
    requires
        count <= usize::MAX / 2,
    ensures
        tokens@.len() == count,
{
    tokens_from(&draw(2 * count))
}

/// The sixteen bytes of two draws, lowest byte first.
pub open spec fn challenge_bytes(low: u64, high: u64) -> Seq<u8> {
    crate::event_frame::le_bytes(low as int, 8) + crate::event_frame::le_bytes(high as int, 8)
}

/// A challenge for a path: two draws as bytes. A challenge of zeros only is none.
pub fn challenge_from(low: u64, high: u64) -> (challenge: Option<Vec<u8>>)
    ensures
        match challenge {
            Some(bytes) => bytes@ == challenge_bytes(low, high) && !(low == 0 && high == 0),
            None => low == 0 && high == 0,
        },
{
    if low == 0 && high == 0 {
        return None;
    }
    let mut bytes: Vec<u8> = Vec::new();
    crate::event_frame::push_le(&mut bytes, low, 8);
    assert(bytes@ =~= crate::event_frame::le_bytes(low as int, 8));
    crate::event_frame::push_le(&mut bytes, high, 8);
    Some(bytes)
}

proof fn lemma_zero_bytes(bytes: Seq<u8>)
    requires
        forall|i: int| 0 <= i < bytes.len() ==> bytes[i] == 0,
    ensures
        crate::event_frame::le_value(bytes) == 0,
    decreases bytes.len(),
{
    if bytes.len() > 0 {
        lemma_zero_bytes(bytes.skip(1));
    }
}

/// The bytes of two draws are all zero only where both draws are.
proof fn lemma_challenge_bytes(low: u64, high: u64)
    requires
        !(low == 0 && high == 0),
    ensures
        challenge_bytes(low, high).len() == PATH_CHALLENGE_LEN,
        exists|i: int| 0 <= i < PATH_CHALLENGE_LEN && challenge_bytes(low, high)[i] != 0,
{
    let lower = crate::event_frame::le_bytes(low as int, 8);
    let upper = crate::event_frame::le_bytes(high as int, 8);
    crate::event_frame::lemma_le_u64(low);
    crate::event_frame::lemma_le_u64(high);
    if low != 0 {
        if forall|i: int| 0 <= i < lower.len() ==> lower[i] == 0 {
            lemma_zero_bytes(lower);
        }
        let i = choose|i: int| 0 <= i < lower.len() && lower[i] != 0;
        assert(challenge_bytes(low, high)[i] != 0);
    } else {
        if forall|i: int| 0 <= i < upper.len() ==> upper[i] == 0 {
            lemma_zero_bytes(upper);
        }
        let i = choose|i: int| 0 <= i < upper.len() && upper[i] != 0;
        assert(challenge_bytes(low, high)[8 + i] != 0);
    }
}

/// A random challenge for a path: sixteen bytes, not all of them zero. Which bytes come back is
/// chance.
pub fn draw_path_challenge() -> (challenge: Vec<u8>)
    ensures
        challenge@.len() == PATH_CHALLENGE_LEN,
        exists|i: int| 0 <= i < PATH_CHALLENGE_LEN && challenge@[i] != 0,
{
    let number: u128 = random_nonzero_u128();
    let low: u64 = (number % 0x1_0000_0000_0000_0000) as u64;
    let high: u64 = (number / 0x1_0000_0000_0000_0000) as u64;
    proof {
        lemma_challenge_bytes(low, high);
    }
    challenge_from(low, high).unwrap()
}

/// The kept item is the last one whose draw is a multiple of its place, counted from one; since
/// every number is a multiple of one, an item is kept wherever there is one.
pub proof fn law_the_last_chosen_item_is_kept(draws: Seq<u64>, end: int, at: int)
    requires
        0 <= at < end <= draws.len(),
        draws[at] as int % (at + 1) == 0,
        forall|i: int| at < i < end ==> (#[trigger] draws[i]) as int % (i + 1) != 0,
    ensures
        reservoir(draws, end) == Some(at),
    decreases end,
{
    if at < end - 1 {
        assert(draws[end - 1] as int % end != 0);
        law_the_last_chosen_item_is_kept(draws, end - 1, at);
    }
}

/// Something is kept of every list that is not empty.
pub proof fn law_something_is_kept(draws: Seq<u64>, end: int)
    requires
        1 <= end <= draws.len(),
    ensures
        reservoir(draws, end) is Some,
        0 <= reservoir(draws, end)->Some_0 < end,
    decreases end,
{
    if end > 1 {
        law_something_is_kept(draws, end - 1);
    } else {
        assert(draws[0] as int % 1 == 0);
    }
}

/// Each token is made of its own two draws, the first as its lower half: no draw is used twice.
pub proof fn law_tokens_use_their_own_draws(draws: Seq<u64>, count: int, i: int)
    requires
        0 <= i < count,
        2 * count <= draws.len(),
    ensures
        tokens_of(draws, count).len() == count,
        tokens_of(draws, count)[i] % 0x1_0000_0000_0000_0000 == draws[2 * i],
        tokens_of(draws, count)[i] / 0x1_0000_0000_0000_0000 == draws[2 * i + 1],
{
    let low: int = draws[2 * i] as int;
    let high: int = draws[2 * i + 1] as int;
    let token: int = high * 0x1_0000_0000_0000_0000 + low;
    assert(token % 0x1_0000_0000_0000_0000 == low && token / 0x1_0000_0000_0000_0000 == high
        && 0 <= token <= u128::MAX);
}

/// Both draws can be read back from a challenge.
pub proof fn law_challenges_hold_both_draws(low: u64, high: u64)
    ensures
        challenge_bytes(low, high).len() == 16,
        crate::event_frame::le_value(challenge_bytes(low, high).take(8)) == low,
        crate::event_frame::le_value(challenge_bytes(low, high).skip(8)) == high,
{
    crate::event_frame::lemma_le_u64(low);
    crate::event_frame::lemma_le_u64(high);
    let lower = crate::event_frame::le_bytes(low as int, 8);
    let upper = crate::event_frame::le_bytes(high as int, 8);
    assert(challenge_bytes(low, high).take(8) =~= lower);
    assert(challenge_bytes(low, high).skip(8) =~= upper);
}

} // verus!
