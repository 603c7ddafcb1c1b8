//! Bounded places for sources that have no session yet.
//!
//! Source addresses can be forged, so everything that an unknown source can claim is limited: the
//! hellos that are being put together, the handshakes whose cryptography runs at once, and the
//! half-open sessions.

use crate::carrier::CarrierAddress;
use crate::randomness::draw_index;
use crate::udp_client::UdpClient;
use crate::udp_datagram::MAX_PENDING_HANDSHAKES;
use crate::udp_directory::{inserted, is_half_open, removed, DirectoryView, UdpSessionDirectory};
use vstd::prelude::*;

verus! {

/// A hello that is being put together, and since when.
#[derive(Debug, Clone, Copy, PartialEq, Eq, Structural)]
pub struct PartialHello {
    pub address: CarrierAddress,
    pub since: u64,
}

/// Whether a source is on a list.
pub open spec fn listed(list: Seq<PartialHello>, address: CarrierAddress) -> bool {
    exists|i: int| 0 <= i < list.len() && (#[trigger] list[i]).address == address
}

/// No source is on a list twice.
pub open spec fn one_each(list: Seq<PartialHello>) -> bool {
    forall|i: int, j: int|
        0 <= i < j < list.len() ==> (#[trigger] list[i]).address != (#[trigger] list[j]).address
}

/// The sources whose hellos are being put together, in the order in which they came.
pub struct PartialHellos {
    entries: Vec<PartialHello>,
}

impl View for PartialHellos {
    type V = Seq<PartialHello>;

    closed spec fn view(&self) -> Seq<PartialHello> {
        self.entries@
    }
}

/// The list without a source.
pub open spec fn without_source(list: Seq<PartialHello>, address: CarrierAddress) -> Seq<
    PartialHello,
>
    decreases list.len(),
{
    if list.len() == 0 {
        list
    } else {
        let front = without_source(list.drop_last(), address);
        if list.last().address == address {
            front
        } else {
            front.push(list.last())
        }
    }
}

/// The list without what is as old as `timeout` or older.
pub open spec fn without_old(list: Seq<PartialHello>, now: u64, timeout: u64) -> Seq<PartialHello>
    decreases list.len(),
{
    if list.len() == 0 {
        list
    } else {
        let front = without_old(list.drop_last(), now, timeout);
        if now - list.last().since < timeout {
            front.push(list.last())
        } else {
            front
        }
    }
}

proof fn lemma_without_source(list: Seq<PartialHello>, address: CarrierAddress)
    requires
        one_each(list),
    ensures
        one_each(without_source(list, address)),
        !listed(without_source(list, address), address),
        forall|i: int|
            0 <= i < without_source(list, address).len() ==> listed(
                list,
                (#[trigger] without_source(list, address)[i]).address,
            ),
        without_source(list, address).len() == if listed(list, address) {
            list.len() - 1
        } else {
            list.len() as int
        },
    decreases list.len(),
{
    if list.len() > 0 {
        let front = list.drop_last();
        let kept = without_source(front, address);
        lemma_without_source(front, address);
        assert forall|i: int| 0 <= i < front.len() implies (#[trigger] front[i]).address
            != list.last().address by {
            assert(list[i].address != list[list.len() - 1].address);
        }
        assert forall|i: int| 0 <= i < without_source(list, address).len() implies listed(
            list,
            (#[trigger] without_source(list, address)[i]).address,
        ) by {
            if i < kept.len() {
                assert(listed(front, kept[i].address));
                let j = choose|j: int|
                    0 <= j < front.len() && (#[trigger] front[j]).address == kept[i].address;
                assert(list[j].address == kept[i].address);
            } else {
                assert(list[list.len() - 1] == list.last());
            }
        }
        if listed(front, address) {
            let j = choose|j: int| 0 <= j < front.len() && (#[trigger] front[j]).address == address;
            assert(list[j].address == address);
        }
        if listed(list, address) && list.last().address != address {
            let j = choose|j: int| 0 <= j < list.len() && (#[trigger] list[j]).address == address;
            assert(front[j].address == address);
        }
        if list.last().address == address {
            assert(list[list.len() - 1].address == address);
            assert(!listed(front, address));
        } else {
            assert forall|i: int| 0 <= i < kept.len() implies (#[trigger] kept[i]).address
                != list.last().address by {
                let j = choose|j: int|
                    0 <= j < front.len() && (#[trigger] front[j]).address == kept[i].address;
                assert(front[j].address != list.last().address);
            }
        }
    }
}

proof fn lemma_without_old(list: Seq<PartialHello>, now: u64, timeout: u64)
    requires
        one_each(list),
    ensures
        one_each(without_old(list, now, timeout)),
        without_old(list, now, timeout).len() <= list.len(),
        forall|i: int|
            0 <= i < without_old(list, now, timeout).len() ==> listed(
                list,
                (#[trigger] without_old(list, now, timeout)[i]).address,
            ),
    decreases list.len(),
{
    if list.len() > 0 {
        let front = list.drop_last();
        let kept = without_old(front, now, timeout);
        lemma_without_old(front, now, timeout);
        assert forall|i: int| 0 <= i < kept.len() implies (#[trigger] kept[i]).address
            != list.last().address && listed(list, kept[i].address) by {
            let j = choose|j: int|
                0 <= j < front.len() && (#[trigger] front[j]).address == kept[i].address;
            assert(list[j].address != list[list.len() - 1].address);
            assert(list[j].address == kept[i].address);
        }
        assert(list[list.len() - 1] == list.last());
    }
}

impl PartialHellos {
    /// Bounded, and each source once.
    pub open spec fn valid(&self) -> bool {
        self@.len() <= MAX_PENDING_HANDSHAKES && one_each(self@)
    }

    pub fn new() -> (hellos: PartialHellos)
        ensures
            hellos.valid(),
            hellos@ == Seq::<PartialHello>::empty(),
    {
        PartialHellos { entries: Vec::new() }
    }

    pub fn contains(&self, address: CarrierAddress) -> (found: bool)
        ensures
            found == listed(self@, address),
    {
        let mut i: usize = 0;
        while i < self.entries.len()
            invariant
                i <= self.entries@.len(),
                forall|j: int| 0 <= j < i ==> (#[trigger] self.entries@[j]).address != address,
            decreases self.entries@.len() - i,
        {
            if self.entries[i].address == address {
                assert(self.entries@[i as int].address == address);
                return true;
            }
            i += 1;
        }
        false
    }

    /// Takes a source out.
    pub fn forget(&mut self, address: CarrierAddress)
        requires
            old(self).valid(),
        ensures
            final(self).valid(),
            final(self)@ == without_source(old(self)@, address),
    {
        proof {
            lemma_without_source(self@, address);
        }
        let mut kept: Vec<PartialHello> = Vec::new();
        let ghost all = self.entries@;
        let mut i: usize = 0;
        assert(all.take(0) =~= Seq::<PartialHello>::empty());
        while i < self.entries.len()
            invariant
                i <= self.entries@.len(),
                all == self.entries@,
                kept@ == without_source(all.take(i as int), address),
            decreases self.entries@.len() - i,
        {
            assert(all.take(i + 1).drop_last() =~= all.take(i as int));
            assert(all.take(i + 1).last() == all[i as int]);
            let entry = self.entries[i];
            if entry.address != address {
                kept.push(entry);
            }
            i += 1;
        }
        assert(all.take(all.len() as int) =~= all);
        self.entries = kept;
    }

    /// Makes room for a source and notes it. Where the list is full, the source that has waited
    /// longest gives way.
    pub fn note(&mut self, address: CarrierAddress, now: u64) -> (evicted: Option<CarrierAddress>)
        requires
            old(self).valid(),
        ensures
            final(self).valid(),
            if listed(old(self)@, address) {
                evicted is None && final(self)@ == old(self)@
            } else if old(self)@.len() < MAX_PENDING_HANDSHAKES {
                evicted is None && final(self)@ == old(self)@.push(
                    PartialHello { address, since: now },
                )
            } else {
                evicted matches Some(oldest) && final(self)@ == without_source(
                    old(self)@,
                    oldest,
                ).push(PartialHello { address, since: now }) && exists|i: int|
                    0 <= i < old(self)@.len() && (#[trigger] old(self)@[i]).address == oldest
                        && forall|j: int|
                        0 <= j < old(self)@.len() ==> old(self)@[i].since <= (#[trigger] old(
                            self,
                        )@[j]).since
            },
    {
        if self.contains(address) {
            return None;
        }
        let ghost before = self@;
        let evicted = if self.entries.len() >= MAX_PENDING_HANDSHAKES {
            let oldest = self.oldest();
            proof {
                lemma_without_source(before, oldest);
            }
            self.forget(oldest);
            Some(oldest)
        } else {
            None
        };
        let ghost kept = self@;
        assert(!listed(kept, address)) by {
            if listed(kept, address) {
                let i = choose|i: int|
                    0 <= i < kept.len() && (#[trigger] kept[i]).address == address;
                assert(listed(before, kept[i].address));
            }
        }
        self.entries.push(PartialHello { address, since: now });
        evicted
    }

    fn oldest(&self) -> (address: CarrierAddress)
        requires
            self@.len() > 0,
        ensures
            exists|i: int|
                0 <= i < self@.len() && (#[trigger] self@[i]).address == address && forall|j: int|
                    0 <= j < self@.len() ==> self@[i].since <= (#[trigger] self@[j]).since,
    {
        let mut best: usize = 0;
        let mut i: usize = 1;
        while i < self.entries.len()
            invariant
                best < i <= self.entries@.len(),
                forall|j: int|
                    0 <= j < i ==> self.entries@[best as int].since <= (
                    #[trigger] self.entries@[j]).since,
            decreases self.entries@.len() - i,
        {
            if self.entries[i].since < self.entries[best].since {
                best = i;
            }
            i += 1;
        }
        self.entries[best].address
    }

    /// Drops hellos that were never completed.
    pub fn expire(&mut self, now: u64, timeout: u64)
        requires
            old(self).valid(),
        ensures
            final(self).valid(),
            final(self)@ == without_old(old(self)@, now, timeout),
    {
        proof {
            lemma_without_old(self@, now, timeout);
        }
        let mut kept: Vec<PartialHello> = Vec::new();
        let ghost all = self.entries@;
        let mut i: usize = 0;
        assert(all.take(0) =~= Seq::<PartialHello>::empty());
        while i < self.entries.len()
            invariant
                i <= self.entries@.len(),
                all == self.entries@,
                kept@ == without_old(all.take(i as int), now, timeout),
            decreases self.entries@.len() - i,
        {
            assert(all.take(i + 1).drop_last() =~= all.take(i as int));
            assert(all.take(i + 1).last() == all[i as int]);
            let entry = self.entries[i];
            let young = if now >= entry.since {
                now - entry.since < timeout
            } else {
                true
            };
            if young {
                kept.push(entry);
            }
            i += 1;
        }
        assert(all.take(all.len() as int) =~= all);
        self.entries = kept;
    }
}

/// What putting a hello together came to.
#[derive(Debug, Clone, Copy, PartialEq, Eq, Structural)]
pub enum HelloPieces {
    Complete,
    Pending,
    Malformed,
}

impl PartialHellos {
    /// Takes the outcome of one more piece; a hello that is complete or malformed leaves the list.
    pub fn take_piece(&mut self, address: CarrierAddress, pieces: HelloPieces) -> (complete: bool)
        requires
            old(self).valid(),
        ensures
            final(self).valid(),
            complete == (pieces is Complete),
            final(self)@ == if pieces is Pending {
                old(self)@
            } else {
                without_source(old(self)@, address)
            },
    {
        match pieces {
            HelloPieces::Pending => false,
            HelloPieces::Complete => {
                self.forget(address);
                true
            },
            HelloPieces::Malformed => {
                self.forget(address);
                false
            },
        }
    }
}

/// How many handshakes a worker runs at once: a few for each core.
pub fn max_concurrent_udp_handshakes(cores: usize) -> (limit: usize)
    ensures
        limit == if cores > usize::MAX / 4 {
            usize::MAX as int
        } else if cores * 4 < 64 {
            64
        } else {
            cores * 4
        },
{
    if cores > usize::MAX / 4 {
        return usize::MAX;
    }
    let wanted: usize = cores * 4;
    if wanted < 64 {
        64
    } else {
        wanted
    }
}

/// Permits for handshake cryptography. A source that gets none is dropped, not queued.
#[derive(Debug, Clone, Copy, PartialEq, Eq, Structural)]
pub struct HandshakeGate {
    pub limit: usize,
    pub running: usize,
}

impl HandshakeGate {
    pub open spec fn valid(&self) -> bool {
        self.running <= self.limit
    }

    pub fn new(limit: usize) -> (gate: HandshakeGate)
        ensures
            gate.valid(),
            gate == (HandshakeGate { limit, running: 0 }),
    {
        HandshakeGate { limit, running: 0 }
    }

    pub fn try_acquire(&mut self) -> (acquired: bool)
        requires
            old(self).valid(),
        ensures
            final(self).valid(),
            acquired == (old(self).running < old(self).limit),
            *final(self) == (HandshakeGate {
                limit: old(self).limit,
                running: if acquired {
                    (old(self).running + 1) as usize
                } else {
                    old(self).running
                },
            }),
    {
        if self.running < self.limit {
            self.running = self.running + 1;
            true
        } else {
            false
        }
    }

    pub fn release(&mut self)
        requires
            old(self).valid(),
            old(self).running > 0,
        ensures
            final(self).valid(),
            *final(self) == (HandshakeGate {
                limit: old(self).limit,
                running: (old(self).running - 1) as usize,
            }),
    {
        self.running = self.running - 1;
    }
}

/// The addresses of peers that have not authenticated.
pub open spec fn half_open_set(directory: DirectoryView) -> Set<CarrierAddress> {
    Set::new(|address: CarrierAddress| is_half_open(directory, address))
}

/// Puts a half-open session in place. Where there are too many, a random one of them gives way:
/// under a flood that hits an honest client less often than taking the oldest would. Sessions
/// that authenticated are never touched.
pub fn insert_half_open(
    directory: &mut UdpSessionDirectory,
    address: CarrierAddress,
    client: UdpClient,
) -> (evicted: Option<CarrierAddress>)
    requires
        old(directory).valid(),
    ensures
        final(directory).valid(),
        half_open_set(old(directory)@).finite(),
        evicted is Some <==> half_open_set(old(directory)@).len() >= MAX_PENDING_HANDSHAKES,
        match evicted {
            Some(victim) => is_half_open(old(directory)@, victim) && final(directory)@ == inserted(
                removed(old(directory)@, victim),
                address,
                client,
            ),
            None => final(directory)@ == inserted(old(directory)@, address, client),
        },
        old(directory)@.consistent() ==> final(directory)@.consistent(),
{
    let waiting = directory.half_open();
    proof {
        waiting@.unique_seq_to_set();
        assert(waiting@.to_set() =~= half_open_set(directory@));
        vstd::seq_lib::seq_to_set_is_finite(waiting@);
    }
    let mut evicted: Option<CarrierAddress> = None;
    if waiting.len() >= MAX_PENDING_HANDSHAKES {
        if let Some(index) = draw_index(waiting.len()) {
            let victim = waiting[index];
            assert(waiting@.contains(victim));
            directory.remove(victim);
            evicted = Some(victim);
        }
    }
    directory.insert(address, client);
    evicted
}

/// However many sources ask, the half-open sessions stay within their bound, and every session
/// that authenticated stays, unless the new one is at its own address.
pub proof fn law_half_open_sessions_are_bounded(
    directory: DirectoryView,
    address: CarrierAddress,
    client: UdpClient,
    evicted: Option<CarrierAddress>,
    other: CarrierAddress,
)
    requires
        half_open_set(directory).finite(),
        half_open_set(directory).len() <= MAX_PENDING_HANDSHAKES,
        evicted is Some <==> half_open_set(directory).len() >= MAX_PENDING_HANDSHAKES,
        evicted matches Some(victim) ==> is_half_open(directory, victim),
        other != address,
    ensures
        ({
            let after = match evicted {
                Some(victim) => inserted(removed(directory, victim), address, client),
                None => inserted(directory, address, client),
            };
            &&& half_open_set(after).finite()
            &&& half_open_set(after).len() <= MAX_PENDING_HANDSHAKES
            &&& directory.clients.contains_key(other) && directory.clients[other].state
                is Authenticated ==> after.clients.contains_key(other) && after.clients[other]
                == directory.clients[other]
        }),
{
    let after = match evicted {
        Some(victim) => inserted(removed(directory, victim), address, client),
        None => inserted(directory, address, client),
    };
    let before = half_open_set(directory);
    let room = match evicted {
        Some(victim) => before.remove(victim),
        None => before,
    };
    let bound = room.insert(address);
    assert(half_open_set(after).subset_of(bound));
    vstd::set_lib::lemma_len_subset(half_open_set(after), bound);
    if evicted is Some {
        assert(before.contains(evicted->Some_0));
    }
}

/// Forgetting a source takes it off the list and nothing else; the others keep their order.
pub proof fn law_sources_are_forgotten_exactly(
    list: Seq<PartialHello>,
    next: PartialHello,
    address: CarrierAddress,
    other: CarrierAddress,
)
    ensures
        without_source(Seq::empty(), address).len() == 0,
        next.address != address ==> without_source(list.push(next), address) == without_source(
            list,
            address,
        ).push(next),
        next.address == address ==> without_source(list.push(next), address) == without_source(
            list,
            address,
        ),
        !listed(without_source(list, address), address),
        other != address ==> listed(without_source(list, address), other) == listed(list, other),
    decreases list.len(),
{
    assert(list.push(next).drop_last() =~= list);
    if list.len() > 0 {
        let front = list.drop_last();
        law_sources_are_forgotten_exactly(front, next, address, other);
        let before = without_source(front, address);
        let after = without_source(list, address);
        assert(list[list.len() - 1] == list.last());
        if listed(after, address) {
            let i = choose|i: int| 0 <= i < after.len() && (#[trigger] after[i]).address == address;
            if i < before.len() {
                assert(before[i] == after[i]);
            }
        }
        if other != address {
            if listed(after, other) {
                let i = choose|i: int| 0 <= i < after.len() && (#[trigger] after[i]).address
                    == other;
                if i < before.len() {
                    assert(before[i].address == other);
                    let j = choose|j: int|
                        0 <= j < front.len() && (#[trigger] front[j]).address == other;
                    assert(list[j].address == other);
                }
            }
            if listed(list, other) {
                let i = choose|i: int| 0 <= i < list.len() && (#[trigger] list[i]).address == other;
                if i < front.len() {
                    assert(front[i].address == other);
                    let j = choose|j: int|
                        0 <= j < before.len() && (#[trigger] before[j]).address == other;
                    assert(after[j].address == other);
                } else {
                    assert(after[before.len() as int].address == other);
                }
            }
        }
    }
}

/// A hello that was never completed is dropped once it has waited for the timeout, and not before;
/// the others keep their order.
pub proof fn law_old_hellos_are_dropped(
    list: Seq<PartialHello>,
    next: PartialHello,
    now: u64,
    timeout: u64,
)
    ensures
        without_old(Seq::empty(), now, timeout).len() == 0,
        now < next.since + timeout ==> without_old(list.push(next), now, timeout) == without_old(
            list,
            now,
            timeout,
        ).push(next),
        now >= next.since + timeout ==> without_old(list.push(next), now, timeout) == without_old(
            list,
            now,
            timeout,
        ),
        MAX_PENDING_HANDSHAKES == 1024,
{
    assert(list.push(next).drop_last() =~= list);
}

/// The half-open set is the peers that are known and have no session.
pub proof fn law_half_open_set(directory: DirectoryView, address: CarrierAddress)
    ensures
        half_open_set(directory).contains(address) <==> directory.clients.contains_key(address)
            && directory.clients[address].session_id() is None,
{
}

/// A source that is being heard stays as it is; a new one is noted with its time. Only where 1024
/// are noted does one give way, and then the one that came first.
pub proof fn law_sources_are_noted(
    address: CarrierAddress,
    now: u64,
    evicted: Option<CarrierAddress>,
)
    ensures
        forall|hellos: &mut PartialHellos| #[trigger]
            call_ensures(PartialHellos::note, (hellos, address, now), evicted) && hellos.valid()
                ==> {
                let before = hellos@;
                let after = final(hellos)@;
                let known = exists|i: int|
                    0 <= i < before.len() && (#[trigger] before[i]).address == address;
                let entry = (PartialHello { address, since: now });
                &&& known ==> evicted is None && after == before
                &&& !known && before.len() < 1024 ==> evicted is None && after == before.push(entry)
                &&& !known && before.len() >= 1024 ==> evicted is Some && after.last() == entry
                &&& evicted matches Some(oldest) ==> !known && before.len() >= 1024 && exists|
                    i: int,
                |
                    0 <= i < before.len() && (#[trigger] before[i]).address == oldest && forall|
                        j: int,
                    |
                        0 <= j < before.len() ==> before[i].since <= (#[trigger] before[j]).since
            },
{
}

/// A hello that is complete or broken is put together no longer; one that misses a piece goes on.
pub proof fn law_pieces_end_a_hello(address: CarrierAddress, pieces: HelloPieces, complete: bool)
    ensures
        forall|hellos: &mut PartialHellos| #[trigger]
            call_ensures(PartialHellos::take_piece, (hellos, address, pieces), complete)
                && hellos.valid() ==> {
                &&& complete <==> pieces is Complete
                &&& pieces is Pending ==> final(hellos)@ == hellos@
                &&& !(pieces is Pending) ==> final(hellos)@ == without_source(hellos@, address)
            },
{
}

/// Four handshakes for each core run at once, 64 at least.
pub proof fn law_handshakes_run_by_the_core(cores: usize, limit: usize)
    requires
        call_ensures(max_concurrent_udp_handshakes, (cores,), limit),
    ensures
        cores <= 16 ==> limit == 64,
        16 <= cores <= usize::MAX / 4 ==> limit == 4 * cores,
        limit >= 64,
{
}

/// Handshakes are let in up to a limit, and each that ends makes room for one more.
pub proof fn law_handshakes_are_counted(limit: usize, fresh: HandshakeGate, acquired: bool)
    requires
        call_ensures(HandshakeGate::new, (limit,), fresh),
    ensures
        fresh.running == 0 && fresh.limit == limit,
        forall|held: &mut HandshakeGate| #[trigger]
            call_ensures(HandshakeGate::try_acquire, (held,), acquired) && held.valid() ==> {
                &&& acquired <==> held.running < held.limit
                &&& acquired ==> final(held).running == held.running + 1
                &&& !acquired ==> final(held).running == held.running
                &&& final(held).limit == held.limit
            },
        forall|held: &mut HandshakeGate| #[trigger]
            call_ensures(HandshakeGate::release, (held,), ()) && held.valid() && held.running > 0
                ==> final(held).running + 1 == held.running && final(held).limit == held.limit,
{
}

/// A new peer always finds a place; only where 1024 are half open does one of those give way, and
/// never an authenticated one.
pub proof fn law_new_peers_find_a_place(
    address: CarrierAddress,
    client: UdpClient,
    evicted: Option<CarrierAddress>,
)
    ensures
        forall|directory: &mut UdpSessionDirectory| #[trigger]
            call_ensures(insert_half_open, (directory, address, client), evicted)
                && directory.valid() ==> {
                let before = directory@;
                let after = final(directory)@;
                &&& after.clients.contains_key(address) && after.clients[address] == client
                &&& evicted is Some <==> half_open_set(before).len() >= 1024
                &&& evicted is None ==> after.clients == before.clients.insert(address, client)
                &&& evicted matches Some(victim) ==> is_half_open(before, victim)
            },
{
}

} // verus!
