//! The sessions of one UDP worker, by source address and, once they roam, by session.
//!
//! Both tables change together: removing or replacing an entry is one step, and a late clean-up
//! cannot erase the owner of a newer session generation.

use crate::carrier::CarrierAddress;
use crate::udp_client::{is_expired, RoamingRegistration, UdpClient, UdpSessionState};
use std::collections::HashMap;
use vstd::prelude::*;

verus! {

broadcast use vstd::std_specs::hash::group_hash_axioms;

/// Where a roaming session is reached.
#[derive(Debug, Clone, Copy, PartialEq, Eq, Structural)]
pub struct UdpRoamingOwner {
    pub address: CarrierAddress,
    pub session_generation: u64,
}

/// What a connection id resolved to.
#[derive(Debug, Clone, Copy, PartialEq, Eq, Structural)]
pub struct CidLookup {
    pub session_id: u64,
    pub session_generation: u64,
    pub path_epoch: u64,
    pub owner_worker_id: u32,
}

pub struct UdpRoamingOwnerIndex {
    by_session_id: HashMap<u64, UdpRoamingOwner>,
}

/// The address that a lookup leads to: only the generation that the lookup names counts.
pub open spec fn owner_of(owners: Map<u64, UdpRoamingOwner>, lookup: CidLookup) -> Option<
    CarrierAddress,
> {
    if owners.contains_key(lookup.session_id) && owners[lookup.session_id].session_generation
        == lookup.session_generation {
        Some(owners[lookup.session_id].address)
    } else {
        None
    }
}

/// The index without an entry, if the entry is still the one that is meant.
pub open spec fn without_owner(
    owners: Map<u64, UdpRoamingOwner>,
    session_id: u64,
    session_generation: u64,
    address: CarrierAddress,
) -> Map<u64, UdpRoamingOwner> {
    if owners.contains_key(session_id) && owners[session_id] == (UdpRoamingOwner {
        address,
        session_generation,
    }) {
        owners.remove(session_id)
    } else {
        owners
    }
}

impl View for UdpRoamingOwnerIndex {
    type V = Map<u64, UdpRoamingOwner>;

    closed spec fn view(&self) -> Map<u64, UdpRoamingOwner> {
        self.by_session_id@
    }
}

impl UdpRoamingOwnerIndex {
    pub fn new() -> (index: UdpRoamingOwnerIndex)
        ensures
            index@ == Map::<u64, UdpRoamingOwner>::empty(),
    {
        UdpRoamingOwnerIndex { by_session_id: HashMap::new() }
    }

    pub fn publish(&mut self, session_id: u64, session_generation: u64, address: CarrierAddress)
        ensures
            final(self)@ == old(self)@.insert(
                session_id,
                UdpRoamingOwner { address, session_generation },
            ),
    {
        self.by_session_id.insert(session_id, UdpRoamingOwner { address, session_generation });
    }

    pub fn resolve(&self, lookup: CidLookup) -> (address: Option<CarrierAddress>)
        ensures
            address == owner_of(self@, lookup),
    {
        match self.by_session_id.get(&lookup.session_id) {
            Some(owner) => {
                if owner.session_generation == lookup.session_generation {
                    Some(owner.address)
                } else {
                    None
                }
            },
            None => None,
        }
    }

    /// The owner of a session, whatever its generation.
    pub fn owner(&self, session_id: u64) -> (owner: Option<UdpRoamingOwner>)
        ensures
            owner == if self@.contains_key(session_id) {
                Some(self@[session_id])
            } else {
                None
            },
    {
        match self.by_session_id.get(&session_id) {
            Some(owner) => Some(*owner),
            None => None,
        }
    }

    pub fn remove_if_matches(
        &mut self,
        session_id: u64,
        session_generation: u64,
        address: CarrierAddress,
    )
        ensures
            final(self)@ == without_owner(old(self)@, session_id, session_generation, address),
    {
        let matches_entry = match self.by_session_id.get(&session_id) {
            Some(owner) => owner.address == address && owner.session_generation
                == session_generation,
            None => false,
        };
        if matches_entry {
            self.by_session_id.remove(&session_id);
        }
    }
}

/// Clean-up for an old generation leaves the owner of a newer one in place.
pub proof fn law_stale_cleanup_keeps_the_newer_owner(
    owners: Map<u64, UdpRoamingOwner>,
    lookup: CidLookup,
    stale_generation: u64,
    address: CarrierAddress,
)
    requires
        stale_generation != lookup.session_generation,
    ensures
        owner_of(
            without_owner(owners, lookup.session_id, stale_generation, address),
            lookup,
        ) == owner_of(owners, lookup),
{
}

pub struct UdpEntry {
    pub address: CarrierAddress,
    pub client: UdpClient,
}

/// The sessions of a list of entries.
pub open spec fn clients_of(entries: Seq<UdpEntry>) -> Map<CarrierAddress, UdpClient>
    decreases entries.len(),
{
    if entries.len() == 0 {
        Map::empty()
    } else {
        clients_of(entries.drop_last()).insert(entries.last().address, entries.last().client)
    }
}

/// Each address has one entry.
pub open spec fn distinct_addresses(entries: Seq<UdpEntry>) -> bool {
    forall|i: int, j: int|
        0 <= i < entries.len() && 0 <= j < entries.len() && i != j ==> (
        #[trigger] entries[i]).address != (#[trigger] entries[j]).address
}

proof fn lemma_clients(entries: Seq<UdpEntry>)
    requires
        distinct_addresses(entries),
    ensures
        forall|i: int|
            0 <= i < entries.len() ==> clients_of(entries).contains_key(
                (#[trigger] entries[i]).address,
            ) && clients_of(entries)[entries[i].address] == entries[i].client,
        forall|address: CarrierAddress| #[trigger]
            clients_of(entries).contains_key(address) ==> exists|i: int|
                0 <= i < entries.len() && (#[trigger] entries[i]).address == address,
    decreases entries.len(),
{
    if entries.len() > 0 {
        let front = entries.drop_last();
        lemma_clients(front);
        assert forall|i: int| 0 <= i < entries.len() implies clients_of(entries).contains_key(
            (#[trigger] entries[i]).address,
        ) && clients_of(entries)[entries[i].address] == entries[i].client by {
            if i < front.len() {
                assert(front[i] == entries[i]);
                assert(entries[i].address != entries[entries.len() - 1].address);
            }
        }
        assert forall|address: CarrierAddress| #[trigger]
            clients_of(entries).contains_key(address) implies exists|i: int|
            0 <= i < entries.len() && (#[trigger] entries[i]).address == address by {
            if address == entries.last().address {
                assert(entries[entries.len() - 1].address == address);
            } else {
                let i = choose|i: int|
                    0 <= i < front.len() && (#[trigger] front[i]).address == address;
                assert(entries[i].address == address);
            }
        }
    }
}

/// Two lists with the same entries, in whatever order, hold the same sessions.
proof fn lemma_clients_removed(entries: Seq<UdpEntry>, at: int)
    requires
        distinct_addresses(entries),
        0 <= at < entries.len(),
    ensures
        distinct_addresses(entries.remove(at)),
        clients_of(entries.remove(at)) == clients_of(entries).remove(entries[at].address),
{
    let rest = entries.remove(at);
    assert forall|i: int, j: int|
        0 <= i < rest.len() && 0 <= j < rest.len() && i != j implies (#[trigger] rest[i]).address
        != (#[trigger] rest[j]).address by {
        let i2 = if i < at {
            i
        } else {
            i + 1
        };
        let j2 = if j < at {
            j
        } else {
            j + 1
        };
        assert(rest[i] == entries[i2] && rest[j] == entries[j2]);
    }
    lemma_clients(entries);
    lemma_clients(rest);
    let left = clients_of(rest);
    let right = clients_of(entries).remove(entries[at].address);
    assert forall|address: CarrierAddress|
        #![trigger left.dom().contains(address)]
        #![trigger right.dom().contains(address)]
        left.dom().contains(address) == right.dom().contains(address) && (left.dom().contains(
            address,
        ) ==> left[address] == right[address]) by {
        if left.contains_key(address) {
            let i = choose|i: int| 0 <= i < rest.len() && (#[trigger] rest[i]).address == address;
            let i2 = if i < at {
                i
            } else {
                i + 1
            };
            assert(rest[i] == entries[i2]);
            assert(entries[i2].address != entries[at].address);
        }
        if right.contains_key(address) {
            let i2 = choose|i: int|
                0 <= i < entries.len() && (#[trigger] entries[i]).address == address;
            let i = if i2 < at {
                i2
            } else {
                i2 - 1
            };
            assert(rest[i] == entries[i2]);
        }
    }
    assert(left.dom() =~= right.dom());
    assert(left =~= right);
}

proof fn lemma_clients_updated(entries: Seq<UdpEntry>, at: int, client: UdpClient)
    requires
        distinct_addresses(entries),
        0 <= at < entries.len(),
    ensures
        ({
            let after = entries.update(at, UdpEntry { address: entries[at].address, client });
            &&& distinct_addresses(after)
            &&& clients_of(after) == clients_of(entries).insert(entries[at].address, client)
        }),
{
    let after = entries.update(at, UdpEntry { address: entries[at].address, client });
    assert forall|i: int, j: int|
        0 <= i < after.len() && 0 <= j < after.len() && i != j implies (#[trigger] after[i]).address
        != (#[trigger] after[j]).address by {
        assert(after[i].address == entries[i].address && after[j].address == entries[j].address);
        assert(entries[i].address != entries[j].address);
    }
    lemma_clients(entries);
    lemma_clients(after);
    let left = clients_of(after);
    let right = clients_of(entries).insert(entries[at].address, client);
    assert forall|address: CarrierAddress|
        #![trigger left.dom().contains(address)]
        #![trigger right.dom().contains(address)]
        left.dom().contains(address) == right.dom().contains(address) && (left.dom().contains(
            address,
        ) ==> left[address] == right[address]) by {
        if left.contains_key(address) {
            let i = choose|i: int| 0 <= i < after.len() && (#[trigger] after[i]).address == address;
            assert(entries[i].address == address);
            assert(i != at ==> after[i] == entries[i]);
            assert(i != at ==> entries[i].address != entries[at].address);
        }
        if right.contains_key(address) {
            if address == entries[at].address {
                assert(after[at].address == address);
            } else {
                let i = choose|i: int|
                    0 <= i < entries.len() && (#[trigger] entries[i]).address == address;
                assert(after[i] == entries[i]);
            }
        }
    }
    assert(left.dom() =~= right.dom());
    assert(left =~= right);
}

pub struct UdpSessionDirectory {
    entries: Vec<UdpEntry>,
    owners: UdpRoamingOwnerIndex,
}

#[verifier::ext_equal]
pub struct DirectoryView {
    pub clients: Map<CarrierAddress, UdpClient>,
    pub owners: Map<u64, UdpRoamingOwner>,
}

impl View for UdpSessionDirectory {
    type V = DirectoryView;

    closed spec fn view(&self) -> DirectoryView {
        DirectoryView { clients: clients_of(self.entries@), owners: self.owners@ }
    }
}

impl DirectoryView {
    /// Every owner in the index is the session at its address, in its generation.
    pub open spec fn consistent(self) -> bool {
        forall|session_id: u64| #[trigger]
            self.owners.contains_key(session_id) ==> {
                let owner = self.owners[session_id];
                &&& self.clients.contains_key(owner.address)
                &&& self.clients[owner.address].identity() == Some(
                    RoamingRegistration {
                        session_id,
                        session_generation: owner.session_generation,
                    },
                )
            }
    }
}

/// The directory without an address. Its owner entry goes with it.
pub open spec fn removed(directory: DirectoryView, address: CarrierAddress) -> DirectoryView {
    if directory.clients.contains_key(address) {
        DirectoryView {
            clients: directory.clients.remove(address),
            owners: match directory.clients[address].identity() {
                Some(identity) => without_owner(
                    directory.owners,
                    identity.session_id,
                    identity.session_generation,
                    address,
                ),
                None => directory.owners,
            },
        }
    } else {
        directory
    }
}

/// Whether the entry of a session goes when its address does.
pub open spec fn owner_leaves(
    directory: DirectoryView,
    addresses: Set<CarrierAddress>,
    session_id: u64,
) -> bool {
    let owner = directory.owners[session_id];
    addresses.contains(owner.address) && directory.clients.contains_key(owner.address)
        && directory.clients[owner.address].identity() == Some(
        RoamingRegistration { session_id, session_generation: owner.session_generation },
    )
}

/// The directory without some addresses. Their owner entries go with them; everything else stays.
pub open spec fn without_all(
    directory: DirectoryView,
    addresses: Set<CarrierAddress>,
) -> DirectoryView {
    DirectoryView {
        clients: Map::new(
            |address: CarrierAddress|
                directory.clients.contains_key(address) && !addresses.contains(address),
            |address: CarrierAddress| directory.clients[address],
        ),
        owners: Map::new(
            |session_id: u64|
                directory.owners.contains_key(session_id) && !owner_leaves(
                    directory,
                    addresses,
                    session_id,
                ),
            |session_id: u64| directory.owners[session_id],
        ),
    }
}

/// Taking out one address more.
pub(crate) proof fn lemma_without_one_more(
    directory: DirectoryView,
    addresses: Set<CarrierAddress>,
    address: CarrierAddress,
)
    requires
        directory.clients.contains_key(address),
        !addresses.contains(address),
    ensures
        removed(without_all(directory, addresses), address) == without_all(
            directory,
            addresses.insert(address),
        ),
{
    let taken = removed(without_all(directory, addresses), address);
    let wanted = without_all(directory, addresses.insert(address));
    assert(taken.clients =~= wanted.clients);
    assert(taken.owners =~= wanted.owners);
}

pub(crate) proof fn lemma_without_none(directory: DirectoryView)
    ensures
        without_all(directory, Set::empty()) == directory,
{
    let same = without_all(directory, Set::empty());
    assert(same.clients =~= directory.clients);
    assert(same.owners =~= directory.owners);
}

/// The directory with a session at an address, in place of whatever was there.
pub open spec fn inserted(
    directory: DirectoryView,
    address: CarrierAddress,
    client: UdpClient,
) -> DirectoryView {
    let cleared = removed(directory, address);
    DirectoryView { clients: cleared.clients.insert(address, client), ..cleared }
}

/// Where a session is reached: at the address that it roamed to, else at the fallback, and only
/// where that session is found there.
pub open spec fn session_address(
    directory: DirectoryView,
    session_id: u64,
    fallback: CarrierAddress,
) -> Option<CarrierAddress> {
    let clients = directory.clients;
    if directory.owners.contains_key(session_id) && clients.contains_key(
        directory.owners[session_id].address,
    ) && clients[directory.owners[session_id].address].session_id() == Some(session_id) {
        Some(directory.owners[session_id].address)
    } else if clients.contains_key(fallback) && clients[fallback].session_id() == Some(session_id) {
        Some(fallback)
    } else {
        None
    }
}

/// Whether the peer at an address has not authenticated.
pub open spec fn is_half_open(directory: DirectoryView, address: CarrierAddress) -> bool {
    directory.clients.contains_key(address) && directory.clients[address].state is AwaitingAuth
}

/// Where a lookup leads: the owner index and the session at its address have to agree with it.
pub open spec fn resolved(directory: DirectoryView, lookup: CidLookup) -> Option<CarrierAddress> {
    match owner_of(directory.owners, lookup) {
        Some(address) => if directory.clients.contains_key(address)
            && directory.clients[address].registration == Some(
            RoamingRegistration {
                session_id: lookup.session_id,
                session_generation: lookup.session_generation,
            },
        ) {
            Some(address)
        } else {
            None
        },
        None => None,
    }
}

/// Removing a session, putting one in place of another and publishing an owner keep both tables
/// in step.
pub proof fn law_directory_stays_consistent(
    directory: DirectoryView,
    address: CarrierAddress,
    client: UdpClient,
)
    requires
        directory.consistent(),
    ensures
        removed(directory, address).consistent(),
        inserted(directory, address, client).consistent(),
        directory.clients.contains_key(address) && directory.clients[address].identity() is Some
            ==> ({
            let identity = directory.clients[address].identity()->Some_0;
            DirectoryView {
                owners: directory.owners.insert(
                    identity.session_id,
                    UdpRoamingOwner {
                        address,
                        session_generation: identity.session_generation,
                    },
                ),
                ..directory
            }
        }).consistent(),
{
    let less = removed(directory, address);
    assert(less.consistent()) by {
        assert forall|session_id: u64| #[trigger] less.owners.contains_key(session_id) implies ({
            let owner = less.owners[session_id];
            &&& less.clients.contains_key(owner.address)
            &&& less.clients[owner.address].identity() == Some(
                RoamingRegistration { session_id, session_generation: owner.session_generation },
            )
        }) by {
            assert(directory.owners.contains_key(session_id));
            assert(directory.owners[session_id] == less.owners[session_id]);
        }
    }
    let more = inserted(directory, address, client);
    assert(more.consistent()) by {
        assert forall|session_id: u64| #[trigger] more.owners.contains_key(session_id) implies ({
            let owner = more.owners[session_id];
            &&& more.clients.contains_key(owner.address)
            &&& more.clients[owner.address].identity() == Some(
                RoamingRegistration { session_id, session_generation: owner.session_generation },
            )
        }) by {
            assert(less.owners.contains_key(session_id));
        }
    }
}

impl UdpSessionDirectory {
    /// Each address has one entry.
    pub closed spec fn valid(&self) -> bool {
        distinct_addresses(self.entries@)
    }

    pub fn new() -> (directory: UdpSessionDirectory)
        ensures
            directory.valid(),
            directory@.clients == Map::<CarrierAddress, UdpClient>::empty(),
            directory@.owners == Map::<u64, UdpRoamingOwner>::empty(),
            directory@.consistent(),
    {
        UdpSessionDirectory { entries: Vec::new(), owners: UdpRoamingOwnerIndex::new() }
    }

    fn position(&self, address: CarrierAddress) -> (at: Option<usize>)
        requires
            self.valid(),
        ensures
            match at {
                Some(at) => at < self.entries@.len() && self.entries@[at as int].address == address
                    && self@.clients.contains_key(address) && self@.clients[address]
                    == self.entries@[at as int].client,
                None => !self@.clients.contains_key(address),
            },
    {
        proof {
            lemma_clients(self.entries@);
        }
        let mut i: usize = 0;
        while i < self.entries.len()
            invariant
                i <= self.entries@.len(),
                forall|j: int| 0 <= j < i ==> (#[trigger] self.entries@[j]).address != address,
                forall|k: int|
                    0 <= k < self.entries@.len() ==> clients_of(self.entries@).contains_key(
                        (#[trigger] self.entries@[k]).address,
                    ) && clients_of(self.entries@)[self.entries@[k].address]
                        == self.entries@[k].client,
                forall|other: CarrierAddress| #[trigger]
                    clients_of(self.entries@).contains_key(other) ==> exists|k: int|
                        0 <= k < self.entries@.len() && (#[trigger] self.entries@[k]).address
                            == other,
            decreases self.entries@.len() - i,
        {
            if self.entries[i].address == address {
                assert(self.entries@[i as int].address == address);
                return Some(i);
            }
            i += 1;
        }
        None
    }

    pub fn len(&self) -> (len: usize)
        requires
            self.valid(),
        ensures
            len == self@.clients.dom().len(),
            self@.clients.dom().finite(),
    {
        proof {
            lemma_clients_len(self.entries@);
        }
        self.entries.len()
    }

    /// The addresses of the entries that are marked.
    fn select(&self, marked: &Vec<bool>) -> (addresses: Vec<CarrierAddress>)
        requires
            self.valid(),
            marked@.len() == self.entries@.len(),
        ensures
            addresses@.no_duplicates(),
            forall|address: CarrierAddress| #[trigger]
                addresses@.contains(address) <==> exists|j: int|
                    0 <= j < self.entries@.len() && (#[trigger] self.entries@[j]).address == address
                        && marked@[j],
    {
        let mut addresses: Vec<CarrierAddress> = Vec::new();
        let mut i: usize = 0;
        while i < self.entries.len()
            invariant
                i <= self.entries@.len(),
                self.valid(),
                marked@.len() == self.entries@.len(),
                addresses@.no_duplicates(),
                forall|address: CarrierAddress| #[trigger]
                    addresses@.contains(address) <==> exists|j: int|
                        0 <= j < i && (#[trigger] self.entries@[j]).address == address
                            && marked@[j],
            decreases self.entries@.len() - i,
        {
            let ghost before = addresses@;
            let ghost new = self.entries@[i as int].address;
            if marked[i] {
                addresses.push(self.entries[i].address);
            }
            proof {
                if marked@[i as int] {
                    assert(!before.contains(new)) by {
                        if before.contains(new) {
                            let j = choose|j: int|
                                0 <= j < i && (#[trigger] self.entries@[j]).address == new
                                    && marked@[j];
                            assert(self.entries@[j].address != self.entries@[i as int].address);
                        }
                    }
                    assert forall|k: int, l: int|
                        0 <= k < addresses@.len() && 0 <= l < addresses@.len() && k
                            != l implies addresses@[k] != addresses@[l] by {
                        if k == before.len() {
                            assert(before.contains(before[l]));
                        }
                        if l == before.len() {
                            assert(before.contains(before[k]));
                        }
                    }
                }
                assert forall|address: CarrierAddress| #[trigger]
                    addresses@.contains(address) <==> exists|j: int|
                        0 <= j < i + 1 && (#[trigger] self.entries@[j]).address == address
                            && marked@[j] by {
                    if addresses@.contains(address) {
                        let k = choose|k: int|
                            0 <= k < addresses@.len() && addresses@[k] == address;
                        if k < before.len() {
                            assert(before[k] == address);
                            assert(before.contains(address));
                            let j = choose|j: int|
                                0 <= j < i && (#[trigger] self.entries@[j]).address == address
                                    && marked@[j];
                            assert(self.entries@[j].address == address);
                        } else {
                            assert(self.entries@[i as int].address == address);
                        }
                    }
                    if exists|j: int|
                        0 <= j < i + 1 && (#[trigger] self.entries@[j]).address == address
                            && marked@[j] {
                        let j = choose|j: int|
                            0 <= j < i + 1 && (#[trigger] self.entries@[j]).address == address
                                && marked@[j];
                        if j < i {
                            assert(before.contains(address));
                            let k = choose|k: int| 0 <= k < before.len() && before[k] == address;
                            assert(addresses@[k] == address);
                        } else {
                            assert(addresses@[before.len() as int] == address);
                        }
                    }
                }
            }
            i += 1;
        }
        addresses
    }

    /// The addresses of peers that have not authenticated.
    pub fn half_open(&self) -> (addresses: Vec<CarrierAddress>)
        requires
            self.valid(),
        ensures
            addresses@.no_duplicates(),
            forall|address: CarrierAddress| #[trigger]
                addresses@.contains(address) <==> is_half_open(self@, address),
    {
        let mut marked: Vec<bool> = Vec::new();
        let mut i: usize = 0;
        while i < self.entries.len()
            invariant
                i <= self.entries@.len(),
                marked@.len() == i,
                forall|j: int|
                    0 <= j < i ==> marked@[j] == ((#[trigger] self.entries@[j]).client.state
                        is AwaitingAuth),
            decreases self.entries@.len() - i,
        {
            marked.push(
                match &self.entries[i].client.state {
                    UdpSessionState::AwaitingAuth => true,
                    UdpSessionState::Authenticated(_) => false,
                },
            );
            i += 1;
        }
        proof {
            lemma_clients(self.entries@);
        }
        self.select(&marked)
    }

    /// The addresses of sessions that are over.
    pub fn expired(&self, now: u64, handshake_timeout: u64, reap_after: Option<u64>) -> (addresses:
        Vec<CarrierAddress>)
        requires
            self.valid(),
        ensures
            addresses@.no_duplicates(),
            forall|address: CarrierAddress| #[trigger]
                addresses@.contains(address) <==> self@.clients.contains_key(address)
                    && is_expired(self@.clients[address], now, handshake_timeout, reap_after),
    {
        let mut marked: Vec<bool> = Vec::new();
        let mut i: usize = 0;
        while i < self.entries.len()
            invariant
                i <= self.entries@.len(),
                marked@.len() == i,
                forall|j: int|
                    0 <= j < i ==> marked@[j] == is_expired(
                        (#[trigger] self.entries@[j]).client,
                        now,
                        handshake_timeout,
                        reap_after,
                    ),
            decreases self.entries@.len() - i,
        {
            marked.push(self.entries[i].client.expired(now, handshake_timeout, reap_after));
            i += 1;
        }
        proof {
            lemma_clients(self.entries@);
        }
        self.select(&marked)
    }

    pub fn contains(&self, address: CarrierAddress) -> (known: bool)
        requires
            self.valid(),
        ensures
            known == self@.clients.contains_key(address),
    {
        self.position(address).is_some()
    }

    pub fn get(&self, address: CarrierAddress) -> (client: Option<&UdpClient>)
        requires
            self.valid(),
        ensures
            match client {
                Some(client) => self@.clients.contains_key(address) && *client
                    == self@.clients[address],
                None => !self@.clients.contains_key(address),
            },
    {
        match self.position(address) {
            Some(at) => Some(&self.entries[at].client),
            None => None,
        }
    }

    /// The session at an address, to be changed in place.
    pub fn get_mut(&mut self, address: CarrierAddress) -> (client: Option<&mut UdpClient>)
        requires
            old(self).valid(),
        ensures
            final(self).valid(),
            match client {
                Some(client) => old(self)@.clients.contains_key(address) && *client == old(
                    self,
                )@.clients[address] && final(self)@ == (DirectoryView {
                    clients: old(self)@.clients.insert(address, *final(client)),
                    ..old(self)@
                }),
                None => !old(self)@.clients.contains_key(address) && final(self)@ == old(self)@,
            },
    {
        match self.position(address) {
            Some(at) => {
                proof {
                    assert forall|client: UdpClient|
                        distinct_addresses(
                            #[trigger] self.entries@.update(
                                at as int,
                                UdpEntry { address, client },
                            ),
                        ) && clients_of(
                            self.entries@.update(at as int, UdpEntry { address, client }),
                        ) == clients_of(self.entries@).insert(address, client) by {
                        lemma_clients_updated(self.entries@, at as int, client);
                    }
                }
                Some(&mut self.entries[at].client)
            },
            None => None,
        }
    }

    /// Puts a session at an address; gives the one that was there.
    pub fn insert(&mut self, address: CarrierAddress, client: UdpClient) -> (replaced: Option<
        UdpClient,
    >)
        requires
            old(self).valid(),
        ensures
            final(self).valid(),
            final(self)@ == inserted(old(self)@, address, client),
            replaced == if old(self)@.clients.contains_key(address) {
                Some(old(self)@.clients[address])
            } else {
                None
            },
            old(self)@.consistent() ==> final(self)@.consistent(),
    {
        proof {
            if self@.consistent() {
                law_directory_stays_consistent(self@, address, client);
            }
        }
        let replaced = self.remove(address);
        let ghost before = self.entries@;
        proof {
            lemma_clients(before);
        }
        let entry = UdpEntry { address, client };
        assert(before.push(entry).drop_last() =~= before);
        self.entries.push(entry);
        assert(distinct_addresses(self.entries@)) by {
            assert forall|i: int, j: int|
                0 <= i < self.entries@.len() && 0 <= j < self.entries@.len() && i != j implies (
            #[trigger] self.entries@[i]).address != (#[trigger] self.entries@[j]).address by {
                if i == before.len() {
                    assert(clients_of(before).contains_key(before[j].address));
                }
                if j == before.len() {
                    assert(clients_of(before).contains_key(before[i].address));
                }
            }
        }
        replaced
    }

    /// Takes the session at an address out.
    pub fn remove(&mut self, address: CarrierAddress) -> (client: Option<UdpClient>)
        requires
            old(self).valid(),
        ensures
            final(self).valid(),
            final(self)@ == removed(old(self)@, address),
            client == if old(self)@.clients.contains_key(address) {
                Some(old(self)@.clients[address])
            } else {
                None
            },
            old(self)@.consistent() ==> final(self)@.consistent(),
    {
        let at: usize = match self.position(address) {
            Some(at) => at,
            None => {
                return None;
            },
        };
        proof {
            lemma_clients_removed(self.entries@, at as int);
            if self@.consistent() {
                law_directory_stays_consistent(self@, address, self@.clients[address]);
            }
        }
        let entry = self.entries.remove(at);
        if let Some(identity) = entry.client.roaming_identity() {
            self.owners.remove_if_matches(
                identity.session_id,
                identity.session_generation,
                address,
            );
        }
        Some(entry.client)
    }

    /// Takes out the entry that owns a session now. Roaming changes the address while the session
    /// keeps its connect-time peer, so the live owner is looked up first, and an unrelated
    /// session at the fallback address is left alone.
    pub fn remove_session_owner(&mut self, session_id: u64, fallback: CarrierAddress) -> (client:
        Option<UdpClient>)
        requires
            old(self).valid(),
        ensures
            final(self).valid(),
            match session_address(old(self)@, session_id, fallback) {
                Some(address) => final(self)@ == removed(old(self)@, address) && client == Some(
                    old(self)@.clients[address],
                ),
                None => final(self)@ == old(self)@ && client is None,
            },
            old(self)@.consistent() ==> final(self)@.consistent(),
    {
        if let Some(owner) = self.owners.owner(session_id) {
            let live = match self.get(owner.address) {
                Some(client) => match client.authenticated_session_id() {
                    Some(live) => live == session_id,
                    None => false,
                },
                None => false,
            };
            if live {
                return self.remove(owner.address);
            }
        }
        let live = match self.get(fallback) {
            Some(client) => match client.authenticated_session_id() {
                Some(live) => live == session_id,
                None => false,
            },
            None => false,
        };
        if live {
            self.remove(fallback)
        } else {
            None
        }
    }

    /// Makes the session at an address the owner of its registry entry.
    pub fn publish_roaming_owner(&mut self, address: CarrierAddress) -> (published: bool)
        requires
            old(self).valid(),
        ensures
            final(self).valid(),
            published == (old(self)@.clients.contains_key(address) && old(
                self,
            )@.clients[address].identity() is Some),
            final(self)@ == if published {
                let identity = old(self)@.clients[address].identity()->Some_0;
                DirectoryView {
                    owners: old(self)@.owners.insert(
                        identity.session_id,
                        UdpRoamingOwner {
                            address,
                            session_generation: identity.session_generation,
                        },
                    ),
                    ..old(self)@
                }
            } else {
                old(self)@
            },
            old(self)@.consistent() ==> final(self)@.consistent(),
    {
        let identity = match self.get(address) {
            Some(client) => client.roaming_identity(),
            None => None,
        };
        match identity {
            Some(identity) => {
                proof {
                    if self@.consistent() {
                        law_directory_stays_consistent(self@, address, self@.clients[address]);
                    }
                }
                self.owners.publish(identity.session_id, identity.session_generation, address);
                true
            },
            None => false,
        }
    }

    /// Makes an address the owner of the registry entry that a lookup named.
    pub fn publish_owner(&mut self, lookup: CidLookup, address: CarrierAddress)
        requires
            old(self).valid(),
        ensures
            final(self).valid(),
            final(self)@ == (DirectoryView {
                owners: old(self)@.owners.insert(
                    lookup.session_id,
                    UdpRoamingOwner { address, session_generation: lookup.session_generation },
                ),
                ..old(self)@
            }),
    {
        self.owners.publish(lookup.session_id, lookup.session_generation, address);
    }

    pub fn resolve_roaming_owner(&self, lookup: CidLookup) -> (address: Option<CarrierAddress>)
        requires
            self.valid(),
        ensures
            address == resolved(self@, lookup),
    {
        let address = match self.owners.resolve(lookup) {
            Some(address) => address,
            None => {
                return None;
            },
        };
        match self.get(address) {
            Some(client) => match client.registration {
                Some(registration) => if registration.session_id == lookup.session_id
                    && registration.session_generation == lookup.session_generation {
                    Some(address)
                } else {
                    None
                },
                None => None,
            },
            None => None,
        }
    }
}

proof fn lemma_clients_len(entries: Seq<UdpEntry>)
    requires
        distinct_addresses(entries),
    ensures
        clients_of(entries).dom().finite(),
        clients_of(entries).dom().len() == entries.len(),
    decreases entries.len(),
{
    if entries.len() > 0 {
        let front = entries.drop_last();
        assert(distinct_addresses(front));
        lemma_clients_len(front);
        lemma_clients(front);
        if clients_of(front).contains_key(entries.last().address) {
            let i = choose|i: int|
                0 <= i < front.len() && (#[trigger] front[i]).address == entries.last().address;
            assert(entries[i].address == entries[entries.len() - 1].address);
        }
    }
}

/// A session is found again: once it is put at an address it is there, whatever was there before,
/// and nothing else has moved; once it is taken out its address is free.
pub proof fn law_sessions_are_found_where_they_were_put(
    directory: DirectoryView,
    address: CarrierAddress,
    client: UdpClient,
    other: CarrierAddress,
)
    ensures
        ({
            let after = inserted(directory, address, client);
            &&& after.clients.contains_key(address)
            &&& after.clients[address] == client
            &&& other != address ==> after.clients.contains_key(other)
                == directory.clients.contains_key(other)
            &&& other != address && directory.clients.contains_key(other) ==> after.clients[other]
                == directory.clients[other]
        }),
        ({
            let after = removed(directory, address);
            &&& !after.clients.contains_key(address)
            &&& other != address ==> after.clients.contains_key(other)
                == directory.clients.contains_key(other)
            &&& other != address && directory.clients.contains_key(other) ==> after.clients[other]
                == directory.clients[other]
        }),
        !directory.clients.contains_key(address) ==> removed(directory, address) == directory,
{
}

/// Taking a session out takes its own entry from the index of owners, and no other.
pub proof fn law_removal_takes_its_own_entry(
    directory: DirectoryView,
    address: CarrierAddress,
    session_id: u64,
)
    requires
        directory.consistent(),
        directory.owners.contains_key(session_id),
    ensures
        removed(directory, address).owners.contains_key(session_id) <==> directory.owners[session_id].address
            != address,
        removed(directory, address).owners.contains_key(session_id) ==> removed(
            directory,
            address,
        ).owners[session_id] == directory.owners[session_id],
{
    let owner = directory.owners[session_id];
    assert(directory.clients.contains_key(owner.address));
    assert(directory.clients[owner.address].identity() is Some);
}

/// A connection id leads to its session exactly where the index names an address for that session
/// and generation, and the session at that address is registered as just that.
pub proof fn law_connection_ids_lead_to_their_session(
    directory: DirectoryView,
    lookup: CidLookup,
    address: CarrierAddress,
)
    ensures
        resolved(directory, lookup) == Some(address) <==> directory.owners.contains_key(
            lookup.session_id,
        ) && directory.owners[lookup.session_id].address == address
            && directory.owners[lookup.session_id].session_generation == lookup.session_generation
            && directory.clients.contains_key(address) && directory.clients[address].registration
            is Some && directory.clients[address].registration->Some_0.session_id
            == lookup.session_id
            && directory.clients[address].registration->Some_0.session_generation
            == lookup.session_generation,
        owner_of(directory.owners, lookup) == Some(address) <==> directory.owners.contains_key(
            lookup.session_id,
        ) && directory.owners[lookup.session_id].address == address
            && directory.owners[lookup.session_id].session_generation == lookup.session_generation,
{
}

/// A session is reached at the address that it roamed to, if it is there, and otherwise at the
/// address that is known of it, if it is there; a session that is at neither is not reached.
pub proof fn law_sessions_are_reached(
    directory: DirectoryView,
    session_id: u64,
    fallback: CarrierAddress,
    address: CarrierAddress,
)
    ensures
        session_address(directory, session_id, fallback) == Some(address)
            ==> directory.clients.contains_key(address) && directory.clients[address].session_id()
            == Some(session_id),
        directory.owners.contains_key(session_id) && directory.owners[session_id].address == address
            && directory.clients.contains_key(address) && directory.clients[address].session_id()
            == Some(session_id) ==> session_address(directory, session_id, fallback) == Some(
            address,
        ),
        !directory.owners.contains_key(session_id) && directory.clients.contains_key(fallback)
            && directory.clients[fallback].session_id() == Some(session_id) ==> session_address(
            directory,
            session_id,
            fallback,
        ) == Some(fallback),
{
}

/// The index of owners forgets an entry only where it is still the one that is meant.
pub proof fn law_owner_entries_are_forgotten_exactly(
    owners: Map<u64, UdpRoamingOwner>,
    session_id: u64,
    session_generation: u64,
    address: CarrierAddress,
    other: u64,
)
    ensures
        ({
            let after = without_owner(owners, session_id, session_generation, address);
            let meant = owners.contains_key(session_id) && owners[session_id].address == address
                && owners[session_id].session_generation == session_generation;
            &&& meant ==> !after.contains_key(session_id)
            &&& !meant ==> after == owners
            &&& other != session_id ==> after.contains_key(other) == owners.contains_key(other)
            &&& other != session_id && owners.contains_key(other) ==> after[other] == owners[other]
        }),
{
}

/// A peer is half open exactly where it is known and has not authenticated.
pub proof fn law_half_open_peers(directory: DirectoryView, address: CarrierAddress)
    ensures
        is_half_open(directory, address) <==> directory.clients.contains_key(address)
            && directory.clients[address].session_id() is None,
{
}

/// Taking many addresses out leaves every other session as it was, with its owner entry.
pub proof fn law_others_stay_when_many_leave(
    directory: DirectoryView,
    addresses: Set<CarrierAddress>,
    address: CarrierAddress,
    session_id: u64,
)
    requires
        directory.consistent(),
    ensures
        ({
            let after = without_all(directory, addresses);
            &&& after.clients.contains_key(address) <==> directory.clients.contains_key(address)
                && !addresses.contains(address)
            &&& after.clients.contains_key(address) ==> after.clients[address]
                == directory.clients[address]
            &&& directory.owners.contains_key(session_id) ==> (after.owners.contains_key(session_id)
                <==> !addresses.contains(directory.owners[session_id].address))
            &&& after.owners.contains_key(session_id) ==> directory.owners.contains_key(session_id)
                && after.owners[session_id] == directory.owners[session_id]
        }),
{
    if directory.owners.contains_key(session_id) {
        let owner = directory.owners[session_id];
        assert(directory.clients.contains_key(owner.address));
    }
}

/// A roaming session is published under its number at its address; a session that does not roam,
/// and an address without a session, publish nothing.
pub proof fn law_roaming_sessions_are_published(address: CarrierAddress, published: bool)
    ensures
        forall|directory: &mut UdpSessionDirectory| #[trigger]
            call_ensures(UdpSessionDirectory::publish_roaming_owner, (directory, address), published)
                && directory.valid() ==> {
                let before = directory@;
                let after = final(directory)@;
                let identity = before.clients[address].identity();
                &&& published <==> before.clients.contains_key(address) && identity is Some
                &&& published ==> {
                    let id = identity->Some_0.session_id;
                    &&& after.owners.contains_key(id) && after.owners[id].address == address
                    &&& after.owners[id].session_generation
                        == identity->Some_0.session_generation
                    &&& after.owners.remove(id) == before.owners.remove(id)
                }
                &&& after.clients == before.clients
                &&& !published ==> after == before
            },
{
    assert forall|directory: &mut UdpSessionDirectory| #[trigger]
        call_ensures(UdpSessionDirectory::publish_roaming_owner, (directory, address), published)
            && directory.valid() && published implies ({
        let id = directory@.clients[address].identity()->Some_0.session_id;
        final(directory)@.owners.remove(id) == directory@.owners.remove(id)
    }) by {
        let id = directory@.clients[address].identity()->Some_0.session_id;
        assert(final(directory)@.owners.remove(id) =~= directory@.owners.remove(id));
    }
}

/// What is put at an address is found there, and what stood there before is handed out; what is
/// removed is gone.
pub proof fn law_sessions_are_put_and_removed(
    address: CarrierAddress,
    client: UdpClient,
    replaced: Option<UdpClient>,
    gone: Option<UdpClient>,
    other: CarrierAddress,
)
    ensures
        forall|directory: &mut UdpSessionDirectory| #[trigger]
            call_ensures(UdpSessionDirectory::insert, (directory, address, client), replaced)
                && directory.valid() ==> {
                let before = directory@.clients;
                let after = final(directory)@.clients;
                &&& after.contains_key(address) && after[address] == client
                &&& other != address ==> after.contains_key(other) == before.contains_key(other)
                &&& other != address && before.contains_key(other) ==> after[other] == before[other]
                &&& replaced is Some <==> before.contains_key(address)
                &&& replaced is Some ==> replaced->Some_0 == before[address]
            },
        forall|directory: &mut UdpSessionDirectory| #[trigger]
            call_ensures(UdpSessionDirectory::remove, (directory, address), gone)
                && directory.valid() ==> {
                let before = directory@.clients;
                let after = final(directory)@.clients;
                &&& !after.contains_key(address)
                &&& other != address ==> after.contains_key(other) == before.contains_key(other)
                &&& other != address && before.contains_key(other) ==> after[other] == before[other]
                &&& gone is Some <==> before.contains_key(address)
                &&& gone is Some ==> gone->Some_0 == before[address]
            },
{
}

/// A directory starts empty.
pub proof fn law_directories_start_empty(directory: UdpSessionDirectory, address: CarrierAddress)
    requires
        call_ensures(UdpSessionDirectory::new, (), directory),
    ensures
        !directory@.clients.contains_key(address),
        directory@.owners == Map::<u64, UdpRoamingOwner>::empty(),
{
}

} // verus!
