//! Who gives way when a device authenticates, and what is left when a session ends.
//!
//! The sessions of a profile are one table, changed under one lock: a device replaces its own
//! session, a user's oldest devices make room within the user's limit, the holder of a fixed
//! address yields to its owner, and only then is the profile's capacity looked at. Addresses of
//! evicted devices are handed back together with the allocation, so that nobody is given an
//! address in between.

use crate::carrier::CarrierAddress;
use crate::cidr::IpAddress;
use crate::text::same_text;
use vstd::prelude::*;

verus! {

/// A session that is up.
#[derive(Debug)]
pub struct LiveSession {
    /// The address by which the session is known: IPv4 where it has one.
    pub primary: IpAddress,
    pub ipv6: Option<u128>,
    pub session_id: u64,
    pub username: String,
    pub device_key: String,
    /// Where the session was when it connected.
    pub peer: CarrierAddress,
    pub connected_at: u64,
    /// Networks behind the client.
    pub routes: Vec<String>,
}

pub open spec fn is_device(session: LiveSession, device_key: Seq<char>) -> bool {
    session.device_key@ == device_key
}

/// A session of the same user on another device.
pub open spec fn is_other_device(
    session: LiveSession,
    username: Seq<char>,
    device_key: Seq<char>,
) -> bool {
    session.username@ == username && session.device_key@ != device_key
}

/// Whether a session has an address.
pub open spec fn holds(session: LiveSession, address: IpAddress) -> bool {
    session.primary == address || (address matches IpAddress::V6(value) && session.ipv6 == Some(
        value,
    ))
}

fn session_holds(session: &LiveSession, address: IpAddress) -> (found: bool)
    ensures
        found == holds(*session, address),
{
    if session.primary == address {
        return true;
    }
    match address {
        IpAddress::V6(value) => match session.ipv6 {
            Some(other) => other == value,
            None => false,
        },
        IpAddress::V4(_) => false,
    }
}

/// The sessions of one device, or all but those, in order.
pub open spec fn by_device(table: Seq<LiveSession>, device_key: Seq<char>, wanted: bool) -> Seq<
    LiveSession,
>
    decreases table.len(),
{
    if table.len() == 0 {
        Seq::empty()
    } else {
        let front = by_device(table.drop_last(), device_key, wanted);
        if is_device(table.last(), device_key) == wanted {
            front.push(table.last())
        } else {
            front
        }
    }
}

/// How many other devices a user has.
pub open spec fn other_devices(
    table: Seq<LiveSession>,
    username: Seq<char>,
    device_key: Seq<char>,
) -> nat
    decreases table.len(),
{
    if table.len() == 0 {
        0
    } else {
        other_devices(table.drop_last(), username, device_key) + if is_other_device(
            table.last(),
            username,
            device_key,
        ) {
            1nat
        } else {
            0nat
        }
    }
}

/// The first of the oldest other devices among the first `end` sessions.
pub open spec fn oldest_other(
    table: Seq<LiveSession>,
    username: Seq<char>,
    device_key: Seq<char>,
    end: int,
) -> Option<int>
    decreases end,
{
    if end <= 0 {
        None
    } else {
        let before = oldest_other(table, username, device_key, end - 1);
        if is_other_device(table[end - 1], username, device_key) && (before is None || table[end
            - 1].connected_at < table[before->Some_0].connected_at) {
            Some(end - 1)
        } else {
            before
        }
    }
}

/// What is left, and what has gone, oldest first, once a user is within the limit. Zero is no
/// limit.
pub open spec fn within_limit(
    table: Seq<LiveSession>,
    username: Seq<char>,
    device_key: Seq<char>,
    limit: int,
) -> (Seq<LiveSession>, Seq<LiveSession>)
    decreases table.len(),
{
    match oldest_other(table, username, device_key, table.len() as int) {
        Some(at) => if limit > 0 && other_devices(table, username, device_key) >= limit && 0 <= at
            < table.len() {
            let (kept, gone) = within_limit(table.remove(at), username, device_key, limit);
            (kept, seq![table[at]] + gone)
        } else {
            (table, Seq::empty())
        },
        None => (table, Seq::empty()),
    }
}

/// The first session from `start` on that has an address.
pub open spec fn holder(table: Seq<LiveSession>, address: IpAddress, start: int) -> Option<int>
    decreases table.len() - start,
{
    if start < 0 || start >= table.len() {
        None
    } else if holds(table[start], address) {
        Some(start)
    } else {
        holder(table, address, start + 1)
    }
}

/// What is left, and who has gone, once a fixed address is free for a device.
pub open spec fn freed(
    table: Seq<LiveSession>,
    address: Option<IpAddress>,
    device_key: Seq<char>,
) -> (Seq<LiveSession>, Seq<LiveSession>) {
    match address {
        None => (table, Seq::empty()),
        Some(address) => match holder(table, address, 0) {
            Some(at) => if is_device(table[at], device_key) {
                (table, Seq::empty())
            } else {
                (table.remove(at), seq![table[at]])
            },
            None => (table, Seq::empty()),
        },
    }
}

/// A device that authenticated and asks for a place.
#[derive(Debug)]
pub struct AdmissionRequest {
    pub username: String,
    pub device_key: String,
    /// The user's limit on devices; zero is none.
    pub max_sessions: u32,
    /// The user's fixed addresses, in the families that were negotiated.
    pub fixed_ipv4: Option<u32>,
    pub fixed_ipv6: Option<u128>,
    /// The capacity of the profile.
    pub max_clients: usize,
}

pub open spec fn fixed_v4(request: AdmissionRequest) -> Option<IpAddress> {
    match request.fixed_ipv4 {
        Some(value) => Some(IpAddress::V4(value)),
        None => None,
    }
}

pub open spec fn fixed_v6(request: AdmissionRequest) -> Option<IpAddress> {
    match request.fixed_ipv6 {
        Some(value) => Some(IpAddress::V6(value)),
        None => None,
    }
}

#[verifier::ext_equal]
pub struct AdmissionView {
    pub kept: Seq<LiveSession>,
    /// Sessions of the device itself. Its lease stays.
    pub superseded: Seq<LiveSession>,
    /// Sessions of other devices. Their leases are handed back.
    pub evicted: Seq<LiveSession>,
    pub admitted: bool,
}

/// Who gives way for a request, and whether there is room then.
pub open spec fn admission(table: Seq<LiveSession>, request: AdmissionRequest) -> AdmissionView {
    let device = request.device_key@;
    let others = by_device(table, device, false);
    let (limited, over) = within_limit(
        others,
        request.username@,
        device,
        request.max_sessions as int,
    );
    let (without4, held4) = freed(limited, fixed_v4(request), device);
    let (kept, held6) = freed(without4, fixed_v6(request), device);
    AdmissionView {
        kept,
        superseded: by_device(table, device, true),
        evicted: over + held4 + held6,
        admitted: kept.len() < request.max_clients,
    }
}

/// Sessions that went for a device: its own, whose lease stays, and those of other devices, whose
/// leases are to be handed back.
#[derive(Debug)]
pub struct Yielded {
    pub superseded: Vec<LiveSession>,
    pub evicted: Vec<LiveSession>,
}

/// Holders of fixed addresses that went, and whether there is room. The leases of the holders are
/// to be handed back; where there is no room, that of the device too.
#[derive(Debug)]
pub struct Claimed {
    pub evicted: Vec<LiveSession>,
    pub admitted: bool,
}

/// The sessions of a profile.
pub struct SessionTable {
    sessions: Vec<LiveSession>,
}

impl View for SessionTable {
    type V = Seq<LiveSession>;

    closed spec fn view(&self) -> Seq<LiveSession> {
        self.sessions@
    }
}

impl SessionTable {
    pub fn new() -> (table: SessionTable)
        ensures
            table@ == Seq::<LiveSession>::empty(),
    {
        SessionTable { sessions: Vec::new() }
    }

    pub fn len(&self) -> (len: usize)
        ensures
            len == self@.len(),
    {
        self.sessions.len()
    }

    /// Takes the sessions of a device out.
    fn supersede(&mut self, device_key: &str) -> (gone: Vec<LiveSession>)
        ensures
            gone@ == by_device(old(self)@, device_key@, true),
            final(self)@ == by_device(old(self)@, device_key@, false),
    {
        let ghost all = self.sessions@;
        let mut kept: Vec<LiveSession> = Vec::new();
        let mut gone: Vec<LiveSession> = Vec::new();
        let mut rest: Vec<LiveSession> = Vec::new();
        rest.append(&mut self.sessions);
        let ghost mut done: int = 0;
        assert(all.take(0) =~= Seq::<LiveSession>::empty());
        assert(rest@ =~= all.skip(0));
        while rest.len() > 0
            invariant
                0 <= done <= all.len(),
                rest@ == all.skip(done),
                self.sessions@.len() == 0,
                kept@ == by_device(all.take(done), device_key@, false),
                gone@ == by_device(all.take(done), device_key@, true),
            decreases rest@.len(),
        {
            proof {
                assert(all.take(done + 1).drop_last() =~= all.take(done));
                assert(all.take(done + 1).last() == all[done]);
                assert(all.skip(done)[0] == all[done]);
                assert(all.skip(done).remove(0) =~= all.skip(done + 1));
            }
            let session = rest.remove(0);
            if same_text(session.device_key.as_str(), device_key) {
                gone.push(session);
            } else {
                kept.push(session);
            }
            proof {
                done = done + 1;
            }
        }
        assert(all.take(all.len() as int) =~= all);
        self.sessions = kept;
        gone
    }

    fn find_oldest_other(&self, username: &str, device_key: &str) -> (found: (Option<usize>, usize))
        ensures
            match found.0 {
                Some(at) => at < self@.len() && oldest_other(
                    self@,
                    username@,
                    device_key@,
                    self@.len() as int,
                ) == Some(at as int),
                None => oldest_other(self@, username@, device_key@, self@.len() as int) is None,
            },
            found.1 == other_devices(self@, username@, device_key@),
    {
        let mut best: Option<usize> = None;
        let mut count: usize = 0;
        let mut i: usize = 0;
        assert(self.sessions@.take(0) =~= Seq::<LiveSession>::empty());
        while i < self.sessions.len()
            invariant
                i <= self.sessions@.len(),
                count <= i,
                count == other_devices(self.sessions@.take(i as int), username@, device_key@),
                match best {
                    Some(at) => at < i && oldest_other(
                        self.sessions@,
                        username@,
                        device_key@,
                        i as int,
                    ) == Some(at as int),
                    None => oldest_other(self.sessions@, username@, device_key@, i as int) is None,
                },
            decreases self.sessions@.len() - i,
        {
            assert(self.sessions@.take(i + 1).drop_last() =~= self.sessions@.take(i as int));
            assert(self.sessions@.take(i + 1).last() == self.sessions@[i as int]);
            let other = same_text(self.sessions[i].username.as_str(), username) && !same_text(
                self.sessions[i].device_key.as_str(),
                device_key,
            );
            if other {
                count = count + 1;
                let older = match best {
                    Some(at) => self.sessions[i].connected_at < self.sessions[at].connected_at,
                    None => true,
                };
                if older {
                    best = Some(i);
                }
            }
            i += 1;
        }
        assert(self.sessions@.take(self.sessions@.len() as int) =~= self.sessions@);
        (best, count)
    }

    /// Takes the oldest other devices of a user out until one more fits.
    fn limit_user(&mut self, username: &str, device_key: &str, limit: u32) -> (gone: Vec<LiveSession>)
        ensures
            (final(self)@, gone@) == within_limit(old(self)@, username@, device_key@, limit as int),
    {
        let mut gone: Vec<LiveSession> = Vec::new();
        let ghost all = self.sessions@;
        let ghost target = within_limit(all, username@, device_key@, limit as int);
        loop
            invariant
                target == within_limit(all, username@, device_key@, limit as int),
                target.0 == within_limit(
                    self.sessions@,
                    username@,
                    device_key@,
                    limit as int,
                ).0,
                target.1 == gone@ + within_limit(
                    self.sessions@,
                    username@,
                    device_key@,
                    limit as int,
                ).1,
            ensures
                target == within_limit(all, username@, device_key@, limit as int),
                self.sessions@ == target.0,
                gone@ == target.1,
            decreases self.sessions@.len(),
        {
            let (oldest, count) = self.find_oldest_other(username, device_key);
            match oldest {
                Some(at) => {
                    if limit == 0 || (count as u64) < limit as u64 {
                        assert(gone@ + Seq::<LiveSession>::empty() =~= gone@);
                        break ;
                    }
                    let ghost before = self.sessions@;
                    let ghost held = gone@;
                    let session = self.sessions.remove(at);
                    gone.push(session);
                    proof {
                        let rest = within_limit(
                            before.remove(at as int),
                            username@,
                            device_key@,
                            limit as int,
                        ).1;
                        assert(held + (seq![before[at as int]] + rest) =~= held.push(
                            before[at as int],
                        ) + rest);
                    }
                },
                None => {
                    assert(gone@ + Seq::<LiveSession>::empty() =~= gone@);
                    break ;
                },
            }
        }
        gone
    }

    fn find_holder(&self, address: IpAddress) -> (at: Option<usize>)
        ensures
            match at {
                Some(at) => at < self@.len() && holder(self@, address, 0) == Some(at as int),
                None => holder(self@, address, 0) is None,
            },
    {
        let mut i: usize = 0;
        while i < self.sessions.len()
            invariant
                i <= self.sessions@.len(),
                holder(self.sessions@, address, 0) == holder(self.sessions@, address, i as int),
            decreases self.sessions@.len() - i,
        {
            if session_holds(&self.sessions[i], address) {
                return Some(i);
            }
            i += 1;
        }
        None
    }

    /// Takes the holder of a fixed address out, unless it is the device itself.
    fn free_address(&mut self, address: Option<IpAddress>, device_key: &str) -> (gone: Vec<LiveSession>)
        ensures
            (final(self)@, gone@) == freed(old(self)@, address, device_key@),
    {
        let mut gone: Vec<LiveSession> = Vec::new();
        let address = match address {
            Some(address) => address,
            None => {
                return gone;
            },
        };
        if let Some(at) = self.find_holder(address) {
            if !same_text(self.sessions[at].device_key.as_str(), device_key) {
                let session = self.sessions.remove(at);
                gone.push(session);
                assert(gone@ =~= seq![old(self)@[at as int]]);
            }
        }
        gone
    }

    /// First half of letting a device in: its own sessions go, and its user's oldest other devices
    /// until one more fits.
    pub fn yield_to_device(&mut self, request: &AdmissionRequest) -> (outcome: Yielded)
        ensures
            ({
                let others = by_device(old(self)@, request.device_key@, false);
                &&& outcome.superseded@ == by_device(old(self)@, request.device_key@, true)
                &&& (final(self)@, outcome.evicted@) == within_limit(
                    others,
                    request.username@,
                    request.device_key@,
                    request.max_sessions as int,
                )
            }),
    {
        let superseded = self.supersede(request.device_key.as_str());
        let evicted = self.limit_user(
            request.username.as_str(),
            request.device_key.as_str(),
            request.max_sessions,
        );
        Yielded { superseded, evicted }
    }

    /// Second half: the holders of the user's fixed addresses go, and the capacity of the profile
    /// decides.
    pub fn claim_addresses(&mut self, request: &AdmissionRequest) -> (outcome: Claimed)
        ensures
            ({
                let (without4, held4) = freed(old(self)@, fixed_v4(*request), request.device_key@);
                let (kept, held6) = freed(without4, fixed_v6(*request), request.device_key@);
                &&& final(self)@ == kept
                &&& outcome.evicted@ == held4 + held6
                &&& outcome.admitted == (kept.len() < request.max_clients)
            }),
    {
        let fixed4 = match request.fixed_ipv4 {
            Some(value) => Some(IpAddress::V4(value)),
            None => None,
        };
        let mut evicted = self.free_address(fixed4, request.device_key.as_str());
        let fixed6 = match request.fixed_ipv6 {
            Some(value) => Some(IpAddress::V6(value)),
            None => None,
        };
        let mut held6 = self.free_address(fixed6, request.device_key.as_str());
        evicted.append(&mut held6);
        Claimed { evicted, admitted: self.sessions.len() < request.max_clients }
    }
}

/// The first session from `start` on that is known by an address.
pub open spec fn at_primary(table: Seq<LiveSession>, primary: IpAddress, start: int) -> Option<int>
    decreases table.len() - start,
{
    if start < 0 || start >= table.len() {
        None
    } else if table[start].primary == primary {
        Some(start)
    } else {
        at_primary(table, primary, start + 1)
    }
}

/// What reaping leaves of the table: the session goes only while it is still the one that is
/// meant.
pub open spec fn reaped(table: Seq<LiveSession>, primary: IpAddress, session_id: u64) -> Seq<
    LiveSession,
> {
    match at_primary(table, primary, 0) {
        Some(at) => if table[at].session_id == session_id {
            table.remove(at)
        } else {
            table
        },
        None => table,
    }
}

/// The session that goes, if one does.
pub open spec fn reaped_session(
    table: Seq<LiveSession>,
    primary: IpAddress,
    session_id: u64,
) -> Option<LiveSession> {
    match at_primary(table, primary, 0) {
        Some(at) => if table[at].session_id == session_id {
            Some(table[at])
        } else {
            None
        },
        None => None,
    }
}

/// Whether a device has a session.
pub open spec fn device_is_live(table: Seq<LiveSession>, device_key: Seq<char>) -> bool {
    exists|i: int| 0 <= i < table.len() && is_device(#[trigger] table[i], device_key)
}

impl SessionTable {
    fn find_primary(&self, primary: IpAddress) -> (at: Option<usize>)
        ensures
            match at {
                Some(at) => at < self@.len() && at_primary(self@, primary, 0) == Some(at as int),
                None => at_primary(self@, primary, 0) is None,
            },
    {
        let mut i: usize = 0;
        while i < self.sessions.len()
            invariant
                i <= self.sessions@.len(),
                at_primary(self.sessions@, primary, 0) == at_primary(
                    self.sessions@,
                    primary,
                    i as int,
                ),
            decreases self.sessions@.len() - i,
        {
            if self.sessions[i].primary == primary {
                return Some(i);
            }
            i += 1;
        }
        None
    }

    fn has_device(&self, device_key: &str) -> (live: bool)
        ensures
            live == device_is_live(self@, device_key@),
    {
        let mut i: usize = 0;
        while i < self.sessions.len()
            invariant
                i <= self.sessions@.len(),
                forall|j: int|
                    0 <= j < i ==> !is_device(#[trigger] self.sessions@[j], device_key@),
            decreases self.sessions@.len() - i,
        {
            if same_text(self.sessions[i].device_key.as_str(), device_key) {
                assert(is_device(self.sessions@[i as int], device_key@));
                return true;
            }
            i += 1;
        }
        false
    }

    /// Publishes a session. What was at its address goes and is given back, with whether its lease
    /// is to be handed back: not where the same device takes its own place again.
    pub fn publish(&mut self, session: LiveSession) -> (outcome: (Option<LiveSession>, bool))
        ensures
            match at_primary(old(self)@, session.primary, 0) {
                Some(at) => outcome.0 == Some(old(self)@[at]) && outcome.1 == !is_device(
                    old(self)@[at],
                    session.device_key@,
                ) && final(self)@ == old(self)@.remove(at).push(session),
                None => outcome.0 is None && !outcome.1 && final(self)@ == old(self)@.push(session),
            },
    {
        let (replaced, release) = match self.find_primary(session.primary) {
            Some(at) => {
                let replaced = self.sessions.remove(at);
                let same = same_text(replaced.device_key.as_str(), session.device_key.as_str());
                (Some(replaced), !same)
            },
            None => (None, false),
        };
        self.sessions.push(session);
        (replaced, release)
    }

    /// Takes a session out, if it is still the one that is meant: a newer session at the same
    /// address is left alone.
    pub fn withdraw(&mut self, primary: IpAddress, session_id: u64) -> (removed: Option<LiveSession>)
        ensures
            final(self)@ == reaped(old(self)@, primary, session_id),
            removed == reaped_session(old(self)@, primary, session_id),
    {
        let at: usize = match self.find_primary(primary) {
            Some(at) => at,
            None => {
                return None;
            },
        };
        if self.sessions[at].session_id != session_id {
            return None;
        }
        Some(self.sessions.remove(at))
    }

    /// Ends a session that timed out. The lease of its device is handed back only where the
    /// device has no session any more.
    pub fn reap(&mut self, primary: IpAddress, session_id: u64, device_key: &str) -> (outcome: (
        Option<LiveSession>,
        bool,
    ))
        ensures
            final(self)@ == reaped(old(self)@, primary, session_id),
            outcome.0 == reaped_session(old(self)@, primary, session_id),
            outcome.1 == !device_is_live(final(self)@, device_key@),
    {
        let removed = self.withdraw(primary, session_id);
        let live = self.has_device(device_key);
        (removed, !live)
    }
}

proof fn lemma_at_primary(table: Seq<LiveSession>, primary: IpAddress, start: int)
    requires
        0 <= start <= table.len(),
    ensures
        at_primary(table, primary, start) matches Some(at) ==> start <= at < table.len()
            && table[at].primary == primary,
    decreases table.len() - start,
{
    if start < table.len() {
        lemma_at_primary(table, primary, start + 1);
    }
}

proof fn lemma_remove_contains(table: Seq<LiveSession>, at: int, session: LiveSession)
    requires
        0 <= at < table.len(),
    ensures
        table.remove(at).contains(session) ==> table.contains(session),
        table.contains(session) && session != table[at] ==> table.remove(at).contains(session),
{
    let rest = table.remove(at);
    if rest.contains(session) {
        let i = choose|i: int| 0 <= i < rest.len() && rest[i] == session;
        if i < at {
            assert(table[i] == session);
        } else {
            assert(table[i + 1] == session);
        }
    }
    if table.contains(session) && session != table[at] {
        let i = choose|i: int| 0 <= i < table.len() && table[i] == session;
        if i < at {
            assert(rest[i] == session);
        } else {
            assert(rest[i - 1] == session);
        }
    }
}

proof fn lemma_by_device(
    table: Seq<LiveSession>,
    device_key: Seq<char>,
    wanted: bool,
    session: LiveSession,
)
    ensures
        by_device(table, device_key, wanted).contains(session) <==> table.contains(session)
            && is_device(session, device_key) == wanted,
    decreases table.len(),
{
    if table.len() > 0 {
        let front = table.drop_last();
        let kept = by_device(front, device_key, wanted);
        lemma_by_device(front, device_key, wanted, session);
        if table.contains(session) {
            let i = choose|i: int| 0 <= i < table.len() && table[i] == session;
            if i < front.len() {
                assert(front[i] == session);
            }
        }
        if front.contains(session) {
            let i = choose|i: int| 0 <= i < front.len() && front[i] == session;
            assert(table[i] == session);
        }
        assert(table[table.len() - 1] == table.last());
        let whole = by_device(table, device_key, wanted);
        if kept.contains(session) {
            let i = choose|i: int| 0 <= i < kept.len() && kept[i] == session;
            assert(whole[i] == session);
        }
        if is_device(table.last(), device_key) == wanted {
            assert(whole[kept.len() as int] == table.last());
        }
        if whole.contains(session) && session != table.last() {
            let i = choose|i: int| 0 <= i < whole.len() && whole[i] == session;
            assert(kept[i] == session);
        }
    }
}

proof fn lemma_oldest_other(
    table: Seq<LiveSession>,
    username: Seq<char>,
    device_key: Seq<char>,
    end: int,
)
    requires
        0 <= end <= table.len(),
    ensures
        match oldest_other(table, username, device_key, end) {
            Some(at) => 0 <= at < end && is_other_device(table[at], username, device_key) && forall|
                i: int,
            |
                0 <= i < end && is_other_device(#[trigger] table[i], username, device_key)
                    ==> table[at].connected_at <= table[i].connected_at,
            None => other_devices(table.take(end), username, device_key) == 0 && forall|i: int|
                0 <= i < end ==> !is_other_device(#[trigger] table[i], username, device_key),
        },
    decreases end,
{
    if end > 0 {
        lemma_oldest_other(table, username, device_key, end - 1);
        assert(table.take(end).drop_last() =~= table.take(end - 1));
        assert(table.take(end).last() == table[end - 1]);
    }
}

proof fn lemma_fewer_others(
    table: Seq<LiveSession>,
    username: Seq<char>,
    device_key: Seq<char>,
    at: int,
)
    requires
        0 <= at < table.len(),
    ensures
        other_devices(table.remove(at), username, device_key) <= other_devices(
            table,
            username,
            device_key,
        ),
    decreases table.len(),
{
    let rest = table.remove(at);
    if at == table.len() - 1 {
        assert(rest =~= table.drop_last());
    } else {
        lemma_fewer_others(table.drop_last(), username, device_key, at);
        assert(rest.drop_last() =~= table.drop_last().remove(at));
        assert(rest.last() == table.last());
    }
}

proof fn lemma_within_limit(
    table: Seq<LiveSession>,
    username: Seq<char>,
    device_key: Seq<char>,
    limit: int,
    session: LiveSession,
)
    ensures
        ({
            let (kept, gone) = within_limit(table, username, device_key, limit);
            &&& limit > 0 ==> other_devices(kept, username, device_key) < limit
            &&& kept.contains(session) ==> table.contains(session)
            &&& gone.contains(session) ==> is_other_device(session, username, device_key)
            &&& table.contains(session) && !is_other_device(session, username, device_key)
                ==> kept.contains(session)
        }),
    decreases table.len(),
{
    lemma_oldest_other(table, username, device_key, table.len() as int);
    assert(table.take(table.len() as int) =~= table);
    if let Some(at) = oldest_other(table, username, device_key, table.len() as int) {
        if limit > 0 && other_devices(table, username, device_key) >= limit {
            let rest = table.remove(at);
            lemma_within_limit(rest, username, device_key, limit, session);
            lemma_remove_contains(table, at, session);
            let (kept, gone) = within_limit(rest, username, device_key, limit);
            let all = seq![table[at]] + gone;
            if all.contains(session) {
                let i = choose|i: int| 0 <= i < all.len() && all[i] == session;
                if i > 0 {
                    assert(gone[i - 1] == session);
                }
            }
        }
    }
}

proof fn lemma_holder(table: Seq<LiveSession>, address: IpAddress, start: int)
    requires
        0 <= start <= table.len(),
    ensures
        match holder(table, address, start) {
            Some(at) => start <= at < table.len() && holds(table[at], address),
            None => forall|i: int|
                start <= i < table.len() ==> !holds(#[trigger] table[i], address),
        },
    decreases table.len() - start,
{
    if start < table.len() {
        lemma_holder(table, address, start + 1);
    }
}

proof fn lemma_freed(
    table: Seq<LiveSession>,
    address: Option<IpAddress>,
    device_key: Seq<char>,
    username: Seq<char>,
    session: LiveSession,
)
    ensures
        ({
            let (kept, gone) = freed(table, address, device_key);
            &&& kept.contains(session) ==> table.contains(session)
            &&& gone.contains(session) ==> (address matches Some(address) && holds(session, address)
                && !is_device(session, device_key))
            &&& table.contains(session) && !(address matches Some(address) && holds(
                session,
                address,
            )) ==> kept.contains(session)
            &&& other_devices(kept, username, device_key) <= other_devices(
                table,
                username,
                device_key,
            )
        }),
{
    if let Some(value) = address {
        lemma_holder(table, value, 0);
        if let Some(at) = holder(table, value, 0) {
            if !is_device(table[at], device_key) {
                lemma_remove_contains(table, at, session);
                lemma_fewer_others(table, username, device_key, at);
                let gone = seq![table[at]];
                if gone.contains(session) {
                    assert(gone[0] == session);
                }
            }
        }
    }
}

/// When a device is let in, its own older sessions are gone, its user is below the limit on
/// devices, and nobody else went but that user's other devices and the holders of its fixed
/// addresses.
pub proof fn law_admission_is_fair(
    table: Seq<LiveSession>,
    request: AdmissionRequest,
    session: LiveSession,
)
    ensures
        ({
            let outcome = admission(table, request);
            let device = request.device_key@;
            let fixed = (fixed_v4(request) matches Some(address) && holds(session, address)) || (
            fixed_v6(request) matches Some(address) && holds(session, address));
            &&& outcome.kept.contains(session) ==> table.contains(session) && !is_device(
                session,
                device,
            )
            &&& outcome.superseded.contains(session) ==> is_device(session, device)
            &&& request.max_sessions > 0 ==> other_devices(outcome.kept, request.username@, device)
                < request.max_sessions
            &&& table.contains(session) && !is_device(session, device) && !is_other_device(
                session,
                request.username@,
                device,
            ) && !fixed ==> outcome.kept.contains(session)
        }),
{
    let device = request.device_key@;
    let user = request.username@;
    let others = by_device(table, device, false);
    lemma_by_device(table, device, false, session);
    lemma_by_device(table, device, true, session);
    lemma_within_limit(others, user, device, request.max_sessions as int, session);
    let (limited, _) = within_limit(others, user, device, request.max_sessions as int);
    lemma_freed(limited, fixed_v4(request), device, user, session);
    let (without4, _) = freed(limited, fixed_v4(request), device);
    lemma_freed(without4, fixed_v6(request), device, user, session);
}

/// Where each address has one holder, a fixed address is free once its owner is let in.
pub proof fn law_fixed_address_is_freed(
    table: Seq<LiveSession>,
    address: IpAddress,
    device_key: Seq<char>,
)
    requires
        forall|i: int, j: int|
            0 <= i < table.len() && 0 <= j < table.len() && holds(#[trigger] table[i], address)
                && holds(#[trigger] table[j], address) ==> i == j,
    ensures
        ({
            let (kept, _) = freed(table, Some(address), device_key);
            forall|i: int|
                0 <= i < kept.len() && holds(#[trigger] kept[i], address) ==> is_device(
                    kept[i],
                    device_key,
                )
        }),
{
    lemma_holder(table, address, 0);
    let (kept, _) = freed(table, Some(address), device_key);
    if let Some(at) = holder(table, address, 0) {
        assert forall|i: int| 0 <= i < kept.len() && holds(#[trigger] kept[i], address) implies (
        is_device(kept[i], device_key)) by {
            if is_device(table[at], device_key) {
                assert(kept[i] == table[i]);
                assert(i == at);
            } else {
                let k = if i < at {
                    i
                } else {
                    i + 1
                };
                assert(kept[i] == table[k]);
                assert(k == at);
            }
        }
    }
}

/// Reaping a session that was replaced meanwhile changes nothing, and the lease of a device that
/// is up again is not handed back.
pub proof fn law_reaping_spares_the_newer_session(
    table: Seq<LiveSession>,
    primary: IpAddress,
    session_id: u64,
    at: int,
)
    requires
        at_primary(table, primary, 0) == Some(at),
        table[at].session_id != session_id,
    ensures
        reaped(table, primary, session_id) == table,
        device_is_live(reaped(table, primary, session_id), table[at].device_key@),
{
    lemma_at_primary(table, primary, 0);
    assert(is_device(table[at], table[at].device_key@));
}

/// Sessions are told apart by device and user by their names, and by address by what they were
/// given: one address by which they are known, and with an IPv6 address beside it that one too.
pub proof fn law_sessions_are_told_apart(
    session: LiveSession,
    username: Seq<char>,
    device_key: Seq<char>,
    v4: u32,
    v6: u128,
    request: AdmissionRequest,
)
    ensures
        is_device(session, device_key) <==> session.device_key@ == device_key,
        is_other_device(session, username, device_key) <==> session.username@ == username
            && session.device_key@ != device_key,
        holds(session, IpAddress::V4(v4)) <==> session.primary == IpAddress::V4(v4),
        holds(session, IpAddress::V6(v6)) <==> session.primary == IpAddress::V6(v6) || session.ipv6
            == Some(v6),
        request.fixed_ipv4 == Some(v4) ==> fixed_v4(request) == Some(IpAddress::V4(v4)),
        request.fixed_ipv4 is None ==> fixed_v4(request) is None,
        request.fixed_ipv6 == Some(v6) ==> fixed_v6(request) == Some(IpAddress::V6(v6)),
        request.fixed_ipv6 is None ==> fixed_v6(request) is None,
{
}

/// A device's own sessions go and all others stay, each list in the order of the table.
pub proof fn law_own_sessions_are_superseded(
    table: Seq<LiveSession>,
    next: LiveSession,
    device_key: Seq<char>,
)
    ensures
        by_device(Seq::empty(), device_key, true).len() == 0,
        by_device(Seq::empty(), device_key, false).len() == 0,
        next.device_key@ == device_key ==> by_device(table.push(next), device_key, true)
            == by_device(table, device_key, true).push(next) && by_device(
            table.push(next),
            device_key,
            false,
        ) == by_device(table, device_key, false),
        next.device_key@ != device_key ==> by_device(table.push(next), device_key, false)
            == by_device(table, device_key, false).push(next) && by_device(
            table.push(next),
            device_key,
            true,
        ) == by_device(table, device_key, true),
        by_device(table, device_key, true).len() + by_device(table, device_key, false).len()
            == table.len(),
    decreases table.len(),
{
    assert(table.push(next).drop_last() =~= table);
    if table.len() > 0 {
        law_own_sessions_are_superseded(table.drop_last(), next, device_key);
    }
}

/// A user's devices are counted one by one, without the device that asks.
pub proof fn law_other_devices_are_counted(
    table: Seq<LiveSession>,
    next: LiveSession,
    username: Seq<char>,
    device_key: Seq<char>,
)
    ensures
        other_devices(Seq::empty(), username, device_key) == 0,
        next.username@ == username && next.device_key@ != device_key ==> other_devices(
            table.push(next),
            username,
            device_key,
        ) == other_devices(table, username, device_key) + 1,
        next.username@ != username || next.device_key@ == device_key ==> other_devices(
            table.push(next),
            username,
            device_key,
        ) == other_devices(table, username, device_key),
{
    assert(table.push(next).drop_last() =~= table);
}

proof fn lemma_one_other_less(
    table: Seq<LiveSession>,
    username: Seq<char>,
    device_key: Seq<char>,
    at: int,
)
    requires
        0 <= at < table.len(),
        is_other_device(table[at], username, device_key),
    ensures
        other_devices(table.remove(at), username, device_key) + 1 == other_devices(
            table,
            username,
            device_key,
        ),
    decreases table.len(),
{
    let rest = table.remove(at);
    if at == table.len() - 1 {
        assert(rest =~= table.drop_last());
    } else {
        lemma_one_other_less(table.drop_last(), username, device_key, at);
        assert(rest.drop_last() =~= table.drop_last().remove(at));
        assert(rest.last() == table.last());
    }
}

/// Only as many devices of a user give way as it takes to let one more in below the limit, and those
/// that have been connected longest: nobody who stays was there before one that went. Without a
/// limit, and below it, everyone stays.
pub proof fn law_only_the_oldest_devices_give_way(
    table: Seq<LiveSession>,
    username: Seq<char>,
    device_key: Seq<char>,
    limit: int,
)
    ensures
        ({
            let (kept, gone) = within_limit(table, username, device_key, limit);
            let others = other_devices(table, username, device_key);
            &&& gone.len() == if limit > 0 && others >= limit {
                others - limit + 1
            } else {
                0
            }
            &&& kept.len() + gone.len() == table.len()
            &&& gone.len() == 0 ==> kept == table
            &&& forall|i: int|
                0 <= i < gone.len() ==> table.contains(#[trigger] gone[i]) && gone[i].username@
                    == username && gone[i].device_key@ != device_key
            &&& forall|i: int, j: int|
                0 <= i < gone.len() && 0 <= j < kept.len() && (#[trigger] kept[j]).username@
                    == username && kept[j].device_key@ != device_key ==> (#[trigger]
                gone[i]).connected_at <= kept[j].connected_at
            &&& forall|i: int, j: int|
                0 <= i < j < gone.len() ==> (#[trigger] gone[i]).connected_at <= (#[trigger]
                gone[j]).connected_at
        }),
    decreases table.len(),
{
    lemma_oldest_other(table, username, device_key, table.len() as int);
    assert(table.take(table.len() as int) =~= table);
    if let Some(at) = oldest_other(table, username, device_key, table.len() as int) {
        if limit > 0 && other_devices(table, username, device_key) >= limit {
            let rest = table.remove(at);
            lemma_one_other_less(table, username, device_key, at);
            law_only_the_oldest_devices_give_way(rest, username, device_key, limit);
            let (kept, later) = within_limit(rest, username, device_key, limit);
            let gone = seq![table[at]] + later;
            assert forall|i: int| 0 <= i < gone.len() implies table.contains(#[trigger] gone[i])
                && gone[i].username@ == username && gone[i].device_key@ != device_key by {
                if i == 0 {
                    assert(table[at] == gone[0]);
                } else {
                    assert(gone[i] == later[i - 1]);
                    lemma_remove_contains(table, at, gone[i]);
                }
            }
            assert forall|i: int, j: int|
                0 <= i < gone.len() && 0 <= j < kept.len() && (#[trigger] kept[j]).username@
                    == username && kept[j].device_key@ != device_key implies (#[trigger]
            gone[i]).connected_at <= kept[j].connected_at by {
                if i == 0 {
                    lemma_within_limit(rest, username, device_key, limit, kept[j]);
                    assert(kept.contains(kept[j]));
                    lemma_remove_contains(table, at, kept[j]);
                    let k = choose|k: int| 0 <= k < table.len() && table[k] == kept[j];
                    assert(is_other_device(table[k], username, device_key));
                } else {
                    assert(gone[i] == later[i - 1]);
                }
            }
            assert forall|i: int, j: int| 0 <= i < j < gone.len() implies (#[trigger]
            gone[i]).connected_at <= (#[trigger] gone[j]).connected_at by {
                assert(gone[j] == later[j - 1]);
                if i == 0 {
                    lemma_remove_contains(table, at, later[j - 1]);
                    let k = choose|k: int| 0 <= k < table.len() && table[k] == later[j - 1];
                    assert(is_other_device(table[k], username, device_key));
                } else {
                    assert(gone[i] == later[i - 1]);
                }
            }
        }
    }
}

/// A fixed address is taken from the first session that has it, and from no other; where nobody has
/// it, or the device itself, everyone stays.
pub proof fn law_fixed_addresses_are_claimed(
    table: Seq<LiveSession>,
    address: IpAddress,
    device_key: Seq<char>,
    first: int,
)
    requires
        0 <= first <= table.len(),
        forall|i: int| 0 <= i < first ==> !holds(#[trigger] table[i], address),
        first < table.len() ==> holds(table[first], address),
    ensures
        freed(table, None, device_key) == (table, Seq::<LiveSession>::empty()),
        first == table.len() || table[first].device_key@ == device_key ==> freed(
            table,
            Some(address),
            device_key,
        ) == (table, Seq::<LiveSession>::empty()),
        first < table.len() && table[first].device_key@ != device_key ==> freed(
            table,
            Some(address),
            device_key,
        ) == (table.remove(first), seq![table[first]]),
{
    lemma_first_holder_of(table, address, first, 0);
}

proof fn lemma_first_holder_of(
    table: Seq<LiveSession>,
    address: IpAddress,
    first: int,
    start: int,
)
    requires
        0 <= start <= first <= table.len(),
        forall|i: int| 0 <= i < first ==> !holds(#[trigger] table[i], address),
        first < table.len() ==> holds(table[first], address),
    ensures
        holder(table, address, start) == if first < table.len() {
            Some(first)
        } else {
            None
        },
    decreases first - start,
{
    if start < first {
        lemma_first_holder_of(table, address, first, start + 1);
    }
}

/// Letting a device in accounts for everyone, and lets it in exactly where the profile has room
/// once those are gone who give way.
pub proof fn law_admission_accounts_for_everyone(
    table: Seq<LiveSession>,
    request: AdmissionRequest,
)
    ensures
        ({
            let outcome = admission(table, request);
            &&& outcome.kept.len() + outcome.superseded.len() + outcome.evicted.len() == table.len()
            &&& outcome.admitted <==> outcome.kept.len() < request.max_clients
            &&& outcome.superseded == by_device(table, request.device_key@, true)
        }),
{
    let device = request.device_key@;
    let others = by_device(table, device, false);
    if table.len() > 0 {
        law_own_sessions_are_superseded(table, table[0], device);
    }
    law_only_the_oldest_devices_give_way(
        others,
        request.username@,
        device,
        request.max_sessions as int,
    );
    let (limited, over) = within_limit(
        others,
        request.username@,
        device,
        request.max_sessions as int,
    );
    lemma_freed_lens(limited, fixed_v4(request), device);
    let (without4, held4) = freed(limited, fixed_v4(request), device);
    lemma_freed_lens(without4, fixed_v6(request), device);
}

proof fn lemma_freed_lens(
    table: Seq<LiveSession>,
    address: Option<IpAddress>,
    device_key: Seq<char>,
)
    ensures
        freed(table, address, device_key).0.len() + freed(table, address, device_key).1.len()
            == table.len(),
{
    if let Some(address) = address {
        lemma_holder(table, address, 0);
    }
}

/// A session is found by the address that it is known by: the first one there. Reaping takes it out,
/// and gives it back, exactly where it is still the session that is meant.
pub proof fn law_sessions_are_reaped_by_their_address(
    table: Seq<LiveSession>,
    primary: IpAddress,
    session_id: u64,
    first: int,
    device_key: Seq<char>,
)
    requires
        0 <= first <= table.len(),
        forall|i: int| 0 <= i < first ==> (#[trigger] table[i]).primary != primary,
        first < table.len() ==> table[first].primary == primary,
    ensures
        at_primary(table, primary, 0) == if first < table.len() {
            Some(first)
        } else {
            None
        },
        first < table.len() && table[first].session_id == session_id ==> reaped(
            table,
            primary,
            session_id,
        ) == table.remove(first) && reaped_session(table, primary, session_id) == Some(
            table[first],
        ),
        first == table.len() || table[first].session_id != session_id ==> reaped(
            table,
            primary,
            session_id,
        ) == table && reaped_session(table, primary, session_id) is None,
        device_is_live(table, device_key) <==> exists|i: int|
            0 <= i < table.len() && (#[trigger] table[i]).device_key@ == device_key,
{
    lemma_first_at_primary(table, primary, first, 0);
    if device_is_live(table, device_key) {
        let i = choose|i: int| 0 <= i < table.len() && is_device(#[trigger] table[i], device_key);
        assert(table[i].device_key@ == device_key);
    }
    if exists|i: int| 0 <= i < table.len() && (#[trigger] table[i]).device_key@ == device_key {
        let i = choose|i: int| 0 <= i < table.len() && (#[trigger] table[i]).device_key@
            == device_key;
        assert(is_device(table[i], device_key));
    }
}

proof fn lemma_first_at_primary(
    table: Seq<LiveSession>,
    primary: IpAddress,
    first: int,
    start: int,
)
    requires
        0 <= start <= first <= table.len(),
        forall|i: int| 0 <= i < first ==> (#[trigger] table[i]).primary != primary,
        first < table.len() ==> table[first].primary == primary,
    ensures
        at_primary(table, primary, start) == if first < table.len() {
            Some(first)
        } else {
            None
        },
    decreases first - start,
{
    if start < first {
        lemma_first_at_primary(table, primary, first, start + 1);
    }
}

/// Publishing: a session takes the place of the first one at its address, which is handed out; it
/// is news of another device exactly where that one was of another. Otherwise it is added.
pub proof fn law_sessions_are_published(
    session: LiveSession,
    replaced: Option<LiveSession>,
    stranger: bool,
    at: int,
)
    ensures
        forall|table: &mut SessionTable| #[trigger]
            call_ensures(SessionTable::publish, (table, session), (replaced, stranger)) ==> {
                let before = table@;
                let after = final(table)@;
                &&& after.last() == session
                &&& (forall|i: int|
                    0 <= i < before.len() ==> (#[trigger] before[i]).primary != session.primary)
                    ==> replaced is None && !stranger && after == before.push(session)
                &&& 0 <= at < before.len() && before[at].primary == session.primary && (forall|
                    i: int,
                |
                    0 <= i < at ==> (#[trigger] before[i]).primary != session.primary)
                    ==> replaced == Some(before[at]) && after == before.remove(at).push(session) && (
                stranger <==> before[at].device_key@ != session.device_key@)
            },
{
    assert forall|table: &mut SessionTable| #[trigger]
        call_ensures(SessionTable::publish, (table, session), (replaced, stranger)) implies ({
        let before = table@;
        let after = final(table)@;
        &&& after.last() == session
        &&& (forall|i: int|
            0 <= i < before.len() ==> (#[trigger] before[i]).primary != session.primary)
            ==> replaced is None && !stranger && after == before.push(session)
        &&& 0 <= at < before.len() && before[at].primary == session.primary && (forall|i: int|
            0 <= i < at ==> (#[trigger] before[i]).primary != session.primary) ==> replaced == Some(
            before[at],
        ) && after == before.remove(at).push(session) && (stranger <==> before[at].device_key@
            != session.device_key@)
    }) by {
        let before = table@;
        lemma_session_at_primary(before, session.primary, 0);
        match at_primary(before, session.primary, 0) {
            Some(found) => {
                assert(before[found].primary == session.primary);
                if 0 <= at < before.len() && before[at].primary == session.primary && (forall|
                    i: int,
                |
                    0 <= i < at ==> (#[trigger] before[i]).primary != session.primary) {
                    assert(found == at);
                }
            },
            None => {},
        }
    }
}

proof fn lemma_session_at_primary(table: Seq<LiveSession>, primary: IpAddress, start: int)
    requires
        0 <= start <= table.len(),
    ensures
        match at_primary(table, primary, start) {
            Some(found) => start <= found < table.len() && table[found].primary == primary
                && forall|i: int|
                start <= i < found ==> (#[trigger] table[i]).primary != primary,
            None => forall|i: int|
                start <= i < table.len() ==> (#[trigger] table[i]).primary != primary,
        },
    decreases table.len() - start,
{
    if start < table.len() && table[start].primary != primary {
        lemma_session_at_primary(table, primary, start + 1);
    }
}

/// A table starts empty.
pub proof fn law_tables_start_empty(table: SessionTable, len: usize)
    requires
        call_ensures(SessionTable::new, (), table),
        call_ensures(SessionTable::len, (&table,), len),
    ensures
        len == 0,
{
}

} // verus!
