//! Decisions about carrier sockets: which addresses to try and where to bind.
//!
//! The socket family always follows the concrete candidate, so IPv4 and IPv6 carriers share one
//! lifecycle. Opening and connecting sockets is left to the caller.

use crate::cidr::IpAddress;
use crate::ip_text::{ip_of_text, parse_ip, parse_ips, parsed_ips};
use crate::text::same_text;
use vstd::prelude::*;

verus! {

#[derive(Debug, Clone, Copy, PartialEq, Eq, Structural)]
pub struct CarrierAddress {
    pub ip: IpAddress,
    pub port: u16,
}

#[derive(Debug, Clone, Copy, PartialEq, Eq, Structural)]
pub enum WireProtocol {
    Tcp,
    Udp,
}

/// The socket that a configured protocol name asks for.
pub fn wire_protocol(name: &str) -> (protocol: Option<WireProtocol>)
    ensures
        protocol == if name@ == "tcp"@ {
            Some(WireProtocol::Tcp)
        } else if name@ == "udp"@ {
            Some(WireProtocol::Udp)
        } else {
            None
        },
{
    if same_text(name, "tcp") {
        Some(WireProtocol::Tcp)
    } else if same_text(name, "udp") {
        Some(WireProtocol::Udp)
    } else {
        None
    }
}

/// An IPv4-mapped IPv6 address stands for its IPv4 address.
pub open spec fn canonical(address: IpAddress) -> IpAddress {
    match address {
        IpAddress::V6(value) => if value / 0x1_0000_0000 == 0xffff {
            IpAddress::V4((value % 0x1_0000_0000) as u32)
        } else {
            address
        },
        IpAddress::V4(_) => address,
    }
}

/// Resolvers may expose IPv4 answers as IPv4-mapped IPv6 addresses. Their canonical value is what
/// de-duplication, socket families and MTU accounting have to describe.
pub fn canonical_carrier_ip(address: IpAddress) -> (result: IpAddress)
    ensures
        result == canonical(address),
{
    match address {
        IpAddress::V6(value) => if value / 0x1_0000_0000 == 0xffff {
            IpAddress::V4((value % 0x1_0000_0000) as u32)
        } else {
            address
        },
        IpAddress::V4(_) => address,
    }
}

/// Whether a list already holds an address, whatever the port.
pub open spec fn holds_ip(list: Seq<CarrierAddress>, ip: IpAddress) -> bool {
    exists|i: int| 0 <= i < list.len() && (#[trigger] list[i]).ip == ip
}

fn contains_ip(list: &Vec<CarrierAddress>, ip: IpAddress) -> (found: bool)
    ensures
        found == holds_ip(list@, ip),
{
    let mut i: usize = 0;
    while i < list.len()
        invariant
            i <= list@.len(),
            forall|j: int| 0 <= j < i ==> (#[trigger] list@[j]).ip != ip,
        decreases list@.len() - i,
    {
        if list[i].ip == ip {
            assert(list@[i as int].ip == ip);
            return true;
        }
        i += 1;
    }
    false
}

/// The distinct canonical addresses of a list, in its order.
pub open spec fn distinct_candidates(answers: Seq<CarrierAddress>) -> Seq<CarrierAddress>
    decreases answers.len(),
{
    if answers.len() == 0 {
        Seq::empty()
    } else {
        let front = distinct_candidates(answers.drop_last());
        let ip = canonical(answers.last().ip);
        if holds_ip(front, ip) {
            front
        } else {
            front.push(CarrierAddress { ip, port: answers.last().port })
        }
    }
}

fn keep_distinct(answers: &Vec<CarrierAddress>) -> (output: Vec<CarrierAddress>)
    ensures
        output@ == distinct_candidates(answers@),
{
    let mut output: Vec<CarrierAddress> = Vec::new();
    let mut i: usize = 0;
    assert(answers@.take(0) =~= Seq::<CarrierAddress>::empty());
    while i < answers.len()
        invariant
            i <= answers@.len(),
            output@ == distinct_candidates(answers@.take(i as int)),
        decreases answers@.len() - i,
    {
        assert(answers@.take(i + 1).drop_last() =~= answers@.take(i as int));
        assert(answers@.take(i + 1).last() == answers@[i as int]);
        let ip = canonical_carrier_ip(answers[i].ip);
        if !contains_ip(&output, ip) {
            output.push(CarrierAddress { ip, port: answers[i].port });
        }
        i += 1;
    }
    assert(answers@.take(answers@.len() as int) =~= answers@);
    output
}

/// Addresses with one port for all.
pub open spec fn with_port(ips: Seq<IpAddress>, port: u16) -> Seq<CarrierAddress> {
    ips.map_values(|ip: IpAddress| CarrierAddress { ip, port })
}

/// Every distinct candidate in stable order; `None` where there is no address at all.
///
/// Addresses that the platform supplied are authoritative. `answers`, what a lookup of the host
/// gave, counts only where the platform supplied none.
pub fn resolve_ip_candidates(
    port: u16,
    preferred: &Vec<IpAddress>,
    answers: &Vec<CarrierAddress>,
) -> (candidates: Option<Vec<CarrierAddress>>)
    ensures
        ({
            let source = if preferred@.len() > 0 {
                with_port(preferred@, port)
            } else {
                answers@
            };
            match candidates {
                Some(list) => list@ == distinct_candidates(source) && list@.len() > 0,
                None => source.len() == 0,
            }
        }),
{
    let output = if preferred.len() > 0 {
        let mut supplied: Vec<CarrierAddress> = Vec::new();
        let mut i: usize = 0;
        while i < preferred.len()
            invariant
                i <= preferred@.len(),
                supplied@ =~= with_port(preferred@, port).take(i as int),
            decreases preferred@.len() - i,
        {
            supplied.push(CarrierAddress { ip: preferred[i], port });
            i += 1;
        }
        assert(supplied@ =~= with_port(preferred@, port));
        proof {
            lemma_some_candidate(supplied@);
        }
        keep_distinct(&supplied)
    } else {
        proof {
            lemma_some_candidate(answers@);
        }
        keep_distinct(answers)
    };
    if output.len() == 0 {
        None
    } else {
        Some(output)
    }
}

proof fn lemma_some_candidate(answers: Seq<CarrierAddress>)
    ensures
        answers.len() > 0 ==> distinct_candidates(answers).len() > 0,
        distinct_candidates(answers).len() <= answers.len(),
    decreases answers.len(),
{
    if answers.len() > 0 {
        lemma_some_candidate(answers.drop_last());
    }
}

/// Candidates are canonical and no address is tried twice.
pub proof fn law_candidates_are_distinct(answers: Seq<CarrierAddress>)
    ensures
        forall|i: int|
            0 <= i < distinct_candidates(answers).len() ==> canonical(
                (#[trigger] distinct_candidates(answers)[i]).ip,
            ) == distinct_candidates(answers)[i].ip,
        forall|i: int, j: int|
            0 <= i < j < distinct_candidates(answers).len() ==> (#[trigger] distinct_candidates(
                answers,
            )[i]).ip != (#[trigger] distinct_candidates(answers)[j]).ip,
    decreases answers.len(),
{
    if answers.len() > 0 {
        law_candidates_are_distinct(answers.drop_last());
    }
}

/// Where a candidate socket is bound. The scope names the interface of a link-local address.
#[derive(Debug, Clone, Copy, PartialEq, Eq, Structural)]
pub struct BindSource {
    pub ip: IpAddress,
    pub scope_id: u32,
}

#[derive(Debug, Clone, Copy, PartialEq, Eq, Structural)]
pub enum BindError {
    /// The source address at this position is no address.
    InvalidSource(usize),
    /// The path has no source address of the socket's family.
    NoSource,
    InvalidLocalAddress,
    FamilyMismatch,
}

/// `fe80::/10`.
pub open spec fn is_link_local(value: u128) -> bool {
    value / 0x40_0000_0000_0000_0000_0000_0000_0000 == 0x3fa
}

/// The source found by looking through the addresses from `start` on.
pub open spec fn first_source(
    interface_index: u32,
    local: Seq<Option<IpAddress>>,
    want_ipv4: bool,
    start: int,
) -> Result<BindSource, BindError>
    decreases local.len() - start,
{
    if start < 0 || start >= local.len() {
        Err(BindError::NoSource)
    } else {
        match local[start] {
            None => Err(BindError::InvalidSource(start as usize)),
            Some(IpAddress::V4(value)) => if want_ipv4 {
                Ok(BindSource { ip: IpAddress::V4(value), scope_id: 0 })
            } else {
                first_source(interface_index, local, want_ipv4, start + 1)
            },
            Some(IpAddress::V6(value)) => if want_ipv4 {
                first_source(interface_index, local, want_ipv4, start + 1)
            } else {
                Ok(
                    BindSource {
                        ip: IpAddress::V6(value),
                        scope_id: if is_link_local(value) {
                            interface_index
                        } else {
                            0
                        },
                    },
                )
            },
        }
    }
}

/// Picks the first source address of the socket's family. `local` is what the texts of the path's
/// addresses denote.
pub fn candidate_source(
    interface_index: u32,
    local: &Vec<Option<IpAddress>>,
    want_ipv4: bool,
) -> (source: Result<BindSource, BindError>)
    ensures
        source == first_source(interface_index, local@, want_ipv4, 0),
{
    let mut i: usize = 0;
    while i < local.len()
        invariant
            i <= local@.len(),
            first_source(interface_index, local@, want_ipv4, 0) == first_source(
                interface_index,
                local@,
                want_ipv4,
                i as int,
            ),
        decreases local@.len() - i,
    {
        match local[i] {
            None => {
                return Err(BindError::InvalidSource(i));
            },
            Some(IpAddress::V4(value)) => {
                if want_ipv4 {
                    return Ok(BindSource { ip: IpAddress::V4(value), scope_id: 0 });
                }
            },
            Some(IpAddress::V6(value)) => {
                if !want_ipv4 {
                    let link_local = value / 0x40_0000_0000_0000_0000_0000_0000_0000 == 0x3fa;
                    return Ok(
                        BindSource {
                            ip: IpAddress::V6(value),
                            scope_id: if link_local {
                                interface_index
                            } else {
                                0
                            },
                        },
                    );
                }
            },
        }
        i += 1;
    }
    Err(BindError::NoSource)
}

/// The source of a candidate socket, from the texts that its path carries.
pub fn linux_candidate_bind_address(
    interface_index: u32,
    local_addresses: &Vec<String>,
    want_ipv4: bool,
) -> (source: Result<BindSource, BindError>)
    ensures
        source == first_source(interface_index, parsed_ips(local_addresses@), want_ipv4, 0),
{
    candidate_source(interface_index, &parse_ips(local_addresses), want_ipv4)
}

/// Where a desktop carrier binds. `local` is what the configured address denotes, if one is
/// configured at all.
pub open spec fn desktop_bind(
    local: Option<Option<IpAddress>>,
    local_port: u16,
    remote: IpAddress,
    primary: bool,
) -> Result<Option<CarrierAddress>, BindError> {
    let port: u16 = if primary {
        local_port
    } else {
        0
    };
    match local {
        None => if port == 0 {
            Ok(None)
        } else {
            Ok(
                Some(
                    CarrierAddress {
                        ip: if remote is V4 {
                            IpAddress::V4(0)
                        } else {
                            IpAddress::V6(0)
                        },
                        port,
                    },
                ),
            )
        },
        Some(None) => Err(BindError::InvalidLocalAddress),
        Some(Some(ip)) => if (ip is V4) != (remote is V4) {
            Err(BindError::FamilyMismatch)
        } else {
            Ok(Some(CarrierAddress { ip, port }))
        },
    }
}

/// Keeps the configured source interface on every desktop carrier while reserving a fixed local
/// port for the primary one: two simultaneous TCP connections to one peer cannot share a
/// four-tuple, so the others bind port 0.
pub fn choose_desktop_bind(
    local: Option<Option<IpAddress>>,
    local_port: u16,
    remote: IpAddress,
    primary: bool,
) -> (bind: Result<Option<CarrierAddress>, BindError>)
    ensures
        bind == desktop_bind(local, local_port, remote, primary),
{
    let port: u16 = if primary {
        local_port
    } else {
        0
    };
    match local {
        None => {
            if port == 0 {
                return Ok(None);
            }
            let ip = if remote.is_ipv4() {
                IpAddress::V4(0)
            } else {
                IpAddress::V6(0)
            };
            Ok(Some(CarrierAddress { ip, port }))
        },
        Some(None) => Err(BindError::InvalidLocalAddress),
        Some(Some(ip)) => {
            if ip.is_ipv4() != remote.is_ipv4() {
                return Err(BindError::FamilyMismatch);
            }
            Ok(Some(CarrierAddress { ip, port }))
        },
    }
}

/// Where a desktop carrier binds, from the configured text.
pub fn desktop_bind_address(
    local_address: &Option<String>,
    local_port: u16,
    remote: IpAddress,
    primary: bool,
) -> (bind: Result<Option<CarrierAddress>, BindError>)
    ensures
        bind == desktop_bind(
            match *local_address {
                Some(text) => Some(ip_of_text(text@)),
                None => None,
            },
            local_port,
            remote,
            primary,
        ),
{
    let local = match local_address {
        Some(text) => Some(parse_ip(text.as_str())),
        None => None,
    };
    choose_desktop_bind(local, local_port, remote, primary)
}

/// An address `::ffff:a.b.c.d` is the IPv4 address `a.b.c.d`; every other address stands for
/// itself, and standing for an address is final.
pub proof fn law_mapped_addresses_are_ipv4(embedded: u32, other: u128, address: IpAddress)
    requires
        other < 0xffff_0000_0000 || other >= 0x1_0000_0000_0000,
    ensures
        canonical(IpAddress::V6((0xffff_0000_0000 + embedded) as u128)) == IpAddress::V4(embedded),
        canonical(IpAddress::V6(other)) == IpAddress::V6(other),
        canonical(IpAddress::V4(embedded)) == IpAddress::V4(embedded),
        canonical(canonical(address)) == canonical(address),
{
    let mapped: int = 0xffff_0000_0000 + embedded;
    assert(mapped / 0x1_0000_0000 == 0xffff && mapped % 0x1_0000_0000 == embedded);
}

/// Every answer is tried: its canonical address is among the candidates, and a candidate has the
/// port of the first answer that names its address.
pub proof fn law_every_answer_is_tried(answers: Seq<CarrierAddress>, at: int)
    requires
        0 <= at < answers.len(),
    ensures
        exists|i: int|
            0 <= i < distinct_candidates(answers).len() && (#[trigger] distinct_candidates(
                answers,
            )[i]).ip == canonical(answers[at].ip),
        (forall|j: int|
            0 <= j < at ==> canonical((#[trigger] answers[j]).ip) != canonical(answers[at].ip))
            ==> distinct_candidates(answers).contains(
            CarrierAddress { ip: canonical(answers[at].ip), port: answers[at].port },
        ),
    decreases answers.len(),
{
    let front = answers.drop_last();
    let before = distinct_candidates(front);
    let whole = distinct_candidates(answers);
    let ip = canonical(answers[at].ip);
    assert forall|i: int| 0 <= i < before.len() implies whole[i] == before[i] by {}
    if at < answers.len() - 1 {
        law_every_answer_is_tried(front, at);
        let i = choose|i: int| 0 <= i < before.len() && (#[trigger] before[i]).ip == ip;
        assert(whole[i].ip == ip);
        if forall|j: int| 0 <= j < at ==> canonical((#[trigger] answers[j]).ip) != ip {
            assert forall|j: int| 0 <= j < at implies canonical((#[trigger] front[j]).ip)
                != ip by {
                assert(front[j] == answers[j]);
            }
            let wanted = CarrierAddress { ip, port: answers[at].port };
            let k = choose|k: int| 0 <= k < before.len() && before[k] == wanted;
            assert(whole[k] == wanted);
        }
    } else {
        if holds_ip(before, ip) {
            let i = choose|i: int| 0 <= i < before.len() && (#[trigger] before[i]).ip == ip;
            assert(whole[i].ip == ip);
            if forall|j: int| 0 <= j < at ==> canonical((#[trigger] answers[j]).ip) != ip {
                law_candidates_come_from_answers(front, i);
                let j = choose|j: int|
                    0 <= j < front.len() && canonical((#[trigger] front[j]).ip) == before[i].ip;
                assert(front[j] == answers[j]);
                assert(false);
            }
        } else {
            assert(whole[before.len() as int].ip == ip);
            assert(whole[before.len() as int] == (CarrierAddress {
                ip,
                port: answers[at].port,
            }));
        }
    }
}

/// No candidate is made up: its address and its port come from one answer.
pub proof fn law_candidates_come_from_answers(answers: Seq<CarrierAddress>, i: int)
    requires
        0 <= i < distinct_candidates(answers).len(),
    ensures
        exists|j: int|
            0 <= j < answers.len() && canonical((#[trigger] answers[j]).ip)
                == distinct_candidates(answers)[i].ip && answers[j].port == distinct_candidates(
                answers,
            )[i].port,
    decreases answers.len(),
{
    let front = answers.drop_last();
    if i < distinct_candidates(front).len() {
        law_candidates_come_from_answers(front, i);
        let j = choose|j: int|
            0 <= j < front.len() && canonical((#[trigger] front[j]).ip) == distinct_candidates(
                front,
            )[i].ip && front[j].port == distinct_candidates(front)[i].port;
        assert(front[j] == answers[j]);
    } else {
        assert(answers[answers.len() - 1] == answers.last());
    }
}

/// Later answers never move an earlier candidate: the candidates of a list begin with those of
/// its beginning.
pub proof fn law_candidates_keep_their_order(
    answers: Seq<CarrierAddress>,
    later: Seq<CarrierAddress>,
)
    ensures
        distinct_candidates(answers).is_prefix_of(distinct_candidates(answers + later)),
    decreases later.len(),
{
    if later.len() == 0 {
        assert(answers + later =~= answers);
    } else {
        law_candidates_keep_their_order(answers, later.drop_last());
        assert((answers + later).drop_last() =~= answers + later.drop_last());
        let shorter = distinct_candidates(answers + later.drop_last());
        let whole = distinct_candidates(answers + later);
        assert(shorter.is_prefix_of(whole));
        assert(distinct_candidates(answers) =~= whole.subrange(
            0,
            distinct_candidates(answers).len() as int,
        ));
    }
}

/// Link-local addresses are those from `fe80::` up to `febf:ffff:...:ffff`.
pub proof fn law_link_local_addresses(value: u128)
    ensures
        is_link_local(value) <==> 0xfe80_0000_0000_0000_0000_0000_0000_0000 <= value
            <= 0xfebf_ffff_ffff_ffff_ffff_ffff_ffff_ffff,
{
}

/// A candidate socket is bound to the first address of its family where every address before it
/// is one; the interface is named for a link-local source and for no other.
pub proof fn law_the_first_fitting_source_is_bound(
    interface_index: u32,
    local: Seq<Option<IpAddress>>,
    want_ipv4: bool,
    at: int,
)
    requires
        0 <= at < local.len(),
        local[at] is Some,
        (local[at]->Some_0 is V4) == want_ipv4,
        forall|i: int|
            0 <= i < at ==> (#[trigger] local[i]) is Some && (local[i]->Some_0 is V4)
                != want_ipv4,
    ensures
        ({
            let source = first_source(interface_index, local, want_ipv4, 0);
            &&& source is Ok
            &&& source->Ok_0.ip == local[at]->Some_0
            &&& match local[at]->Some_0 {
                IpAddress::V4(_) => source->Ok_0.scope_id == 0,
                IpAddress::V6(value) => {
                    let scoped = 0xfe80_0000_0000_0000_0000_0000_0000_0000 <= value
                        <= 0xfebf_ffff_ffff_ffff_ffff_ffff_ffff_ffff;
                    &&& scoped ==> source->Ok_0.scope_id == interface_index
                    &&& !scoped ==> source->Ok_0.scope_id == 0
                },
            }
        }),
{
    lemma_sources_are_passed_over(interface_index, local, want_ipv4, 0, at);
    if let IpAddress::V6(value) = local[at]->Some_0 {
        law_link_local_addresses(value);
    }
}

proof fn lemma_sources_are_passed_over(
    interface_index: u32,
    local: Seq<Option<IpAddress>>,
    want_ipv4: bool,
    start: int,
    at: int,
)
    requires
        0 <= start <= at <= local.len(),
        forall|i: int|
            start <= i < at ==> (#[trigger] local[i]) is Some && (local[i]->Some_0 is V4)
                != want_ipv4,
    ensures
        first_source(interface_index, local, want_ipv4, start) == first_source(
            interface_index,
            local,
            want_ipv4,
            at,
        ),
    decreases at - start,
{
    if start < at {
        assert(local[start] is Some);
        lemma_sources_are_passed_over(interface_index, local, want_ipv4, start + 1, at);
    }
}

/// A path without a source of the family has none; one whose addresses cannot be read up to the
/// first fitting one is refused, with the position of the first that cannot.
pub proof fn law_paths_without_a_source(
    interface_index: u32,
    local: Seq<Option<IpAddress>>,
    want_ipv4: bool,
    at: int,
)
    requires
        0 <= at <= local.len() <= usize::MAX,
        forall|i: int|
            0 <= i < at ==> (#[trigger] local[i]) is Some && (local[i]->Some_0 is V4)
                != want_ipv4,
    ensures
        at == local.len() ==> first_source(interface_index, local, want_ipv4, 0) == Err::<
            BindSource,
            BindError,
        >(BindError::NoSource),
        at < local.len() && local[at] is None ==> first_source(interface_index, local, want_ipv4, 0)
            == Err::<BindSource, BindError>(BindError::InvalidSource(at as usize)),
{
    lemma_sources_are_passed_over(interface_index, local, want_ipv4, 0, at);
}

/// Every desktop carrier binds the configured address, provided it is of the server's family. The
/// primary one takes the configured port, the others any; with neither an address nor a port to
/// keep nothing is bound.
pub proof fn law_desktop_carriers_bind_what_is_configured(
    ip: IpAddress,
    port: u16,
    remote: IpAddress,
)
    ensures
        (ip is V4) == (remote is V4) ==> desktop_bind(Some(Some(ip)), port, remote, true) == Ok::<
            Option<CarrierAddress>,
            BindError,
        >(Some(CarrierAddress { ip, port })),
        (ip is V4) == (remote is V4) ==> desktop_bind(Some(Some(ip)), port, remote, false) == Ok::<
            Option<CarrierAddress>,
            BindError,
        >(Some(CarrierAddress { ip, port: 0 })),
        (ip is V4) != (remote is V4) ==> forall|primary: bool|
            desktop_bind(Some(Some(ip)), port, remote, primary) == Err::<
                Option<CarrierAddress>,
                BindError,
            >(BindError::FamilyMismatch),
        forall|primary: bool|
            desktop_bind(Some(None), port, remote, primary) == Err::<
                Option<CarrierAddress>,
                BindError,
            >(BindError::InvalidLocalAddress),
        desktop_bind(None, port, remote, false) == Ok::<Option<CarrierAddress>, BindError>(None),
        desktop_bind(None, 0, remote, true) == Ok::<Option<CarrierAddress>, BindError>(None),
        port != 0 && remote is V4 ==> desktop_bind(None, port, remote, true) == Ok::<
            Option<CarrierAddress>,
            BindError,
        >(Some(CarrierAddress { ip: IpAddress::V4(0), port })),
        port != 0 && remote is V6 ==> desktop_bind(None, port, remote, true) == Ok::<
            Option<CarrierAddress>,
            BindError,
        >(Some(CarrierAddress { ip: IpAddress::V6(0), port })),
{
}

/// Two names ask for a socket, exactly as they are spelled.
pub proof fn law_protocols_are_named(name: &str, protocol: Option<WireProtocol>)
    requires
        call_ensures(wire_protocol, (name,), protocol),
    ensures
        protocol == Some(WireProtocol::Tcp) <==> name@ == "tcp"@,
        protocol == Some(WireProtocol::Udp) <==> name@ == "udp"@,
        protocol is None <==> name@ != "tcp"@ && name@ != "udp"@,
{
    reveal_strlit("tcp");
    reveal_strlit("udp");
    assert("tcp"@[0] == 't' && "udp"@[0] == 'u');
}

/// The platform's addresses are authoritative: with one of them the lookup does not count, and
/// every one gets the port of the server. There are candidates exactly where there is an address.
pub proof fn law_platform_addresses_come_first(
    port: u16,
    preferred: Vec<IpAddress>,
    answers: Vec<CarrierAddress>,
    candidates: Option<Vec<CarrierAddress>>,
    i: int,
)
    requires
        call_ensures(resolve_ip_candidates, (port, &preferred, &answers), candidates),
    ensures
        candidates is Some <==> preferred@.len() > 0 || answers@.len() > 0,
        preferred@.len() > 0 && 0 <= i < candidates->Some_0@.len() ==> candidates->Some_0@[i].port
            == port && exists|j: int|
            0 <= j < preferred@.len() && canonical(#[trigger] preferred@[j])
                == candidates->Some_0@[i].ip,
        preferred@.len() == 0 && candidates is Some ==> candidates->Some_0@ == distinct_candidates(
            answers@,
        ),
{
    if preferred@.len() > 0 && 0 <= i < candidates->Some_0@.len() {
        let source = with_port(preferred@, port);
        law_candidates_come_from_answers(source, i);
        let j = choose|j: int|
            0 <= j < source.len() && canonical((#[trigger] source[j]).ip) == distinct_candidates(
                source,
            )[i].ip && source[j].port == distinct_candidates(source)[i].port;
        assert(canonical(preferred@[j]) == candidates->Some_0@[i].ip);
    }
}

} // verus!
