//! Values of the network plan that is learned during authentication, and the choice of its
//! resolvers.

use crate::cidr::IpAddress;
use crate::ip_text::{ip_of_text, parse_ip};
use crate::text::{decimal_value, parse_decimal, same_text};
use vstd::prelude::*;

verus! {

#[derive(Debug, Clone, Copy, PartialEq, Eq, Structural)]
pub enum NetworkAddressFamily {
    Ipv4,
    Ipv6,
}

#[derive(Debug, Clone, Copy, PartialEq, Eq, Structural)]
pub enum NetworkFamilyMode {
    Ipv4,
    Dual,
    Ipv6,
}

/// One address that the server assigned to this client.
#[derive(Debug)]
pub struct NetworkAddress {
    pub family: NetworkAddressFamily,
    pub address: String,
    pub prefix_len: u8,
    pub on_link_prefix_len: u8,
    pub gateway: Option<String>,
}

#[derive(Debug)]
pub struct NetworkDns {
    pub address: String,
    pub port: u16,
}

/// The resolver settings of a client profile.
#[derive(Debug)]
pub struct ClientDnsConfig {
    pub mode: String,
    pub servers: Vec<String>,
    pub fallback_servers: Vec<String>,
}

/// A resolver as it was configured or pushed, with the address that its text denotes.
#[derive(Debug)]
pub struct DnsEntry {
    pub address: String,
    pub port: u16,
    pub ip: Option<IpAddress>,
}

/// A resolver of the plan.
#[derive(Debug)]
pub struct PlannedDns {
    pub address: String,
    pub port: u16,
    pub ip: IpAddress,
}

pub struct DnsView {
    pub address: Seq<char>,
    pub port: u16,
    pub ip: IpAddress,
}

impl View for PlannedDns {
    type V = DnsView;

    open spec fn view(&self) -> DnsView {
        DnsView { address: self.address@, port: self.port, ip: self.ip }
    }
}

pub open spec fn dns_views(servers: Seq<PlannedDns>) -> Seq<DnsView> {
    servers.map_values(|server: PlannedDns| server@)
}

#[derive(Debug, Clone, Copy, PartialEq, Eq, Structural)]
pub enum DnsSource {
    Client,
    Pushed,
    Platform,
    Fallback,
}

#[derive(Debug, Clone, Copy, PartialEq, Eq, Structural)]
pub enum DnsError {
    /// The text of this server is no address.
    InvalidServer { source: DnsSource, index: usize },
    /// An IPv6 server cannot be reached in a legacy IPv4 tunnel.
    Ipv6InLegacyTunnel { source: DnsSource, index: usize },
    InvalidPushedPort,
    TooManyServers,
    ZeroPort { source: DnsSource, index: usize },
    /// The tunnel has no gateway of the server's family.
    FamilyAbsent { source: DnsSource, index: usize },
}

pub open spec fn opt_text(text: Option<String>) -> Option<Seq<char>> {
    match text {
        Some(text) => Some(text@),
        None => None,
    }
}

pub open spec fn family_of(address: IpAddress) -> NetworkAddressFamily {
    match address {
        IpAddress::V4(_) => NetworkAddressFamily::Ipv4,
        IpAddress::V6(_) => NetworkAddressFamily::Ipv6,
    }
}

pub fn ip_family(address: IpAddress) -> (family: NetworkAddressFamily)
    ensures
        family == family_of(address),
{
    match address {
        IpAddress::V4(_) => NetworkAddressFamily::Ipv4,
        IpAddress::V6(_) => NetworkAddressFamily::Ipv6,
    }
}

pub open spec fn has_family(
    addresses: Seq<NetworkAddress>,
    family: NetworkAddressFamily,
) -> bool {
    exists|i: int| 0 <= i < addresses.len() && (#[trigger] addresses[i]).family == family
}

/// The gateway of the first address of a family.
pub open spec fn family_gateway(
    addresses: Seq<NetworkAddress>,
    family: NetworkAddressFamily,
) -> Option<Seq<char>>
    decreases addresses.len(),
{
    if addresses.len() == 0 {
        None
    } else if addresses[0].family == family {
        opt_text(addresses[0].gateway)
    } else {
        family_gateway(addresses.drop_first(), family)
    }
}

/// Whether the tunnel has an address of this family.
pub fn family_is_active(addresses: &Vec<NetworkAddress>, family: NetworkAddressFamily) -> (active:
    bool)
    ensures
        active == has_family(addresses@, family),
{
    let mut i: usize = 0;
    while i < addresses.len()
        invariant
            i <= addresses@.len(),
            forall|j: int| 0 <= j < i ==> (#[trigger] addresses@[j]).family != family,
        decreases addresses@.len() - i,
    {
        if addresses[i].family == family {
            return true;
        }
        i += 1;
    }
    false
}

/// The gateway that routes of this family go through: that of the first address of the family.
pub fn gateway_for_family(addresses: &Vec<NetworkAddress>, family: NetworkAddressFamily) -> (
    gateway: Option<String>)
    ensures
        opt_text(gateway) == family_gateway(addresses@, family),
{
    let mut i: usize = 0;
    assert(addresses@.skip(0) =~= addresses@);
    while i < addresses.len()
        invariant
            i <= addresses@.len(),
            family_gateway(addresses@, family) == family_gateway(
                addresses@.skip(i as int),
                family,
            ),
        decreases addresses@.len() - i,
    {
        assert(addresses@.skip(i as int)[0] == addresses@[i as int]);
        assert(addresses@.skip(i as int).drop_first() =~= addresses@.skip(i + 1));
        if addresses[i].family == family {
            return match &addresses[i].gateway {
                Some(gateway) => Some(gateway.clone()),
                None => None,
            };
        }
        i += 1;
    }
    None
}

/// The gateway for a route to `address`.
pub fn gateway_for_ip(address: IpAddress, addresses: &Vec<NetworkAddress>) -> (gateway: Option<
    String,
>)
    ensures
        opt_text(gateway) == family_gateway(addresses@, family_of(address)),
{
    gateway_for_family(addresses, ip_family(address))
}

/// What each text of a list denotes, as resolvers on port 53.
pub open spec fn resolved(texts: Seq<String>) -> Seq<DnsEntry> {
    texts.map_values(|text: String| DnsEntry { address: text, port: 53, ip: ip_of_text(text@) })
}

fn resolve_list(texts: &Vec<String>) -> (entries: Vec<DnsEntry>)
    ensures
        entries@ == resolved(texts@),
{
    let mut entries: Vec<DnsEntry> = Vec::new();
    let mut i: usize = 0;
    while i < texts.len()
        invariant
            i <= texts@.len(),
            entries@ =~= resolved(texts@).take(i as int),
        decreases texts@.len() - i,
    {
        let ip = parse_ip(texts[i].as_str());
        entries.push(DnsEntry { address: texts[i].clone(), port: 53, ip });
        i += 1;
    }
    assert(resolved(texts@).take(texts@.len() as int) =~= resolved(texts@));
    entries
}

/// What each pushed resolver denotes.
pub open spec fn resolved_servers(servers: Seq<NetworkDns>) -> Seq<DnsEntry> {
    servers.map_values(
        |server: NetworkDns|
            DnsEntry {
                address: server.address,
                port: server.port,
                ip: ip_of_text(server.address@),
            },
    )
}

pub fn resolve_servers(servers: &Vec<NetworkDns>) -> (entries: Vec<DnsEntry>)
    ensures
        entries@ == resolved_servers(servers@),
{
    let mut entries: Vec<DnsEntry> = Vec::new();
    let mut i: usize = 0;
    while i < servers.len()
        invariant
            i <= servers@.len(),
            entries@ =~= resolved_servers(servers@).take(i as int),
        decreases servers@.len() - i,
    {
        let ip = parse_ip(servers[i].address.as_str());
        entries.push(
            DnsEntry { address: servers[i].address.clone(), port: servers[i].port, ip },
        );
        i += 1;
    }
    assert(resolved_servers(servers@).take(servers@.len() as int) =~= resolved_servers(servers@));
    entries
}

/// All entries as resolvers, or the first that is no address.
pub open spec fn dns_listed(entries: Seq<DnsEntry>, source: DnsSource) -> Result<
    Seq<DnsView>,
    DnsError,
>
    decreases entries.len(),
{
    if entries.len() == 0 {
        Ok(Seq::empty())
    } else {
        match dns_listed(entries.drop_last(), source) {
            Err(error) => Err(error),
            Ok(front) => match entries.last().ip {
                None => Err(
                    DnsError::InvalidServer { source, index: (entries.len() - 1) as usize },
                ),
                Some(ip) => Ok(
                    front.push(
                        DnsView { address: entries.last().address@, port: entries.last().port, ip },
                    ),
                ),
            },
        }
    }
}

proof fn lemma_dns_error_stays(entries: Seq<DnsEntry>, source: DnsSource, i: int)
    requires
        0 <= i <= entries.len(),
        dns_listed(entries.take(i), source) is Err,
    ensures
        dns_listed(entries, source) == dns_listed(entries.take(i), source),
    decreases entries.len() - i,
{
    if i == entries.len() {
        assert(entries.take(i) =~= entries);
    } else {
        assert(entries.take(i + 1).drop_last() =~= entries.take(i));
        lemma_dns_error_stays(entries, source, i + 1);
    }
}

pub fn dns_list(entries: &Vec<DnsEntry>, source: DnsSource) -> (result: Result<
    Vec<PlannedDns>,
    DnsError,
>)
    ensures
        match result {
            Ok(servers) => dns_listed(entries@, source) == Ok::<Seq<DnsView>, DnsError>(
                dns_views(servers@),
            ),
            Err(error) => dns_listed(entries@, source) == Err::<Seq<DnsView>, DnsError>(error),
        },
{
    let mut servers: Vec<PlannedDns> = Vec::new();
    let mut i: usize = 0;
    proof {
        assert(entries@.take(0) =~= Seq::<DnsEntry>::empty());
        assert(dns_views(servers@) =~= Seq::<DnsView>::empty());
    }
    while i < entries.len()
        invariant
            i <= entries@.len(),
            dns_listed(entries@.take(i as int), source) == Ok::<Seq<DnsView>, DnsError>(
                dns_views(servers@),
            ),
        decreases entries@.len() - i,
    {
        let ghost before = servers@;
        proof {
            assert(entries@.take(i + 1).drop_last() =~= entries@.take(i as int));
            assert(entries@.take(i + 1).last() == entries@[i as int]);
        }
        match entries[i].ip {
            None => {
                proof {
                    lemma_dns_error_stays(entries@, source, i + 1);
                }
                return Err(DnsError::InvalidServer { source, index: i });
            },
            Some(ip) => {
                servers.push(
                    PlannedDns { address: entries[i].address.clone(), port: entries[i].port, ip },
                );
                assert(dns_views(servers@) =~= dns_views(before).push(
                    servers@[servers@.len() - 1]@,
                ));
            },
        }
        i += 1;
    }
    assert(entries@.take(entries@.len() as int) =~= entries@);
    Ok(servers)
}

/// The position of the first IPv6 server.
pub open spec fn first_ipv6(servers: Seq<DnsView>) -> Option<int>
    decreases servers.len(),
{
    if servers.len() == 0 {
        None
    } else {
        match first_ipv6(servers.drop_last()) {
            Some(i) => Some(i),
            None => if servers.last().ip is V6 {
                Some(servers.len() - 1)
            } else {
                None
            },
        }
    }
}

proof fn lemma_first_ipv6(servers: Seq<DnsView>, i: int)
    requires
        0 <= i <= servers.len(),
        forall|j: int| 0 <= j < i ==> (#[trigger] servers[j]).ip is V4,
    ensures
        i < servers.len() && servers[i].ip is V6 ==> first_ipv6(servers) == Some(i),
        i == servers.len() ==> first_ipv6(servers) is None,
    decreases servers.len(),
{
    if servers.len() > 0 {
        let front = servers.drop_last();
        if i == servers.len() {
            lemma_first_ipv6(front, i - 1);
        } else {
            lemma_first_ipv6(front, i);
        }
    }
}

/// The entries as resolvers of a tunnel that carries IPv4 only.
pub open spec fn ipv4_dns_listed(entries: Seq<DnsEntry>, source: DnsSource) -> Result<
    Seq<DnsView>,
    DnsError,
> {
    match dns_listed(entries, source) {
        Err(error) => Err(error),
        Ok(servers) => match first_ipv6(servers) {
            Some(i) => Err(DnsError::Ipv6InLegacyTunnel { source, index: i as usize }),
            None => Ok(servers),
        },
    }
}

pub fn ipv4_dns_list(entries: &Vec<DnsEntry>, source: DnsSource) -> (result: Result<
    Vec<PlannedDns>,
    DnsError,
>)
    ensures
        match result {
            Ok(servers) => ipv4_dns_listed(entries@, source) == Ok::<Seq<DnsView>, DnsError>(
                dns_views(servers@),
            ),
            Err(error) => ipv4_dns_listed(entries@, source) == Err::<Seq<DnsView>, DnsError>(
                error,
            ),
        },
{
    let servers = match dns_list(entries, source) {
        Ok(servers) => servers,
        Err(error) => return Err(error),
    };
    let mut i: usize = 0;
    while i < servers.len()
        invariant
            i <= servers@.len(),
            dns_listed(entries@, source) == Ok::<Seq<DnsView>, DnsError>(dns_views(servers@)),
            forall|j: int| 0 <= j < i ==> (#[trigger] dns_views(servers@)[j]).ip is V4,
        decreases servers@.len() - i,
    {
        if !servers[i].ip.is_ipv4() {
            proof {
                lemma_first_ipv6(dns_views(servers@), i as int);
            }
            return Err(DnsError::Ipv6InLegacyTunnel { source, index: i });
        }
        i += 1;
    }
    proof {
        lemma_first_ipv6(dns_views(servers@), i as int);
    }
    Ok(servers)
}

/// The resolvers of a legacy IPv4 plan.
pub open spec fn legacy_dns(
    mode: Seq<char>,
    client: Seq<DnsEntry>,
    fallback: Seq<DnsEntry>,
    platform: Seq<DnsEntry>,
    pushed: Seq<char>,
    pushed_ip: Option<IpAddress>,
    pushed_port: Seq<char>,
    tunnel_subnet: Option<(u32, u32)>,
    full_tunnel: bool,
) -> Result<Seq<DnsView>, DnsError> {
    let last_resort = if platform.len() > 0 {
        ipv4_dns_listed(platform, DnsSource::Platform)
    } else {
        ipv4_dns_listed(fallback, DnsSource::Fallback)
    };
    if mode != "tunnel"@ {
        Ok(Seq::empty())
    } else if client.len() > 0 {
        ipv4_dns_listed(client, DnsSource::Client)
    } else if pushed.len() == 0 {
        last_resort
    } else {
        match pushed_ip {
            Some(IpAddress::V6(_)) => Err(
                DnsError::Ipv6InLegacyTunnel { source: DnsSource::Pushed, index: 0 },
            ),
            Some(IpAddress::V4(server)) => if pushed[0] == '-' {
                Ok(Seq::empty())
            } else {
                match decimal_value(pushed_port, 65535) {
                    None => Err(DnsError::InvalidPushedPort),
                    Some(port) => if port == 0 {
                        Err(DnsError::InvalidPushedPort)
                    } else if full_tunnel || (tunnel_subnet matches Some((address, mask)) && server
                        & mask == address & mask) {
                        Ok(
                            seq![
                                DnsView {
                                    address: pushed,
                                    port: port as u16,
                                    ip: IpAddress::V4(server),
                                },
                            ],
                        )
                    } else {
                        last_resort
                    },
                }
            },
            None => Ok(Seq::empty()),
        }
    }
}

/// Chooses the resolvers of a legacy IPv4 plan: the client's own, else the pushed one where the
/// tunnel reaches it, else those of the platform, else the client's fallback.
pub fn choose_legacy_dns(
    mode: &str,
    client: &Vec<DnsEntry>,
    fallback: &Vec<DnsEntry>,
    platform: &Vec<DnsEntry>,
    pushed: &str,
    pushed_ip: Option<IpAddress>,
    pushed_port: &str,
    tunnel_subnet: Option<(u32, u32)>,
    full_tunnel: bool,
) -> (result: Result<Vec<PlannedDns>, DnsError>)
    ensures
        ({
            let expected = legacy_dns(
                mode@,
                client@,
                fallback@,
                platform@,
                pushed@,
                pushed_ip,
                pushed_port@,
                tunnel_subnet,
                full_tunnel,
            );
            match result {
                Ok(servers) => expected == Ok::<Seq<DnsView>, DnsError>(dns_views(servers@)),
                Err(error) => expected == Err::<Seq<DnsView>, DnsError>(error),
            }
        }),
{
    if !same_text(mode, "tunnel") {
        let none: Vec<PlannedDns> = Vec::new();
        assert(dns_views(none@) =~= Seq::<DnsView>::empty());
        return Ok(none);
    }
    if client.len() > 0 {
        return ipv4_dns_list(client, DnsSource::Client);
    }
    if pushed.unicode_len() > 0 {
        let server: u32 = match pushed_ip {
            Some(IpAddress::V6(_)) => return Err(
                DnsError::Ipv6InLegacyTunnel { source: DnsSource::Pushed, index: 0 },
            ),
            Some(IpAddress::V4(server)) => {
                if pushed.get_char(0) == '-' {
                    let none: Vec<PlannedDns> = Vec::new();
                    assert(dns_views(none@) =~= Seq::<DnsView>::empty());
                    return Ok(none);
                }
                server
            },
            None => {
                let none: Vec<PlannedDns> = Vec::new();
                assert(dns_views(none@) =~= Seq::<DnsView>::empty());
                return Ok(none);
            },
        };
        let port: u16 = match parse_decimal(pushed_port, 65535) {
            None => return Err(DnsError::InvalidPushedPort),
            Some(port) => port as u16,
        };
        if port == 0 {
            return Err(DnsError::InvalidPushedPort);
        }
        let reachable = match tunnel_subnet {
            Some((address, mask)) => server & mask == address & mask,
            None => false,
        };
        if full_tunnel || reachable {
            let mut servers: Vec<PlannedDns> = Vec::new();
            servers.push(PlannedDns { address: pushed.to_owned(), port, ip: IpAddress::V4(server) });
            assert(dns_views(servers@) =~= seq![
                DnsView { address: pushed@, port, ip: IpAddress::V4(server) },
            ]);
            return Ok(servers);
        }
    }
    if platform.len() > 0 {
        return ipv4_dns_list(platform, DnsSource::Platform);
    }
    ipv4_dns_list(fallback, DnsSource::Fallback)
}

/// Resolves the DNS part of a legacy plan from its texts.
pub fn planned_dns_servers(
    config: &ClientDnsConfig,
    pushed_server: &str,
    pushed_port: &str,
    tunnel_subnet: Option<(u32, u32)>,
    full_tunnel: bool,
    platform_fallback: &Vec<String>,
) -> (result: Result<Vec<PlannedDns>, DnsError>)
    ensures
        ({
            let expected = legacy_dns(
                config.mode@,
                resolved(config.servers@),
                resolved(config.fallback_servers@),
                resolved(platform_fallback@),
                pushed_server@,
                ip_of_text(pushed_server@),
                pushed_port@,
                tunnel_subnet,
                full_tunnel,
            );
            match result {
                Ok(servers) => expected == Ok::<Seq<DnsView>, DnsError>(dns_views(servers@)),
                Err(error) => expected == Err::<Seq<DnsView>, DnsError>(error),
            }
        }),
{
    choose_legacy_dns(
        config.mode.as_str(),
        &resolve_list(&config.servers),
        &resolve_list(&config.fallback_servers),
        &resolve_list(platform_fallback),
        pushed_server,
        parse_ip(pushed_server),
        pushed_port,
        tunnel_subnet,
        full_tunnel,
    )
}

/// What keeps one candidate from being a resolver of the tunnel.
pub open spec fn candidate_problem(
    candidate: DnsEntry,
    source: DnsSource,
    addresses: Seq<NetworkAddress>,
    index: int,
) -> Option<DnsError> {
    if candidate.port == 0 {
        Some(DnsError::ZeroPort { source, index: index as usize })
    } else {
        match candidate.ip {
            None => Some(DnsError::InvalidServer { source, index: index as usize }),
            Some(ip) => if family_gateway(addresses, family_of(ip)) is None {
                Some(DnsError::FamilyAbsent { source, index: index as usize })
            } else {
                None
            },
        }
    }
}

/// All candidates as resolvers, or the first problem among them.
pub open spec fn dns_checked(
    candidates: Seq<DnsEntry>,
    source: DnsSource,
    addresses: Seq<NetworkAddress>,
) -> Result<Seq<DnsView>, DnsError>
    decreases candidates.len(),
{
    if candidates.len() == 0 {
        Ok(Seq::empty())
    } else {
        match dns_checked(candidates.drop_last(), source, addresses) {
            Err(error) => Err(error),
            Ok(front) => match candidate_problem(
                candidates.last(),
                source,
                addresses,
                candidates.len() - 1,
            ) {
                Some(error) => Err(error),
                None => Ok(
                    front.push(
                        DnsView {
                            address: candidates.last().address@,
                            port: candidates.last().port,
                            ip: candidates.last().ip->Some_0,
                        },
                    ),
                ),
            },
        }
    }
}

proof fn lemma_dns_problem_stays(
    candidates: Seq<DnsEntry>,
    source: DnsSource,
    addresses: Seq<NetworkAddress>,
    i: int,
)
    requires
        0 <= i <= candidates.len(),
        dns_checked(candidates.take(i), source, addresses) is Err,
    ensures
        dns_checked(candidates, source, addresses) == dns_checked(
            candidates.take(i),
            source,
            addresses,
        ),
    decreases candidates.len() - i,
{
    if i == candidates.len() {
        assert(candidates.take(i) =~= candidates);
    } else {
        assert(candidates.take(i + 1).drop_last() =~= candidates.take(i));
        lemma_dns_problem_stays(candidates, source, addresses, i + 1);
    }
}

/// The resolvers of a plan with self-described addresses.
pub open spec fn family_dns(
    mode: Seq<char>,
    client: Seq<DnsEntry>,
    fallback: Seq<DnsEntry>,
    platform: Seq<DnsEntry>,
    pushed: Seq<DnsEntry>,
    addresses: Seq<NetworkAddress>,
) -> Result<Seq<DnsView>, DnsError> {
    let (entries, source) = if client.len() > 0 {
        (client, DnsSource::Client)
    } else if pushed.len() > 0 {
        (pushed, DnsSource::Pushed)
    } else if platform.len() > 0 {
        (platform, DnsSource::Platform)
    } else {
        (fallback, DnsSource::Fallback)
    };
    if mode != "tunnel"@ {
        Ok(Seq::empty())
    } else if !(source is Pushed) && dns_listed(entries, source) is Err {
        Err(dns_listed(entries, source)->Err_0)
    } else if entries.len() > 8 {
        Err(DnsError::TooManyServers)
    } else {
        dns_checked(entries, source, addresses)
    }
}

/// Chooses the resolvers of a plan with self-described addresses: the client's own, else the
/// pushed ones, else those of the platform, else the client's fallback. Each must be reachable
/// through a gateway of its family.
pub fn choose_dns(
    mode: &str,
    client: &Vec<DnsEntry>,
    fallback: &Vec<DnsEntry>,
    platform: &Vec<DnsEntry>,
    pushed: &Vec<DnsEntry>,
    addresses: &Vec<NetworkAddress>,
) -> (result: Result<Vec<PlannedDns>, DnsError>)
    ensures
        ({
            let expected = family_dns(
                mode@,
                client@,
                fallback@,
                platform@,
                pushed@,
                addresses@,
            );
            match result {
                Ok(servers) => expected == Ok::<Seq<DnsView>, DnsError>(dns_views(servers@)),
                Err(error) => expected == Err::<Seq<DnsView>, DnsError>(error),
            }
        }),
{
    let mut servers: Vec<PlannedDns> = Vec::new();
    assert(dns_views(servers@) =~= Seq::<DnsView>::empty());
    if !same_text(mode, "tunnel") {
        return Ok(servers);
    }
    let (entries, source) = if client.len() > 0 {
        (client, DnsSource::Client)
    } else if pushed.len() > 0 {
        (pushed, DnsSource::Pushed)
    } else if platform.len() > 0 {
        (platform, DnsSource::Platform)
    } else {
        (fallback, DnsSource::Fallback)
    };
    if source != DnsSource::Pushed {
        if let Err(error) = dns_list(entries, source) {
            return Err(error);
        }
    }
    if entries.len() > 8 {
        return Err(DnsError::TooManyServers);
    }
    let ghost expected = family_dns(mode@, client@, fallback@, platform@, pushed@, addresses@);
    let mut i: usize = 0;
    assert(entries@.take(0) =~= Seq::<DnsEntry>::empty());
    while i < entries.len()
        invariant
            i <= entries@.len(),
            entries@.len() <= 8,
            expected == family_dns(mode@, client@, fallback@, platform@, pushed@, addresses@),
            expected == dns_checked(entries@, source, addresses@),
            dns_checked(entries@.take(i as int), source, addresses@) == Ok::<
                Seq<DnsView>,
                DnsError,
            >(dns_views(servers@)),
        decreases entries@.len() - i,
    {
        let ghost before = servers@;
        proof {
            assert(entries@.take(i + 1).drop_last() =~= entries@.take(i as int));
            assert(entries@.take(i + 1).last() == entries@[i as int]);
            if candidate_problem(entries@[i as int], source, addresses@, i as int) is Some {
                lemma_dns_problem_stays(entries@, source, addresses@, i + 1);
            }
        }
        if entries[i].port == 0 {
            return Err(DnsError::ZeroPort { source, index: i });
        }
        let ip = match entries[i].ip {
            None => return Err(DnsError::InvalidServer { source, index: i }),
            Some(ip) => ip,
        };
        if gateway_for_ip(ip, addresses).is_none() {
            return Err(DnsError::FamilyAbsent { source, index: i });
        }
        servers.push(PlannedDns { address: entries[i].address.clone(), port: entries[i].port, ip });
        assert(dns_views(servers@) =~= dns_views(before).push(servers@[servers@.len() - 1]@));
        i += 1;
    }
    assert(entries@.take(entries@.len() as int) =~= entries@);
    Ok(servers)
}

/// Resolves the DNS part of a plan with self-described addresses from its texts.
pub fn planned_dns_servers_v2(
    config: &ClientDnsConfig,
    pushed: &Vec<NetworkDns>,
    addresses: &Vec<NetworkAddress>,
    platform_fallback: &Vec<String>,
) -> (result: Result<Vec<PlannedDns>, DnsError>)
    ensures
        ({
            let expected = family_dns(
                config.mode@,
                resolved(config.servers@),
                resolved(config.fallback_servers@),
                resolved(platform_fallback@),
                resolved_servers(pushed@),
                addresses@,
            );
            match result {
                Ok(servers) => expected == Ok::<Seq<DnsView>, DnsError>(dns_views(servers@)),
                Err(error) => expected == Err::<Seq<DnsView>, DnsError>(error),
            }
        }),
{
    choose_dns(
        config.mode.as_str(),
        &resolve_list(&config.servers),
        &resolve_list(&config.fallback_servers),
        &resolve_list(platform_fallback),
        &resolve_servers(pushed),
        addresses,
    )
}

/// A family is active where an assigned address is of it, and its gateway is that of the first such
/// address; addresses of the other family before it do not count.
pub proof fn law_gateways_are_of_their_family(
    addresses: Seq<NetworkAddress>,
    family: NetworkAddressFamily,
    first: int,
)
    requires
        0 <= first <= addresses.len(),
        forall|i: int| 0 <= i < first ==> (#[trigger] addresses[i]).family != family,
        first < addresses.len() ==> addresses[first].family == family,
    ensures
        has_family(addresses, family) <==> first < addresses.len(),
        first == addresses.len() ==> family_gateway(addresses, family) is None,
        first < addresses.len() ==> match addresses[first].gateway {
            Some(gateway) => family_gateway(addresses, family) == Some(gateway@),
            None => family_gateway(addresses, family) is None,
        },
    decreases addresses.len(),
{
    if first > 0 {
        let rest = addresses.drop_first();
        assert(addresses[0].family != family);
        assert forall|i: int| 0 <= i < first - 1 implies (#[trigger] rest[i]).family != family by {
            assert(rest[i] == addresses[i + 1]);
        }
        assert(rest.len() == addresses.len() - 1);
        if first < addresses.len() {
            assert(rest[first - 1] == addresses[first]);
        }
        law_gateways_are_of_their_family(rest, family, first - 1);
    }
}

/// The families of addresses: IPv4 and IPv6 by their kind.
pub proof fn law_families_of_addresses(v4: u32, v6: u128)
    ensures
        family_of(IpAddress::V4(v4)) is Ipv4,
        family_of(IpAddress::V6(v6)) is Ipv6,
{
}

proof fn lemma_listed(entries: Seq<DnsEntry>, source: DnsSource)
    ensures
        dns_listed(entries, source) is Ok <==> forall|i: int|
            0 <= i < entries.len() ==> (#[trigger] entries[i]).ip is Some,
        dns_listed(entries, source) matches Ok(servers) ==> servers.len() == entries.len()
            && forall|i: int|
            0 <= i < servers.len() ==> (#[trigger] servers[i]).address == entries[i].address@
                && servers[i].port == entries[i].port && Some(servers[i].ip) == entries[i].ip,
    decreases entries.len(),
{
    if entries.len() > 0 {
        let front = entries.drop_last();
        lemma_listed(front, source);
        assert(entries[entries.len() - 1] == entries.last());
        if dns_listed(entries, source) is Ok {
            assert forall|i: int| 0 <= i < entries.len() implies (#[trigger] entries[i]).ip
                is Some by {
                if i < front.len() {
                    assert(front[i] == entries[i]);
                }
            }
            let servers = dns_listed(entries, source)->Ok_0;
            let before = dns_listed(front, source)->Ok_0;
            assert forall|i: int| 0 <= i < servers.len() implies (#[trigger] servers[i]).address
                == entries[i].address@ && servers[i].port == entries[i].port && Some(servers[i].ip)
                == entries[i].ip by {
                if i < before.len() {
                    assert(servers[i] == before[i]);
                    assert(front[i] == entries[i]);
                }
            }
        }
        if forall|i: int| 0 <= i < entries.len() ==> (#[trigger] entries[i]).ip is Some {
            assert forall|i: int| 0 <= i < front.len() implies (#[trigger] front[i]).ip is Some by {
                assert(front[i] == entries[i]);
            }
        }
    }
}

/// The resolvers of a list are its entries one for one, where each of them is an address; an entry
/// that is none is named. In a tunnel for IPv4 alone each has to be an IPv4 address too.
pub proof fn law_lists_of_resolvers_are_kept(entries: Seq<DnsEntry>, source: DnsSource)
    ensures
        dns_listed(entries, source) is Ok <==> forall|i: int|
            0 <= i < entries.len() ==> (#[trigger] entries[i]).ip is Some,
        dns_listed(entries, source) matches Ok(servers) ==> servers.len() == entries.len()
            && forall|i: int|
            0 <= i < servers.len() ==> (#[trigger] servers[i]).address == entries[i].address@
                && servers[i].port == entries[i].port && Some(servers[i].ip) == entries[i].ip,
        ipv4_dns_listed(entries, source) is Ok <==> forall|i: int|
            0 <= i < entries.len() ==> ((#[trigger] entries[i]).ip matches Some(ip) && ip is V4),
        ipv4_dns_listed(entries, source) is Ok ==> ipv4_dns_listed(entries, source) == dns_listed(
            entries,
            source,
        ),
{
    lemma_listed(entries, source);
    if dns_listed(entries, source) is Ok {
        let servers = dns_listed(entries, source)->Ok_0;
        lemma_first_of_ipv6(servers);
        if ipv4_dns_listed(entries, source) is Ok {
            assert forall|i: int| 0 <= i < entries.len() implies ((#[trigger]
            entries[i]).ip matches Some(ip) && ip is V4) by {
                assert(servers[i].ip is V4);
            }
        } else {
            let i = first_ipv6(servers)->Some_0;
            assert(servers[i].ip is V6);
            assert(entries[i].ip == Some(servers[i].ip));
        }
    }
}

proof fn lemma_first_of_ipv6(servers: Seq<DnsView>)
    ensures
        match first_ipv6(servers) {
            Some(i) => 0 <= i < servers.len() && servers[i].ip is V6,
            None => forall|i: int| 0 <= i < servers.len() ==> (#[trigger] servers[i]).ip is V4,
        },
    decreases servers.len(),
{
    if servers.len() > 0 {
        lemma_first_of_ipv6(servers.drop_last());
        let front = servers.drop_last();
        match first_ipv6(servers) {
            Some(i) => {
                if i < front.len() {
                    assert(front[i] == servers[i]);
                }
            },
            None => {
                assert forall|i: int| 0 <= i < servers.len() implies (#[trigger] servers[i]).ip
                    is V4 by {
                    if i < front.len() {
                        assert(front[i] == servers[i]);
                    }
                }
            },
        }
    }
}

/// Where the resolvers of a legacy tunnel come from: none outside tunnel mode; the client's own
/// where it has any; the pushed one, on its port, where all traffic or its subnet is in the tunnel;
/// otherwise those of the platform, and failing those the client's fallback.
pub proof fn law_legacy_resolvers_have_an_order(
    client: Seq<DnsEntry>,
    fallback: Seq<DnsEntry>,
    platform: Seq<DnsEntry>,
    pushed: Seq<char>,
    server: u32,
    pushed_port: Seq<char>,
    port: int,
    tunnel_subnet: Option<(u32, u32)>,
    full_tunnel: bool,
    mode: Seq<char>,
    pushed_ip: Option<IpAddress>,
)
    requires
        1 <= port <= 65535,
        decimal_value(pushed_port, 65535) == Some(port),
        pushed.len() > 0,
        pushed[0] != '-',
    ensures
        mode != "tunnel"@ ==> legacy_dns(
            mode,
            client,
            fallback,
            platform,
            pushed,
            pushed_ip,
            pushed_port,
            tunnel_subnet,
            full_tunnel,
        ) == Ok::<Seq<DnsView>, DnsError>(Seq::empty()),
        client.len() > 0 ==> legacy_dns(
            "tunnel"@,
            client,
            fallback,
            platform,
            pushed,
            pushed_ip,
            pushed_port,
            tunnel_subnet,
            full_tunnel,
        ) == ipv4_dns_listed(client, DnsSource::Client),
        client.len() == 0 ==> {
            let chosen = legacy_dns(
                "tunnel"@,
                client,
                fallback,
                platform,
                pushed,
                Some(IpAddress::V4(server)),
                pushed_port,
                tunnel_subnet,
                full_tunnel,
            );
            let inside = full_tunnel || (tunnel_subnet is Some && server & tunnel_subnet->Some_0.1
                == tunnel_subnet->Some_0.0 & tunnel_subnet->Some_0.1);
            &&& inside ==> chosen is Ok && chosen->Ok_0.len() == 1 && chosen->Ok_0[0].address
                == pushed && chosen->Ok_0[0].port == port && chosen->Ok_0[0].ip == IpAddress::V4(
                server,
            )
            &&& !inside && platform.len() > 0 ==> chosen == ipv4_dns_listed(
                platform,
                DnsSource::Platform,
            )
            &&& !inside && platform.len() == 0 ==> chosen == ipv4_dns_listed(
                fallback,
                DnsSource::Fallback,
            )
        },
        client.len() == 0 ==> {
            let without = legacy_dns(
                "tunnel"@,
                client,
                fallback,
                platform,
                Seq::empty(),
                None,
                pushed_port,
                tunnel_subnet,
                full_tunnel,
            );
            &&& platform.len() > 0 ==> without == ipv4_dns_listed(platform, DnsSource::Platform)
            &&& platform.len() == 0 ==> without == ipv4_dns_listed(fallback, DnsSource::Fallback)
        },
{
}

proof fn lemma_checked(
    candidates: Seq<DnsEntry>,
    source: DnsSource,
    addresses: Seq<NetworkAddress>,
)
    ensures
        dns_checked(candidates, source, addresses) is Ok <==> forall|i: int|
            0 <= i < candidates.len() ==> {
                &&& (#[trigger] candidates[i]).port > 0
                &&& candidates[i].ip is Some
                &&& candidates[i].ip->Some_0 is V4 ==> family_gateway(addresses, NetworkAddressFamily::Ipv4) is Some
                &&& candidates[i].ip->Some_0 is V6 ==> family_gateway(addresses, NetworkAddressFamily::Ipv6) is Some
            },
        dns_checked(candidates, source, addresses) matches Ok(servers) ==> servers.len()
            == candidates.len() && forall|i: int|
            0 <= i < servers.len() ==> (#[trigger] servers[i]).address == candidates[i].address@
                && servers[i].port == candidates[i].port && Some(servers[i].ip)
                == candidates[i].ip,
    decreases candidates.len(),
{
    if candidates.len() > 0 {
        let front = candidates.drop_last();
        lemma_checked(front, source, addresses);
        assert(candidates[candidates.len() - 1] == candidates.last());
        assert forall|i: int| 0 <= i < front.len() implies #[trigger] front[i] == candidates[i] by {}
        if dns_checked(candidates, source, addresses) is Ok {
            let servers = dns_checked(candidates, source, addresses)->Ok_0;
            let before = dns_checked(front, source, addresses)->Ok_0;
            assert forall|i: int| 0 <= i < servers.len() implies (#[trigger] servers[i]).address
                == candidates[i].address@ && servers[i].port == candidates[i].port && Some(
                servers[i].ip,
            ) == candidates[i].ip by {
                if i < before.len() {
                    assert(servers[i] == before[i]);
                    assert(front[i] == candidates[i]);
                }
            }
            assert forall|i: int| 0 <= i < candidates.len() implies {
                &&& (#[trigger] candidates[i]).port > 0
                &&& candidates[i].ip is Some
                &&& candidates[i].ip->Some_0 is V4 ==> family_gateway(addresses, NetworkAddressFamily::Ipv4) is Some
                &&& candidates[i].ip->Some_0 is V6 ==> family_gateway(addresses, NetworkAddressFamily::Ipv6) is Some
            } by {
                if i < front.len() {
                    assert(front[i] == candidates[i]);
                }
            }
        }
    }
}

/// Where the resolvers of a tunnel with described addresses come from: none outside tunnel mode;
/// otherwise the first list that has any, of the client, the server, the platform and the fallback.
/// Up to eight of them are taken over one for one, where each is an address with a port whose
/// family has a gateway in the tunnel.
pub proof fn law_resolvers_have_an_order(
    client: Seq<DnsEntry>,
    fallback: Seq<DnsEntry>,
    platform: Seq<DnsEntry>,
    pushed: Seq<DnsEntry>,
    addresses: Seq<NetworkAddress>,
    mode: Seq<char>,
    entries: Seq<DnsEntry>,
)
    requires
        entries == if client.len() > 0 {
            client
        } else if pushed.len() > 0 {
            pushed
        } else if platform.len() > 0 {
            platform
        } else {
            fallback
        },
    ensures
        mode != "tunnel"@ ==> family_dns(mode, client, fallback, platform, pushed, addresses)
            == Ok::<Seq<DnsView>, DnsError>(Seq::empty()),
        ({
            let chosen = family_dns("tunnel"@, client, fallback, platform, pushed, addresses);
            &&& chosen is Ok <==> entries.len() <= 8 && forall|i: int|
                0 <= i < entries.len() ==> {
                    &&& (#[trigger] entries[i]).port > 0
                    &&& entries[i].ip is Some
                    &&& entries[i].ip->Some_0 is V4 ==> family_gateway(addresses, NetworkAddressFamily::Ipv4) is Some
                    &&& entries[i].ip->Some_0 is V6 ==> family_gateway(addresses, NetworkAddressFamily::Ipv6) is Some
                }
            &&& chosen matches Ok(servers) ==> servers.len() == entries.len() && forall|i: int|
                0 <= i < servers.len() ==> (#[trigger] servers[i]).address == entries[i].address@
                    && servers[i].port == entries[i].port && Some(servers[i].ip) == entries[i].ip
        }),
{
    let source = if client.len() > 0 {
        DnsSource::Client
    } else if pushed.len() > 0 {
        DnsSource::Pushed
    } else if platform.len() > 0 {
        DnsSource::Platform
    } else {
        DnsSource::Fallback
    };
    lemma_listed(entries, source);
    lemma_checked(entries, source, addresses);
    let chosen = family_dns("tunnel"@, client, fallback, platform, pushed, addresses);
    if source is Pushed || dns_listed(entries, source) is Ok {
        if entries.len() <= 8 {
            assert(chosen == dns_checked(entries, source, addresses));
        } else {
            assert(chosen is Err);
        }
    } else {
        assert(chosen is Err);
    }
}

/// Configured texts become resolvers on port 53, and pushed ones keep the port that they came with.
pub proof fn law_resolver_texts_are_read(texts: Seq<String>, servers: Seq<NetworkDns>, i: int)
    ensures
        resolved(texts).len() == texts.len(),
        0 <= i < texts.len() ==> resolved(texts)[i].address == texts[i] && resolved(texts)[i].port
            == 53 && resolved(texts)[i].ip == ip_of_text(texts[i]@),
        resolved_servers(servers).len() == servers.len(),
        0 <= i < servers.len() ==> resolved_servers(servers)[i].address == servers[i].address
            && resolved_servers(servers)[i].port == servers[i].port && resolved_servers(
            servers,
        )[i].ip == ip_of_text(servers[i].address@),
{
}

} // verus!
