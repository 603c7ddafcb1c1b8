//! Platform-neutral construction of the network plan learned during authentication.
//!
//! The shared core decides what routes and DNS settings are safe. Platform adapters only apply
//! the resulting [`NetworkPlan`] and acknowledge that generation.

use crate::cidr::{all_valid, covered, IpAddress, NumericCidr};
use crate::ip_text::{block_of_text, ip_of_text, parse_block, parse_ip};
use crate::network::{
    dns_views, family_dns, family_gateway, family_is_active, family_of, gateway_for_family, has_family, ip_family, legacy_dns, opt_text,
    planned_dns_servers, planned_dns_servers_v2, resolved, resolved_servers, ClientDnsConfig,
    DnsError, DnsView, NetworkAddress, NetworkAddressFamily, NetworkDns, NetworkFamilyMode,
    PlannedDns,
};
use crate::routes::{
    apply_route_exclusions, blocks_of, candidates_of, opt_ip_of,
    planned_pushed_routes_for_addresses, pushed_routes, route_views, routes_left, NetworkRoute,
    PushedRoute, RouteError, RouteView,
};
use crate::text::{
    before_slash, eq_ignore_ascii_case, lowered, same_text, split_before_slash,
};
use vstd::arithmetic::power2::{lemma2_to64, pow2};
use vstd::prelude::*;

verus! {

#[derive(Debug, Clone, Copy, PartialEq, Eq, Structural)]
pub enum ClientIpv6Policy {
    Off,
    Auto,
    Required,
}

/// The routing settings of a client profile.
#[derive(Debug)]
pub struct ClientRouting {
    pub mode: String,
    pub add_default_gateway: bool,
    pub ipv6: ClientIpv6Policy,
    pub include_routes: Vec<String>,
    pub exclude_routes: Vec<String>,
    pub route_local_networks: bool,
    pub kill_switch: bool,
    pub allow_ipv4_leak: bool,
    pub allow_ipv6_leak: bool,
}

/// What a client profile says about the tunnel's network.
#[derive(Debug)]
pub struct ClientConfig {
    pub protocol: String,
    pub device_type: String,
    pub mtu: i32,
    pub routing: ClientRouting,
    pub dns: ClientDnsConfig,
}

/// What the authenticated handshake says about the tunnel's network.
#[derive(Debug)]
pub struct HandshakeNetwork {
    pub family_mode: NetworkFamilyMode,
    pub addresses: Vec<NetworkAddress>,
    pub client_ip: String,
    pub prefix: u8,
    pub tunnel_gateway: String,
    pub dns_ip: String,
    pub dns_port: String,
    pub dns_servers: Vec<NetworkDns>,
    pub routes: Vec<PushedRoute>,
    pub mtu: i32,
    /// Optional platform-supplied resolvers, used only when neither the profile nor the server
    /// supplied one.
    pub fallback_dns_servers: Vec<String>,
}

#[derive(Debug)]
pub struct NetworkPlan {
    pub generation: u64,
    pub family_mode: NetworkFamilyMode,
    pub addresses: Vec<NetworkAddress>,
    pub tunnel_address: String,
    pub prefix_len: u8,
    pub mtu: u16,
    pub tunnel_gateway: String,
    pub carrier_address: Option<String>,
    pub routes: Vec<NetworkRoute>,
    pub pushed_routes: Vec<NumericCidr>,
    pub dns_servers: Vec<PlannedDns>,
    pub full_tunnel: bool,
    pub kill_switch: bool,
    pub allow_ipv4_leak: bool,
    pub allow_ipv6_leak: bool,
    pub max_streams: u32,
    pub adaptive: bool,
    pub connection_log: Vec<String>,
}

impl NetworkPlan {
    /// Every block of the plan is an address block of its family.
    pub open spec fn blocks_valid(self) -> bool {
        all_valid(self.pushed_routes@) && all_valid(blocks_of(route_views(self.routes@)))
    }
}

/// Why no plan was made. Numbers are positions in the lists of the request.
#[derive(Debug, Clone, Copy, PartialEq, Eq, Structural)]
pub enum PlanError {
    InvalidMtu,
    Ipv6ThoughOff,
    NoIpv6ThoughRequired,
    InvalidGateway { address: usize },
    InvalidExclude { exclude: usize },
    /// An exclusion that only shows itself when it is taken out of the routes.
    InvalidExcludeBlock { exclude: usize },
    GatewayExcluded { address: usize, exclude: usize },
    InvalidOnLinkPrefix,
    Dns(DnsError),
    NoResolver,
    DnsExcluded { server: usize, exclude: usize },
    Route(RouteError),
    InvalidInclude { route: usize },
    InactiveInclude { route: usize, family: NetworkAddressFamily },
    TooManyRoutes,
}

/// An explicitly included route with what its text denotes.
#[derive(Debug, Clone, Copy)]
pub struct IncludeText {
    pub address: Option<IpAddress>,
    pub block: Option<NumericCidr>,
}

/// What the texts of a request denote.
#[derive(Debug)]
pub struct PlanTexts {
    pub gateways: Vec<Option<IpAddress>>,
    pub excludes: Vec<Option<NumericCidr>>,
    pub includes: Vec<IncludeText>,
}

impl PlanTexts {
    pub open spec fn valid(self) -> bool {
        &&& forall|i: int|
            0 <= i < self.excludes@.len() ==> ((#[trigger] self.excludes@[i]) matches Some(block)
                ==> block.valid())
        &&& forall|i: int|
            0 <= i < self.includes@.len() ==> ((#[trigger] self.includes@[i]).block matches Some(
                block,
            ) ==> block.valid())
    }
}

pub open spec fn is_full(routing: ClientRouting) -> bool {
    routing.add_default_gateway || routing.mode@ == "full-tunnel"@ || routing.mode@ == "all"@
}

pub fn is_full_tunnel(config: &ClientConfig) -> (full: bool)
    ensures
        full == is_full(config.routing),
{
    config.routing.add_default_gateway || same_text(config.routing.mode.as_str(), "full-tunnel")
        || same_text(config.routing.mode.as_str(), "all")
}

pub open spec fn normalized(prefix: u8) -> u8 {
    if 1 <= prefix <= 32 {
        prefix
    } else {
        24
    }
}

pub fn normalized_prefix(prefix: u8) -> (normal: u8)
    ensures
        normal == normalized(prefix),
{
    if 1 <= prefix && prefix <= 32 {
        prefix
    } else {
        24
    }
}

/// The netmask of an IPv4 prefix: its first `prefix` bits are set.
pub fn prefix_to_netmask(prefix: u8) -> (mask: u32)
    requires
        1 <= prefix <= 32,
    ensures
        mask == netmask(prefix),
{
    if prefix == 32 {
        u32::MAX
    } else {
        let shift: u32 = 32 - prefix as u32;
        !0u32 << shift
    }
}

pub open spec fn netmask(prefix: u8) -> u32 {
    if prefix == 32 {
        u32::MAX
    } else {
        !0u32 << ((32 - prefix) as u32)
    }
}

pub struct AddressView {
    pub family: NetworkAddressFamily,
    pub address: Seq<char>,
    pub prefix_len: u8,
    pub on_link_prefix_len: u8,
    pub gateway: Option<Seq<char>>,
}

impl View for NetworkAddress {
    type V = AddressView;

    open spec fn view(&self) -> AddressView {
        AddressView {
            family: self.family,
            address: self.address@,
            prefix_len: self.prefix_len,
            on_link_prefix_len: self.on_link_prefix_len,
            gateway: opt_text(self.gateway),
        }
    }
}

/// An assigned address as the client's own device takes it: a TAP needs the pool prefix, so that
/// neighbour discovery reaches the gateway; a TUN takes a host address.
pub open spec fn device_address(assigned: NetworkAddress, is_tap: bool) -> AddressView {
    AddressView {
        prefix_len: if is_tap {
            assigned.on_link_prefix_len
        } else if assigned.family is Ipv4 {
            32
        } else {
            128
        },
        ..assigned@
    }
}

pub fn addresses_for_client_device(config: &ClientConfig, addresses: &Vec<NetworkAddress>) -> (
    result: Vec<NetworkAddress>)
    ensures
        result@.len() == addresses@.len(),
        forall|i: int|
            0 <= i < addresses@.len() ==> (#[trigger] result@[i])@ == device_address(
                addresses@[i],
                lowered(config.device_type@) == lowered("tap"@),
            ),
{
    let is_tap = eq_ignore_ascii_case(config.device_type.as_str(), "tap");
    let mut result: Vec<NetworkAddress> = Vec::new();
    let mut i: usize = 0;
    while i < addresses.len()
        invariant
            i <= addresses@.len(),
            result@.len() == i,
            is_tap == (lowered(config.device_type@) == lowered("tap"@)),
            forall|j: int|
                0 <= j < i ==> (#[trigger] result@[j])@ == device_address(addresses@[j], is_tap),
        decreases addresses@.len() - i,
    {
        let assigned = &addresses[i];
        let prefix_len: u8 = if is_tap {
            assigned.on_link_prefix_len
        } else {
            match assigned.family {
                NetworkAddressFamily::Ipv4 => 32,
                NetworkAddressFamily::Ipv6 => 128,
            }
        };
        let gateway = match &assigned.gateway {
            Some(gateway) => Some(gateway.clone()),
            None => None,
        };
        result.push(
            NetworkAddress {
                family: assigned.family,
                address: assigned.address.clone(),
                prefix_len,
                on_link_prefix_len: assigned.on_link_prefix_len,
                gateway,
            },
        );
        i += 1;
    }
    result
}

/// The on-link prefix of the tunnel address: that of the assigned address it names, else the
/// pushed prefix.
pub open spec fn tunnel_prefix(addresses: Seq<NetworkAddress>, client_ip: Seq<char>, pushed: u8) -> u8
    decreases addresses.len(),
{
    if addresses.len() == 0 {
        normalized(pushed)
    } else if addresses[0].address@ == client_ip {
        addresses[0].on_link_prefix_len
    } else {
        tunnel_prefix(addresses.drop_first(), client_ip, pushed)
    }
}

fn find_tunnel_prefix(network: &HandshakeNetwork) -> (prefix: u8)
    ensures
        prefix == tunnel_prefix(network.addresses@, network.client_ip@, network.prefix),
{
    let mut i: usize = 0;
    assert(network.addresses@.skip(0) =~= network.addresses@);
    while i < network.addresses.len()
        invariant
            i <= network.addresses@.len(),
            tunnel_prefix(network.addresses@, network.client_ip@, network.prefix) == tunnel_prefix(
                network.addresses@.skip(i as int),
                network.client_ip@,
                network.prefix,
            ),
        decreases network.addresses@.len() - i,
    {
        assert(network.addresses@.skip(i as int)[0] == network.addresses@[i as int]);
        assert(network.addresses@.skip(i as int).drop_first() =~= network.addresses@.skip(i + 1));
        if same_text(network.addresses[i].address.as_str(), network.client_ip.as_str()) {
            return network.addresses[i].on_link_prefix_len;
        }
        i += 1;
    }
    normalized_prefix(network.prefix)
}

/// The first of the excluded routes below `end` that is no block, or that has the gateway and is
/// at least as specific as the on-link route.
pub open spec fn gateway_conflict(
    gateway: IpAddress,
    on_link_prefix_len: u8,
    excludes: Seq<Option<NumericCidr>>,
    address: int,
    end: int,
) -> Option<PlanError>
    decreases end,
{
    if end <= 0 {
        None
    } else {
        match gateway_conflict(gateway, on_link_prefix_len, excludes, address, end - 1) {
            Some(error) => Some(error),
            None => match excludes[end - 1] {
                None => Some(PlanError::InvalidExclude { exclude: (end - 1) as usize }),
                Some(block) => if block.prefix >= on_link_prefix_len && block.has_ip(gateway) {
                    Some(
                        PlanError::GatewayExcluded {
                            address: address as usize,
                            exclude: (end - 1) as usize,
                        },
                    )
                } else {
                    None
                },
            },
        }
    }
}

/// The first contradiction between the tunnel gateways and the excluded routes. A broad
/// exclusion is safe, because the on-link route is more specific; an equal or more specific one
/// that has the gateway would make every route of the family unusable.
pub open spec fn gateway_problem(
    addresses: Seq<NetworkAddress>,
    texts: PlanTexts,
    end: int,
) -> Option<PlanError>
    decreases end,
{
    if end <= 0 {
        None
    } else {
        match gateway_problem(addresses, texts, end - 1) {
            Some(error) => Some(error),
            None => if addresses[end - 1].gateway is None {
                None
            } else {
                match texts.gateways@[end - 1] {
                    None => Some(PlanError::InvalidGateway { address: (end - 1) as usize }),
                    Some(gateway) => gateway_conflict(
                        gateway,
                        addresses[end - 1].on_link_prefix_len,
                        texts.excludes@,
                        end - 1,
                        texts.excludes@.len() as int,
                    ),
                }
            },
        }
    }
}

proof fn lemma_gateway_conflict_stays(
    gateway: IpAddress,
    on_link_prefix_len: u8,
    excludes: Seq<Option<NumericCidr>>,
    address: int,
    i: int,
    end: int,
)
    requires
        0 <= i <= end,
        gateway_conflict(gateway, on_link_prefix_len, excludes, address, i) is Some,
    ensures
        gateway_conflict(gateway, on_link_prefix_len, excludes, address, end) == gateway_conflict(
            gateway,
            on_link_prefix_len,
            excludes,
            address,
            i,
        ),
    decreases end - i,
{
    if i < end {
        lemma_gateway_conflict_stays(
            gateway,
            on_link_prefix_len,
            excludes,
            address,
            i,
            end - 1,
        );
    }
}

proof fn lemma_gateway_problem_stays(
    addresses: Seq<NetworkAddress>,
    texts: PlanTexts,
    i: int,
    end: int,
)
    requires
        0 <= i <= end,
        gateway_problem(addresses, texts, i) is Some,
    ensures
        gateway_problem(addresses, texts, end) == gateway_problem(addresses, texts, i),
    decreases end - i,
{
    if i < end {
        lemma_gateway_problem_stays(addresses, texts, i, end - 1);
    }
}

fn check_gateways(addresses: &Vec<NetworkAddress>, texts: &PlanTexts) -> (problem: Option<
    PlanError,
>)
    requires
        texts.valid(),
        texts.gateways@.len() == addresses@.len(),
    ensures
        problem == gateway_problem(addresses@, *texts, addresses@.len() as int),
{
    let mut i: usize = 0;
    while i < addresses.len()
        invariant
            i <= addresses@.len(),
            texts.valid(),
            texts.gateways@.len() == addresses@.len(),
            gateway_problem(addresses@, *texts, i as int) is None,
        decreases addresses@.len() - i,
    {
        if addresses[i].gateway.is_some() {
            let gateway = match texts.gateways[i] {
                None => {
                    proof {
                        lemma_gateway_problem_stays(
                            addresses@,
                            *texts,
                            i + 1,
                            addresses@.len() as int,
                        );
                    }
                    return Some(PlanError::InvalidGateway { address: i });
                },
                Some(gateway) => gateway,
            };
            let on_link: u8 = addresses[i].on_link_prefix_len;
            let mut k: usize = 0;
            while k < texts.excludes.len()
                invariant
                    i < addresses@.len(),
                    texts.valid(),
                    texts.gateways@.len() == addresses@.len(),
                    k <= texts.excludes@.len(),
                    gateway_problem(addresses@, *texts, i as int) is None,
                    addresses@[i as int].gateway is Some,
                    texts.gateways@[i as int] == Some(gateway),
                    on_link == addresses@[i as int].on_link_prefix_len,
                    gateway_conflict(
                        gateway,
                        on_link,
                        texts.excludes@,
                        i as int,
                        k as int,
                    ) is None,
                decreases texts.excludes@.len() - k,
            {
                let problem = match texts.excludes[k] {
                    None => Some(PlanError::InvalidExclude { exclude: k }),
                    Some(block) => if block.prefix >= on_link && block.contains(gateway) {
                        Some(PlanError::GatewayExcluded { address: i, exclude: k })
                    } else {
                        None
                    },
                };
                if problem.is_some() {
                    proof {
                        lemma_gateway_conflict_stays(
                            gateway,
                            on_link,
                            texts.excludes@,
                            i as int,
                            k + 1,
                            texts.excludes@.len() as int,
                        );
                        lemma_gateway_problem_stays(
                            addresses@,
                            *texts,
                            i + 1,
                            addresses@.len() as int,
                        );
                    }
                    return problem;
                }
                k += 1;
            }
        }
        i += 1;
    }
    None
}

/// The first of the excluded routes below `end` that is no block, or that is exactly the host
/// route of a resolver.
pub open spec fn host_conflict(
    ip: IpAddress,
    excludes: Seq<Option<NumericCidr>>,
    server: int,
    end: int,
) -> Option<PlanError>
    decreases end,
{
    if end <= 0 {
        None
    } else {
        match host_conflict(ip, excludes, server, end - 1) {
            Some(error) => Some(error),
            None => match excludes[end - 1] {
                None => Some(PlanError::InvalidExclude { exclude: (end - 1) as usize }),
                Some(block) => if block.prefix == ip.width() && block.has_ip(ip) {
                    Some(
                        PlanError::DnsExcluded {
                            server: server as usize,
                            exclude: (end - 1) as usize,
                        },
                    )
                } else {
                    None
                },
            },
        }
    }
}

/// The first contradiction between the resolvers and the excluded routes. A resolver of the plan
/// is a promise that its traffic uses the tunnel; a host exclusion of the same prefix cannot be
/// reconciled with it.
pub open spec fn dns_problem(
    servers: Seq<DnsView>,
    excludes: Seq<Option<NumericCidr>>,
    end: int,
) -> Option<PlanError>
    decreases end,
{
    if end <= 0 {
        None
    } else {
        match dns_problem(servers, excludes, end - 1) {
            Some(error) => Some(error),
            None => host_conflict(
                servers[end - 1].ip,
                excludes,
                end - 1,
                excludes.len() as int,
            ),
        }
    }
}

proof fn lemma_host_conflict_stays(
    ip: IpAddress,
    excludes: Seq<Option<NumericCidr>>,
    server: int,
    i: int,
    end: int,
)
    requires
        0 <= i <= end,
        host_conflict(ip, excludes, server, i) is Some,
    ensures
        host_conflict(ip, excludes, server, end) == host_conflict(ip, excludes, server, i),
    decreases end - i,
{
    if i < end {
        lemma_host_conflict_stays(ip, excludes, server, i, end - 1);
    }
}

proof fn lemma_dns_problem_stays(
    servers: Seq<DnsView>,
    excludes: Seq<Option<NumericCidr>>,
    i: int,
    end: int,
)
    requires
        0 <= i <= end,
        dns_problem(servers, excludes, i) is Some,
    ensures
        dns_problem(servers, excludes, end) == dns_problem(servers, excludes, i),
    decreases end - i,
{
    if i < end {
        lemma_dns_problem_stays(servers, excludes, i, end - 1);
    }
}

fn check_dns(servers: &Vec<PlannedDns>, texts: &PlanTexts) -> (problem: Option<PlanError>)
    requires
        texts.valid(),
    ensures
        problem == dns_problem(dns_views(servers@), texts.excludes@, servers@.len() as int),
{
    let ghost views = dns_views(servers@);
    let mut i: usize = 0;
    while i < servers.len()
        invariant
            i <= servers@.len(),
            texts.valid(),
            views == dns_views(servers@),
            dns_problem(views, texts.excludes@, i as int) is None,
        decreases servers@.len() - i,
    {
        let ip = servers[i].ip;
        let host: u8 = if ip.is_ipv4() {
            32
        } else {
            128
        };
        let mut k: usize = 0;
        while k < texts.excludes.len()
            invariant
                i < servers@.len(),
                texts.valid(),
                views == dns_views(servers@),
                views[i as int].ip == ip,
                host == ip.width(),
                k <= texts.excludes@.len(),
                dns_problem(views, texts.excludes@, i as int) is None,
                host_conflict(ip, texts.excludes@, i as int, k as int) is None,
            decreases texts.excludes@.len() - k,
        {
            let problem = match texts.excludes[k] {
                None => Some(PlanError::InvalidExclude { exclude: k }),
                Some(block) => if block.prefix == host && block.contains(ip) {
                    Some(PlanError::DnsExcluded { server: i, exclude: k })
                } else {
                    None
                },
            };
            if problem.is_some() {
                proof {
                    lemma_host_conflict_stays(
                        ip,
                        texts.excludes@,
                        i as int,
                        k + 1,
                        texts.excludes@.len() as int,
                    );
                    lemma_dns_problem_stays(
                        views,
                        texts.excludes@,
                        i + 1,
                        servers@.len() as int,
                    );
                }
                return problem;
            }
            k += 1;
        }
        i += 1;
    }
    None
}

/// The route of one explicitly included network.
pub open spec fn include_route(
    request: IncludeText,
    addresses: Seq<NetworkAddress>,
    index: int,
) -> Result<RouteView, PlanError> {
    match (request.address, request.block) {
        (Some(address), Some(block)) => if !has_family(addresses, family_of(address)) {
            Err(
                PlanError::InactiveInclude {
                    route: index as usize,
                    family: if block.bits == 32 {
                        NetworkAddressFamily::Ipv4
                    } else {
                        NetworkAddressFamily::Ipv6
                    },
                },
            )
        } else {
            match family_gateway(addresses, family_of(address)) {
                None => Err(PlanError::Route(RouteError::NoGateway(family_of(address)))),
                Some(gateway) => Ok(RouteView { block, gateway, metric: 100 }),
            }
        },
        _ => Err(PlanError::InvalidInclude { route: index as usize }),
    }
}

/// The pushed routes and behind them the explicitly included ones.
pub open spec fn with_includes(
    pushed: Seq<RouteView>,
    includes: Seq<IncludeText>,
    addresses: Seq<NetworkAddress>,
    end: int,
) -> Result<Seq<RouteView>, PlanError>
    decreases end,
{
    if end <= 0 {
        Ok(pushed)
    } else {
        match with_includes(pushed, includes, addresses, end - 1) {
            Err(error) => Err(error),
            Ok(routes) => match include_route(includes[end - 1], addresses, end - 1) {
                Err(error) => Err(error),
                Ok(route) => Ok(routes.push(route)),
            },
        }
    }
}

proof fn lemma_include_error_stays(
    pushed: Seq<RouteView>,
    includes: Seq<IncludeText>,
    addresses: Seq<NetworkAddress>,
    i: int,
    end: int,
)
    requires
        0 <= i <= end,
        with_includes(pushed, includes, addresses, i) is Err,
    ensures
        with_includes(pushed, includes, addresses, end) == with_includes(
            pushed,
            includes,
            addresses,
            i,
        ),
    decreases end - i,
{
    if i < end {
        lemma_include_error_stays(pushed, includes, addresses, i, end - 1);
    }
}

/// 10.0.0.0/8, 172.16.0.0/12 and 192.168.0.0/16.
pub open spec fn local_blocks() -> Seq<NumericCidr> {
    seq![
        NumericCidr { start: 0x0a00_0000, prefix: 8, bits: 32 },
        NumericCidr { start: 0xac10_0000, prefix: 12, bits: 32 },
        NumericCidr { start: 0xc0a8_0000, prefix: 16, bits: 32 },
    ]
}

pub open spec fn local_routes(gateway: Seq<char>) -> Seq<RouteView> {
    local_blocks().map_values(|block: NumericCidr| RouteView { block, gateway, metric: 100 })
}

/// The routes and behind them the private networks, where the profile asks for them and the
/// tunnel carries IPv4.
pub open spec fn with_local(
    routes: Seq<RouteView>,
    wanted: bool,
    addresses: Seq<NetworkAddress>,
) -> Result<Seq<RouteView>, PlanError> {
    if wanted && has_family(addresses, NetworkAddressFamily::Ipv4) {
        match family_gateway(addresses, NetworkAddressFamily::Ipv4) {
            None => Err(PlanError::Route(RouteError::NoGateway(NetworkAddressFamily::Ipv4))),
            Some(gateway) => Ok(routes + local_routes(gateway)),
        }
    } else {
        Ok(routes)
    }
}

pub open spec fn has_block(routes: Seq<RouteView>, block: NumericCidr) -> bool {
    exists|i: int| 0 <= i < routes.len() && (#[trigger] routes[i]).block == block
}

/// The routes and behind them a host route for each resolver that has none yet.
pub open spec fn with_dns(
    routes: Seq<RouteView>,
    servers: Seq<DnsView>,
    addresses: Seq<NetworkAddress>,
    end: int,
) -> Result<Seq<RouteView>, PlanError>
    decreases end,
{
    if end <= 0 {
        Ok(routes)
    } else {
        match with_dns(routes, servers, addresses, end - 1) {
            Err(error) => Err(error),
            Ok(all) => {
                let ip = servers[end - 1].ip;
                if has_block(all, ip.host_block_spec()) {
                    Ok(all)
                } else {
                    match family_gateway(addresses, family_of(ip)) {
                        None => Err(PlanError::Route(RouteError::NoGateway(family_of(ip)))),
                        Some(gateway) => Ok(
                            all.push(
                                RouteView { block: ip.host_block_spec(), gateway, metric: 50 },
                            ),
                        ),
                    }
                }
            },
        }
    }
}

proof fn lemma_with_dns_error_stays(
    routes: Seq<RouteView>,
    servers: Seq<DnsView>,
    addresses: Seq<NetworkAddress>,
    i: int,
    end: int,
)
    requires
        0 <= i <= end,
        with_dns(routes, servers, addresses, i) is Err,
    ensures
        with_dns(routes, servers, addresses, end) == with_dns(routes, servers, addresses, i),
    decreases end - i,
{
    if i < end {
        lemma_with_dns_error_stays(routes, servers, addresses, i, end - 1);
    }
}

pub open spec fn host_blocks(servers: Seq<DnsView>) -> Seq<NumericCidr> {
    servers.map_values(|server: DnsView| server.ip.host_block_spec())
}

/// The first excluded route that is no block.
pub open spec fn first_bad_exclude(excludes: Seq<Option<NumericCidr>>, end: int) -> Option<int>
    decreases end,
{
    if end <= 0 {
        None
    } else {
        match first_bad_exclude(excludes, end - 1) {
            Some(i) => Some(i),
            None => if excludes[end - 1] is None {
                Some(end - 1)
            } else {
                None
            },
        }
    }
}

proof fn lemma_bad_exclude_stays(excludes: Seq<Option<NumericCidr>>, i: int, end: int)
    requires
        0 <= i <= end,
        first_bad_exclude(excludes, i) is Some,
    ensures
        first_bad_exclude(excludes, end) == first_bad_exclude(excludes, i),
    decreases end - i,
{
    if i < end {
        lemma_bad_exclude_stays(excludes, i, end - 1);
    }
}

pub open spec fn exclude_blocks(excludes: Seq<Option<NumericCidr>>) -> Seq<NumericCidr> {
    excludes.map_values(|block: Option<NumericCidr>| block->Some_0)
}

/// All routes of the plan before the exclusions are applied.
pub open spec fn wanted_routes(
    config: ClientConfig,
    addresses: Seq<NetworkAddress>,
    includes: Seq<IncludeText>,
    servers: Seq<DnsView>,
    pushed: Seq<RouteView>,
) -> Result<Seq<RouteView>, PlanError> {
    match with_includes(pushed, includes, addresses, includes.len() as int) {
        Err(error) => Err(error),
        Ok(routes) => match with_local(routes, config.routing.route_local_networks, addresses) {
            Err(error) => Err(error),
            Ok(routes) => with_dns(routes, servers, addresses, servers.len() as int),
        },
    }
}

/// The routes of the plan, or why there is none.
pub open spec fn plan_outcome(
    config: ClientConfig,
    network: HandshakeNetwork,
    texts: PlanTexts,
    on_link_fits: bool,
    dns: Result<Seq<DnsView>, DnsError>,
    pushed: Result<Seq<RouteView>, RouteError>,
    max_routes: nat,
) -> Result<Seq<RouteView>, PlanError> {
    let addresses = network.addresses@;
    let has_ipv6 = has_family(addresses, NetworkAddressFamily::Ipv6);
    if !(0 <= network.mtu <= u16::MAX) {
        Err(PlanError::InvalidMtu)
    } else if config.routing.ipv6 is Off && has_ipv6 {
        Err(PlanError::Ipv6ThoughOff)
    } else if config.routing.ipv6 is Required && !has_ipv6 {
        Err(PlanError::NoIpv6ThoughRequired)
    } else if gateway_problem(addresses, texts, addresses.len() as int) is Some {
        Err(gateway_problem(addresses, texts, addresses.len() as int)->Some_0)
    } else if !on_link_fits {
        Err(PlanError::InvalidOnLinkPrefix)
    } else {
        match dns {
            Err(error) => Err(PlanError::Dns(error)),
            Ok(servers) => if is_full(config.routing) && config.dns.mode@ == "tunnel"@
                && servers.len() == 0 {
                Err(PlanError::NoResolver)
            } else if dns_problem(servers, texts.excludes@, servers.len() as int) is Some {
                Err(dns_problem(servers, texts.excludes@, servers.len() as int)->Some_0)
            } else {
                match pushed {
                    Err(error) => Err(PlanError::Route(error)),
                    Ok(pushed) => match wanted_routes(
                        config,
                        addresses,
                        texts.includes@,
                        servers,
                        pushed,
                    ) {
                        Err(error) => Err(error),
                        Ok(routes) => match first_bad_exclude(
                            texts.excludes@,
                            texts.excludes@.len() as int,
                        ) {
                            Some(i) => Err(PlanError::InvalidExcludeBlock { exclude: i as usize }),
                            None => match routes_left(
                                routes,
                                exclude_blocks(texts.excludes@),
                                host_blocks(servers),
                                max_routes,
                            ) {
                                None => Err(PlanError::TooManyRoutes),
                                Some(left) => Ok(left),
                            },
                        },
                    },
                }
            },
        }
    }
}

/// What a plan says beside its routes.
pub open spec fn plan_fields(
    plan: NetworkPlan,
    config: ClientConfig,
    generation: u64,
    network: HandshakeNetwork,
    servers: Seq<DnsView>,
    pushed: Seq<RouteView>,
) -> bool {
    &&& plan.generation == generation
    &&& plan.family_mode == network.family_mode
    &&& plan.addresses@.len() == network.addresses@.len()
    &&& forall|i: int|
        0 <= i < plan.addresses@.len() ==> (#[trigger] plan.addresses@[i])@ == device_address(
            network.addresses@[i],
            lowered(config.device_type@) == lowered("tap"@),
        )
    &&& plan.tunnel_address@ == network.client_ip@
    &&& plan.prefix_len == tunnel_prefix(network.addresses@, network.client_ip@, network.prefix)
    &&& plan.mtu == network.mtu
    &&& plan.tunnel_gateway@ == network.tunnel_gateway@
    &&& plan.carrier_address is None
    &&& plan.pushed_routes@ == blocks_of(pushed)
    &&& dns_views(plan.dns_servers@) == servers
    &&& plan.full_tunnel == is_full(config.routing)
    &&& plan.kill_switch == (config.routing.kill_switch && is_full(config.routing))
    &&& plan.allow_ipv4_leak == config.routing.allow_ipv4_leak
    &&& plan.allow_ipv6_leak == config.routing.allow_ipv6_leak
    &&& plan.blocks_valid()
    &&& plan.max_streams == 1
    &&& !plan.adaptive
    &&& plan.connection_log@.len() == 0
}

fn push_route(routes: &mut Vec<NetworkRoute>, block: NumericCidr, gateway: String, metric: u32)
    requires
        block.valid(),
        all_valid(blocks_of(route_views(old(routes)@))),
    ensures
        route_views(final(routes)@) == route_views(old(routes)@).push(
            RouteView { block, gateway: gateway@, metric },
        ),
        all_valid(blocks_of(route_views(final(routes)@))),
{
    let ghost before = routes@;
    routes.push(NetworkRoute { block, gateway, metric });
    assert(route_views(routes@) =~= route_views(before).push(
        RouteView { block, gateway: gateway@, metric },
    ));
    assert(blocks_of(route_views(routes@)) =~= blocks_of(route_views(before)).push(block));
}

proof fn lemma_local_blocks_valid()
    ensures
        all_valid(local_blocks()),
{
    lemma2_to64();
    vstd::arithmetic::power2::lemma2_to64_rest();
    assert(pow2(24) == 0x100_0000);
    assert(pow2(20) == 0x10_0000);
    assert(pow2(16) == 0x1_0000);
    assert(pow2(32) == 0x1_0000_0000);
    assert forall|i: int| 0 <= i < local_blocks().len() implies (#[trigger]
    local_blocks()[i]).valid() by {
        let block = local_blocks()[i];
        if i == 0 {
            assert(block.size() == 0x100_0000);
        } else if i == 1 {
            assert(block.size() == 0x10_0000);
        } else {
            assert(block.size() == 0x1_0000);
        }
    }
}

/// Adds the routes that the client wants beside the pushed ones.
fn extend_routes(
    config: &ClientConfig,
    addresses: &Vec<NetworkAddress>,
    texts: &PlanTexts,
    servers: &Vec<PlannedDns>,
    pushed: Vec<NetworkRoute>,
) -> (result: Result<Vec<NetworkRoute>, PlanError>)
    requires
        texts.valid(),
        all_valid(blocks_of(route_views(pushed@))),
    ensures
        ({
            let expected = wanted_routes(
                *config,
                addresses@,
                texts.includes@,
                dns_views(servers@),
                route_views(pushed@),
            );
            match result {
                Ok(routes) => expected == Ok::<Seq<RouteView>, PlanError>(route_views(routes@))
                    && all_valid(blocks_of(route_views(routes@))),
                Err(error) => expected == Err::<Seq<RouteView>, PlanError>(error),
            }
        }),
{
    let mut routes = pushed;
    let ghost first = route_views(pushed@);
    let mut i: usize = 0;
    while i < texts.includes.len()
        invariant
            i <= texts.includes@.len(),
            texts.valid(),
            first == route_views(pushed@),
            all_valid(blocks_of(route_views(routes@))),
            with_includes(first, texts.includes@, addresses@, i as int) == Ok::<
                Seq<RouteView>,
                PlanError,
            >(route_views(routes@)),
        decreases texts.includes@.len() - i,
    {
        let request = texts.includes[i];
        proof {
            if include_route(request, addresses@, i as int) is Err {
                lemma_include_error_stays(
                    first,
                    texts.includes@,
                    addresses@,
                    i + 1,
                    texts.includes@.len() as int,
                );
            }
        }
        let (address, block) = match (request.address, request.block) {
            (Some(address), Some(block)) => (address, block),
            _ => return Err(PlanError::InvalidInclude { route: i }),
        };
        if !family_is_active(addresses, ip_family(address)) {
            let family = if block.bits == 32 {
                NetworkAddressFamily::Ipv4
            } else {
                NetworkAddressFamily::Ipv6
            };
            return Err(PlanError::InactiveInclude { route: i, family });
        }
        let gateway = match gateway_for_family(addresses, ip_family(address)) {
            Some(gateway) => gateway,
            None => return Err(PlanError::Route(RouteError::NoGateway(ip_family(address)))),
        };
        push_route(&mut routes, block, gateway, 100);
        i += 1;
    }
    let ghost included = route_views(routes@);
    if config.routing.route_local_networks && family_is_active(
        addresses,
        NetworkAddressFamily::Ipv4,
    ) {
        let gateway = match gateway_for_family(addresses, NetworkAddressFamily::Ipv4) {
            Some(gateway) => gateway,
            None => return Err(
                PlanError::Route(RouteError::NoGateway(NetworkAddressFamily::Ipv4)),
            ),
        };
        proof {
            lemma_local_blocks_valid();
            assert(local_blocks()[0].valid() && local_blocks()[1].valid()
                && local_blocks()[2].valid());
        }
        push_route(
            &mut routes,
            NumericCidr { start: 0x0a00_0000, prefix: 8, bits: 32 },
            gateway.clone(),
            100,
        );
        push_route(
            &mut routes,
            NumericCidr { start: 0xac10_0000, prefix: 12, bits: 32 },
            gateway.clone(),
            100,
        );
        push_route(
            &mut routes,
            NumericCidr { start: 0xc0a8_0000, prefix: 16, bits: 32 },
            gateway.clone(),
            100,
        );
        assert(route_views(routes@) =~= included + local_routes(gateway@));
    }
    let ghost local = route_views(routes@);
    let ghost views = dns_views(servers@);
    let mut k: usize = 0;
    while k < servers.len()
        invariant
            k <= servers@.len(),
            views == dns_views(servers@),
            first == route_views(pushed@),
            with_includes(first, texts.includes@, addresses@, texts.includes@.len() as int) == Ok::<
                Seq<RouteView>,
                PlanError,
            >(included),
            with_local(included, config.routing.route_local_networks, addresses@) == Ok::<
                Seq<RouteView>,
                PlanError,
            >(local),
            all_valid(blocks_of(route_views(routes@))),
            with_dns(local, views, addresses@, k as int) == Ok::<Seq<RouteView>, PlanError>(
                route_views(routes@),
            ),
        decreases servers@.len() - k,
    {
        let ip = servers[k].ip;
        assert(views[k as int].ip == ip);
        let host = ip.host_block();
        if !routes_have_block(&routes, host) {
            let gateway = match gateway_for_family(addresses, ip_family(ip)) {
                Some(gateway) => gateway,
                None => {
                    proof {
                        lemma_with_dns_error_stays(
                            local,
                            views,
                            addresses@,
                            k + 1,
                            views.len() as int,
                        );
                    }
                    return Err(PlanError::Route(RouteError::NoGateway(ip_family(ip))));
                },
            };
            push_route(&mut routes, host, gateway, 50);
        }
        k += 1;
    }
    Ok(routes)
}

fn routes_have_block(routes: &Vec<NetworkRoute>, block: NumericCidr) -> (found: bool)
    ensures
        found == has_block(route_views(routes@), block),
{
    let mut i: usize = 0;
    while i < routes.len()
        invariant
            i <= routes@.len(),
            forall|j: int| 0 <= j < i ==> (#[trigger] route_views(routes@)[j]).block != block,
        decreases routes@.len() - i,
    {
        if routes[i].block == block {
            assert(route_views(routes@)[i as int].block == block);
            return true;
        }
        i += 1;
    }
    false
}

/// All excluded blocks, or the position of the first that is none.
fn read_excludes(excludes: &Vec<Option<NumericCidr>>) -> (result: Result<Vec<NumericCidr>, usize>)
    requires
        forall|i: int|
            0 <= i < excludes@.len() ==> ((#[trigger] excludes@[i]) matches Some(block)
                ==> block.valid()),
    ensures
        match result {
            Ok(blocks) => {
                &&& first_bad_exclude(excludes@, excludes@.len() as int) is None
                &&& blocks@ == exclude_blocks(excludes@)
                &&& all_valid(blocks@)
            },
            Err(i) => first_bad_exclude(excludes@, excludes@.len() as int) == Some(i as int),
        },
{
    let mut blocks: Vec<NumericCidr> = Vec::new();
    let mut k: usize = 0;
    while k < excludes.len()
        invariant
            k <= excludes@.len(),
            forall|i: int|
                0 <= i < excludes@.len() ==> ((#[trigger] excludes@[i]) matches Some(block)
                    ==> block.valid()),
            all_valid(blocks@),
            first_bad_exclude(excludes@, k as int) is None,
            blocks@ =~= exclude_blocks(excludes@).take(k as int),
        decreases excludes@.len() - k,
    {
        match excludes[k] {
            None => {
                proof {
                    lemma_bad_exclude_stays(excludes@, k + 1, excludes@.len() as int);
                }
                return Err(k);
            },
            Some(block) => {
                blocks.push(block);
            },
        }
        k += 1;
    }
    assert(blocks@ =~= exclude_blocks(excludes@));
    Ok(blocks)
}

/// Makes the plan from a request and from what its texts denote. `dns` and `pushed` are the
/// choice of resolvers and the accepted pushed routes; `on_link_fits` says whether the on-link
/// prefix of an IPv4 tunnel address is an IPv4 prefix.
pub fn assemble_plan(
    config: &ClientConfig,
    generation: u64,
    network: &HandshakeNetwork,
    texts: &PlanTexts,
    on_link_fits: bool,
    dns: Result<Vec<PlannedDns>, DnsError>,
    pushed: Result<Vec<NetworkRoute>, RouteError>,
    max_routes: usize,
) -> (result: Result<NetworkPlan, PlanError>)
    requires
        texts.valid(),
        texts.gateways@.len() == network.addresses@.len(),
        pushed matches Ok(routes) ==> all_valid(blocks_of(route_views(routes@))),
        max_routes < usize::MAX,
    ensures
        ({
            let servers = match dns {
                Ok(servers) => Ok::<Seq<DnsView>, DnsError>(dns_views(servers@)),
                Err(error) => Err(error),
            };
            let routes = match pushed {
                Ok(routes) => Ok::<Seq<RouteView>, RouteError>(route_views(routes@)),
                Err(error) => Err(error),
            };
            let expected = plan_outcome(
                *config,
                *network,
                *texts,
                on_link_fits,
                servers,
                routes,
                max_routes as nat,
            );
            match result {
                Ok(plan) => {
                    &&& expected == Ok::<Seq<RouteView>, PlanError>(route_views(plan.routes@))
                    &&& plan_fields(
                        plan,
                        *config,
                        generation,
                        *network,
                        servers->Ok_0,
                        routes->Ok_0,
                    )
                },
                Err(error) => expected == Err::<Seq<RouteView>, PlanError>(error),
            }
        }),
{
    if network.mtu < 0 || network.mtu > 65535 {
        return Err(PlanError::InvalidMtu);
    }
    let mtu: u16 = network.mtu as u16;
    let has_ipv6 = family_is_active(&network.addresses, NetworkAddressFamily::Ipv6);
    match config.routing.ipv6 {
        ClientIpv6Policy::Off => if has_ipv6 {
            return Err(PlanError::Ipv6ThoughOff);
        },
        ClientIpv6Policy::Required => if !has_ipv6 {
            return Err(PlanError::NoIpv6ThoughRequired);
        },
        ClientIpv6Policy::Auto => {},
    }
    if let Some(error) = check_gateways(&network.addresses, texts) {
        return Err(error);
    }
    if !on_link_fits {
        return Err(PlanError::InvalidOnLinkPrefix);
    }
    let full_tunnel = is_full_tunnel(config);
    let dns_servers = match dns {
        Ok(servers) => servers,
        Err(error) => return Err(PlanError::Dns(error)),
    };
    if full_tunnel && same_text(config.dns.mode.as_str(), "tunnel") && dns_servers.len() == 0 {
        return Err(PlanError::NoResolver);
    }
    if let Some(error) = check_dns(&dns_servers, texts) {
        return Err(error);
    }
    let pushed = match pushed {
        Ok(routes) => routes,
        Err(error) => return Err(PlanError::Route(error)),
    };
    let mut pushed_blocks: Vec<NumericCidr> = Vec::new();
    let ghost blocks = blocks_of(route_views(pushed@));
    let mut i: usize = 0;
    while i < pushed.len()
        invariant
            i <= pushed@.len(),
            blocks == blocks_of(route_views(pushed@)),
            pushed_blocks@ =~= blocks.take(i as int),
        decreases pushed@.len() - i,
    {
        pushed_blocks.push(pushed[i].block);
        i += 1;
    }
    assert(pushed_blocks@ =~= blocks);
    let routes = match extend_routes(config, &network.addresses, texts, &dns_servers, pushed) {
        Ok(routes) => routes,
        Err(error) => return Err(error),
    };
    let excludes = match read_excludes(&texts.excludes) {
        Ok(excludes) => excludes,
        Err(exclude) => return Err(PlanError::InvalidExcludeBlock { exclude }),
    };
    let mut protected: Vec<NumericCidr> = Vec::new();
    let ghost hosts = host_blocks(dns_views(dns_servers@));
    let mut m: usize = 0;
    while m < dns_servers.len()
        invariant
            m <= dns_servers@.len(),
            hosts == host_blocks(dns_views(dns_servers@)),
            protected@ =~= hosts.take(m as int),
        decreases dns_servers@.len() - m,
    {
        protected.push(dns_servers[m].ip.host_block());
        m += 1;
    }
    assert(protected@ =~= hosts);
    let left = match apply_route_exclusions(&routes, &excludes, &protected, max_routes) {
        Some(left) => left,
        None => return Err(PlanError::TooManyRoutes),
    };
    Ok(
        NetworkPlan {
            generation,
            family_mode: network.family_mode,
            addresses: addresses_for_client_device(config, &network.addresses),
            tunnel_address: network.client_ip.clone(),
            prefix_len: find_tunnel_prefix(network),
            mtu,
            tunnel_gateway: network.tunnel_gateway.clone(),
            carrier_address: None,
            routes: left,
            pushed_routes: pushed_blocks,
            dns_servers,
            full_tunnel,
            kill_switch: config.routing.kill_switch && full_tunnel,
            allow_ipv4_leak: config.routing.allow_ipv4_leak,
            allow_ipv6_leak: config.routing.allow_ipv6_leak,
            max_streams: 1,
            adaptive: false,
            connection_log: Vec::new(),
        },
    )
}

/// What the texts of a request denote.
pub open spec fn texts_of(config: ClientConfig, network: HandshakeNetwork, texts: PlanTexts) -> bool {
    &&& texts.gateways@ == network.addresses@.map_values(
        |assigned: NetworkAddress| opt_ip_of(opt_text(assigned.gateway)),
    )
    &&& texts.excludes@ == config.routing.exclude_routes@.map_values(
        |text: String| block_of_text(text@),
    )
    &&& texts.includes@ == config.routing.include_routes@.map_values(
        |text: String|
            IncludeText {
                address: opt_ip_of(before_slash(text@)),
                block: block_of_text(text@),
            },
    )
}

fn read_texts(config: &ClientConfig, network: &HandshakeNetwork) -> (texts: PlanTexts)
    ensures
        texts_of(*config, *network, texts),
        texts.valid(),
        texts.gateways@.len() == network.addresses@.len(),
{
    let mut gateways: Vec<Option<IpAddress>> = Vec::new();
    let ghost all_gateways = network.addresses@.map_values(
        |assigned: NetworkAddress| opt_ip_of(opt_text(assigned.gateway)),
    );
    let mut i: usize = 0;
    while i < network.addresses.len()
        invariant
            i <= network.addresses@.len(),
            all_gateways == network.addresses@.map_values(
                |assigned: NetworkAddress| opt_ip_of(opt_text(assigned.gateway)),
            ),
            gateways@ =~= all_gateways.take(i as int),
        decreases network.addresses@.len() - i,
    {
        gateways.push(
            match &network.addresses[i].gateway {
                Some(text) => parse_ip(text.as_str()),
                None => None,
            },
        );
        i += 1;
    }
    assert(gateways@ =~= all_gateways);
    let mut excludes: Vec<Option<NumericCidr>> = Vec::new();
    let ghost all_excludes = config.routing.exclude_routes@.map_values(
        |text: String| block_of_text(text@),
    );
    let mut k: usize = 0;
    while k < config.routing.exclude_routes.len()
        invariant
            k <= config.routing.exclude_routes@.len(),
            all_excludes == config.routing.exclude_routes@.map_values(
                |text: String| block_of_text(text@),
            ),
            excludes@ =~= all_excludes.take(k as int),
            forall|j: int|
                0 <= j < excludes@.len() ==> ((#[trigger] excludes@[j]) matches Some(block)
                    ==> block.valid()),
        decreases config.routing.exclude_routes@.len() - k,
    {
        excludes.push(parse_block(config.routing.exclude_routes[k].as_str()));
        k += 1;
    }
    assert(excludes@ =~= all_excludes);
    let mut includes: Vec<IncludeText> = Vec::new();
    let ghost all_includes = config.routing.include_routes@.map_values(
        |text: String|
            IncludeText {
                address: opt_ip_of(before_slash(text@)),
                block: block_of_text(text@),
            },
    );
    let mut m: usize = 0;
    while m < config.routing.include_routes.len()
        invariant
            m <= config.routing.include_routes@.len(),
            all_includes == config.routing.include_routes@.map_values(
                |text: String|
                    IncludeText {
                        address: opt_ip_of(before_slash(text@)),
                        block: block_of_text(text@),
                    },
            ),
            includes@ =~= all_includes.take(m as int),
            forall|j: int|
                0 <= j < includes@.len() ==> ((#[trigger] includes@[j]).block matches Some(block)
                    ==> block.valid()),
        decreases config.routing.include_routes@.len() - m,
    {
        let text = config.routing.include_routes[m].as_str();
        let address = match split_before_slash(text) {
            Some(head) => parse_ip(head),
            None => None,
        };
        includes.push(IncludeText { address, block: parse_block(text) });
        m += 1;
    }
    assert(includes@ =~= all_includes);
    PlanTexts { gateways, excludes, includes }
}

/// Whether the plan is a legacy one: IPv4 only, with no address of the other family.
pub open spec fn is_legacy(network: HandshakeNetwork) -> bool {
    network.family_mode is Ipv4 && !has_family(network.addresses@, NetworkAddressFamily::Ipv6)
}

/// The IPv4 address of the tunnel and the netmask of its subnet.
pub open spec fn tunnel_subnet(network: HandshakeNetwork) -> Option<(u32, u32)> {
    match ip_of_text(network.client_ip@) {
        Some(IpAddress::V4(address)) => Some(
            (
                address,
                netmask(tunnel_prefix(network.addresses@, network.client_ip@, network.prefix)),
            ),
        ),
        _ => None,
    }
}

/// The resolvers that a request leads to. An empty pushed list of a plan with self-described
/// addresses means that the server pushed none, not that the handshake is a legacy one.
pub open spec fn chosen_dns(config: ClientConfig, network: HandshakeNetwork) -> Result<
    Seq<DnsView>,
    DnsError,
> {
    if network.dns_servers@.len() == 0 && is_legacy(network) {
        legacy_dns(
            config.dns.mode@,
            resolved(config.dns.servers@),
            resolved(config.dns.fallback_servers@),
            resolved(network.fallback_dns_servers@),
            network.dns_ip@,
            ip_of_text(network.dns_ip@),
            network.dns_port@,
            tunnel_subnet(network),
            is_full(config.routing),
        )
    } else {
        family_dns(
            config.dns.mode@,
            resolved(config.dns.servers@),
            resolved(config.dns.fallback_servers@),
            resolved(network.fallback_dns_servers@),
            resolved_servers(network.dns_servers@),
            network.addresses@,
        )
    }
}

/// The pushed routes that a request leads to.
pub open spec fn chosen_pushed(network: HandshakeNetwork) -> Result<Seq<RouteView>, RouteError> {
    pushed_routes(
        candidates_of(network.routes@),
        network.addresses@,
        opt_ip_of(family_gateway(network.addresses@, NetworkAddressFamily::Ipv4)),
        opt_ip_of(family_gateway(network.addresses@, NetworkAddressFamily::Ipv6)),
    )
}

/// Whether the on-link prefix of an IPv4 tunnel address is an IPv4 prefix.
pub open spec fn on_link_prefix_fits(network: HandshakeNetwork) -> bool {
    ip_of_text(network.client_ip@) matches Some(IpAddress::V4(_)) ==> 1 <= tunnel_prefix(
        network.addresses@,
        network.client_ip@,
        network.prefix,
    ) <= 32
}

/// Chooses the resolvers of a request, unless the on-link prefix of an IPv4 tunnel address is no
/// IPv4 prefix.
pub(crate) fn choose_plan_dns(config: &ClientConfig, network: &HandshakeNetwork) -> (choice: Option<
    Result<Vec<PlannedDns>, DnsError>,
>)
    ensures
        choice is Some <==> on_link_prefix_fits(*network),
        match choice {
            Some(Ok(servers)) => chosen_dns(*config, *network) == Ok::<Seq<DnsView>, DnsError>(
                dns_views(servers@),
            ),
            Some(Err(error)) => chosen_dns(*config, *network) == Err::<Seq<DnsView>, DnsError>(
                error,
            ),
            None => true,
        },
{
    let prefix: u8 = find_tunnel_prefix(network);
    let subnet = match parse_ip(network.client_ip.as_str()) {
        Some(IpAddress::V4(address)) => {
            if prefix < 1 || prefix > 32 {
                return None;
            }
            Some((address, prefix_to_netmask(prefix)))
        },
        _ => None,
    };
    let legacy = match network.family_mode {
        NetworkFamilyMode::Ipv4 => !family_is_active(
            &network.addresses,
            NetworkAddressFamily::Ipv6,
        ),
        _ => false,
    };
    Some(
        if network.dns_servers.len() == 0 && legacy {
            planned_dns_servers(
                &config.dns,
                network.dns_ip.as_str(),
                network.dns_port.as_str(),
                subnet,
                is_full_tunnel(config),
                &network.fallback_dns_servers,
            )
        } else {
            planned_dns_servers_v2(
                &config.dns,
                &network.dns_servers,
                &network.addresses,
                &network.fallback_dns_servers,
            )
        },
    )
}

/// Makes the plan of a request, or says why there is none.
pub fn build_network_plan(
    config: &ClientConfig,
    generation: u64,
    network: &HandshakeNetwork,
    max_routes: usize,
) -> (result: Result<NetworkPlan, PlanError>)
    requires
        max_routes < usize::MAX,
    ensures
        exists|texts: PlanTexts| #[trigger]
            texts_of(*config, *network, texts) && {
                let dns = chosen_dns(*config, *network);
                let pushed = chosen_pushed(*network);
                let expected = plan_outcome(
                    *config,
                    *network,
                    texts,
                    on_link_prefix_fits(*network),
                    dns,
                    pushed,
                    max_routes as nat,
                );
                match result {
                    Ok(plan) => {
                        &&& expected == Ok::<Seq<RouteView>, PlanError>(route_views(plan.routes@))
                        &&& plan_fields(
                            plan,
                            *config,
                            generation,
                            *network,
                            dns->Ok_0,
                            pushed->Ok_0,
                        )
                    },
                    Err(error) => expected == Err::<Seq<RouteView>, PlanError>(error),
                }
            },
{
    let texts = read_texts(config, network);
    let pushed = planned_pushed_routes_for_addresses(&network.routes, &network.addresses);
    let (fits, dns) = match choose_plan_dns(config, network) {
        Some(dns) => (true, dns),
        None => (false, Err(DnsError::TooManyServers)),
    };
    let result = assemble_plan(config, generation, network, &texts, fits, dns, pushed, max_routes);
    assert(texts_of(*config, *network, texts));
    result
}

/// A plan never sends excluded traffic into the tunnel, beside the host routes of its resolvers:
/// an address that an exclusion has is reached by a route of the plan only where that address is
/// a resolver.
pub proof fn law_plan_keeps_exclusions_out(
    config: ClientConfig,
    network: HandshakeNetwork,
    texts: PlanTexts,
    on_link_fits: bool,
    dns: Result<Seq<DnsView>, DnsError>,
    pushed: Result<Seq<RouteView>, RouteError>,
    max_routes: nat,
    address: IpAddress,
)
    requires
        texts.valid(),
        pushed matches Ok(routes) ==> all_valid(blocks_of(routes)),
        plan_outcome(config, network, texts, on_link_fits, dns, pushed, max_routes) is Ok,
        crate::cidr::covered(
            exclude_blocks(texts.excludes@),
            address.width(),
            address.number(),
        ),
        crate::cidr::covered(
            blocks_of(
                plan_outcome(
                    config,
                    network,
                    texts,
                    on_link_fits,
                    dns,
                    pushed,
                    max_routes,
                )->Ok_0,
            ),
            address.width(),
            address.number(),
        ),
    ensures
        exists|i: int|
            0 <= i < dns->Ok_0.len() && (#[trigger] dns->Ok_0[i]).ip == address,
{
    let servers = dns->Ok_0;
    let routes = wanted_routes(
        config,
        network.addresses@,
        texts.includes@,
        servers,
        pushed->Ok_0,
    )->Ok_0;
    let excludes = exclude_blocks(texts.excludes@);
    let protected = host_blocks(servers);
    lemma_wanted_valid(config, network.addresses@, texts, servers, pushed->Ok_0);
    lemma_no_bad_exclude(texts.excludes@, texts.excludes@.len() as int);
    assert(all_valid(excludes)) by {
        assert forall|i: int| 0 <= i < excludes.len() implies (#[trigger] excludes[i]).valid() by {
            assert(texts.excludes@[i] is Some);
        }
    }
    crate::routes::law_exclusions_are_exact(
        routes,
        excludes,
        protected,
        max_routes,
        address.width(),
        address.number(),
    );
    let i = choose|i: int|
        0 <= i < routes.len() && (#[trigger] routes[i]).block.bits == address.width()
            && routes[i].block.has(address.number()) && (protected.contains(routes[i].block)
            || !crate::cidr::covered(excludes, address.width(), address.number()));
    let k = choose|k: int| 0 <= k < protected.len() && protected[k] == routes[i].block;
    assert(protected[k] == servers[k].ip.host_block_spec());
    lemma_host_block_has(servers[k].ip, address);
}

proof fn lemma_host_block_has(ip: IpAddress, address: IpAddress)
    requires
        ip.host_block_spec().bits == address.width(),
        ip.host_block_spec().has(address.number()),
    ensures
        ip == address,
{
    lemma2_to64();
}

proof fn lemma_host_block_valid(ip: IpAddress)
    ensures
        ip.host_block_spec().valid(),
{
    lemma2_to64();
    crate::cidr::lemma_pow2_128();
}

proof fn lemma_no_bad_exclude(excludes: Seq<Option<NumericCidr>>, end: int)
    requires
        0 <= end <= excludes.len(),
        first_bad_exclude(excludes, end) is None,
    ensures
        forall|i: int| 0 <= i < end ==> (#[trigger] excludes[i]) is Some,
    decreases end,
{
    if end > 0 {
        lemma_no_bad_exclude(excludes, end - 1);
    }
}

proof fn lemma_wanted_valid(
    config: ClientConfig,
    addresses: Seq<NetworkAddress>,
    texts: PlanTexts,
    servers: Seq<DnsView>,
    pushed: Seq<RouteView>,
)
    requires
        texts.valid(),
        all_valid(blocks_of(pushed)),
    ensures
        wanted_routes(config, addresses, texts.includes@, servers, pushed) matches Ok(routes)
            ==> all_valid(blocks_of(routes)),
{
    lemma_includes_valid(pushed, texts, addresses, texts.includes@.len() as int);
    match with_includes(pushed, texts.includes@, addresses, texts.includes@.len() as int) {
        Ok(included) => {
            match with_local(included, config.routing.route_local_networks, addresses) {
                Ok(local) => {
                    assert(all_valid(blocks_of(local))) by {
                        lemma_local_blocks_valid();
                        assert forall|i: int| 0 <= i < local.len() implies (#[trigger] blocks_of(
                            local,
                        )[i]).valid() by {
                            if i < included.len() {
                                assert(blocks_of(local)[i] == blocks_of(included)[i]);
                            } else {
                                assert(blocks_of(local)[i] == local_blocks()[i - included.len()]);
                            }
                        }
                    }
                    lemma_with_dns_valid(local, servers, addresses, servers.len() as int);
                },
                Err(_) => {},
            }
        },
        Err(_) => {},
    }
}

proof fn lemma_includes_valid(
    pushed: Seq<RouteView>,
    texts: PlanTexts,
    addresses: Seq<NetworkAddress>,
    end: int,
)
    requires
        texts.valid(),
        all_valid(blocks_of(pushed)),
        0 <= end <= texts.includes@.len(),
    ensures
        with_includes(pushed, texts.includes@, addresses, end) matches Ok(routes) ==> all_valid(
            blocks_of(routes),
        ),
    decreases end,
{
    if end > 0 {
        lemma_includes_valid(pushed, texts, addresses, end - 1);
        match with_includes(pushed, texts.includes@, addresses, end - 1) {
            Ok(routes) => {
                match include_route(texts.includes@[end - 1], addresses, end - 1) {
                    Ok(route) => {
                        assert(blocks_of(routes.push(route)) =~= blocks_of(routes).push(
                            route.block,
                        ));
                    },
                    Err(_) => {},
                }
            },
            Err(_) => {},
        }
    }
}

proof fn lemma_with_dns_valid(
    routes: Seq<RouteView>,
    servers: Seq<DnsView>,
    addresses: Seq<NetworkAddress>,
    end: int,
)
    requires
        all_valid(blocks_of(routes)),
        0 <= end <= servers.len(),
    ensures
        with_dns(routes, servers, addresses, end) matches Ok(all) ==> all_valid(blocks_of(all)),
    decreases end,
{
    if end > 0 {
        lemma_with_dns_valid(routes, servers, addresses, end - 1);
        lemma_host_block_valid(servers[end - 1].ip);
        match with_dns(routes, servers, addresses, end - 1) {
            Ok(all) => {
                match family_gateway(addresses, family_of(servers[end - 1].ip)) {
                    Some(gateway) => {
                        let route = RouteView {
                            block: servers[end - 1].ip.host_block_spec(),
                            gateway,
                            metric: 50,
                        };
                        assert(blocks_of(all.push(route)) =~= blocks_of(all).push(route.block));
                    },
                    None => {},
                }
            },
            Err(_) => {},
        }
    }
}

/// The plan goes by the profile: all traffic goes into the tunnel exactly where the profile asks for
/// the default gateway or names the mode `full-tunnel` or `all`, and the kill switch is armed where
/// the profile asks for it and all traffic is in the tunnel. What the handshake and the profile say
/// beside that is taken over as it is.
pub proof fn law_plan_follows_the_profile(
    plan: NetworkPlan,
    config: ClientConfig,
    generation: u64,
    network: HandshakeNetwork,
    servers: Seq<DnsView>,
    pushed: Seq<RouteView>,
    i: int,
)
    requires
        plan_fields(plan, config, generation, network, servers, pushed),
    ensures
        config.routing.add_default_gateway ==> plan.full_tunnel,
        config.routing.mode@ == "full-tunnel"@ ==> plan.full_tunnel,
        config.routing.mode@ == "all"@ ==> plan.full_tunnel,
        !config.routing.add_default_gateway && config.routing.mode@ != "full-tunnel"@
            && config.routing.mode@ != "all"@ ==> !plan.full_tunnel,
        plan.kill_switch <==> config.routing.kill_switch && plan.full_tunnel,
        config.routing.kill_switch && config.routing.add_default_gateway ==> plan.kill_switch,
        plan.allow_ipv4_leak == config.routing.allow_ipv4_leak,
        plan.allow_ipv6_leak == config.routing.allow_ipv6_leak,
        plan.generation == generation,
        plan.family_mode == network.family_mode,
        plan.mtu == network.mtu,
        plan.tunnel_address@ == network.client_ip@,
        plan.tunnel_gateway@ == network.tunnel_gateway@,
        plan.addresses@.len() == network.addresses@.len(),
        0 <= i < plan.addresses@.len() ==> {
            let own = plan.addresses@[i];
            let assigned = network.addresses@[i];
            &&& own.family == assigned.family
            &&& own.address@ == assigned.address@
            &&& own.on_link_prefix_len == assigned.on_link_prefix_len
            &&& match assigned.gateway {
                Some(gateway) => own.gateway is Some && own.gateway->Some_0@ == gateway@,
                None => own.gateway is None,
            }
            &&& config.device_type@ == "tap"@ || config.device_type@ == "TAP"@ ==> own.prefix_len
                == assigned.on_link_prefix_len
            &&& config.device_type@ == "tun"@ && assigned.family is Ipv4 ==> own.prefix_len == 32
            &&& config.device_type@ == "tun"@ && assigned.family is Ipv6 ==> own.prefix_len == 128
        },
        plan.pushed_routes@.len() == pushed.len(),
        0 <= i < pushed.len() ==> plan.pushed_routes@[i] == pushed[i].block,
        plan.dns_servers@.len() == servers.len(),
        0 <= i < servers.len() ==> plan.dns_servers@[i].address@ == servers[i].address
            && plan.dns_servers@[i].port == servers[i].port && plan.dns_servers@[i].ip
            == servers[i].ip,
        plan.max_streams == 1,
        !plan.adaptive,
        plan.connection_log@.len() == 0,
        plan.carrier_address is None,
{
    reveal_strlit("tap");
    reveal_strlit("TAP");
    reveal_strlit("tun");
    assert(lowered("TAP"@) =~= lowered("tap"@));
    assert(lowered("tun"@)[1] == 'u');
    assert(lowered("tap"@)[1] == 'a');
    if 0 <= i < plan.addresses@.len() {
        let own = plan.addresses@[i];
        assert(own@ == device_address(
            network.addresses@[i],
            lowered(config.device_type@) == lowered("tap"@),
        ));
        assert(own@.gateway == opt_text(network.addresses@[i].gateway));
        assert(own@.address == network.addresses@[i].address@);
    }
    if 0 <= i < servers.len() {
        assert(dns_views(plan.dns_servers@)[i] == plan.dns_servers@[i]@);
    }
    assert(dns_views(plan.dns_servers@).len() == plan.dns_servers@.len());
}

/// The on-link prefix is that of the first assigned address that the tunnel address names; where it
/// names none, the pushed prefix counts, or 24 where that is no IPv4 prefix.
pub proof fn law_tunnel_prefix_is_that_of_its_address(
    addresses: Seq<NetworkAddress>,
    client_ip: Seq<char>,
    pushed: u8,
    first: int,
)
    requires
        0 <= first <= addresses.len(),
        forall|i: int| 0 <= i < first ==> (#[trigger] addresses[i]).address@ != client_ip,
        first < addresses.len() ==> addresses[first].address@ == client_ip,
    ensures
        first < addresses.len() ==> tunnel_prefix(addresses, client_ip, pushed)
            == addresses[first].on_link_prefix_len,
        first == addresses.len() && 1 <= pushed <= 32 ==> tunnel_prefix(
            addresses,
            client_ip,
            pushed,
        ) == pushed,
        first == addresses.len() && !(1 <= pushed <= 32) ==> tunnel_prefix(
            addresses,
            client_ip,
            pushed,
        ) == 24,
    decreases addresses.len(),
{
    if first > 0 {
        let rest = addresses.drop_first();
        assert(addresses[0].address@ != client_ip);
        assert forall|i: int| 0 <= i < first - 1 implies (#[trigger] rest[i]).address@
            != client_ip by {
            assert(rest[i] == addresses[i + 1]);
        }
        if first < addresses.len() {
            assert(rest[first - 1] == addresses[first]);
        }
        law_tunnel_prefix_is_that_of_its_address(rest, client_ip, pushed, first - 1);
    }
}

/// Under a netmask two addresses are the same exactly where they agree in the first `prefix` bits.
pub proof fn law_netmask_keeps_the_prefix(left: u32, right: u32, prefix: u8)
    requires
        1 <= prefix <= 32,
    ensures
        prefix < 32 ==> ((left & netmask(prefix) == right & netmask(prefix)) <==> left >> ((32
            - prefix) as u32) == right >> ((32 - prefix) as u32)),
        prefix == 32 ==> ((left & netmask(prefix) == right & netmask(prefix)) <==> left == right),
{
    let shift: u32 = (32 - prefix) as u32;
    if prefix < 32 {
        assert((left & (!0u32 << shift) == right & (!0u32 << shift)) <==> left >> shift == right
            >> shift) by (bit_vector)
            requires
                shift < 32,
        ;
    } else {
        assert((left & 0xffff_ffffu32 == right & 0xffff_ffffu32) <==> left == right)
            by (bit_vector);
    }
}

/// A handshake is a legacy one where it is for IPv4 alone and brings no address of IPv6; its subnet
/// is that of its IPv4 address. Its resolvers are chosen in the legacy way only where the server
/// described none.
pub proof fn law_legacy_handshakes(config: ClientConfig, network: HandshakeNetwork, address: u32)
    ensures
        is_legacy(network) <==> network.family_mode is Ipv4 && forall|i: int|
            0 <= i < network.addresses@.len() ==> (#[trigger] network.addresses@[i]).family is Ipv4,
        ip_of_text(network.client_ip@) == Some(IpAddress::V4(address)) ==> tunnel_subnet(network)
            == Some(
            (
                address,
                netmask(tunnel_prefix(network.addresses@, network.client_ip@, network.prefix)),
            ),
        ),
        ip_of_text(network.client_ip@) is None ==> tunnel_subnet(network) is None,
        network.dns_servers@.len() > 0 || !is_legacy(network) ==> chosen_dns(config, network)
            == family_dns(
            config.dns.mode@,
            resolved(config.dns.servers@),
            resolved(config.dns.fallback_servers@),
            resolved(network.fallback_dns_servers@),
            resolved_servers(network.dns_servers@),
            network.addresses@,
        ),
        network.dns_servers@.len() == 0 && is_legacy(network) ==> chosen_dns(config, network)
            == legacy_dns(
            config.dns.mode@,
            resolved(config.dns.servers@),
            resolved(config.dns.fallback_servers@),
            resolved(network.fallback_dns_servers@),
            network.dns_ip@,
            ip_of_text(network.dns_ip@),
            network.dns_port@,
            tunnel_subnet(network),
            is_full(config.routing),
        ),
{
    if !has_family(network.addresses@, NetworkAddressFamily::Ipv6) {
        assert forall|i: int| 0 <= i < network.addresses@.len() implies (#[trigger]
        network.addresses@[i]).family is Ipv4 by {
            if network.addresses@[i].family is Ipv6 {
                assert(network.addresses@[i].family == NetworkAddressFamily::Ipv6);
            }
        }
    }
}

proof fn lemma_includes_appended(
    pushed: Seq<RouteView>,
    includes: Seq<IncludeText>,
    addresses: Seq<NetworkAddress>,
    end: int,
)
    requires
        0 <= end <= includes.len(),
    ensures
        with_includes(pushed, includes, addresses, end) is Ok <==> forall|k: int|
            0 <= k < end ==> {
                &&& (#[trigger] includes[k]).address is Some
                &&& includes[k].block is Some
                &&& has_family(addresses, family_of(includes[k].address->Some_0))
                &&& family_gateway(addresses, family_of(includes[k].address->Some_0)) is Some
            },
        with_includes(pushed, includes, addresses, end) matches Ok(routes) ==> {
            &&& routes.len() == pushed.len() + end
            &&& routes.take(pushed.len() as int) == pushed
            &&& forall|k: int|
                0 <= k < end ==> {
                    let route = routes[pushed.len() + k];
                    &&& Some(route.block) == (#[trigger] includes[k]).block
                    &&& Some(route.gateway) == family_gateway(
                        addresses,
                        family_of(includes[k].address->Some_0),
                    )
                    &&& route.metric == 100
                }
        },
    decreases end,
{
    if end > 0 {
        lemma_includes_appended(pushed, includes, addresses, end - 1);
        let last = includes[end - 1];
        if with_includes(pushed, includes, addresses, end) is Ok {
            let before = with_includes(pushed, includes, addresses, end - 1)->Ok_0;
            let routes = with_includes(pushed, includes, addresses, end)->Ok_0;
            assert(routes.take(pushed.len() as int) =~= before.take(pushed.len() as int));
        }
    } else {
        assert(pushed.take(pushed.len() as int) =~= pushed);
    }
}

proof fn lemma_resolvers_appended(
    routes: Seq<RouteView>,
    servers: Seq<DnsView>,
    addresses: Seq<NetworkAddress>,
    end: int,
)
    requires
        0 <= end <= servers.len(),
    ensures
        (forall|k: int|
            0 <= k < end ==> family_gateway(addresses, family_of((#[trigger] servers[k]).ip))
                is Some) ==> with_dns(routes, servers, addresses, end) is Ok,
        with_dns(routes, servers, addresses, end) matches Ok(all) ==> {
            &&& routes.len() <= all.len() <= routes.len() + end
            &&& all.take(routes.len() as int) == routes
            &&& forall|k: int|
                0 <= k < end ==> has_block(all, (#[trigger] servers[k]).ip.host_block_spec())
            &&& forall|i: int|
                routes.len() <= i < all.len() ==> exists|k: int|
                    0 <= k < end && (#[trigger] all[i]).block == (#[trigger]
                    servers[k]).ip.host_block_spec() && all[i].metric == 50 && Some(all[i].gateway)
                        == family_gateway(addresses, family_of(servers[k].ip))
        },
    decreases end,
{
    if end > 0 {
        lemma_resolvers_appended(routes, servers, addresses, end - 1);
        if with_dns(routes, servers, addresses, end) is Ok {
            let before = with_dns(routes, servers, addresses, end - 1)->Ok_0;
            let all = with_dns(routes, servers, addresses, end)->Ok_0;
            assert(all.take(routes.len() as int) =~= before.take(routes.len() as int));
            assert forall|k: int| 0 <= k < end implies has_block(
                all,
                (#[trigger] servers[k]).ip.host_block_spec(),
            ) by {
                let block = servers[k].ip.host_block_spec();
                if has_block(before, block) {
                    let i = choose|i: int|
                        0 <= i < before.len() && (#[trigger] before[i]).block == block;
                    assert(all[i] == before[i]);
                } else {
                    assert(k == end - 1);
                    assert(all[before.len() as int].block == block);
                }
            }
            assert forall|i: int| routes.len() <= i < all.len() implies exists|k: int|
                0 <= k < end && (#[trigger] all[i]).block == (#[trigger]
                servers[k]).ip.host_block_spec() && all[i].metric == 50 && Some(all[i].gateway)
                    == family_gateway(addresses, family_of(servers[k].ip)) by {
                if i < before.len() {
                    assert(all[i] == before[i]);
                    let k = choose|k: int|
                        0 <= k < end - 1 && before[i].block == (#[trigger]
                        servers[k]).ip.host_block_spec() && before[i].metric == 50 && Some(
                            before[i].gateway,
                        ) == family_gateway(addresses, family_of(servers[k].ip));
                    assert(servers[k].ip.host_block_spec() == all[i].block);
                } else {
                    assert(servers[end - 1].ip.host_block_spec() == all[i].block);
                }
            }
        }
    } else {
        assert(routes.take(routes.len() as int) =~= routes);
    }
}

/// Whether an address is in one of the private networks: 10.0.0.0/8, 172.16.0.0/12 and
/// 192.168.0.0/16.
pub open spec fn is_private(address: IpAddress) -> bool {
    address matches IpAddress::V4(value) && (0x0a00_0000 <= value <= 0x0aff_ffff || 0xac10_0000
        <= value <= 0xac1f_ffff || 0xc0a8_0000 <= value <= 0xc0a8_ffff)
}

proof fn lemma_local_blocks_cover(address: IpAddress)
    ensures
        covered(local_blocks(), address.width(), address.number()) <==> is_private(address),
{
    vstd::arithmetic::power2::lemma2_to64();
    let blocks = local_blocks();
    assert(blocks[0].size() == 0x100_0000);
    assert(blocks[1].size() == 0x10_0000);
    assert(blocks[2].size() == 0x1_0000);
    if is_private(address) {
        if blocks[0].has(address.number()) {
            assert(blocks[0].bits == 32);
        } else if blocks[1].has(address.number()) {
            assert(blocks[1].bits == 32);
        } else {
            assert(blocks[2].bits == 32 && blocks[2].has(address.number()));
        }
    }
}

/// The plan reaches, through the tunnel, exactly these addresses: its resolvers; and what is not
/// excluded of the pushed routes, of the routes that the profile includes, and, where the profile
/// asks for them in a tunnel with IPv4, of the private networks.
pub proof fn law_plan_reaches_what_is_asked_for(
    config: ClientConfig,
    network: HandshakeNetwork,
    texts: PlanTexts,
    on_link_fits: bool,
    servers: Seq<DnsView>,
    pushed: Seq<RouteView>,
    max_routes: nat,
    left: Seq<RouteView>,
    address: IpAddress,
)
    requires
        texts.valid(),
        all_valid(blocks_of(pushed)),
        plan_outcome(config, network, texts, on_link_fits, Ok(servers), Ok(pushed), max_routes)
            == Ok::<Seq<RouteView>, PlanError>(left),
    ensures
        ({
            let resolver = exists|k: int| 0 <= k < servers.len() && (#[trigger] servers[k]).ip
                == address;
            let excluded = exists|k: int|
                0 <= k < texts.excludes@.len() && (#[trigger] texts.excludes@[k]) is Some
                    && texts.excludes@[k]->Some_0.has_ip(address);
            let in_pushed = exists|k: int|
                0 <= k < pushed.len() && (#[trigger] pushed[k]).block.has_ip(address);
            let in_included = exists|k: int|
                0 <= k < texts.includes@.len() && (#[trigger] texts.includes@[k]).block is Some
                    && texts.includes@[k].block->Some_0.has_ip(address);
            let in_local = config.routing.route_local_networks && has_family(
                network.addresses@,
                NetworkAddressFamily::Ipv4,
            ) && is_private(address);
            (exists|k: int| 0 <= k < left.len() && (#[trigger] left[k]).block.has_ip(address))
                <==> resolver || (!excluded && (in_pushed || in_included || in_local))
        }),
{
    let addresses = network.addresses@;
    let bits = address.width();
    let a = address.number();
    let included = with_includes(
        pushed,
        texts.includes@,
        addresses,
        texts.includes@.len() as int,
    )->Ok_0;
    let local = with_local(included, config.routing.route_local_networks, addresses)->Ok_0;
    let routes = wanted_routes(config, addresses, texts.includes@, servers, pushed)->Ok_0;
    let excludes = exclude_blocks(texts.excludes@);
    let protected = host_blocks(servers);
    lemma_wanted_valid(config, addresses, texts, servers, pushed);
    lemma_no_bad_exclude(texts.excludes@, texts.excludes@.len() as int);
    assert(all_valid(excludes)) by {
        assert forall|i: int| 0 <= i < excludes.len() implies (#[trigger] excludes[i]).valid() by {
            assert(texts.excludes@[i] is Some);
        }
    }
    crate::routes::law_exclusions_are_exact(routes, excludes, protected, max_routes, bits, a);
    lemma_includes_appended(pushed, texts.includes@, addresses, texts.includes@.len() as int);
    lemma_resolvers_appended(local, servers, addresses, servers.len() as int);
    lemma_local_blocks_cover(address);
    let resolver = exists|k: int| 0 <= k < servers.len() && (#[trigger] servers[k]).ip == address;
    let excluded = exists|k: int|
        0 <= k < texts.excludes@.len() && (#[trigger] texts.excludes@[k]) is Some
            && texts.excludes@[k]->Some_0.has_ip(address);
    let in_pushed = exists|k: int|
        0 <= k < pushed.len() && (#[trigger] pushed[k]).block.has_ip(address);
    let in_included = exists|k: int|
        0 <= k < texts.includes@.len() && (#[trigger] texts.includes@[k]).block is Some
            && texts.includes@[k].block->Some_0.has_ip(address);
    let in_local = config.routing.route_local_networks && has_family(
        addresses,
        NetworkAddressFamily::Ipv4,
    ) && is_private(address);
    assert(excluded <==> covered(excludes, bits, a)) by {
        if excluded {
            let k = choose|k: int|
                0 <= k < texts.excludes@.len() && (#[trigger] texts.excludes@[k]) is Some
                    && texts.excludes@[k]->Some_0.has_ip(address);
            assert(excludes[k].bits == bits && excludes[k].has(a));
        }
        if covered(excludes, bits, a) {
            let k = choose|k: int|
                0 <= k < excludes.len() && (#[trigger] excludes[k]).bits == bits
                    && excludes[k].has(a);
            assert(texts.excludes@[k] is Some);
        }
    }
    let reached = exists|k: int| 0 <= k < left.len() && (#[trigger] left[k]).block.has_ip(address);
    assert(reached <==> covered(blocks_of(left), bits, a)) by {
        if reached {
            let k = choose|k: int|
                0 <= k < left.len() && (#[trigger] left[k]).block.has_ip(address);
            assert(blocks_of(left)[k].bits == bits);
        }
        if covered(blocks_of(left), bits, a) {
            let k = choose|k: int|
                0 <= k < blocks_of(left).len() && (#[trigger] blocks_of(left)[k]).bits == bits
                    && blocks_of(left)[k].has(a);
            assert(left[k].block.has_ip(address));
        }
    }
    let kept = crate::routes::kept_address(routes, excludes, protected, bits, a);
    if kept {
        let i = choose|i: int|
            0 <= i < routes.len() && (#[trigger] routes[i]).block.bits == bits
                && routes[i].block.has(a) && (protected.contains(routes[i].block) || !covered(
                excludes,
                bits,
                a,
            ));
        if protected.contains(routes[i].block) {
            let k = choose|k: int| 0 <= k < protected.len() && protected[k] == routes[i].block;
            assert(protected[k] == servers[k].ip.host_block_spec());
            lemma_host_block_has(servers[k].ip, address);
        } else if i >= local.len() {
            let k = choose|k: int|
                0 <= k < servers.len() && routes[i].block == (#[trigger]
                servers[k]).ip.host_block_spec() && routes[i].metric == 50 && Some(
                    routes[i].gateway,
                ) == family_gateway(addresses, family_of(servers[k].ip));
            assert(protected[k] == routes[i].block);
        } else {
            assert(routes.take(local.len() as int)[i] == local[i]);
            if i < pushed.len() {
                assert(included.take(pushed.len() as int)[i] == pushed[i]);
                assert(local[i] == included[i]);
                assert(pushed[i].block.has_ip(address));
            } else if i < included.len() {
                assert(local[i] == included[i]);
                let k = i - pushed.len();
                assert(Some(included[pushed.len() + k].block) == texts.includes@[k].block);
                assert(texts.includes@[k].block is Some);
            } else {
                let k = i - included.len();
                assert(local[i].block == local_blocks()[k]);
                assert(local_blocks()[k].bits == bits && local_blocks()[k].has(a));
            }
        }
    }
    if resolver {
        let k = choose|k: int| 0 <= k < servers.len() && (#[trigger] servers[k]).ip == address;
        let block = servers[k].ip.host_block_spec();
        assert(has_block(routes, block));
        let i = choose|i: int| 0 <= i < routes.len() && (#[trigger] routes[i]).block == block;
        assert(protected[k] == block);
        vstd::arithmetic::power2::lemma2_to64();
        assert(block.has(a));
        assert(routes[i].block.bits == bits);
    }
    if !excluded && in_pushed {
        let k = choose|k: int| 0 <= k < pushed.len() && (#[trigger] pushed[k]).block.has_ip(address);
        assert(included.take(pushed.len() as int)[k] == pushed[k]);
        assert(local[k] == included[k]);
        assert(routes.take(local.len() as int)[k] == local[k]);
        assert(routes[k].block.bits == bits && routes[k].block.has(a));
    }
    if !excluded && in_included {
        let k = choose|k: int|
            0 <= k < texts.includes@.len() && (#[trigger] texts.includes@[k]).block is Some
                && texts.includes@[k].block->Some_0.has_ip(address);
        let i = pushed.len() + k;
        assert(Some(included[i].block) == texts.includes@[k].block);
        assert(local[i] == included[i]);
        assert(routes.take(local.len() as int)[i] == local[i]);
        assert(routes[i].block.bits == bits && routes[i].block.has(a));
    }
    if !excluded && in_local {
        let k = choose|k: int|
            0 <= k < local_blocks().len() && (#[trigger] local_blocks()[k]).bits == bits
                && local_blocks()[k].has(a);
        let i = included.len() + k;
        assert(local[i].block == local_blocks()[k]);
        assert(routes.take(local.len() as int)[i] == local[i]);
        assert(routes[i].block.bits == bits && routes[i].block.has(a));
    }
}

/// Each route of the plan goes through the gateway that it belongs to: a pushed one through its
/// own, with its own metric; any other through the gateway of a family of the tunnel, with metric
/// 100, or 50 for a resolver.
pub proof fn law_routes_go_through_their_gateway(
    config: ClientConfig,
    network: HandshakeNetwork,
    texts: PlanTexts,
    servers: Seq<DnsView>,
    pushed: Seq<RouteView>,
    routes: Seq<RouteView>,
    i: int,
)
    requires
        wanted_routes(config, network.addresses@, texts.includes@, servers, pushed) == Ok::<
            Seq<RouteView>,
            PlanError,
        >(routes),
        0 <= i < routes.len(),
    ensures
        i < pushed.len() ==> routes[i] == pushed[i],
        i >= pushed.len() ==> {
            &&& Some(routes[i].gateway) == family_gateway(
                network.addresses@,
                NetworkAddressFamily::Ipv4,
            ) || Some(routes[i].gateway) == family_gateway(
                network.addresses@,
                NetworkAddressFamily::Ipv6,
            )
            &&& routes[i].metric == 100 || (routes[i].metric == 50 && exists|k: int|
                0 <= k < servers.len() && (#[trigger] servers[k]).ip.host_block_spec()
                    == routes[i].block)
        },
{
    let addresses = network.addresses@;
    let included = with_includes(
        pushed,
        texts.includes@,
        addresses,
        texts.includes@.len() as int,
    )->Ok_0;
    let local = with_local(included, config.routing.route_local_networks, addresses)->Ok_0;
    lemma_includes_appended(pushed, texts.includes@, addresses, texts.includes@.len() as int);
    lemma_resolvers_appended(local, servers, addresses, servers.len() as int);
    if i < local.len() {
        assert(routes.take(local.len() as int)[i] == local[i]);
        if i < pushed.len() {
            assert(included.take(pushed.len() as int)[i] == pushed[i]);
            assert(local[i] == included[i]);
        } else if i < included.len() {
            assert(local[i] == included[i]);
            let k = i - pushed.len();
            let wished = texts.includes@[k];
            assert(wished.address is Some);
            assert(included[pushed.len() + k].metric == 100);
            assert(family_of(wished.address->Some_0) == NetworkAddressFamily::Ipv4 || family_of(
                wished.address->Some_0,
            ) == NetworkAddressFamily::Ipv6);
        } else {
            assert(local[i].metric == 100);
        }
    } else {
        let k = choose|k: int|
            0 <= k < servers.len() && routes[i].block == (#[trigger]
            servers[k]).ip.host_block_spec() && routes[i].metric == 50 && Some(routes[i].gateway)
                == family_gateway(addresses, family_of(servers[k].ip));
        assert(servers[k].ip.host_block_spec() == routes[i].block);
        assert(family_of(servers[k].ip) == NetworkAddressFamily::Ipv4 || family_of(servers[k].ip)
            == NetworkAddressFamily::Ipv6);
    }
}

proof fn lemma_no_gateway_problem(addresses: Seq<NetworkAddress>, texts: PlanTexts, end: int)
    requires
        0 <= end <= addresses.len(),
        forall|i: int|
            0 <= i < end && (#[trigger] addresses[i]).gateway is Some ==> texts.gateways@[i]
                is Some,
        forall|i: int, k: int|
            0 <= i < end && 0 <= k < texts.excludes@.len() && (#[trigger] addresses[i]).gateway
                is Some ==> (#[trigger] texts.excludes@[k]) is Some && (
            texts.excludes@[k]->Some_0.prefix < addresses[i].on_link_prefix_len
                || !texts.excludes@[k]->Some_0.has_ip(texts.gateways@[i]->Some_0)),
    ensures
        gateway_problem(addresses, texts, end) is None,
    decreases end,
{
    if end > 0 {
        lemma_no_gateway_problem(addresses, texts, end - 1);
        if addresses[end - 1].gateway is Some {
            lemma_no_gateway_conflict(
                texts.gateways@[end - 1]->Some_0,
                addresses[end - 1].on_link_prefix_len,
                texts.excludes@,
                end - 1,
                texts.excludes@.len() as int,
            );
        }
    }
}

proof fn lemma_no_gateway_conflict(
    gateway: IpAddress,
    on_link_prefix_len: u8,
    excludes: Seq<Option<NumericCidr>>,
    address: int,
    end: int,
)
    requires
        0 <= end <= excludes.len(),
        forall|k: int|
            0 <= k < end ==> (#[trigger] excludes[k]) is Some && (excludes[k]->Some_0.prefix
                < on_link_prefix_len || !excludes[k]->Some_0.has_ip(gateway)),
    ensures
        gateway_conflict(gateway, on_link_prefix_len, excludes, address, end) is None,
    decreases end,
{
    if end > 0 {
        lemma_no_gateway_conflict(gateway, on_link_prefix_len, excludes, address, end - 1);
    }
}

proof fn lemma_no_dns_problem(
    servers: Seq<DnsView>,
    excludes: Seq<Option<NumericCidr>>,
    end: int,
)
    requires
        0 <= end <= servers.len(),
        forall|k: int| 0 <= k < excludes.len() ==> (#[trigger] excludes[k]) is Some,
        forall|i: int, k: int|
            0 <= i < end && 0 <= k < excludes.len() ==> (#[trigger]
            excludes[k])->Some_0.prefix != (#[trigger] servers[i]).ip.width()
                || !excludes[k]->Some_0.has_ip(servers[i].ip),
    ensures
        dns_problem(servers, excludes, end) is None,
    decreases end,
{
    if end > 0 {
        lemma_no_dns_problem(servers, excludes, end - 1);
        lemma_no_host_conflict(servers[end - 1].ip, excludes, end - 1, excludes.len() as int);
    }
}

proof fn lemma_no_host_conflict(
    ip: IpAddress,
    excludes: Seq<Option<NumericCidr>>,
    server: int,
    end: int,
)
    requires
        0 <= end <= excludes.len(),
        forall|k: int| 0 <= k < end ==> (#[trigger] excludes[k]) is Some,
        forall|k: int|
            0 <= k < end ==> (#[trigger] excludes[k])->Some_0.prefix != ip.width()
                || !excludes[k]->Some_0.has_ip(ip),
    ensures
        host_conflict(ip, excludes, server, end) is None,
    decreases end,
{
    if end > 0 {
        lemma_no_host_conflict(ip, excludes, server, end - 1);
    }
}

proof fn lemma_bad_exclude_none(excludes: Seq<Option<NumericCidr>>, end: int)
    requires
        0 <= end <= excludes.len(),
        forall|k: int| 0 <= k < end ==> (#[trigger] excludes[k]) is Some,
    ensures
        first_bad_exclude(excludes, end) is None,
    decreases end,
{
    if end > 0 {
        lemma_bad_exclude_none(excludes, end - 1);
    }
}

/// A plan is owed to every request without a contradiction: an MTU of sixteen bits, addresses that
/// the profile's policy on IPv6 admits, gateways that are addresses and that no exclusion takes out
/// of their own subnet, resolvers where full-tunnel mode needs them and none of them excluded as a
/// host, exclusions and included routes that are blocks, gateways for what is to be routed, and
/// room for the routes.
pub proof fn law_proper_requests_get_a_plan(
    config: ClientConfig,
    network: HandshakeNetwork,
    texts: PlanTexts,
    servers: Seq<DnsView>,
    pushed: Seq<RouteView>,
    max_routes: nat,
)
    requires
        texts.valid(),
        all_valid(blocks_of(pushed)),
        0 <= network.mtu <= 65535,
        config.routing.ipv6 is Off ==> forall|i: int|
            0 <= i < network.addresses@.len() ==> (#[trigger] network.addresses@[i]).family is Ipv4,
        config.routing.ipv6 is Required ==> exists|i: int|
            0 <= i < network.addresses@.len() && (#[trigger] network.addresses@[i]).family is Ipv6,
        forall|i: int|
            0 <= i < network.addresses@.len() && (#[trigger] network.addresses@[i]).gateway is Some
                ==> texts.gateways@[i] is Some,
        forall|k: int| 0 <= k < texts.excludes@.len() ==> (#[trigger] texts.excludes@[k]) is Some,
        forall|i: int, k: int|
            0 <= i < network.addresses@.len() && 0 <= k < texts.excludes@.len() && (#[trigger]
            network.addresses@[i]).gateway is Some ==> (#[trigger]
            texts.excludes@[k])->Some_0.prefix < network.addresses@[i].on_link_prefix_len
                || !texts.excludes@[k]->Some_0.has_ip(texts.gateways@[i]->Some_0),
        servers.len() > 0 || config.dns.mode@ != "tunnel"@ || (!config.routing.add_default_gateway
            && config.routing.mode@ != "full-tunnel"@ && config.routing.mode@ != "all"@),
        forall|i: int, k: int|
            0 <= i < servers.len() && 0 <= k < texts.excludes@.len() ==> (#[trigger]
            texts.excludes@[k])->Some_0.prefix != (#[trigger] servers[i]).ip.width()
                || !texts.excludes@[k]->Some_0.has_ip(servers[i].ip),
        forall|k: int|
            0 <= k < texts.includes@.len() ==> {
                &&& (#[trigger] texts.includes@[k]).address is Some
                &&& texts.includes@[k].block is Some
                &&& has_family(
                    network.addresses@,
                    family_of(texts.includes@[k].address->Some_0),
                )
                &&& family_gateway(
                    network.addresses@,
                    family_of(texts.includes@[k].address->Some_0),
                ) is Some
            },
        config.routing.route_local_networks && has_family(
            network.addresses@,
            NetworkAddressFamily::Ipv4,
        ) ==> family_gateway(network.addresses@, NetworkAddressFamily::Ipv4) is Some,
        forall|k: int|
            0 <= k < servers.len() ==> family_gateway(
                network.addresses@,
                family_of((#[trigger] servers[k]).ip),
            ) is Some,
        (pushed.len() + texts.includes@.len() + 3 + servers.len()) * (1 + 128
            * texts.excludes@.len()) <= max_routes,
    ensures
        plan_outcome(config, network, texts, true, Ok(servers), Ok(pushed), max_routes) is Ok,
{
    let addresses = network.addresses@;
    let excludes = texts.excludes@;
    lemma_no_gateway_problem(addresses, texts, addresses.len() as int);
    lemma_no_dns_problem(servers, excludes, servers.len() as int);
    lemma_bad_exclude_none(excludes, excludes.len() as int);
    lemma_includes_appended(pushed, texts.includes@, addresses, texts.includes@.len() as int);
    let included = with_includes(
        pushed,
        texts.includes@,
        addresses,
        texts.includes@.len() as int,
    )->Ok_0;
    let local = with_local(included, config.routing.route_local_networks, addresses)->Ok_0;
    lemma_resolvers_appended(local, servers, addresses, servers.len() as int);
    lemma_wanted_valid(config, addresses, texts, servers, pushed);
    let routes = wanted_routes(config, addresses, texts.includes@, servers, pushed)->Ok_0;
    let blocks = exclude_blocks(excludes);
    assert(all_valid(blocks)) by {
        assert forall|i: int| 0 <= i < blocks.len() implies (#[trigger] blocks[i]).valid() by {
            assert(excludes[i] is Some);
        }
    }
    crate::routes::law_exclusions_are_owed_room(routes, blocks, host_blocks(servers), max_routes);
    let each = 1 + 128 * excludes.len();
    let most = pushed.len() + texts.includes@.len() + 3 + servers.len();
    assert(routes.len() * each <= most * each) by (nonlinear_arith)
        requires
            routes.len() <= most,
            each >= 0,
    ;
    assert(has_family(addresses, NetworkAddressFamily::Ipv6) ==> exists|i: int|
        0 <= i < addresses.len() && (#[trigger] addresses[i]).family is Ipv6);
    if config.routing.ipv6 is Required {
        let i = choose|i: int| 0 <= i < addresses.len() && (#[trigger] addresses[i]).family is Ipv6;
        assert(addresses[i].family == NetworkAddressFamily::Ipv6);
    }
}

/// Each contradiction in a request refuses it, whatever else the request holds.
pub proof fn law_contradictions_refuse_a_plan(
    config: ClientConfig,
    network: HandshakeNetwork,
    texts: PlanTexts,
    on_link_fits: bool,
    dns: Result<Seq<DnsView>, DnsError>,
    pushed: Result<Seq<RouteView>, RouteError>,
    max_routes: nat,
    i: int,
    k: int,
)
    requires
        plan_outcome(config, network, texts, on_link_fits, dns, pushed, max_routes) is Ok,
        0 <= i < network.addresses@.len(),
        0 <= k < texts.excludes@.len(),
    ensures
        0 <= network.mtu <= 65535,
        on_link_fits,
        config.routing.ipv6 is Off ==> network.addresses@[i].family is Ipv4,
        config.routing.ipv6 is Required ==> has_family(
            network.addresses@,
            NetworkAddressFamily::Ipv6,
        ),
        network.addresses@[i].gateway is Some ==> texts.gateways@[i] is Some && !(
        texts.excludes@[k]->Some_0.prefix >= network.addresses@[i].on_link_prefix_len
            && texts.excludes@[k]->Some_0.has_ip(texts.gateways@[i]->Some_0)),
        texts.excludes@[k] is Some,
        dns is Ok,
        pushed is Ok,
        config.dns.mode@ == "tunnel"@ && dns->Ok_0.len() == 0 ==> !config.routing.add_default_gateway
            && config.routing.mode@ != "full-tunnel"@ && config.routing.mode@ != "all"@,
{
    let addresses = network.addresses@;
    lemma_no_bad_exclude(texts.excludes@, texts.excludes@.len() as int);
    assert(texts.excludes@[k] is Some);
    if config.routing.ipv6 is Off {
        assert(!(addresses[i].family == NetworkAddressFamily::Ipv6));
    }
    if addresses[i].gateway is Some {
        lemma_gateway_clear(addresses, texts, i, addresses.len() as int);
        lemma_conflict_clear(
            texts.gateways@[i]->Some_0,
            addresses[i].on_link_prefix_len,
            texts.excludes@,
            i,
            k,
            texts.excludes@.len() as int,
        );
    }
}

proof fn lemma_gateway_clear(addresses: Seq<NetworkAddress>, texts: PlanTexts, i: int, end: int)
    requires
        0 <= i < end <= addresses.len(),
        gateway_problem(addresses, texts, end) is None,
        addresses[i].gateway is Some,
    ensures
        texts.gateways@[i] is Some,
        gateway_conflict(
            texts.gateways@[i]->Some_0,
            addresses[i].on_link_prefix_len,
            texts.excludes@,
            i,
            texts.excludes@.len() as int,
        ) is None,
    decreases end,
{
    if i < end - 1 {
        lemma_gateway_clear(addresses, texts, i, end - 1);
    }
}

proof fn lemma_conflict_clear(
    gateway: IpAddress,
    on_link_prefix_len: u8,
    excludes: Seq<Option<NumericCidr>>,
    address: int,
    k: int,
    end: int,
)
    requires
        0 <= k < end <= excludes.len(),
        gateway_conflict(gateway, on_link_prefix_len, excludes, address, end) is None,
    ensures
        excludes[k] is Some,
        !(excludes[k]->Some_0.prefix >= on_link_prefix_len && excludes[k]->Some_0.has_ip(gateway)),
    decreases end,
{
    if k < end - 1 {
        lemma_conflict_clear(gateway, on_link_prefix_len, excludes, address, k, end - 1);
    }
}

/// The question itself is answered so: all traffic goes into the tunnel exactly where the profile
/// asks for the default gateway or names the mode `full-tunnel` or `all`.
pub proof fn law_full_tunnels_are_recognised(config: ClientConfig, full: bool)
    requires
        call_ensures(is_full_tunnel, (&config,), full),
    ensures
        full <==> config.routing.add_default_gateway || config.routing.mode@ == "full-tunnel"@
            || config.routing.mode@ == "all"@,
{
}

/// A prefix of 1 to 32 counts; any other is taken for 24.
pub proof fn law_prefixes_are_normalised(prefix: u8, normal: u8)
    requires
        call_ensures(normalized_prefix, (prefix,), normal),
    ensures
        1 <= prefix <= 32 ==> normal == prefix,
        prefix == 0 || prefix > 32 ==> normal == 24,
{
}

} // verus!
