//! The sentences that say why a network plan, its routes or its resolvers are refused.

use crate::network::{
    ClientDnsConfig, DnsError, DnsSource, NetworkAddressFamily, NetworkDns,
};
use crate::network_plan::{
    choose_plan_dns, chosen_dns, on_link_prefix_fits, ClientConfig, HandshakeNetwork, PlanError,
};
use crate::routes::RouteError;
use crate::text::{
    decimal, decimal_text, decimal_value, nth_text, parse_decimal, sentence, sentence_of_two,
    sentence_up_to, signed_decimal, signed_text, text_at,
};
use vstd::prelude::*;

verus! {

impl NetworkAddressFamily {
    pub open spec fn name_text(self) -> Seq<char> {
        match self {
            NetworkAddressFamily::Ipv4 => "IPv4"@,
            NetworkAddressFamily::Ipv6 => "IPv6"@,
        }
    }

    pub fn name(self) -> (name: &'static str)
        ensures
            name@ == self.name_text(),
    {
        match self {
            NetworkAddressFamily::Ipv4 => "IPv4",
            NetworkAddressFamily::Ipv6 => "IPv6",
        }
    }
}

impl DnsSource {
    pub open spec fn name_text(self) -> Seq<char> {
        match self {
            DnsSource::Client => "client"@,
            DnsSource::Pushed => "pushed"@,
            DnsSource::Platform => "platform fallback"@,
            DnsSource::Fallback => "client fallback"@,
        }
    }

    pub fn name(self) -> (name: &'static str)
        ensures
            name@ == self.name_text(),
    {
        match self {
            DnsSource::Client => "client",
            DnsSource::Pushed => "pushed",
            DnsSource::Platform => "platform fallback",
            DnsSource::Fallback => "client fallback",
        }
    }
}

/// Everything that resolvers are chosen from: the profile, the pushed list, the pushed server and
/// port of a legacy handshake, and what the platform offers.
pub struct DnsRequest<'a> {
    pub config: &'a ClientDnsConfig,
    pub pushed: &'a Vec<NetworkDns>,
    pub pushed_server: &'a str,
    pub pushed_port: &'a str,
    pub platform: &'a Vec<String>,
}

pub struct DnsRequestView {
    pub servers: Seq<String>,
    pub fallback_servers: Seq<String>,
    pub pushed: Seq<NetworkDns>,
    pub pushed_server: Seq<char>,
    pub pushed_port: Seq<char>,
    pub platform: Seq<String>,
}

impl<'a> View for DnsRequest<'a> {
    type V = DnsRequestView;

    open spec fn view(&self) -> DnsRequestView {
        DnsRequestView {
            servers: self.config.servers@,
            fallback_servers: self.config.fallback_servers@,
            pushed: self.pushed@,
            pushed_server: self.pushed_server@,
            pushed_port: self.pushed_port@,
            platform: self.platform@,
        }
    }
}

/// The port of one pushed server.
pub open spec fn pushed_port_at(pushed: Seq<NetworkDns>, index: int) -> Seq<char> {
    if 0 <= index < pushed.len() {
        decimal_text(pushed[index].port as nat)
    } else {
        ""@
    }
}

impl DnsRequestView {
    /// The text of one server; empty where there is none.
    pub open spec fn server_text(self, source: DnsSource, index: int) -> Seq<char> {
        match source {
            DnsSource::Client => text_at(self.servers, index),
            DnsSource::Pushed => if 0 <= index < self.pushed.len() {
                self.pushed[index].address@
            } else {
                ""@
            },
            DnsSource::Platform => text_at(self.platform, index),
            DnsSource::Fallback => text_at(self.fallback_servers, index),
        }
    }
}

impl<'a> DnsRequest<'a> {
    fn server(&self, source: DnsSource, index: usize) -> (text: &str)
        ensures
            text@ == self@.server_text(source, index as int),
    {
        match source {
            DnsSource::Client => nth_text(&self.config.servers, index),
            DnsSource::Pushed => if index < self.pushed.len() {
                self.pushed[index].address.as_str()
            } else {
                ""
            },
            DnsSource::Platform => nth_text(self.platform, index),
            DnsSource::Fallback => nth_text(&self.config.fallback_servers, index),
        }
    }

    fn port_of_pushed(&self, index: usize) -> (text: String)
        ensures
            text@ == pushed_port_at(self.pushed@, index as int),
    {
        if index < self.pushed.len() {
            decimal(self.pushed[index].port as u64)
        } else {
            "".to_owned()
        }
    }
}

impl DnsError {
    pub open spec fn message_text(self, request: DnsRequestView) -> Seq<char> {
        match self {
            DnsError::InvalidServer { source: DnsSource::Pushed, index } => "invalid DNS server '"@
                + request.server_text(DnsSource::Pushed, index as int) + ":"@ + pushed_port_at(
                request.pushed,
                index as int,
            ) + "'"@,
            DnsError::InvalidServer { source, index } => "invalid "@ + source.name_text()
                + " DNS server '"@ + request.server_text(source, index as int) + "'"@,
            DnsError::Ipv6InLegacyTunnel { source, index } => "IPv6 "@ + source.name_text()
                + " DNS server '"@ + (if source is Pushed {
                request.pushed_server
            } else {
                request.server_text(source, index as int)
            }) + "' is unreachable in a legacy IPv4 tunnel"@,
            DnsError::InvalidPushedPort => "invalid pushed DNS port '"@ + (if decimal_value(
                request.pushed_port,
                65535,
            ) == Some(0int) {
                "0"@
            } else {
                request.pushed_port
            }) + "'"@,
            DnsError::TooManyServers => "network plan contains too many DNS servers"@,
            DnsError::ZeroPort { source, index } => "invalid DNS server '"@ + request.server_text(
                source,
                index as int,
            ) + ":0'"@,
            DnsError::FamilyAbsent { source, index } => "DNS server '"@ + request.server_text(
                source,
                index as int,
            ) + "' uses a family not present in the negotiated tunnel"@,
        }
    }

    /// The sentence shown to the user, about the request that was refused.
    pub fn message(self, request: &DnsRequest) -> (text: String)
        ensures
            text@ == self.message_text(request@),
    {
        match self {
            DnsError::InvalidServer { source, index } => {
                let server = request.server(source, index);
                if source == DnsSource::Pushed {
                    let port = request.port_of_pushed(index);
                    sentence_of_two("invalid DNS server '", server, ":", port.as_str(), "'")
                } else {
                    sentence_of_two("invalid ", source.name(), " DNS server '", server, "'")
                }
            },
            DnsError::Ipv6InLegacyTunnel { source, index } => {
                let server = if source == DnsSource::Pushed {
                    request.pushed_server
                } else {
                    request.server(source, index)
                };
                sentence_of_two(
                    "IPv6 ",
                    source.name(),
                    " DNS server '",
                    server,
                    "' is unreachable in a legacy IPv4 tunnel",
                )
            },
            DnsError::InvalidPushedPort => {
                let port = match parse_decimal(request.pushed_port, 65535) {
                    Some(0) => "0",
                    _ => request.pushed_port,
                };
                sentence("invalid pushed DNS port '", port, "'")
            },
            DnsError::TooManyServers => "network plan contains too many DNS servers".to_owned(),
            DnsError::ZeroPort { source, index } => sentence(
                "invalid DNS server '",
                request.server(source, index),
                ":0'",
            ),
            DnsError::FamilyAbsent { source, index } => sentence(
                "DNS server '",
                request.server(source, index),
                "' uses a family not present in the negotiated tunnel",
            ),
        }
    }
}

impl RouteError {
    pub open spec fn message_text(self, default_gateway: Seq<char>) -> Seq<char> {
        match self {
            RouteError::NoGateway(family) => "no tunnel gateway for "@ + family.name_text()
                + " route"@,
            RouteError::CoversFamily(family) => "server-pushed routes collectively cover the entire "@
                + family.name_text()
                + " address space; only the local client may enable full-tunnel mode"@,
            RouteError::InvalidDefaultGateway => "invalid default tunnel gateway '"@
                + default_gateway + "'"@,
        }
    }

    /// The sentence shown to the user. `default_gateway` is the one that the routes were given.
    pub fn message(self, default_gateway: &str) -> (text: String)
        ensures
            text@ == self.message_text(default_gateway@),
    {
        match self {
            RouteError::NoGateway(family) => sentence(
                "no tunnel gateway for ",
                family.name(),
                " route",
            ),
            RouteError::CoversFamily(family) => sentence(
                "server-pushed routes collectively cover the entire ",
                family.name(),
                " address space; only the local client may enable full-tunnel mode",
            ),
            RouteError::InvalidDefaultGateway => sentence(
                "invalid default tunnel gateway '",
                default_gateway,
                "'",
            ),
        }
    }
}

/// The text of the gateway of one assigned address.
pub open spec fn gateway_text_at(network: HandshakeNetwork, index: int) -> Seq<char> {
    if 0 <= index < network.addresses@.len() {
        match network.addresses@[index].gateway {
            Some(gateway) => gateway@,
            None => ""@,
        }
    } else {
        ""@
    }
}

fn nth_gateway(network: &HandshakeNetwork, index: usize) -> (text: &str)
    ensures
        text@ == gateway_text_at(*network, index as int),
{
    if index < network.addresses.len() {
        match &network.addresses[index].gateway {
            Some(gateway) => gateway.as_str(),
            None => "",
        }
    } else {
        ""
    }
}

/// The on-link prefix of one assigned address.
pub open spec fn on_link_text_at(network: HandshakeNetwork, index: int) -> Seq<char> {
    if 0 <= index < network.addresses@.len() {
        decimal_text(network.addresses@[index].on_link_prefix_len as nat)
    } else {
        ""@
    }
}

fn nth_on_link(network: &HandshakeNetwork, index: usize) -> (text: String)
    ensures
        text@ == on_link_text_at(*network, index as int),
{
    if index < network.addresses.len() {
        decimal(network.addresses[index].on_link_prefix_len as u64)
    } else {
        "".to_owned()
    }
}

/// The text of one resolver that a request leads to.
pub open spec fn resolver_text_at(
    config: ClientConfig,
    network: HandshakeNetwork,
    index: int,
) -> Seq<char> {
    if on_link_prefix_fits(network) && chosen_dns(config, network) is Ok && 0 <= index < chosen_dns(
        config,
        network,
    )->Ok_0.len() {
        chosen_dns(config, network)->Ok_0[index].address
    } else {
        ""@
    }
}

fn nth_resolver(config: &ClientConfig, network: &HandshakeNetwork, index: usize) -> (text: String)
    ensures
        text@ == resolver_text_at(*config, *network, index as int),
{
    match choose_plan_dns(config, network) {
        Some(Ok(servers)) => if index < servers.len() {
            servers[index].address.clone()
        } else {
            "".to_owned()
        },
        _ => "".to_owned(),
    }
}

/// What the resolvers of a request are chosen from.
pub open spec fn dns_request(config: ClientConfig, network: HandshakeNetwork) -> DnsRequestView {
    DnsRequestView {
        servers: config.dns.servers@,
        fallback_servers: config.dns.fallback_servers@,
        pushed: network.dns_servers@,
        pushed_server: network.dns_ip@,
        pushed_port: network.dns_port@,
        platform: network.fallback_dns_servers@,
    }
}

impl PlanError {
    pub open spec fn message_text(
        self,
        config: ClientConfig,
        network: HandshakeNetwork,
        max_routes: nat,
    ) -> Seq<char> {
        let excludes = config.routing.exclude_routes@;
        match self {
            PlanError::InvalidMtu => "invalid tunnel MTU "@ + signed_text(network.mtu as int),
            PlanError::Ipv6ThoughOff =>
                "server returned IPv6 although the client policy is ipv6=off"@,
            PlanError::NoIpv6ThoughRequired =>
                "server returned no IPv6 address although the client policy is required"@,
            PlanError::InvalidGateway { address } => "invalid tunnel gateway '"@
                + gateway_text_at(network, address as int) + "'"@,
            PlanError::InvalidExclude { exclude } => "invalid exclude route '"@ + text_at(
                excludes,
                exclude as int,
            ) + "'"@,
            PlanError::InvalidExcludeBlock { exclude } => "invalid route CIDR '"@ + text_at(
                excludes,
                exclude as int,
            ) + "'"@,
            PlanError::GatewayExcluded { address, exclude } => "tunnel gateway '"@
                + gateway_text_at(network, address as int) + "' is covered by exclude route '"@
                + text_at(excludes, exclude as int) + "' at or above the on-link /"@
                + on_link_text_at(network, address as int) + " prefix"@,
            PlanError::InvalidOnLinkPrefix =>
                "the on-link prefix of the tunnel address is not an IPv4 prefix"@,
            PlanError::Dns(error) => error.message_text(dns_request(config, network)),
            PlanError::NoResolver =>
                "full-tunnel DNS is set to tunnel mode but no resolver is available; configure dns_servers, let the server push one, or set dns = off only when the platform manages DNS"@,
            PlanError::DnsExcluded { server, exclude } => "tunnel DNS server '"@
                + resolver_text_at(config, network, server as int)
                + "' is covered by exclude route '"@ + text_at(excludes, exclude as int)
                + "'; remove the exclusion or choose a resolver outside it"@,
            PlanError::Route(error) => error.message_text(network.tunnel_gateway@),
            PlanError::InvalidInclude { route } => "invalid route CIDR '"@ + text_at(
                config.routing.include_routes@,
                route as int,
            ) + "'"@,
            PlanError::InactiveInclude { route, family } => "include route '"@ + text_at(
                config.routing.include_routes@,
                route as int,
            ) + "' requires an active "@ + family.name_text()
                + " tunnel address; refusing to leak explicitly included traffic through the physical network"@,
            PlanError::TooManyRoutes =>
                "route exclusions expand the NetworkPlan beyond "@ + decimal_text(max_routes)
                + " routes"@,
        }
    }

    /// The sentence shown to the user, about the request that was refused.
    pub fn message(
        self,
        config: &ClientConfig,
        network: &HandshakeNetwork,
        max_routes: usize,
    ) -> (text: String)
        ensures
            text@ == self.message_text(*config, *network, max_routes as nat),
    {
        let excludes = &config.routing.exclude_routes;
        match self {
            PlanError::InvalidMtu => sentence_up_to(
                "invalid tunnel MTU ",
                signed_decimal(network.mtu).as_str(),
            ),
            PlanError::Ipv6ThoughOff =>
            "server returned IPv6 although the client policy is ipv6=off".to_owned(),
            PlanError::NoIpv6ThoughRequired =>
            "server returned no IPv6 address although the client policy is required".to_owned(),
            PlanError::InvalidGateway { address } => sentence(
                "invalid tunnel gateway '",
                nth_gateway(network, address),
                "'",
            ),
            PlanError::InvalidExclude { exclude } => sentence(
                "invalid exclude route '",
                nth_text(excludes, exclude),
                "'",
            ),
            PlanError::InvalidExcludeBlock { exclude } => sentence(
                "invalid route CIDR '",
                nth_text(excludes, exclude),
                "'",
            ),
            PlanError::GatewayExcluded { address, exclude } => {
                let mut text = sentence_of_two(
                    "tunnel gateway '",
                    nth_gateway(network, address),
                    "' is covered by exclude route '",
                    nth_text(excludes, exclude),
                    "' at or above the on-link /",
                );
                text.append(nth_on_link(network, address).as_str());
                text.append(" prefix");
                text
            },
            PlanError::InvalidOnLinkPrefix =>
            "the on-link prefix of the tunnel address is not an IPv4 prefix".to_owned(),
            PlanError::Dns(error) => {
                let request = DnsRequest {
                    config: &config.dns,
                    pushed: &network.dns_servers,
                    pushed_server: network.dns_ip.as_str(),
                    pushed_port: network.dns_port.as_str(),
                    platform: &network.fallback_dns_servers,
                };
                error.message(&request)
            },
            PlanError::NoResolver =>
            "full-tunnel DNS is set to tunnel mode but no resolver is available; configure dns_servers, let the server push one, or set dns = off only when the platform manages DNS".to_owned(),
            PlanError::DnsExcluded { server, exclude } => {
                let resolver = nth_resolver(config, network, server);
                sentence_of_two(
                    "tunnel DNS server '",
                    resolver.as_str(),
                    "' is covered by exclude route '",
                    nth_text(excludes, exclude),
                    "'; remove the exclusion or choose a resolver outside it",
                )
            },
            PlanError::Route(error) => error.message(network.tunnel_gateway.as_str()),
            PlanError::InvalidInclude { route } => sentence(
                "invalid route CIDR '",
                nth_text(&config.routing.include_routes, route),
                "'",
            ),
            PlanError::InactiveInclude { route, family } => sentence_of_two(
                "include route '",
                nth_text(&config.routing.include_routes, route),
                "' requires an active ",
                family.name(),
                " tunnel address; refusing to leak explicitly included traffic through the physical network",
            ),
            PlanError::TooManyRoutes => sentence(
                "route exclusions expand the NetworkPlan beyond ",
                decimal(max_routes as u64).as_str(),
                " routes",
            ),
        }
    }
}

/// Whether a text holds another one.
#[verifier::opaque]
pub open spec fn mentions(text: Seq<char>, part: Seq<char>) -> bool {
    exists|at: int|
        0 <= at && at + part.len() <= text.len() && #[trigger] text.subrange(
            at,
            at + part.len(),
        ) == part
}

/// A text that stands between two others is held by all three together.
pub proof fn law_parts_are_mentioned(before: Seq<char>, part: Seq<char>, behind: Seq<char>)
    ensures
        mentions(before + part + behind, part),
        mentions(before + part, part),
{
    reveal(mentions);
    let at = before.len() as int;
    assert((before + part + behind).subrange(at, at + part.len()) =~= part);
    assert((before + part).subrange(at, at + part.len()) =~= part);
}

/// A refused resolver is named in its sentence: the one at its position in the list it is from,
/// with its port where the server pushed it.
pub proof fn law_refused_resolvers_are_named(request: DnsRequestView, index: usize)
    ensures
        index < request.servers.len() ==> mentions(
            (DnsError::InvalidServer { source: DnsSource::Client, index }).message_text(request),
            request.servers[index as int]@,
        ) && mentions(
            (DnsError::FamilyAbsent { source: DnsSource::Client, index }).message_text(request),
            request.servers[index as int]@,
        ),
        index < request.platform.len() ==> mentions(
            (DnsError::InvalidServer { source: DnsSource::Platform, index }).message_text(request),
            request.platform[index as int]@,
        ) && mentions(
            (DnsError::Ipv6InLegacyTunnel { source: DnsSource::Platform, index }).message_text(
                request,
            ),
            request.platform[index as int]@,
        ),
        index < request.fallback_servers.len() ==> mentions(
            (DnsError::InvalidServer { source: DnsSource::Fallback, index }).message_text(request),
            request.fallback_servers[index as int]@,
        ) && mentions(
            (DnsError::Ipv6InLegacyTunnel { source: DnsSource::Fallback, index }).message_text(
                request,
            ),
            request.fallback_servers[index as int]@,
        ),
        index < request.pushed.len() ==> mentions(
            (DnsError::InvalidServer { source: DnsSource::Pushed, index }).message_text(request),
            request.pushed[index as int].address@ + ":"@ + decimal_text(
                request.pushed[index as int].port as nat,
            ),
        ) && mentions(
            (DnsError::ZeroPort { source: DnsSource::Pushed, index }).message_text(request),
            request.pushed[index as int].address@,
        ),
        mentions(
            (DnsError::Ipv6InLegacyTunnel { source: DnsSource::Pushed, index }).message_text(
                request,
            ),
            request.pushed_server,
        ),
        decimal_value(request.pushed_port, 65535) is None ==> mentions(
            DnsError::InvalidPushedPort.message_text(request),
            request.pushed_port,
        ),
{
    let i = index as int;
    let absent = "' uses a family not present in the negotiated tunnel"@;
    let unreachable = "' is unreachable in a legacy IPv4 tunnel"@;
    let client = "invalid "@ + "client"@ + " DNS server '"@;
    let platform = "invalid "@ + "platform fallback"@ + " DNS server '"@;
    let fallback = "invalid "@ + "client fallback"@ + " DNS server '"@;
    if i < request.servers.len() {
        law_parts_are_mentioned(client, request.servers[i]@, "'"@);
        law_parts_are_mentioned("DNS server '"@, request.servers[i]@, absent);
    }
    if i < request.platform.len() {
        law_parts_are_mentioned(platform, request.platform[i]@, "'"@);
        law_parts_are_mentioned(
            "IPv6 "@ + "platform fallback"@ + " DNS server '"@,
            request.platform[i]@,
            unreachable,
        );
    }
    if i < request.fallback_servers.len() {
        law_parts_are_mentioned(fallback, request.fallback_servers[i]@, "'"@);
        law_parts_are_mentioned(
            "IPv6 "@ + "client fallback"@ + " DNS server '"@,
            request.fallback_servers[i]@,
            unreachable,
        );
    }
    if i < request.pushed.len() {
        let address = request.pushed[i].address@;
        let port = decimal_text(request.pushed[i].port as nat);
        law_parts_are_mentioned("invalid DNS server '"@, address + ":"@ + port, "'"@);
        assert("invalid DNS server '"@ + (address + ":"@ + port) + "'"@ =~= "invalid DNS server '"@
            + address + ":"@ + port + "'"@);
        law_parts_are_mentioned("invalid DNS server '"@, address, ":0'"@);
    }
    law_parts_are_mentioned(
        "IPv6 "@ + "pushed"@ + " DNS server '"@,
        request.pushed_server,
        unreachable,
    );
    law_parts_are_mentioned("invalid pushed DNS port '"@, request.pushed_port, "'"@);
}

/// A refused route is explained by its family, a refused gateway by its text.
pub proof fn law_refused_routes_are_named(family: NetworkAddressFamily, gateway: Seq<char>)
    ensures
        mentions(RouteError::NoGateway(family).message_text(gateway), family.name_text()),
        mentions(RouteError::CoversFamily(family).message_text(gateway), family.name_text()),
        mentions(RouteError::InvalidDefaultGateway.message_text(gateway), gateway),
        family is Ipv4 ==> family.name_text() == "IPv4"@,
        family is Ipv6 ==> family.name_text() == "IPv6"@,
{
    law_parts_are_mentioned("no tunnel gateway for "@, family.name_text(), " route"@);
    law_parts_are_mentioned(
        "server-pushed routes collectively cover the entire "@,
        family.name_text(),
        " address space; only the local client may enable full-tunnel mode"@,
    );
    law_parts_are_mentioned("invalid default tunnel gateway '"@, gateway, "'"@);
}

/// A refused plan is explained by what it was refused for: the gateway, the excluded or included
/// route at its position, the MTU, or the number of routes.
pub proof fn law_refused_plans_are_explained(
    config: ClientConfig,
    network: HandshakeNetwork,
    max_routes: nat,
    at: usize,
    exclude: usize,
    family: NetworkAddressFamily,
)
    ensures
        at < network.addresses@.len() && network.addresses@[at as int].gateway is Some ==> mentions(
            (PlanError::InvalidGateway { address: at }).message_text(config, network, max_routes),
            network.addresses@[at as int].gateway->Some_0@,
        ),
        at < network.addresses@.len() && network.addresses@[at as int].gateway is Some && exclude
            < config.routing.exclude_routes@.len() ==> {
            let sentence = (PlanError::GatewayExcluded { address: at, exclude }).message_text(
                config,
                network,
                max_routes,
            );
            &&& mentions(sentence, network.addresses@[at as int].gateway->Some_0@)
            &&& mentions(sentence, config.routing.exclude_routes@[exclude as int]@)
            &&& mentions(
                sentence,
                decimal_text(network.addresses@[at as int].on_link_prefix_len as nat),
            )
        },
        exclude < config.routing.exclude_routes@.len() ==> mentions(
            (PlanError::InvalidExclude { exclude }).message_text(config, network, max_routes),
            config.routing.exclude_routes@[exclude as int]@,
        ) && mentions(
            (PlanError::InvalidExcludeBlock { exclude }).message_text(config, network, max_routes),
            config.routing.exclude_routes@[exclude as int]@,
        ),
        at < config.routing.include_routes@.len() ==> mentions(
            (PlanError::InvalidInclude { route: at }).message_text(config, network, max_routes),
            config.routing.include_routes@[at as int]@,
        ) && mentions(
            (PlanError::InactiveInclude { route: at, family }).message_text(
                config,
                network,
                max_routes,
            ),
            config.routing.include_routes@[at as int]@,
        ),
        mentions(
            PlanError::InvalidMtu.message_text(config, network, max_routes),
            signed_text(network.mtu as int),
        ),
        mentions(
            PlanError::TooManyRoutes.message_text(config, network, max_routes),
            decimal_text(max_routes),
        ),
{
    let excludes = config.routing.exclude_routes@;
    if at < network.addresses@.len() && network.addresses@[at as int].gateway is Some {
        let gateway = network.addresses@[at as int].gateway->Some_0@;
        law_parts_are_mentioned("invalid tunnel gateway '"@, gateway, "'"@);
        if exclude < excludes.len() {
            let block = excludes[exclude as int]@;
            let prefix = decimal_text(network.addresses@[at as int].on_link_prefix_len as nat);
            let first = "tunnel gateway '"@;
            let second = "' is covered by exclude route '"@;
            let third = "' at or above the on-link /"@;
            let last = " prefix"@;
            let sentence = first + gateway + second + block + third + prefix + last;
            law_parts_are_mentioned(first, gateway, second + block + third + prefix + last);
            assert(first + gateway + (second + block + third + prefix + last) =~= sentence);
            law_parts_are_mentioned(first + gateway + second, block, third + prefix + last);
            assert(first + gateway + second + block + (third + prefix + last) =~= sentence);
            law_parts_are_mentioned(first + gateway + second + block + third, prefix, last);
        }
    }
    if exclude < excludes.len() {
        law_parts_are_mentioned("invalid exclude route '"@, excludes[exclude as int]@, "'"@);
        law_parts_are_mentioned("invalid route CIDR '"@, excludes[exclude as int]@, "'"@);
    }
    if at < config.routing.include_routes@.len() {
        let route = config.routing.include_routes@[at as int]@;
        let active = "' requires an active "@;
        let rest =
            " tunnel address; refusing to leak explicitly included traffic through the physical network"@;
        law_parts_are_mentioned("invalid route CIDR '"@, route, "'"@);
        law_parts_are_mentioned("include route '"@, route, active + family.name_text() + rest);
        assert("include route '"@ + route + (active + family.name_text() + rest)
            =~= "include route '"@ + route + active + family.name_text() + rest);
    }
    law_parts_are_mentioned("invalid tunnel MTU "@, signed_text(network.mtu as int), ""@);
    law_parts_are_mentioned(
        "route exclusions expand the NetworkPlan beyond "@,
        decimal_text(max_routes),
        " routes"@,
    );
}

/// Resolvers are chosen from the profile's own lists, from what the server pushed and from what
/// the platform offers, each under its own name.
pub proof fn law_resolvers_come_from_their_lists(config: ClientConfig, network: HandshakeNetwork)
    ensures
        dns_request(config, network).servers == config.dns.servers@,
        dns_request(config, network).fallback_servers == config.dns.fallback_servers@,
        dns_request(config, network).pushed == network.dns_servers@,
        dns_request(config, network).pushed_server == network.dns_ip@,
        dns_request(config, network).pushed_port == network.dns_port@,
        dns_request(config, network).platform == network.fallback_dns_servers@,
{
}

} // verus!
