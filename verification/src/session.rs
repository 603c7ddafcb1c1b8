//! Platform-neutral values produced by the authentication handshake.
//!
//! The untrusted response is validated here, so that every client checks exactly the same before
//! a network plan is constructed.

use crate::cidr::IpAddress;
use crate::ip_text::{ip_of_text, ipv4_text, parse_ip, render_ipv4};
use crate::journal::PushedObf;
use crate::json_text::{
    json_member, json_member_of, json_member_text, render_json_member, text_view,
    JsonMember, JsonMemberView,
};
use crate::network::{
    family_of, ip_family, opt_text, NetworkAddress, NetworkAddressFamily, NetworkDns,
    NetworkFamilyMode,
};
use crate::network_plan::AddressView;
use crate::text::{chars_of, decimal_value, parse_decimal, same_text};
use vstd::prelude::*;

verus! {

/// What the server granted to an authenticated client.
#[derive(Debug)]
pub struct AuthOk {
    pub family_mode: NetworkFamilyMode,
    pub addresses: Vec<NetworkAddress>,
    pub client_ip: String,
    pub server_ip: String,
    pub prefix: u8,
    pub mtu: i32,
    pub dns_ip: String,
    pub dns_port: String,
    pub dns_servers: Vec<NetworkDns>,
    pub routes_json: String,
    pub pushed_obf: Option<PushedObf>,
    pub session_token: String,
    pub max_streams: u32,
    pub adaptive: bool,
    /// Present only after UDP roaming was negotiated in both directions.
    pub udp_roaming_session_id: Option<u64>,
}

/// Why a response is refused. Numbers are positions in the lists of the response.
#[derive(Debug, Clone, Copy, PartialEq, Eq, Structural)]
pub enum AuthError {
    Rejected,
    MalformedJson,
    PartialPlan,
    MissingClientIp,
    InvalidPrefix,
    InvalidFamilyMode,
    InvalidAddresses,
    AddressCount,
    InvalidAddress(usize),
    DuplicateFamily(NetworkAddressFamily),
    AddressMetadata(usize),
    RefusedAddress(usize),
    InvalidGateway(usize),
    GatewayFamily(usize),
    RefusedGateway(usize),
    FamilyModeMismatch,
    MtuBelowIpv6Minimum(i32),
    ProjectionMismatch,
    InvalidDnsServers,
    TooManyDnsServers,
    InvalidDnsServer(usize),
    ZeroDnsPort(usize),
    DnsFamilyAbsent(usize),
    RefusedDnsServer(usize),
    ClientIpNotIpv4,
    ServerIpNotIpv4,
    InvalidObfuscation,
    InvalidRoamingSession,
    ZeroRoamingSession,
}

/// The members of a response that are lists or records, as they were decoded; `None` where a
/// member does not have the expected form.
#[derive(Debug)]
pub struct DecodedMembers {
    pub family_mode: Option<NetworkFamilyMode>,
    pub addresses: Option<Vec<NetworkAddress>>,
    pub dns_servers: Option<Vec<NetworkDns>>,
    pub obfuscation: Option<PushedObf>,
}

/// The limits that a response is held to: the accepted tunnel MTUs, and those IPv6 addresses of
/// the response that may not be used in a tunnel.
#[derive(Debug)]
pub struct AuthLimits {
    pub min_mtu: i32,
    pub max_mtu: i32,
    pub refused_ipv6: Vec<u128>,
}

/// The plain members of a response.
#[derive(Debug)]
pub struct AuthMembers {
    pub family_mode: JsonMember,
    pub addresses: JsonMember,
    pub client_ip: JsonMember,
    pub server_ip: JsonMember,
    pub dns_port: JsonMember,
    pub prefix: JsonMember,
    pub mtu: JsonMember,
    pub dns: JsonMember,
    pub obfuscation: JsonMember,
    pub udp_roaming_session: JsonMember,
    pub session_token: JsonMember,
    pub max_streams: JsonMember,
    pub multipath_adaptive: JsonMember,
    pub routes: Option<String>,
}

/// What the address texts of a response denote.
#[derive(Debug)]
pub struct AuthAddresses {
    pub addresses: Vec<Option<IpAddress>>,
    pub gateways: Vec<Option<IpAddress>>,
    pub dns_servers: Vec<Option<IpAddress>>,
    pub client_ip: Option<IpAddress>,
    pub server_ip: Option<IpAddress>,
    pub dns: Option<IpAddress>,
}

pub struct NetworkDnsView {
    pub address: Seq<char>,
    pub port: u16,
}

impl View for NetworkDns {
    type V = NetworkDnsView;

    open spec fn view(&self) -> NetworkDnsView {
        NetworkDnsView { address: self.address@, port: self.port }
    }
}

pub open spec fn server_views(servers: Seq<NetworkDns>) -> Seq<NetworkDnsView> {
    servers.map_values(|server: NetworkDns| server@)
}

pub open spec fn address_views(addresses: Seq<NetworkAddress>) -> Seq<AddressView> {
    addresses.map_values(|assigned: NetworkAddress| assigned@)
}

/// The text of a member, empty where it is none.
pub open spec fn member_text(member: JsonMemberView) -> Seq<char> {
    match member {
        JsonMemberView::Text(text) => text,
        _ => Seq::empty(),
    }
}

pub(crate) fn text_of_member(member: &JsonMember) -> (text: String)
    ensures
        text@ == member_text(member@),
{
    match member {
        JsonMember::Text(text) => text.clone(),
        _ => String::new(),
    }
}

pub open spec fn member_unsigned(member: JsonMemberView) -> Option<u64> {
    match member {
        JsonMemberView::Number(value, _, _) => value,
        _ => None,
    }
}

fn unsigned_of_member(member: &JsonMember) -> (value: Option<u64>)
    ensures
        value == member_unsigned(member@),
{
    match member {
        JsonMember::Number(value, _, _) => *value,
        _ => None,
    }
}

pub open spec fn port_text(member: JsonMemberView) -> Seq<char> {
    match member {
        JsonMemberView::Number(_, _, text) => text,
        JsonMemberView::Text(text) => text,
        _ => "53"@,
    }
}

/// The MTU of the response where it is within the limits, else 0.
pub open spec fn accepted_mtu(member: JsonMemberView, limits: AuthLimits) -> i32 {
    match member {
        JsonMemberView::Number(_, Some(value), _) => if limits.min_mtu <= value <= limits.max_mtu {
            value as i32
        } else {
            0
        },
        _ => 0,
    }
}

pub open spec fn is_v2(members: AuthMembers) -> bool {
    !(members.family_mode is Absent)
}

/// The on-link prefix of the tunnel address. Older IPv4-only servers omitted it.
pub open spec fn accepted_prefix(member: JsonMemberView, v2: bool) -> Option<u8> {
    let limit: int = if v2 {
        128
    } else {
        32
    };
    match member_unsigned(member) {
        Some(value) => if 1 <= value <= limit {
            Some(value as u8)
        } else if v2 {
            None
        } else {
            Some(24)
        },
        None => if v2 {
            None
        } else {
            Some(24)
        },
    }
}

pub open spec fn refused(limits: AuthLimits, ip: IpAddress) -> bool {
    match ip {
        IpAddress::V4(_) => false,
        IpAddress::V6(value) => limits.refused_ipv6@.contains(value),
    }
}

fn is_refused(limits: &AuthLimits, ip: IpAddress) -> (refused: bool)
    ensures
        refused == crate::session::refused(*limits, ip),
{
    let value: u128 = match ip {
        IpAddress::V4(_) => return false,
        IpAddress::V6(value) => value,
    };
    let mut i: usize = 0;
    while i < limits.refused_ipv6.len()
        invariant
            i <= limits.refused_ipv6@.len(),
            ip == IpAddress::V6(value),
            forall|j: int| 0 <= j < i ==> limits.refused_ipv6@[j] != value,
        decreases limits.refused_ipv6@.len() - i,
    {
        if limits.refused_ipv6[i] == value {
            return true;
        }
        i += 1;
    }
    false
}

/// Whether one of the first `end` addresses is of this family.
pub open spec fn saw_family(
    ips: Seq<Option<IpAddress>>,
    family: NetworkAddressFamily,
    end: int,
) -> bool {
    exists|i: int|
        0 <= i < end && ((#[trigger] ips[i]) matches Some(ip) && family_of(ip) == family)
}

/// What is wrong with one assigned address.
pub open spec fn address_problem(
    assigned: NetworkAddress,
    ips: AuthAddresses,
    limits: AuthLimits,
    i: int,
) -> Option<AuthError> {
    match ips.addresses@[i] {
        None => Some(AuthError::InvalidAddress(i as usize)),
        Some(ip) => if saw_family(ips.addresses@, family_of(ip), i) {
            Some(AuthError::DuplicateFamily(family_of(ip)))
        } else if assigned.family != family_of(ip) || assigned.prefix_len == 0
            || assigned.prefix_len > ip.width() || assigned.on_link_prefix_len == 0
            || assigned.on_link_prefix_len > assigned.prefix_len {
            Some(AuthError::AddressMetadata(i as usize))
        } else if refused(limits, ip) {
            Some(AuthError::RefusedAddress(i as usize))
        } else if assigned.gateway is None {
            None
        } else {
            match ips.gateways@[i] {
                None => Some(AuthError::InvalidGateway(i as usize)),
                Some(gateway) => if family_of(gateway) != family_of(ip) {
                    Some(AuthError::GatewayFamily(i as usize))
                } else if refused(limits, gateway) {
                    Some(AuthError::RefusedGateway(i as usize))
                } else {
                    None
                },
            }
        },
    }
}

/// The first problem among the first `end` assigned addresses.
pub open spec fn addresses_problem(
    addresses: Seq<NetworkAddress>,
    ips: AuthAddresses,
    limits: AuthLimits,
    end: int,
) -> Option<AuthError>
    decreases end,
{
    if end <= 0 {
        None
    } else {
        match addresses_problem(addresses, ips, limits, end - 1) {
            Some(error) => Some(error),
            None => address_problem(addresses[end - 1], ips, limits, end - 1),
        }
    }
}

proof fn lemma_addresses_problem_stays(
    addresses: Seq<NetworkAddress>,
    ips: AuthAddresses,
    limits: AuthLimits,
    i: int,
    end: int,
)
    requires
        0 <= i <= end,
        addresses_problem(addresses, ips, limits, i) is Some,
    ensures
        addresses_problem(addresses, ips, limits, end) == addresses_problem(
            addresses,
            ips,
            limits,
            i,
        ),
    decreases end - i,
{
    if i < end {
        lemma_addresses_problem_stays(addresses, ips, limits, i, end - 1);
    }
}

fn check_address(
    assigned: &NetworkAddress,
    ips: &AuthAddresses,
    limits: &AuthLimits,
    i: usize,
    has_ipv4: bool,
    has_ipv6: bool,
) -> (problem: Option<AuthError>)
    requires
        i < ips.addresses@.len(),
        i < ips.gateways@.len(),
        has_ipv4 == saw_family(ips.addresses@, NetworkAddressFamily::Ipv4, i as int),
        has_ipv6 == saw_family(ips.addresses@, NetworkAddressFamily::Ipv6, i as int),
    ensures
        problem == address_problem(*assigned, *ips, *limits, i as int),
{
    let ip = match ips.addresses[i] {
        Some(ip) => ip,
        None => return Some(AuthError::InvalidAddress(i)),
    };
    let (seen, width): (bool, u8) = if ip.is_ipv4() {
        (has_ipv4, 32)
    } else {
        (has_ipv6, 128)
    };
    if seen {
        return Some(AuthError::DuplicateFamily(ip_family(ip)));
    }
    if assigned.family != ip_family(ip) || assigned.prefix_len == 0 || assigned.prefix_len > width
        || assigned.on_link_prefix_len == 0 || assigned.on_link_prefix_len > assigned.prefix_len {
        return Some(AuthError::AddressMetadata(i));
    }
    if is_refused(limits, ip) {
        return Some(AuthError::RefusedAddress(i));
    }
    if assigned.gateway.is_none() {
        return None;
    }
    match ips.gateways[i] {
        None => Some(AuthError::InvalidGateway(i)),
        Some(gateway) => if ip_family(gateway) != ip_family(ip) {
            Some(AuthError::GatewayFamily(i))
        } else if is_refused(limits, gateway) {
            Some(AuthError::RefusedGateway(i))
        } else {
            None
        },
    }
}

/// The families of the tunnel, or the first problem among its addresses.
fn check_addresses(addresses: &Vec<NetworkAddress>, ips: &AuthAddresses, limits: &AuthLimits) -> (
    result: Result<(bool, bool), AuthError>)
    requires
        ips.addresses@.len() == addresses@.len(),
        ips.gateways@.len() == addresses@.len(),
    ensures
        match result {
            Ok((has_ipv4, has_ipv6)) => {
                &&& addresses_problem(addresses@, *ips, *limits, addresses@.len() as int) is None
                &&& has_ipv4 == saw_family(
                    ips.addresses@,
                    NetworkAddressFamily::Ipv4,
                    addresses@.len() as int,
                )
                &&& has_ipv6 == saw_family(
                    ips.addresses@,
                    NetworkAddressFamily::Ipv6,
                    addresses@.len() as int,
                )
            },
            Err(error) => addresses_problem(
                addresses@,
                *ips,
                *limits,
                addresses@.len() as int,
            ) == Some(error),
        },
{
    let mut has_ipv4 = false;
    let mut has_ipv6 = false;
    let mut i: usize = 0;
    while i < addresses.len()
        invariant
            i <= addresses@.len(),
            ips.addresses@.len() == addresses@.len(),
            ips.gateways@.len() == addresses@.len(),
            addresses_problem(addresses@, *ips, *limits, i as int) is None,
            has_ipv4 == saw_family(ips.addresses@, NetworkAddressFamily::Ipv4, i as int),
            has_ipv6 == saw_family(ips.addresses@, NetworkAddressFamily::Ipv6, i as int),
        decreases addresses@.len() - i,
    {
        if let Some(error) = check_address(&addresses[i], ips, limits, i, has_ipv4, has_ipv6) {
            proof {
                lemma_addresses_problem_stays(
                    addresses@,
                    *ips,
                    *limits,
                    i + 1,
                    addresses@.len() as int,
                );
            }
            return Err(error);
        }
        match ips.addresses[i] {
            Some(ip) => {
                if ip.is_ipv4() {
                    assert(ips.addresses@[i as int] == Some(ip));
                    has_ipv4 = true;
                } else {
                    assert(ips.addresses@[i as int] == Some(ip));
                    has_ipv6 = true;
                }
            },
            None => {},
        }
        i += 1;
    }
    Ok((has_ipv4, has_ipv6))
}

/// The first problem among the first `end` pushed resolvers.
pub open spec fn servers_problem(
    servers: Seq<NetworkDns>,
    ips: AuthAddresses,
    limits: AuthLimits,
    addresses: int,
    end: int,
) -> Option<AuthError>
    decreases end,
{
    if end <= 0 {
        None
    } else {
        match servers_problem(servers, ips, limits, addresses, end - 1) {
            Some(error) => Some(error),
            None => match ips.dns_servers@[end - 1] {
                None => Some(AuthError::InvalidDnsServer((end - 1) as usize)),
                Some(ip) => if servers[end - 1].port == 0 {
                    Some(AuthError::ZeroDnsPort((end - 1) as usize))
                } else if !saw_family(ips.addresses@, family_of(ip), addresses) {
                    Some(AuthError::DnsFamilyAbsent((end - 1) as usize))
                } else if refused(limits, ip) {
                    Some(AuthError::RefusedDnsServer((end - 1) as usize))
                } else {
                    None
                },
            },
        }
    }
}

proof fn lemma_servers_problem_stays(
    servers: Seq<NetworkDns>,
    ips: AuthAddresses,
    limits: AuthLimits,
    addresses: int,
    i: int,
    end: int,
)
    requires
        0 <= i <= end,
        servers_problem(servers, ips, limits, addresses, i) is Some,
    ensures
        servers_problem(servers, ips, limits, addresses, end) == servers_problem(
            servers,
            ips,
            limits,
            addresses,
            i,
        ),
    decreases end - i,
{
    if i < end {
        lemma_servers_problem_stays(servers, ips, limits, addresses, i, end - 1);
    }
}

fn check_servers(
    servers: &Vec<NetworkDns>,
    ips: &AuthAddresses,
    limits: &AuthLimits,
    addresses: usize,
    has_ipv4: bool,
    has_ipv6: bool,
) -> (problem: Option<AuthError>)
    requires
        ips.dns_servers@.len() == servers@.len(),
        has_ipv4 == saw_family(ips.addresses@, NetworkAddressFamily::Ipv4, addresses as int),
        has_ipv6 == saw_family(ips.addresses@, NetworkAddressFamily::Ipv6, addresses as int),
    ensures
        problem == servers_problem(
            servers@,
            *ips,
            *limits,
            addresses as int,
            servers@.len() as int,
        ),
{
    let mut i: usize = 0;
    while i < servers.len()
        invariant
            i <= servers@.len(),
            ips.dns_servers@.len() == servers@.len(),
            has_ipv4 == saw_family(ips.addresses@, NetworkAddressFamily::Ipv4, addresses as int),
            has_ipv6 == saw_family(ips.addresses@, NetworkAddressFamily::Ipv6, addresses as int),
            servers_problem(servers@, *ips, *limits, addresses as int, i as int) is None,
        decreases servers@.len() - i,
    {
        let problem = match ips.dns_servers[i] {
            None => Some(AuthError::InvalidDnsServer(i)),
            Some(ip) => if servers[i].port == 0 {
                Some(AuthError::ZeroDnsPort(i))
            } else if (ip.is_ipv4() && !has_ipv4) || (!ip.is_ipv4() && !has_ipv6) {
                Some(AuthError::DnsFamilyAbsent(i))
            } else if is_refused(limits, ip) {
                Some(AuthError::RefusedDnsServer(i))
            } else {
                None
            },
        };
        if problem.is_some() {
            proof {
                lemma_servers_problem_stays(
                    servers@,
                    *ips,
                    *limits,
                    addresses as int,
                    i + 1,
                    servers@.len() as int,
                );
            }
            return problem;
        }
        i += 1;
    }
    None
}

pub open spec fn mode_of(has_ipv4: bool, has_ipv6: bool) -> NetworkFamilyMode {
    if !has_ipv6 {
        NetworkFamilyMode::Ipv4
    } else if has_ipv4 {
        NetworkFamilyMode::Dual
    } else {
        NetworkFamilyMode::Ipv6
    }
}

/// The address that the legacy members describe: the first IPv4 address, else the first.
pub open spec fn projected(addresses: Seq<NetworkAddress>, end: int) -> int
    decreases end,
{
    if end <= 0 {
        0
    } else {
        let earlier = projected(addresses, end - 1);
        if end > 1 && addresses[earlier].family is Ipv4 {
            earlier
        } else if addresses[end - 1].family is Ipv4 {
            end - 1
        } else {
            0
        }
    }
}

fn find_projection(addresses: &Vec<NetworkAddress>) -> (index: usize)
    requires
        addresses@.len() > 0,
    ensures
        index == projected(addresses@, addresses@.len() as int),
        index < addresses@.len(),
{
    let mut index: usize = 0;
    let mut i: usize = 0;
    while i < addresses.len()
        invariant
            i <= addresses@.len(),
            addresses@.len() > 0,
            index == projected(addresses@, i as int),
            index < addresses@.len(),
            i == 0 ==> index == 0,
        decreases addresses@.len() - i,
    {
        if i > 0 && addresses[index].family == NetworkAddressFamily::Ipv4 {
        } else if addresses[i].family == NetworkAddressFamily::Ipv4 {
            index = i;
        } else {
            index = 0;
        }
        i += 1;
    }
    index
}

/// The network part of an accepted response.
pub struct GrantView {
    pub family_mode: NetworkFamilyMode,
    pub addresses: Seq<AddressView>,
    pub dns_servers: Seq<NetworkDnsView>,
}

/// The network part of a self-describing response. Its legacy members must agree with it.
pub open spec fn self_described(
    members: AuthMembers,
    decoded: DecodedMembers,
    ips: AuthAddresses,
    limits: AuthLimits,
    prefix: u8,
) -> Result<GrantView, AuthError> {
    match (decoded.family_mode, decoded.addresses) {
        (None, _) => Err(AuthError::InvalidFamilyMode),
        (_, None) => Err(AuthError::InvalidAddresses),
        (Some(family_mode), Some(addresses)) => {
            let count = addresses@.len() as int;
            let has_ipv4 = saw_family(ips.addresses@, NetworkAddressFamily::Ipv4, count);
            let has_ipv6 = saw_family(ips.addresses@, NetworkAddressFamily::Ipv6, count);
            let projection = addresses@[projected(addresses@, count)];
            if count == 0 || count > 2 {
                Err(AuthError::AddressCount)
            } else if addresses_problem(addresses@, ips, limits, count) is Some {
                Err(addresses_problem(addresses@, ips, limits, count)->Some_0)
            } else if family_mode != mode_of(has_ipv4, has_ipv6) {
                Err(AuthError::FamilyModeMismatch)
            } else if has_ipv6 && accepted_mtu(members.mtu@, limits) < 1280 {
                Err(AuthError::MtuBelowIpv6Minimum(accepted_mtu(members.mtu@, limits)))
            } else if member_text(members.client_ip@) != projection.address@ || prefix
                != projection.on_link_prefix_len || member_text(members.server_ip@) != (
            match projection.gateway {
                Some(gateway) => gateway@,
                None => Seq::empty(),
            }) {
                Err(AuthError::ProjectionMismatch)
            } else {
                match decoded.dns_servers {
                    None => Err(AuthError::InvalidDnsServers),
                    Some(servers) => if servers@.len() > 8 {
                        Err(AuthError::TooManyDnsServers)
                    } else {
                        match servers_problem(
                            servers@,
                            ips,
                            limits,
                            count,
                            servers@.len() as int,
                        ) {
                            Some(error) => Err(error),
                            None => Ok(
                                GrantView {
                                    family_mode,
                                    addresses: address_views(addresses@),
                                    dns_servers: server_views(servers@),
                                },
                            ),
                        }
                    },
                }
            }
        },
    }
}

/// The network part of a response of an older, IPv4-only server.
pub open spec fn legacy_described(members: AuthMembers, ips: AuthAddresses, prefix: u8) -> Result<
    GrantView,
    AuthError,
> {
    let client_ip = member_text(members.client_ip@);
    let server_ip = member_text(members.server_ip@);
    if !(ips.client_ip matches Some(IpAddress::V4(_))) {
        Err(AuthError::ClientIpNotIpv4)
    } else if server_ip.len() > 0 && !(ips.server_ip matches Some(IpAddress::V4(_))) {
        Err(AuthError::ServerIpNotIpv4)
    } else {
        Ok(
            GrantView {
                family_mode: NetworkFamilyMode::Ipv4,
                addresses: seq![
                    AddressView {
                        family: NetworkAddressFamily::Ipv4,
                        address: client_ip,
                        prefix_len: prefix,
                        on_link_prefix_len: prefix,
                        gateway: if server_ip.len() > 0 {
                            Some(server_ip)
                        } else {
                            None
                        },
                    },
                ],
                dns_servers: if member_text(members.dns@).len() > 0 {
                    match ips.dns {
                        Some(IpAddress::V4(address)) => seq![
                            NetworkDnsView {
                                address: ipv4_text(address),
                                port: match decimal_value(port_text(members.dns_port@), 65535) {
                                    Some(port) => port as u16,
                                    None => 53,
                                },
                            },
                        ],
                        _ => Seq::empty(),
                    }
                } else {
                    Seq::empty()
                },
            },
        )
    }
}

pub open spec fn hex_digit(character: char) -> Option<int> {
    if '0' <= character <= '9' {
        Some(character as u32 - '0' as u32)
    } else if 'a' <= character <= 'f' {
        Some(character as u32 - 'a' as u32 + 10)
    } else if 'A' <= character <= 'F' {
        Some(character as u32 - 'A' as u32 + 10)
    } else {
        None
    }
}

/// The number that a text of hexadecimal digits denotes.
pub open spec fn hex_value(text: Seq<char>) -> Option<int>
    decreases text.len(),
{
    if text.len() == 0 {
        Some(0)
    } else {
        match (hex_value(text.drop_last()), hex_digit(text.last())) {
            (Some(front), Some(digit)) => Some(front * 16 + digit),
            _ => None,
        }
    }
}

proof fn lemma_hex_failure_stays(text: Seq<char>, i: int)
    requires
        0 <= i <= text.len(),
        hex_value(text.take(i)) is None,
    ensures
        hex_value(text) is None,
    decreases text.len() - i,
{
    if i == text.len() {
        assert(text.take(i) =~= text);
    } else {
        assert(text.take(i + 1).drop_last() =~= text.take(i));
        lemma_hex_failure_stays(text, i + 1);
    }
}

/// Reads exactly 16 hexadecimal digits.
pub fn parse_session_id(text: &str) -> (id: Option<u64>)
    ensures
        match id {
            Some(id) => text@.len() == 16 && hex_value(text@) == Some(id as int),
            None => text@.len() != 16 || hex_value(text@) is None,
        },
{
    let chars = chars_of(text);
    if chars.len() != 16 {
        return None;
    }
    let mut value: u64 = 0;
    let mut i: usize = 0;
    let ghost mut bound: int = 1;
    assert(text@.take(0) =~= Seq::<char>::empty());
    while i < 16
        invariant
            chars@ == text@,
            chars@.len() == 16,
            i <= 16,
            value < bound,
            bound * pow16(16 - i) == pow16(16),
            bound >= 1,
            hex_value(text@.take(i as int)) == Some(value as int),
        decreases 16 - i,
    {
        let character = chars[i];
        proof {
            assert(text@.take(i + 1).drop_last() =~= text@.take(i as int));
            assert(text@.take(i + 1).last() == character);
            lemma_pow16(bound, 16 - i);
        }
        let digit: u64 = if '0' <= character && character <= '9' {
            (character as u32 - '0' as u32) as u64
        } else if 'a' <= character && character <= 'f' {
            (character as u32 - 'a' as u32 + 10) as u64
        } else if 'A' <= character && character <= 'F' {
            (character as u32 - 'A' as u32 + 10) as u64
        } else {
            proof {
                lemma_hex_failure_stays(text@, i + 1);
            }
            return None;
        };
        value = value * 16 + digit;
        proof {
            bound = bound * 16;
        }
        i += 1;
    }
    assert(text@.take(16) =~= text@);
    Some(value)
}

pub open spec fn pow16(exponent: int) -> int
    decreases exponent,
{
    if exponent <= 0 {
        1
    } else {
        16 * pow16(exponent - 1)
    }
}

proof fn lemma_pow16(bound: int, left: int)
    requires
        1 <= left <= 16,
        bound >= 1,
        bound * pow16(left) == pow16(16),
    ensures
        bound * 16 <= 0x1_0000_0000_0000_0000,
        bound * 16 * pow16(left - 1) == pow16(16),
{
    reveal_with_fuel(pow16, 17);
    assert(pow16(16) == 0x1_0000_0000_0000_0000);
    let rest = pow16(left - 1);
    lemma_pow16_positive(left - 1);
    assert(bound * 16 * rest == bound * (16 * rest)) by (nonlinear_arith);
    assert(bound * 16 <= bound * 16 * rest) by (nonlinear_arith)
        requires
            bound >= 1,
            rest >= 1,
    ;
}

proof fn lemma_pow16_positive(exponent: int)
    ensures
        pow16(exponent) >= 1,
    decreases exponent,
{
    if exponent > 0 {
        lemma_pow16_positive(exponent - 1);
    }
}

/// The roaming session that a response names.
pub open spec fn roaming_session(member: JsonMemberView) -> Result<Option<u64>, AuthError> {
    match member {
        JsonMemberView::Absent => Ok(None),
        JsonMemberView::Text(text) => match hex_value(text) {
            Some(id) => if text.len() != 16 {
                Err(AuthError::InvalidRoamingSession)
            } else if id == 0 {
                Err(AuthError::ZeroRoamingSession)
            } else {
                Ok(Some(id as u64))
            },
            None => Err(AuthError::InvalidRoamingSession),
        },
        _ => Err(AuthError::InvalidRoamingSession),
    }
}

fn read_roaming_session(member: &JsonMember) -> (result: Result<Option<u64>, AuthError>)
    ensures
        result == roaming_session(member@),
{
    match member {
        JsonMember::Absent => Ok(None),
        JsonMember::Text(text) => match parse_session_id(text.as_str()) {
            Some(id) => if id == 0 {
                Err(AuthError::ZeroRoamingSession)
            } else {
                Ok(Some(id))
            },
            None => Err(AuthError::InvalidRoamingSession),
        },
        _ => Err(AuthError::InvalidRoamingSession),
    }
}

pub open spec fn streams_of(member: JsonMemberView) -> u32 {
    match member_unsigned(member) {
        None => 1,
        Some(value) => if value < 1 {
            1
        } else if value > 16 {
            16
        } else {
            value as u32
        },
    }
}

/// What is accepted of a response, or why it is refused.
pub open spec fn grant(
    members: AuthMembers,
    decoded: DecodedMembers,
    ips: AuthAddresses,
    limits: AuthLimits,
) -> Result<GrantView, AuthError> {
    let v2 = is_v2(members);
    if v2 != !(members.addresses is Absent) {
        Err(AuthError::PartialPlan)
    } else if member_text(members.client_ip@).len() == 0 {
        Err(AuthError::MissingClientIp)
    } else {
        match accepted_prefix(members.prefix@, v2) {
            None => Err(AuthError::InvalidPrefix),
            Some(prefix) => {
                let network = if v2 {
                    self_described(members, decoded, ips, limits, prefix)
                } else {
                    legacy_described(members, ips, prefix)
                };
                match network {
                    Err(error) => Err(error),
                    Ok(network) => if !(members.obfuscation is Absent || members.obfuscation is Null)
                        && decoded.obfuscation is None {
                        Err(AuthError::InvalidObfuscation)
                    } else {
                        match roaming_session(members.udp_roaming_session@) {
                            Err(error) => Err(error),
                            Ok(_) => Ok(network),
                        }
                    },
                }
            },
        }
    }
}

/// What an accepted response says.
pub open spec fn granted(
    auth: AuthOk,
    members: AuthMembers,
    decoded: DecodedMembers,
    limits: AuthLimits,
    network: GrantView,
) -> bool {
    &&& auth.family_mode == network.family_mode
    &&& address_views(auth.addresses@) == network.addresses
    &&& auth.client_ip@ == member_text(members.client_ip@)
    &&& auth.server_ip@ == member_text(members.server_ip@)
    &&& Some(auth.prefix) == accepted_prefix(members.prefix@, is_v2(members))
    &&& auth.mtu == accepted_mtu(members.mtu@, limits)
    &&& auth.dns_ip@ == member_text(members.dns@)
    &&& auth.dns_port@ == port_text(members.dns_port@)
    &&& server_views(auth.dns_servers@) == network.dns_servers
    &&& auth.routes_json@ == match members.routes {
        Some(text) => text@,
        None => "[]"@,
    }
    &&& auth.pushed_obf == if members.obfuscation is Absent || members.obfuscation is Null {
        None
    } else {
        decoded.obfuscation
    }
    &&& auth.session_token@ == member_text(members.session_token@)
    &&& auth.max_streams == streams_of(members.max_streams@)
    &&& auth.adaptive == (members.multipath_adaptive == JsonMember::Bool(true))
    &&& Ok::<Option<u64>, AuthError>(auth.udp_roaming_session_id) == roaming_session(
        members.udp_roaming_session@,
    )
}

fn accept_prefix(member: &JsonMember, v2: bool) -> (prefix: Option<u8>)
    ensures
        prefix == accepted_prefix(member@, v2),
{
    let limit: u64 = if v2 {
        128
    } else {
        32
    };
    match unsigned_of_member(member) {
        Some(value) => if 1 <= value && value <= limit {
            Some(value as u8)
        } else if v2 {
            None
        } else {
            Some(24)
        },
        None => if v2 {
            None
        } else {
            Some(24)
        },
    }
}

fn accept_mtu(member: &JsonMember, limits: &AuthLimits) -> (mtu: i32)
    ensures
        mtu == accepted_mtu(member@, *limits),
{
    match member {
        JsonMember::Number(_, Some(value), _) => if limits.min_mtu as i64 <= *value && *value
            <= limits.max_mtu as i64 {
            *value as i32
        } else {
            0
        },
        _ => 0,
    }
}

fn accept_port(member: &JsonMember) -> (port: String)
    ensures
        port@ == port_text(member@),
{
    match member {
        JsonMember::Number(_, _, text) => text.clone(),
        JsonMember::Text(text) => text.clone(),
        _ => "53".to_owned(),
    }
}

/// The network part of an accepted response.
struct Grant {
    family_mode: NetworkFamilyMode,
    addresses: Vec<NetworkAddress>,
    dns_servers: Vec<NetworkDns>,
}

impl View for Grant {
    type V = GrantView;

    closed spec fn view(&self) -> GrantView {
        GrantView {
            family_mode: self.family_mode,
            addresses: address_views(self.addresses@),
            dns_servers: server_views(self.dns_servers@),
        }
    }
}

fn accept_self_described(
    members: &AuthMembers,
    family_mode: Option<NetworkFamilyMode>,
    addresses: Option<Vec<NetworkAddress>>,
    dns_servers: Option<Vec<NetworkDns>>,
    ips: &AuthAddresses,
    limits: &AuthLimits,
    prefix: u8,
    Ghost(decoded): Ghost<DecodedMembers>,
) -> (result: Result<Grant, AuthError>)
    requires
        decoded.family_mode == family_mode,
        decoded.addresses == addresses,
        decoded.dns_servers == dns_servers,
        addresses matches Some(addresses) ==> ips.addresses@.len() == addresses@.len()
            && ips.gateways@.len() == addresses@.len(),
        dns_servers matches Some(servers) ==> ips.dns_servers@.len() == servers@.len(),
    ensures
        match result {
            Ok(grant) => self_described(*members, decoded, *ips, *limits, prefix) == Ok::<
                GrantView,
                AuthError,
            >(grant@),
            Err(error) => self_described(*members, decoded, *ips, *limits, prefix) == Err::<
                GrantView,
                AuthError,
            >(error),
        },
{
    let family_mode = match family_mode {
        Some(family_mode) => family_mode,
        None => return Err(AuthError::InvalidFamilyMode),
    };
    let addresses = match addresses {
        Some(addresses) => addresses,
        None => return Err(AuthError::InvalidAddresses),
    };
    if addresses.len() == 0 || addresses.len() > 2 {
        return Err(AuthError::AddressCount);
    }
    let (has_ipv4, has_ipv6) = match check_addresses(&addresses, ips, limits) {
        Ok(families) => families,
        Err(error) => return Err(error),
    };
    let expected = if !has_ipv6 {
        NetworkFamilyMode::Ipv4
    } else if has_ipv4 {
        NetworkFamilyMode::Dual
    } else {
        NetworkFamilyMode::Ipv6
    };
    if family_mode != expected {
        return Err(AuthError::FamilyModeMismatch);
    }
    let mtu: i32 = accept_mtu(&members.mtu, limits);
    if has_ipv6 && mtu < 1280 {
        return Err(AuthError::MtuBelowIpv6Minimum(mtu));
    }
    let projection = &addresses[find_projection(&addresses)];
    let client_ip = text_of_member(&members.client_ip);
    let server_ip = text_of_member(&members.server_ip);
    let gateway_agrees = match &projection.gateway {
        Some(gateway) => same_text(server_ip.as_str(), gateway.as_str()),
        None => {
            let empty = server_ip.as_str().unicode_len() == 0;
            assert(empty == (server_ip@ =~= Seq::<char>::empty()));
            empty
        },
    };
    if !same_text(client_ip.as_str(), projection.address.as_str()) || prefix
        != projection.on_link_prefix_len || !gateway_agrees {
        return Err(AuthError::ProjectionMismatch);
    }
    let dns_servers = match dns_servers {
        Some(servers) => servers,
        None => return Err(AuthError::InvalidDnsServers),
    };
    if dns_servers.len() > 8 {
        return Err(AuthError::TooManyDnsServers);
    }
    if let Some(error) = check_servers(
        &dns_servers,
        ips,
        limits,
        addresses.len(),
        has_ipv4,
        has_ipv6,
    ) {
        return Err(error);
    }
    Ok(Grant { family_mode, addresses, dns_servers })
}

fn accept_legacy(members: &AuthMembers, ips: &AuthAddresses, prefix: u8) -> (result: Result<
    Grant,
    AuthError,
>)
    ensures
        match result {
            Ok(grant) => legacy_described(*members, *ips, prefix) == Ok::<GrantView, AuthError>(
                grant@,
            ),
            Err(error) => legacy_described(*members, *ips, prefix) == Err::<GrantView, AuthError>(
                error,
            ),
        },
{
    match ips.client_ip {
        Some(IpAddress::V4(_)) => {},
        _ => return Err(AuthError::ClientIpNotIpv4),
    }
    let client_ip = text_of_member(&members.client_ip);
    let server_ip = text_of_member(&members.server_ip);
    let has_server = server_ip.as_str().unicode_len() > 0;
    if has_server {
        match ips.server_ip {
            Some(IpAddress::V4(_)) => {},
            _ => return Err(AuthError::ServerIpNotIpv4),
        }
    }
    let gateway = if has_server {
        Some(server_ip)
    } else {
        None
    };
    let mut addresses: Vec<NetworkAddress> = Vec::new();
    addresses.push(
        NetworkAddress {
            family: NetworkAddressFamily::Ipv4,
            address: client_ip,
            prefix_len: prefix,
            on_link_prefix_len: prefix,
            gateway,
        },
    );
    let mut dns_servers: Vec<NetworkDns> = Vec::new();
    if text_of_member(&members.dns).as_str().unicode_len() > 0 {
        if let Some(IpAddress::V4(address)) = ips.dns {
            let port: u16 = match parse_decimal(accept_port(&members.dns_port).as_str(), 65535) {
                Some(port) => port as u16,
                None => 53,
            };
            dns_servers.push(NetworkDns { address: render_ipv4(address), port });
        }
    }
    let grant = Grant { family_mode: NetworkFamilyMode::Ipv4, addresses, dns_servers };
    proof {
        let expected = legacy_described(*members, *ips, prefix)->Ok_0;
        assert(grant@.addresses =~= expected.addresses);
        assert(grant@.dns_servers =~= expected.dns_servers);
    }
    Ok(grant)
}

/// Decides on a response from its members and from what they denote.
pub fn accept_auth_ok(
    members: &AuthMembers,
    decoded: DecodedMembers,
    ips: &AuthAddresses,
    limits: &AuthLimits,
) -> (result: Result<AuthOk, AuthError>)
    requires
        decoded.addresses matches Some(addresses) ==> ips.addresses@.len() == addresses@.len()
            && ips.gateways@.len() == addresses@.len(),
        decoded.dns_servers matches Some(servers) ==> ips.dns_servers@.len() == servers@.len(),
    ensures
        match result {
            Ok(auth) => {
                &&& grant(*members, decoded, *ips, *limits) is Ok
                &&& granted(
                    auth,
                    *members,
                    decoded,
                    *limits,
                    grant(*members, decoded, *ips, *limits)->Ok_0,
                )
            },
            Err(error) => grant(*members, decoded, *ips, *limits) == Err::<GrantView, AuthError>(
                error,
            ),
        },
{
    let v2 = !matches!(members.family_mode, JsonMember::Absent);
    let has_addresses = !matches!(members.addresses, JsonMember::Absent);
    if v2 != has_addresses {
        return Err(AuthError::PartialPlan);
    }
    let client_ip = text_of_member(&members.client_ip);
    if client_ip.as_str().unicode_len() == 0 {
        return Err(AuthError::MissingClientIp);
    }
    let prefix: u8 = match accept_prefix(&members.prefix, v2) {
        Some(prefix) => prefix,
        None => return Err(AuthError::InvalidPrefix),
    };
    let ghost whole = decoded;
    let DecodedMembers { family_mode, addresses, dns_servers, obfuscation } = decoded;
    let network = if v2 {
        accept_self_described(
            members,
            family_mode,
            addresses,
            dns_servers,
            ips,
            limits,
            prefix,
            Ghost(whole),
        )
    } else {
        accept_legacy(members, ips, prefix)
    };
    let network = match network {
        Ok(network) => network,
        Err(error) => return Err(error),
    };
    let pushes_nothing = match members.obfuscation {
        JsonMember::Absent => true,
        JsonMember::Null => true,
        _ => false,
    };
    if !pushes_nothing && obfuscation.is_none() {
        return Err(AuthError::InvalidObfuscation);
    }
    let udp_roaming_session_id = match read_roaming_session(&members.udp_roaming_session) {
        Ok(id) => id,
        Err(error) => return Err(error),
    };
    let max_streams: u32 = match unsigned_of_member(&members.max_streams) {
        None => 1,
        Some(value) => if value < 1 {
            1
        } else if value > 16 {
            16
        } else {
            value as u32
        },
    };
    let routes_json = match &members.routes {
        Some(text) => text.clone(),
        None => "[]".to_owned(),
    };
    let adaptive = match members.multipath_adaptive {
        JsonMember::Bool(value) => value,
        _ => false,
    };
    Ok(
        AuthOk {
            family_mode: network.family_mode,
            addresses: network.addresses,
            client_ip,
            server_ip: text_of_member(&members.server_ip),
            prefix,
            mtu: accept_mtu(&members.mtu, limits),
            dns_ip: text_of_member(&members.dns),
            dns_port: accept_port(&members.dns_port),
            dns_servers: network.dns_servers,
            routes_json,
            pushed_obf: if pushes_nothing {
                None
            } else {
                obfuscation
            },
            session_token: text_of_member(&members.session_token),
            max_streams,
            adaptive,
            udp_roaming_session_id,
        },
    )
}

/// The JSON text of an accepting response.
pub open spec fn accepted_json(response: Seq<char>) -> Option<Seq<char>> {
    if response.len() >= 3 && response.take(3) == "OK:"@ {
        Some(response.skip(3))
    } else {
        None
    }
}

/// The member of this name, absent where the text is no JSON.
pub open spec fn named_member(json: Seq<char>, name: Seq<char>) -> JsonMemberView {
    match json_member_of(json, name) {
        Some(member) => member,
        None => JsonMemberView::Absent,
    }
}

/// The members are those of the JSON text.
pub open spec fn members_of(json: Seq<char>, members: AuthMembers) -> bool {
    &&& members.family_mode@ == named_member(json, "family_mode"@)
    &&& members.addresses@ == named_member(json, "addresses"@)
    &&& members.client_ip@ == named_member(json, "client_ip"@)
    &&& members.server_ip@ == named_member(json, "server_ip"@)
    &&& members.dns_port@ == named_member(json, "dns_port"@)
    &&& members.prefix@ == named_member(json, "prefix"@)
    &&& members.mtu@ == named_member(json, "mtu"@)
    &&& members.dns@ == named_member(json, "dns"@)
    &&& members.obfuscation@ == named_member(json, "obfuscation"@)
    &&& members.udp_roaming_session@ == named_member(json, "udp_roaming_session"@)
    &&& members.session_token@ == named_member(json, "session_token"@)
    &&& members.max_streams@ == named_member(json, "max_streams"@)
    &&& members.multipath_adaptive@ == named_member(json, "multipath_adaptive"@)
    &&& text_view(members.routes) == json_member_text(json, "routes"@)
}

/// The addresses are those that the texts denote.
pub open spec fn addresses_of(
    members: AuthMembers,
    decoded: DecodedMembers,
    ips: AuthAddresses,
) -> bool {
    &&& ips.addresses@ == match decoded.addresses {
        Some(addresses) => addresses@.map_values(
            |assigned: NetworkAddress| ip_of_text(assigned.address@),
        ),
        None => Seq::empty(),
    }
    &&& ips.gateways@ == match decoded.addresses {
        Some(addresses) => addresses@.map_values(
            |assigned: NetworkAddress| crate::routes::opt_ip_of(opt_text(assigned.gateway)),
        ),
        None => Seq::empty(),
    }
    &&& ips.dns_servers@ == match decoded.dns_servers {
        Some(servers) => servers@.map_values(|server: NetworkDns| ip_of_text(server.address@)),
        None => Seq::empty(),
    }
    &&& ips.client_ip == ip_of_text(member_text(members.client_ip@))
    &&& ips.server_ip == ip_of_text(member_text(members.server_ip@))
    &&& ips.dns == ip_of_text(member_text(members.dns@))
}

fn read_member(json: &str, name: &str) -> (member: JsonMember)
    ensures
        member@ == named_member(json@, name@),
{
    match json_member(json, name) {
        Some(member) => member,
        None => JsonMember::Absent,
    }
}

fn read_members(json: &str) -> (members: AuthMembers)
    ensures
        members_of(json@, members),
{
    AuthMembers {
        family_mode: read_member(json, "family_mode"),
        addresses: read_member(json, "addresses"),
        client_ip: read_member(json, "client_ip"),
        server_ip: read_member(json, "server_ip"),
        dns_port: read_member(json, "dns_port"),
        prefix: read_member(json, "prefix"),
        mtu: read_member(json, "mtu"),
        dns: read_member(json, "dns"),
        obfuscation: read_member(json, "obfuscation"),
        udp_roaming_session: read_member(json, "udp_roaming_session"),
        session_token: read_member(json, "session_token"),
        max_streams: read_member(json, "max_streams"),
        multipath_adaptive: read_member(json, "multipath_adaptive"),
        routes: render_json_member(json, "routes"),
    }
}

fn read_addresses(members: &AuthMembers, decoded: &DecodedMembers) -> (ips: AuthAddresses)
    ensures
        addresses_of(*members, *decoded, ips),
{
    let mut addresses: Vec<Option<IpAddress>> = Vec::new();
    let mut gateways: Vec<Option<IpAddress>> = Vec::new();
    if let Some(list) = &decoded.addresses {
        let ghost all = list@.map_values(
            |assigned: NetworkAddress| ip_of_text(assigned.address@),
        );
        let ghost all_gateways = list@.map_values(
            |assigned: NetworkAddress| crate::routes::opt_ip_of(opt_text(assigned.gateway)),
        );
        let mut i: usize = 0;
        while i < list.len()
            invariant
                i <= list@.len(),
                all == list@.map_values(
                    |assigned: NetworkAddress| ip_of_text(assigned.address@),
                ),
                all_gateways == list@.map_values(
                    |assigned: NetworkAddress|
                        crate::routes::opt_ip_of(opt_text(assigned.gateway)),
                ),
                addresses@ =~= all.take(i as int),
                gateways@ =~= all_gateways.take(i as int),
            decreases list@.len() - i,
        {
            addresses.push(parse_ip(list[i].address.as_str()));
            gateways.push(
                match &list[i].gateway {
                    Some(text) => parse_ip(text.as_str()),
                    None => None,
                },
            );
            i += 1;
        }
        assert(addresses@ =~= all);
        assert(gateways@ =~= all_gateways);
    }
    let mut dns_servers: Vec<Option<IpAddress>> = Vec::new();
    if let Some(list) = &decoded.dns_servers {
        let ghost all = list@.map_values(|server: NetworkDns| ip_of_text(server.address@));
        let mut i: usize = 0;
        while i < list.len()
            invariant
                i <= list@.len(),
                all == list@.map_values(|server: NetworkDns| ip_of_text(server.address@)),
                dns_servers@ =~= all.take(i as int),
            decreases list@.len() - i,
        {
            dns_servers.push(parse_ip(list[i].address.as_str()));
            i += 1;
        }
        assert(dns_servers@ =~= all);
    }
    AuthAddresses {
        addresses,
        gateways,
        dns_servers,
        client_ip: parse_ip(text_of_member(&members.client_ip).as_str()),
        server_ip: parse_ip(text_of_member(&members.server_ip).as_str()),
        dns: parse_ip(text_of_member(&members.dns).as_str()),
    }
}

/// Reads and validates the response to an authentication.
pub fn parse_auth_ok(response: &str, decoded: DecodedMembers, limits: &AuthLimits) -> (result:
    Result<AuthOk, AuthError>)
    ensures
        match accepted_json(response@) {
            None => result is Err && result->Err_0 == AuthError::Rejected,
            Some(json) => if json_member_of(json, "family_mode"@) is None {
                result is Err && result->Err_0 == AuthError::MalformedJson
            } else {
                exists|members: AuthMembers, ips: AuthAddresses|
                    {
                        &&& #[trigger] members_of(json, members)
                        &&& #[trigger] addresses_of(members, decoded, ips)
                        &&& match result {
                            Ok(auth) => {
                                &&& grant(members, decoded, ips, *limits) is Ok
                                &&& granted(
                                    auth,
                                    members,
                                    decoded,
                                    *limits,
                                    grant(members, decoded, ips, *limits)->Ok_0,
                                )
                            },
                            Err(error) => grant(members, decoded, ips, *limits) == Err::<
                                GrantView,
                                AuthError,
                            >(error),
                        }
                    }
            },
        },
{
    let length: usize = response.unicode_len();
    if length < 3 {
        return Err(AuthError::Rejected);
    }
    let head = response.substring_char(0, 3);
    assert(head@ =~= response@.take(3));
    if !same_text(head, "OK:") {
        return Err(AuthError::Rejected);
    }
    let json = response.substring_char(3, length);
    assert(json@ =~= response@.skip(3));
    if json_member(json, "family_mode").is_none() {
        return Err(AuthError::MalformedJson);
    }
    let members = read_members(json);
    let ips = read_addresses(&members, &decoded);
    let result = accept_auth_ok(&members, decoded, &ips, limits);
    assert(members_of(json@, members));
    assert(addresses_of(members, decoded, ips));
    result
}

/// The tunnel MTU: the client's own, else the pushed one, else the fallback.
pub fn effective_mtu(client_mtu: i32, pushed_mtu: i32, auto_fallback: i32) -> (mtu: i32)
    ensures
        mtu == if client_mtu > 0 {
            client_mtu
        } else if pushed_mtu > 0 {
            pushed_mtu
        } else {
            auto_fallback
        },
{
    if client_mtu > 0 {
        client_mtu
    } else if pushed_mtu > 0 {
        pushed_mtu
    } else {
        auto_fallback
    }
}

/// Every response that is accepted with self-described addresses has one address per active
/// family, an MTU that IPv6 can live with, and legacy members that agree with it.
pub proof fn law_accepted_plan_is_consistent(
    members: AuthMembers,
    decoded: DecodedMembers,
    ips: AuthAddresses,
    limits: AuthLimits,
)
    requires
        is_v2(members),
        grant(members, decoded, ips, limits) is Ok,
        decoded.addresses matches Some(addresses) ==> ips.addresses@.len() == addresses@.len(),
    ensures
        ({
            let network = grant(members, decoded, ips, limits)->Ok_0;
            let count = network.addresses.len() as int;
            let has_ipv4 = saw_family(ips.addresses@, NetworkAddressFamily::Ipv4, count);
            let has_ipv6 = saw_family(ips.addresses@, NetworkAddressFamily::Ipv6, count);
            &&& 1 <= count <= 2
            &&& count == 2 ==> ips.addresses@[0] is Some && ips.addresses@[1] is Some && family_of(
                ips.addresses@[0]->Some_0,
            ) != family_of(ips.addresses@[1]->Some_0)
            &&& network.family_mode == mode_of(has_ipv4, has_ipv6)
            &&& has_ipv6 ==> accepted_mtu(members.mtu@, limits) >= 1280
            &&& network.dns_servers.len() <= 8
        }),
{
    let addresses = decoded.addresses->Some_0@;
    let count = addresses.len() as int;
    reveal_with_fuel(addresses_problem, 3);
    if count == 2 {
        assert(address_problem(addresses[0], ips, limits, 0) is None);
        assert(address_problem(addresses[1], ips, limits, 1) is None);
        assert(ips.addresses@[0] is Some);
    }
}

/// A response accepts the client exactly where it starts with `OK:`; its members are those of the
/// JSON text behind that, each under its own name.
pub proof fn law_responses_are_read_by_name(json: Seq<char>, response: Seq<char>, members: AuthMembers)
    requires
        json_member_of(json, "family_mode"@) is Some,
        json_member_of(json, "addresses"@) is Some,
        json_member_of(json, "client_ip"@) is Some,
        json_member_of(json, "server_ip"@) is Some,
        json_member_of(json, "dns_port"@) is Some,
        json_member_of(json, "prefix"@) is Some,
        json_member_of(json, "mtu"@) is Some,
        json_member_of(json, "dns"@) is Some,
        json_member_of(json, "obfuscation"@) is Some,
        json_member_of(json, "udp_roaming_session"@) is Some,
        json_member_of(json, "session_token"@) is Some,
        json_member_of(json, "max_streams"@) is Some,
        json_member_of(json, "multipath_adaptive"@) is Some,
        members_of(json, members),
    ensures
        accepted_json(seq!['O', 'K', ':'] + json) == Some(json),
        accepted_json(response) is Some ==> response.len() >= 3 && response[0] == 'O' && response[1]
            == 'K' && response[2] == ':',
        Some(members.family_mode@) == json_member_of(json, "family_mode"@),
        Some(members.addresses@) == json_member_of(json, "addresses"@),
        Some(members.client_ip@) == json_member_of(json, "client_ip"@),
        Some(members.server_ip@) == json_member_of(json, "server_ip"@),
        Some(members.dns_port@) == json_member_of(json, "dns_port"@),
        Some(members.prefix@) == json_member_of(json, "prefix"@),
        Some(members.mtu@) == json_member_of(json, "mtu"@),
        Some(members.dns@) == json_member_of(json, "dns"@),
        Some(members.obfuscation@) == json_member_of(json, "obfuscation"@),
        Some(members.udp_roaming_session@) == json_member_of(json, "udp_roaming_session"@),
        Some(members.session_token@) == json_member_of(json, "session_token"@),
        Some(members.max_streams@) == json_member_of(json, "max_streams"@),
        Some(members.multipath_adaptive@) == json_member_of(json, "multipath_adaptive"@),
        match members.routes {
            Some(routes) => json_member_text(json, "routes"@) == Some(routes@),
            None => json_member_text(json, "routes"@) is None,
        },
{
    reveal_strlit("OK:");
    let whole = seq!['O', 'K', ':'] + json;
    assert(whole.take(3) =~= "OK:"@);
    assert(whole.skip(3) =~= json);
    if accepted_json(response) is Some {
        assert(response.take(3)[0] == response[0]);
        assert(response.take(3)[1] == response[1]);
        assert(response.take(3)[2] == response[2]);
    }
}

/// What an accepted response grants is what its members say: numbers within their limits, texts as
/// they are, and for what is missing the value that older servers meant.
pub proof fn law_grants_say_what_the_members_say(
    auth: AuthOk,
    members: AuthMembers,
    decoded: DecodedMembers,
    limits: AuthLimits,
    network: GrantView,
    text: Seq<char>,
    unsigned: Option<u64>,
    signed: Option<i64>,
    digits: Seq<char>,
    i: int,
)
    requires
        granted(auth, members, decoded, limits, network),
    ensures
        members.client_ip@ == JsonMemberView::Text(text) ==> auth.client_ip@ == text,
        members.server_ip@ == JsonMemberView::Text(text) ==> auth.server_ip@ == text,
        members.server_ip@ is Absent ==> auth.server_ip@.len() == 0,
        members.session_token@ == JsonMemberView::Text(text) ==> auth.session_token@ == text,
        members.session_token@ is Absent ==> auth.session_token@.len() == 0,
        members.dns@ == JsonMemberView::Text(text) ==> auth.dns_ip@ == text,
        members.dns_port@ == JsonMemberView::Text(text) ==> auth.dns_port@ == text,
        members.dns_port@ == JsonMemberView::Number(unsigned, signed, digits) ==> auth.dns_port@
            == digits,
        members.dns_port@ is Absent ==> auth.dns_port@ == seq!['5', '3'],
        members.mtu@ == JsonMemberView::Number(unsigned, signed, digits) ==> auth.mtu == if signed
            is Some && limits.min_mtu <= signed->Some_0 <= limits.max_mtu {
            signed->Some_0 as int
        } else {
            0
        },
        !(members.mtu@ is Number) ==> auth.mtu == 0,
        members.max_streams@ == JsonMemberView::Number(unsigned, signed, digits)
            ==> auth.max_streams == if unsigned is None || unsigned->Some_0 < 1 {
            1int
        } else if unsigned->Some_0 > 16 {
            16
        } else {
            unsigned->Some_0 as int
        },
        !(members.max_streams@ is Number) ==> auth.max_streams == 1,
        members.prefix@ == JsonMemberView::Number(unsigned, signed, digits) && unsigned is Some && 1
            <= unsigned->Some_0 <= 32 ==> auth.prefix == unsigned->Some_0,
        members.family_mode is Absent && !(members.prefix@ is Number) ==> auth.prefix == 24,
        auth.adaptive <==> members.multipath_adaptive@ == JsonMemberView::Bool(true),
        match members.routes {
            Some(routes) => auth.routes_json@ == routes@,
            None => auth.routes_json@ == seq!['[', ']'],
        },
        members.obfuscation is Absent || members.obfuscation is Null ==> auth.pushed_obf is None,
        members.obfuscation is Nested ==> auth.pushed_obf == decoded.obfuscation,
        members.udp_roaming_session@ is Absent ==> auth.udp_roaming_session_id is None,
        members.udp_roaming_session@ == JsonMemberView::Text(text) ==> (
        auth.udp_roaming_session_id matches Some(id) && id != 0 && text.len() == 16 && hex_value(
            text,
        ) == Some(id as int)),
        auth.family_mode == network.family_mode,
        auth.addresses@.len() == network.addresses.len(),
        0 <= i < auth.addresses@.len() ==> auth.addresses@[i]@ == network.addresses[i],
        auth.dns_servers@.len() == network.dns_servers.len(),
        0 <= i < auth.dns_servers@.len() ==> auth.dns_servers@[i].address@
            == network.dns_servers[i].address && auth.dns_servers@[i].port
            == network.dns_servers[i].port,
{
    reveal_strlit("53");
    reveal_strlit("[]");
    assert("53"@ =~= seq!['5', '3']);
    assert("[]"@ =~= seq!['[', ']']);
    assert(address_views(auth.addresses@).len() == auth.addresses@.len());
    assert(server_views(auth.dns_servers@).len() == auth.dns_servers@.len());
    if 0 <= i < auth.addresses@.len() {
        assert(address_views(auth.addresses@)[i] == auth.addresses@[i]@);
    }
    if 0 <= i < auth.dns_servers@.len() {
        assert(server_views(auth.dns_servers@)[i] == auth.dns_servers@[i]@);
    }
    if let JsonMemberView::Text(id) = members.udp_roaming_session@ {
        lemma_hex_fits(id);
    }
}

proof fn lemma_hex_fits(text: Seq<char>)
    ensures
        hex_value(text) matches Some(value) ==> 0 <= value < pow16(text.len() as int),
        text.len() == 16 ==> pow16(16) == 0x1_0000_0000_0000_0000,
    decreases text.len(),
{
    reveal_with_fuel(pow16, 17);
    if text.len() > 0 {
        lemma_hex_fits(text.drop_last());
    }
}

/// The digit of a value below sixteen, in small or in capital letters.
pub open spec fn hex_char(digit: int, capital: bool) -> char {
    if digit < 10 {
        (('0' as u32 + digit) as u8) as char
    } else if capital {
        (('A' as u32 + digit - 10) as u8) as char
    } else {
        (('a' as u32 + digit - 10) as u8) as char
    }
}

/// A number in so many hexadecimal digits.
pub open spec fn hex_text(number: int, width: nat, capital: bool) -> Seq<char>
    decreases width,
{
    if width == 0 {
        Seq::empty()
    } else {
        hex_text(number / 16, (width - 1) as nat, capital).push(hex_char(number % 16, capital))
    }
}

proof fn lemma_hex_round_trip(number: int, width: nat, capital: bool)
    requires
        0 <= number < pow16(width as int),
    ensures
        hex_text(number, width, capital).len() == width,
        hex_value(hex_text(number, width, capital)) == Some(number),
    decreases width,
{
    if width > 0 {
        lemma_hex_round_trip(number / 16, (width - 1) as nat, capital);
        let text = hex_text(number, width, capital);
        assert(text.drop_last() =~= hex_text(number / 16, (width - 1) as nat, capital));
    }
}

/// A roaming session is read back from the sixteen hexadecimal digits that it is written as, in
/// small or capital letters; zero names none, and a text of another length or with another
/// character is refused.
pub proof fn law_roaming_sessions_are_read_back(id: u64, capital: bool, text: Seq<char>, i: int)
    ensures
        hex_text(id as int, 16, capital).len() == 16,
        id > 0 ==> roaming_session(JsonMemberView::Text(hex_text(id as int, 16, capital))) == Ok::<
            Option<u64>,
            AuthError,
        >(Some(id)),
        id == 0 ==> roaming_session(JsonMemberView::Text(hex_text(id as int, 16, capital)))
            is Err,
        roaming_session(JsonMemberView::Absent) == Ok::<Option<u64>, AuthError>(None),
        roaming_session(JsonMemberView::Null) is Err,
        text.len() != 16 ==> roaming_session(JsonMemberView::Text(text)) is Err,
        0 <= i < text.len() && !('0' <= text[i] <= '9') && !('a' <= text[i] <= 'f') && !('A'
            <= text[i] <= 'F') ==> roaming_session(JsonMemberView::Text(text)) is Err,
{
    reveal_with_fuel(pow16, 17);
    lemma_hex_round_trip(id as int, 16, capital);
    if 0 <= i < text.len() && !('0' <= text[i] <= '9') && !('a' <= text[i] <= 'f') && !('A'
        <= text[i] <= 'F') {
        assert(text.take(i + 1).last() == text[i]);
        lemma_hex_failure_stays(text, i + 1);
    }
}

/// An older server's response is granted exactly where it names an IPv4 address for the client, and
/// where it names one for the server that too is an IPv4 address; what it pushes beside that has to
/// be readable. The client gets that one address, with the server as its gateway, and the resolver
/// that the response names.
pub proof fn law_legacy_responses_are_granted(
    members: AuthMembers,
    decoded: DecodedMembers,
    ips: AuthAddresses,
    limits: AuthLimits,
    client: Seq<char>,
    server: Seq<char>,
)
    requires
        members.family_mode is Absent,
        members.addresses is Absent,
        members.client_ip@ == JsonMemberView::Text(client),
        members.server_ip@ == JsonMemberView::Text(server),
    ensures
        ({
            let result = grant(members, decoded, ips, limits);
            let readable = (members.obfuscation is Absent || members.obfuscation is Null
                || decoded.obfuscation is Some) && roaming_session(members.udp_roaming_session@)
                is Ok;
            &&& result is Ok <==> client.len() > 0 && (ips.client_ip matches Some(ip) && ip is V4)
                && (server.len() == 0 || (ips.server_ip matches Some(ip) && ip is V4)) && readable
            &&& result matches Ok(network) ==> {
                &&& network.family_mode is Ipv4
                &&& network.addresses.len() == 1
                &&& network.addresses[0].family is Ipv4
                &&& network.addresses[0].address == client
                &&& Some(network.addresses[0].prefix_len) == accepted_prefix(members.prefix@, false)
                &&& network.addresses[0].on_link_prefix_len == network.addresses[0].prefix_len
                &&& network.addresses[0].gateway == if server.len() > 0 {
                    Some(server)
                } else {
                    None
                }
                &&& network.dns_servers.len() == if member_text(members.dns@).len() > 0 && (
                ips.dns matches Some(ip) && ip is V4) {
                    1nat
                } else {
                    0
                }
                &&& network.dns_servers.len() == 1 ==> network.dns_servers[0].address
                    == crate::ip_text::ipv4_text(ips.dns->Some_0->V4_0)
            }
        }),
{
}

/// The resolver of a legacy response listens where the response says, and on port 53 where it does
/// not say or says something that is no port.
pub proof fn law_legacy_resolver_port(
    members: AuthMembers,
    ips: AuthAddresses,
    prefix: u8,
    port: int,
    text: Seq<char>,
)
    requires
        legacy_described(members, ips, prefix) is Ok,
        legacy_described(members, ips, prefix)->Ok_0.dns_servers.len() == 1,
        members.dns_port@ == JsonMemberView::Text(text) || members.dns_port@ is Absent,
    ensures
        ({
            let server = legacy_described(members, ips, prefix)->Ok_0.dns_servers[0];
            &&& members.dns_port@ is Absent ==> server.port == 53
            &&& members.dns_port@ is Text && decimal_value(text, 65535) == Some(port)
                ==> server.port == port
            &&& members.dns_port@ is Text && decimal_value(text, 65535) is None ==> server.port == 53
        }),
{
    reveal_strlit("53");
    let digits = "53"@;
    assert(digits.drop_last() =~= seq!['5']);
    assert(seq!['5'].drop_last() =~= Seq::<char>::empty());
    reveal_with_fuel(crate::text::digits_value, 3);
    if let Some(value) = decimal_value(text, 65535) {
        lemma_port_fits(text);
    }
}

proof fn lemma_port_fits(text: Seq<char>)
    ensures
        decimal_value(text, 65535) matches Some(value) ==> 0 <= value <= 65535,
{
    let digits = if text.len() > 0 && text[0] == '+' {
        text.drop_first()
    } else {
        text
    };
    lemma_digits_count(digits);
}

proof fn lemma_digits_count(text: Seq<char>)
    ensures
        crate::text::digits_value(text) matches Some(value) ==> value >= 0,
    decreases text.len(),
{
    if text.len() > 0 {
        lemma_digits_count(text.drop_last());
    }
}

proof fn lemma_no_address_problem(
    addresses: Seq<NetworkAddress>,
    ips: AuthAddresses,
    limits: AuthLimits,
    end: int,
)
    requires
        0 <= end <= addresses.len(),
    ensures
        addresses_problem(addresses, ips, limits, end) is None <==> forall|i: int|
            0 <= i < end ==> address_problem(#[trigger] addresses[i], ips, limits, i) is None,
    decreases end,
{
    if end > 0 {
        lemma_no_address_problem(addresses, ips, limits, end - 1);
    }
}

/// An assigned address is in order exactly where its text is an address of the family that it
/// claims, the first of its family, with prefixes of that family, the on-link one no longer than
/// its own, and with a gateway, if it has one, of the same family; neither of them a refused one.
pub proof fn law_assigned_addresses_in_order(
    assigned: NetworkAddress,
    ips: AuthAddresses,
    limits: AuthLimits,
    i: int,
)
    ensures
        address_problem(assigned, ips, limits, i) is None <==> {
            &&& ips.addresses@[i] is Some
            &&& match ips.addresses@[i]->Some_0 {
                IpAddress::V4(_) => assigned.family is Ipv4 && 1 <= assigned.on_link_prefix_len
                    <= assigned.prefix_len <= 32 && forall|j: int|
                    0 <= j < i ==> !((#[trigger] ips.addresses@[j]) matches Some(ip) && ip is V4),
                IpAddress::V6(value) => assigned.family is Ipv6 && 1 <= assigned.on_link_prefix_len
                    <= assigned.prefix_len <= 128 && !limits.refused_ipv6@.contains(value)
                    && forall|j: int|
                    0 <= j < i ==> !((#[trigger] ips.addresses@[j]) matches Some(ip) && ip is V6),
            }
            &&& assigned.gateway is Some ==> ips.gateways@[i] is Some && match (
                ips.gateways@[i]->Some_0,
                ips.addresses@[i]->Some_0,
            ) {
                (IpAddress::V4(_), IpAddress::V4(_)) => true,
                (IpAddress::V6(value), IpAddress::V6(_)) => !limits.refused_ipv6@.contains(value),
                _ => false,
            }
        },
{
    if let Some(ip) = ips.addresses@[i] {
        assert(saw_family(ips.addresses@, family_of(ip), i) <==> exists|j: int|
            0 <= j < i && ((#[trigger] ips.addresses@[j]) matches Some(other) && (other is V4 <==> ip
                is V4)));
    }
}

spec fn server_fits(
    server: NetworkDns,
    ip: Option<IpAddress>,
    ips: AuthAddresses,
    limits: AuthLimits,
    addresses: int,
) -> bool {
    server.port > 0 && (ip matches Some(ip) && saw_family(
        ips.addresses@,
        family_of(ip),
        addresses,
    ) && !refused(limits, ip))
}

proof fn lemma_no_server_problem(
    servers: Seq<NetworkDns>,
    ips: AuthAddresses,
    limits: AuthLimits,
    addresses: int,
    end: int,
)
    requires
        0 <= end <= servers.len(),
    ensures
        servers_problem(servers, ips, limits, addresses, end) is None <==> forall|i: int|
            0 <= i < end ==> server_fits(
                #[trigger] servers[i],
                ips.dns_servers@[i],
                ips,
                limits,
                addresses,
            ),
    decreases end,
{
    if end > 0 {
        lemma_no_server_problem(servers, ips, limits, addresses, end - 1);
        assert(servers_problem(servers, ips, limits, addresses, end) is None <==> servers_problem(
            servers,
            ips,
            limits,
            addresses,
            end - 1,
        ) is None && server_fits(
            servers[end - 1],
            ips.dns_servers@[end - 1],
            ips,
            limits,
            addresses,
        ));
    }
}

/// A self-describing response is granted exactly where it holds together: one or two addresses in
/// order, a mode that names their families, an MTU of at least 1280 where one is of IPv6, legacy
/// members that repeat the IPv4 address, or the only one there is, and up to eight resolvers with a
/// port, of families that the client has an address of, none refused; what it pushes beside that
/// has to be readable. The client gets the addresses and resolvers as they were described.
pub proof fn law_described_responses_are_granted(
    members: AuthMembers,
    decoded: DecodedMembers,
    ips: AuthAddresses,
    limits: AuthLimits,
    mode: NetworkFamilyMode,
    addresses: Vec<NetworkAddress>,
    servers: Vec<NetworkDns>,
    repeated: int,
)
    requires
        !(members.family_mode is Absent),
        !(members.addresses is Absent),
        decoded.family_mode == Some(mode),
        decoded.addresses == Some(addresses),
        decoded.dns_servers == Some(servers),
        1 <= addresses@.len() <= 2,
        0 <= repeated < addresses@.len(),
        addresses@[repeated].family is Ipv4 || repeated == 0,
        forall|i: int|
            0 <= i < addresses@.len() && (#[trigger] addresses@[i]).family is Ipv4 ==> repeated
                <= i && addresses@[repeated].family is Ipv4,
    ensures
        ({
            let result = grant(members, decoded, ips, limits);
            let own = addresses@[repeated];
            let count = addresses@.len() as int;
            let readable = (members.obfuscation is Absent || members.obfuscation is Null
                || decoded.obfuscation is Some) && roaming_session(members.udp_roaming_session@)
                is Ok;
            let in_order = forall|i: int|
                0 <= i < count ==> address_problem(#[trigger] addresses@[i], ips, limits, i)
                    is None;
            let has_ipv4 = exists|i: int|
                0 <= i < count && (#[trigger] ips.addresses@[i]) is Some
                    && ips.addresses@[i]->Some_0 is V4;
            let has_ipv6 = exists|i: int|
                0 <= i < count && (#[trigger] ips.addresses@[i]) is Some
                    && ips.addresses@[i]->Some_0 is V6;
            let named = match mode {
                NetworkFamilyMode::Ipv4 => !has_ipv6,
                NetworkFamilyMode::Dual => has_ipv4 && has_ipv6,
                NetworkFamilyMode::Ipv6 => !has_ipv4 && has_ipv6,
            };
            let agrees = member_text(members.client_ip@) == own.address@ && member_text(
                members.server_ip@,
            ) == (match own.gateway {
                Some(gateway) => gateway@,
                None => Seq::empty(),
            }) && own.address@.len() > 0 && (member_unsigned(members.prefix@) matches Some(prefix)
                && prefix == own.on_link_prefix_len && 1 <= prefix <= 128);
            let resolves = servers@.len() <= 8 && forall|i: int|
                0 <= i < servers@.len() ==> {
                    &&& (#[trigger] servers@[i]).port > 0
                    &&& ips.dns_servers@[i] is Some
                    &&& ips.dns_servers@[i]->Some_0 is V4 ==> has_ipv4
                    &&& ips.dns_servers@[i]->Some_0 is V6 ==> has_ipv6
                    &&& ips.dns_servers@[i]->Some_0 matches IpAddress::V6(value)
                        ==> !limits.refused_ipv6@.contains(value)
                };
            &&& result is Ok <==> in_order && named && (has_ipv6 ==> accepted_mtu(
                members.mtu@,
                limits,
            ) >= 1280) && agrees && resolves && readable
            &&& result matches Ok(network) ==> network.family_mode == mode && network.addresses
                == address_views(addresses@) && network.dns_servers == server_views(servers@)
        }),
{
    let count = addresses@.len() as int;
    lemma_no_address_problem(addresses@, ips, limits, count);
    lemma_no_server_problem(servers@, ips, limits, count, servers@.len() as int);
    reveal_with_fuel(projected, 3);
    let first = addresses@[0];
    assert(projected(addresses@, count) == repeated) by {
        if count == 2 {
            let second = addresses@[1];
            if first.family is Ipv4 {
                assert(repeated <= 0);
            } else if second.family is Ipv4 {
                assert(addresses@[repeated].family is Ipv4);
            }
        }
    }
    let has_ipv4 = exists|i: int|
        0 <= i < count && (#[trigger] ips.addresses@[i]) is Some && ips.addresses@[i]->Some_0 is V4;
    let has_ipv6 = exists|i: int|
        0 <= i < count && (#[trigger] ips.addresses@[i]) is Some && ips.addresses@[i]->Some_0 is V6;
    assert(saw_family(ips.addresses@, NetworkAddressFamily::Ipv4, count) == has_ipv4);
    assert(saw_family(ips.addresses@, NetworkAddressFamily::Ipv6, count) == has_ipv6);
    assert forall|i: int| 0 <= i < servers@.len() implies (server_fits(
        #[trigger] servers@[i],
        ips.dns_servers@[i],
        ips,
        limits,
        count,
    ) <==> {
        &&& servers@[i].port > 0
        &&& ips.dns_servers@[i] is Some
        &&& ips.dns_servers@[i]->Some_0 is V4 ==> has_ipv4
        &&& ips.dns_servers@[i]->Some_0 is V6 ==> has_ipv6
        &&& ips.dns_servers@[i]->Some_0 matches IpAddress::V6(value)
            ==> !limits.refused_ipv6@.contains(value)
    }) by {}
    let problem = addresses_problem(addresses@, ips, limits, count);
    let trouble = servers_problem(servers@, ips, limits, count, servers@.len() as int);
    let prefix = accepted_prefix(members.prefix@, true);
    if prefix is Some && member_text(members.client_ip@).len() > 0 {
        let network = self_described(members, decoded, ips, limits, prefix->Some_0);
        assert(network is Ok <==> problem is None && mode == mode_of(has_ipv4, has_ipv6) && !(
        has_ipv6 && accepted_mtu(members.mtu@, limits) < 1280) && member_text(members.client_ip@)
            == addresses@[repeated].address@ && prefix->Some_0
            == addresses@[repeated].on_link_prefix_len && member_text(members.server_ip@) == (
        match addresses@[repeated].gateway {
            Some(gateway) => gateway@,
            None => Seq::empty(),
        }) && servers@.len() <= 8 && trouble is None);
    }
    if problem is None {
        assert(address_problem(addresses@[0], ips, limits, 0) is None);
        assert(ips.addresses@[0] is Some);
    }
}

/// The texts of a response are taken for the addresses that they denote, each in its place.
pub proof fn law_addresses_are_read_in_place(
    members: AuthMembers,
    decoded: DecodedMembers,
    ips: AuthAddresses,
    addresses: Vec<NetworkAddress>,
    servers: Vec<NetworkDns>,
    i: int,
)
    requires
        addresses_of(members, decoded, ips),
        decoded.addresses == Some(addresses),
        decoded.dns_servers == Some(servers),
    ensures
        ips.addresses@.len() == addresses@.len(),
        0 <= i < addresses@.len() ==> ips.addresses@[i] == ip_of_text(addresses@[i].address@),
        ips.gateways@.len() == addresses@.len(),
        0 <= i < addresses@.len() ==> (addresses@[i].gateway matches Some(gateway)
            ==> ips.gateways@[i] == ip_of_text(gateway@)),
        ips.dns_servers@.len() == servers@.len(),
        0 <= i < servers@.len() ==> ips.dns_servers@[i] == ip_of_text(servers@[i].address@),
        members.client_ip@ matches JsonMemberView::Text(text) ==> ips.client_ip == ip_of_text(text),
        members.server_ip@ matches JsonMemberView::Text(text) ==> ips.server_ip == ip_of_text(text),
        members.dns@ matches JsonMemberView::Text(text) ==> ips.dns == ip_of_text(text),
{
}

/// A plan has to be whole: the mode and the addresses come together or not at all, and a response
/// without an address for the client is refused.
pub proof fn law_partial_responses_are_refused(
    members: AuthMembers,
    decoded: DecodedMembers,
    ips: AuthAddresses,
    limits: AuthLimits,
)
    ensures
        members.family_mode is Absent && !(members.addresses is Absent) ==> grant(
            members,
            decoded,
            ips,
            limits,
        ) == Err::<GrantView, AuthError>(AuthError::PartialPlan),
        !(members.family_mode is Absent) && members.addresses is Absent ==> grant(
            members,
            decoded,
            ips,
            limits,
        ) == Err::<GrantView, AuthError>(AuthError::PartialPlan),
        !(members.client_ip@ is Text) ==> grant(members, decoded, ips, limits) is Err,
{
}

/// The client's own MTU wins where it is above zero, else the pushed one, else the fallback.
pub proof fn law_own_mtu_comes_first(own: i32, pushed: i32, fallback: i32, mtu: i32)
    requires
        call_ensures(effective_mtu, (own, pushed, fallback), mtu),
    ensures
        own > 0 ==> mtu == own,
        own <= 0 && pushed > 0 ==> mtu == pushed,
        own <= 0 && pushed <= 0 ==> mtu == fallback,
{
}

/// A session number is read back from its 16 hexadecimal characters, and from nothing else.
pub proof fn law_session_numbers_are_read_back(
    text: &str,
    number: u64,
    capital: bool,
    id: Option<u64>,
    i: int,
)
    requires
        call_ensures(parse_session_id, (text,), id),
    ensures
        text@ == hex_text(number as int, 16, capital) ==> id == Some(number),
        text@.len() != 16 ==> id is None,
        0 <= i < text@.len() && !('0' <= text@[i] <= '9') && !('a' <= text@[i] <= 'f') && !('A'
            <= text@[i] <= 'F') ==> id is None,
{
    reveal_with_fuel(pow16, 17);
    lemma_hex_round_trip(number as int, 16, capital);
    if 0 <= i < text@.len() && !('0' <= text@[i] <= '9') && !('a' <= text@[i] <= 'f') && !('A'
        <= text@[i] <= 'F') {
        assert(text@.take(i + 1).last() == text@[i]);
        lemma_hex_failure_stays(text@, i + 1);
    }
}

} // verus!
