//! Routes of the network plan: which pushed routes are accepted, and what the client's
//! exclusions leave of all routes.

use crate::cidr::{
    all_valid, cidr_minus_excludes, cidrs_cover, covered, fully_covered, law_subtraction_is_exact,
    minus_all, tidy, IpAddress, NumericCidr,
};
use crate::ip_text::{block_of_text, ip_of_text, parse_block, parse_ip};
use crate::network::{
    family_gateway, family_is_active, family_of, gateway_for_ip, has_family, ip_family,
    NetworkAddress, NetworkAddressFamily,
};
use crate::text::{before_slash, same_text, split_before_slash, trim, trimmed};
use vstd::arithmetic::power2::{lemma_pow2_pos, pow2};
use vstd::prelude::*;

verus! {

/// A route of the plan.
#[derive(Debug)]
pub struct NetworkRoute {
    pub block: NumericCidr,
    pub gateway: String,
    pub metric: u32,
}

pub struct RouteView {
    pub block: NumericCidr,
    pub gateway: Seq<char>,
    pub metric: u32,
}

impl View for NetworkRoute {
    type V = RouteView;

    open spec fn view(&self) -> RouteView {
        RouteView { block: self.block, gateway: self.gateway@, metric: self.metric }
    }
}

pub open spec fn route_views(routes: Seq<NetworkRoute>) -> Seq<RouteView> {
    routes.map_values(|route: NetworkRoute| route@)
}

pub open spec fn blocks_of(routes: Seq<RouteView>) -> Seq<NumericCidr> {
    routes.map_values(|route: RouteView| route.block)
}

/// A route as the server pushed it.
#[derive(Debug)]
pub struct PushedRoute {
    pub cidr: String,
    pub gateway: Option<String>,
    pub metric: Option<u32>,
}

/// A gateway and the address that its text denotes.
#[derive(Debug)]
pub struct GatewayText {
    pub text: String,
    pub ip: Option<IpAddress>,
}

/// A pushed route with what its texts denote: the address before the `/`, and the whole block.
#[derive(Debug)]
pub struct PushedCandidate {
    pub address: Option<IpAddress>,
    pub block: Option<NumericCidr>,
    pub gateway: Option<GatewayText>,
    pub metric: Option<u32>,
}

#[derive(Debug, Clone, Copy, PartialEq, Eq, Structural)]
pub enum RouteError {
    /// The tunnel has no gateway for a route of this family.
    NoGateway(NetworkAddressFamily),
    /// The pushed routes together are the whole address space of this family.
    CoversFamily(NetworkAddressFamily),
    InvalidDefaultGateway,
}

/// Whether the text of the pushed routes stands for none: it is blank, or an empty list.
pub fn pushes_no_routes(routes_json: &str) -> (none: bool)
    ensures
        none == (trimmed(routes_json@).len() == 0 || trimmed(routes_json@) == "[]"@),
{
    let inner = trim(routes_json);
    inner.unicode_len() == 0 || same_text(inner, "[]")
}

/// Only routes broader than the public aggregate of their family are too broad.
pub open spec fn prefix_allowed(address: IpAddress, prefix: u8) -> bool {
    match address {
        IpAddress::V4(_) => prefix >= 8,
        IpAddress::V6(_) => prefix >= 3,
    }
}

pub fn pushed_route_prefix_is_allowed(address: IpAddress, prefix: u8) -> (allowed: bool)
    ensures
        allowed == prefix_allowed(address, prefix),
{
    match address {
        IpAddress::V4(_) => prefix >= 8,
        IpAddress::V6(_) => prefix >= 3,
    }
}

/// A block that is written by its network address: nothing is set behind the prefix.
pub open spec fn names_its_network(address: IpAddress, block: NumericCidr) -> bool {
    block.bits == address.width() && block.start == address.number()
}

/// The route that a pushed candidate becomes, if it is accepted.
pub open spec fn accepted_route(
    candidate: PushedCandidate,
    addresses: Seq<NetworkAddress>,
    ipv4_gateway: Option<IpAddress>,
    ipv6_gateway: Option<IpAddress>,
) -> Result<Option<RouteView>, RouteError> {
    match candidate.address {
        None => Ok(None),
        Some(address) => {
            let family = family_of(address);
            if !has_family(addresses, family) {
                Ok(None)
            } else if candidate.gateway is None && family_gateway(addresses, family) is None {
                Err(RouteError::NoGateway(family))
            } else {
                let (text, ip) = match candidate.gateway {
                    Some(gateway) => (gateway.text@, gateway.ip),
                    None => (
                        family_gateway(addresses, family)->Some_0,
                        if address is V4 {
                            ipv4_gateway
                        } else {
                            ipv6_gateway
                        },
                    ),
                };
                match (candidate.block, ip) {
                    (Some(block), Some(ip)) => if names_its_network(address, block) && family_of(ip)
                        == family && prefix_allowed(address, block.prefix) {
                        Ok(
                            Some(
                                RouteView {
                                    block,
                                    gateway: text,
                                    metric: match candidate.metric {
                                        Some(metric) => metric,
                                        None => 100,
                                    },
                                },
                            ),
                        )
                    } else {
                        Ok(None)
                    },
                    _ => Ok(None),
                }
            }
        },
    }
}

/// The routes of all accepted candidates, in order.
pub open spec fn accepted_routes(
    candidates: Seq<PushedCandidate>,
    addresses: Seq<NetworkAddress>,
    ipv4_gateway: Option<IpAddress>,
    ipv6_gateway: Option<IpAddress>,
) -> Result<Seq<RouteView>, RouteError>
    decreases candidates.len(),
{
    if candidates.len() == 0 {
        Ok(Seq::empty())
    } else {
        match accepted_routes(candidates.drop_last(), addresses, ipv4_gateway, ipv6_gateway) {
            Err(error) => Err(error),
            Ok(front) => match accepted_route(
                candidates.last(),
                addresses,
                ipv4_gateway,
                ipv6_gateway,
            ) {
                Err(error) => Err(error),
                Ok(None) => Ok(front),
                Ok(Some(route)) => Ok(front.push(route)),
            },
        }
    }
}

/// The whole address space of a family.
pub open spec fn everything(bits: u8) -> NumericCidr {
    NumericCidr { start: 0, prefix: 0, bits }
}

/// The pushed routes of the plan. Routes that together are a whole address space are refused:
/// only the client may enable full-tunnel mode.
pub open spec fn pushed_routes(
    candidates: Seq<PushedCandidate>,
    addresses: Seq<NetworkAddress>,
    ipv4_gateway: Option<IpAddress>,
    ipv6_gateway: Option<IpAddress>,
) -> Result<Seq<RouteView>, RouteError> {
    match accepted_routes(candidates, addresses, ipv4_gateway, ipv6_gateway) {
        Err(error) => Err(error),
        Ok(routes) => if fully_covered(everything(32), blocks_of(routes)) {
            Err(RouteError::CoversFamily(NetworkAddressFamily::Ipv4))
        } else if fully_covered(everything(128), blocks_of(routes)) {
            Err(RouteError::CoversFamily(NetworkAddressFamily::Ipv6))
        } else {
            Ok(routes)
        },
    }
}

/// No set of pushed routes that is accepted reaches every address of a family.
pub proof fn law_push_never_becomes_a_full_tunnel(
    candidates: Seq<PushedCandidate>,
    addresses: Seq<NetworkAddress>,
    ipv4_gateway: Option<IpAddress>,
    ipv6_gateway: Option<IpAddress>,
    bits: u8,
)
    requires
        bits == 32 || bits == 128,
    ensures
        pushed_routes(candidates, addresses, ipv4_gateway, ipv6_gateway) matches Ok(routes) ==> (
        exists|a: int| everything(bits).has(a) && !covered(blocks_of(routes), bits, a)),
{
}

proof fn lemma_everything_valid(bits: u8)
    requires
        bits == 32 || bits == 128,
    ensures
        everything(bits).valid(),
{
    lemma_pow2_pos(bits as nat);
    assert(0int % pow2(bits as nat) as int == 0) by {
        vstd::arithmetic::div_mod::lemma_small_mod(0, pow2(bits as nat));
    }
}

proof fn lemma_route_error_stays(
    candidates: Seq<PushedCandidate>,
    addresses: Seq<NetworkAddress>,
    ipv4_gateway: Option<IpAddress>,
    ipv6_gateway: Option<IpAddress>,
    i: int,
)
    requires
        0 <= i <= candidates.len(),
        accepted_routes(candidates.take(i), addresses, ipv4_gateway, ipv6_gateway) is Err,
    ensures
        accepted_routes(candidates, addresses, ipv4_gateway, ipv6_gateway) == accepted_routes(
            candidates.take(i),
            addresses,
            ipv4_gateway,
            ipv6_gateway,
        ),
    decreases candidates.len() - i,
{
    if i == candidates.len() {
        assert(candidates.take(i) =~= candidates);
    } else {
        assert(candidates.take(i + 1).drop_last() =~= candidates.take(i));
        lemma_route_error_stays(candidates, addresses, ipv4_gateway, ipv6_gateway, i + 1);
    }
}

/// Whether the routes together are the whole address space of a family.
pub fn routes_cover_address_family(routes: &Vec<NetworkRoute>, bits: u8) -> (whole: bool)
    requires
        bits == 32 || bits == 128,
        all_valid(blocks_of(route_views(routes@))),
    ensures
        whole == fully_covered(everything(bits), blocks_of(route_views(routes@))),
{
    let mut blocks: Vec<NumericCidr> = Vec::new();
    let ghost expected = blocks_of(route_views(routes@));
    let mut i: usize = 0;
    while i < routes.len()
        invariant
            i <= routes@.len(),
            expected == blocks_of(route_views(routes@)),
            blocks@ =~= expected.take(i as int),
        decreases routes@.len() - i,
    {
        blocks.push(routes[i].block);
        i += 1;
    }
    assert(blocks@ =~= expected);
    proof {
        lemma_everything_valid(bits);
    }
    cidrs_cover(NumericCidr { start: 0, prefix: 0, bits }, &blocks)
}

/// Decides which pushed candidates become routes. `ipv4_gateway` and `ipv6_gateway` are what the
/// default gateways of the two families denote.
pub fn accept_pushed_routes(
    candidates: &Vec<PushedCandidate>,
    addresses: &Vec<NetworkAddress>,
    ipv4_gateway: Option<IpAddress>,
    ipv6_gateway: Option<IpAddress>,
) -> (result: Result<Vec<NetworkRoute>, RouteError>)
    requires
        forall|i: int|
            0 <= i < candidates@.len() ==> ((#[trigger] candidates@[i]).block matches Some(block)
                ==> block.valid()),
    ensures
        ({
            let expected = pushed_routes(candidates@, addresses@, ipv4_gateway, ipv6_gateway);
            match result {
                Ok(routes) => expected == Ok::<Seq<RouteView>, RouteError>(route_views(routes@))
                    && all_valid(blocks_of(route_views(routes@))),
                Err(error) => expected == Err::<Seq<RouteView>, RouteError>(error),
            }
        }),
{
    let mut planned: Vec<NetworkRoute> = Vec::new();
    let mut i: usize = 0;
    proof {
        assert(candidates@.take(0) =~= Seq::<PushedCandidate>::empty());
        assert(route_views(planned@) =~= Seq::<RouteView>::empty());
    }
    while i < candidates.len()
        invariant
            i <= candidates@.len(),
            forall|j: int|
                0 <= j < candidates@.len() ==> ((#[trigger] candidates@[j]).block matches Some(
                    block,
                ) ==> block.valid()),
            all_valid(blocks_of(route_views(planned@))),
            accepted_routes(
                candidates@.take(i as int),
                addresses@,
                ipv4_gateway,
                ipv6_gateway,
            ) == Ok::<Seq<RouteView>, RouteError>(route_views(planned@)),
        decreases candidates@.len() - i,
    {
        let ghost before = planned@;
        proof {
            assert(candidates@.take(i + 1).drop_last() =~= candidates@.take(i as int));
            assert(candidates@.take(i + 1).last() == candidates@[i as int]);
            if accepted_route(
                candidates@[i as int],
                addresses@,
                ipv4_gateway,
                ipv6_gateway,
            ) is Err {
                lemma_route_error_stays(
                    candidates@,
                    addresses@,
                    ipv4_gateway,
                    ipv6_gateway,
                    i + 1,
                );
            }
        }
        let candidate = &candidates[i];
        i += 1;
        let address = match candidate.address {
            Some(address) => address,
            None => continue,
        };
        if !family_is_active(addresses, ip_family(address)) {
            continue;
        }
        let gateway = match &candidate.gateway {
            Some(gateway) => GatewayText { text: gateway.text.clone(), ip: gateway.ip },
            None => match gateway_for_ip(address, addresses) {
                None => return Err(RouteError::NoGateway(ip_family(address))),
                Some(text) => GatewayText {
                    text,
                    ip: if address.is_ipv4() {
                        ipv4_gateway
                    } else {
                        ipv6_gateway
                    },
                },
            },
        };
        let block = match candidate.block {
            Some(block) => block,
            None => continue,
        };
        let gateway_ip = match gateway.ip {
            Some(ip) => ip,
            None => continue,
        };
        let named = match address {
            IpAddress::V4(value) => block.bits == 32 && block.start == value as u128,
            IpAddress::V6(value) => block.bits == 128 && block.start == value,
        };
        if !named || gateway_ip.is_ipv4() != address.is_ipv4() {
            continue;
        }
        if !pushed_route_prefix_is_allowed(address, block.prefix) {
            continue;
        }
        let metric: u32 = match candidate.metric {
            Some(metric) => metric,
            None => 100,
        };
        planned.push(NetworkRoute { block, gateway: gateway.text, metric });
        assert(route_views(planned@) =~= route_views(before).push(
            planned@[planned@.len() - 1]@,
        ));
        assert(blocks_of(route_views(planned@)) =~= blocks_of(route_views(before)).push(block));
    }
    assert(candidates@.take(candidates@.len() as int) =~= candidates@);
    if routes_cover_address_family(&planned, 32) {
        return Err(RouteError::CoversFamily(NetworkAddressFamily::Ipv4));
    }
    if routes_cover_address_family(&planned, 128) {
        return Err(RouteError::CoversFamily(NetworkAddressFamily::Ipv6));
    }
    Ok(planned)
}

pub open spec fn opt_ip_of(text: Option<Seq<char>>) -> Option<IpAddress> {
    match text {
        Some(text) => ip_of_text(text),
        None => None,
    }
}

/// What the texts of a pushed route denote.
pub open spec fn candidate_of(route: PushedRoute) -> PushedCandidate {
    PushedCandidate {
        address: opt_ip_of(before_slash(route.cidr@)),
        block: block_of_text(route.cidr@),
        gateway: match route.gateway {
            Some(text) => Some(GatewayText { text, ip: ip_of_text(text@) }),
            None => None,
        },
        metric: route.metric,
    }
}

pub open spec fn candidates_of(routes: Seq<PushedRoute>) -> Seq<PushedCandidate> {
    routes.map_values(|route: PushedRoute| candidate_of(route))
}

fn read_candidates(routes: &Vec<PushedRoute>) -> (candidates: Vec<PushedCandidate>)
    ensures
        candidates@ == candidates_of(routes@),
        forall|i: int|
            0 <= i < candidates@.len() ==> ((#[trigger] candidates@[i]).block matches Some(block)
                ==> block.valid()),
{
    let mut candidates: Vec<PushedCandidate> = Vec::new();
    let mut i: usize = 0;
    while i < routes.len()
        invariant
            i <= routes@.len(),
            candidates@ =~= candidates_of(routes@).take(i as int),
            forall|j: int|
                0 <= j < candidates@.len() ==> ((#[trigger] candidates@[j]).block matches Some(
                    block,
                ) ==> block.valid()),
        decreases routes@.len() - i,
    {
        let address = match split_before_slash(routes[i].cidr.as_str()) {
            Some(text) => parse_ip(text),
            None => None,
        };
        let block = parse_block(routes[i].cidr.as_str());
        let gateway = match &routes[i].gateway {
            Some(text) => Some(GatewayText { text: text.clone(), ip: parse_ip(text.as_str()) }),
            None => None,
        };
        candidates.push(PushedCandidate { address, block, gateway, metric: routes[i].metric });
        i += 1;
    }
    assert(candidates_of(routes@).take(routes@.len() as int) =~= candidates_of(routes@));
    candidates
}

fn family_gateway_ip(addresses: &Vec<NetworkAddress>, family: NetworkAddressFamily) -> (ip: Option<
    IpAddress,
>)
    ensures
        ip == opt_ip_of(family_gateway(addresses@, family)),
{
    match crate::network::gateway_for_family(addresses, family) {
        Some(text) => parse_ip(text.as_str()),
        None => None,
    }
}

/// Validates server-pushed routes from their texts.
pub fn planned_pushed_routes_for_addresses(
    routes: &Vec<PushedRoute>,
    addresses: &Vec<NetworkAddress>,
) -> (result: Result<Vec<NetworkRoute>, RouteError>)
    ensures
        ({
            let expected = pushed_routes(
                candidates_of(routes@),
                addresses@,
                opt_ip_of(family_gateway(addresses@, NetworkAddressFamily::Ipv4)),
                opt_ip_of(family_gateway(addresses@, NetworkAddressFamily::Ipv6)),
            );
            match result {
                Ok(routes) => expected == Ok::<Seq<RouteView>, RouteError>(route_views(routes@))
                    && all_valid(blocks_of(route_views(routes@))),
                Err(error) => expected == Err::<Seq<RouteView>, RouteError>(error),
            }
        }),
{
    accept_pushed_routes(
        &read_candidates(routes),
        addresses,
        family_gateway_ip(addresses, NetworkAddressFamily::Ipv4),
        family_gateway_ip(addresses, NetworkAddressFamily::Ipv6),
    )
}

/// The one address that stands for a default gateway.
pub open spec fn gateway_only(gateway: String, ip: IpAddress) -> NetworkAddress {
    NetworkAddress {
        family: family_of(ip),
        address: gateway,
        prefix_len: ip.width(),
        on_link_prefix_len: ip.width(),
        gateway: Some(gateway),
    }
}

/// Validates server-pushed routes for a tunnel that is known by its gateway alone.
pub fn planned_pushed_routes(routes: &Vec<PushedRoute>, default_gateway: &String) -> (result:
    Result<Vec<NetworkRoute>, RouteError>)
    ensures
        match ip_of_text(default_gateway@) {
            None => result is Err && result->Err_0 == RouteError::InvalidDefaultGateway,
            Some(ip) => {
                let expected = pushed_routes(
                    candidates_of(routes@),
                    seq![gateway_only(*default_gateway, ip)],
                    opt_ip_of(
                        family_gateway(
                            seq![gateway_only(*default_gateway, ip)],
                            NetworkAddressFamily::Ipv4,
                        ),
                    ),
                    opt_ip_of(
                        family_gateway(
                            seq![gateway_only(*default_gateway, ip)],
                            NetworkAddressFamily::Ipv6,
                        ),
                    ),
                );
                match result {
                    Ok(routes) => expected == Ok::<Seq<RouteView>, RouteError>(
                        route_views(routes@),
                    ),
                    Err(error) => expected == Err::<Seq<RouteView>, RouteError>(error),
                }
            },
        },
{
    let ip = match parse_ip(default_gateway.as_str()) {
        Some(ip) => ip,
        None => return Err(RouteError::InvalidDefaultGateway),
    };
    let width: u8 = if ip.is_ipv4() {
        32
    } else {
        128
    };
    let mut addresses: Vec<NetworkAddress> = Vec::new();
    addresses.push(
        NetworkAddress {
            family: ip_family(ip),
            address: default_gateway.clone(),
            prefix_len: width,
            on_link_prefix_len: width,
            gateway: Some(default_gateway.clone()),
        },
    );
    assert(addresses@ =~= seq![gateway_only(*default_gateway, ip)]);
    planned_pushed_routes_for_addresses(routes, &addresses)
}

/// What the exclusions leave of one route. A protected block is kept whole.
pub open spec fn route_parts(
    route: RouteView,
    excludes: Seq<NumericCidr>,
    protected: Seq<NumericCidr>,
    max_routes: nat,
) -> Option<Seq<NumericCidr>> {
    if protected.contains(route.block) {
        Some(seq![route.block])
    } else {
        minus_all(seq![route.block], excludes, route.block.bits, max_routes)
    }
}

pub open spec fn routes_with(route: RouteView, parts: Seq<NumericCidr>) -> Seq<RouteView> {
    parts.map_values(
        |block: NumericCidr| RouteView { block, gateway: route.gateway, metric: route.metric },
    )
}

/// The routes of the plan once the exclusions are applied, or `None` where they would be more
/// than `max_routes`.
pub open spec fn routes_left(
    routes: Seq<RouteView>,
    excludes: Seq<NumericCidr>,
    protected: Seq<NumericCidr>,
    max_routes: nat,
) -> Option<Seq<RouteView>>
    decreases routes.len(),
{
    if routes.len() == 0 {
        Some(Seq::empty())
    } else {
        match (
            routes_left(routes.drop_last(), excludes, protected, max_routes),
            route_parts(routes.last(), excludes, protected, max_routes),
        ) {
            (Some(front), Some(parts)) => {
                let all = front + routes_with(routes.last(), parts);
                if all.len() > max_routes {
                    None
                } else {
                    Some(all)
                }
            },
            _ => None,
        }
    }
}

proof fn lemma_no_routes_left_stays(
    routes: Seq<RouteView>,
    excludes: Seq<NumericCidr>,
    protected: Seq<NumericCidr>,
    max_routes: nat,
    i: int,
)
    requires
        0 <= i <= routes.len(),
        routes_left(routes.take(i), excludes, protected, max_routes) is None,
    ensures
        routes_left(routes, excludes, protected, max_routes) is None,
    decreases routes.len() - i,
{
    if i == routes.len() {
        assert(routes.take(i) =~= routes);
    } else {
        assert(routes.take(i + 1).drop_last() =~= routes.take(i));
        lemma_no_routes_left_stays(routes, excludes, protected, max_routes, i + 1);
    }
}

/// Whether one of the routes reaches the address and may keep it: its block is protected, or the
/// address is not excluded.
pub open spec fn kept_address(
    routes: Seq<RouteView>,
    excludes: Seq<NumericCidr>,
    protected: Seq<NumericCidr>,
    bits: u8,
    a: int,
) -> bool {
    exists|i: int|
        0 <= i < routes.len() && (#[trigger] routes[i]).block.bits == bits && routes[i].block.has(a)
            && (protected.contains(routes[i].block) || !covered(excludes, bits, a))
}

/// After the exclusions the plan reaches exactly the addresses that its routes reached before and
/// that no exclusion has, beside the protected blocks, which it reaches whole.
pub proof fn law_exclusions_are_exact(
    routes: Seq<RouteView>,
    excludes: Seq<NumericCidr>,
    protected: Seq<NumericCidr>,
    max_routes: nat,
    bits: u8,
    a: int,
)
    requires
        all_valid(blocks_of(routes)),
        all_valid(excludes),
    ensures
        routes_left(routes, excludes, protected, max_routes) matches Some(left) ==> {
            &&& all_valid(blocks_of(left))
            &&& left.len() <= max_routes || routes.len() == 0
            &&& covered(blocks_of(left), bits, a) <==> kept_address(
                routes,
                excludes,
                protected,
                bits,
                a,
            )
        },
    decreases routes.len(),
{
    if routes.len() > 0 {
        let front = routes.drop_last();
        let last = routes.last();
        assert forall|i: int| 0 <= i < front.len() implies (#[trigger] blocks_of(
            front,
        )[i]).valid() by {
            assert(blocks_of(front)[i] == blocks_of(routes)[i]);
        }
        assert(blocks_of(routes)[routes.len() - 1] == last.block);
        law_exclusions_are_exact(front, excludes, protected, max_routes, bits, a);
        let single = seq![last.block];
        assert(tidy(single, last.block.bits));
        law_subtraction_is_exact(single, excludes, last.block.bits, max_routes);
        match (
            routes_left(front, excludes, protected, max_routes),
            route_parts(last, excludes, protected, max_routes),
        ) {
            (Some(kept), Some(parts)) => {
                let all = kept + routes_with(last, parts);
                assert(blocks_of(all) =~= blocks_of(kept) + parts);
                assert(all_valid(parts));
                assert forall|i: int| 0 <= i < all.len() implies (#[trigger] blocks_of(
                    all,
                )[i]).valid() by {
                    if i < kept.len() {
                        assert(blocks_of(all)[i] == blocks_of(kept)[i]);
                    } else {
                        assert(blocks_of(all)[i] == parts[i - kept.len()]);
                    }
                }
                lemma_covered_concat(blocks_of(kept), parts, bits, a);
                lemma_covered_single(last.block, bits, a);
                assert(covered(parts, bits, a) <==> last.block.bits == bits && last.block.has(a)
                    && (protected.contains(last.block) || !covered(excludes, bits, a))) by {
                    if protected.contains(last.block) {
                        assert(parts =~= single);
                    } else {
                        if last.block.bits == bits {
                            assert(covered(parts, bits, a) <==> covered(single, bits, a)
                                && !covered(excludes, bits, a));
                        } else if covered(parts, bits, a) {
                            let i = choose|i: int|
                                0 <= i < parts.len() && (#[trigger] parts[i]).bits == bits
                                    && parts[i].has(a);
                            assert(parts[i].bits == last.block.bits);
                        }
                    }
                }
                assert(kept_address(routes, excludes, protected, bits, a) <==> kept_address(
                    front,
                    excludes,
                    protected,
                    bits,
                    a,
                ) || (last.block.bits == bits && last.block.has(a) && (protected.contains(
                    last.block,
                ) || !covered(excludes, bits, a)))) by {
                    if kept_address(front, excludes, protected, bits, a) {
                        let i = choose|i: int|
                            0 <= i < front.len() && (#[trigger] front[i]).block.bits == bits
                                && front[i].block.has(a) && (protected.contains(front[i].block)
                                || !covered(excludes, bits, a));
                        assert(routes[i] == front[i]);
                    }
                    if kept_address(routes, excludes, protected, bits, a) {
                        let i = choose|i: int|
                            0 <= i < routes.len() && (#[trigger] routes[i]).block.bits == bits
                                && routes[i].block.has(a) && (protected.contains(routes[i].block)
                                || !covered(excludes, bits, a));
                        if i < front.len() {
                            assert(front[i] == routes[i]);
                        }
                    }
                    assert(routes[routes.len() - 1] == last);
                }
            },
            _ => {},
        }
    }
}

proof fn lemma_covered_concat(left: Seq<NumericCidr>, right: Seq<NumericCidr>, bits: u8, a: int)
    ensures
        covered(left + right, bits, a) <==> covered(left, bits, a) || covered(right, bits, a),
{
    let all = left + right;
    if covered(left, bits, a) {
        let i = choose|i: int|
            0 <= i < left.len() && (#[trigger] left[i]).bits == bits && left[i].has(a);
        assert(all[i] == left[i]);
    }
    if covered(right, bits, a) {
        let i = choose|i: int|
            0 <= i < right.len() && (#[trigger] right[i]).bits == bits && right[i].has(a);
        assert(all[left.len() + i] == right[i]);
    }
    if covered(all, bits, a) {
        let i = choose|i: int|
            0 <= i < all.len() && (#[trigger] all[i]).bits == bits && all[i].has(a);
        if i < left.len() {
            assert(left[i] == all[i]);
        } else {
            assert(right[i - left.len()] == all[i]);
        }
    }
}

proof fn lemma_covered_single(block: NumericCidr, bits: u8, a: int)
    ensures
        covered(seq![block], bits, a) <==> block.bits == bits && block.has(a),
{
    if block.bits == bits && block.has(a) {
        assert(seq![block][0].bits == bits);
    }
}

/// Applies the client's exclusions to the plan itself, not only as a second physical route:
/// otherwise a more specific pushed route would beat a broader exclusion and silently re-enter
/// the tunnel. `None` where more than `max_routes` routes would be left.
pub fn apply_route_exclusions(
    routes: &Vec<NetworkRoute>,
    excludes: &Vec<NumericCidr>,
    protected: &Vec<NumericCidr>,
    max_routes: usize,
) -> (result: Option<Vec<NetworkRoute>>)
    requires
        all_valid(blocks_of(route_views(routes@))),
        all_valid(excludes@),
        max_routes < usize::MAX,
    ensures
        match result {
            Some(left) => routes_left(
                route_views(routes@),
                excludes@,
                protected@,
                max_routes as nat,
            ) == Some(route_views(left@)) && all_valid(blocks_of(route_views(left@))),
            None => routes_left(
                route_views(routes@),
                excludes@,
                protected@,
                max_routes as nat,
            ) is None,
        },
{
    let mut planned: Vec<NetworkRoute> = Vec::new();
    let ghost views = route_views(routes@);
    let mut i: usize = 0;
    proof {
        assert(views.take(0) =~= Seq::<RouteView>::empty());
        assert(route_views(planned@) =~= Seq::<RouteView>::empty());
    }
    while i < routes.len()
        invariant
            i <= routes@.len(),
            views == route_views(routes@),
            all_valid(blocks_of(views)),
            all_valid(excludes@),
            max_routes < usize::MAX,
            routes_left(views.take(i as int), excludes@, protected@, max_routes as nat) == Some(
                route_views(planned@),
            ),
        decreases routes@.len() - i,
    {
        let block = routes[i].block;
        let ghost before = route_views(planned@);
        let ghost route = views[i as int];
        proof {
            assert(views.take(i + 1).drop_last() =~= views.take(i as int));
            assert(views.take(i + 1).last() == route);
            assert(blocks_of(views)[i as int] == block);
            if routes_left(
                views.take(i + 1),
                excludes@,
                protected@,
                max_routes as nat,
            ) is None {
                lemma_no_routes_left_stays(
                    views,
                    excludes@,
                    protected@,
                    max_routes as nat,
                    i + 1,
                );
            }
        }
        let parts = if contains_block(protected, block) {
            let mut whole: Vec<NumericCidr> = Vec::new();
            whole.push(block);
            assert(whole@ =~= seq![block]);
            whole
        } else {
            match cidr_minus_excludes(block, excludes, max_routes) {
                Ok(parts) => parts,
                Err(_) => return None,
            }
        };
        let mut k: usize = 0;
        while k < parts.len()
            invariant
                i < routes@.len(),
                k <= parts@.len(),
                route == routes@[i as int]@,
                route_views(planned@) =~= before + routes_with(route, parts@).take(k as int),
            decreases parts@.len() - k,
        {
            let ghost listed = planned@;
            planned.push(
                NetworkRoute {
                    block: parts[k],
                    gateway: routes[i].gateway.clone(),
                    metric: routes[i].metric,
                },
            );
            assert(route_views(planned@) =~= route_views(listed).push(
                routes_with(route, parts@)[k as int],
            ));
            k += 1;
        }
        assert(routes_with(route, parts@).take(parts@.len() as int) =~= routes_with(
            route,
            parts@,
        ));
        assert(route_views(planned@).len() == planned@.len());
        if planned.len() > max_routes {
            return None;
        }
        i += 1;
    }
    proof {
        assert(views.take(views.len() as int) =~= views);
        law_exclusions_are_exact(views, excludes@, protected@, max_routes as nat, 32, 0);
    }
    Some(planned)
}

pub fn contains_block(blocks: &Vec<NumericCidr>, block: NumericCidr) -> (found: bool)
    ensures
        found == blocks@.contains(block),
{
    let mut i: usize = 0;
    while i < blocks.len()
        invariant
            i <= blocks@.len(),
            forall|j: int| 0 <= j < i ==> blocks@[j] != block,
        decreases blocks@.len() - i,
    {
        if blocks[i] == block {
            return true;
        }
        i += 1;
    }
    false
}

/// A pushed route is taken over exactly where its family is active in the tunnel, it is written by
/// its network address, no broader than /8 or /3, and goes through a gateway of its own family: the
/// one that it names, or that of the tunnel. It keeps its block, and its metric where it names one.
pub proof fn law_proper_pushed_routes_are_taken(
    candidate: PushedCandidate,
    addresses: Seq<NetworkAddress>,
    ipv4_gateway: Option<IpAddress>,
    ipv6_gateway: Option<IpAddress>,
    address: IpAddress,
    family: NetworkAddressFamily,
)
    requires
        candidate.address == Some(address),
        family == if address is V4 {
            NetworkAddressFamily::Ipv4
        } else {
            NetworkAddressFamily::Ipv6
        },
        candidate.gateway is None && has_family(addresses, family) ==> family_gateway(
            addresses,
            family,
        ) is Some,
    ensures
        ({
            let taken = accepted_route(candidate, addresses, ipv4_gateway, ipv6_gateway);
            let gateway_ip = match candidate.gateway {
                Some(gateway) => gateway.ip,
                None => if address is V4 {
                    ipv4_gateway
                } else {
                    ipv6_gateway
                },
            };
            let proper = has_family(addresses, family) && candidate.block is Some && {
                let block = candidate.block->Some_0;
                match address {
                    IpAddress::V4(value) => block.bits == 32 && block.start == value
                        && block.prefix >= 8,
                    IpAddress::V6(value) => block.bits == 128 && block.start == value
                        && block.prefix >= 3,
                }
            } && gateway_ip is Some && (gateway_ip->Some_0 is V4 <==> address is V4);
            &&& taken is Ok
            &&& taken->Ok_0 is Some <==> proper
            &&& taken matches Ok(Some(route)) ==> {
                &&& route.block == candidate.block->Some_0
                &&& candidate.metric matches Some(metric) ==> route.metric == metric
                &&& candidate.metric is None ==> route.metric == 100
                &&& match candidate.gateway {
                    Some(gateway) => route.gateway == gateway.text@,
                    None => Some(route.gateway) == family_gateway(addresses, family),
                }
            }
        }),
{
}

/// A route that names no gateway needs one of the tunnel; one whose address cannot be read is
/// passed over.
pub proof fn law_improper_pushed_routes(
    candidate: PushedCandidate,
    addresses: Seq<NetworkAddress>,
    ipv4_gateway: Option<IpAddress>,
    ipv6_gateway: Option<IpAddress>,
)
    ensures
        candidate.address is None ==> accepted_route(
            candidate,
            addresses,
            ipv4_gateway,
            ipv6_gateway,
        ) == Ok::<Option<RouteView>, RouteError>(None),
        accepted_route(candidate, addresses, ipv4_gateway, ipv6_gateway) is Err <==> (
        candidate.address matches Some(address) && candidate.gateway is None && {
            let family = if address is V4 {
                NetworkAddressFamily::Ipv4
            } else {
                NetworkAddressFamily::Ipv6
            };
            has_family(addresses, family) && family_gateway(addresses, family) is None
        }),
{
}

/// Pushed routes are taken over one after the other and keep their order: one more route at the
/// end adds what becomes of it alone.
pub proof fn law_pushed_routes_keep_their_order(
    candidates: Seq<PushedCandidate>,
    next: PushedCandidate,
    addresses: Seq<NetworkAddress>,
    ipv4_gateway: Option<IpAddress>,
    ipv6_gateway: Option<IpAddress>,
)
    ensures
        accepted_routes(Seq::empty(), addresses, ipv4_gateway, ipv6_gateway) == Ok::<
            Seq<RouteView>,
            RouteError,
        >(Seq::empty()),
        ({
            let earlier = accepted_routes(candidates, addresses, ipv4_gateway, ipv6_gateway);
            let alone = accepted_route(next, addresses, ipv4_gateway, ipv6_gateway);
            let all = accepted_routes(
                candidates.push(next),
                addresses,
                ipv4_gateway,
                ipv6_gateway,
            );
            &&& earlier is Err ==> all == earlier
            &&& earlier is Ok && alone is Err ==> all is Err
            &&& earlier is Ok && alone is Ok && alone->Ok_0 is Some ==> all == Ok::<
                Seq<RouteView>,
                RouteError,
            >(earlier->Ok_0.push(alone->Ok_0->Some_0))
            &&& earlier is Ok && alone is Ok && alone->Ok_0 is None ==> all == earlier
        }),
{
    assert(candidates.push(next).drop_last() =~= candidates);
}

/// The pushed routes are refused as a whole exactly where every address of IPv4, or every address
/// of IPv6, is in one of them; otherwise they stay as they were taken over.
pub proof fn law_pushed_routes_stand_unless_they_cover_a_family(
    candidates: Seq<PushedCandidate>,
    addresses: Seq<NetworkAddress>,
    ipv4_gateway: Option<IpAddress>,
    ipv6_gateway: Option<IpAddress>,
    open_v4: int,
    open_v6: int,
)
    requires
        accepted_routes(candidates, addresses, ipv4_gateway, ipv6_gateway) is Ok,
        0 <= open_v4 <= u32::MAX,
        0 <= open_v6 <= u128::MAX,
        !covered(
            blocks_of(accepted_routes(candidates, addresses, ipv4_gateway, ipv6_gateway)->Ok_0),
            32,
            open_v4,
        ),
        !covered(
            blocks_of(accepted_routes(candidates, addresses, ipv4_gateway, ipv6_gateway)->Ok_0),
            128,
            open_v6,
        ),
    ensures
        pushed_routes(candidates, addresses, ipv4_gateway, ipv6_gateway) == accepted_routes(
            candidates,
            addresses,
            ipv4_gateway,
            ipv6_gateway,
        ),
{
    vstd::arithmetic::power2::lemma2_to64();
    crate::cidr::lemma_pow2_128();
    assert(everything(32).has(open_v4));
    assert(everything(128).has(open_v6));
}

/// What the exclusions leave comes from the routes that were there: each part lies within its route
/// and keeps the gateway and the metric of it.
pub proof fn law_parts_keep_their_gateway(
    routes: Seq<RouteView>,
    excludes: Seq<NumericCidr>,
    protected: Seq<NumericCidr>,
    max_routes: nat,
)
    requires
        all_valid(blocks_of(routes)),
        all_valid(excludes),
    ensures
        routes_left(routes, excludes, protected, max_routes) matches Some(left) ==> forall|i: int|
            0 <= i < left.len() ==> exists|j: int|
                0 <= j < routes.len() && (#[trigger] left[i]).gateway == (#[trigger]
                routes[j]).gateway && left[i].metric == routes[j].metric && left[i].block.bits
                    == routes[j].block.bits && routes[j].block.start <= left[i].block.start
                    && left[i].block.end() <= routes[j].block.end(),
    decreases routes.len(),
{
    if routes.len() > 0 {
        let front = routes.drop_last();
        let last = routes.last();
        assert(blocks_of(routes)[routes.len() - 1] == last.block);
        assert forall|i: int| 0 <= i < front.len() implies (#[trigger] blocks_of(
            front,
        )[i]).valid() by {
            assert(blocks_of(front)[i] == blocks_of(routes)[i]);
        }
        law_parts_keep_their_gateway(front, excludes, protected, max_routes);
        if let Some(left) = routes_left(routes, excludes, protected, max_routes) {
            let kept = routes_left(front, excludes, protected, max_routes)->Some_0;
            let parts = route_parts(last, excludes, protected, max_routes)->Some_0;
            let single = seq![last.block];
            assert(tidy(single, last.block.bits));
            law_subtraction_is_exact(single, excludes, last.block.bits, max_routes);
            assert forall|i: int| 0 <= i < left.len() implies exists|j: int|
                0 <= j < routes.len() && (#[trigger] left[i]).gateway == (#[trigger]
                routes[j]).gateway && left[i].metric == routes[j].metric && left[i].block.bits
                    == routes[j].block.bits && routes[j].block.start <= left[i].block.start
                    && left[i].block.end() <= routes[j].block.end() by {
                if i < kept.len() {
                    assert(left[i] == kept[i]);
                    let j = choose|j: int|
                        0 <= j < front.len() && kept[i].gateway == (#[trigger] front[j]).gateway
                            && kept[i].metric == front[j].metric && kept[i].block.bits
                            == front[j].block.bits && front[j].block.start <= kept[i].block.start
                            && kept[i].block.end() <= front[j].block.end();
                    assert(routes[j] == front[j]);
                } else {
                    let part = parts[i - kept.len()];
                    assert(left[i].block == part);
                    assert(routes[routes.len() - 1] == last);
                    if !protected.contains(last.block) {
                        lemma_part_within(last.block, parts, part, i - kept.len());
                    } else {
                        assert(parts =~= single);
                    }
                }
            }
        }
    }
}

proof fn lemma_part_within(
    block: NumericCidr,
    parts: Seq<NumericCidr>,
    part: NumericCidr,
    i: int,
)
    requires
        block.valid(),
        0 <= i < parts.len(),
        parts[i] == part,
        tidy(parts, block.bits),
        forall|a: int| #[trigger] covered(parts, block.bits, a) ==> covered(
            seq![block],
            block.bits,
            a,
        ),
    ensures
        part.bits == block.bits,
        block.start <= part.start,
        part.end() <= block.end(),
{
    lemma_pow2_pos((part.bits - part.prefix) as nat);
    let first = part.start as int;
    let last = part.end() - 1;
    assert(parts[i].has(first) && parts[i].has(last));
    assert(covered(parts, block.bits, first));
    assert(covered(parts, block.bits, last));
    lemma_covered_single(block, block.bits, first);
    lemma_covered_single(block, block.bits, last);
}

/// Applying the exclusions is owed a result wherever there is room for it: a route falls into at
/// most 128 parts more for each exclusion. Without exclusions the routes stay as they are.
pub proof fn law_exclusions_are_owed_room(
    routes: Seq<RouteView>,
    excludes: Seq<NumericCidr>,
    protected: Seq<NumericCidr>,
    max_routes: nat,
)
    requires
        all_valid(blocks_of(routes)),
        all_valid(excludes),
    ensures
        routes.len() * (1 + 128 * excludes.len()) <= max_routes ==> routes_left(
            routes,
            excludes,
            protected,
            max_routes,
        ) is Some,
        routes_left(routes, excludes, protected, max_routes) matches Some(left) ==> left.len()
            <= routes.len() * (1 + 128 * excludes.len()),
        excludes.len() == 0 && routes.len() <= max_routes ==> routes_left(
            routes,
            excludes,
            protected,
            max_routes,
        ) == Some(routes),
    decreases routes.len(),
{
    let each = 1 + 128 * excludes.len();
    if routes.len() > 0 {
        let front = routes.drop_last();
        let last = routes.last();
        assert(blocks_of(routes)[routes.len() - 1] == last.block);
        assert forall|i: int| 0 <= i < front.len() implies (#[trigger] blocks_of(
            front,
        )[i]).valid() by {
            assert(blocks_of(front)[i] == blocks_of(routes)[i]);
        }
        law_exclusions_are_owed_room(front, excludes, protected, max_routes);
        let single = seq![last.block];
        assert(tidy(single, last.block.bits));
        crate::cidr::law_subtraction_is_owed_room(single, excludes, last.block.bits, max_routes);
        assert(excludes.len() * last.block.bits <= 128 * excludes.len()) by (nonlinear_arith)
            requires
                last.block.bits <= 128,
                excludes.len() >= 0,
        ;
        assert(routes.len() * each == front.len() * each + each) by (nonlinear_arith)
            requires
                routes.len() == front.len() + 1,
        ;
        assert(front.len() * each >= 0) by (nonlinear_arith)
            requires
                each >= 0,
        ;
        if excludes.len() == 0 && routes.len() <= max_routes {
            let parts = route_parts(last, excludes, protected, max_routes)->Some_0;
            assert(parts =~= single);
            assert(front + routes_with(last, parts) =~= routes);
        }
    } else {
        assert(routes =~= Seq::empty());
    }
}

/// What a pushed route says: the address before its slash, the block that its text denotes, and
/// the gateway and the metric that it names.
pub proof fn law_pushed_routes_are_read(
    routes: Seq<PushedRoute>,
    i: int,
    address: Seq<char>,
    prefix: Seq<char>,
)
    requires
        0 <= i < routes.len(),
        routes[i].cidr@ == address.push('/') + prefix,
        forall|k: int| 0 <= k < address.len() ==> #[trigger] address[k] != '/',
    ensures
        candidates_of(routes).len() == routes.len(),
        candidates_of(routes)[i].address == ip_of_text(address),
        candidates_of(routes)[i].block == block_of_text(routes[i].cidr@),
        candidates_of(routes)[i].metric == routes[i].metric,
        candidates_of(routes)[i].gateway is Some <==> routes[i].gateway is Some,
        routes[i].gateway matches Some(text) ==> candidates_of(routes)[i].gateway->Some_0.text
            == text && candidates_of(routes)[i].gateway->Some_0.ip == ip_of_text(text@),
{
    crate::text::law_texts_are_cut_at_the_first_character(address, '/', prefix);
}

/// The question itself is answered so: a server may push a prefix from /8 on over IPv4 and from /3
/// on over IPv6.
pub proof fn law_pushed_prefixes_are_bounded(value: u32, wide: u128, prefix: u8, v4: bool, v6: bool)
    requires
        call_ensures(pushed_route_prefix_is_allowed, (IpAddress::V4(value), prefix), v4),
        call_ensures(pushed_route_prefix_is_allowed, (IpAddress::V6(wide), prefix), v6),
    ensures
        v4 <==> prefix >= 8,
        v6 <==> prefix >= 3,
{
}

/// A list is without a block exactly where none of its entries is that block.
pub proof fn law_blocks_are_looked_up(
    blocks: Vec<NumericCidr>,
    block: NumericCidr,
    found: bool,
    at: int,
)
    requires
        call_ensures(contains_block, (&blocks, block), found),
    ensures
        0 <= at < blocks@.len() && blocks@[at] == block ==> found,
        (forall|i: int| 0 <= i < blocks@.len() ==> #[trigger] blocks@[i] != block) ==> !found,
{
}

} // verus!
