//! The sanitized journal of what a server pushed and what became of it.
//!
//! Adapters only display these lines, so every platform tells the same story.

use crate::cidr::{
    all_valid, cidr_minus_excludes, minus_all, NumericCidr,
};
use crate::ip_text::{block_of_text, parse_block, text_of_block};
use crate::json_text::{count_json_array, json_array_len};
use crate::log_text::{fitting, log_value, log_value_text, sanitize_log_line};
use crate::network::{dns_views, DnsView, PlannedDns};
use crate::network_plan::{host_blocks, ClientConfig, NetworkPlan};
use crate::routes::{blocks_of, contains_block, route_views, NetworkRoute, RouteView};
use crate::text::{
    decimal, decimal_text, decimal_value, eq_ignore_ascii_case, lowered, parse_decimal, same_text,
    sentence, to_ascii_lowercase,
};
use vstd::prelude::*;

verus! {

#[derive(Debug)]
pub struct PaddingConfig {
    pub enabled: bool,
    pub min_bytes: u64,
    pub max_bytes: u64,
    pub randomize: bool,
    /// The probability in decimal.
    pub probability: String,
}

#[derive(Debug)]
pub struct HeartbeatConfig {
    pub enabled: bool,
    pub interval_ms: u64,
    pub data_size_bytes: u64,
    pub jitter_ms: u64,
}

#[derive(Debug)]
pub struct TrafficNormalizationConfig {
    pub enabled: bool,
    pub round_sizes: Vec<u64>,
}

#[derive(Debug)]
pub struct TrafficShapingConfig {
    pub enabled: bool,
    pub idle_gap_mean_ms: u64,
    pub idle_gap_min_ms: u64,
    pub idle_gap_max_ms: u64,
    pub budget_bytes_per_sec: u64,
    pub min_size: u64,
    pub max_size: u64,
    pub stealth: bool,
    pub stealth_rate_mbps: u64,
}

/// The data-plane settings that a profile or a server has.
#[derive(Debug)]
pub struct DataPlaneConfig {
    pub padding: PaddingConfig,
    pub heartbeat: HeartbeatConfig,
    pub traffic_normalization: TrafficNormalizationConfig,
    pub traffic_shaping: TrafficShapingConfig,
}

/// The obfuscation block that a server pushed.
#[derive(Debug)]
pub struct PushedObf {
    pub data_plane: DataPlaneConfig,
    pub recordizer_policy: Option<String>,
}

pub open spec fn texts(lines: Seq<String>) -> Seq<Seq<char>> {
    lines.map_values(|line: String| line@)
}

fn push_line(lines: &mut Vec<String>, line: String)
    ensures
        texts(final(lines)@) == texts(old(lines)@).push(line@),
{
    let ghost before = lines@;
    lines.push(line);
    assert(texts(lines@) =~= texts(before).push(line@));
}

pub open spec fn flag(value: bool) -> Seq<char> {
    if value {
        "true"@
    } else {
        "false"@
    }
}

fn flag_text(value: bool) -> (text: &'static str)
    ensures
        text@ == flag(value),
{
    if value {
        "true"
    } else {
        "false"
    }
}

pub open spec fn number(value: int) -> Seq<char> {
    decimal_text(value as nat)
}

/// The numbers of a list, separated by a comma and a space.
pub open spec fn joined(values: Seq<u64>) -> Seq<char>
    decreases values.len(),
{
    if values.len() == 0 {
        Seq::empty()
    } else if values.len() == 1 {
        number(values[0] as int)
    } else {
        joined(values.drop_last()) + ", "@ + number(values.last() as int)
    }
}

fn join(values: &Vec<u64>) -> (text: String)
    ensures
        text@ == joined(values@),
{
    let mut text = String::new();
    let mut i: usize = 0;
    assert(values@.take(0) =~= Seq::<u64>::empty());
    while i < values.len()
        invariant
            i <= values@.len(),
            text@ == joined(values@.take(i as int)),
        decreases values@.len() - i,
    {
        let ghost longer = values@.take(i + 1);
        proof {
            assert(longer.drop_last() =~= values@.take(i as int));
            assert(longer.last() == values@[i as int]);
        }
        if i > 0 {
            text.append(", ");
            text.append(decimal(values[i]).as_str());
        } else {
            text = decimal(values[i]);
        }
        i += 1;
    }
    assert(values@.take(values@.len() as int) =~= values@);
    text
}

pub open spec fn padding_line(source: Seq<char>, decision: Seq<char>, padding: PaddingConfig) -> Seq<char> {
    source + ": padding "@ + decision + " (enabled="@ + flag(padding.enabled) + " min="@ + number(
        padding.min_bytes as int,
    ) + " max="@ + number(padding.max_bytes as int) + " randomize="@ + flag(padding.randomize)
        + " probability="@ + padding.probability@ + ")"@
}

pub open spec fn heartbeat_line(
    source: Seq<char>,
    decision: Seq<char>,
    heartbeat: HeartbeatConfig,
) -> Seq<char> {
    source + ": heartbeat "@ + decision + " (enabled="@ + flag(heartbeat.enabled)
        + " interval_ms="@ + number(heartbeat.interval_ms as int) + " size="@ + number(
        heartbeat.data_size_bytes as int,
    ) + " jitter_ms="@ + number(heartbeat.jitter_ms as int) + ")"@
}

pub open spec fn normalization_line(
    source: Seq<char>,
    decision: Seq<char>,
    normalization: TrafficNormalizationConfig,
) -> Seq<char> {
    source + ": normalization "@ + decision + " (enabled="@ + flag(normalization.enabled)
        + " round_sizes=["@ + joined(normalization.round_sizes@) + "])"@
}

pub open spec fn shaping_line(
    source: Seq<char>,
    decision: Seq<char>,
    shaping: TrafficShapingConfig,
) -> Seq<char> {
    source + ": shaping "@ + decision + " (enabled="@ + flag(shaping.enabled) + " gap_ms="@
        + number(shaping.idle_gap_mean_ms as int) + "/"@ + number(shaping.idle_gap_min_ms as int)
        + "/"@ + number(shaping.idle_gap_max_ms as int) + " budget_Bps="@ + number(
        shaping.budget_bytes_per_sec as int,
    ) + " size="@ + number(shaping.min_size as int) + "-"@ + number(shaping.max_size as int)
        + " stealth="@ + flag(shaping.stealth) + " stealth_Mbps="@ + number(
        shaping.stealth_rate_mbps as int,
    ) + ")"@
}

/// One line for each group of data-plane settings.
pub open spec fn data_plane_lines(
    source: Seq<char>,
    config: DataPlaneConfig,
    decision: Seq<char>,
) -> Seq<Seq<char>> {
    seq![
        padding_line(source, decision, config.padding),
        heartbeat_line(source, decision, config.heartbeat),
        normalization_line(source, decision, config.traffic_normalization),
        shaping_line(source, decision, config.traffic_shaping),
    ]
}

pub fn append_data_plane_lines(
    lines: &mut Vec<String>,
    source: &str,
    config: &DataPlaneConfig,
    decision: &str,
)
    ensures
        texts(final(lines)@) == texts(old(lines)@) + data_plane_lines(
            source@,
            *config,
            decision@,
        ),
{
    let ghost before = texts(lines@);
    let mut line = source.to_owned();
    line.append(": padding ");
    line.append(decision);
    line.append(" (enabled=");
    line.append(flag_text(config.padding.enabled));
    line.append(" min=");
    line.append(decimal(config.padding.min_bytes).as_str());
    line.append(" max=");
    line.append(decimal(config.padding.max_bytes).as_str());
    line.append(" randomize=");
    line.append(flag_text(config.padding.randomize));
    line.append(" probability=");
    line.append(config.padding.probability.as_str());
    line.append(")");
    push_line(lines, line);
    let mut line = source.to_owned();
    line.append(": heartbeat ");
    line.append(decision);
    line.append(" (enabled=");
    line.append(flag_text(config.heartbeat.enabled));
    line.append(" interval_ms=");
    line.append(decimal(config.heartbeat.interval_ms).as_str());
    line.append(" size=");
    line.append(decimal(config.heartbeat.data_size_bytes).as_str());
    line.append(" jitter_ms=");
    line.append(decimal(config.heartbeat.jitter_ms).as_str());
    line.append(")");
    push_line(lines, line);
    let mut line = source.to_owned();
    line.append(": normalization ");
    line.append(decision);
    line.append(" (enabled=");
    line.append(flag_text(config.traffic_normalization.enabled));
    line.append(" round_sizes=[");
    line.append(join(&config.traffic_normalization.round_sizes).as_str());
    line.append("])");
    push_line(lines, line);
    let mut line = source.to_owned();
    line.append(": shaping ");
    line.append(decision);
    line.append(" (enabled=");
    line.append(flag_text(config.traffic_shaping.enabled));
    line.append(" gap_ms=");
    line.append(decimal(config.traffic_shaping.idle_gap_mean_ms).as_str());
    line.append("/");
    line.append(decimal(config.traffic_shaping.idle_gap_min_ms).as_str());
    line.append("/");
    line.append(decimal(config.traffic_shaping.idle_gap_max_ms).as_str());
    line.append(" budget_Bps=");
    line.append(decimal(config.traffic_shaping.budget_bytes_per_sec).as_str());
    line.append(" size=");
    line.append(decimal(config.traffic_shaping.min_size).as_str());
    line.append("-");
    line.append(decimal(config.traffic_shaping.max_size).as_str());
    line.append(" stealth=");
    line.append(flag_text(config.traffic_shaping.stealth));
    line.append(" stealth_Mbps=");
    line.append(decimal(config.traffic_shaping.stealth_rate_mbps).as_str());
    line.append(")");
    push_line(lines, line);
    assert(texts(lines@) =~= before + data_plane_lines(source@, *config, decision@));
}

/// The resolvers of the plan, or that there is none.
pub open spec fn dns_text(servers: Seq<DnsView>) -> Seq<char> {
    if servers.len() == 0 {
        "system resolver unchanged"@
    } else {
        servers_text(servers)
    }
}

pub open spec fn servers_text(servers: Seq<DnsView>) -> Seq<char>
    decreases servers.len(),
{
    if servers.len() == 0 {
        Seq::empty()
    } else if servers.len() == 1 {
        servers[0].address + ":"@ + number(servers[0].port as int)
    } else {
        servers_text(servers.drop_last()) + ", "@ + servers.last().address + ":"@ + number(
            servers.last().port as int,
        )
    }
}

fn describe_dns(servers: &Vec<PlannedDns>) -> (text: String)
    ensures
        text@ == dns_text(dns_views(servers@)),
{
    if servers.len() == 0 {
        return "system resolver unchanged".to_owned();
    }
    let ghost views = dns_views(servers@);
    let mut text = String::new();
    let mut i: usize = 0;
    assert(views.take(0) =~= Seq::<DnsView>::empty());
    while i < servers.len()
        invariant
            i <= servers@.len(),
            views == dns_views(servers@),
            text@ == servers_text(views.take(i as int)),
        decreases servers@.len() - i,
    {
        let ghost longer = views.take(i + 1);
        proof {
            assert(longer.drop_last() =~= views.take(i as int));
            assert(longer.last() == servers@[i as int]@);
        }
        if i > 0 {
            text.append(", ");
            text.append(servers[i].address.as_str());
        } else {
            text = servers[i].address.clone();
        }
        text.append(":");
        text.append(decimal(servers[i].port as u64).as_str());
        i += 1;
    }
    assert(views.take(views.len() as int) =~= views);
    text
}

pub open spec fn pushed_dns_text(server: Seq<char>, port: Seq<char>) -> Seq<char> {
    if server.len() == 0 {
        "-"@
    } else {
        log_value_text(server) + ":"@ + log_value_text(port)
    }
}

fn describe_pushed_dns(server: &str, port: &str) -> (text: String)
    ensures
        text@ == pushed_dns_text(server@, port@),
{
    if server.unicode_len() == 0 {
        return "-".to_owned();
    }
    let mut text = log_value(server);
    text.append(":");
    text.append(log_value(port).as_str());
    text
}

/// What the journal is about.
pub struct JournalView {
    pub received_routes: nat,
    pub pushed_mtu: int,
    pub pushed_dns: Seq<char>,
    pub pushed_dns_port: Seq<char>,
    pub pushes_obfuscation: bool,
    pub recordizer_policy: Option<Seq<char>>,
    pub leaves_resolver_alone: bool,
}

pub open spec fn summary_line(journal: JournalView, plan: NetworkPlan) -> Seq<char> {
    "server push: ip="@ + plan.tunnel_address@ + "/"@ + number(plan.prefix_len as int) + " gw="@
        + plan.tunnel_gateway@ + " mtu="@ + (if journal.pushed_mtu > 0 {
        number(journal.pushed_mtu)
    } else {
        "-"@
    }) + " dns="@ + pushed_dns_text(journal.pushed_dns, journal.pushed_dns_port) + " routes="@
        + number(journal.received_routes as int) + " obf="@ + (if journal.pushes_obfuscation {
        "yes"@
    } else {
        "-"@
    }) + " streams="@ + number(plan.max_streams as int) + " adaptive="@ + flag(plan.adaptive)
}

pub open spec fn transport_name(protocol: Seq<char>) -> Seq<char> {
    if lowered(protocol) == lowered("udp"@) {
        "UDP"@
    } else {
        "TCP"@
    }
}

pub open spec fn recordizer_line(policy: Option<Seq<char>>, protocol: Seq<char>) -> Seq<char> {
    match policy {
        Some(policy) => "Packet recordizer: PACKET_MUX_V1 active on "@ + transport_name(protocol)
            + " (policy="@ + log_value_text(lowered(policy)) + ")"@,
        None => "Packet recordizer: legacy packet-per-record on "@ + transport_name(protocol)
            + " (policy=not advertised)"@,
    }
}

pub open spec fn mtu_line(pushed_mtu: int, client_mtu: int, plan_mtu: int) -> Seq<char> {
    if pushed_mtu <= 0 {
        "server push: mtu not sent (older server) — using "@ + number(plan_mtu)
    } else if client_mtu > 0 {
        "server push: mtu "@ + number(pushed_mtu) + " IGNORED — client mtu="@ + number(client_mtu)
            + " wins; using "@ + number(plan_mtu)
    } else if plan_mtu != pushed_mtu {
        "server push: mtu "@ + number(pushed_mtu)
            + " accepted as the ceiling; path probe selected "@ + number(plan_mtu)
    } else {
        "server push: mtu "@ + number(pushed_mtu)
            + " ACCEPTED into NetworkPlan (client mtu=0/auto)"@
    }
}

/// Whether the plan has the pushed resolver.
pub open spec fn plan_has_dns(servers: Seq<DnsView>, server: Seq<char>, port: Seq<char>) -> bool {
    exists|i: int|
        0 <= i < servers.len() && (#[trigger] servers[i]).address == server && decimal_value(
            port,
            65535,
        ) == Some(servers[i].port as int)
}

pub open spec fn dns_line(journal: JournalView, config: ClientConfig, servers: Seq<DnsView>) -> Seq<char> {
    let pushed = pushed_dns_text(journal.pushed_dns, journal.pushed_dns_port);
    if journal.pushed_dns.len() == 0 {
        if servers.len() == 0 {
            "server push: no DNS sent — keeping the system resolver (server: set dns.push_servers, or enable dns.listen)"@
        } else {
            "server push: no DNS sent — using configured/fallback resolver: "@ + dns_text(servers)
        }
    } else if journal.leaves_resolver_alone {
        "server push: DNS "@ + pushed + " IGNORED — client dns="@ + config.dns.mode@
            + " leaves the system resolver unchanged"@
    } else if config.dns.servers@.len() > 0 {
        "server push: DNS "@ + pushed
            + " IGNORED — client dns_servers override it; NetworkPlan uses "@ + dns_text(servers)
    } else if plan_has_dns(servers, journal.pushed_dns, journal.pushed_dns_port) {
        "server push: DNS "@ + pushed + " ACCEPTED into NetworkPlan"@
    } else {
        "server push: DNS "@ + pushed + " REJECTED by routing policy; NetworkPlan uses "@
            + dns_text(servers)
    }
}

/// The first route of the plan that lies within a pushed block.
pub open spec fn effective_route(routes: Seq<RouteView>, block: NumericCidr) -> Option<RouteView>
    decreases routes.len(),
{
    if routes.len() == 0 {
        None
    } else if routes[0].block.bits == block.bits && routes[0].block.prefix >= block.prefix
        && routes[0].block.meets(block) {
        Some(routes[0])
    } else {
        effective_route(routes.drop_first(), block)
    }
}

/// What the exclusions leave of a pushed block.
pub open spec fn pushed_parts(
    block: NumericCidr,
    excludes: Seq<NumericCidr>,
    protected: Seq<NumericCidr>,
    max_routes: nat,
) -> Option<Seq<NumericCidr>> {
    if protected.contains(block) {
        Some(seq![block])
    } else {
        minus_all(seq![block], excludes, block.bits, max_routes)
    }
}

/// What became of one pushed route.
pub open spec fn route_line(
    block: NumericCidr,
    parts: Option<Seq<NumericCidr>>,
    effective: Option<RouteView>,
) -> Seq<char> {
    let text = text_of_block(block);
    match (parts, effective) {
        (Some(parts), effective) => if parts.len() == 0 {
            "server push: route "@ + text + " EXCLUDED by client routing policy"@
        } else {
            match effective {
                Some(route) => if parts == seq![block] {
                    "server push: route "@ + text + " ACCEPTED (gateway="@ + route.gateway
                        + " metric="@ + number(route.metric as int) + ")"@
                } else {
                    "server push: route "@ + text + " PARTIALLY ACCEPTED as "@ + number(
                        parts.len() as int,
                    ) + " fragment(s) (gateway="@ + route.gateway + " metric="@ + number(
                        route.metric as int,
                    ) + ")"@
                },
                None => "server push: route "@ + text
                    + " could not be correlated with the effective plan"@,
            }
        },
        (None, _) => "server push: route "@ + text
            + " could not be correlated with the effective plan"@,
    }
}

pub open spec fn pushed_route_lines(
    blocks: Seq<NumericCidr>,
    routes: Seq<RouteView>,
    excludes: Seq<NumericCidr>,
    protected: Seq<NumericCidr>,
    max_routes: nat,
) -> Seq<Seq<char>> {
    blocks.map_values(
        |block: NumericCidr|
            route_line(
                block,
                pushed_parts(block, excludes, protected, max_routes),
                effective_route(routes, block),
            ),
    )
}

pub open spec fn routes_lines(
    received: nat,
    plan: NetworkPlan,
    excludes: Seq<NumericCidr>,
    max_routes: nat,
) -> Seq<Seq<char>> {
    if received == 0 {
        seq!["server push: no routes sent — the server profile/user has no valid route entries"@]
    } else {
        let accepted = plan.pushed_routes@.len();
        seq![
            "server push: "@ + number(received as int) + " route(s) received; "@ + number(
                accepted as int,
            ) + " validated before client exclusions"@,
        ] + pushed_route_lines(
            plan.pushed_routes@,
            route_views(plan.routes@),
            excludes,
            host_blocks(dns_views(plan.dns_servers@)),
            max_routes,
        ) + if received > accepted {
            seq![
                "server push: "@ + number(received - accepted)
                    + " route(s) REJECTED (invalid CIDR/gateway or prefix broader than IPv4 /8 or IPv6 /3)"@,
            ]
        } else {
            Seq::empty()
        }
    }
}

pub open spec fn plan_line(plan: NetworkPlan) -> Seq<char> {
    "NetworkPlan "@ + number(plan.generation as int) + ": mode="@ + (if plan.full_tunnel {
        "full"@
    } else {
        "split"@
    }) + " address="@ + plan.tunnel_address@ + "/"@ + number(plan.prefix_len as int) + " gateway="@
        + plan.tunnel_gateway@ + " mtu="@ + number(plan.mtu as int) + " dns=["@ + dns_text(
        dns_views(plan.dns_servers@),
    ) + "] routes="@ + number(plan.routes@.len() as int) + " pushed_routes="@ + number(
        plan.pushed_routes@.len() as int,
    ) + " kill_switch="@ + flag(plan.kill_switch)
}

/// All lines of the journal before they are sanitized.
pub open spec fn journal_lines(
    journal: JournalView,
    config: ClientConfig,
    plan: NetworkPlan,
    excludes: Seq<NumericCidr>,
    pushed: Option<PushedObf>,
    own: DataPlaneConfig,
    max_routes: nat,
) -> Seq<Seq<char>> {
    seq![
        summary_line(journal, plan),
        recordizer_line(journal.recordizer_policy, config.protocol@),
        mtu_line(journal.pushed_mtu, config.mtu as int, plan.mtu as int),
        dns_line(journal, config, dns_views(plan.dns_servers@)),
    ] + routes_lines(journal.received_routes, plan, excludes, max_routes) + (match pushed {
        Some(obfuscation) => data_plane_lines(
            "server push"@,
            obfuscation.data_plane,
            "APPLIED"@,
        ),
        None => seq![
            "server push: no obfuscation block sent — keeping client data-plane settings"@,
        ] + data_plane_lines("data plane effective"@, own, "CLIENT"@),
    }) + seq![
        "server push: multipath max_streams="@ + number(plan.max_streams as int) + " adaptive="@
            + flag(plan.adaptive),
        plan_line(plan),
    ]
}

pub open spec fn sanitized(lines: Seq<Seq<char>>) -> Seq<Seq<char>> {
    lines.map_values(|line: Seq<char>| fitting(line, 1024))
}

fn find_effective(routes: &Vec<NetworkRoute>, block: NumericCidr) -> (found: Option<usize>)
    requires
        block.valid(),
        all_valid(blocks_of(route_views(routes@))),
    ensures
        match found {
            Some(i) => i < routes@.len() && effective_route(route_views(routes@), block) == Some(
                routes@[i as int]@,
            ),
            None => effective_route(route_views(routes@), block) is None,
        },
{
    let ghost views = route_views(routes@);
    let mut i: usize = 0;
    assert(views.skip(0) =~= views);
    while i < routes.len()
        invariant
            i <= routes@.len(),
            block.valid(),
            views == route_views(routes@),
            all_valid(blocks_of(views)),
            effective_route(views, block) == effective_route(views.skip(i as int), block),
        decreases routes@.len() - i,
    {
        proof {
            assert(views.skip(i as int)[0] == routes@[i as int]@);
            assert(views.skip(i as int).drop_first() =~= views.skip(i + 1));
            assert(blocks_of(views)[i as int] == routes@[i as int].block);
        }
        let candidate = routes[i].block;
        if candidate.bits == block.bits && candidate.prefix >= block.prefix && candidate.overlaps(
            block,
        ) {
            return Some(i);
        }
        i += 1;
    }
    None
}

fn describe_route(
    block: NumericCidr,
    plan: &NetworkPlan,
    excludes: &Vec<NumericCidr>,
    protected: &Vec<NumericCidr>,
    max_routes: usize,
) -> (line: String)
    requires
        block.valid(),
        plan.blocks_valid(),
        all_valid(excludes@),
        max_routes < usize::MAX,
    ensures
        line@ == route_line(
            block,
            pushed_parts(block, excludes@, protected@, max_routes as nat),
            effective_route(route_views(plan.routes@), block),
        ),
{
    let mut line = "server push: route ".to_owned();
    line.append(block.render().as_str());
    let parts = if contains_block(protected, block) {
        let mut whole: Vec<NumericCidr> = Vec::new();
        whole.push(block);
        assert(whole@ =~= seq![block]);
        Some(whole)
    } else {
        match cidr_minus_excludes(block, excludes, max_routes) {
            Ok(parts) => Some(parts),
            Err(_) => None,
        }
    };
    let effective = find_effective(&plan.routes, block);
    let parts = match parts {
        Some(parts) => parts,
        None => {
            line.append(" could not be correlated with the effective plan");
            return line;
        },
    };
    if parts.len() == 0 {
        line.append(" EXCLUDED by client routing policy");
        return line;
    }
    let route = match effective {
        Some(i) => &plan.routes[i],
        None => {
            line.append(" could not be correlated with the effective plan");
            return line;
        },
    };
    if parts.len() == 1 && parts[0] == block {
        assert(parts@ =~= seq![block]);
        line.append(" ACCEPTED (gateway=");
    } else {
        assert(parts@ != seq![block]) by {
            if parts@ == seq![block] {
                assert(parts@.len() == 1 && parts@[0] == block);
            }
        }
        line.append(" PARTIALLY ACCEPTED as ");
        line.append(decimal(parts.len() as u64).as_str());
        line.append(" fragment(s) (gateway=");
    }
    line.append(route.gateway.as_str());
    line.append(" metric=");
    line.append(decimal(route.metric as u64).as_str());
    line.append(")");
    line
}

fn append_route_lines(
    lines: &mut Vec<String>,
    received: usize,
    plan: &NetworkPlan,
    excludes: &Vec<NumericCidr>,
    max_routes: usize,
)
    requires
        plan.blocks_valid(),
        all_valid(excludes@),
        max_routes < usize::MAX,
    ensures
        texts(final(lines)@) == texts(old(lines)@) + routes_lines(
            received as nat,
            *plan,
            excludes@,
            max_routes as nat,
        ),
{
    let ghost before = texts(lines@);
    if received == 0 {
        push_line(
            lines,
            "server push: no routes sent — the server profile/user has no valid route entries".to_owned(),
        );
        assert(texts(lines@) =~= before + routes_lines(
            received as nat,
            *plan,
            excludes@,
            max_routes as nat,
        ));
        return;
    }
    let accepted: usize = plan.pushed_routes.len();
    let mut line = "server push: ".to_owned();
    line.append(decimal(received as u64).as_str());
    line.append(" route(s) received; ");
    line.append(decimal(accepted as u64).as_str());
    line.append(" validated before client exclusions");
    push_line(lines, line);
    let ghost opened = texts(lines@);
    let mut protected: Vec<NumericCidr> = Vec::new();
    let ghost hosts = host_blocks(dns_views(plan.dns_servers@));
    let mut k: usize = 0;
    while k < plan.dns_servers.len()
        invariant
            k <= plan.dns_servers@.len(),
            hosts == host_blocks(dns_views(plan.dns_servers@)),
            protected@ =~= hosts.take(k as int),
        decreases plan.dns_servers@.len() - k,
    {
        protected.push(plan.dns_servers[k].ip.host_block());
        k += 1;
    }
    assert(protected@ =~= hosts);
    let ghost described = pushed_route_lines(
        plan.pushed_routes@,
        route_views(plan.routes@),
        excludes@,
        hosts,
        max_routes as nat,
    );
    let mut i: usize = 0;
    while i < plan.pushed_routes.len()
        invariant
            i <= plan.pushed_routes@.len(),
            plan.blocks_valid(),
            all_valid(excludes@),
            max_routes < usize::MAX,
            protected@ == hosts,
            described == pushed_route_lines(
                plan.pushed_routes@,
                route_views(plan.routes@),
                excludes@,
                hosts,
                max_routes as nat,
            ),
            texts(lines@) =~= opened + described.take(i as int),
        decreases plan.pushed_routes@.len() - i,
    {
        let line = describe_route(plan.pushed_routes[i], plan, excludes, &protected, max_routes);
        push_line(lines, line);
        i += 1;
    }
    assert(described.take(described.len() as int) =~= described);
    if received > accepted {
        let mut line = "server push: ".to_owned();
        line.append(decimal((received - accepted) as u64).as_str());
        line.append(
            " route(s) REJECTED (invalid CIDR/gateway or prefix broader than IPv4 /8 or IPv6 /3)",
        );
        push_line(lines, line);
    }
    assert(texts(lines@) =~= before + routes_lines(
        received as nat,
        *plan,
        excludes@,
        max_routes as nat,
    ));
}

fn has_dns(servers: &Vec<PlannedDns>, server: &str, port: &str) -> (found: bool)
    ensures
        found == plan_has_dns(dns_views(servers@), server@, port@),
{
    let ghost views = dns_views(servers@);
    let wanted = parse_decimal(port, 65535);
    let mut i: usize = 0;
    while i < servers.len()
        invariant
            i <= servers@.len(),
            views == dns_views(servers@),
            match wanted {
                Some(number) => decimal_value(port@, 65535) == Some(number as int),
                None => decimal_value(port@, 65535) is None,
            },
            forall|j: int|
                0 <= j < i ==> !((#[trigger] views[j]).address == server@ && decimal_value(
                    port@,
                    65535,
                ) == Some(views[j].port as int)),
        decreases servers@.len() - i,
    {
        let same_port = match wanted {
            Some(number) => number == servers[i].port as u64,
            None => false,
        };
        if same_text(servers[i].address.as_str(), server) && same_port {
            assert(views[i as int].address == server@);
            return true;
        }
        i += 1;
    }
    false
}

fn describe_dns_push(
    config: &ClientConfig,
    plan: &NetworkPlan,
    pushed_dns: &str,
    pushed_dns_port: &str,
    leaves_resolver_alone: bool,
    Ghost(journal): Ghost<JournalView>,
) -> (line: String)
    requires
        journal.pushed_dns == pushed_dns@,
        journal.pushed_dns_port == pushed_dns_port@,
        journal.leaves_resolver_alone == leaves_resolver_alone,
    ensures
        line@ == dns_line(journal, *config, dns_views(plan.dns_servers@)),
{
    let effective = describe_dns(&plan.dns_servers);
    if pushed_dns.unicode_len() == 0 {
        if plan.dns_servers.len() == 0 {
            return "server push: no DNS sent — keeping the system resolver (server: set dns.push_servers, or enable dns.listen)".to_owned();
        }
        let mut line =
            "server push: no DNS sent — using configured/fallback resolver: ".to_owned();
        line.append(effective.as_str());
        return line;
    }
    let mut line = "server push: DNS ".to_owned();
    line.append(describe_pushed_dns(pushed_dns, pushed_dns_port).as_str());
    if leaves_resolver_alone {
        line.append(" IGNORED — client dns=");
        line.append(config.dns.mode.as_str());
        line.append(" leaves the system resolver unchanged");
    } else if config.dns.servers.len() > 0 {
        line.append(" IGNORED — client dns_servers override it; NetworkPlan uses ");
        line.append(effective.as_str());
    } else if has_dns(&plan.dns_servers, pushed_dns, pushed_dns_port) {
        line.append(" ACCEPTED into NetworkPlan");
    } else {
        line.append(" REJECTED by routing policy; NetworkPlan uses ");
        line.append(effective.as_str());
    }
    line
}

fn describe_mtu(pushed_mtu: i32, client_mtu: i32, plan_mtu: u16) -> (line: String)
    ensures
        line@ == mtu_line(pushed_mtu as int, client_mtu as int, plan_mtu as int),
{
    if pushed_mtu <= 0 {
        let mut line = "server push: mtu not sent (older server) — using ".to_owned();
        line.append(decimal(plan_mtu as u64).as_str());
        return line;
    }
    let mut line = "server push: mtu ".to_owned();
    line.append(decimal(pushed_mtu as u64).as_str());
    if client_mtu > 0 {
        line.append(" IGNORED — client mtu=");
        line.append(decimal(client_mtu as u64).as_str());
        line.append(" wins; using ");
        line.append(decimal(plan_mtu as u64).as_str());
    } else if plan_mtu as i32 != pushed_mtu {
        line.append(" accepted as the ceiling; path probe selected ");
        line.append(decimal(plan_mtu as u64).as_str());
    } else {
        line.append(" ACCEPTED into NetworkPlan (client mtu=0/auto)");
    }
    line
}

fn describe_summary(
    plan: &NetworkPlan,
    pushed_mtu: i32,
    pushed_dns: &str,
    pushed_dns_port: &str,
    received_routes: usize,
    pushes_obfuscation: bool,
    Ghost(journal): Ghost<JournalView>,
) -> (line: String)
    requires
        journal.pushed_mtu == pushed_mtu,
        journal.pushed_dns == pushed_dns@,
        journal.pushed_dns_port == pushed_dns_port@,
        journal.received_routes == received_routes,
        journal.pushes_obfuscation == pushes_obfuscation,
    ensures
        line@ == summary_line(journal, *plan),
{
    let mut line = "server push: ip=".to_owned();
    line.append(plan.tunnel_address.as_str());
    line.append("/");
    line.append(decimal(plan.prefix_len as u64).as_str());
    line.append(" gw=");
    line.append(plan.tunnel_gateway.as_str());
    line.append(" mtu=");
    if pushed_mtu > 0 {
        line.append(decimal(pushed_mtu as u64).as_str());
    } else {
        line.append("-");
    }
    line.append(" dns=");
    line.append(describe_pushed_dns(pushed_dns, pushed_dns_port).as_str());
    line.append(" routes=");
    line.append(decimal(received_routes as u64).as_str());
    line.append(" obf=");
    line.append(
        if pushes_obfuscation {
            "yes"
        } else {
            "-"
        },
    );
    line.append(" streams=");
    line.append(decimal(plan.max_streams as u64).as_str());
    line.append(" adaptive=");
    line.append(flag_text(plan.adaptive));
    line
}

fn describe_recordizer(policy: Option<&String>, protocol: &str) -> (line: String)
    ensures
        line@ == recordizer_line(
            match policy {
                Some(policy) => Some(policy@),
                None => None,
            },
            protocol@,
        ),
{
    let transport = if eq_ignore_ascii_case(protocol, "udp") {
        "UDP"
    } else {
        "TCP"
    };
    match policy {
        Some(policy) => {
            let mut line = "Packet recordizer: PACKET_MUX_V1 active on ".to_owned();
            line.append(transport);
            line.append(" (policy=");
            line.append(log_value(to_ascii_lowercase(policy.as_str()).as_str()).as_str());
            line.append(")");
            line
        },
        None => {
            let mut line = "Packet recordizer: legacy packet-per-record on ".to_owned();
            line.append(transport);
            line.append(" (policy=not advertised)");
            line
        },
    }
}

fn describe_plan(plan: &NetworkPlan) -> (line: String)
    ensures
        line@ == plan_line(*plan),
{
    let mut line = "NetworkPlan ".to_owned();
    line.append(decimal(plan.generation).as_str());
    line.append(": mode=");
    line.append(
        if plan.full_tunnel {
            "full"
        } else {
            "split"
        },
    );
    line.append(" address=");
    line.append(plan.tunnel_address.as_str());
    line.append("/");
    line.append(decimal(plan.prefix_len as u64).as_str());
    line.append(" gateway=");
    line.append(plan.tunnel_gateway.as_str());
    line.append(" mtu=");
    line.append(decimal(plan.mtu as u64).as_str());
    line.append(" dns=[");
    line.append(describe_dns(&plan.dns_servers).as_str());
    line.append("] routes=");
    line.append(decimal(plan.routes.len() as u64).as_str());
    line.append(" pushed_routes=");
    line.append(decimal(plan.pushed_routes.len() as u64).as_str());
    line.append(" kill_switch=");
    line.append(flag_text(plan.kill_switch));
    line
}

fn sanitize_lines(lines: &Vec<String>) -> (clean: Vec<String>)
    ensures
        texts(clean@) == sanitized(texts(lines@)),
{
    let mut clean: Vec<String> = Vec::new();
    let ghost expected = sanitized(texts(lines@));
    let mut i: usize = 0;
    while i < lines.len()
        invariant
            i <= lines@.len(),
            expected == sanitized(texts(lines@)),
            texts(clean@) =~= expected.take(i as int),
        decreases lines@.len() - i,
    {
        push_line(&mut clean, sanitize_log_line(&lines[i]));
        i += 1;
    }
    assert(expected.take(expected.len() as int) =~= expected);
    clean
}

/// Writes the journal from a push whose routes were counted and whose exclusions were read.
pub fn write_journal(
    config: &ClientConfig,
    plan: &NetworkPlan,
    pushed_mtu: i32,
    pushed_dns: &str,
    pushed_dns_port: &str,
    received_routes: usize,
    excludes: &Vec<NumericCidr>,
    pushed_obfuscation: Option<&PushedObf>,
    own: &DataPlaneConfig,
    leaves_resolver_alone: bool,
    max_routes: usize,
) -> (lines: Vec<String>)
    requires
        plan.blocks_valid(),
        all_valid(excludes@),
        max_routes < usize::MAX,
    ensures
        texts(lines@) == sanitized(
            journal_lines(
                JournalView {
                    received_routes: received_routes as nat,
                    pushed_mtu: pushed_mtu as int,
                    pushed_dns: pushed_dns@,
                    pushed_dns_port: pushed_dns_port@,
                    pushes_obfuscation: pushed_obfuscation is Some,
                    recordizer_policy: policy_of(pushed_obfuscation),
                    leaves_resolver_alone,
                },
                *config,
                *plan,
                excludes@,
                match pushed_obfuscation {
                    Some(obfuscation) => Some(*obfuscation),
                    None => None,
                },
                *own,
                max_routes as nat,
            ),
        ),
{
    let ghost journal = JournalView {
        received_routes: received_routes as nat,
        pushed_mtu: pushed_mtu as int,
        pushed_dns: pushed_dns@,
        pushed_dns_port: pushed_dns_port@,
        pushes_obfuscation: pushed_obfuscation is Some,
        recordizer_policy: policy_of(pushed_obfuscation),
        leaves_resolver_alone,
    };
    let mut lines: Vec<String> = Vec::new();
    assert(texts(lines@) =~= Seq::<Seq<char>>::empty());
    push_line(
        &mut lines,
        describe_summary(
            plan,
            pushed_mtu,
            pushed_dns,
            pushed_dns_port,
            received_routes,
            pushed_obfuscation.is_some(),
            Ghost(journal),
        ),
    );
    let policy = match pushed_obfuscation {
        Some(obfuscation) => obfuscation.recordizer_policy.as_ref(),
        None => None,
    };
    push_line(&mut lines, describe_recordizer(policy, config.protocol.as_str()));
    push_line(&mut lines, describe_mtu(pushed_mtu, config.mtu, plan.mtu));
    push_line(
        &mut lines,
        describe_dns_push(
            config,
            plan,
            pushed_dns,
            pushed_dns_port,
            leaves_resolver_alone,
            Ghost(journal),
        ),
    );
    assert(texts(lines@) =~= seq![
        summary_line(journal, *plan),
        recordizer_line(journal.recordizer_policy, config.protocol@),
        mtu_line(journal.pushed_mtu, config.mtu as int, plan.mtu as int),
        dns_line(journal, *config, dns_views(plan.dns_servers@)),
    ]);
    append_route_lines(&mut lines, received_routes, plan, excludes, max_routes);
    let ghost routed = texts(lines@);
    match pushed_obfuscation {
        Some(obfuscation) => {
            append_data_plane_lines(
                &mut lines,
                "server push",
                &obfuscation.data_plane,
                "APPLIED",
            );
        },
        None => {
            push_line(
                &mut lines,
                "server push: no obfuscation block sent — keeping client data-plane settings".to_owned(),
            );
            append_data_plane_lines(&mut lines, "data plane effective", own, "CLIENT");
            assert(texts(lines@) =~= routed + (seq![
                "server push: no obfuscation block sent — keeping client data-plane settings"@,
            ] + data_plane_lines("data plane effective"@, *own, "CLIENT"@)));
        },
    }
    let ghost shaped = texts(lines@);
    let mut line = "server push: multipath max_streams=".to_owned();
    line.append(decimal(plan.max_streams as u64).as_str());
    line.append(" adaptive=");
    line.append(flag_text(plan.adaptive));
    push_line(&mut lines, line);
    push_line(&mut lines, describe_plan(plan));
    assert(texts(lines@) =~= shaped + seq![
        "server push: multipath max_streams="@ + number(plan.max_streams as int) + " adaptive="@
            + flag(plan.adaptive),
        plan_line(*plan),
    ]);
    sanitize_lines(&lines)
}

pub open spec fn policy_of(pushed: Option<&PushedObf>) -> Option<Seq<char>> {
    match pushed {
        Some(obfuscation) => match obfuscation.recordizer_policy {
            Some(policy) => Some(policy@),
            None => None,
        },
        None => None,
    }
}

/// The blocks of those texts that denote one.
pub open spec fn readable_blocks(list: Seq<String>) -> Seq<NumericCidr>
    decreases list.len(),
{
    if list.len() == 0 {
        Seq::empty()
    } else {
        match block_of_text(list.last()@) {
            Some(block) => readable_blocks(list.drop_last()).push(block),
            None => readable_blocks(list.drop_last()),
        }
    }
}

fn read_blocks(list: &Vec<String>) -> (blocks: Vec<NumericCidr>)
    ensures
        blocks@ == readable_blocks(list@),
        all_valid(blocks@),
{
    let mut blocks: Vec<NumericCidr> = Vec::new();
    let mut i: usize = 0;
    assert(list@.take(0) =~= Seq::<String>::empty());
    while i < list.len()
        invariant
            i <= list@.len(),
            all_valid(blocks@),
            blocks@ == readable_blocks(list@.take(i as int)),
        decreases list@.len() - i,
    {
        proof {
            assert(list@.take(i + 1).drop_last() =~= list@.take(i as int));
            assert(list@.take(i + 1).last() == list@[i as int]);
        }
        if let Some(block) = parse_block(list[i].as_str()) {
            blocks.push(block);
        }
        i += 1;
    }
    assert(list@.take(list@.len() as int) =~= list@);
    blocks
}

/// Writes the complete journal of a push. `leaves_resolver_alone` says whether the profile's DNS
/// mode keeps the system resolver.
pub fn server_push_log_lines(
    config: &ClientConfig,
    plan: &NetworkPlan,
    pushed_mtu: i32,
    pushed_dns: &str,
    pushed_dns_port: &str,
    routes_json: &str,
    pushed_obfuscation: Option<&PushedObf>,
    own: &DataPlaneConfig,
    leaves_resolver_alone: bool,
    max_routes: usize,
) -> (lines: Vec<String>)
    requires
        plan.blocks_valid(),
        max_routes < usize::MAX,
    ensures
        texts(lines@) == sanitized(
            journal_lines(
                JournalView {
                    received_routes: match json_array_len(routes_json@) {
                        Some(count) => count as nat,
                        None => 0,
                    },
                    pushed_mtu: pushed_mtu as int,
                    pushed_dns: pushed_dns@,
                    pushed_dns_port: pushed_dns_port@,
                    pushes_obfuscation: pushed_obfuscation is Some,
                    recordizer_policy: policy_of(pushed_obfuscation),
                    leaves_resolver_alone,
                },
                *config,
                *plan,
                readable_blocks(config.routing.exclude_routes@),
                match pushed_obfuscation {
                    Some(obfuscation) => Some(*obfuscation),
                    None => None,
                },
                *own,
                max_routes as nat,
            ),
        ),
{
    let received_routes: usize = match count_json_array(routes_json) {
        Some(count) => count,
        None => 0,
    };
    write_journal(
        config,
        plan,
        pushed_mtu,
        pushed_dns,
        pushed_dns_port,
        received_routes,
        &read_blocks(&config.routing.exclude_routes),
        pushed_obfuscation,
        own,
        leaves_resolver_alone,
        max_routes,
    )
}

/// How many times the word `cidr` stands in the first `end` characters of a text.
pub open spec fn cidr_words(text: Seq<char>, end: int) -> nat
    decreases end,
{
    if end < 4 {
        0
    } else {
        cidr_words(text, end - 1) + if text.subrange(end - 4, end) == "cidr"@ {
            1nat
        } else {
            0nat
        }
    }
}

/// The note on how many routes came with an authentication, where any did.
pub fn pushed_routes_note(routes_json: &str) -> (note: Option<String>)
    ensures
        match note {
            Some(note) => routes_json@.len() > 0 && routes_json@ != "[]"@ && note@
                == "Server pushed "@ + number(
                cidr_words(routes_json@, routes_json@.len() as int) as int,
            ) + " route(s)"@,
            None => routes_json@.len() == 0 || routes_json@ == "[]"@,
        },
{
    let length: usize = routes_json.unicode_len();
    if length == 0 || same_text(routes_json, "[]") {
        return None;
    }
    let mut count: u64 = 0;
    let mut end: usize = 0;
    while end < length
        invariant
            end <= length == routes_json@.len(),
            count <= end,
            count == cidr_words(routes_json@, end as int),
        decreases length - end,
    {
        end += 1;
        if end >= 4 {
            let word = routes_json.substring_char(end - 4, end);
            if same_text(word, "cidr") {
                count += 1;
            }
        }
    }
    Some(sentence("Server pushed ", decimal(count).as_str(), " route(s)"))
}

proof fn lemma_begins(front: Seq<char>, rest: Seq<char>)
    ensures
        front.is_prefix_of(front + rest),
{
    assert((front + rest).subrange(0, front.len() as int) =~= front);
}

/// What the journal says of the pushed MTU: it was not sent unless it is above zero, the client's
/// own one wins wherever it is above zero, and the pushed one is used as it is only where the plan
/// has it.
pub proof fn law_pushed_mtu_is_accounted_for(pushed_mtu: int, client_mtu: int, plan_mtu: int)
    ensures
        ({
            let line = mtu_line(pushed_mtu, client_mtu, plan_mtu);
            let start = "server push: mtu "@ + decimal_text(pushed_mtu as nat);
            &&& pushed_mtu <= 0 ==> line == "server push: mtu not sent (older server) — using "@
                + decimal_text(plan_mtu as nat)
            &&& pushed_mtu > 0 && client_mtu > 0 ==> (start + " IGNORED — client mtu="@
                + decimal_text(client_mtu as nat)).is_prefix_of(line)
            &&& pushed_mtu > 0 && client_mtu <= 0 && plan_mtu < pushed_mtu ==> line == start
                + " accepted as the ceiling; path probe selected "@ + decimal_text(plan_mtu as nat)
            &&& pushed_mtu > 0 && client_mtu <= 0 && plan_mtu == pushed_mtu ==> line == start
                + " ACCEPTED into NetworkPlan (client mtu=0/auto)"@
        }),
{
    let start = "server push: mtu "@ + decimal_text(pushed_mtu as nat);
    let front = start + " IGNORED — client mtu="@ + decimal_text(client_mtu as nat);
    lemma_begins(front, " wins; using "@);
    lemma_begins(front, " wins; using "@ + decimal_text(plan_mtu as nat));
    assert(front + (" wins; using "@ + decimal_text(plan_mtu as nat)) =~= front + " wins; using "@
        + decimal_text(plan_mtu as nat));
}

/// What the journal says of the pushed resolver: accepted exactly where it was sent, nothing of
/// the client's own stands against it and the plan has it.
pub proof fn law_pushed_resolver_is_accounted_for(
    journal: JournalView,
    config: ClientConfig,
    servers: Seq<DnsView>,
    at: int,
)
    requires
        journal.pushed_dns.len() > 0,
    ensures
        ({
            let line = dns_line(journal, config, servers);
            let start = "server push: DNS "@ + log_value_text(journal.pushed_dns) + ":"@
                + log_value_text(journal.pushed_dns_port);
            let own = config.dns.servers@.len() > 0;
            &&& journal.leaves_resolver_alone ==> (start + " IGNORED — client dns="@
                + config.dns.mode@).is_prefix_of(line)
            &&& !journal.leaves_resolver_alone && own ==> (start
                + " IGNORED — client dns_servers override it; NetworkPlan uses "@).is_prefix_of(
                line,
            )
            &&& !journal.leaves_resolver_alone && !own && 0 <= at < servers.len()
                && servers[at].address == journal.pushed_dns && decimal_value(
                journal.pushed_dns_port,
                65535,
            ) == Some(servers[at].port as int) ==> line == start + " ACCEPTED into NetworkPlan"@
            &&& !journal.leaves_resolver_alone && !own && (forall|i: int|
                0 <= i < servers.len() ==> (#[trigger] servers[i]).address != journal.pushed_dns)
                ==> (start + " REJECTED by routing policy; NetworkPlan uses "@).is_prefix_of(line)
        }),
{
    let pushed = log_value_text(journal.pushed_dns) + ":"@ + log_value_text(
        journal.pushed_dns_port,
    );
    let start = "server push: DNS "@ + log_value_text(journal.pushed_dns) + ":"@ + log_value_text(
        journal.pushed_dns_port,
    );
    assert("server push: DNS "@ + pushed =~= start);
    lemma_begins(
        start + " IGNORED — client dns="@ + config.dns.mode@,
        " leaves the system resolver unchanged"@,
    );
    lemma_begins(
        start + " IGNORED — client dns_servers override it; NetworkPlan uses "@,
        dns_text(servers),
    );
    lemma_begins(
        start + " REJECTED by routing policy; NetworkPlan uses "@,
        dns_text(servers),
    );
}

/// Without a pushed resolver the journal names those that are used instead, or that the system's
/// stay.
pub proof fn law_missing_resolvers_are_accounted_for(
    journal: JournalView,
    config: ClientConfig,
    servers: Seq<DnsView>,
)
    requires
        journal.pushed_dns.len() == 0,
    ensures
        servers.len() > 0 ==> dns_line(journal, config, servers)
            == "server push: no DNS sent — using configured/fallback resolver: "@ + servers_text(
            servers,
        ),
        servers.len() == 0 ==> "server push: no DNS sent — keeping the system resolver"@.is_prefix_of(
            dns_line(journal, config, servers),
        ),
{
    reveal_strlit("server push: no DNS sent — keeping the system resolver");
    reveal_strlit(
        "server push: no DNS sent — keeping the system resolver (server: set dns.push_servers, or enable dns.listen)",
    );
    if servers.len() == 0 {
        let line = dns_line(journal, config, servers);
        let front = "server push: no DNS sent — keeping the system resolver"@;
        assert(line.subrange(0, front.len() as int) =~= front);
    }
}

/// Lists are written with a comma and a space between two items, and nothing before the first or
/// behind the last.
pub proof fn law_lists_are_written_with_commas(
    values: Seq<u64>,
    value: u64,
    servers: Seq<DnsView>,
    server: DnsView,
)
    ensures
        joined(seq![value]) == decimal_text(value as nat),
        values.len() > 0 ==> joined(values.push(value)) == joined(values) + ", "@ + decimal_text(
            value as nat,
        ),
        servers_text(seq![server]) == server.address + ":"@ + decimal_text(server.port as nat),
        servers.len() > 0 ==> servers_text(servers.push(server)) == servers_text(servers) + ", "@
            + server.address + ":"@ + decimal_text(server.port as nat),
{
    assert(values.push(value).drop_last() =~= values);
    assert(servers.push(server).drop_last() =~= servers);
}

/// A transport is UDP however its name is spelled, and TCP under every other name.
pub proof fn law_transports_are_named(protocol: Seq<char>)
    ensures
        transport_name(protocol) == "UDP"@ <==> lowered(protocol) == lowered("udp"@),
        transport_name(protocol) == "TCP"@ <==> lowered(protocol) != lowered("udp"@),
{
    reveal_strlit("UDP");
    reveal_strlit("TCP");
    assert("UDP"@[0] == 'U' && "TCP"@[0] == 'T');
}

/// The route that a pushed block led to is the first of the plan that lies within the block.
pub proof fn law_the_first_route_within_a_block_counts(
    routes: Seq<RouteView>,
    block: NumericCidr,
    at: int,
)
    requires
        0 <= at <= routes.len(),
        forall|i: int|
            0 <= i < at ==> !((#[trigger] routes[i]).block.bits == block.bits
                && routes[i].block.prefix >= block.prefix && routes[i].block.meets(block)),
    ensures
        at == routes.len() ==> effective_route(routes, block) is None,
        at < routes.len() && routes[at].block.bits == block.bits && routes[at].block.prefix
            >= block.prefix && routes[at].block.meets(block) ==> effective_route(routes, block)
            == Some(routes[at]),
    decreases routes.len(),
{
    if at > 0 {
        assert(!(routes[0].block.bits == block.bits && routes[0].block.prefix >= block.prefix
            && routes[0].block.meets(block)));
        let rest = routes.drop_first();
        assert forall|i: int| 0 <= i < at - 1 implies !((#[trigger] rest[i]).block.bits
            == block.bits && rest[i].block.prefix >= block.prefix && rest[i].block.meets(
            block,
        )) by {
            assert(rest[i] == routes[i + 1]);
        }
        law_the_first_route_within_a_block_counts(rest, block, at - 1);
        if at < routes.len() {
            assert(rest[at - 1] == routes[at]);
        }
    }
}

/// What the journal says of a pushed route: excluded where nothing of it is left, accepted where
/// all of it is and the plan has a route for it, and partially accepted in between.
pub proof fn law_pushed_routes_are_accounted_for(
    block: NumericCidr,
    parts: Seq<NumericCidr>,
    route: RouteView,
)
    ensures
        ({
            let start = "server push: route "@ + text_of_block(block);
            let unknown = start + " could not be correlated with the effective plan"@;
            let line = route_line(block, Some(parts), Some(route));
            &&& parts.len() == 0 ==> line == start + " EXCLUDED by client routing policy"@
                && route_line(block, Some(parts), None) == line
            &&& parts == seq![block] ==> (start + " ACCEPTED (gateway="@
                + route.gateway).is_prefix_of(line)
            &&& parts.len() > 0 && parts != seq![block] ==> (start + " PARTIALLY ACCEPTED as "@
                + decimal_text(parts.len()) + " fragment(s) (gateway="@
                + route.gateway).is_prefix_of(line)
            &&& parts.len() > 0 ==> route_line(block, Some(parts), None) == unknown
            &&& route_line(block, None, Some(route)) == unknown
            &&& route_line(block, None, None) == unknown
        }),
{
    let start = "server push: route "@ + text_of_block(block);
    let line = route_line(block, Some(parts), Some(route));
    let metric = " metric="@ + decimal_text(route.metric as nat) + ")"@;
    let whole = start + " ACCEPTED (gateway="@ + route.gateway;
    let partial = start + " PARTIALLY ACCEPTED as "@ + decimal_text(parts.len())
        + " fragment(s) (gateway="@ + route.gateway;
    lemma_begins(whole, metric);
    lemma_begins(partial, metric);
    if parts.len() > 0 && parts == seq![block] {
        assert(line =~= whole + metric);
    } else if parts.len() > 0 {
        assert(line =~= partial + metric);
    }
}

/// The journal has a line for every pushed route, in the order of the plan, between a line that
/// counts them and, where some were refused, one that counts those.
pub proof fn law_every_pushed_route_has_its_line(
    received: nat,
    plan: NetworkPlan,
    excludes: Seq<NumericCidr>,
    max_routes: nat,
    at: int,
)
    requires
        received > 0,
        0 <= at < plan.pushed_routes@.len(),
    ensures
        ({
            let lines = routes_lines(received, plan, excludes, max_routes);
            let accepted = plan.pushed_routes@.len();
            let block = plan.pushed_routes@[at];
            let parts = pushed_parts(
                block,
                excludes,
                host_blocks(dns_views(plan.dns_servers@)),
                max_routes,
            );
            &&& received > accepted ==> lines.len() == accepted + 2
            &&& received <= accepted ==> lines.len() == accepted + 1
            &&& lines[1 + at] == route_line(
                block,
                parts,
                effective_route(route_views(plan.routes@), block),
            )
            &&& lines[0] == "server push: "@ + decimal_text(received) + " route(s) received; "@
                + decimal_text(accepted) + " validated before client exclusions"@
            &&& received > accepted ==> ("server push: "@ + decimal_text(
                (received - accepted) as nat,
            ) + " route(s) REJECTED (invalid CIDR/gateway or prefix broader than IPv4 /8 or IPv6 /3)"@)
                == lines.last()
        }),
{
}

/// The address of a planned resolver is never cut out of a pushed route; of every other block the
/// exclusions are taken out.
pub proof fn law_resolver_routes_are_kept_whole(
    block: NumericCidr,
    excludes: Seq<NumericCidr>,
    protected: Seq<NumericCidr>,
    max_routes: nat,
)
    ensures
        protected.contains(block) ==> pushed_parts(block, excludes, protected, max_routes) == Some(
            seq![block],
        ),
        !protected.contains(block) ==> pushed_parts(block, excludes, protected, max_routes)
            == minus_all(seq![block], excludes, block.bits, max_routes),
{
}

/// The journal is complete: it opens with what was pushed, the recordizer, the MTU and the
/// resolver, goes on with the routes and one line for each group of data-plane settings, pushed or
/// the client's own, and ends with the streams and the plan.
pub proof fn law_the_journal_is_complete(
    journal: JournalView,
    config: ClientConfig,
    plan: NetworkPlan,
    excludes: Seq<NumericCidr>,
    pushed: Option<PushedObf>,
    own: DataPlaneConfig,
    max_routes: nat,
)
    ensures
        ({
            let lines = journal_lines(journal, config, plan, excludes, pushed, own, max_routes);
            let routes = routes_lines(journal.received_routes, plan, excludes, max_routes);
            let after = 4 + routes.len() as int;
            &&& pushed is Some ==> lines.len() == after + 6 && lines.subrange(after, after + 4)
                == data_plane_lines("server push"@, pushed->Some_0.data_plane, "APPLIED"@)
            &&& pushed is None ==> lines.len() == after + 7 && lines.subrange(after + 1, after + 5)
                == data_plane_lines("data plane effective"@, own, "CLIENT"@)
            &&& lines[0] == summary_line(journal, plan)
            &&& lines[1] == recordizer_line(journal.recordizer_policy, config.protocol@)
            &&& lines[2] == mtu_line(journal.pushed_mtu, config.mtu as int, plan.mtu as int)
            &&& lines[3] == dns_line(journal, config, dns_views(plan.dns_servers@))
            &&& lines.subrange(4, after) == routes
            &&& lines.last() == plan_line(plan)
        }),
{
    let lines = journal_lines(journal, config, plan, excludes, pushed, own, max_routes);
    let routes = routes_lines(journal.received_routes, plan, excludes, max_routes);
    let after = 4 + routes.len() as int;
    assert(lines.subrange(4, after) =~= routes);
    if pushed is Some {
        assert(lines.subrange(after, after + 4) =~= data_plane_lines(
            "server push"@,
            pushed->Some_0.data_plane,
            "APPLIED"@,
        ));
    } else {
        assert(lines.subrange(after + 1, after + 5) =~= data_plane_lines(
            "data plane effective"@,
            own,
            "CLIENT"@,
        ));
    }
}

/// Excluded blocks are read one by one: a text that denotes a block adds it, one that does not
/// adds nothing.
pub proof fn law_readable_blocks_are_kept(list: Seq<String>, text: String)
    ensures
        block_of_text(text@) matches Some(block) ==> readable_blocks(list.push(text))
            == readable_blocks(list).push(block),
        block_of_text(text@) is None ==> readable_blocks(list.push(text)) == readable_blocks(list),
{
    assert(list.push(text).drop_last() =~= list);
}

/// Counting the word `cidr`: a text that ends with it has one more than the text before it.
pub proof fn law_words_are_counted(text: Seq<char>)
    ensures
        cidr_words(text + seq!['c', 'i', 'd', 'r'], text.len() as int + 4) == cidr_words(
            text,
            text.len() as int,
        ) + 1,
{
    let word = seq!['c', 'i', 'd', 'r'];
    let whole = text + word;
    let end = text.len() as int;
    reveal_strlit("cidr");
    assert(word =~= "cidr"@);
    lemma_words_of_a_beginning(text, word, end);
    assert(whole.subrange(end, end + 4) =~= word);
    assert forall|some: int| 1 <= some <= 3 && end + some >= 4 implies #[trigger] whole.subrange(
        end + some - 4,
        end + some,
    ) != "cidr"@ by {
        let tail = whole.subrange(end + some - 4, end + some);
        assert(tail[3] == word[some - 1]);
        assert("cidr"@[3] == 'r');
    }
    if end + 1 >= 4 {
        assert(whole.subrange(end + 1 - 4, end + 1) != "cidr"@);
    }
    if end + 2 >= 4 {
        assert(whole.subrange(end + 2 - 4, end + 2) != "cidr"@);
    }
    if end + 3 >= 4 {
        assert(whole.subrange(end + 3 - 4, end + 3) != "cidr"@);
    }
    assert(cidr_words(whole, end + 1) == cidr_words(whole, end));
    assert(cidr_words(whole, end + 2) == cidr_words(whole, end + 1));
    assert(cidr_words(whole, end + 3) == cidr_words(whole, end + 2));
}

proof fn lemma_words_of_a_beginning(text: Seq<char>, rest: Seq<char>, end: int)
    requires
        0 <= end <= text.len(),
    ensures
        cidr_words(text + rest, end) == cidr_words(text, end),
    decreases end,
{
    if end >= 4 {
        lemma_words_of_a_beginning(text, rest, end - 1);
        assert((text + rest).subrange(end - 4, end) =~= text.subrange(end - 4, end));
    }
}

} // verus!
