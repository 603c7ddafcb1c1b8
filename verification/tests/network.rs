use qeli::cidr::{IpAddress, NumericCidr};
use qeli::journal::{
    pushed_routes_note, server_push_log_lines, DataPlaneConfig, HeartbeatConfig, PaddingConfig, PushedObf,
    TrafficNormalizationConfig, TrafficShapingConfig,
};
use qeli::log_text::{log_value, sanitize_log_line};
use qeli::network::{
    planned_dns_servers, ClientDnsConfig, DnsError, DnsSource, NetworkAddress,
    NetworkAddressFamily, NetworkDns, NetworkFamilyMode,
};
use qeli::network_plan::{
    build_network_plan, is_full_tunnel, normalized_prefix, prefix_to_netmask, ClientConfig,
    ClientIpv6Policy, ClientRouting, HandshakeNetwork, NetworkPlan, PlanError,
};
use qeli::plan_messages::DnsRequest;
use qeli::routes::{
    planned_pushed_routes, planned_pushed_routes_for_addresses, pushed_route_prefix_is_allowed,
    pushes_no_routes, NetworkRoute, PushedRoute, RouteError,
};
use qeli::text::trim;
use serde_json::Value;

const MAX_ROUTES: usize = 4096;

fn dns_config(mode: &str) -> ClientDnsConfig {
    ClientDnsConfig { mode: mode.into(), servers: Vec::new(), fallback_servers: Vec::new() }
}

fn default_config() -> ClientConfig {
    ClientConfig {
        protocol: "tcp".into(),
        device_type: "tun".into(),
        mtu: 1400,
        routing: ClientRouting {
            mode: "split-tunnel".into(),
            add_default_gateway: false,
            ipv6: ClientIpv6Policy::Auto,
            include_routes: Vec::new(),
            exclude_routes: Vec::new(),
            route_local_networks: false,
            kill_switch: false,
            allow_ipv4_leak: false,
            allow_ipv6_leak: false,
        },
        dns: dns_config("tunnel"),
    }
}

fn ipv4_address() -> NetworkAddress {
    NetworkAddress {
        family: NetworkAddressFamily::Ipv4,
        address: "10.8.0.2".into(),
        prefix_len: 24,
        on_link_prefix_len: 24,
        gateway: Some("10.8.0.1".into()),
    }
}

fn ipv6_address() -> NetworkAddress {
    NetworkAddress {
        family: NetworkAddressFamily::Ipv6,
        address: "fd71:e1::2".into(),
        prefix_len: 128,
        on_link_prefix_len: 64,
        gateway: Some("fd71:e1::1".into()),
    }
}

fn ipv4_addresses() -> Vec<NetworkAddress> {
    vec![ipv4_address()]
}

fn pushed(json: &str) -> Vec<PushedRoute> {
    let value: Value = serde_json::from_str(json).unwrap();
    value
        .as_array()
        .unwrap()
        .iter()
        .map(|route| PushedRoute {
            cidr: route.get("cidr").unwrap().as_str().unwrap().to_string(),
            gateway: route.get("gateway").and_then(|text| text.as_str()).map(|text| text.to_string()),
            metric: route.get("metric").and_then(|number| number.as_u64()).map(|number| number as u32),
        })
        .collect()
}

fn network(
    family_mode: NetworkFamilyMode,
    addresses: Vec<NetworkAddress>,
    client_ip: &str,
    prefix: u8,
    tunnel_gateway: &str,
    routes: &str,
) -> HandshakeNetwork {
    HandshakeNetwork {
        family_mode,
        addresses,
        client_ip: client_ip.into(),
        prefix,
        tunnel_gateway: tunnel_gateway.into(),
        dns_ip: String::new(),
        dns_port: "53".into(),
        dns_servers: Vec::new(),
        routes: pushed(routes),
        mtu: 1400,
        fallback_dns_servers: Vec::new(),
    }
}

fn ipv4_network(routes: &str) -> HandshakeNetwork {
    network(NetworkFamilyMode::Ipv4, ipv4_addresses(), "10.8.0.2", 24, "10.8.0.1", routes)
}

fn ipv6_network() -> HandshakeNetwork {
    network(NetworkFamilyMode::Ipv6, vec![ipv6_address()], "fd71:e1::2", 128, "fd71:e1::1", "[]")
}

fn plan(config: &ClientConfig, generation: u64, network: &HandshakeNetwork) -> Result<NetworkPlan, PlanError> {
    build_network_plan(config, generation, network, MAX_ROUTES)
}

fn cidr(route: &NetworkRoute) -> String {
    route.block.render()
}

#[test]
fn assigned_prefix_follows_the_client_device_not_the_server_device() {
    let server_tun_addresses = vec![
        NetworkAddress { prefix_len: 32, ..ipv4_address() },
        ipv6_address(),
    ];
    let mut tap = default_config();
    tap.device_type = "tap".into();
    let tap_network =
        network(NetworkFamilyMode::Dual, server_tun_addresses, "10.8.0.2", 24, "10.8.0.1", "[]");
    let tap_plan = plan(&tap, 1, &tap_network).unwrap();
    assert_eq!(tap_plan.addresses[0].prefix_len, 24);
    assert_eq!(tap_plan.addresses[1].prefix_len, 64);

    let server_tap_addresses = tap_plan.addresses;
    let mut tun = default_config();
    tun.device_type = "tun".into();
    let tun_network =
        network(NetworkFamilyMode::Dual, server_tap_addresses, "10.8.0.2", 24, "10.8.0.1", "[]");
    let tun_plan = plan(&tun, 2, &tun_network).unwrap();
    assert_eq!(tun_plan.addresses[0].prefix_len, 32);
    assert_eq!(tun_plan.addresses[1].prefix_len, 128);
    assert_eq!(tun_plan.addresses[0].on_link_prefix_len, 24);
    assert_eq!(tun_plan.addresses[1].on_link_prefix_len, 64);
}

#[test]
fn rejects_unreachable_pushed_dns_but_keeps_client_dns() {
    let mut dns = dns_config("tunnel");
    let subnet = Some((0x0a08_0002, 0xffff_ff00));
    assert!(planned_dns_servers(&dns, "203.0.113.53", "53", subnet, false, &Vec::new())
        .unwrap()
        .is_empty());
    dns.servers.push("203.0.113.53".into());
    assert_eq!(
        planned_dns_servers(&dns, "10.8.0.1", "53", subnet, false, &Vec::new())
            .unwrap()
            .first()
            .unwrap()
            .address,
        "203.0.113.53"
    );
}

#[test]
fn platform_fallback_is_used_only_after_an_unusable_push() {
    let dns = dns_config("tunnel");
    let fallback: Vec<String> = vec!["1.1.1.1".into(), "8.8.8.8".into()];
    let planned = planned_dns_servers(&dns, "", "53", None, true, &fallback).unwrap();
    assert_eq!(planned.len(), 2);
    assert_eq!(planned[1].address, "8.8.8.8");

    let pushed = planned_dns_servers(&dns, "10.8.0.1", "5353", None, true, &fallback).unwrap();
    assert_eq!(pushed.len(), 1);
    assert_eq!(pushed[0].port, 5353);

    let disabled = dns_config("off");
    assert!(planned_dns_servers(&disabled, "", "53", None, true, &fallback).unwrap().is_empty());
}

/// The sentence about the resolvers of a legacy plan.
fn dns_message(error: DnsError, config: &ClientDnsConfig, server: &str, platform: &Vec<String>) -> String {
    error.message(&DnsRequest {
        config,
        pushed: &Vec::new(),
        pushed_server: server,
        pushed_port: "53",
        platform,
    })
}

/// The sentence about a plan that is refused.
fn refusal(config: &ClientConfig, network: &HandshakeNetwork) -> String {
    plan(config, 1, network).unwrap_err().message(config, network, MAX_ROUTES)
}

#[test]
fn legacy_ipv4_plan_rejects_unreachable_ipv6_dns() {
    let mut dns = dns_config("tunnel");
    dns.servers.push("2001:4860:4860::8888".into());
    let error = planned_dns_servers(&dns, "", "53", None, true, &Vec::new()).unwrap_err();
    let message = dns_message(error, &dns, "", &Vec::new());
    assert!(message.contains("legacy IPv4 tunnel"));
    assert_eq!(
        message,
        "IPv6 client DNS server '2001:4860:4860::8888' is unreachable in a legacy IPv4 tunnel"
    );

    dns.servers.clear();
    let error =
        planned_dns_servers(&dns, "2001:4860:4860::8888", "53", None, true, &Vec::new()).unwrap_err();
    let message = dns_message(error, &dns, "2001:4860:4860::8888", &Vec::new());
    assert!(message.contains("legacy IPv4 tunnel"));
    assert_eq!(
        message,
        "IPv6 pushed DNS server '2001:4860:4860::8888' is unreachable in a legacy IPv4 tunnel"
    );

    let fallback: Vec<String> = vec!["2001:4860:4860::8888".into()];
    let error = planned_dns_servers(&dns, "", "53", None, true, &fallback).unwrap_err();
    assert_eq!(error, DnsError::Ipv6InLegacyTunnel { source: DnsSource::Platform, index: 0 });
    assert!(dns_message(error, &dns, "", &fallback).contains("legacy IPv4 tunnel"));
}

#[test]
fn filters_hostile_pushed_routes() {
    let routes = planned_pushed_routes(
        &pushed(r#"[{"cidr":"10.20.0.0/16","metric":42},{"cidr":"0.0.0.0/0"},{"cidr":"bad"}]"#),
        &"10.8.0.1".to_string(),
    )
    .unwrap();
    assert_eq!(routes.len(), 1);
    assert_eq!(cidr(&routes[0]), "10.20.0.0/16");
    assert_eq!(routes[0].metric, 42);

    let hostful =
        planned_pushed_routes(&pushed(r#"[{"cidr":"10.20.7.9/16"}]"#), &"10.8.0.1".to_string()).unwrap();
    assert!(hostful.is_empty());
}

#[test]
fn rejects_composite_default_routes() {
    let ipv4: Vec<PushedRoute> = (0u16..=255)
        .map(|octet| PushedRoute { cidr: format!("{octet}.0.0.0/8"), gateway: None, metric: None })
        .collect();
    let error = planned_pushed_routes(&ipv4, &"10.8.0.1".to_string()).unwrap_err();
    assert_eq!(error, RouteError::CoversFamily(NetworkAddressFamily::Ipv4));
    assert!(error.message("10.8.0.1").contains("entire IPv4"));

    let ipv6 = pushed(
        r#"[
            {"cidr":"::/3"},{"cidr":"2000::/3"},{"cidr":"4000::/3"},{"cidr":"6000::/3"},
            {"cidr":"8000::/3"},{"cidr":"a000::/3"},{"cidr":"c000::/3"},{"cidr":"e000::/3"}
        ]"#,
    );
    let error = planned_pushed_routes(&ipv6, &"fd71:e1::1".to_string()).unwrap_err();
    assert_eq!(error, RouteError::CoversFamily(NetworkAddressFamily::Ipv6));
    assert!(error.message("fd71:e1::1").contains("entire IPv6"));
}

#[test]
fn pushed_routes_are_filtered_to_the_negotiated_families() {
    let routes = pushed(
        r#"[
            {"cidr":"10.20.0.0/16","gateway":"10.8.0.1"},
            {"cidr":"2001:db8:20::/64","gateway":"fd71:e1::1"}
        ]"#,
    );
    let ipv4 = planned_pushed_routes_for_addresses(&routes, &ipv4_addresses()).unwrap();
    assert_eq!(ipv4.len(), 1);
    assert_eq!(cidr(&ipv4[0]), "10.20.0.0/16");

    let ipv6 = planned_pushed_routes_for_addresses(&routes, &vec![ipv6_address()]).unwrap();
    assert_eq!(ipv6.len(), 1);
    assert_eq!(cidr(&ipv6[0]), "2001:db8:20::/64");
}

#[test]
fn pushed_route_breadth_policy_is_family_aware() {
    let routes = planned_pushed_routes_for_addresses(
        &pushed(
            r#"[
                {"cidr":"fc00::/7"},
                {"cidr":"2000::/3"},
                {"cidr":"::/2"},
                {"cidr":"10.0.0.0/7"}
            ]"#,
        ),
        &vec![ipv6_address()],
    )
    .unwrap();
    assert_eq!(routes.iter().map(cidr).collect::<Vec<_>>(), ["fc00::/7", "2000::/3"]);
}

#[test]
fn ipv6_only_plan_ignores_ipv4_route_local_without_mixed_gateway() {
    let mut config = default_config();
    config.routing.route_local_networks = true;
    let made = plan(&config, 7, &ipv6_network()).unwrap();
    assert!(made.routes.iter().all(|route| !cidr(route).contains('.')));
}

#[test]
fn explicit_include_requires_an_active_tunnel_address_of_the_same_family() {
    let mut ipv6_include = default_config();
    ipv6_include.routing.include_routes.push("2001:db8::/32".into());
    let error = plan(&ipv6_include, 8, &ipv4_network("[]")).unwrap_err();
    assert_eq!(
        error,
        PlanError::InactiveInclude { route: 0, family: NetworkAddressFamily::Ipv6 }
    );
    assert!(refusal(&ipv6_include, &ipv4_network("[]")).contains("active IPv6 tunnel address"));

    let mut ipv4_include = default_config();
    ipv4_include.routing.include_routes.push("192.0.2.0/24".into());
    let error = plan(&ipv4_include, 9, &ipv6_network()).unwrap_err();
    assert_eq!(
        error,
        PlanError::InactiveInclude { route: 0, family: NetworkAddressFamily::Ipv4 }
    );
    assert!(refusal(&ipv4_include, &ipv6_network()).contains("active IPv4 tunnel address"));
}

#[test]
fn network_plan_keeps_server_routes_distinct_from_client_routes() {
    let mut config = default_config();
    config.routing.include_routes.push("192.0.2.0/24".into());
    let made = plan(&config, 7, &ipv4_network(r#"[{"cidr":"10.20.0.0/16"}]"#)).unwrap();
    assert_eq!(made.routes.len(), 2);
    assert_eq!(
        made.pushed_routes.iter().map(|block| block.render()).collect::<Vec<_>>(),
        ["10.20.0.0/16"]
    );
}

#[test]
fn split_tunnel_dns_gets_an_explicit_host_route() {
    let mut config = default_config();
    config.dns.mode = "tunnel".into();
    config.dns.servers.push("203.0.113.53".into());
    let made = plan(&config, 7, &ipv4_network("[]")).unwrap();
    assert!(made
        .routes
        .iter()
        .any(|route| cidr(route) == "203.0.113.53/32" && route.gateway == "10.8.0.1"));
}

#[test]
fn network_plan_rejects_an_excluded_tunnel_dns_server_in_both_families() {
    let mut ipv4_config = default_config();
    ipv4_config.dns.mode = "tunnel".into();
    ipv4_config.dns.servers.push("203.0.113.53".into());
    ipv4_config.routing.exclude_routes.push("203.0.113.53/32".into());
    let error = plan(&ipv4_config, 7, &ipv4_network("[]")).unwrap_err();
    assert_eq!(error, PlanError::DnsExcluded { server: 0, exclude: 0 });
    assert!(refusal(&ipv4_config, &ipv4_network("[]")).contains("covered by exclude route"));

    let mut ipv6_config = default_config();
    ipv6_config.dns.mode = "tunnel".into();
    ipv6_config.dns.servers.push("2001:db8:53::1".into());
    ipv6_config.routing.exclude_routes.push("2001:db8:53::1/128".into());
    let error = plan(&ipv6_config, 8, &ipv6_network()).unwrap_err();
    assert_eq!(error, PlanError::DnsExcluded { server: 0, exclude: 0 });
    assert!(refusal(&ipv6_config, &ipv6_network()).contains("covered by exclude route"));
}

#[test]
fn exclusions_cannot_override_the_negotiated_tunnel_gateway() {
    let mut broad_ipv4 = default_config();
    broad_ipv4.routing.exclude_routes.push("10.0.0.0/8".into());
    assert!(plan(&broad_ipv4, 1, &ipv4_network("[]")).is_ok());
    for exclusion in ["10.8.0.0/24", "10.8.0.1/32"] {
        let mut config = default_config();
        config.routing.exclude_routes.push(exclusion.into());
        let error = plan(&config, 2, &ipv4_network("[]")).unwrap_err();
        assert_eq!(error, PlanError::GatewayExcluded { address: 0, exclude: 0 });
        assert!(refusal(&config, &ipv4_network("[]")).contains("tunnel gateway"));
    }

    let mut broad_ipv6 = default_config();
    broad_ipv6.routing.exclude_routes.push("fc00::/7".into());
    assert!(plan(&broad_ipv6, 3, &ipv6_network()).is_ok());
    for exclusion in ["fd71:e1::/64", "fd71:e1::1/128"] {
        let mut config = default_config();
        config.routing.exclude_routes.push(exclusion.into());
        let error = plan(&config, 4, &ipv6_network()).unwrap_err();
        assert_eq!(error, PlanError::GatewayExcluded { address: 0, exclude: 0 });
        assert!(refusal(&config, &ipv6_network()).contains("tunnel gateway"));
    }
}

#[test]
fn broad_exclude_keeps_tunnel_dns_on_a_more_specific_host_route() {
    let mut config = default_config();
    config.dns.mode = "tunnel".into();
    config.dns.servers.push("203.0.113.53".into());
    config.routing.exclude_routes.push("203.0.113.0/24".into());
    config.routing.mode = "full-tunnel".into();
    let made = plan(&config, 9, &ipv4_network("[]")).unwrap();
    assert!(made
        .routes
        .iter()
        .any(|route| cidr(route) == "203.0.113.53/32" && route.metric == 50));
}

#[test]
fn plan_exactly_subtracts_broader_ipv4_and_ipv6_routes() {
    let mut config = default_config();
    config.dns.mode = "off".into();
    config.routing.include_routes.push("10.0.0.0/8".into());
    config.routing.exclude_routes.push("10.1.0.0/16".into());
    config.routing.include_routes.push("2001:db8::/32".into());
    config.routing.exclude_routes.push("2001:db8:53::/48".into());
    let addresses = vec![NetworkAddress { prefix_len: 32, ..ipv4_address() }, ipv6_address()];
    let made = plan(
        &config,
        10,
        &network(NetworkFamilyMode::Dual, addresses, "10.8.0.2", 24, "10.8.0.1", "[]"),
    )
    .unwrap();
    let excluded_v4 = NumericCidr::parse("10.1.0.0/16").unwrap();
    let excluded_v6 = NumericCidr::parse("2001:db8:53::/48").unwrap();
    assert_eq!(made.routes.len(), 24);
    assert!(made.routes.iter().all(|route| {
        let value = NumericCidr::parse(&cidr(route)).unwrap();
        !value.overlaps(excluded_v4) && !value.overlaps(excluded_v6)
    }));
    for allowed in ["10.0.1.1/32", "10.2.0.1/32", "2001:db8:52::1/128", "2001:db8:54::1/128"] {
        let host = NumericCidr::parse(allowed).unwrap();
        assert!(made
            .routes
            .iter()
            .any(|route| NumericCidr::parse(&cidr(route)).unwrap().overlaps(host)));
    }
}

#[test]
fn a_fully_excluded_route_is_absent_but_pushed_provenance_is_retained() {
    let mut config = default_config();
    config.dns.mode = "off".into();
    config.routing.exclude_routes.push("10.0.0.0/8".into());
    let made = plan(&config, 11, &ipv4_network(r#"[{"cidr":"10.20.0.0/16"}]"#)).unwrap();
    assert!(made.routes.is_empty());
    assert_eq!(
        made.pushed_routes.iter().map(|block| block.render()).collect::<Vec<_>>(),
        ["10.20.0.0/16"]
    );
}

#[test]
fn full_tunnel_refuses_tunnel_dns_without_a_resolver() {
    let mut config = default_config();
    config.dns.mode = "tunnel".into();
    config.routing.mode = "full-tunnel".into();
    let error = plan(&config, 7, &ipv4_network("[]")).unwrap_err();
    assert_eq!(error, PlanError::NoResolver);
}

fn data_plane() -> DataPlaneConfig {
    DataPlaneConfig {
        padding: PaddingConfig {
            enabled: false,
            min_bytes: 0,
            max_bytes: 0,
            randomize: false,
            probability: "0".into(),
        },
        heartbeat: HeartbeatConfig { enabled: false, interval_ms: 0, data_size_bytes: 0, jitter_ms: 0 },
        traffic_normalization: TrafficNormalizationConfig { enabled: false, round_sizes: Vec::new() },
        traffic_shaping: TrafficShapingConfig {
            enabled: false,
            idle_gap_mean_ms: 0,
            idle_gap_min_ms: 0,
            idle_gap_max_ms: 0,
            budget_bytes_per_sec: 0,
            min_size: 0,
            max_size: 0,
            stealth: false,
            stealth_rate_mbps: 0,
        },
    }
}

#[test]
fn server_push_journal_covers_every_negotiated_group_and_rejection() {
    let mut config = default_config();
    config.dns.mode = "tunnel".into();
    config.mtu = 0;
    let routes = r#"[{"cidr":"10.20.0.0/16","metric":42},{"cidr":"0.0.0.0/0"}]"#;
    let mut source = ipv4_network(routes);
    source.dns_ip = "10.8.0.1".into();
    let mut made = plan(&config, 7, &source).unwrap();
    made.max_streams = 4;
    made.adaptive = true;
    let pushed = PushedObf { data_plane: data_plane(), recordizer_policy: Some("prefer".into()) };
    let lines = server_push_log_lines(
        &config,
        &made,
        1400,
        "10.8.0.1",
        "53",
        routes,
        Some(&pushed),
        &data_plane(),
        false,
        MAX_ROUTES,
    );

    for expected in [
        "server push: ip=10.8.0.2/24",
        "mtu 1400 ACCEPTED",
        "DNS 10.8.0.1:53 ACCEPTED",
        "route 10.20.0.0/16 ACCEPTED",
        "1 route(s) REJECTED",
        "padding APPLIED",
        "heartbeat APPLIED",
        "normalization APPLIED",
        "shaping APPLIED",
        "multipath max_streams=4 adaptive=true",
        "NetworkPlan 7:",
        "Packet recordizer: PACKET_MUX_V1 active on TCP (policy=prefer)",
    ] {
        assert!(
            lines.iter().any(|line| line.contains(expected)),
            "missing {expected:?} in {lines:#?}"
        );
    }
    assert!(lines.iter().all(|line| line.len() <= 1_024));

    let legacy_lines = server_push_log_lines(
        &config, &made, 1400, "10.8.0.1", "53", routes, None, &data_plane(), false, MAX_ROUTES,
    );
    assert!(legacy_lines.iter().any(|line| {
        line == "Packet recordizer: legacy packet-per-record on TCP (policy=not advertised)"
    }));
}

#[test]
fn prefixes_and_masks() {
    assert_eq!(prefix_to_netmask(24), 0xffff_ff00);
    assert_eq!(prefix_to_netmask(1), 0x8000_0000);
    assert_eq!(prefix_to_netmask(32), u32::MAX);
    assert_eq!(normalized_prefix(24), 24);
    let mut config = default_config();
    assert!(!is_full_tunnel(&config));
    config.routing.mode = "full-tunnel".into();
    assert!(is_full_tunnel(&config));
}

#[test]
fn blocks_render_as_they_parse() {
    for text in ["10.20.0.0/16", "2001:db8:20::/64", "0.0.0.0/0", "::/0", "203.0.113.53/32"] {
        assert_eq!(NumericCidr::parse(text).unwrap().render(), text);
    }
    assert_eq!(NumericCidr::parse("10.20.7.9/16").map(|block| block.render()), Some("10.20.0.0/16".into()));
    assert!(NumericCidr::parse("bad").is_none());
    assert_eq!(IpAddress::parse("10.8.0.1"), Some(IpAddress::V4(0x0a08_0001)));
    assert_eq!(IpAddress::parse("::1"), Some(IpAddress::V6(1)));
    assert_eq!(IpAddress::parse("10.8.0"), None);
}

#[test]
fn breadth_limits_of_single_pushed_routes() {
    assert!(!pushed_route_prefix_is_allowed(IpAddress::V4(0), 7));
    assert!(pushed_route_prefix_is_allowed(IpAddress::V4(0), 8));
    assert!(!pushed_route_prefix_is_allowed(IpAddress::V6(0), 2));
    assert!(pushed_route_prefix_is_allowed(IpAddress::V6(0), 3));
}

#[test]
fn refused_plans_name_their_reason() {
    let mut config = default_config();
    config.routing.exclude_routes.push("nonsense".into());
    assert_eq!(
        plan(&config, 1, &ipv4_network("[]")).unwrap_err(),
        PlanError::InvalidExclude { exclude: 0 }
    );

    let mut config = default_config();
    config.routing.include_routes.push("nonsense".into());
    assert_eq!(
        plan(&config, 1, &ipv4_network("[]")).unwrap_err(),
        PlanError::InvalidInclude { route: 0 }
    );

    let mut config = default_config();
    config.routing.ipv6 = ClientIpv6Policy::Off;
    assert_eq!(plan(&config, 1, &ipv6_network()).unwrap_err(), PlanError::Ipv6ThoughOff);
    config.routing.ipv6 = ClientIpv6Policy::Required;
    assert_eq!(
        plan(&config, 1, &ipv4_network("[]")).unwrap_err(),
        PlanError::NoIpv6ThoughRequired
    );

    let config = default_config();
    let mut broken = ipv4_network("[]");
    broken.addresses[0].gateway = Some("no gateway".into());
    assert_eq!(
        plan(&config, 1, &broken).unwrap_err(),
        PlanError::InvalidGateway { address: 0 }
    );

    let mut config = default_config();
    config.routing.include_routes.push("10.0.0.0/8".into());
    config.routing.exclude_routes.push("10.9.0.0/16".into());
    assert_eq!(
        build_network_plan(&config, 1, &ipv4_network("[]"), 3).unwrap_err(),
        PlanError::TooManyRoutes
    );
}

#[test]
fn sentences_name_what_was_refused() {
    let network = ipv4_network("[]");
    let mut config = default_config();
    config.routing.exclude_routes.push("10.8.0.0/24".into());
    assert_eq!(
        refusal(&config, &network),
        "tunnel gateway '10.8.0.1' is covered by exclude route '10.8.0.0/24' at or above the on-link /24 prefix"
    );
    config.routing.exclude_routes = vec!["nonsense".into()];
    assert_eq!(refusal(&config, &network), "invalid exclude route 'nonsense'");
    let mut bare = ipv4_network("[]");
    bare.addresses[0].gateway = None;
    assert_eq!(refusal(&config, &bare), "invalid route CIDR 'nonsense'");
    config.routing.exclude_routes = vec!["9.9.9.9/32".into()];
    config.dns.servers = vec!["1.1.1.1".into(), "9.9.9.9".into()];
    assert_eq!(
        refusal(&config, &network),
        "tunnel DNS server '9.9.9.9' is covered by exclude route '9.9.9.9/32'; remove the exclusion or choose a resolver outside it"
    );
    config.dns.servers = vec!["resolver".into()];
    assert_eq!(refusal(&config, &network), "invalid client DNS server 'resolver'");
    let mut config = default_config();
    config.routing.include_routes.push("2001:db8::/32".into());
    assert_eq!(
        refusal(&config, &network),
        "include route '2001:db8::/32' requires an active IPv6 tunnel address; refusing to leak explicitly included traffic through the physical network"
    );
    config.routing.include_routes = vec!["nonsense".into()];
    assert_eq!(refusal(&config, &network), "invalid route CIDR 'nonsense'");
    let config = default_config();
    let mut broken = ipv4_network("[]");
    broken.mtu = -3;
    assert_eq!(refusal(&config, &broken), "invalid tunnel MTU -3");
    broken.mtu = 1400;
    broken.addresses[0].gateway = Some("nowhere".into());
    assert_eq!(refusal(&config, &broken), "invalid tunnel gateway 'nowhere'");
    let mut pushing = ipv4_network("[]");
    pushing.dns_ip = "10.8.0.1".into();
    pushing.dns_port = "+0".into();
    assert_eq!(refusal(&config, &pushing), "invalid pushed DNS port '0'");
    pushing.dns_port = "dns".into();
    assert_eq!(refusal(&config, &pushing), "invalid pushed DNS port 'dns'");
    pushing.dns_servers = vec![NetworkDns { address: "resolver".into(), port: 53 }];
    assert_eq!(refusal(&config, &pushing), "invalid DNS server 'resolver:53'");
    pushing.dns_servers[0] = NetworkDns { address: "10.8.0.1".into(), port: 0 };
    assert_eq!(refusal(&config, &pushing), "invalid DNS server '10.8.0.1:0'");
    pushing.dns_servers[0] = NetworkDns { address: "2001:db8::53".into(), port: 53 };
    assert_eq!(
        refusal(&config, &pushing),
        "DNS server '2001:db8::53' uses a family not present in the negotiated tunnel"
    );
    pushing.dns_servers =
        (0..9).map(|_| NetworkDns { address: "10.8.0.1".into(), port: 53 }).collect();
    assert_eq!(refusal(&config, &pushing), "network plan contains too many DNS servers");
    assert_eq!(
        PlanError::TooManyRoutes.message(&config, &network, 4096),
        "route exclusions expand the NetworkPlan beyond 4096 routes"
    );
    let mut off = default_config();
    off.routing.ipv6 = ClientIpv6Policy::Off;
    assert_eq!(
        refusal(&off, &ipv6_network()),
        "server returned IPv6 although the client policy is ipv6=off"
    );
    off.routing.ipv6 = ClientIpv6Policy::Required;
    assert_eq!(
        refusal(&off, &network),
        "server returned no IPv6 address although the client policy is required"
    );
    off.routing.ipv6 = ClientIpv6Policy::Auto;
    off.routing.mode = "full-tunnel".into();
    assert!(refusal(&off, &network).starts_with("full-tunnel DNS is set to tunnel mode"));
    assert_eq!(
        RouteError::NoGateway(NetworkAddressFamily::Ipv6).message(""),
        "no tunnel gateway for IPv6 route"
    );
    let error = planned_pushed_routes(&Vec::new(), &"here".to_string()).unwrap_err();
    assert_eq!(error.message("here"), "invalid default tunnel gateway 'here'");
}

#[test]
fn pushed_resolvers_need_their_family_and_a_port() {
    let mut source = ipv4_network("[]");
    source.dns_servers = vec![NetworkDns { address: "2001:db8::53".into(), port: 53 }];
    assert_eq!(
        plan(&default_config(), 1, &source).unwrap_err(),
        PlanError::Dns(DnsError::FamilyAbsent { source: DnsSource::Pushed, index: 0 })
    );
    source.dns_servers = vec![NetworkDns { address: "10.8.0.1".into(), port: 0 }];
    assert_eq!(
        plan(&default_config(), 1, &source).unwrap_err(),
        PlanError::Dns(DnsError::ZeroPort { source: DnsSource::Pushed, index: 0 })
    );
}

#[test]
fn log_lines_are_clean_and_bounded() {
    assert_eq!(log_value("a\nb\u{7f}"), "a b ");
    let long = "x".repeat(5000);
    assert!(sanitize_log_line(&long).len() <= 1024);
    assert_eq!(sanitize_log_line(&"one\r\ntwo".to_string()), "one  two");
}

#[test]
fn blank_route_texts_stand_for_none() {
    for text in ["", "  ", "[]", "\n[]\t", "\u{3000}\u{2009}"] {
        assert!(pushes_no_routes(text), "{text:?}");
        assert_eq!(trim(text), text.trim());
    }
    for text in ["[ ]", "{}", " x y\u{a0}", "\u{200b}"] {
        assert!(!pushes_no_routes(text), "{text:?}");
        assert_eq!(trim(text), text.trim());
    }
    assert_eq!(pushed_routes_note("[]"), None);
    assert_eq!(pushed_routes_note(""), None);
    assert_eq!(
        pushed_routes_note(r#"[{"cidr":"10.0.0.0/8"},{"cidr":"10.1.0.0/16"}]"#).as_deref(),
        Some("Server pushed 2 route(s)")
    );
    assert_eq!(pushed_routes_note("[1]").as_deref(), Some("Server pushed 0 route(s)"));
}
