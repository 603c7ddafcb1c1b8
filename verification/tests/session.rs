use qeli::auth_flow::{
    build_client_auth_plaintext, check_udp_client_hello_flight, choose_identity_check,
    handshake_framing, seals_session_id, static_binding, AuthEvent, AuthFailure, AuthFlow,
    AuthStep, FlightError, HandshakeFraming, IdentityCheck, PinnedKey, StaticKeyError,
};
use qeli::network::{NetworkAddress, NetworkAddressFamily, NetworkDns, NetworkFamilyMode};
use qeli::randomness::{
    challenge_from, draw, draw_index, draw_path_challenge, draw_session_id, draw_tokens,
    reservoir_index, token_from, tokens_from,
};
use qeli::session::{
    effective_mtu, parse_auth_ok, parse_session_id, AuthError, AuthLimits, AuthOk, DecodedMembers,
};

fn limits() -> AuthLimits {
    AuthLimits { min_mtu: 576, max_mtu: 9000, refused_ipv6: vec![1] }
}

fn nothing() -> DecodedMembers {
    DecodedMembers { family_mode: None, addresses: None, dns_servers: None, obfuscation: None }
}

fn legacy(json: &str) -> Result<AuthOk, AuthError> {
    parse_auth_ok(&format!("OK:{json}"), nothing(), &limits())
}

#[test]
fn legacy_grants_are_read() {
    let auth = legacy(
        r#"{"client_ip":"10.8.0.2","server_ip":"10.8.0.1","prefix":24,"mtu":1400,
            "dns":"10.8.0.1","dns_port":"5353","session_token":"token","max_streams":4,
            "multipath_adaptive":true,"routes":["10.0.0.0/8"],
            "udp_roaming_session":"00000000000000ff"}"#,
    )
    .unwrap();
    assert_eq!((auth.client_ip.as_str(), auth.server_ip.as_str()), ("10.8.0.2", "10.8.0.1"));
    assert_eq!((auth.prefix, auth.mtu), (24, 1400));
    assert_eq!((auth.dns_ip.as_str(), auth.dns_port.as_str()), ("10.8.0.1", "5353"));
    assert_eq!(auth.dns_servers.len(), 1);
    assert_eq!(auth.dns_servers[0].port, 5353);
    assert_eq!(auth.routes_json, r#"["10.0.0.0/8"]"#);
    assert_eq!((auth.session_token.as_str(), auth.max_streams, auth.adaptive), ("token", 4, true));
    assert_eq!(auth.udp_roaming_session_id, Some(255));
    assert_eq!(auth.family_mode, NetworkFamilyMode::Ipv4);
    assert_eq!(auth.addresses.len(), 1);
}

#[test]
fn malformed_grants_are_refused() {
    assert_eq!(
        parse_auth_ok("ERR:no", nothing(), &limits()).err(),
        Some(AuthError::Rejected)
    );
    assert_eq!(parse_auth_ok("O", nothing(), &limits()).err(), Some(AuthError::Rejected));
    assert_eq!(legacy("{").err(), Some(AuthError::MalformedJson));
    assert_eq!(legacy(r#"{"family_mode":"dual"}"#).err(), Some(AuthError::PartialPlan));
    assert_eq!(legacy(r#"{"addresses":[]}"#).err(), Some(AuthError::PartialPlan));
    assert_eq!(legacy("{}").err(), Some(AuthError::MissingClientIp));
    assert_eq!(legacy(r#"{"client_ip":"::1"}"#).err(), Some(AuthError::ClientIpNotIpv4));
    assert_eq!(
        legacy(r#"{"client_ip":"10.0.0.1","server_ip":"::1"}"#).err(),
        Some(AuthError::ServerIpNotIpv4)
    );
    assert_eq!(
        legacy(r#"{"client_ip":"10.0.0.1","server_ip":"10.0.0.2","udp_roaming_session":"x"}"#).err(),
        Some(AuthError::InvalidRoamingSession)
    );
    assert_eq!(
        legacy(
            r#"{"client_ip":"10.0.0.1","server_ip":"10.0.0.2","udp_roaming_session":"0000000000000000"}"#
        )
        .err(),
        Some(AuthError::ZeroRoamingSession)
    );
}

#[test]
fn sentences_name_the_refused_member() {
    let said = |response: &str| {
        let error = parse_auth_ok(response, nothing(), &limits()).unwrap_err();
        error.message(response, &nothing(), "detail")
    };
    assert_eq!(said("ERR:no"), "auth failed: ERR:no");
    assert_eq!(said("OK:{"), "malformed auth OK json: detail");
    assert_eq!(said("OK:{}"), "auth OK missing client_ip");
    assert_eq!(
        said(r#"OK:{"addresses":[]}"#),
        "auth OK NetworkPlan v2 must contain both family_mode and addresses"
    );
    assert_eq!(
        said(r#"OK:{"client_ip":"a\nb"}"#),
        "auth OK client_ip \"a\\nb\" is not a valid IPv4 address - refusing to configure the tunnel with it"
    );
    assert_eq!(
        said(r#"OK:{"client_ip":"10.0.0.1","server_ip":"::1"}"#),
        "auth OK server_ip \"::1\" is not a valid IPv4 address - refusing to install routes through it"
    );
    assert_eq!(
        said(r#"OK:{"client_ip":"10.0.0.1","udp_roaming_session":"x"}"#),
        "auth OK UDP roaming session id must be exactly 16 hexadecimal characters"
    );
    assert_eq!(
        said(r#"OK:{"client_ip":"10.0.0.1","udp_roaming_session":"0000000000000000"}"#),
        "auth OK UDP roaming session id must be non-zero"
    );

    let mut gateway = v4();
    gateway.gateway = Some("2001:DB8:0::1".into());
    let decoded = DecodedMembers {
        addresses: Some(vec![gateway]),
        dns_servers: Some(vec![NetworkDns { address: "resolver".into(), port: 53 }]),
        ..nothing()
    };
    let about = |error: AuthError| error.message("", &decoded, "detail");
    assert_eq!(
        about(AuthError::GatewayFamily(0)),
        "auth OK address '10.8.0.2' and gateway '2001:db8::1' use different families"
    );
    assert_eq!(about(AuthError::InvalidAddress(0)), "invalid auth OK tunnel address '10.8.0.2'");
    assert_eq!(
        about(AuthError::AddressMetadata(0)),
        "invalid auth OK address metadata for '10.8.0.2'"
    );
    assert_eq!(
        about(AuthError::InvalidGateway(0)),
        "invalid auth OK tunnel gateway '2001:DB8:0::1'"
    );
    assert_eq!(
        about(AuthError::DuplicateFamily(NetworkAddressFamily::Ipv6)),
        "auth OK contains duplicate IPv6 addresses"
    );
    assert_eq!(
        about(AuthError::MtuBelowIpv6Minimum(1279)),
        "auth OK IPv6 plan MTU 1279 is below the IPv6 minimum 1280"
    );
    assert_eq!(about(AuthError::InvalidDnsServer(0)), "invalid auth OK DNS server 'resolver:53'");
    assert_eq!(about(AuthError::ZeroDnsPort(0)), "invalid auth OK DNS server 'resolver:0'");
    assert_eq!(
        about(AuthError::DnsFamilyAbsent(0)),
        "auth OK DNS server 'resolver' uses a family absent from the tunnel"
    );
    assert_eq!(about(AuthError::InvalidFamilyMode), "invalid auth OK family_mode: detail");
    assert_eq!(about(AuthError::InvalidObfuscation), "invalid auth OK obfuscation: detail");
    assert_eq!(about(AuthError::RefusedAddress(0)), "detail");
}

fn v4() -> NetworkAddress {
    NetworkAddress {
        address: "10.8.0.2".into(),
        prefix_len: 24,
        on_link_prefix_len: 24,
        gateway: Some("10.8.0.1".into()),
        family: NetworkAddressFamily::Ipv4,
    }
}

fn v6() -> NetworkAddress {
    NetworkAddress {
        address: "2001:db8::2".into(),
        prefix_len: 64,
        on_link_prefix_len: 64,
        gateway: None,
        family: NetworkAddressFamily::Ipv6,
    }
}

fn described(
    mode: NetworkFamilyMode,
    addresses: Vec<NetworkAddress>,
    dns_servers: Vec<NetworkDns>,
    mtu: i32,
) -> Result<AuthOk, AuthError> {
    let first = &addresses[0];
    let json = format!(
        r#"OK:{{"family_mode":"m","addresses":[],"client_ip":"{}","server_ip":"{}","prefix":{},"mtu":{},"dns_servers":[]}}"#,
        first.address,
        first.gateway.clone().unwrap_or_default(),
        first.prefix_len,
        mtu
    );
    let decoded = DecodedMembers {
        family_mode: Some(mode),
        addresses: Some(addresses),
        dns_servers: Some(dns_servers),
        obfuscation: None,
    };
    parse_auth_ok(&json, decoded, &limits())
}

#[test]
fn self_described_grants_are_held_to_their_families() {
    let dns = || vec![NetworkDns { address: "2001:db8::53".into(), port: 53 }];
    let auth = described(NetworkFamilyMode::Dual, vec![v4(), v6()], dns(), 1400).unwrap();
    assert_eq!((auth.addresses.len(), auth.dns_servers.len()), (2, 1));
    assert_eq!(auth.family_mode, NetworkFamilyMode::Dual);
    assert_eq!(
        described(NetworkFamilyMode::Ipv4, vec![v4(), v6()], dns(), 1400).err(),
        Some(AuthError::FamilyModeMismatch)
    );
    assert_eq!(
        described(NetworkFamilyMode::Dual, vec![v4(), v6()], dns(), 1279).err(),
        Some(AuthError::MtuBelowIpv6Minimum(1279))
    );
    assert_eq!(
        described(NetworkFamilyMode::Ipv4, vec![v4(), v4()], Vec::new(), 1400).err(),
        Some(AuthError::DuplicateFamily(NetworkAddressFamily::Ipv4))
    );
    assert_eq!(
        described(NetworkFamilyMode::Ipv4, vec![v4()], dns(), 1400).err(),
        Some(AuthError::DnsFamilyAbsent(0))
    );
    let zero = vec![NetworkDns { address: "10.8.0.1".into(), port: 0 }];
    assert_eq!(
        described(NetworkFamilyMode::Ipv4, vec![v4()], zero, 1400).err(),
        Some(AuthError::ZeroDnsPort(0))
    );
    let mut broken = v4();
    broken.gateway = Some("2001:db8::1".into());
    assert_eq!(
        described(NetworkFamilyMode::Ipv4, vec![broken], Vec::new(), 1400).err(),
        Some(AuthError::GatewayFamily(0))
    );
    let mut loopback = v6();
    loopback.address = "::1".into();
    assert_eq!(
        described(NetworkFamilyMode::Ipv6, vec![loopback], Vec::new(), 1400).err(),
        Some(AuthError::RefusedAddress(0))
    );
}

#[test]
fn mtus_and_session_ids() {
    assert_eq!(effective_mtu(1300, 1400, 1350), 1300);
    assert_eq!(effective_mtu(0, 1400, 1350), 1400);
    assert_eq!(effective_mtu(-1, 0, 1350), 1350);
    assert_eq!(parse_session_id("00000000000000ff"), Some(255));
    assert_eq!(parse_session_id("ffffffffffffffff"), Some(u64::MAX));
    assert_eq!(parse_session_id("ff"), None);
    assert_eq!(parse_session_id("00000000000000fg"), None);
}

#[test]
fn handshakes_run_in_order() {
    assert_eq!(handshake_framing("plain"), HandshakeFraming::Raw);
    assert_eq!(handshake_framing("reality-tls"), HandshakeFraming::Raw);
    assert_eq!(handshake_framing("obfs"), HandshakeFraming::FakeTls);
    let mut flow = AuthFlow::new(HandshakeFraming::FakeTls);
    flow.advance(AuthEvent::HelloSent(vec![1]));
    flow.advance(AuthEvent::ServerHello(vec![2], true));
    flow.advance(AuthEvent::Received(vec![0x14, 3]));
    flow.advance(AuthEvent::Received(vec![4]));
    flow.advance(AuthEvent::Received(vec![5]));
    flow.advance(AuthEvent::Received(vec![6]));
    assert_eq!(flow.step(), AuthStep::DeriveKeys);
    assert_eq!(flow.transcript(), &vec![vec![1], vec![2], vec![4], vec![5]]);
    for step in [
        AuthStep::ReadProof,
        AuthStep::VerifyIdentity,
        AuthStep::ConfirmKey,
        AuthStep::SendCredentials,
        AuthStep::ReadResponse,
        AuthStep::Done,
    ] {
        flow.advance(AuthEvent::Performed(true));
        assert_eq!(flow.step(), step);
    }
    flow.advance(AuthEvent::WireFailed);
    assert_eq!(flow.step(), AuthStep::Done);

    let mut flow = AuthFlow::new(HandshakeFraming::Raw);
    flow.advance(AuthEvent::HelloSent(vec![1]));
    flow.advance(AuthEvent::Received(vec![2; 32]));
    assert_eq!(flow.step(), AuthStep::DeriveKeys);
    flow.advance(AuthEvent::Performed(true));
    flow.advance(AuthEvent::Performed(true));
    flow.advance(AuthEvent::Performed(false));
    assert_eq!(flow.step(), AuthStep::Failed(AuthFailure::Identity));
    flow.advance(AuthEvent::Performed(true));
    assert_eq!(flow.step(), AuthStep::Failed(AuthFailure::Identity));

    let failed = |events: Vec<AuthEvent>| {
        let mut flow = AuthFlow::new(HandshakeFraming::FakeTls);
        for event in events {
            flow.advance(event);
        }
        flow.step()
    };
    let hello = || AuthEvent::HelloSent(vec![1]);
    assert_eq!(
        failed(vec![hello(), AuthEvent::ServerHello(vec![2], false)]),
        AuthStep::Failed(AuthFailure::InvalidServerHello)
    );
    assert_eq!(
        failed(vec![hello(), AuthEvent::ServerHello(vec![2], true), AuthEvent::Received(vec![0x16])]),
        AuthStep::Failed(AuthFailure::MissingChangeCipherSpec)
    );
    assert_eq!(failed(vec![hello(), hello()]), AuthStep::Failed(AuthFailure::OutOfOrder));
    assert_eq!(failed(vec![AuthEvent::WireFailed]), AuthStep::Failed(AuthFailure::Wire));
}

#[test]
fn pinned_keys_bind_and_verify() {
    let key = PinnedKey::Key([7; 32]);
    assert_eq!(static_binding(false, PinnedKey::Invalid), Ok(None));
    assert_eq!(static_binding(true, PinnedKey::Absent), Err(StaticKeyError::NoKeyPinned));
    assert_eq!(static_binding(true, PinnedKey::Invalid), Err(StaticKeyError::InvalidKey));
    assert_eq!(static_binding(true, PinnedKey::Key([0; 32])), Err(StaticKeyError::ZeroKey));
    assert_eq!(static_binding(true, key), Ok(Some([7; 32])));
    assert!(matches!(choose_identity_check(64, PinnedKey::Absent), IdentityCheck::FullMessage));
    assert!(matches!(choose_identity_check(32, key), IdentityCheck::ProofOnly(k) if k == [7; 32]));
    assert!(matches!(choose_identity_check(32, PinnedKey::Invalid), IdentityCheck::NoKeyPinned));
    assert!(seals_session_id(Some("ab"), key));
    assert!(!seals_session_id(Some(""), key));
    assert!(!seals_session_id(Some("ab"), PinnedKey::Absent));
    assert_eq!(check_udp_client_hello_flight("udp", "obfs"), Ok(()));
    assert_eq!(check_udp_client_hello_flight("tcp", "obfs"), Err(FlightError::NotUdp));
    assert_eq!(check_udp_client_hello_flight("udp", "plain"), Err(FlightError::UnsupportedMode));

    let plaintext = build_client_auth_plaintext(None, &[1, 2], Some(&vec![3]), "us\u{e9}r", "p:w");
    assert_eq!(&plaintext[..33], &[0; 33]);
    assert_eq!(&plaintext[33..36], &[1, 2, 3]);
    assert_eq!(&plaintext[36..], "us\u{e9}r:p:w".as_bytes());
    let plaintext = build_client_auth_plaintext(Some([9; 32]), &[], None, "u", "");
    assert_eq!(&plaintext[..32], &[9; 32]);
    assert_eq!(&plaintext[32..], b"\0u:");
}

#[test]
fn draws_make_places_names_and_challenges() {
    assert_eq!(reservoir_index(&vec![5, 3, 7]), Some(0));
    assert_eq!(reservoir_index(&vec![5, 4, 7]), Some(1));
    assert_eq!(reservoir_index(&vec![5, 4, 9]), Some(2));
    assert_eq!(reservoir_index(&Vec::new()), None);
    assert_eq!(draw(3).len(), 3);
    assert!(draw_index(10).unwrap() < 10);
    assert_eq!(draw_index(0), None);
    let name = draw_session_id();
    assert_ne!(name, 0);
    assert_ne!(name, draw_session_id());
    assert_eq!(challenge_from(0, 0), None);
    assert_eq!(
        challenge_from(0x0102, 3),
        Some(vec![2, 1, 0, 0, 0, 0, 0, 0, 3, 0, 0, 0, 0, 0, 0, 0])
    );
    let first = draw_path_challenge();
    assert_eq!(first.len(), 16);
    assert!(first.iter().any(|byte| *byte != 0));
    assert_ne!(first, draw_path_challenge());
    assert_ne!(draw(4), draw(4));
    assert_eq!(token_from(5, 7), (7 << 64) + 5);
    assert_eq!(tokens_from(&vec![1, 2, 3, 4, 5]), [(2 << 64) + 1, (4 << 64) + 3]);
    assert_eq!(draw_tokens(3).len(), 3);
    assert_ne!(draw_tokens(3), draw_tokens(3));
}
