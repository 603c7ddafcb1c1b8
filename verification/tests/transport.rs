use qeli::buffer_pool::{BufferPool, PoolError};
use qeli::carrier::{
    canonical_carrier_ip, desktop_bind_address, linux_candidate_bind_address,
    resolve_ip_candidates, wire_protocol, BindError, BindSource, CarrierAddress, WireProtocol,
};
use qeli::cidr::IpAddress;
use qeli::diagnostic::{
    after_attempt, begin_probe, check_probe_host, collect_ipv4_candidates, probe_answer,
    admit_probe, probe_id, probe_report, probe_timeout, resolved_candidates, silent_candidate,
    AttemptEvent, AttemptStep, CandidateState, ProbeError,
};
use qeli::event_frame::{event_frame, finish_poll, poll_step, ClientEvent, PollOutcome, PollStep, EVENT_V1_SIZE};
use qeli::linux_tun::{
    classify_ingress, downlink_slot, egress_header, ethernet_header, packet_family, plan_pump,
    plan_pump_with_pool, reader_step, reusable_buffer_count, reusable_downlink_buffer_count,
    writer_step, LinuxTunPumpStop, PumpError, ReadOutcome, ReaderStep, TapFrame, TapHeaders,
    TunFraming, TunIngress, TunPacket, WriteOutcome, WriterStep, DARWIN_AF_INET6,
    DOWNLINK_BUFFER_CAPACITY, MAX_DOWNLINK_BUFFERS, MAX_DOWNLINK_BUFFER_BYTES,
    MAX_REUSABLE_BUFFERS, MAX_REUSABLE_BUFFER_BYTES, MIN_DOWNLINK_BUFFERS,
    MIN_DOWNLINK_SLOT_BYTES, MIN_REUSABLE_BUFFERS,
};
use qeli::packet_tun::{BridgeError, BridgeSizes, PacketTunBridge, MAX_PACKET_BYTES};
use qeli::path::{
    PathCandidate, PathCandidatePhase, PathCommandAction, PathError, PathResolution, PathUpdate,
    PathUpdateFlags, PathUpdateReason,
};
use qeli::probe_registry::ProbeRegistry;
use qeli::runtime::{
    candidate_connect_budget, inline_password, management_event, normalize_carrier_addresses,
    poll_plan, poll_platform, run_outcome, tcp_keepalive, tcp_wire, tun_source, validate_input, ClientState, DialEvent,
    DialPlan, DialStep, InputError, Keepalive, ManagementOutcome, PlanWait, PlatformReply,
    PlatformWait, RunOutcome,
    RuntimeInput, RuntimeRecord, StartError, TcpWire, TrafficTotals, TunPlatform, TunSource,
    WireError, MAX_CARRIER_ADDRESSES_PER_FAMILY,
};

const SECOND: u64 = 1_000_000_000;

fn ip(text: &str) -> IpAddress {
    IpAddress::parse(text).unwrap()
}

fn at(text: &str, port: u16) -> CarrierAddress {
    CarrierAddress { ip: ip(text), port }
}

#[test]
fn record_sized_slots_buy_far_more_buffers_than_the_protocol_maximum() {
    let max_record = reusable_downlink_buffer_count(DOWNLINK_BUFFER_CAPACITY);
    let real_record = reusable_downlink_buffer_count(1400 + 400 + 128);
    assert!(
        real_record >= 8 * max_record,
        "record-sized slots must buy an order of magnitude more buffers: {real_record} vs {max_record}"
    );
    assert_eq!(real_record, MAX_DOWNLINK_BUFFERS);
    assert!(real_record * (1400 + 400 + 128) <= MAX_DOWNLINK_BUFFER_BYTES);
}

#[test]
fn downlink_slot_is_clamped_both_ways() {
    assert_eq!(downlink_slot(0), MIN_DOWNLINK_SLOT_BYTES);
    assert_eq!(downlink_slot(usize::MAX), DOWNLINK_BUFFER_CAPACITY);
    assert_eq!(downlink_slot(3000), 3000);
}

#[test]
fn reusable_pool_stays_within_its_memory_budget() {
    for buffer_size in [576, 1500, 65_535, 1024 * 1024] {
        let count = reusable_buffer_count(buffer_size);
        assert!((MIN_REUSABLE_BUFFERS..=MAX_REUSABLE_BUFFERS).contains(&count));
        assert!(count * buffer_size <= MAX_REUSABLE_BUFFER_BYTES);
    }
    let count = reusable_downlink_buffer_count(DOWNLINK_BUFFER_CAPACITY);
    assert!((MIN_DOWNLINK_BUFFERS..=MAX_DOWNLINK_BUFFERS).contains(&count));
    assert!(count * DOWNLINK_BUFFER_CAPACITY <= MAX_DOWNLINK_BUFFER_BYTES);
    assert_eq!(reusable_buffer_count(0), MIN_REUSABLE_BUFFERS);
}

#[test]
fn cancellable_probe_stops_before_dns_or_socket_timeout() {
    let started = std::time::Instant::now();
    let error = begin_probe("udp", true).unwrap_err();
    assert!(error.message("host", &Vec::new()).contains("cancelled"));
    assert!(started.elapsed() < std::time::Duration::from_millis(250));
}

#[test]
fn rejects_a_tcp_profile_before_sending() {
    let error = begin_probe("tcp", false).unwrap_err();
    assert!(error.message("host", &Vec::new()).contains("proto = udp"));
    assert_eq!(begin_probe("udp", false), Ok(()));
}

#[test]
fn resolver_keeps_distinct_ipv4_candidates_and_ignores_ipv6() {
    let first = at("192.0.2.1", 443);
    let second = at("198.51.100.2", 443);
    let ipv6 = at("2001:db8::1", 443);
    assert_eq!(
        collect_ipv4_candidates(&vec![first, ipv6, first, second]),
        vec![first, second]
    );
    let many: Vec<CarrierAddress> =
        (0..40).map(|i| CarrierAddress { ip: IpAddress::V4(i), port: 1 }).collect();
    assert_eq!(collect_ipv4_candidates(&many), many[..16].to_vec());
    assert_eq!(resolved_candidates(&Some(vec![ipv6])), Err(ProbeError::NoIpv4Address));
    assert_eq!(resolved_candidates(&None), Err(ProbeError::DnsTimedOut));
    assert_eq!(resolved_candidates(&Some(vec![first])), Ok(vec![first]));
}

#[test]
fn probe_attempts_hosts_and_timeouts() {
    assert_eq!(after_attempt(0, AttemptEvent::Received(1)), AttemptStep::Reachable);
    assert_eq!(after_attempt(0, AttemptEvent::Received(0)), AttemptStep::SendAgain);
    assert_eq!(after_attempt(1, AttemptEvent::TimedOut), AttemptStep::NoReply);
    assert_eq!(after_attempt(0, AttemptEvent::SocketError), AttemptStep::Failed);
    assert_eq!(probe_timeout(99), None);
    assert_eq!(probe_timeout(100), Some(100));
    assert_eq!(probe_timeout(5000), Some(5000));
    assert_eq!(probe_timeout(5001), None);
    assert_eq!(probe_timeout(-1), None);
    assert!(check_probe_host("example.org"));
    assert!(!check_probe_host(""));
    assert!(!check_probe_host("::1"));
    assert!(!check_probe_host("a\u{1b}b"));
    assert!(!check_probe_host(&"a".repeat(254)));
    assert!(check_probe_host(&"a".repeat(253)));
    let failed = || CandidateState::Failed;
    assert_eq!(probe_answer(&vec![failed(), CandidateState::Running]), None);
    assert_eq!(
        probe_answer(&vec![failed(), CandidateState::Reachable, CandidateState::Running]),
        Some(Ok(()))
    );
    assert_eq!(probe_answer(&vec![failed(), failed()]), Some(Err(ProbeError::NoReply)));
}

#[test]
fn probe_registry_closes_cancel_before_start_and_ignores_late_cancel() {
    let id = u64::MAX - 17;
    let mut registry = ProbeRegistry::new();
    registry.cancel(id);

    let cancelled = registry
        .register(id)
        .expect("early cancellation must still admit the matching JNI registration");
    assert!(cancelled);
    assert!(registry.is_cancelled(id));
    registry.complete(id);

    registry.cancel(id);
    assert!(registry.register(id).is_none());
    assert!(registry.register(0).is_none());
}

#[test]
fn probe_history_is_bounded_and_spares_running_probes() {
    let mut registry = ProbeRegistry::new();
    assert_eq!(registry.register(1), Some(false));
    assert_eq!(registry.register(1), None);
    for id in 2..=1026 {
        assert_eq!(registry.register(id), Some(false));
        registry.complete(id);
    }
    assert_eq!(registry.register(2), Some(false), "the oldest number was forgotten");
    assert_eq!(registry.register(3), None);
    registry.cancel(1);
    assert!(registry.is_cancelled(1));
}

#[test]
fn invalid_pool_dimensions_are_rejected() {
    assert!(BufferPool::new(0, 128).is_err());
    assert!(BufferPool::new(4, 0).is_err());
    assert_eq!(BufferPool::new(0, 128).err(), Some(PoolError::NoBuffers));
    assert_eq!(BufferPool::new(4, 0).err(), Some(PoolError::NoCapacity));
}

#[test]
fn exhausted_pool_waits_and_reuses_returned_allocation() {
    let mut pool = BufferPool::new(2, 256).unwrap();
    assert_eq!((pool.buffer_count(), pool.buffer_capacity(), pool.available()), (2, 256, 2));
    let mut first = pool.try_acquire().unwrap();
    let second = pool.try_acquire().unwrap();
    first.as_vec_mut().extend_from_slice(b"first payload");
    let first_allocation = first.as_slice().as_ptr();

    assert!(pool.try_acquire().is_none());
    pool.give_back(first);
    let reused = pool.try_acquire().unwrap();
    assert_eq!(reused.len(), 0);
    assert_eq!(reused.as_slice().as_ptr(), first_allocation);
    pool.give_back(second);
    pool.give_back(reused);
    assert_eq!(pool.available(), 2);
}

#[test]
fn packet_bridge_moves_bounded_batches_both_directions() {
    let mut bridge = PacketTunBridge::new(7).unwrap();
    assert_eq!(bridge.generation(), 7);
    assert_eq!(bridge.push_batch(b"abcdef", &[2, 4]).unwrap(), 2);
    assert_eq!(bridge.recv_from_tun().unwrap().as_slice(), b"ab");
    assert_eq!(bridge.recv_from_tun().unwrap().as_slice(), b"cdef");

    for value in [b"one".as_slice(), b"second".as_slice()] {
        let mut packet = bridge.try_acquire().unwrap();
        packet.as_vec_mut().extend_from_slice(value);
        bridge.try_send(packet).unwrap();
    }
    let (bytes, lengths) = bridge.pull_batch(MAX_PACKET_BYTES, 4).unwrap();
    assert_eq!((lengths.len(), bytes.len()), (2, 9));
    assert_eq!(lengths, [3, 6]);
    assert_eq!(bytes, b"onesecond");

    bridge.stop();
    assert!(bridge.push_batch(b"x", &[1]).is_err());
}

#[test]
fn malformed_batches_are_rejected_without_partial_delivery() {
    let mut bridge = PacketTunBridge::new(3).unwrap();
    assert!(bridge.push_batch(b"abc", &[2]).is_err());
    assert!(bridge.push_batch(b"", &[]).is_err());
    assert!(bridge.push_batch(b"", &[0]).is_err());
    assert_eq!(bridge.push_batch(b"abc", &[2]), Err(BridgeError::TotalMismatch(2, 3)));
    assert_eq!(bridge.push_batch(b"", &[]), Err(BridgeError::BatchSize));
    assert_eq!(bridge.push_batch(b"", &[0]), Err(BridgeError::PacketLength));
    assert_eq!(bridge.push_batch(b"", &[70_000]), Err(BridgeError::PacketLength));
    assert!(bridge.recv_from_tun().is_none());
}

#[test]
fn a_stopped_bridge_still_hands_out_what_is_sent() {
    let mut bridge = PacketTunBridge::new(7).unwrap();
    let mut packet = bridge.try_acquire().unwrap();
    packet.as_vec_mut().extend_from_slice(b"late");
    bridge.stop();
    bridge.try_send(packet).unwrap();
    assert_eq!(bridge.push_batch(b"x", &[1]), Err(BridgeError::Stopped));
    let (bytes, lengths) = bridge.pull_batch(MAX_PACKET_BYTES, 4).unwrap();
    assert_eq!((bytes.as_slice(), lengths), (b"late".as_slice(), vec![4]));
}

#[test]
fn bridges_are_sized_for_their_platform() {
    let sizes = BridgeSizes::of_platform(true);
    assert_eq!((sizes.pool, sizes.from_platform, sizes.to_platform), (32, 128, 128));
    let usual = BridgeSizes::of_platform(false);
    assert_eq!((usual.pool, usual.from_platform, usual.to_platform), (64, 256, 256));
    let mut bridge = PacketTunBridge::with_sizes(3, sizes).unwrap();
    assert_eq!(bridge.generation(), 3);
    assert_eq!(bridge.push_batch(&[1u8; 40], &[1; 40]).unwrap(), 32, "32 buffers in all");
}

#[test]
fn bridge_errors_are_told_to_the_platform() {
    assert_eq!(BridgeError::Stopped.message(), "packet bridge is stopped");
    assert_eq!(BridgeError::BatchSize.message(), "packet batch must contain 1..=64 packets");
    assert_eq!(BridgeError::PacketLength.message(), "packet length must be 1..=65535");
    assert_eq!(
        BridgeError::TotalMismatch(2, 3).message(),
        "packet lengths total 2, input contains 3 bytes"
    );
    assert_eq!(
        BridgeError::OutputTooSmall.message(),
        "packet output capacity must be at least 65535"
    );
    assert_eq!(BridgeError::SlotCount.message(), "length output must contain 1..=64 slots");
}

#[test]
fn packet_bridge_stops_at_its_pool_and_its_output() {
    let mut bridge = PacketTunBridge::new(1).unwrap();
    let bytes = vec![1u8; 60];
    assert_eq!(bridge.push_batch(&bytes, &[1; 60]).unwrap(), 60);
    assert_eq!(bridge.push_batch(&bytes, &[1; 60]).unwrap(), 4, "64 buffers in all");
    assert_eq!(bridge.push_batch(&bytes, &[1; 60]).unwrap(), 0);
    let packet = bridge.recv_from_tun().unwrap();
    bridge.recycle_uplink(packet);
    assert_eq!(bridge.push_batch(&bytes, &[1; 60]).unwrap(), 1);

    assert_eq!(bridge.pull_batch(10, 1).err(), Some(BridgeError::OutputTooSmall));
    assert_eq!(bridge.pull_batch(MAX_PACKET_BYTES, 0).err(), Some(BridgeError::SlotCount));
    for _ in 0..2 {
        let mut packet = bridge.try_acquire().unwrap();
        packet.as_vec_mut().resize(40_000, 9);
        bridge.try_send(packet).unwrap();
    }
    let (bytes, lengths) = bridge.pull_batch(MAX_PACKET_BYTES, 4).unwrap();
    assert_eq!((bytes.len(), lengths), (40_000, vec![40_000]), "the second does not fit");
    let (bytes, _) = bridge.pull_batch(MAX_PACKET_BYTES, 4).unwrap();
    assert_eq!(bytes.len(), 40_000);
    assert_eq!(bridge.pull_batch(MAX_PACKET_BYTES, 4).unwrap(), (Vec::new(), Vec::new()));
}

const IPV4_PACKET: [u8; 20] =
    [0x45, 0, 0, 20, 0, 0, 0, 0, 64, 17, 0, 0, 10, 0, 0, 1, 10, 0, 0, 2];

fn ipv6_packet() -> Vec<u8> {
    let mut packet = vec![0u8; 40];
    packet[0] = 0x60;
    packet[6] = 59;
    packet
}

fn no_frame() -> TapFrame {
    TapFrame { answered: false, control: false, payload: None }
}

#[test]
fn tap_mode_strips_and_restores_ethernet_headers() {
    let headers = TapHeaders {
        client_mac: [2, 0, 0, 0, 0, 2],
        gateway_mac: [2, 0, 0, 0, 0, 1],
        gateway_ipv4: Some(0x0a00_0001),
        ipv4_prefix_len: 24,
        gateway_ipv6: Some(0xfd71_u128 << 112 | 1),
        ipv6_prefix_len: 64,
    };
    let tap = TunFraming::Tap(headers);
    let mut frame = ethernet_header(&headers.gateway_mac, &headers.client_mac, &[0x08, 0x00]);
    frame.extend_from_slice(&IPV4_PACKET);
    frame.resize(60, 0);
    let payload = TapFrame { payload: Some((14, 34)), ..no_frame() };
    assert_eq!(classify_ingress(&tap, &frame, payload), TunIngress::Deliver(14, 34));
    let packet = TunPacket::new(frame, 14, 34);
    assert_eq!(packet.as_slice(), IPV4_PACKET);
    assert_eq!(packet.recycle().len(), 60);

    let expected = ethernet_header(&headers.client_mac, &headers.gateway_mac, &[0x08, 0x00]);
    assert_eq!(egress_header(&tap, &IPV4_PACKET, None), Some(expected));
    let expected = ethernet_header(&headers.client_mac, &headers.gateway_mac, &[0x86, 0xdd]);
    assert_eq!(egress_header(&tap, &ipv6_packet(), None), Some(expected));
    let multicast = [0x33, 0x33, 0, 0, 0, 1];
    let expected = ethernet_header(&multicast, &headers.gateway_mac, &[0x86, 0xdd]);
    assert_eq!(egress_header(&tap, &ipv6_packet(), Some(multicast)), Some(expected));

    let solicitation = TapFrame { answered: true, control: true, payload: Some((14, 62)) };
    assert_eq!(classify_ingress(&tap, &[0; 62], solicitation), TunIngress::Answer);
    let control = TapFrame { answered: false, control: true, payload: Some((14, 62)) };
    assert_eq!(classify_ingress(&tap, &[0; 62], control), TunIngress::Drop);
}

#[test]
fn utun_mode_strips_and_restores_address_family_prefix() {
    let mut framed = 2u32.to_be_bytes().to_vec();
    framed.extend_from_slice(&IPV4_PACKET);
    assert_eq!(classify_ingress(&TunFraming::Utun, &framed, no_frame()), TunIngress::Deliver(4, 24));
    assert_eq!(egress_header(&TunFraming::Utun, &IPV4_PACKET, None), Some(vec![0, 0, 0, 2]));

    let mut framed = DARWIN_AF_INET6.to_be_bytes().to_vec();
    framed.extend_from_slice(&ipv6_packet());
    assert_eq!(classify_ingress(&TunFraming::Utun, &framed, no_frame()), TunIngress::Deliver(4, 44));
    assert_eq!(egress_header(&TunFraming::Utun, &ipv6_packet(), None), Some(vec![0, 0, 0, 30]));

    framed[3] = 2;
    assert_eq!(classify_ingress(&TunFraming::Utun, &framed, no_frame()), TunIngress::Drop);
    assert_eq!(classify_ingress(&TunFraming::Utun, &framed[..3], no_frame()), TunIngress::Drop);
    assert_eq!(egress_header(&TunFraming::Utun, &IPV4_PACKET[..19], None), None);
    assert_eq!(egress_header(&TunFraming::Raw, &IPV4_PACKET, None), Some(Vec::new()));
    assert_eq!(packet_family(&IPV4_PACKET), Some((2, [0x08, 0x00])));
    assert_eq!(packet_family(&[]), None);
}

#[test]
fn workers_stop_drop_and_retry() {
    let mut stop = LinuxTunPumpStop::new();
    assert_eq!(reader_step(&stop, ReadOutcome::Bytes(9)), ReaderStep::Process(9));
    assert_eq!(reader_step(&stop, ReadOutcome::Bytes(0)), ReaderStep::Stop);
    assert_eq!(reader_step(&stop, ReadOutcome::Interrupted), ReaderStep::ReadAgain);
    assert_eq!(reader_step(&stop, ReadOutcome::WouldBlock), ReaderStep::WaitReadable);
    assert_eq!(reader_step(&stop, ReadOutcome::Failed), ReaderStep::Stop);
    stop.request_stop();
    assert!(stop.stop_requested());
    assert_eq!(reader_step(&stop, ReadOutcome::WouldBlock), ReaderStep::Stop);
    assert_eq!(writer_step(WriteOutcome::Written(20), 20), WriterStep::Next);
    assert_eq!(writer_step(WriteOutcome::Written(19), 20), WriterStep::NextAfterShortWrite);
    assert_eq!(writer_step(WriteOutcome::NoRoom, 20), WriterStep::CountDrop);
    assert_eq!(writer_step(WriteOutcome::Interrupted, 20), WriterStep::WriteAgain);
    assert_eq!(writer_step(WriteOutcome::Failed, 20), WriterStep::Stop);
    let plan = plan_pump(2048, 1928).unwrap();
    assert_eq!((plan.read_buffers, plan.read_buffer_bytes), (64, 2048));
    assert_eq!((plan.downlink_buffers, plan.downlink_slot_bytes), (2048, 2048));
    assert_eq!(plan_pump(0, 1928), Err(PumpError::ZeroBufferSize));
    assert_eq!(plan_pump_with_pool(2048, 1928, 0), Err(PumpError::ZeroPool));
}

#[test]
fn preserves_all_distinct_platform_candidates() {
    let addresses = resolve_ip_candidates(
        443,
        &vec![ip("192.0.2.10"), ip("2001:db8::10"), ip("192.0.2.10")],
        &vec![at("203.0.113.1", 1)],
    )
    .unwrap();
    assert_eq!(addresses.len(), 2);
    assert_eq!(addresses[0], at("192.0.2.10", 443));
    assert_eq!(addresses[1], at("2001:db8::10", 443));
    assert_eq!(
        resolve_ip_candidates(443, &Vec::new(), &vec![at("203.0.113.1", 1)]),
        Some(vec![at("203.0.113.1", 1)])
    );
    assert_eq!(resolve_ip_candidates(443, &Vec::new(), &Vec::new()), None);
}

#[test]
fn canonicalizes_and_deduplicates_ipv4_mapped_candidates() {
    let addresses = resolve_ip_candidates(
        443,
        &vec![ip("::ffff:192.0.2.10"), ip("192.0.2.10"), ip("2001:db8::10")],
        &Vec::new(),
    )
    .unwrap();
    assert_eq!(addresses, vec![at("192.0.2.10", 443), at("2001:db8::10", 443)]);
    assert_eq!(canonical_carrier_ip(ip("::fffe:192.0.2.10")), ip("::fffe:192.0.2.10"));
}

#[test]
fn linux_candidate_source_selection_matches_socket_family_and_ipv6_scope() {
    let addresses: Vec<String> =
        vec!["192.0.2.20".to_string(), "2001:db8::20".to_string(), "fe80::20".to_string()];
    assert_eq!(
        linux_candidate_bind_address(7, &addresses, true).unwrap(),
        BindSource { ip: ip("192.0.2.20"), scope_id: 0 }
    );
    assert_eq!(
        linux_candidate_bind_address(7, &addresses[1..].to_vec(), false).unwrap(),
        BindSource { ip: ip("2001:db8::20"), scope_id: 0 }
    );
    assert_eq!(
        linux_candidate_bind_address(7, &addresses[2..].to_vec(), false).unwrap(),
        BindSource { ip: ip("fe80::20"), scope_id: 7 }
    );
    assert_eq!(
        linux_candidate_bind_address(7, &addresses[..1].to_vec(), false),
        Err(BindError::NoSource)
    );
    assert_eq!(
        linux_candidate_bind_address(7, &vec!["nowhere".to_string()], false),
        Err(BindError::InvalidSource(0))
    );
}

#[test]
fn desktop_bonded_bind_keeps_local_ip_but_not_the_fixed_port() {
    let local = Some("192.0.2.50".to_string());
    let remote = ip("198.51.100.10");
    assert_eq!(
        desktop_bind_address(&local, 1194, remote, true).unwrap(),
        Some(at("192.0.2.50", 1194))
    );
    assert_eq!(
        desktop_bind_address(&local, 1194, remote, false).unwrap(),
        Some(at("192.0.2.50", 0))
    );
    assert_eq!(desktop_bind_address(&None, 1194, remote, false).unwrap(), None);
    assert_eq!(desktop_bind_address(&None, 1194, remote, true).unwrap(), Some(at("0.0.0.0", 1194)));
    assert_eq!(
        desktop_bind_address(&local, 0, ip("2001:db8::1"), true),
        Err(BindError::FamilyMismatch)
    );
    assert_eq!(
        desktop_bind_address(&Some("here".to_string()), 0, remote, true),
        Err(BindError::InvalidLocalAddress)
    );
    assert_eq!(wire_protocol("tcp"), Some(WireProtocol::Tcp));
    assert_eq!(wire_protocol("udp"), Some(WireProtocol::Udp));
    assert_eq!(wire_protocol("sctp"), None);
}

#[test]
fn platform_dns_can_supply_more_than_sixteen_dual_stack_addresses() {
    let mut carrier_addresses: Vec<String> = (1..=40).map(|host| format!("192.0.2.{host}")).collect();
    carrier_addresses.extend(["2001:db8::1".to_string(), "2001:db8::2".to_string()]);
    let input = RuntimeInput { fallback_dns_servers: Vec::new(), carrier_addresses };

    validate_input(&input).unwrap();
    let normalized = normalize_carrier_addresses(&input.carrier_addresses);
    assert_eq!(normalized.len(), 34);
    assert_eq!(
        normalized.iter().filter(|address| address.is_ipv4()).count(),
        MAX_CARRIER_ADDRESSES_PER_FAMILY
    );
    assert_eq!(normalized.iter().filter(|address| !address.is_ipv4()).count(), 2);
}

#[test]
fn mapped_carrier_addresses_are_canonicalised_and_deduplicated() {
    let addresses: Vec<String> = vec!["192.0.2.1".into(), "::ffff:192.0.2.1".into()];
    assert_eq!(normalize_carrier_addresses(&addresses), vec![ip("192.0.2.1")]);
}

#[test]
fn runtime_input_is_bounded_and_holds_addresses_only() {
    let dns = |texts: &[&str]| RuntimeInput {
        fallback_dns_servers: texts.iter().map(|text| text.to_string()).collect(),
        carrier_addresses: Vec::new(),
    };
    let carriers = |texts: Vec<String>| RuntimeInput { fallback_dns_servers: Vec::new(), carrier_addresses: texts };
    assert_eq!(validate_input(&dns(&["1.1.1.1"; 8])), Ok(()));
    assert_eq!(validate_input(&dns(&["1.1.1.1"; 9])), Err(InputError::TooManyDnsServers));
    assert_eq!(validate_input(&dns(&["1.1.1.1", "dns"])), Err(InputError::InvalidDnsServer(1)));
    assert_eq!(
        validate_input(&carriers(vec!["10.0.0.1".to_string(); 1025])),
        Err(InputError::TooManyCarrierAddresses)
    );
    assert_eq!(
        validate_input(&carriers(vec!["host".to_string()])),
        Err(InputError::InvalidCarrierAddress(0))
    );
}

#[test]
fn candidates_share_the_deadline() {
    assert_eq!(candidate_connect_budget(10 * SECOND, 0, 4), Some(2_500_000_000));
    assert_eq!(candidate_connect_budget(SECOND, 0, 100), Some(250_000_000));
    assert_eq!(candidate_connect_budget(100, 0, 100), Some(100));
    assert_eq!(candidate_connect_budget(10, 10, 0), Some(0));
    assert_eq!(candidate_connect_budget(9, 10, 1), None);

    let (mut plan, step) = DialPlan::start(false, 3, 0, 3);
    assert_eq!(step, DialStep::Open(0));
    assert_eq!(plan.advance(DialEvent::SocketFailed), DialStep::Open(1));
    assert_eq!(plan.advance(DialEvent::SocketReady(0)), DialStep::Connect(1, 1_500_000_000));
    assert_eq!(plan.advance(DialEvent::ConnectFailed), DialStep::Open(2));
    assert_eq!(plan.advance(DialEvent::SocketReady(4 * SECOND)), DialStep::Stop);

    let (mut plan, _) = DialPlan::start(true, 3, 0, 0);
    assert_eq!(plan.deadline, SECOND);
    assert_eq!(plan.advance(DialEvent::SocketReady(0)), DialStep::Connect(0, SECOND));
    assert_eq!(plan.advance(DialEvent::ConnectFailed), DialStep::Stop);
    assert_eq!(DialPlan::start(false, 0, 0, 1).1, DialStep::Stop);
}

fn totals(value: u64) -> TrafficTotals {
    TrafficTotals {
        tx_packets: value,
        tx_bytes: value,
        rx_packets: value,
        rx_bytes: value,
        udp_kernel_drops: value,
        udp_internal_drops: value,
        udp_buffer_grows: value,
        udp_recv_buffer_bytes: value,
    }
}

#[test]
fn a_generation_is_counted_once_and_reports_its_failure() {
    let mut record = RuntimeRecord {
        state: ClientState::Idle,
        has_device_id: false,
        active: false,
        running: None,
        last_plan_generation: 6,
        totals: totals(10),
    };
    assert_eq!(record.next_generation(), 7);
    assert_eq!(record.start(1), Err(StartError::NotConnecting));
    record.state = ClientState::Connecting;
    assert_eq!(record.start(1), Err(StartError::NoDeviceId));
    record.has_device_id = true;
    assert_eq!(record.start(1), Ok(()));
    assert_eq!(record.start(2), Err(StartError::AlreadyActive));

    assert_eq!(record.finish_generation(2, &totals(1), false, None), None);
    assert!(record.active);
    let long = "e".repeat(600);
    let failure = record.finish_generation(1, &totals(u64::MAX), false, Some(&long));
    assert_eq!(failure, Some("e".repeat(512)));
    assert_eq!(record.totals.tx_bytes, u64::MAX);
    assert_eq!(record.totals.udp_recv_buffer_bytes, u64::MAX);
    assert!(!record.active);
    assert_eq!(record.finish_generation(1, &totals(1), false, None), None);

    record.start(3).unwrap();
    assert_eq!(
        record.finish_generation(3, &totals(0), false, None),
        Some("transport disconnected".to_string())
    );
    record.start(4).unwrap();
    assert_eq!(record.finish_generation(4, &totals(0), true, Some(&long)), None);
    record.start(5).unwrap();
    record.state = ClientState::Stopping;
    assert_eq!(record.finish_generation(5, &totals(0), false, Some(&long)), None);
}

#[test]
fn plans_wires_and_outcomes() {
    assert_eq!(poll_plan(true, ClientState::Running, 0, 9), PlanWait::Cancelled);
    assert_eq!(poll_plan(false, ClientState::Running, 99, 9), PlanWait::Acknowledged);
    assert_eq!(poll_plan(false, ClientState::Failed, 0, 9), PlanWait::Rejected);
    assert_eq!(poll_plan(false, ClientState::AwaitingNetwork, 8, 9), PlanWait::Pending);
    assert_eq!(poll_plan(false, ClientState::AwaitingNetwork, 9, 9), PlanWait::TimedOut);
    assert_eq!(poll_plan(false, ClientState::Stopped, 0, 9), PlanWait::LeftPending);
    assert_eq!(tun_source(TunPlatform::Windows, true, true), Some(TunSource::Wintun));
    assert_eq!(tun_source(TunPlatform::Windows, false, true), Some(TunSource::PacketBatch));
    assert_eq!(tun_source(TunPlatform::Ios, true, false), None);
    assert_eq!(tun_source(TunPlatform::Descriptor, false, false), Some(TunSource::Descriptors));
    assert_eq!(tcp_wire("obfs", true, true, true), Err(WireError::BlankObfsKey));
    assert_eq!(tcp_wire("obfs", false, false, false), Ok(TcpWire::Obfs));
    assert_eq!(tcp_wire("reality-tls", true, false, true), Err(WireError::NoShortId));
    assert_eq!(tcp_wire("reality-tls", true, true, false), Err(WireError::NoPinnedKey));
    assert_eq!(tcp_wire("reality-tls", true, true, true), Ok(TcpWire::RealityTls));
    assert_eq!(tcp_wire("plain", true, false, false), Ok(TcpWire::Direct));
    assert_eq!(tcp_wire("carrier pigeon", false, true, true), Err(WireError::UnsupportedMode));
    assert_eq!(tcp_keepalive(0), None);
    assert_eq!(tcp_keepalive(15), Some(Keepalive { time: 15, interval: 10, retries: 3 }));
    assert_eq!(tcp_keepalive(90), Some(Keepalive { time: 90, interval: 30, retries: 3 }));
    assert_eq!(inline_password(Some("word")), Some("word"));
    assert_eq!((inline_password(Some("")), inline_password(None)), (None, None));
    assert_eq!(poll_platform(Some(PlatformReply::Accepted), true), PlatformWait::Granted);
    assert_eq!(poll_platform(Some(PlatformReply::Refused), false), PlatformWait::Refused);
    assert_eq!(poll_platform(Some(PlatformReply::Dropped), false), PlatformWait::RequestCancelled);
    assert_eq!(poll_platform(None, true), PlatformWait::TransportCancelled);
    assert_eq!(poll_platform(None, false), PlatformWait::Pending);
    assert_eq!(run_outcome(true, true), RunOutcome::Cancelled);
    assert_eq!(run_outcome(false, true), RunOutcome::Failed);
    assert_eq!(run_outcome(false, false), RunOutcome::Disconnected);
    assert_eq!(management_event(false, false), ManagementOutcome::Continue);
    assert_eq!(management_event(true, true), ManagementOutcome::Cancel);
    assert_eq!(management_event(true, false), ManagementOutcome::Fail);
}

fn update() -> PathUpdate {
    PathUpdate {
        generation: 3,
        update_id: 9,
        platform_path_id: "wlan0".into(),
        reason: PathUpdateReason::NetworkChanged,
        network_token: None,
        interface_index: Some(4),
        local_addresses: vec!["192.0.2.7".into(), "2001:db8::7".into()],
        resolved_addresses: vec![
            PathResolution { address: "198.51.100.1".into(), ttl_secs: 60 },
            PathResolution { address: "2001:db8:1::1".into(), ttl_secs: 0 },
        ],
        flags: PathUpdateFlags::default(),
    }
}

fn refused(change: impl Fn(&mut PathUpdate)) -> PathError {
    let mut changed = update();
    change(&mut changed);
    changed.validate(128).unwrap_err()
}

#[test]
fn path_updates_are_validated_in_full() {
    assert_eq!(update().validate(128), Ok(()));
    assert_eq!(refused(|u| u.generation = 0), PathError::ZeroGenerationOrUpdate);
    assert_eq!(refused(|u| u.update_id = 0), PathError::ZeroGenerationOrUpdate);
    assert_eq!(refused(|u| u.platform_path_id.clear()), PathError::InvalidPathId);
    assert_eq!(refused(|u| u.platform_path_id = "a".repeat(129)), PathError::InvalidPathId);
    assert_eq!(refused(|u| u.network_token = Some("a\nb".into())), PathError::InvalidNetworkToken);
    assert_eq!(refused(|u| u.interface_index = None), PathError::NoPhysicalNetwork);
    assert_eq!(refused(|u| u.interface_index = Some(0)), PathError::ZeroInterfaceIndex);
    assert_eq!(refused(|u| u.reason = PathUpdateReason::Wake), PathError::MissingReasonFlag);
    assert_eq!(refused(|u| u.local_addresses.clear()), PathError::LocalAddressCount);
    assert_eq!(refused(|u| u.resolved_addresses.clear()), PathError::ResolvedAddressCount);
    assert_eq!(refused(|u| u.local_addresses[1] = "x".repeat(129)), PathError::LocalTooLong(1));
    assert_eq!(refused(|u| u.local_addresses[0] = "host".into()), PathError::LocalInvalid(0));
    for unusable in ["0.0.0.0", "127.0.0.1", "224.0.0.1", "255.255.255.255", "::", "::1", "ff02::1"] {
        assert_eq!(refused(|u| u.local_addresses[0] = unusable.into()), PathError::LocalUnusable(0));
    }
    assert_eq!(refused(|u| u.local_addresses[1] = "192.0.2.7".into()), PathError::LocalDuplicate(1));
    assert_eq!(refused(|u| u.resolved_addresses[1].address = "x".repeat(129)), PathError::ResolvedTooLong(1));
    assert_eq!(refused(|u| u.resolved_addresses[0].address = "host".into()), PathError::ResolvedInvalid(0));
    assert_eq!(refused(|u| u.resolved_addresses[0].address = "127.1.1.1".into()), PathError::ResolvedUnusable(0));
    assert_eq!(refused(|u| u.resolved_addresses[0].ttl_secs = 604_801), PathError::ResolvedTtl(0));
    assert_eq!(
        refused(|u| u.resolved_addresses[1].address = "198.51.100.1".into()),
        PathError::ResolvedDuplicate(1)
    );
    assert_eq!(
        refused(|u| {
            u.local_addresses.truncate(1);
            u.resolved_addresses.remove(0);
        }),
        PathError::NoCompatibleAddress
    );
    assert_eq!(PathUpdate::accept(65_537, Some(update()), 128).err(), Some(PathError::TooLong(65_537)));
    assert_eq!(PathUpdate::accept(10, None, 128).err(), Some(PathError::Malformed));
    assert_eq!(PathUpdate::accept(10, Some(update()), 128), Ok(update()));
}

#[test]
fn refused_paths_are_told_to_the_platform() {
    let said = |change: fn(&mut PathUpdate)| {
        let mut changed = update();
        change(&mut changed);
        changed.validate(128).unwrap_err().message(Some(&changed), 128, "")
    };
    assert_eq!(said(|u| u.generation = 0), "path generation and update_id must be non-zero");
    assert_eq!(
        said(|u| u.platform_path_id.clear()),
        "platform path id must be 1..=128 UTF-8 bytes without control characters"
    );
    assert_eq!(
        said(|u| u.network_token = Some("a\nb".into())),
        "physical network token must be 1..=128 UTF-8 bytes without control characters"
    );
    assert_eq!(
        said(|u| u.interface_index = None),
        "path update requires a physical network token or interface index"
    );
    assert_eq!(said(|u| u.interface_index = Some(0)), "path interface index must be non-zero");
    assert_eq!(
        said(|u| u.reason = PathUpdateReason::Wake),
        "path update reason Wake requires its matching flag"
    );
    assert_eq!(
        said(|u| u.local_addresses.clear()),
        "path update must contain 1..=16 local addresses"
    );
    assert_eq!(
        said(|u| u.resolved_addresses.clear()),
        "path update must contain 1..=16 resolved addresses"
    );
    assert_eq!(
        said(|u| u.local_addresses[1] = "x".repeat(129)),
        "path local address is too long"
    );
    assert_eq!(
        said(|u| u.local_addresses[0] = "host".into()),
        "invalid path local address 'host'"
    );
    assert_eq!(
        said(|u| u.local_addresses[0] = "::1".into()),
        "path local address '::1' is not usable"
    );
    assert_eq!(
        said(|u| u.local_addresses[1] = "192.0.2.7".into()),
        "duplicate path local address '192.0.2.7'"
    );
    assert_eq!(
        said(|u| u.resolved_addresses[0].address = "host".into()),
        "invalid resolved path address 'host'"
    );
    assert_eq!(
        said(|u| u.resolved_addresses[0].ttl_secs = 604_801),
        "resolved path TTL 604801 exceeds 604800"
    );
    assert_eq!(
        said(|u| u.resolved_addresses[1].address = "198.51.100.1".into()),
        "duplicate resolved path address '198.51.100.1'"
    );
    assert_eq!(
        PathError::TooLong(65_537).message(None, 128, ""),
        "path update is 65537 bytes; maximum is 65536"
    );
    assert_eq!(PathError::Malformed.message(None, 128, "detail"), "invalid path update: detail");
    assert_eq!(
        PathError::NoCompatibleAddress.message(Some(&update()), 128, ""),
        "path update has no resolved address compatible with a local address family"
    );
}

#[test]
fn paths_keep_the_families_that_they_can_source() {
    let mut single = update();
    single.local_addresses = vec!["2001:db8::7".into()];
    assert_eq!(single.compatible_resolved_addresses(), vec![ip("2001:db8:1::1")]);
    single.resolved_addresses.push(PathResolution { address: "nowhere".into(), ttl_secs: 0 });
    assert_eq!(single.committed_addresses(), vec![ip("198.51.100.1"), ip("2001:db8:1::1")]);
    assert_eq!(
        update().compatible_resolved_addresses(),
        vec![ip("198.51.100.1"), ip("2001:db8:1::1")]
    );
    let candidate = PathCandidate {
        candidate_id: 5,
        update: update(),
        phase: PathCandidatePhase::Preparing,
        pending_sequence: None,
        started_at: 0,
        failure_recorded: false,
    };
    let command = candidate.command(PathCommandAction::BindSocket, Some(11), Some("why".into()));
    assert_eq!((command.generation, command.candidate_id), (3, 5));
    assert_eq!(command.action, PathCommandAction::BindSocket);
    assert_eq!(command.path, update());
    assert_eq!((command.socket_fd, command.reason), (Some(11), Some("why".to_string())));
}

#[test]
fn event_frames_carry_every_field_in_place() {
    let event = ClientEvent {
        abi_version: 0x0102_0304,
        kind: 5,
        state: 6,
        payload_format: 7,
        reserved: 8,
        sequence: 0x1122_3344_5566_7788,
        plan_generation: 9,
        error_code: 0xffff_fff6,
    };
    let frame = event_frame(&event, b"payload");
    assert_eq!(frame.len(), EVENT_V1_SIZE + 7);
    assert_eq!(&frame[..4], &48u32.to_le_bytes());
    assert_eq!(&frame[4..8], &[4, 3, 2, 1]);
    assert_eq!(&frame[24..32], &0x1122_3344_5566_7788u64.to_le_bytes());
    assert_eq!(&frame[40..44], &(-10i32).to_le_bytes());
    assert_eq!(&frame[44..48], &7u32.to_le_bytes());
    assert_eq!(&frame[48..], b"payload");
    assert_eq!(poll_step(PollOutcome::NoEvent, 0), PollStep::Nothing);
    assert_eq!(poll_step(PollOutcome::Delivered, 0), PollStep::EmptyFrame);
    assert_eq!(poll_step(PollOutcome::BufferTooSmall, 12), PollStep::Retry(12));
    assert_eq!(poll_step(PollOutcome::BufferTooSmall, 1_048_577), PollStep::Nothing);
    assert_eq!(poll_step(PollOutcome::Failed, 1), PollStep::Nothing);
}

#[test]
fn adapters_start_only_complete_probes() {
    assert_eq!(admit_probe(100, 10, 10, Some("udp"), Some("example.org")), Some(100));
    assert_eq!(admit_probe(99, 10, 10, Some("udp"), Some("example.org")), None);
    assert_eq!(admit_probe(100, 11, 10, Some("udp"), Some("example.org")), None);
    assert_eq!(admit_probe(100, 10, 10, Some("tcp"), Some("example.org")), None);
    assert_eq!(admit_probe(100, 10, 10, None, Some("example.org")), None);
    assert_eq!(admit_probe(100, 10, 10, Some("udp"), Some("::1")), None);
    assert_eq!(admit_probe(100, 10, 10, Some("udp"), None), None);
    assert_eq!(probe_id(7), Some(7));
    assert_eq!(probe_id(0), None);
    assert_eq!(probe_id(-7), None);
    assert_eq!(probe_report(Ok(42)), 42);
    assert_eq!(probe_report(Ok(u64::MAX)), i64::MAX);
    assert_eq!(probe_report(Err(ProbeError::NoReply)), -1);
}

#[test]
fn a_polled_event_needs_its_whole_payload() {
    let event = ClientEvent {
        abi_version: 1,
        kind: 2,
        state: 3,
        payload_format: 4,
        reserved: 0,
        sequence: 5,
        plan_generation: 6,
        error_code: 0,
    };
    let payload = [9u8, 8, 7];
    let frame = finish_poll(&event, PollOutcome::Delivered, &payload, 3).expect("whole payload");
    assert_eq!(frame, event_frame(&event, &payload));
    assert_eq!(frame[48..], payload);
    assert_eq!(finish_poll(&event, PollOutcome::Delivered, &payload, 2), None);
    assert_eq!(finish_poll(&event, PollOutcome::Failed, &payload, 3), None);
}

#[test]
fn unreachable_hosts_are_named_with_their_failures() {
    let first = CarrierAddress { ip: IpAddress::V4(0x7f00_0001), port: 443 };
    let second = CarrierAddress { ip: IpAddress::V6(1), port: 53 };
    let failures = vec![silent_candidate(first, 500), silent_candidate(second, 100)];
    assert_eq!(failures[0], "127.0.0.1:443: no UDP server reply after 2 attempts of 500 ms");
    assert_eq!(failures[1], "[::1]:53: no UDP server reply after 2 attempts of 100 ms");
    assert_eq!(
        ProbeError::NoReply.message("example.org", &failures),
        "no UDP server reply from any IPv4 candidate: 127.0.0.1:443: no UDP server reply after 2 \
         attempts of 500 ms; [::1]:53: no UDP server reply after 2 attempts of 100 ms"
    );
    assert_eq!(
        ProbeError::NoIpv4Address.message("example.org", &Vec::new()),
        "probe host 'example.org' has no IPv4 address"
    );
    assert_eq!(
        ProbeError::DnsTimedOut.message("example.org", &Vec::new()),
        "UDP probe DNS resolution timed out"
    );
}
