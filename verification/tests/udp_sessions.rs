use qeli::buffer_pool::BufferPool;
use qeli::carrier::CarrierAddress;
use qeli::cidr::IpAddress;
use qeli::udp_admission::{AdmissionRequest, LiveSession, SessionTable};
use qeli::udp_auth::{
    split_credentials, split_key_proof, AuthReport, AuthStep, Cleanup, UdpAuthentication,
};
use qeli::udp_client::{
    accept_new_client, check_initial, AuthOutcome, HandshakeRecords, NewClientError, ReceiveStep,
    RoamingRegistration, TickStep, UdpClient, UdpIdentity, UdpSessionState,
};
use qeli::udp_datagram::{
    begin_datagram, expects_quic, take_plaintext, AuthInFlight, DatagramDrop, DatagramStep,
    PayloadMarks, PlainOutcome, PlainStep,
};
use qeli::udp_directory::{CidLookup, UdpSessionDirectory};
use qeli::udp_egress::{
    CommitOutcome, EgressSocket, UdpActiveEgress, UdpHeader, UdpRoamingIngressPath, UdpWire,
};
use qeli::udp_new_source::{
    insert_half_open, max_concurrent_udp_handshakes, HandshakeGate, HelloPieces, PartialHellos,
};
use qeli::udp_roaming::{
    begin_roaming_ingress, check_decision, check_record, finish_decision, note_candidate,
    permit_challenge, take_record, CarrierFrame, CommitFailure, DropReason, PathControl,
    PathDecision, Reassembly, RecordOutcome, RecordStep, RoamingDatagram, RoamingStep, SendPermit,
    UdpRoamingControlError, UdpRoamingControlIngress, UdpRoamingPmtuAction, UplinkProbe,
};
use qeli::udp_server::{
    beacon_padding, cover_size, idle_traffic, maintenance_tick_ms, note_route_failure, reap_expired,
    receive_buffer, route_ingress, IdleTraffic, IngressRoute, ReceiveBuffer, RouteFailure,
    RouteFailureNote,
};
use qeli::udp_uplink::{
    classify_uplink, may_upload, unbundle, ClientReport, ManagementFrame, UplinkPacket, UplinkStep,
};
use qeli::udp_writer::{
    after_attempt, batch_allowed, paced_bits, plan_record, record_limit, widened_bundle,
    BatchOutcome, BatchSend, BatchStep, Burst, RecordPlan, SendOutcome, TerminalSend,
    TerminalStep, WriterStep,
};

const SECOND: u64 = 1_000_000_000;

fn address(port: u16) -> CarrierAddress {
    CarrierAddress { ip: IpAddress::V4(0x7f00_0001), port }
}

fn records(server_hello: usize) -> HandshakeRecords {
    HandshakeRecords {
        server_hello: vec![1; server_hello],
        ccs: vec![2],
        cert: vec![3],
        finished: vec![4],
        nst: vec![5],
        auth_proof: vec![6],
    }
}

fn half_open(now: u64) -> UdpClient {
    accept_new_client(1200, &records(1000), true, [1, 2, 3, 4], true, now, now + SECOND).unwrap()
}

fn socket(id: u64) -> EgressSocket {
    EgressSocket { id, seal_overhead: 0, local_is_ipv4: Some(true) }
}

fn authenticated(port: u16, session_id: u64, generation: Option<u64>) -> UdpClient {
    let mut client = half_open(0);
    let egress = match generation {
        Some(_) => UdpActiveEgress::new_roaming(socket(1), address(port), [1; 8], 1400),
        None => UdpActiveEgress::new_legacy(socket(1), address(port), true, [1, 2, 3, 4], 1400),
    };
    client.authenticate(AuthOutcome {
        identity: UdpIdentity {
            session_id,
            device_key: "device".into(),
            client_ip: IpAddress::V4(0x0a00_0002),
        },
        registration: generation
            .map(|session_generation| RoamingRegistration { session_id, session_generation }),
        data_frag_enabled: true,
        has_recordizer: true,
        egress,
        request: vec![9, 9],
        packets: vec![vec![7; 100], vec![8; 50]],
    });
    client.note_auth_ok_sent();
    client
}

fn lookup(session_id: u64, generation: u64, path_epoch: u64) -> CidLookup {
    CidLookup { session_id, session_generation: generation, path_epoch, owner_worker_id: 0 }
}

#[test]
fn first_messages_are_answered_within_three_times_their_size() {
    assert_eq!(check_initial(1199), Err(NewClientError::InitialTooSmall));
    assert_eq!(check_initial(1200), Ok(()));
    let refused = accept_new_client(1200, &records(3596), false, [9; 4], false, 0, 0);
    assert_eq!(refused.err(), Some(NewClientError::ResponseTooLarge));
    let client = accept_new_client(1200, &records(3595), false, [9; 4], false, 5, 6).unwrap();
    assert_eq!(client.server_hello.len(), 3600);
    assert_eq!(&client.server_hello[3595..], &[2, 3, 4, 5, 6]);
    assert_eq!((client.amp_received, client.amp_sent), (1200, 3600));
    assert_eq!((client.packet_counter, client.connection_id), (2, [0; 4]));
    assert_eq!((client.last_activity, client.next_cover_at), (5, 6));
}

#[test]
fn repeated_requests_are_answered_from_memory_and_bounded() {
    let mut client = half_open(0);
    assert_eq!(client.server_hello.len(), 1005);
    assert_eq!(client.receive(100, b"piece", true, 1), ReceiveStep::ReemitHello);
    assert_eq!(client.receive(100, b"piece", true, 2), ReceiveStep::ReemitHello);
    assert_eq!(client.receive(1, b"piece", true, 3), ReceiveStep::ReemitHello);
    assert_eq!(client.receive(1, b"piece", true, 4), ReceiveStep::Suppress);
    assert_eq!((client.amp_received, client.amp_sent, client.last_activity), (1402, 4020, 3));
    assert_eq!(client.receive(1, b"other", false, 4), ReceiveStep::Process);
    client.revoked = true;
    assert_eq!(client.receive(1, b"other", false, 4), ReceiveStep::Forget);

    let mut client = authenticated(1, 3, None);
    let sent = client.amp_sent;
    for attempt in 0..5 {
        assert_eq!(client.receive(2, &[9, 9], false, 10 + attempt), ReceiveStep::ReemitAuth);
    }
    assert_eq!(client.amp_sent, sent + 5 * 150);
    assert_eq!(client.receive(2, &[9, 9], false, 99), ReceiveStep::Suppress);
    assert_eq!(client.last_activity, 14);
    assert_eq!(client.receive(2, &[9], false, 99), ReceiveStep::Process);
}

#[test]
fn sessions_expire_and_keep_their_schedule() {
    let waiting = half_open(0);
    assert!(!waiting.expired(10, 10, None));
    assert!(waiting.expired(11, 10, None));
    let mut client = authenticated(1, 3, None);
    client.last_activity = 100;
    assert!(!client.expired(u64::MAX, 10, None));
    assert!(!client.expired(145, 10, Some(45)));
    assert!(client.expired(146, 10, Some(45)));
    client.next_cover_at = 200;
    assert_eq!(client.beacon_tick(199, 50, 0), TickStep::Nothing);
    assert_eq!(client.beacon_tick(200, 50, 0), TickStep::Send);
    assert_eq!(client.next_cover_at, 250);
    client.last_activity = 250;
    assert_eq!(client.cover_tick(249, 1000, false), TickStep::Nothing);
    assert_eq!(client.cover_tick(250, 1000, false), TickStep::Nothing, "the peer is busy");
    assert_eq!(client.next_cover_at, 1250);
    assert_eq!(client.cover_tick(1250, 1000, true), TickStep::Send);
    client.auth_ok_sent = false;
    assert_eq!(client.cover_tick(u64::MAX, 1, true), TickStep::Nothing);
    assert_eq!(client.beacon_tick(u64::MAX, 1, 0), TickStep::Nothing);
    assert_eq!(half_open(0).authenticated_session_id(), None);
    assert_eq!(client.authenticated_session_id(), Some(3));
    assert!(!client.roaming_enabled());
    assert!(authenticated(1, 3, Some(8)).roaming_enabled());
}

#[test]
fn refusals_are_kept_and_counted() {
    let mut client = half_open(0);
    client.refuse_auth(vec![5], vec![vec![0; 40], vec![0; 2]]);
    assert_eq!((client.packet_counter, client.amp_sent), (3, 1047));
    assert!(client.server_hello.is_empty());
    assert_eq!(client.receive(1, &[5], false, 1), ReceiveStep::ReemitAuth);
    let mut client = authenticated(1, 3, None);
    let sent = client.amp_sent;
    client.charge_auth_ok();
    assert_eq!(client.amp_sent, sent + 150);
}

#[test]
fn packet_numbers_run_on_and_wrap() {
    let mut client = half_open(0);
    assert_eq!((client.take_packet_number(), client.take_packet_number()), (2, 3));
    client.packet_counter = u32::MAX;
    assert_eq!(client.take_packet_number(), u32::MAX);
    assert_eq!(client.packet_counter, 0);
    let masked = UdpActiveEgress::new_legacy(socket(1), address(1), true, [9; 4], 548).snapshot();
    assert!(matches!(client.next_header(&masked), UdpHeader::QuicShort([9, 9, 9, 9], 0)));
    let bare = UdpActiveEgress::new_legacy(socket(1), address(1), false, [9; 4], 548).snapshot();
    assert!(matches!(client.next_header(&bare), UdpHeader::Bare));
    assert_eq!(client.packet_counter, 1, "an unmasked path takes no number");
}

#[test]
fn directory_keeps_owners_with_their_sessions() {
    let mut directory = UdpSessionDirectory::new();
    assert!(directory.insert(address(1), authenticated(1, 7, Some(1))).is_none());
    assert!(directory.publish_roaming_owner(address(1)));
    assert_eq!(directory.resolve_roaming_owner(lookup(7, 1, 0)), Some(address(1)));
    assert_eq!(directory.resolve_roaming_owner(lookup(7, 2, 0)), None);
    assert!(directory.insert(address(2), half_open(0)).is_none());
    assert!(!directory.publish_roaming_owner(address(2)));
    assert_eq!((directory.len(), directory.half_open()), (2, vec![address(2)]));
    assert!(directory.remove(address(1)).is_some());
    assert_eq!(directory.resolve_roaming_owner(lookup(7, 1, 0)), None);
    assert!(!directory.contains(address(1)));
    assert!(directory.get(address(2)).is_some());

    directory.insert(address(3), authenticated(3, 9, Some(4)));
    directory.publish_roaming_owner(address(3));
    assert!(directory.remove_session_owner(9, address(8)).is_some());
    assert_eq!(directory.len(), 1);
}

fn marks() -> PayloadMarks {
    PayloadMarks {
        junk: false,
        answer: None,
        legacy_answer: false,
        probe: UplinkProbe::NotProbe,
        fragment: false,
        data_fragment: false,
    }
}

#[test]
fn datagrams_find_their_session() {
    let mut directory = UdpSessionDirectory::new();
    directory.insert(address(1), authenticated(1, 7, None));
    assert!(expects_quic(&directory, address(1), false));
    assert!(!expects_quic(&directory, address(2), false));
    assert!(expects_quic(&directory, address(2), true));

    let junk = PayloadMarks { junk: true, ..marks() };
    assert!(matches!(
        begin_datagram(&mut directory, address(1), 5, b"junk", &junk, 1),
        DatagramStep::Drop(DatagramDrop::Junk)
    ));
    assert!(matches!(
        begin_datagram(&mut directory, address(2), 5, b"hello", &marks(), 1),
        DatagramStep::NewSource
    ));
    assert!(matches!(
        begin_datagram(&mut directory, address(1), 5, b"hello", &marks(), 1),
        DatagramStep::Record
    ));
    assert!(matches!(
        begin_datagram(&mut directory, address(1), 5, &[9, 9], &marks(), 1),
        DatagramStep::ReemitAuth
    ));
    let probe = PayloadMarks { probe: UplinkProbe::V2(Some((5, 1300))), ..marks() };
    let number = directory.get(address(1)).unwrap().packet_counter;
    match begin_datagram(&mut directory, address(1), 5, b"probe", &probe, 1) {
        DatagramStep::SendProbeAck(UdpRoamingPmtuAction::Ack(5, 1300), UdpHeader::QuicShort(id, pn)) => {
            assert_eq!((id, pn), ([1, 2, 3, 4], number));
        }
        _ => panic!("an authenticated peer's probe is answered"),
    }
    directory.get_mut(address(1)).unwrap().revoked = true;
    assert!(matches!(
        begin_datagram(&mut directory, address(1), 5, b"hello", &marks(), 1),
        DatagramStep::Drop(DatagramDrop::Revoked)
    ));
}

#[test]
fn probes_of_half_open_sessions_get_no_echo() {
    let mut directory = UdpSessionDirectory::new();
    let mut client = authenticated(1, 7, None);
    client.state = UdpSessionState::AwaitingAuth;
    directory.insert(address(1), client);
    let number = directory.get(address(1)).unwrap().packet_counter;
    for source in [1, 2] {
        for probe in [
            UplinkProbe::V2(Some((5, 1300))),
            UplinkProbe::Legacy(Some((5, 1300))),
            UplinkProbe::V2(None),
        ] {
            let probe = PayloadMarks { probe, ..marks() };
            assert!(matches!(
                begin_datagram(&mut directory, address(source), 5, b"probe", &probe, 1),
                DatagramStep::Drop(DatagramDrop::UnansweredProbe)
            ));
        }
    }
    assert_eq!(directory.get(address(1)).unwrap().packet_counter, number);
}

#[test]
fn liveness_comes_from_decrypted_packets_only() {
    let mut directory = UdpSessionDirectory::new();
    let mut client = authenticated(1, 7, None);
    client.last_activity = 3;
    directory.insert(address(1), client);
    let rejected = PlainOutcome::Rejected(UdpRoamingControlError::Decrypt);
    assert!(matches!(take_plaintext(&mut directory, address(1), rejected, 50), PlainStep::Drop));
    assert_eq!(directory.get(address(1)).unwrap().last_activity, 3);
    let plain = PlainOutcome::Plain { direct_control: false, empty: false, lost: 2, readable: true };
    assert!(matches!(
        take_plaintext(&mut directory, address(1), plain, 50),
        PlainStep::ForwardBundle(7)
    ));
    let client = directory.get(address(1)).unwrap();
    assert_eq!((client.last_activity, client.dropped), (50, 2));

    directory.insert(address(2), half_open(0));
    let plain = PlainOutcome::Plain { direct_control: false, empty: false, lost: 0, readable: true };
    assert!(matches!(
        take_plaintext(&mut directory, address(2), plain, 50),
        PlainStep::Authenticate
    ));
    let mut in_flight = AuthInFlight::new();
    assert!(in_flight.begin(address(2)));
    assert!(!in_flight.begin(address(2)));
    in_flight.end(address(2));
    assert!(in_flight.begin(address(2)));
}

#[test]
fn new_sources_are_bounded() {
    let mut partial = PartialHellos::new();
    for port in 0..1024 {
        assert_eq!(partial.note(address(port), port as u64), None);
    }
    assert_eq!(partial.note(address(2000), 5000), Some(address(0)));
    assert!(partial.contains(address(2000)) && !partial.contains(address(0)));
    assert!(!partial.take_piece(address(2000), HelloPieces::Pending));
    assert!(partial.take_piece(address(2000), HelloPieces::Complete));
    assert!(!partial.contains(address(2000)));
    partial.expire(5000, 4000);
    assert!(!partial.contains(address(999)) && partial.contains(address(1001)));

    assert_eq!(max_concurrent_udp_handshakes(1), 64);
    assert_eq!(max_concurrent_udp_handshakes(64), 256);
    let mut gate = HandshakeGate::new(1);
    assert!(gate.try_acquire());
    assert!(!gate.try_acquire());
    gate.release();
    assert!(gate.try_acquire());

    let mut directory = UdpSessionDirectory::new();
    for port in 0..1024 {
        assert_eq!(insert_half_open(&mut directory, address(port), half_open(port as u64)), None);
    }
    let evicted = insert_half_open(&mut directory, address(3000), half_open(9000)).unwrap();
    assert!(evicted.port < 1024);
    assert_eq!((directory.len(), directory.half_open().len()), (1024, 1024));
}

fn roaming(port: u16, path_epoch: u64) -> RoamingDatagram {
    RoamingDatagram {
        lookup: lookup(7, 1, path_epoch),
        peer: address(port),
        socket: socket(1),
        datagram_len: 90,
    }
}

fn roaming_directory() -> UdpSessionDirectory {
    let mut directory = UdpSessionDirectory::new();
    directory.insert(address(1), authenticated(1, 7, Some(1)));
    directory.publish_roaming_owner(address(1));
    directory
}

#[test]
fn a_session_moves_by_an_init_a_response_and_a_commit() {
    let mut directory = roaming_directory();
    let step = begin_roaming_ingress(&mut directory, 0, &roaming(2, 1), &CarrierFrame::Record, 5);
    assert!(matches!(
        step,
        RoamingStep::Decode(owner, UdpRoamingIngressPath::Candidate) if owner == address(1)
    ));
    let data = RecordOutcome::Data { lost: 0, readable: true };
    let candidate = UdpRoamingIngressPath::Candidate;
    assert!(matches!(
        take_record(&mut directory, address(1), lookup(7, 1, 1), address(2), candidate, &data, 5),
        RecordStep::Drop(DropReason::CandidateData)
    ));
    let init = RecordOutcome::Control(UdpRoamingControlIngress::Path {
        message_id: 4,
        message: PathControl::Init { cid: [2; 8], epoch: 1 },
    });
    assert!(matches!(
        take_record(&mut directory, address(1), lookup(7, 1, 1), address(2), candidate, &init, 5),
        RecordStep::Observe { message_id: 4, epoch: 1, .. }
    ));
    assert!(note_candidate(&mut directory, address(1), lookup(7, 1, 1), 77));
    assert!(permit_challenge(&mut directory, address(1), 77, SendPermit::Granted));
    let response = RecordOutcome::Control(UdpRoamingControlIngress::Path {
        message_id: 5,
        message: PathControl::Response { epoch: 1, token: [3; 16] },
    });
    assert!(matches!(
        take_record(&mut directory, address(1), lookup(7, 1, 1), address(2), candidate, &response, 5),
        RecordStep::Validate { message_id: 5, ticket: 77, epoch: 1, .. }
    ));

    let decision = PathDecision {
        outcome: CommitOutcome {
            path_epoch: 1,
            old_peer: address(1),
            new_peer: address(2),
            transmit_cid: [6; 8],
        },
        receive_cid: [2; 8],
        replay: false,
    };
    let at = lookup(7, 1, 1);
    assert_eq!(check_decision(&directory, address(1), at, &decision, socket(2)), Ok(()));
    assert_eq!(
        finish_decision(&mut directory, address(1), at, &decision, socket(2), false, 9),
        Err(CommitFailure::NotSent)
    );
    assert!(directory.contains(address(1)));
    assert_eq!(
        finish_decision(&mut directory, address(1), at, &decision, socket(2), true, 9),
        Ok(())
    );
    assert!(!directory.contains(address(1)) && directory.contains(address(2)));
    assert_eq!(directory.resolve_roaming_owner(lookup(7, 1, 1)), Some(address(2)));
    let egress = directory.get(address(2)).unwrap().egress.as_ref().unwrap();
    assert_eq!((egress.current.path_epoch, egress.payload_budget), (1, 548));
}

#[test]
fn roaming_datagrams_are_dropped_for_a_reason() {
    let mut directory = roaming_directory();
    let drop = |directory: &mut UdpSessionDirectory, worker, datagram: RoamingDatagram| {
        match begin_roaming_ingress(directory, worker, &datagram, &CarrierFrame::Record, 5) {
            RoamingStep::Drop(reason) => reason,
            _ => panic!("the datagram was kept"),
        }
    };
    assert_eq!(drop(&mut directory, 1, roaming(1, 0)), DropReason::WrongWorker);
    let mut stale = roaming(1, 0);
    stale.lookup.session_generation = 2;
    assert_eq!(drop(&mut directory, 0, stale), DropReason::StaleSession);
    let mut foreign = roaming(1, 0);
    foreign.socket.local_is_ipv4 = Some(false);
    assert_eq!(drop(&mut directory, 0, foreign), DropReason::FamilyMismatch);
    assert_eq!(drop(&mut directory, 0, roaming(2, 0)), DropReason::StalePath);
    directory.get_mut(address(1)).unwrap().revoked = true;
    assert_eq!(drop(&mut directory, 0, roaming(1, 0)), DropReason::Revoked);

    assert_eq!(
        check_record(true, false, Reassembly::Whole, true, 9, 9),
        Err(UdpRoamingControlError::FragmentNotNegotiated)
    );
    assert_eq!(
        check_record(true, true, Reassembly::Pending, true, 9, 9),
        Err(UdpRoamingControlError::FragmentPending)
    );
    assert_eq!(
        check_record(true, true, Reassembly::Bad, true, 9, 9),
        Err(UdpRoamingControlError::BadFragment)
    );
    assert_eq!(
        check_record(false, true, Reassembly::Whole, false, 9, 9),
        Err(UdpRoamingControlError::PoolExhausted)
    );
    assert_eq!(
        check_record(false, true, Reassembly::Whole, true, 9, 10),
        Err(UdpRoamingControlError::Oversize)
    );
    assert_eq!(check_record(true, true, Reassembly::Complete, true, 9, 9), Ok(()));
}

#[test]
fn bundles_are_accounted_for() {
    let mut pool = BufferPool::new(3, 4).unwrap();
    let held = pool.try_acquire().unwrap();
    let bundle = vec![vec![1, 2], vec![0; 5], vec![3, 4, 5, 6], vec![7], vec![0; 9]];
    let result = unbundle(&mut pool, &bundle);
    let packets: Vec<&[u8]> = result.packets.iter().map(|packet| packet.as_slice()).collect();
    assert_eq!(packets, [&[1u8, 2][..], &[3, 4, 5, 6][..]]);
    assert_eq!((result.oversize, result.exhausted, pool.available()), (1, 2, 0));
    pool.give_back(held);
    assert_eq!(unbundle(&mut pool, &Vec::new()).packets.len(), 0);
}

#[test]
fn only_allowed_packets_leave() {
    let packet = UplinkPacket {
        management: None,
        report: None,
        len: 60,
        source_allowed: true,
        destination_allowed: true,
    };
    let classify = |packet: UplinkPacket, limit| classify_uplink(&packet, true, true, limit, true);
    assert_eq!(classify(packet, 0), UplinkStep::Forward(60));
    assert_eq!(classify(packet, 5), UplinkStep::Queue);
    assert_eq!(classify_uplink(&packet, true, true, 5, false), UplinkStep::DropQueueFull);
    let forged = UplinkPacket { source_allowed: false, destination_allowed: false, ..packet };
    assert_eq!(classify(forged, 0), UplinkStep::DropForgedSource);
    let forbidden = UplinkPacket { destination_allowed: false, ..packet };
    assert_eq!(classify(forbidden, 0), UplinkStep::DropForbiddenDestination);
    let acknowledgement =
        UplinkPacket { management: Some(ManagementFrame::Ack(3)), source_allowed: false, ..packet };
    assert_eq!(classify(acknowledgement, 0), UplinkStep::AcknowledgeManagement(3));
    let report = UplinkPacket { report: Some(ClientReport::PayloadBudget(1400)), ..packet };
    assert_eq!(classify(report, 0), UplinkStep::StartProbes(1400));
    assert_eq!(classify_uplink(&report, false, false, 0, true), UplinkStep::Ignore);
    let report = UplinkPacket { report: Some(ClientReport::PathMtu(1300)), ..packet };
    assert_eq!(classify(report, 0), UplinkStep::NotePathMtu(1300));
    assert_eq!(classify(UplinkPacket { len: 0, ..packet }, 0), UplinkStep::Ignore);
    assert!(may_upload(false, false) && !may_upload(true, false) && !may_upload(false, true));
}

fn wire() -> UdpWire {
    UdpWire {
        quic_short_header: 9,
        roaming_short_header: 13,
        data_frag_header: 24,
        max_record: 16_645,
        probe_overhead: 48,
        min_probe_payload: 25,
        mtu_min: 576,
    }
}

#[test]
fn records_are_cut_to_their_path() {
    let mut egress = UdpActiveEgress::new_legacy(socket(1), address(1), true, [1; 4], 1400);
    let path = egress.snapshot();
    assert_eq!(record_limit(&path, &wire(), 1400), 1391);
    assert_eq!(record_limit(&path, &wire(), 20), 539);
    assert_eq!(plan_record(&path, &wire(), 1400, 1391, true), RecordPlan::Whole);
    assert_eq!(plan_record(&path, &wire(), 1400, 1392, true), RecordPlan::Pieces(1367));
    assert_eq!(plan_record(&path, &wire(), 1400, 1392, false), RecordPlan::Whole);
    assert!(batch_allowed(0, &vec![1391, 10], 1391));
    assert!(!batch_allowed(1, &vec![1391, 10], 1391));
    assert!(!batch_allowed(0, &vec![1391], 1391));
    assert!(!batch_allowed(0, &vec![1392, 10], 1391));

    let mut attempt = |outcome, retried| {
        after_attempt(&mut egress, &path, 1400, outcome, retried, true)
    };
    assert_eq!(attempt(SendOutcome::Sent, false), WriterStep::Done);
    assert_eq!(attempt(SendOutcome::Failed, false), WriterStep::Drop);
    assert_eq!(attempt(SendOutcome::TooLong, true), WriterStep::Drop);
    assert_eq!(attempt(SendOutcome::TooLong, false), WriterStep::Retry);
    assert_eq!(egress.payload_budget, 548);
    assert_eq!(widened_bundle(1200, Some(1400)), 1400);
    assert_eq!(widened_bundle(1200, Some(1000)), 1200);
    assert_eq!(widened_bundle(1200, None), 1200);
}

#[test]
fn bursts_batches_and_last_words() {
    let mut burst = Burst::open(false);
    assert!(burst.wants_more(3));
    burst.take(false, 3);
    assert!(burst.wants_more(3) && !burst.wants_more(2));
    burst.take(true, 4);
    assert_eq!(burst, Burst { taken: 3, priority: true });
    assert!(!burst.wants_more(4), "control closes the burst");
    assert!(!Burst::open(true).wants_more(4));
    assert_eq!((paced_bits(false, 100), paced_bits(true, 100)), (800, 0));

    let mut batch = BatchSend::start(vec![100, 200, 300], 10, 2);
    assert_eq!(batch.step(), BatchStep::Send(0, 2));
    assert_eq!(batch.advance(BatchOutcome::Sent(1)), BatchStep::Send(1, 3));
    assert_eq!((batch.sent, batch.charged), (1, 110));
    assert_eq!(batch.advance(BatchOutcome::Failed), BatchStep::Stop);
    assert_eq!(batch.advance(BatchOutcome::Sent(0)), BatchStep::Stop);
    assert_eq!(batch.advance(BatchOutcome::Sent(2)), BatchStep::Done);
    assert_eq!((batch.sent, batch.charged), (3, 630));

    let (mut send, mut step) = TerminalSend::start(2, 3);
    let mut frames = Vec::new();
    while let TerminalStep::Send(frame) = step {
        frames.push(frame);
        step = send.advance(true);
    }
    assert_eq!((frames, step), (vec![0, 1, 0, 1, 0, 1], TerminalStep::Delivered));
    let (mut send, _) = TerminalSend::start(2, 3);
    assert_eq!(send.advance(false), TerminalStep::Abandon);
    assert_eq!(TerminalSend::start(0, 3).1, TerminalStep::Delivered);
    assert_eq!(TerminalSend::start(2, 0).1, TerminalStep::Delivered);
}

fn live(session_id: u64, user: &str, device: &str, ip: u32, connected_at: u64) -> LiveSession {
    LiveSession {
        primary: IpAddress::V4(ip),
        ipv6: None,
        session_id,
        username: user.into(),
        device_key: device.into(),
        peer: address(session_id as u16),
        connected_at,
        routes: Vec::new(),
    }
}

fn request(user: &str, device: &str) -> AdmissionRequest {
    AdmissionRequest {
        username: user.into(),
        device_key: device.into(),
        max_sessions: 2,
        fixed_ipv4: None,
        fixed_ipv6: None,
        max_clients: 3,
    }
}

fn ids(sessions: &[LiveSession]) -> Vec<u64> {
    sessions.iter().map(|session| session.session_id).collect()
}

#[test]
fn devices_give_way_in_order() {
    let mut table = SessionTable::new();
    table.publish(live(1, "ann", "a1", 1, 30));
    table.publish(live(2, "ann", "a2", 2, 10));
    table.publish(live(3, "ann", "a3", 3, 20));
    table.publish(live(4, "bob", "b1", 4, 5));

    let yielded = table.yield_to_device(&request("ann", "a1"));
    assert_eq!((ids(&yielded.superseded), ids(&yielded.evicted)), (vec![1], vec![2]));
    assert_eq!(table.len(), 2);
    let mut fixed = request("ann", "a1");
    fixed.fixed_ipv4 = Some(4);
    let claimed = table.claim_addresses(&fixed);
    assert_eq!((ids(&claimed.evicted), claimed.admitted), (vec![4], true));
    assert!(matches!(table.publish(live(5, "ann", "a1", 4, 40)), (None, false)));
    let (replaced, release) = table.publish(live(7, "ann", "a1", 4, 50));
    assert_eq!((replaced.map(|gone| gone.session_id), release), (Some(5), false));
    let (replaced, release) = table.publish(live(8, "ann", "a9", 4, 60));
    assert_eq!((replaced.map(|gone| gone.session_id), release), (Some(7), true));
    table.publish(live(5, "ann", "a1", 4, 40));
    table.publish(live(6, "eve", "e1", 6, 41));
    assert!(!table.claim_addresses(&request("max", "m1")).admitted, "the profile is full");

    assert_eq!(table.reap(IpAddress::V4(4), 1, "a1").0.map(|gone| gone.session_id), None);
    assert_eq!(table.len(), 3);
    let (gone, release) = table.reap(IpAddress::V4(4), 5, "a1");
    assert_eq!((gone.map(|gone| gone.session_id), release), (Some(5), true));
    assert!(table.withdraw(IpAddress::V4(6), 9).is_none());
    assert!(table.withdraw(IpAddress::V4(6), 6).is_some());
}

#[test]
fn authentications_end_with_an_answer_or_a_cleanup() {
    let mut auth = UdpAuthentication::start();
    for expected in [
        AuthStep::Verify,
        AuthStep::Negotiate,
        AuthStep::Yield,
        AuthStep::Claim,
        AuthStep::Allocate,
        AuthStep::Register,
        AuthStep::Seal,
        AuthStep::Frame,
        AuthStep::Provision,
        AuthStep::Publish,
    ] {
        assert_eq!(auth.advance(AuthReport::Succeeded), expected);
    }
    assert_eq!(auth.advance(AuthReport::Published(2)), AuthStep::InstallRoute(0));
    assert_eq!(auth.advance(AuthReport::Succeeded), AuthStep::InstallRoute(1));
    assert_eq!(
        auth.advance(AuthReport::Failed),
        AuthStep::End(Cleanup {
            forget_peer: true,
            release_lease: true,
            release_evicted: false,
            withdraw: true,
            remove_routes: 1,
        })
    );

    let published = |routes: usize| {
        let mut auth = UdpAuthentication::start();
        for _ in 0..10 {
            auth.advance(AuthReport::Succeeded);
        }
        auth.advance(AuthReport::Published(routes));
        auth
    };
    for report in [AuthReport::Succeeded, AuthReport::Failed, AuthReport::PeerGone] {
        assert_eq!(published(0).advance(report), AuthStep::AllowTraffic, "a lost answer is repeated");
    }
    let mut auth = published(2);
    auth.advance(AuthReport::Succeeded);
    assert_eq!(
        auth.advance(AuthReport::PeerGone),
        AuthStep::End(Cleanup {
            forget_peer: false,
            release_lease: true,
            release_evicted: false,
            withdraw: true,
            remove_routes: 1,
        })
    );

    let mut auth = UdpAuthentication::start();
    auth.advance(AuthReport::Succeeded);
    auth.advance(AuthReport::Succeeded);
    assert_eq!(auth.advance(AuthReport::Failed), AuthStep::BuildRefusal);
    assert_eq!(auth.advance(AuthReport::Succeeded), AuthStep::SendRefusal);

    let mut auth = UdpAuthentication::start();
    assert!(matches!(
        auth.advance(AuthReport::Failed),
        AuthStep::End(Cleanup { forget_peer: true, release_lease: false, .. })
    ));
    assert_eq!(split_key_proof(&[0; 31]), None);
    let request: Vec<u8> = (0..40).collect();
    assert_eq!(split_key_proof(&request), Some((&request[..32], &request[32..])));
    assert_eq!(split_credentials("user:pass:word"), Some(("user", "pass:word")));
    assert_eq!(split_credentials("user"), None);
}

#[test]
fn workers_route_tick_and_reap() {
    let mut directory = roaming_directory();
    let mut partial = PartialHellos::new();
    partial.note(address(4), 0);
    directory.insert(address(5), half_open(0));
    let route = |port, registered, junk| {
        route_ingress(&directory, &partial, address(port), registered, junk)
    };
    assert_eq!(route(1, true, false), IngressRoute::Roaming);
    assert_eq!(route(9, true, false), IngressRoute::Roaming);
    assert_eq!(route(5, true, true), IngressRoute::Session);
    assert_eq!(route(4, false, true), IngressRoute::Session);
    assert_eq!(route(9, false, true), IngressRoute::DropJunk);
    assert_eq!(route(9, false, false), IngressRoute::RateLimit);

    assert_eq!(maintenance_tick_ms(true, 5, true, 100, 700), 20);
    assert_eq!(maintenance_tick_ms(true, 50, true, 100, 700), 50);
    assert_eq!(maintenance_tick_ms(false, 5, true, 5000, 700), 200);
    assert_eq!(maintenance_tick_ms(false, 5, true, 5, 700), 20);
    assert_eq!(maintenance_tick_ms(false, 5, false, 5, 700), 700);
    assert_eq!(idle_traffic(true, 0, true, 9), IdleTraffic { heartbeat: false, shaping: true });
    assert_eq!(beacon_padding(100, 1000), (100, 132));
    assert_eq!(beacon_padding(100, 50), (50, 50));
    assert_eq!(beacon_padding(u16::MAX, usize::MAX), (u16::MAX, u16::MAX));
    let shared = ReceiveBuffer { initial: 1, maximum: 2 };
    assert_eq!(receive_buffer(true, 9, shared, 7), shared);
    assert_eq!(receive_buffer(false, 9, shared, 7), ReceiveBuffer { initial: 9, maximum: 7 });
    assert_eq!(note_route_failure(RouteFailure::QueueFull), RouteFailureNote::Count);
    assert_eq!(note_route_failure(RouteFailure::WorkerClosed), RouteFailureNote::Warn);
    assert_eq!(note_route_failure(RouteFailure::InvalidTopology), RouteFailureNote::Error);
    assert_eq!(note_route_failure(RouteFailure::UnknownWorker), RouteFailureNote::Error);
    assert_eq!(note_route_failure(RouteFailure::UnknownCid), RouteFailureNote::Silent);

    assert_eq!((cover_size(700, 400), cover_size(300, 400)), (400, 300));

    let mut surviving = roaming_directory();
    surviving.insert(address(5), half_open(0));
    assert!(reap_expired(&mut surviving, 100, 10, None).is_empty());
    assert_eq!(surviving.len(), directory.len() - 1);
    assert!(surviving.resolve_roaming_owner(lookup(7, 1, 0)).is_some(), "its owner entry stays");

    let gone = reap_expired(&mut directory, 100, 10, Some(50));
    assert_eq!(gone.iter().map(|identity| identity.session_id).collect::<Vec<_>>(), [7]);
    assert_eq!(directory.len(), 0);
    assert_eq!(directory.resolve_roaming_owner(lookup(7, 1, 0)), None);
}
