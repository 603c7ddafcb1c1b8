use qeli::carrier::CarrierAddress;
use qeli::cidr::IpAddress;
use qeli::udp_budget::{
    build_downlink_mtu_probe, downlink_mtu_probe_budgets, end_sequence, is_unanswered,
    max_useful_udp_payload_budget, next_rung, plan_flights, probe_range, sanitized_udp_payload_budget, start_probes, take_answer,
    DownlinkMtuProbe, ProbeSession, RungStep,
};
use qeli::udp_directory::{CidLookup, UdpRoamingOwnerIndex};
use qeli::udp_egress::{
    conservative_udp_payload_budget, EgressSocket, UdpActiveEgress, UdpEgressCommit,
    UdpEgressCommitError, UdpEgressFraming, UdpEgressPublishError, UdpHeader,
    UdpRoamingIngressPath, UdpWire,
};
use qeli::udp_handshake_wire::{
    build_auth_error, build_auth_ok_datagrams, build_server_hello_datagrams,
    reserve_packet_numbers, FragmentLimits, HandshakeDatagram, AUTH_OK_FIRST_PN,
    UDP_SESSION_FIRST_PN,
};
use qeli::udp_roaming::{
    classify_udp_roaming_uplink_probe, decrypt_udp_roaming_record, encrypt_udp_roaming_control,
    ControlFrame, PathControl, RecordContent, UdpRoamingControlError, UdpRoamingControlIngress,
    UdpRoamingPmtuAction, UplinkProbe,
};
use qeli::udp_server::udp_reap_window;

const SECOND: u64 = 1_000_000_000;

fn wire() -> UdpWire {
    UdpWire {
        quic_short_header: 9,
        roaming_short_header: 13,
        data_frag_header: 24,
        max_record: 16_645,
        probe_overhead: 48,
        min_probe_payload: 25,
        mtu_min: 576,
    }
}

fn limits() -> FragmentLimits {
    FragmentLimits { max_chunk: 1100, max_frags: 26 }
}

fn address(port: u16) -> CarrierAddress {
    CarrierAddress { ip: IpAddress::parse("127.0.0.1").unwrap(), port }
}

/// A sealed record: a counter in clear, then the bytes under a key stream of the key.
struct Codec {
    key: [u8; 32],
    next: u64,
    seen: Vec<u64>,
}

impl Codec {
    fn new(key: [u8; 32]) -> Codec {
        Codec { key, next: 0, seen: Vec::new() }
    }

    fn stream(&self, counter: u64, bytes: &[u8]) -> Vec<u8> {
        bytes
            .iter()
            .enumerate()
            .map(|(i, byte)| byte ^ self.key[i % 32] ^ (counter as u8).wrapping_add(i as u8))
            .collect()
    }

    fn encrypt(&mut self, bytes: &[u8]) -> Vec<u8> {
        let counter = self.next;
        self.next += 1;
        let mut record = counter.to_le_bytes().to_vec();
        record.extend(self.stream(counter, bytes));
        record
    }

    fn decrypt(&mut self, record: &[u8]) -> Option<Vec<u8>> {
        let counter = u64::from_le_bytes(record[..8].try_into().unwrap());
        if self.seen.contains(&counter) {
            return None;
        }
        self.seen.push(counter);
        Some(self.stream(counter, &record[8..]))
    }
}

const CONTROL_MARK: u8 = 0xC2;

/// A control frame in bytes: mark, kind, flags, id, part, count, body.
fn encode_frame(kind: u8, flags: u8, id: u32, part: u16, count: u16, body: &[u8]) -> Vec<u8> {
    let mut frame = vec![CONTROL_MARK, kind, flags];
    frame.extend_from_slice(&id.to_le_bytes());
    frame.extend_from_slice(&part.to_le_bytes());
    frame.extend_from_slice(&count.to_le_bytes());
    frame.extend_from_slice(body);
    frame
}

fn kind_of(message: &PathControl) -> u8 {
    match message {
        PathControl::Init { .. } => 1,
        PathControl::Challenge { .. } => 2,
        PathControl::Response { .. } => 3,
        PathControl::Commit { .. } => 4,
    }
}

fn body_of(message: &PathControl) -> Vec<u8> {
    let (first, epoch, last): (Vec<u8>, u64, Vec<u8>) = match message {
        PathControl::Init { cid, epoch } => (cid.to_vec(), *epoch, Vec::new()),
        PathControl::Commit { cid, epoch } => (cid.to_vec(), *epoch, Vec::new()),
        PathControl::Challenge { epoch, token } => (Vec::new(), *epoch, token.to_vec()),
        PathControl::Response { epoch, token } => (Vec::new(), *epoch, token.to_vec()),
    };
    let mut body = first;
    body.extend_from_slice(&epoch.to_le_bytes());
    body.extend(last);
    body
}

fn decode_message(kind: u8, body: &[u8]) -> Option<PathControl> {
    match (kind, body.len()) {
        (1, 16) | (4, 16) => {
            let cid: [u8; 8] = body[..8].try_into().unwrap();
            let epoch = u64::from_le_bytes(body[8..16].try_into().unwrap());
            Some(if kind == 1 {
                PathControl::Init { cid, epoch }
            } else {
                PathControl::Commit { cid, epoch }
            })
        }
        (2, 24) | (3, 24) => {
            let epoch = u64::from_le_bytes(body[..8].try_into().unwrap());
            let token: [u8; 16] = body[8..24].try_into().unwrap();
            Some(if kind == 2 {
                PathControl::Challenge { epoch, token }
            } else {
                PathControl::Response { epoch, token }
            })
        }
        _ => None,
    }
}

fn content(codec: &mut Codec, record: &[u8]) -> (RecordContent, Vec<u8>) {
    let plain = match codec.decrypt(record) {
        Some(plain) => plain,
        None => return (RecordContent::Unreadable, Vec::new()),
    };
    if plain.first() != Some(&CONTROL_MARK) {
        return (RecordContent::Data, plain);
    }
    if plain.len() < 11 {
        return (RecordContent::BadControl, plain);
    }
    let frame = ControlFrame {
        acknowledgement: plain[1] == 9,
        flags: plain[2],
        message_id: u32::from_le_bytes(plain[3..7].try_into().unwrap()),
        part_index: u16::from_le_bytes(plain[7..9].try_into().unwrap()),
        part_count: u16::from_le_bytes(plain[9..11].try_into().unwrap()),
        message: decode_message(plain[1], &plain[11..]),
    };
    (RecordContent::Control(frame), plain)
}

fn encrypted_path_control(codec: &mut Codec, message_id: u32, message: &PathControl) -> Vec<u8> {
    codec.encrypt(&encode_frame(kind_of(message), 0, message_id, 0, 1, &body_of(message)))
}

#[test]
fn udp_roaming_pmtu_ingress_echoes_v2_only_on_committed_path() {
    let token = 0x0123456789abcdef_fedcba9876543210u128;
    let probe = UplinkProbe::V2(Some((token, 1400)));

    let action = classify_udp_roaming_uplink_probe(&probe, UdpRoamingIngressPath::Committed);
    assert_eq!(action, UdpRoamingPmtuAction::Ack(token, 1400));

    for path in [UdpRoamingIngressPath::Candidate, UdpRoamingIngressPath::Draining] {
        assert_eq!(
            classify_udp_roaming_uplink_probe(&probe, path),
            UdpRoamingPmtuAction::Drop,
            "non-committed path must not receive a PMTU ACK"
        );
    }

    let malformed = UplinkProbe::V2(None);
    assert_eq!(
        classify_udp_roaming_uplink_probe(&malformed, UdpRoamingIngressPath::Committed),
        UdpRoamingPmtuAction::Drop,
        "declared and received V2 probe sizes must match"
    );

    let legacy = UplinkProbe::Legacy(Some((0xBEEF, 1200)));
    assert_eq!(
        classify_udp_roaming_uplink_probe(&legacy, UdpRoamingIngressPath::Committed),
        UdpRoamingPmtuAction::AckLegacy(0xBEEF, 1200)
    );
    assert_eq!(
        classify_udp_roaming_uplink_probe(&UplinkProbe::NotProbe, UdpRoamingIngressPath::Committed),
        UdpRoamingPmtuAction::NotProbe
    );
}

#[test]
fn udp_roaming_control_decoder_shares_packet_codec_and_accepts_client_direction() {
    let key = [0x61; 32];
    let mut sender = Codec::new(key);
    let mut receiver = Codec::new(key);
    let expected = PathControl::Init { cid: [0x72; 8], epoch: 4 };
    let record = encrypted_path_control(&mut sender, 17, &expected);
    let decoded = decrypt_udp_roaming_record(&content(&mut receiver, &record).0)
        .unwrap()
        .expect("PATH_INIT is control");
    let UdpRoamingControlIngress::Path { message_id, message } = decoded else {
        panic!("PATH_INIT decoded as management ACK");
    };
    assert_eq!(message_id, 17);
    assert!(message == expected);

    let response = encrypted_path_control(
        &mut sender,
        18,
        &PathControl::Response { epoch: 4, token: [0x83; 16] },
    );
    let replay = response.clone();
    assert!(decrypt_udp_roaming_record(&content(&mut receiver, &response).0).unwrap().is_some());
    assert_eq!(
        decrypt_udp_roaming_record(&content(&mut receiver, &replay).0).err(),
        Some(UdpRoamingControlError::Decrypt)
    );

    let expected_data = b"authenticated post-commit data";
    let data = sender.encrypt(expected_data);
    let (found, plain) = content(&mut receiver, &data);
    assert!(decrypt_udp_roaming_record(&found).unwrap().is_none());
    assert_eq!(plain, expected_data);
}

#[test]
fn udp_roaming_control_decoder_rejects_server_direction_and_fragmented_control() {
    let key = [0x91; 32];
    let mut sender = Codec::new(key);
    let mut receiver = Codec::new(key);
    let challenge = encrypted_path_control(
        &mut sender,
        21,
        &PathControl::Challenge { epoch: 2, token: [0xA2; 16] },
    );
    assert_eq!(
        decrypt_udp_roaming_record(&content(&mut receiver, &challenge).0).err(),
        Some(UdpRoamingControlError::UnexpectedDirection)
    );

    let fragmented = sender.encrypt(&encode_frame(1, 0, 22, 0, 2, &[]));
    assert_eq!(
        decrypt_udp_roaming_record(&content(&mut receiver, &fragmented).0).err(),
        Some(UdpRoamingControlError::FragmentedControl)
    );
    let unreadable = sender.encrypt(&encode_frame(1, 0, 23, 0, 1, &[1, 2, 3]));
    assert_eq!(
        decrypt_udp_roaming_record(&content(&mut receiver, &unreadable).0).err(),
        Some(UdpRoamingControlError::BadControl)
    );
    let acknowledgement = sender.encrypt(&encode_frame(9, 0, 24, 0, 1, &[]));
    assert!(matches!(
        decrypt_udp_roaming_record(&content(&mut receiver, &acknowledgement).0),
        Ok(Some(UdpRoamingControlIngress::ManagementAck { message_id: 24 }))
    ));
}

#[test]
fn udp_path_control_egress_uses_verified_cids_and_authenticated_shapes() {
    let key = [0xB1; 32];
    let mut sender = Codec::new(key);
    let mut receiver = Codec::new(key);
    let mut counter: u32 = 29;
    let destination_cid = [0xC2; 8];
    let challenge = PathControl::Challenge { epoch: 3, token: [0xD3; 16] };
    let sealed = encrypted_path_control(&mut sender, 31, &challenge);
    let datagram =
        encrypt_udp_roaming_control(&mut counter, destination_cid, 31, challenge, true).unwrap();
    assert!(matches!(datagram.header, UdpHeader::RoamingShort(cid, 29) if cid == destination_cid));
    assert_eq!(datagram.message_id, 31);
    assert_eq!(datagram.flags, 0);
    assert!(datagram.message == challenge);
    let RecordContent::Control(frame) = content(&mut receiver, &sealed).0 else {
        panic!("a challenge is control");
    };
    assert_eq!((frame.message_id, frame.flags), (31, 0));
    assert!(frame.message == Some(challenge));

    let commit_destination_cid = [0xE4; 8];
    let commit = PathControl::Commit { cid: [0xF5; 8], epoch: 3 };
    let datagram =
        encrypt_udp_roaming_control(&mut counter, commit_destination_cid, 32, commit, true).unwrap();
    assert!(
        matches!(datagram.header, UdpHeader::RoamingShort(cid, 30) if cid == commit_destination_cid)
    );
    assert_eq!((datagram.message_id, datagram.flags), (32, 0));
    assert!(datagram.message == commit);

    assert!(encrypt_udp_roaming_control(&mut counter, destination_cid, 33, commit, false).is_none());
    assert_eq!(counter, 31, "a message that could not be sealed uses no packet number up");
}

#[test]
fn udp_roaming_owner_index_rejects_stale_generation_cleanup() {
    let lookup = |generation: u64| CidLookup {
        session_id: 7,
        session_generation: generation,
        path_epoch: 0,
        owner_worker_id: 0,
    };
    let old_address = address(41001);
    let new_address = address(41002);
    let first_lookup = lookup(1);
    let mut index = UdpRoamingOwnerIndex::new();
    index.publish(first_lookup.session_id, first_lookup.session_generation, old_address);
    assert_eq!(index.resolve(first_lookup), Some(old_address));

    let second_lookup = lookup(2);
    assert_ne!(first_lookup.session_generation, second_lookup.session_generation);
    index.publish(second_lookup.session_id, second_lookup.session_generation, new_address);
    index.remove_if_matches(7, first_lookup.session_generation, old_address);
    assert_eq!(index.resolve(second_lookup), Some(new_address));
    assert_eq!(index.resolve(first_lookup), None);
    index.remove_if_matches(7, second_lookup.session_generation, new_address);
    assert_eq!(index.resolve(second_lookup), None);
}

/// A datagram in bytes: where packets are numbered, a header of the session and the number.
fn masked(datagram: &HandshakeDatagram, cid: &[u8; 4]) -> Vec<u8> {
    let mut bytes = Vec::new();
    if let Some(number) = datagram.packet_number {
        bytes.push(0x40);
        bytes.extend_from_slice(cid);
        bytes.extend_from_slice(&number.to_be_bytes());
    }
    bytes.extend_from_slice(&datagram.body);
    bytes
}

#[test]
fn negotiation_error_uses_the_authenticated_record_and_quic_framing() {
    let key = [0x5au8; 32];
    let cid = [9u8, 8, 7, 6];
    for quic_enabled in [false, true] {
        let mut tx = Codec::new(key);
        let mut rx = Codec::new(key);
        let message = build_auth_error("profile requires IPv6 capability");
        let sealed = tx.encrypt(message.as_bytes());
        let packets = build_auth_ok_datagrams(&sealed, quic_enabled, &limits()).expect("ERR response builds");
        assert_eq!(packets.len(), 1);
        let bytes = masked(&packets[0], &cid);
        let record = if quic_enabled { bytes[9..].to_vec() } else { bytes };
        let response = String::from_utf8(rx.decrypt(&record).unwrap()).unwrap();
        assert_eq!(response, "ERR:profile requires IPv6 capability");
    }
}

#[test]
fn a_small_auth_ok_is_still_one_unfragmented_datagram() {
    let record = vec![0xABu8; 400];
    let plain = build_auth_ok_datagrams(&record, false, &limits()).expect("fits");
    assert_eq!(plain.len(), 1);
    assert_eq!(plain[0].body, record, "byte-identical to the record");
    assert_eq!(masked(&plain[0], &[0; 4]), record);
    assert!(plain[0].part.is_none(), "no fragment envelope");

    let edge = vec![0x11u8; limits().max_chunk];
    assert_eq!(build_auth_ok_datagrams(&edge, false, &limits()).expect("fits").len(), 1);

    let with_header = build_auth_ok_datagrams(&record, true, &limits()).expect("fits");
    assert_eq!(with_header.len(), 1);
    assert_ne!(masked(&with_header[0], &[9, 8, 7, 6]), record, "QUIC wrapper applied");
}

#[test]
fn a_large_auth_ok_is_split_and_reassembles_to_the_same_record() {
    let record: Vec<u8> = (0..3_000u32).map(|i| (i * 7) as u8).collect();
    let dgrams = build_auth_ok_datagrams(&record, false, &limits()).expect("splits");
    assert!(dgrams.len() > 1, "must not be sent as one oversized datagram");

    let mut done = Vec::new();
    for (i, d) in dgrams.iter().enumerate() {
        let part = d.part.expect("the client recognizes a piece, it does not guess");
        assert_eq!((part.index as usize, part.count as usize), (i, dgrams.len()));
        assert!(
            d.body.len() <= limits().max_chunk,
            "fragment {} is over the per-datagram budget",
            d.body.len()
        );
        done.extend_from_slice(&d.body);
    }
    assert_eq!(
        done, record,
        "reassembly must return the encrypted record unchanged — it is decrypted after"
    );
}

#[test]
fn the_data_plane_never_reuses_an_authok_pn() {
    for record_len in [400usize, 3_000, 9_000] {
        let record: Vec<u8> = (0..record_len).map(|i| (i * 7) as u8).collect();
        let dgrams = build_auth_ok_datagrams(&record, true, &limits()).expect("builds");

        let pns: Vec<u32> = dgrams.iter().map(|d| d.packet_number.expect("QUIC-wrapped")).collect();
        let expected: Vec<u32> = (0..dgrams.len() as u32).map(|i| AUTH_OK_FIRST_PN + i).collect();
        assert_eq!(pns, expected, "{record_len}B: fragments must number consecutively");

        let reserved = AUTH_OK_FIRST_PN + dgrams.len() as u32;
        assert!(
            pns.iter().all(|&pn| pn < reserved),
            "{record_len}B: the reservation must clear every fragment's PN"
        );
        let first_data_pn = reserve_packet_numbers(UDP_SESSION_FIRST_PN, dgrams.len());
        assert_eq!(first_data_pn, reserved.max(UDP_SESSION_FIRST_PN));
        assert!(
            !pns.contains(&first_data_pn),
            "{record_len}B: the data plane's first PN collides with a fragment"
        );
    }

    let small = build_auth_ok_datagrams(&[0xAB; 400], true, &limits()).expect("fits");
    assert_eq!(small.len(), 1);
    assert_eq!(small[0].packet_number, Some(AUTH_OK_FIRST_PN));
    assert_eq!(
        AUTH_OK_FIRST_PN + small.len() as u32,
        UDP_SESSION_FIRST_PN,
        "the reservation must be a no-op for an unfragmented AuthOK"
    );
}

#[test]
fn an_unfragmentable_auth_ok_is_refused_not_emitted() {
    let huge = vec![0u8; limits().max_frags as usize * limits().max_chunk + 1];
    assert!(build_auth_ok_datagrams(&huge, false, &limits()).is_err());
    let largest = vec![0u8; limits().max_frags as usize * limits().max_chunk];
    assert_eq!(build_auth_ok_datagrams(&largest, false, &limits()).unwrap().len(), 26);
}

#[test]
fn server_hello_is_cut_only_where_the_client_cut_its_own() {
    let hello = vec![7u8; 2500];
    let whole = build_server_hello_datagrams(&hello, true, false, &limits()).unwrap();
    assert_eq!(whole.len(), 1);
    assert_eq!(whole[0].packet_number, Some(0));
    assert!(whole[0].part.is_none());
    let cut = build_server_hello_datagrams(&hello, true, true, &limits()).unwrap();
    assert_eq!(cut.iter().map(|d| d.body.len()).collect::<Vec<_>>(), [1100, 1100, 300]);
    assert_eq!(cut.iter().map(|d| d.packet_number.unwrap()).collect::<Vec<_>>(), [0, 1, 2]);
    let short = build_server_hello_datagrams(&hello[..10], false, true, &limits()).unwrap();
    assert_eq!(short.len(), 1);
    assert!(short[0].part.is_some() && short[0].packet_number.is_none());
}

#[test]
fn reap_window_uses_configured_liveness_when_idle_disabled() {
    assert_eq!(udp_reap_window(0, Some(45 * SECOND)), Some(45 * SECOND));
    assert_eq!(udp_reap_window(0, Some(30 * SECOND)), Some(30 * SECOND));
    assert_eq!(udp_reap_window(0, None), None);
}

#[test]
fn reap_window_honors_shorter_idle_timeout() {
    assert_eq!(udp_reap_window(10 * SECOND, Some(45 * SECOND)), Some(10 * SECOND));
    assert_eq!(udp_reap_window(600 * SECOND, Some(45 * SECOND)), Some(45 * SECOND));
    assert_eq!(udp_reap_window(600 * SECOND, None), Some(600 * SECOND));
}

#[test]
fn reported_udp_budget_never_drops_below_the_family_safe_floor() {
    assert_eq!(sanitized_udp_payload_budget(&wire(), 1, false, 0), 548);
    assert_eq!(sanitized_udp_payload_budget(&wire(), 1, true, 0), 1232);
    assert_eq!(sanitized_udp_payload_budget(&wire(), 1500, false, 13), 1500);
    assert_eq!(sanitized_udp_payload_budget(&wire(), 1500, true, 13), 1500);
    assert_eq!(
        sanitized_udp_payload_budget(&wire(), u16::MAX, false, 13),
        max_useful_udp_payload_budget(&wire(), 13),
        "an authenticated client still cannot make the server emit a useless 64K probe"
    );
    assert_eq!(max_useful_udp_payload_budget(&wire(), 13), 16_658);
}

/// Inner sizes from the ceiling down by hundreds, the floor last.
fn ladder(ceiling: i32, floor: i32) -> Vec<i32> {
    let mut rungs = Vec::new();
    let mut next = ceiling;
    while next > floor {
        rungs.push(next);
        next -= 100;
    }
    rungs.push(floor);
    rungs
}

fn probe_budgets(reported: u16, ipv6: bool, obfs: usize, framing: &UdpEgressFraming) -> Vec<usize> {
    let range = probe_range(&wire(), reported, ipv6, obfs, framing);
    let rungs = range.inner.map(|inner| ladder(inner.ceiling, inner.floor)).unwrap_or_default();
    downlink_mtu_probe_budgets(&range, &rungs)
}

#[test]
fn reverse_probe_ladder_can_certify_a_narrower_downlink_than_reported_uplink() {
    let framing = UdpEgressFraming::RoamingCid([9; 8]);
    let budgets = probe_budgets(1461, false, 0, &framing);
    assert_eq!(budgets.first().copied(), Some(1461));
    let highest_fitting = budgets
        .iter()
        .copied()
        .find(|budget| budget + 8 + 20 <= 1280)
        .expect("the IPv4 floor fits");
    assert_eq!(highest_fitting, 1161);
    assert!(budgets.windows(2).all(|pair| pair[0] > pair[1]));

    let ipv6 = probe_budgets(1461, true, 0, &framing);
    assert_eq!(
        ipv6.last().copied(),
        Some(conservative_udp_payload_budget(true)),
        "the final IPv6 rung must exactly fit the 1280-byte path minimum"
    );
}

#[test]
fn reverse_probe_exactly_fills_the_reported_udp_payload_budget() {
    for (obfs, framing) in [
        (0usize, UdpEgressFraming::Unmasked),
        (13, UdpEgressFraming::Unmasked),
        (0, UdpEgressFraming::LegacyQuic([1, 2, 3, 4])),
        (13, UdpEgressFraming::LegacyQuic([1, 2, 3, 4])),
    ] {
        let target = 1500;
        let datagram =
            build_downlink_mtu_probe(&wire(), 7, target, obfs, &framing, 9).expect("target fits");
        assert_eq!(
            usize::from(datagram.payload_size) + obfs + framing.wrapper_len(&wire()),
            target
        );
        assert_eq!(datagram.token, 7);
        match framing {
            UdpEgressFraming::Unmasked => assert!(matches!(datagram.header, UdpHeader::Bare)),
            _ => assert!(matches!(datagram.header, UdpHeader::QuicShort([1, 2, 3, 4], 9))),
        }
    }
    let framing = UdpEgressFraming::RoamingCid([9; 8]);
    let datagram = build_downlink_mtu_probe(&wire(), 11, 1500, 13, &framing, 17).expect("target fits");
    assert_eq!(usize::from(datagram.payload_size) + 13 + framing.wrapper_len(&wire()), 1500);
    assert!(matches!(datagram.header, UdpHeader::RoamingShort([9, 9, 9, 9, 9, 9, 9, 9], 17)));
    assert!(build_downlink_mtu_probe(&wire(), 11, 20, 13, &framing, 17).is_none());
}

fn socket(id: u64) -> EgressSocket {
    EgressSocket { id, seal_overhead: 0, local_is_ipv4: Some(true) }
}

fn commit(
    expected_epoch: u64,
    expected_peer: CarrierAddress,
    next_epoch: u64,
    socket: EgressSocket,
    peer: CarrierAddress,
    cid: u8,
) -> UdpEgressCommit {
    UdpEgressCommit {
        expected_epoch,
        expected_peer,
        next_epoch,
        socket,
        peer,
        destination_cid: [cid; 8],
    }
}

#[test]
fn udp_writer_path_commit_is_atomic_epoch_guarded_and_uses_the_new_cid() {
    let first_socket = socket(1);
    let second_socket = socket(2);
    let first_peer = address(41001);
    let second_peer = address(41002);
    let now = 100 * SECOND;
    let drain = now + 5 * SECOND;

    let mut bootstrapped = UdpActiveEgress::new_roaming(first_socket, first_peer, [6; 8], 548);
    assert!(matches!(
        bootstrapped.snapshot().framing.header(6),
        UdpHeader::RoamingShort([6, 6, 6, 6, 6, 6, 6, 6], 6)
    ));
    assert_eq!(
        bootstrapped.classify_roaming_ingress(0, first_peer, 1, now),
        Some(UdpRoamingIngressPath::Committed)
    );
    assert_eq!(
        bootstrapped.classify_roaming_ingress(1, second_peer, 2, now),
        Some(UdpRoamingIngressPath::Candidate)
    );

    let mut active = UdpActiveEgress::new_legacy(first_socket, first_peer, true, [1, 2, 3, 4], 1500);
    let initial = active.snapshot();
    assert!(matches!(initial.framing.header(7), UdpHeader::QuicShort([1, 2, 3, 4], 7)));
    assert_eq!(initial.peer, first_peer);
    assert_eq!(initial.socket, first_socket);
    assert_eq!(
        active.classify_roaming_ingress(0, first_peer, 1, now),
        None,
        "the current CID must not carry DATA until roaming framing is committed"
    );
    assert_eq!(
        active.classify_roaming_ingress(1, second_peer, 2, now),
        Some(UdpRoamingIngressPath::Candidate)
    );
    assert_eq!(initial.record_budget(&wire(), 548), Some(548 - wire().quic_short_header));

    assert_eq!(
        active.commit_roaming_with(&commit(1, first_peer, 2, second_socket, second_peer, 9), true, drain),
        Err(UdpEgressPublishError::State(UdpEgressCommitError::StaleEpoch))
    );
    assert_eq!(active.snapshot_with_payload_budget().1, 1500);
    assert_eq!(active.snapshot().peer, first_peer);
    assert_eq!(active.certify_payload_budget(0, first_peer, 1492), Some(1500));
    assert_eq!(active.snapshot_with_payload_budget().1, 1492);
    assert_eq!(
        active.commit_roaming_with(&commit(0, first_peer, 1, second_socket, second_peer, 9), false, drain),
        Err(UdpEgressPublishError::Publish)
    );
    let unchanged = active.snapshot();
    assert_eq!(unchanged.path_epoch, 0);
    assert_eq!(unchanged.peer, first_peer);
    assert_eq!(unchanged.socket, first_socket);
    assert_eq!(
        active.snapshot_with_payload_budget().1,
        1492,
        "a failed PATH_COMMIT send must leave the old path and PMTU intact"
    );
    active
        .commit_roaming_with(&commit(0, first_peer, 1, second_socket, second_peer, 9), true, drain)
        .unwrap();
    assert_eq!(active.snapshot_with_payload_budget().1, 548);

    let committed = active.snapshot();
    assert_eq!(committed.path_epoch, 1);
    assert_eq!(committed.peer, second_peer);
    assert_eq!(committed.socket, second_socket);
    assert_eq!(
        active.classify_roaming_ingress(1, second_peer, 2, now),
        Some(UdpRoamingIngressPath::Committed)
    );
    assert_eq!(
        active.classify_roaming_ingress(0, first_peer, 1, now),
        None,
        "legacy bootstrap framing is not a roaming receive-drain alias"
    );
    assert_eq!(active.classify_roaming_ingress(0, second_peer, 1, now), None);
    assert_eq!(
        active.classify_roaming_ingress(2, first_peer, 1, now),
        Some(UdpRoamingIngressPath::Candidate)
    );
    assert_eq!(
        active.classify_roaming_ingress(0, second_peer, 2, now),
        None,
        "a previous CID epoch cannot migrate to the new peer/socket"
    );
    assert_eq!(active.classify_roaming_ingress(1, first_peer, 2, now), None);
    assert_eq!(
        active.classify_roaming_ingress(1, second_peer, 1, now),
        None,
        "a same-family listener cannot impersonate the committed receiving socket"
    );
    assert_eq!(committed.record_budget(&wire(), 548), Some(548 - wire().roaming_short_header));
    assert_eq!(
        active.certify_payload_budget(0, first_peer, 1492),
        None,
        "an ACK for the old path cannot widen the committed path budget"
    );
    assert_eq!(active.snapshot_with_payload_budget().1, 548);
    assert_eq!(active.certify_payload_budget(1, second_peer, 1472), Some(548));
    assert_eq!(active.snapshot_with_payload_budget().1, 1472);
    assert!(matches!(
        committed.framing.header(8),
        UdpHeader::RoamingShort([9, 9, 9, 9, 9, 9, 9, 9], 8)
    ));
    assert_eq!(
        active.commit_roaming_with(&commit(1, first_peer, 2, first_socket, first_peer, 7), true, drain),
        Err(UdpEgressPublishError::State(UdpEgressCommitError::StalePeer))
    );
    assert_eq!(
        active.commit_roaming_with(&commit(0, first_peer, 1, first_socket, first_peer, 7), true, drain),
        Err(UdpEgressPublishError::State(UdpEgressCommitError::StaleEpoch))
    );
    active
        .commit_roaming_with(&commit(1, second_peer, 2, first_socket, first_peer, 7), true, drain)
        .unwrap();
    assert_eq!(active.snapshot().peer, first_peer);
    assert_eq!(
        active.classify_roaming_ingress(2, first_peer, 1, now),
        Some(UdpRoamingIngressPath::Committed)
    );
    assert_eq!(
        active.classify_roaming_ingress(1, second_peer, 2, now),
        Some(UdpRoamingIngressPath::Draining),
        "the exact previous roaming path remains receive-only for bounded DATA_FRAG drain"
    );
    assert_eq!(
        active.classify_roaming_ingress(1, first_peer, 2, now),
        None,
        "the draining epoch remains pinned to its exact peer and socket"
    );
    assert_eq!(
        active.classify_roaming_ingress(1, second_peer, 2, drain + 1),
        None,
        "previous roaming ingress is rejected after the bounded drain expires"
    );
    assert!(active.draining.is_none());
}

#[test]
fn commits_with_a_gap_or_a_foreign_family_are_refused() {
    let mut active = UdpActiveEgress::new_roaming(socket(1), address(1), [1; 8], 548);
    assert_eq!(
        active.commit_roaming_with(&commit(0, address(1), 2, socket(2), address(2), 2), true, 0),
        Err(UdpEgressPublishError::State(UdpEgressCommitError::InvalidEpoch))
    );
    assert_eq!(
        active.commit_roaming_with(&commit(u64::MAX, address(1), 0, socket(2), address(2), 2), true, 0),
        Err(UdpEgressPublishError::State(UdpEgressCommitError::InvalidEpoch))
    );
    let foreign = EgressSocket { local_is_ipv4: Some(false), ..socket(2) };
    assert_eq!(
        active.commit_roaming_with(&commit(0, address(1), 1, foreign, address(2), 2), true, 0),
        Err(UdpEgressPublishError::State(UdpEgressCommitError::FamilyMismatch))
    );
}

#[test]
fn late_size_errors_never_widen_a_budget() {
    let mut active = UdpActiveEgress::new_roaming(socket(1), address(1), [1; 8], 1400);
    assert_eq!(active.downgrade_payload_budget(0), 548);
    assert_eq!(active.payload_budget, 548);
    active.payload_budget = 500;
    active.downgrade_payload_budget(0);
    assert_eq!(active.payload_budget, 500);
    active.downgrade_payload_budget(9);
    assert_eq!(active.payload_budget, 548);
}

#[test]
fn probes_run_one_sequence_per_path_and_answers_count_once() {
    let path = UdpActiveEgress::new_roaming(socket(1), address(1), [1; 8], 548).snapshot();
    let session = ProbeSession { authenticated: true, data_frag_enabled: true, owns_budget: true };
    let targets = start_probes(session, &path, address(1), &vec![1461, 1161, 500], 548, &None);
    assert_eq!(targets, [1461, 1161]);
    assert!(start_probes(session, &path, address(2), &vec![1461], 548, &None).is_empty());
    let waiting = ProbeSession { authenticated: false, ..session };
    assert!(start_probes(waiting, &path, address(1), &vec![1461], 548, &None).is_empty());

    let mut counter = u32::MAX;
    let flights = plan_flights(&wire(), &path, &targets, &vec![5, 6], &mut counter);
    assert_eq!(flights.len(), 2);
    assert_eq!(counter, 1);
    assert_eq!(flights[0].probe.payload_size, 1448);
    let first = flights[0].probe;
    let second = flights[1].probe;

    let mut pending: Option<DownlinkMtuProbe> = Some(first);
    assert!(start_probes(session, &path, address(1), &vec![1461], 548, &pending).is_empty());
    assert_eq!(next_rung(&mut pending, None, first, 0, address(1)), RungStep::Send);
    assert_eq!(next_rung(&mut pending, Some(first), second, 0, address(1)), RungStep::Send);
    assert_eq!(pending, Some(second));
    assert_eq!(take_answer(&mut pending, 5, second.payload_size, 0, address(1)), None);
    assert_eq!(take_answer(&mut pending, 6, second.payload_size, 1, address(1)), None);
    assert_eq!(take_answer(&mut pending, 6, second.payload_size, 0, address(1)), Some(second));
    assert_eq!(take_answer(&mut pending, 6, second.payload_size, 0, address(1)), None);
    assert_eq!(next_rung(&mut pending, Some(second), first, 0, address(1)), RungStep::Abandon);

    let mut pending = Some(second);
    assert!(is_unanswered(&pending, second) && !is_unanswered(&pending, first));
    end_sequence(&mut pending, first);
    assert_eq!(pending, Some(second));
    end_sequence(&mut pending, second);
    assert_eq!(pending, None);

    let mut pending = Some(first);
    assert_eq!(next_rung(&mut pending, None, first, 1, address(1)), RungStep::Abandon);
    assert_eq!(pending, None);
}
