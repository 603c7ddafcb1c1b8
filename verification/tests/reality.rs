use qeli::reality::{
    copy_step, has_alpn_extension, is_short_id_allowed, CopyEvent, CopyStep, DecoyGate,
    GateVerdict, HelloToken, PeekWindow, RealityConnection, RealityEvent, RealityFailure,
    RealityPolicy, RealityStep, TlsOutcome, CLIENT_PREFACE,
};

fn hello(exts: &[[u8; 4]]) -> Vec<u8> {
    let mut m = vec![0u8; 43];
    m[5] = 0x01;
    m.push(0);
    m.extend_from_slice(&[0, 0]);
    m.push(0);
    let total = (exts.len() * 4) as u16;
    m.extend_from_slice(&total.to_be_bytes());
    for e in exts {
        m.extend_from_slice(e);
    }
    m
}

#[test]
fn has_alpn_extension_never_panics_on_hostile_input() {
    for n in 0..64 {
        assert!(!has_alpn_extension(&vec![0u8; n]), "all-zero len {n}");
        assert!(!has_alpn_extension(&vec![0xFFu8; n]), "all-ones len {n}");
    }

    let mut m = vec![0u8; 64];
    m[5] = 0x01;
    for pos in [43usize, 44, 46, 50, 60, 63] {
        let mut bad = m.clone();
        for v in [0xFFu8, 0x7F, 0x80] {
            bad[pos] = v;
            let _ = has_alpn_extension(&bad);
        }
    }

    let filler = vec![[0x00u8, 0x2B, 0x00, 0x00]; 256];
    let started = std::time::Instant::now();
    assert!(!has_alpn_extension(&hello(&filler)), "no ALPN extension present");
    assert!(
        started.elapsed() < std::time::Duration::from_millis(200),
        "the extension walk must terminate"
    );

    let mut trailing = filler.clone();
    trailing.push([0x00, 0x10, 0x00, 0x00]);
    assert!(has_alpn_extension(&hello(&trailing)), "ALPN last must be detected");

    let mut leading = vec![[0x00u8, 0x10, 0x00, 0x00]];
    leading.extend_from_slice(&filler);
    assert!(has_alpn_extension(&hello(&leading)), "ALPN first must be detected");

    assert!(
        has_alpn_extension(&hello(&[[0x00, 0x10, 0x00, 0x00]])),
        "a lone ALPN extension must be detected"
    );

    let mut lying = hello(&filler);
    let n = lying.len();
    lying[47] = 0xFF;
    lying[48] = 0xFF;
    assert!(!has_alpn_extension(&lying), "must not find ALPN past the buffer");
    assert_eq!(lying.len(), n, "the parser must not mutate its input");
}

fn policy(short_ids: Vec<Option<Vec<u8>>>, real_tls: bool, handrolled: bool) -> RealityPolicy {
    RealityPolicy { short_ids, real_tls, handrolled, peek_timeout_ms: 0, handshake_timeout_secs: 0 }
}

fn client_header(record_len: u16) -> Vec<u8> {
    let length = record_len.to_be_bytes();
    vec![0x16, 3, 1, length[0], length[1], 0x01]
}

fn at_hello(policy: &RealityPolicy) -> RealityConnection {
    let (mut connection, first) = RealityConnection::start();
    assert!(matches!(first, RealityStep::Peek(6)));
    let step = connection.advance(policy, RealityEvent::Peeked(Some(client_header(512))));
    assert!(matches!(step, RealityStep::Peek(517)));
    connection
}

#[test]
fn strangers_are_bridged_before_anything_is_spent() {
    let open = policy(Vec::new(), false, false);
    for header in [None, Some(vec![0x16, 3, 1]), Some(b"GET / ".to_vec()), Some(vec![0x16, 3, 1, 0, 9, 2])] {
        let (mut connection, _) = RealityConnection::start();
        assert!(matches!(
            connection.advance(&open, RealityEvent::Peeked(header)),
            RealityStep::Bridge
        ));
    }
    let mut connection = at_hello(&open);
    let with_alpn = hello(&[[0x00, 0x10, 0x00, 0x00]]);
    assert!(matches!(
        connection.advance(&open, RealityEvent::Peeked(Some(with_alpn))),
        RealityStep::Bridge
    ));
    let mut connection = at_hello(&open);
    assert!(matches!(
        connection.advance(&open, RealityEvent::Peeked(Some(hello(&[])))),
        RealityStep::Serve
    ));
    let (mut connection, _) = RealityConnection::start();
    assert!(matches!(
        connection.advance(&open, RealityEvent::Peeked(Some(client_header(u16::MAX)))),
        RealityStep::Peek(16_389)
    ));
}

fn with_token(policy: &RealityPolicy, key_share: usize) -> (RealityConnection, RealityStep) {
    let mut connection = at_hello(policy);
    assert!(matches!(
        connection.advance(policy, RealityEvent::Peeked(Some(hello(&[])))),
        RealityStep::Parse
    ));
    let token = HelloToken { session_id: [7; 32], key_share: vec![1; key_share] };
    let step = connection.advance(policy, RealityEvent::Parsed(Some(token)));
    (connection, step)
}

#[test]
fn a_token_counts_once_and_only_with_an_allowed_short_id() {
    let guarded = policy(vec![None, Some(vec![1, 2])], true, true);
    let (_, step) = with_token(&guarded, 31);
    assert!(matches!(step, RealityStep::Bridge), "a key share has 32 bytes");

    let (mut connection, step) = with_token(&guarded, 32);
    assert!(matches!(step, RealityStep::Open));
    assert!(matches!(
        connection.advance(&guarded, RealityEvent::Opened(Some(vec![9]))),
        RealityStep::Bridge
    ));

    let (mut connection, _) = with_token(&guarded, 32);
    let step = connection.advance(&guarded, RealityEvent::Opened(Some(vec![1, 2])));
    assert!(matches!(step, RealityStep::Observe(id) if id == [7; 32]));
    assert!(matches!(
        connection.advance(&guarded, RealityEvent::Observed(false)),
        RealityStep::Bridge
    ));

    let (mut connection, _) = with_token(&guarded, 32);
    connection.advance(&guarded, RealityEvent::Opened(Some(vec![1, 2])));
    assert!(matches!(
        connection.advance(&guarded, RealityEvent::Observed(true)),
        RealityStep::TerminateHandRolled
    ));
    assert!(matches!(
        connection.advance(&guarded, RealityEvent::Terminated(TlsOutcome::Established)),
        RealityStep::ReadPreface
    ));
    assert!(matches!(
        connection.advance(&guarded, RealityEvent::Preface(Some(CLIENT_PREFACE.to_vec()))),
        RealityStep::AcceptHttp2
    ));
    assert!(matches!(
        connection.advance(&guarded, RealityEvent::CarrierAccepted(true)),
        RealityStep::ServeHttp2
    ));
    assert_eq!(&CLIENT_PREFACE, b"PRI * HTTP/2.0\r\n\r\nSM\r\n\r\n");
    assert!(is_short_id_allowed(&[1, 2], &guarded.short_ids));
    assert!(!is_short_id_allowed(&[], &guarded.short_ids));
}

#[test]
fn failures_after_the_token_are_reported() {
    let guarded = policy(vec![Some(vec![1])], true, false);
    let accepted = || {
        let (mut connection, _) = with_token(&guarded, 32);
        connection.advance(&guarded, RealityEvent::Opened(Some(vec![1])));
        let step = connection.advance(&guarded, RealityEvent::Observed(true));
        assert!(matches!(step, RealityStep::TerminateTls));
        connection
    };
    let mut connection = accepted();
    assert!(matches!(
        connection.advance(&guarded, RealityEvent::Terminated(TlsOutcome::TimedOut)),
        RealityStep::Fail(RealityFailure::TlsTimedOut)
    ));
    let mut connection = accepted();
    assert!(matches!(
        connection.advance(&guarded, RealityEvent::Terminated(TlsOutcome::Failed)),
        RealityStep::Fail(RealityFailure::TlsFailed)
    ));
    let mut connection = accepted();
    connection.advance(&guarded, RealityEvent::Terminated(TlsOutcome::Established));
    assert!(matches!(
        connection.advance(&guarded, RealityEvent::Preface(None)),
        RealityStep::Fail(RealityFailure::CarrierSelectionFailed)
    ));
    let mut connection = accepted();
    connection.advance(&guarded, RealityEvent::Terminated(TlsOutcome::Established));
    assert!(matches!(
        connection.advance(&guarded, RealityEvent::Preface(Some(vec![0; 24]))),
        RealityStep::Serve
    ));
    let mut connection = accepted();
    connection.advance(&guarded, RealityEvent::Terminated(TlsOutcome::Established));
    connection.advance(&guarded, RealityEvent::Preface(Some(CLIENT_PREFACE.to_vec())));
    assert!(matches!(
        connection.advance(&guarded, RealityEvent::CarrierAccepted(false)),
        RealityStep::Fail(RealityFailure::CarrierFailed)
    ));
    assert!(matches!(
        connection.advance(&guarded, RealityEvent::Observed(true)),
        RealityStep::Fail(RealityFailure::Unexpected)
    ));
    assert_eq!(guarded.handshake_timeout(), 5);
    assert_eq!(guarded.peek_budget(), 300);
}

#[test]
fn decoys_have_a_budget_of_their_own() {
    let mut gate = DecoyGate { decoy_free: 1, handshake_free: 0, refused: 0 };
    assert_eq!(gate.take_over(true), GateVerdict::Bridge);
    assert_eq!(gate, DecoyGate { decoy_free: 0, handshake_free: 1, refused: 0 });
    assert_eq!(gate.take_over(true), GateVerdict::DropAndReport);
    assert_eq!(gate.take_over(false), GateVerdict::Drop);
    assert_eq!(gate, DecoyGate { decoy_free: 0, handshake_free: 2, refused: 2 });
}

#[test]
fn recv_peek_reassembles_segmented_window() {
    let mut window = PeekWindow::open(300, 1500, 0);
    for segment in 1..30usize {
        assert!(!window.observe(segment * 10, segment as u64 * 3));
    }
    assert!(window.observe(300, 90), "every segment is there");

    let mut silent = PeekWindow::open(300, 1500, 0);
    assert!(!silent.observe(10, 5));
    assert!(!silent.observe(10, 304));
    assert!(silent.observe(10, 305), "nothing came for a fifth of the budget");

    let mut dribble = PeekWindow::open(300, 300, 0);
    assert_eq!(dribble.stall, 100);
    assert!(!dribble.observe(1, 99));
    assert!(!dribble.observe(2, 198));
    assert!(!dribble.observe(3, 297));
    assert!(dribble.observe(4, 300));
}

#[test]
fn copy_until_idle_propagates_half_close() {
    assert_eq!(copy_step(CopyEvent::Read(7)), CopyStep::Write(7));
    assert_eq!(copy_step(CopyEvent::Read(0)), CopyStep::HalfClose);
    assert_eq!(copy_step(CopyEvent::Idle), CopyStep::TimeOut);
    assert_eq!(copy_step(CopyEvent::Failed), CopyStep::Fail);
}
