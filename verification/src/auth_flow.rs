//! The order of the authenticated TCP handshake, and what the client puts into it.
//!
//! The wire and the keys live with the caller: it performs the step that the flow is in and hands
//! back what happened. The flow decides what comes next and keeps the transcript.

use crate::text::{append_bytes, same_text};
use vstd::prelude::*;
use vstd::utf8::encode_utf8;

verus! {

/// How the inner handshake is framed.
#[derive(Debug, Clone, Copy, PartialEq, Eq, Structural)]
pub enum HandshakeFraming {
    /// Bare keys, for a transport that already looks like something else.
    Raw,
    /// A hybrid TLS-shaped flight.
    FakeTls,
}

pub open spec fn framing_of(mode: Seq<char>) -> HandshakeFraming {
    if mode == "plain"@ || mode == "reality-tls"@ {
        HandshakeFraming::Raw
    } else {
        HandshakeFraming::FakeTls
    }
}

pub fn handshake_framing(mode: &str) -> (framing: HandshakeFraming)
    ensures
        framing == framing_of(mode@),
{
    if same_text(mode, "plain") || same_text(mode, "reality-tls") {
        HandshakeFraming::Raw
    } else {
        HandshakeFraming::FakeTls
    }
}

#[derive(Debug, Clone, Copy, PartialEq, Eq, Structural)]
pub enum FlightError {
    NotUdp,
    UnsupportedMode,
}

/// Whether a profile can open with a UDP ClientHello flight.
pub fn check_udp_client_hello_flight(protocol: &str, mode: &str) -> (result: Result<(), FlightError>)
    ensures
        result == if protocol@ != "udp"@ {
            Err::<(), FlightError>(FlightError::NotUdp)
        } else if mode@ != "fake-tls"@ && mode@ != "obfs"@ {
            Err(FlightError::UnsupportedMode)
        } else {
            Ok(())
        },
{
    if !same_text(protocol, "udp") {
        return Err(FlightError::NotUdp);
    }
    if !same_text(mode, "fake-tls") && !same_text(mode, "obfs") {
        return Err(FlightError::UnsupportedMode);
    }
    Ok(())
}

/// The server key that a profile pins.
#[derive(Debug, Clone, Copy)]
pub enum PinnedKey {
    Absent,
    Invalid,
    Key([u8; 32]),
}

#[derive(Debug, Clone, Copy, PartialEq, Eq, Structural)]
pub enum StaticKeyError {
    NoKeyPinned,
    InvalidKey,
    ZeroKey,
}

pub open spec fn is_zero(key: Seq<u8>) -> bool {
    forall|i: int| 0 <= i < key.len() ==> key[i] == 0
}

fn all_zero(key: &[u8; 32]) -> (zero: bool)
    ensures
        zero == is_zero(key@),
{
    let mut i: usize = 0;
    while i < 32
        invariant
            i <= 32,
            key@.len() == 32,
            forall|j: int| 0 <= j < i ==> key@[j] == 0,
        decreases 32 - i,
    {
        if key[i] != 0 {
            return false;
        }
        i += 1;
    }
    true
}

/// The pinned key that the session keys are bound to, where the profile binds them. The all-zero
/// key is the mark of trust on first use and never binds.
pub fn static_binding(bind_static_to_session: bool, pinned: PinnedKey) -> (result: Result<
    Option<[u8; 32]>,
    StaticKeyError,
>)
    ensures
        if !bind_static_to_session {
            result == Ok::<Option<[u8; 32]>, StaticKeyError>(None)
        } else {
            match pinned {
                PinnedKey::Absent => result == Err::<Option<[u8; 32]>, StaticKeyError>(
                    StaticKeyError::NoKeyPinned,
                ),
                PinnedKey::Invalid => result == Err::<Option<[u8; 32]>, StaticKeyError>(
                    StaticKeyError::InvalidKey,
                ),
                PinnedKey::Key(key) => if is_zero(key@) {
                    result == Err::<Option<[u8; 32]>, StaticKeyError>(StaticKeyError::ZeroKey)
                } else {
                    result == Ok::<Option<[u8; 32]>, StaticKeyError>(Some(key))
                },
            }
        },
{
    if !bind_static_to_session {
        return Ok(None);
    }
    match pinned {
        PinnedKey::Absent => Err(StaticKeyError::NoKeyPinned),
        PinnedKey::Invalid => Err(StaticKeyError::InvalidKey),
        PinnedKey::Key(key) => if all_zero(&key) {
            Err(StaticKeyError::ZeroKey)
        } else {
            Ok(Some(key))
        },
    }
}

/// How the identity of a server is verified.
#[derive(Debug, Clone, Copy)]
pub enum IdentityCheck {
    /// The message carries the server's key beside the proof.
    FullMessage,
    /// The message carries the proof alone; the key is the pinned one.
    ProofOnly([u8; 32]),
    /// The message carries the proof alone and no key is pinned.
    NoKeyPinned,
}

/// Chooses how to verify a proof of this length, once the capability extension is split off.
pub fn choose_identity_check(proof_len: usize, pinned: PinnedKey) -> (check: IdentityCheck)
    ensures
        check == if proof_len >= 64 {
            IdentityCheck::FullMessage
        } else {
            match pinned {
                PinnedKey::Key(key) => IdentityCheck::ProofOnly(key),
                _ => IdentityCheck::NoKeyPinned,
            }
        },
{
    if proof_len >= 64 {
        return IdentityCheck::FullMessage;
    }
    match pinned {
        PinnedKey::Key(key) => IdentityCheck::ProofOnly(key),
        _ => IdentityCheck::NoKeyPinned,
    }
}

/// Whether the session id of the ClientHello carries a sealed short id: both the short id and a
/// readable server key must be configured.
pub fn seals_session_id(short_id: Option<&str>, pinned: PinnedKey) -> (seals: bool)
    ensures
        seals == ((short_id matches Some(text) && text@.len() > 0) && pinned is Key),
{
    let named = match short_id {
        Some(text) => text.unicode_len() > 0,
        None => false,
    };
    let readable = match pinned {
        PinnedKey::Key(_) => true,
        _ => false,
    };
    named && readable
}

/// The proof field of a client that has no key to prove.
pub open spec fn no_proof() -> Seq<u8> {
    Seq::new(32, |i: int| 0u8)
}

/// What a client encrypts to authenticate: the key proof, a zero byte and the device id, the
/// encoded capabilities where some were negotiated, and `username:password`.
pub open spec fn auth_plaintext(
    key_proof: Option<Seq<u8>>,
    device_id: Seq<u8>,
    capabilities: Seq<u8>,
    username: Seq<char>,
    password: Seq<char>,
) -> Seq<u8> {
    let field = match key_proof {
        Some(bytes) => bytes,
        None => no_proof(),
    };
    field.push(0u8) + device_id + capabilities + encode_utf8(username) + encode_utf8(":"@)
        + encode_utf8(password)
}

/// Builds what a client encrypts to authenticate.
pub fn build_client_auth_plaintext(
    key_proof: Option<[u8; 32]>,
    device_id: &[u8],
    capabilities: Option<&Vec<u8>>,
    username: &str,
    password: &str,
) -> (plaintext: Vec<u8>)
    ensures
        plaintext@ == auth_plaintext(
            match key_proof {
                Some(bytes) => Some(bytes@),
                None => None,
            },
            device_id@,
            match capabilities {
                Some(bytes) => bytes@,
                None => Seq::empty(),
            },
            username@,
            password@,
        ),
{
    let mut plaintext: Vec<u8> = Vec::new();
    match key_proof {
        Some(bytes) => {
            append_bytes(&mut plaintext, bytes.as_slice());
            assert(plaintext@ =~= bytes@);
        },
        None => {
            let zero: [u8; 32] = [0u8; 32];
            append_bytes(&mut plaintext, zero.as_slice());
            assert(plaintext@ =~= no_proof());
        },
    }
    plaintext.push(0);
    append_bytes(&mut plaintext, device_id);
    match capabilities {
        Some(bytes) => append_bytes(&mut plaintext, bytes.as_slice()),
        None => {
            assert(plaintext@ + Seq::<u8>::empty() =~= plaintext@);
        },
    }
    append_bytes(&mut plaintext, username.as_bytes());
    append_bytes(&mut plaintext, ":".as_bytes());
    append_bytes(&mut plaintext, password.as_bytes());
    plaintext
}

/// Where the handshake is.
#[derive(Debug, Clone, Copy, PartialEq, Eq, Structural)]
pub enum AuthStep {
    SendHello,
    ReadServerKey,
    ReadServerHello,
    ReadChangeCipherSpec,
    ReadCertificate,
    ReadFinished,
    ReadSessionTicket,
    DeriveKeys,
    ReadProof,
    VerifyIdentity,
    ConfirmKey,
    SendCredentials,
    ReadResponse,
    Done,
    Failed(AuthFailure),
}

#[derive(Debug, Clone, Copy, PartialEq, Eq, Structural)]
pub enum AuthFailure {
    /// The wire failed at this step.
    Wire,
    InvalidServerHello,
    MissingChangeCipherSpec,
    KeyAgreement,
    Proof,
    Identity,
    KeyRefused,
    Response,
    /// What happened does not belong to the step.
    OutOfOrder,
}

/// What happened at a step.
#[derive(Debug)]
pub enum AuthEvent {
    /// The opening message went out.
    HelloSent(Vec<u8>),
    /// A message of the server came in.
    Received(Vec<u8>),
    /// A ServerHello came in; whether it has both key shares.
    ServerHello(Vec<u8>, bool),
    /// The wire failed.
    WireFailed,
    /// The step was performed; whether it succeeded.
    Performed(bool),
}

pub enum AuthEventView {
    HelloSent(Seq<u8>),
    Received(Seq<u8>),
    ServerHello(Seq<u8>, bool),
    WireFailed,
    Performed(bool),
}

impl View for AuthEvent {
    type V = AuthEventView;

    open spec fn view(&self) -> AuthEventView {
        match *self {
            AuthEvent::HelloSent(bytes) => AuthEventView::HelloSent(bytes@),
            AuthEvent::Received(bytes) => AuthEventView::Received(bytes@),
            AuthEvent::ServerHello(bytes, parsed) => AuthEventView::ServerHello(bytes@, parsed),
            AuthEvent::WireFailed => AuthEventView::WireFailed,
            AuthEvent::Performed(success) => AuthEventView::Performed(success),
        }
    }
}

#[verifier::ext_equal]
pub struct AuthFlowView {
    pub framing: HandshakeFraming,
    pub step: AuthStep,
    pub transcript: Seq<Seq<u8>>,
    pub identity_verified: bool,
    pub key_confirmed: bool,
}

impl AuthFlowView {
    pub open spec fn at(self, step: AuthStep) -> AuthFlowView {
        AuthFlowView { step, ..self }
    }

    pub open spec fn failed(self, failure: AuthFailure) -> AuthFlowView {
        self.at(AuthStep::Failed(failure))
    }

    /// The flow with one more message in its transcript.
    pub open spec fn heard(self, message: Seq<u8>, step: AuthStep) -> AuthFlowView {
        AuthFlowView { step, transcript: self.transcript.push(message), ..self }
    }

    /// The flow after an event. The change-cipher-spec and the session ticket are read, but not
    /// part of the transcript.
    pub open spec fn after(self, event: AuthEventView) -> AuthFlowView {
        match (self.step, event) {
            (AuthStep::Failed(_), _) => self,
            (AuthStep::Done, _) => self,
            (_, AuthEventView::WireFailed) => self.failed(AuthFailure::Wire),
            (AuthStep::SendHello, AuthEventView::HelloSent(hello)) => self.heard(
                hello,
                if self.framing is Raw {
                    AuthStep::ReadServerKey
                } else {
                    AuthStep::ReadServerHello
                },
            ),
            (AuthStep::ReadServerKey, AuthEventView::Received(key)) => self.heard(
                key,
                AuthStep::DeriveKeys,
            ),
            (AuthStep::ReadServerHello, AuthEventView::ServerHello(hello, parsed)) => if parsed {
                self.heard(hello, AuthStep::ReadChangeCipherSpec)
            } else {
                self.failed(AuthFailure::InvalidServerHello)
            },
            (AuthStep::ReadChangeCipherSpec, AuthEventView::Received(record)) => if record.len() > 0
                && record[0] == 0x14 {
                self.at(AuthStep::ReadCertificate)
            } else {
                self.failed(AuthFailure::MissingChangeCipherSpec)
            },
            (AuthStep::ReadCertificate, AuthEventView::Received(record)) => self.heard(
                record,
                AuthStep::ReadFinished,
            ),
            (AuthStep::ReadFinished, AuthEventView::Received(record)) => self.heard(
                record,
                AuthStep::ReadSessionTicket,
            ),
            (AuthStep::ReadSessionTicket, AuthEventView::Received(_)) => self.at(
                AuthStep::DeriveKeys,
            ),
            (AuthStep::DeriveKeys, AuthEventView::Performed(success)) => if success {
                self.at(AuthStep::ReadProof)
            } else {
                self.failed(AuthFailure::KeyAgreement)
            },
            (AuthStep::ReadProof, AuthEventView::Performed(success)) => if success {
                self.at(AuthStep::VerifyIdentity)
            } else {
                self.failed(AuthFailure::Proof)
            },
            (AuthStep::VerifyIdentity, AuthEventView::Performed(success)) => if success {
                AuthFlowView { step: AuthStep::ConfirmKey, identity_verified: true, ..self }
            } else {
                self.failed(AuthFailure::Identity)
            },
            (AuthStep::ConfirmKey, AuthEventView::Performed(success)) => if success {
                AuthFlowView { step: AuthStep::SendCredentials, key_confirmed: true, ..self }
            } else {
                self.failed(AuthFailure::KeyRefused)
            },
            (AuthStep::SendCredentials, AuthEventView::Performed(success)) => if success {
                self.at(AuthStep::ReadResponse)
            } else {
                self.failed(AuthFailure::Wire)
            },
            (AuthStep::ReadResponse, AuthEventView::Performed(success)) => if success {
                self.at(AuthStep::Done)
            } else {
                self.failed(AuthFailure::Response)
            },
            _ => self.failed(AuthFailure::OutOfOrder),
        }
    }

    /// How many messages the transcript has at a step.
    pub open spec fn transcript_len(self) -> int {
        match self.step {
            AuthStep::SendHello => 0,
            AuthStep::ReadServerKey => 1,
            AuthStep::ReadServerHello => 1,
            AuthStep::ReadChangeCipherSpec => 2,
            AuthStep::ReadCertificate => 2,
            AuthStep::ReadFinished => 3,
            AuthStep::ReadSessionTicket => 4,
            _ => if self.framing is Raw {
                2
            } else {
                4
            },
        }
    }

    /// What every flow keeps: credentials leave only after the server's identity was verified and
    /// its key confirmed, and the keys are derived from the complete transcript.
    pub open spec fn valid(self) -> bool {
        &&& (self.step is SendCredentials || self.step is ReadResponse || self.step is Done)
            ==> self.identity_verified && self.key_confirmed
        &&& self.step is ConfirmKey ==> self.identity_verified
        &&& self.step is Failed || self.transcript.len() == self.transcript_len()
        &&& (self.step is ReadServerKey) ==> self.framing is Raw
        &&& (self.step is ReadServerHello || self.step is ReadChangeCipherSpec
            || self.step is ReadCertificate || self.step is ReadFinished
            || self.step is ReadSessionTicket) ==> self.framing is FakeTls
    }
}

/// Whatever happens, credentials are sent only to a server whose identity was verified and whose
/// key was confirmed, and keys are derived from a complete transcript only.
pub proof fn law_credentials_follow_the_verified_identity(
    flow: AuthFlowView,
    event: AuthEventView,
)
    requires
        flow.valid(),
    ensures
        flow.after(event).valid(),
        flow.after(event).step is SendCredentials && !(flow.step is SendCredentials)
            ==> flow.step is ConfirmKey && flow.identity_verified,
{
}

/// A flow that has failed or is done stays so.
pub proof fn law_flow_ends_for_good(flow: AuthFlowView, event: AuthEventView)
    requires
        flow.step is Failed || flow.step is Done,
    ensures
        flow.after(event) == flow,
{
}

pub open spec fn byte_views(messages: Seq<Vec<u8>>) -> Seq<Seq<u8>> {
    messages.map_values(|message: Vec<u8>| message@)
}

/// One authenticated TCP handshake.
pub struct AuthFlow {
    framing: HandshakeFraming,
    step: AuthStep,
    transcript: Vec<Vec<u8>>,
    identity_verified: bool,
    key_confirmed: bool,
}

impl View for AuthFlow {
    type V = AuthFlowView;

    closed spec fn view(&self) -> AuthFlowView {
        AuthFlowView {
            framing: self.framing,
            step: self.step,
            transcript: byte_views(self.transcript@),
            identity_verified: self.identity_verified,
            key_confirmed: self.key_confirmed,
        }
    }
}

impl AuthFlow {
    pub fn new(framing: HandshakeFraming) -> (flow: AuthFlow)
        ensures
            flow@ == (AuthFlowView {
                framing,
                step: AuthStep::SendHello,
                transcript: Seq::empty(),
                identity_verified: false,
                key_confirmed: false,
            }),
            flow@.valid(),
    {
        let flow = AuthFlow {
            framing,
            step: AuthStep::SendHello,
            transcript: Vec::new(),
            identity_verified: false,
            key_confirmed: false,
        };
        assert(flow@.transcript =~= Seq::<Seq<u8>>::empty());
        flow
    }

    pub fn step(&self) -> (step: AuthStep)
        ensures
            step == self@.step,
    {
        self.step
    }

    /// The messages that the transcript hash covers.
    pub fn transcript(&self) -> (messages: &Vec<Vec<u8>>)
        ensures
            byte_views(messages@) == self@.transcript,
    {
        &self.transcript
    }

    fn hear(&mut self, message: Vec<u8>, step: AuthStep)
        ensures
            final(self)@ == old(self)@.heard(message@, step),
    {
        let ghost before = self.transcript@;
        self.transcript.push(message);
        self.step = step;
        assert(byte_views(self.transcript@) =~= byte_views(before).push(message@));
    }

    /// Takes what happened and moves to the next step.
    pub fn advance(&mut self, event: AuthEvent)
        ensures
            final(self)@ == old(self)@.after(event@),
            old(self)@.valid() ==> final(self)@.valid(),
    {
        proof {
            if self@.valid() {
                law_credentials_follow_the_verified_identity(self@, event@);
            }
        }
        match self.step {
            AuthStep::Failed(_) => return,
            AuthStep::Done => return,
            _ => {},
        }
        match event {
            AuthEvent::WireFailed => {
                self.step = AuthStep::Failed(AuthFailure::Wire);
            },
            AuthEvent::HelloSent(hello) => {
                if self.step == AuthStep::SendHello {
                    let next = match self.framing {
                        HandshakeFraming::Raw => AuthStep::ReadServerKey,
                        HandshakeFraming::FakeTls => AuthStep::ReadServerHello,
                    };
                    self.hear(hello, next);
                } else {
                    self.step = AuthStep::Failed(AuthFailure::OutOfOrder);
                }
            },
            AuthEvent::ServerHello(hello, parsed) => {
                if self.step != AuthStep::ReadServerHello {
                    self.step = AuthStep::Failed(AuthFailure::OutOfOrder);
                } else if parsed {
                    self.hear(hello, AuthStep::ReadChangeCipherSpec);
                } else {
                    self.step = AuthStep::Failed(AuthFailure::InvalidServerHello);
                }
            },
            AuthEvent::Received(record) => {
                match self.step {
                    AuthStep::ReadServerKey => self.hear(record, AuthStep::DeriveKeys),
                    AuthStep::ReadChangeCipherSpec => {
                        if record.len() > 0 && record[0] == 0x14 {
                            self.step = AuthStep::ReadCertificate;
                        } else {
                            self.step = AuthStep::Failed(AuthFailure::MissingChangeCipherSpec);
                        }
                    },
                    AuthStep::ReadCertificate => self.hear(record, AuthStep::ReadFinished),
                    AuthStep::ReadFinished => self.hear(record, AuthStep::ReadSessionTicket),
                    AuthStep::ReadSessionTicket => {
                        self.step = AuthStep::DeriveKeys;
                    },
                    _ => {
                        self.step = AuthStep::Failed(AuthFailure::OutOfOrder);
                    },
                }
            },
            AuthEvent::Performed(success) => {
                let (next, failure) = match self.step {
                    AuthStep::DeriveKeys => (AuthStep::ReadProof, AuthFailure::KeyAgreement),
                    AuthStep::ReadProof => (AuthStep::VerifyIdentity, AuthFailure::Proof),
                    AuthStep::VerifyIdentity => (AuthStep::ConfirmKey, AuthFailure::Identity),
                    AuthStep::ConfirmKey => (AuthStep::SendCredentials, AuthFailure::KeyRefused),
                    AuthStep::SendCredentials => (AuthStep::ReadResponse, AuthFailure::Wire),
                    AuthStep::ReadResponse => (AuthStep::Done, AuthFailure::Response),
                    _ => (
                        AuthStep::Failed(AuthFailure::OutOfOrder),
                        AuthFailure::OutOfOrder,
                    ),
                };
                if success {
                    if self.step == AuthStep::VerifyIdentity {
                        self.identity_verified = true;
                    }
                    if self.step == AuthStep::ConfirmKey {
                        self.key_confirmed = true;
                    }
                    self.step = next;
                } else {
                    self.step = AuthStep::Failed(failure);
                }
            },
        }
    }
}

/// The bare handshake belongs to the two modes whose transport already looks like something else,
/// and to no other mode.
pub proof fn law_bare_handshakes(mode: Seq<char>)
    ensures
        framing_of(mode) is Raw <==> mode == "plain"@ || mode == "reality-tls"@,
        framing_of(mode) is FakeTls <==> mode != "plain"@ && mode != "reality-tls"@,
{
}

/// A key binds nothing exactly when it is the key of zero bytes: one byte that is not zero makes
/// it a key, wherever it stands.
pub proof fn law_one_key_is_zero(key: Seq<u8>)
    ensures
        is_zero(key) <==> key == Seq::new(key.len(), |i: int| 0u8),
        forall|i: int| 0 <= i < key.len() && #[trigger] key[i] != 0 ==> !is_zero(key),
{
    if is_zero(key) {
        assert(key =~= Seq::new(key.len(), |i: int| 0u8));
    }
    if key == Seq::new(key.len(), |i: int| 0u8) {
        assert forall|i: int| 0 <= i < key.len() implies key[i] == 0 by {
            assert(Seq::new(key.len(), |i: int| 0u8)[i] == 0u8);
        }
    }
}

/// A server finds each part of the authentication where it stands: 32 bytes of proof, a zero
/// byte, the device id, the capabilities, and the credentials around one colon. A client without
/// a key sends 32 zero bytes.
pub proof fn law_plaintext_has_its_parts_in_place(
    proof_bytes: Seq<u8>,
    device_id: Seq<u8>,
    capabilities: Seq<u8>,
    username: Seq<char>,
    password: Seq<char>,
)
    requires
        proof_bytes.len() == 32,
    ensures
        ({
            let proved = auth_plaintext(
                Some(proof_bytes),
                device_id,
                capabilities,
                username,
                password,
            );
            let plain = auth_plaintext(None, device_id, capabilities, username, password);
            let after_id = 33 + device_id.len() as int;
            let after_capabilities = after_id + capabilities.len();
            let colon = after_capabilities + encode_utf8(username).len();
            &&& proved.take(32) == proof_bytes
            &&& plain.take(32) == Seq::new(32, |i: int| 0u8)
            &&& proved[32] == 0 && plain[32] == 0
            &&& proved.skip(32) == plain.skip(32)
            &&& proved.subrange(33, after_id) == device_id
            &&& proved.subrange(after_id, after_capabilities) == capabilities
            &&& proved.subrange(after_capabilities, colon) == encode_utf8(username)
            &&& proved.subrange(colon, colon + encode_utf8(":"@).len()) == encode_utf8(":"@)
            &&& proved.skip(colon + encode_utf8(":"@).len()) == encode_utf8(password)
        }),
{
    let proved = auth_plaintext(Some(proof_bytes), device_id, capabilities, username, password);
    let plain = auth_plaintext(None, device_id, capabilities, username, password);
    let after_id = 33 + device_id.len() as int;
    let after_capabilities = after_id + capabilities.len();
    let colon = after_capabilities + encode_utf8(username).len();
    assert(proved.take(32) =~= proof_bytes);
    assert(plain.take(32) =~= Seq::new(32, |i: int| 0u8));
    assert(proved.skip(32) =~= plain.skip(32));
    assert(proved.subrange(33, after_id) =~= device_id);
    assert(proved.subrange(after_id, after_capabilities) =~= capabilities);
    assert(proved.subrange(after_capabilities, colon) =~= encode_utf8(username));
    assert(proved.subrange(colon, colon + encode_utf8(":"@).len()) =~= encode_utf8(":"@));
    assert(proved.skip(colon + encode_utf8(":"@).len()) =~= encode_utf8(password));
}

/// What every handshake goes through once its keys can be derived: five steps that succeed lead
/// to an authenticated session, and neither the transcript nor the framing changes on the way.
pub proof fn law_derived_keys_lead_to_a_session(flow: AuthFlowView)
    requires
        flow.step is DeriveKeys,
    ensures
        ({
            let performed = AuthEventView::Performed(true);
            let proved = flow.after(performed).after(performed);
            let verified = proved.after(performed);
            let confirmed = verified.after(performed);
            let done = confirmed.after(performed).after(performed);
            &&& proved.step is VerifyIdentity && proved.identity_verified == flow.identity_verified
            &&& verified.step is ConfirmKey && verified.identity_verified
            &&& verified.key_confirmed == flow.key_confirmed
            &&& confirmed.step is SendCredentials && confirmed.key_confirmed
            &&& done.step is Done && done.identity_verified && done.key_confirmed
            &&& done.transcript == flow.transcript && done.framing == flow.framing
        }),
{
}

/// A bare handshake: the client's key goes out, the server's key comes in, and both are the
/// transcript that the session keys are derived from.
pub proof fn law_bare_handshakes_exchange_two_keys(
    flow: AuthFlowView,
    own_key: Seq<u8>,
    server_key: Seq<u8>,
)
    requires
        flow.step is SendHello,
        flow.framing is Raw,
        flow.transcript == Seq::<Seq<u8>>::empty(),
    ensures
        ({
            let end = flow.after(AuthEventView::HelloSent(own_key)).after(
                AuthEventView::Received(server_key),
            );
            end.step is DeriveKeys && end.transcript == seq![own_key, server_key]
                && end.identity_verified == flow.identity_verified && end.key_confirmed
                == flow.key_confirmed
        }),
{
    let end = flow.after(AuthEventView::HelloSent(own_key)).after(
        AuthEventView::Received(server_key),
    );
    assert(end.transcript =~= seq![own_key, server_key]);
}

/// A TLS-shaped handshake: the two hellos, the certificate and the finished record are the
/// transcript; the change-cipher-spec (a record of type 0x14) and the session ticket are read and
/// left out of it.
pub proof fn law_tls_shaped_handshakes_exchange_a_flight(
    flow: AuthFlowView,
    client_hello: Seq<u8>,
    server_hello: Seq<u8>,
    change: Seq<u8>,
    certificate: Seq<u8>,
    finished: Seq<u8>,
    ticket: Seq<u8>,
)
    requires
        flow.step is SendHello,
        flow.framing is FakeTls,
        flow.transcript == Seq::<Seq<u8>>::empty(),
        change.len() > 0,
        change[0] == 0x14,
    ensures
        ({
            let greeted = flow.after(AuthEventView::HelloSent(client_hello)).after(
                AuthEventView::ServerHello(server_hello, true),
            );
            let end = greeted.after(AuthEventView::Received(change)).after(
                AuthEventView::Received(certificate),
            ).after(AuthEventView::Received(finished)).after(AuthEventView::Received(ticket));
            end.step is DeriveKeys && end.transcript == seq![
                client_hello,
                server_hello,
                certificate,
                finished,
            ] && end.identity_verified == flow.identity_verified && end.key_confirmed
                == flow.key_confirmed
        }),
{
    let greeted = flow.after(AuthEventView::HelloSent(client_hello)).after(
        AuthEventView::ServerHello(server_hello, true),
    );
    let end = greeted.after(AuthEventView::Received(change)).after(
        AuthEventView::Received(certificate),
    ).after(AuthEventView::Received(finished)).after(AuthEventView::Received(ticket));
    assert(end.transcript =~= seq![client_hello, server_hello, certificate, finished]);
}

/// What goes wrong at a step is reported as what it is, and nothing else of the flow changes.
pub proof fn law_failures_are_named(flow: AuthFlowView, hello: Seq<u8>, record: Seq<u8>)
    requires
        !(flow.step is Failed) && !(flow.step is Done),
    ensures
        flow.after(AuthEventView::WireFailed).step == AuthStep::Failed(AuthFailure::Wire),
        flow.after(AuthEventView::WireFailed).transcript == flow.transcript,
        flow.step is ReadServerHello ==> flow.after(AuthEventView::ServerHello(hello, false)).step
            == AuthStep::Failed(AuthFailure::InvalidServerHello),
        flow.step is ReadChangeCipherSpec && (record.len() == 0 || record[0] != 0x14)
            ==> flow.after(AuthEventView::Received(record)).step == AuthStep::Failed(
            AuthFailure::MissingChangeCipherSpec,
        ),
        flow.step is DeriveKeys ==> flow.after(AuthEventView::Performed(false)).step
            == AuthStep::Failed(AuthFailure::KeyAgreement),
        flow.step is ReadProof ==> flow.after(AuthEventView::Performed(false)).step
            == AuthStep::Failed(AuthFailure::Proof),
        flow.step is VerifyIdentity ==> flow.after(AuthEventView::Performed(false)).step
            == AuthStep::Failed(AuthFailure::Identity),
        flow.step is ConfirmKey ==> flow.after(AuthEventView::Performed(false)).step
            == AuthStep::Failed(AuthFailure::KeyRefused),
        flow.step is SendCredentials ==> flow.after(AuthEventView::Performed(false)).step
            == AuthStep::Failed(AuthFailure::Wire),
        flow.step is ReadResponse ==> flow.after(AuthEventView::Performed(false)).step
            == AuthStep::Failed(AuthFailure::Response),
        flow.after(AuthEventView::Performed(false)).step is Failed,
        flow.after(AuthEventView::Performed(false)).identity_verified == flow.identity_verified,
        flow.after(AuthEventView::Performed(false)).key_confirmed == flow.key_confirmed,
{
}

/// A message that does not belong to its step ends the flow: nothing is sent twice, no message is
/// taken where a computation is due, and none is computed where a message is due.
pub proof fn law_strange_messages_end_the_flow(
    flow: AuthFlowView,
    message: Seq<u8>,
    parsed: bool,
    success: bool,
)
    requires
        !(flow.step is Failed) && !(flow.step is Done),
    ensures
        ({
            let reads = flow.step is ReadServerKey || flow.step is ReadChangeCipherSpec
                || flow.step is ReadCertificate || flow.step is ReadFinished
                || flow.step is ReadSessionTicket;
            let computes = flow.step is DeriveKeys || flow.step is ReadProof
                || flow.step is VerifyIdentity || flow.step is ConfirmKey
                || flow.step is SendCredentials || flow.step is ReadResponse;
            let stray = AuthStep::Failed(AuthFailure::OutOfOrder);
            &&& !(flow.step is SendHello) ==> flow.after(AuthEventView::HelloSent(message)).step
                == stray
            &&& !reads ==> flow.after(AuthEventView::Received(message)).step == stray
            &&& !(flow.step is ReadServerHello) ==> flow.after(
                AuthEventView::ServerHello(message, parsed),
            ).step == stray
            &&& !computes ==> flow.after(AuthEventView::Performed(success)).step == stray
        }),
{
}

/// A profile opens with a UDP flight exactly over UDP and in one of the two modes that have one.
pub proof fn law_udp_flights(protocol: &str, mode: &str, result: Result<(), FlightError>)
    requires
        call_ensures(check_udp_client_hello_flight, (protocol, mode), result),
    ensures
        result is Ok <==> protocol@ == "udp"@ && (mode@ == "fake-tls"@ || mode@ == "obfs"@),
        protocol@ != "udp"@ ==> result == Err::<(), FlightError>(FlightError::NotUdp),
        protocol@ == "udp"@ && mode@ != "fake-tls"@ && mode@ != "obfs"@ ==> result == Err::<
            (),
            FlightError,
        >(FlightError::UnsupportedMode),
{
}

/// A session is bound to the pinned key where the profile asks for it and the key is one; a
/// profile that does not ask needs no key.
pub proof fn law_sessions_are_bound_to_the_pinned_key(
    bind: bool,
    pinned: PinnedKey,
    result: Result<Option<[u8; 32]>, StaticKeyError>,
)
    requires
        call_ensures(static_binding, (bind, pinned), result),
    ensures
        !bind ==> result == Ok::<Option<[u8; 32]>, StaticKeyError>(None),
        bind ==> (result is Ok <==> pinned is Key && exists|i: int|
            0 <= i < 32 && #[trigger] pinned->Key_0@[i] != 0),
        bind && result is Ok ==> result == Ok::<Option<[u8; 32]>, StaticKeyError>(
            Some(pinned->Key_0),
        ),
        bind && pinned is Absent ==> result == Err::<Option<[u8; 32]>, StaticKeyError>(
            StaticKeyError::NoKeyPinned,
        ),
        bind && pinned is Invalid ==> result == Err::<Option<[u8; 32]>, StaticKeyError>(
            StaticKeyError::InvalidKey,
        ),
{
    if let PinnedKey::Key(key) = pinned {
        assert(key@.len() == 32);
        if is_zero(key@) {
            assert forall|i: int| 0 <= i < 32 implies #[trigger] key@[i] == 0 by {}
        } else {
            let i = choose|i: int| 0 <= i < key@.len() && key@[i] != 0;
            assert(key@[i] != 0);
        }
    }
}

/// A proof of 64 bytes or more carries the server's key; a shorter one is checked against the
/// pinned key and against nothing else.
pub proof fn law_short_proofs_need_the_pinned_key(
    proof_len: usize,
    pinned: PinnedKey,
    check: IdentityCheck,
)
    requires
        call_ensures(choose_identity_check, (proof_len, pinned), check),
    ensures
        check is FullMessage <==> proof_len >= 64,
        check is ProofOnly <==> proof_len < 64 && pinned is Key,
        check is ProofOnly ==> check->ProofOnly_0 == pinned->Key_0,
        check is NoKeyPinned <==> proof_len < 64 && !(pinned is Key),
{
}

/// The session id carries a short id exactly where one is configured and the server's key can be
/// read.
pub proof fn law_session_ids_carry_the_short_id(
    short_id: Option<&str>,
    pinned: PinnedKey,
    seals: bool,
)
    requires
        call_ensures(seals_session_id, (short_id, pinned), seals),
    ensures
        seals <==> short_id is Some && short_id->Some_0@.len() > 0 && pinned is Key,
{
}

/// A handshake starts with its own message, an empty transcript and nothing verified.
pub proof fn law_handshakes_start_with_nothing(framing: HandshakeFraming, flow: AuthFlow)
    requires
        call_ensures(AuthFlow::new, (framing,), flow),
    ensures
        flow@.step is SendHello,
        flow@.framing == framing,
        flow@.transcript.len() == 0,
        !flow@.identity_verified,
        !flow@.key_confirmed,
{
}

} // verus!
