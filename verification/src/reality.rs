//! Telling clients from strangers on a camouflaged listener.
//!
//! A connection is looked at without consuming a byte. A genuine client is served, TLS terminated
//! or not; everyone else is bridged to the cover site, within a budget of its own. Peeking,
//! cryptography and copying are left to the caller, who reports what happened.

use crate::text::same_bytes;
use vstd::prelude::*;

verus! {

/// Acceptance window of the token timestamp, in seconds.
pub const REALITY_WINDOW_SECS: u64 = 120;

pub const BRIDGE_CONNECT_TIMEOUT_SECS: u64 = 10;

pub const BRIDGE_IDLE_TIMEOUT_SECS: u64 = 120;

pub const BRIDGE_MAX_LIFETIME_SECS: u64 = 600;

pub const MAX_PEEK_RECORD: usize = 16384;

pub const KEY_SHARE_LEN: usize = 32;

/// The connection preface of HTTP/2.
pub const CLIENT_PREFACE: [u8; 24] = [
    0x50,
    0x52,
    0x49,
    0x20,
    0x2a,
    0x20,
    0x48,
    0x54,
    0x54,
    0x50,
    0x2f,
    0x32,
    0x2e,
    0x30,
    0x0d,
    0x0a,
    0x0d,
    0x0a,
    0x53,
    0x4d,
    0x0d,
    0x0a,
    0x0d,
    0x0a,
];

/// The number that two bytes, highest first, stand for.
pub open spec fn be16(data: Seq<u8>, at: int) -> nat {
    data[at] as nat * 256 + data[at + 1] as nat
}

/// Where the extensions of a ClientHello record start and end. The end is the declared one, or
/// the end of the data where that comes first.
pub open spec fn extensions_span(data: Seq<u8>) -> Option<(int, int)> {
    if data.len() < 44 || data[5] != 0x01 {
        None
    } else {
        let suites = 44 + data[43];
        if suites + 2 > data.len() {
            None
        } else {
            let compression = suites + 2 + be16(data, suites);
            if compression + 1 > data.len() {
                None
            } else {
                let extensions = compression + 1 + data[compression];
                if extensions + 2 > data.len() {
                    None
                } else {
                    let start = extensions + 2;
                    let end = start + be16(data, extensions);
                    Some(
                        (
                            start,
                            if end > data.len() {
                                data.len() as int
                            } else {
                                end
                            },
                        ),
                    )
                }
            }
        }
    }
}

/// Whether one of the extensions from `at` on is of the given type.
pub open spec fn has_extension(data: Seq<u8>, kind: int, at: int, end: int) -> bool
    decreases (if at < end { end - at } else { 0 }),
{
    if at + 4 > end {
        false
    } else if be16(data, at) == kind {
        true
    } else {
        has_extension(data, kind, at + 4 + be16(data, at + 2), end)
    }
}

/// Whether a ClientHello record negotiates an application protocol.
pub open spec fn offers_alpn(data: Seq<u8>) -> bool {
    match extensions_span(data) {
        Some((start, end)) => has_extension(data, 0x0010, start, end),
        None => false,
    }
}

fn read_be16(data: &[u8], at: usize) -> (value: usize)
    requires
        at + 1 < data@.len(),
    ensures
        value == be16(data@, at as int),
        value <= 0xffff,
{
    data[at] as usize * 256 + data[at + 1] as usize
}

/// Looks for an ALPN extension. Every length on the way comes from the peer; none of them is
/// taken at face value.
pub fn has_alpn_extension(data: &[u8]) -> (found: bool)
    ensures
        found == offers_alpn(data@),
{
    let size: usize = data.len();
    if size < 44 || data[5] != 0x01 {
        return false;
    }
    let suites: usize = 44 + data[43] as usize;
    if suites + 2 > size {
        return false;
    }
    let compression: usize = suites + 2 + read_be16(data, suites);
    if compression + 1 > size {
        return false;
    }
    let extensions: usize = compression + 1 + data[compression] as usize;
    if extensions + 2 > size {
        return false;
    }
    let mut at: usize = extensions + 2;
    let declared: usize = read_be16(data, extensions);
    let end: usize = if declared > size - at {
        size
    } else {
        at + declared
    };
    while end - at >= 4
        invariant
            at <= end <= data@.len(),
            offers_alpn(data@) == has_extension(data@, 0x0010, at as int, end as int),
        decreases end - at,
    {
        if read_be16(data, at) == 0x0010 {
            return true;
        }
        let length: usize = read_be16(data, at + 2);
        if length > end - at - 4 {
            assert(!has_extension(data@, 0x0010, at + 4 + length, end as int));
            return false;
        }
        at = at + 4 + length;
    }
    false
}

/// What the listener is configured to do.
#[derive(Debug)]
pub struct RealityPolicy {
    /// The short ids that are let in; entries that do not parse are `None` and let nobody in.
    pub short_ids: Vec<Option<Vec<u8>>>,
    pub real_tls: bool,
    pub handrolled: bool,
    pub peek_timeout_ms: u64,
    pub handshake_timeout_secs: u64,
}

impl RealityPolicy {
    /// Deadline for terminating TLS, in seconds. A configured zero cannot mean "wait forever".
    pub fn handshake_timeout(&self) -> (seconds: u64)
        ensures
            seconds == if self.handshake_timeout_secs < 5 {
                5
            } else {
                self.handshake_timeout_secs
            },
    {
        if self.handshake_timeout_secs < 5 {
            5
        } else {
            self.handshake_timeout_secs
        }
    }

    /// Budget of one peek, in milliseconds. A configured zero cannot give an expired deadline
    /// that bridges every client at once.
    pub fn peek_budget(&self) -> (milliseconds: u64)
        ensures
            milliseconds == if self.peek_timeout_ms < 300 {
                300
            } else {
                self.peek_timeout_ms
            },
    {
        if self.peek_timeout_ms < 300 {
            300
        } else {
            self.peek_timeout_ms
        }
    }
}

/// Whether an opened token names a short id that is let in.
pub open spec fn short_id_allowed(opened: Seq<u8>, allowed: Seq<Option<Vec<u8>>>) -> bool {
    exists|i: int|
        0 <= i < allowed.len() && ((#[trigger] allowed[i]) matches Some(short_id) && short_id@
            == opened)
}

pub fn is_short_id_allowed(opened: &[u8], allowed: &Vec<Option<Vec<u8>>>) -> (found: bool)
    ensures
        found == short_id_allowed(opened@, allowed@),
{
    let mut i: usize = 0;
    while i < allowed.len()
        invariant
            i <= allowed@.len(),
            forall|j: int|
                0 <= j < i ==> !((#[trigger] allowed@[j]) matches Some(short_id) && short_id@
                    == opened@),
        decreases allowed@.len() - i,
    {
        if let Some(short_id) = &allowed[i] {
            if same_bytes(short_id.as_slice(), opened) {
                assert(allowed@[i as int] is Some);
                return true;
            }
        }
        i += 1;
    }
    false
}

/// What a ClientHello that parsed carries: its session id and its X25519 key share.
#[derive(Debug)]
pub struct HelloToken {
    pub session_id: [u8; 32],
    pub key_share: Vec<u8>,
}

#[derive(Debug, Clone, Copy, PartialEq, Eq, Structural)]
pub enum TlsOutcome {
    Established,
    Failed,
    TimedOut,
}

/// What the caller reports.
#[derive(Debug)]
pub enum RealityEvent {
    /// What a peek saw, or nothing where it failed or timed out.
    Peeked(Option<Vec<u8>>),
    /// What the peeked hello parses to.
    Parsed(Option<HelloToken>),
    /// The short id inside the session id, if it opens with the profile's key.
    Opened(Option<Vec<u8>>),
    /// Whether the session id was seen for the first time.
    Observed(bool),
    Terminated(TlsOutcome),
    /// The first bytes inside TLS, as many as an HTTP/2 preface has.
    Preface(Option<Vec<u8>>),
    CarrierAccepted(bool),
}

/// Where a connection stands.
#[derive(Debug)]
pub enum RealityState {
    Header,
    Hello,
    /// The hello is to be parsed.
    Token,
    /// The session id of the hello is to be opened.
    Opening([u8; 32]),
    /// The session id is to be looked up among those seen before.
    Replay,
    Terminating,
    Preface,
    Carrier,
    Done,
}

#[derive(Debug, Clone, Copy, PartialEq, Eq, Structural)]
pub enum RealityFailure {
    TlsFailed,
    TlsTimedOut,
    CarrierSelectionFailed,
    CarrierFailed,
    /// The report does not fit the step that was asked for.
    Unexpected,
}

/// What the caller does next.
#[derive(Debug)]
pub enum RealityStep {
    /// Look at this many bytes without consuming them.
    Peek(usize),
    Parse,
    Open,
    /// Look this session id up, and remember it.
    Observe([u8; 32]),
    /// Terminate TLS with the borrowed server shape.
    TerminateHandRolled,
    /// Terminate a genuine TLS session.
    TerminateTls,
    /// Read as many bytes as an HTTP/2 preface has.
    ReadPreface,
    AcceptHttp2,
    /// Serve the client over the HTTP/2 carrier.
    ServeHttp2,
    /// Serve the client over this stream.
    Serve,
    /// Not a client: hand the connection to the decoy gate.
    Bridge,
    Fail(RealityFailure),
}

/// How many bytes the second peek asks for: the record with its header, within bounds. The whole
/// hello is needed, since the key share sits behind a large post-quantum entry.
pub open spec fn hello_window(header: Seq<u8>) -> int {
    let record = be16(header, 3) as int;
    5 + if record > MAX_PEEK_RECORD {
        MAX_PEEK_RECORD as int
    } else {
        record
    }
}

/// How a genuine client is served.
pub open spec fn accept_step(policy: RealityPolicy) -> (RealityState, RealityStep) {
    if !policy.real_tls {
        (RealityState::Done, RealityStep::Serve)
    } else if policy.handrolled {
        (RealityState::Terminating, RealityStep::TerminateHandRolled)
    } else {
        (RealityState::Terminating, RealityStep::TerminateTls)
    }
}

/// The next state of a connection, and what to do.
pub open spec fn reality_step(
    policy: RealityPolicy,
    state: RealityState,
    event: RealityEvent,
) -> (RealityState, RealityStep) {
    let bridge = (RealityState::Done, RealityStep::Bridge);
    match (state, event) {
        (RealityState::Header, RealityEvent::Peeked(Some(header))) => if header@.len() < 6
            || header@[0] != 0x16 || header@[5] != 0x01 {
            bridge
        } else {
            (RealityState::Hello, RealityStep::Peek(hello_window(header@) as usize))
        },
        (RealityState::Header, RealityEvent::Peeked(None)) => bridge,
        (RealityState::Hello, RealityEvent::Peeked(Some(hello))) => if hello@.len() < 5 {
            bridge
        } else if policy.short_ids@.len() > 0 {
            (RealityState::Token, RealityStep::Parse)
        } else if offers_alpn(hello@) {
            bridge
        } else {
            accept_step(policy)
        },
        (RealityState::Hello, RealityEvent::Peeked(None)) => bridge,
        (RealityState::Token, RealityEvent::Parsed(Some(token))) => if token.key_share@.len()
            == KEY_SHARE_LEN {
            (RealityState::Opening(token.session_id), RealityStep::Open)
        } else {
            bridge
        },
        (RealityState::Token, RealityEvent::Parsed(None)) => bridge,
        (RealityState::Opening(session_id), RealityEvent::Opened(Some(short_id))) =>
        if short_id_allowed(short_id@, policy.short_ids@) {
            (RealityState::Replay, RealityStep::Observe(session_id))
        } else {
            bridge
        },
        (RealityState::Opening(_), RealityEvent::Opened(None)) => bridge,
        (RealityState::Replay, RealityEvent::Observed(fresh)) => if fresh {
            accept_step(policy)
        } else {
            bridge
        },
        (RealityState::Terminating, RealityEvent::Terminated(outcome)) => match outcome {
            TlsOutcome::Established => (RealityState::Preface, RealityStep::ReadPreface),
            TlsOutcome::Failed => (
                RealityState::Done,
                RealityStep::Fail(RealityFailure::TlsFailed),
            ),
            TlsOutcome::TimedOut => (
                RealityState::Done,
                RealityStep::Fail(RealityFailure::TlsTimedOut),
            ),
        },
        (RealityState::Preface, RealityEvent::Preface(Some(prefix))) => if prefix@
            == CLIENT_PREFACE@ {
            (RealityState::Carrier, RealityStep::AcceptHttp2)
        } else {
            (RealityState::Done, RealityStep::Serve)
        },
        (RealityState::Preface, RealityEvent::Preface(None)) => (
            RealityState::Done,
            RealityStep::Fail(RealityFailure::CarrierSelectionFailed),
        ),
        (RealityState::Carrier, RealityEvent::CarrierAccepted(accepted)) => if accepted {
            (RealityState::Done, RealityStep::ServeHttp2)
        } else {
            (RealityState::Done, RealityStep::Fail(RealityFailure::CarrierFailed))
        },
        _ => (RealityState::Done, RealityStep::Fail(RealityFailure::Unexpected)),
    }
}

/// One connection on its way.
#[derive(Debug)]
pub struct RealityConnection {
    state: RealityState,
}

impl View for RealityConnection {
    type V = RealityState;

    closed spec fn view(&self) -> RealityState {
        self.state
    }
}

impl RealityConnection {
    /// A fresh connection; the first step is to look at its first six bytes.
    pub fn start() -> (result: (RealityConnection, RealityStep))
        ensures
            result.0@ == RealityState::Header,
            result.1 == RealityStep::Peek(6),
    {
        (RealityConnection { state: RealityState::Header }, RealityStep::Peek(6))
    }

    /// Takes a report and says what to do next.
    pub fn advance(&mut self, policy: &RealityPolicy, event: RealityEvent) -> (step: RealityStep)
        ensures
            (final(self)@, step) == reality_step(*policy, old(self)@, event),
    {
        let (state, step) = next_step(policy, &self.state, &event);
        self.state = state;
        step
    }
}

fn next_step(policy: &RealityPolicy, state: &RealityState, event: &RealityEvent) -> (next: (
    RealityState,
    RealityStep,
))
    ensures
        next == reality_step(*policy, *state, *event),
{
    match (state, event) {
        (RealityState::Header, RealityEvent::Peeked(Some(header))) => {
            if header.len() < 6 || header[0] != 0x16 || header[5] != 0x01 {
                return (RealityState::Done, RealityStep::Bridge);
            }
            let record: usize = read_be16(header.as_slice(), 3);
            let window: usize = 5 + if record > MAX_PEEK_RECORD {
                MAX_PEEK_RECORD
            } else {
                record
            };
            (RealityState::Hello, RealityStep::Peek(window))
        },
        (RealityState::Header, RealityEvent::Peeked(None)) => (
            RealityState::Done,
            RealityStep::Bridge,
        ),
        (RealityState::Hello, RealityEvent::Peeked(Some(hello))) => {
            if hello.len() < 5 {
                return (RealityState::Done, RealityStep::Bridge);
            }
            if policy.short_ids.len() > 0 {
                return (RealityState::Token, RealityStep::Parse);
            }
            if has_alpn_extension(hello.as_slice()) {
                return (RealityState::Done, RealityStep::Bridge);
            }
            accept(policy)
        },
        (RealityState::Hello, RealityEvent::Peeked(None)) => (
            RealityState::Done,
            RealityStep::Bridge,
        ),
        (RealityState::Token, RealityEvent::Parsed(Some(token))) => {
            if token.key_share.len() == KEY_SHARE_LEN {
                (RealityState::Opening(token.session_id), RealityStep::Open)
            } else {
                (RealityState::Done, RealityStep::Bridge)
            }
        },
        (RealityState::Token, RealityEvent::Parsed(None)) => (
            RealityState::Done,
            RealityStep::Bridge,
        ),
        (RealityState::Opening(session_id), RealityEvent::Opened(Some(short_id))) => {
            if is_short_id_allowed(short_id.as_slice(), &policy.short_ids) {
                (RealityState::Replay, RealityStep::Observe(*session_id))
            } else {
                (RealityState::Done, RealityStep::Bridge)
            }
        },
        (RealityState::Opening(_), RealityEvent::Opened(None)) => (
            RealityState::Done,
            RealityStep::Bridge,
        ),
        (RealityState::Replay, RealityEvent::Observed(fresh)) => {
            if *fresh {
                accept(policy)
            } else {
                (RealityState::Done, RealityStep::Bridge)
            }
        },
        (RealityState::Terminating, RealityEvent::Terminated(outcome)) => match outcome {
            TlsOutcome::Established => (RealityState::Preface, RealityStep::ReadPreface),
            TlsOutcome::Failed => (
                RealityState::Done,
                RealityStep::Fail(RealityFailure::TlsFailed),
            ),
            TlsOutcome::TimedOut => (
                RealityState::Done,
                RealityStep::Fail(RealityFailure::TlsTimedOut),
            ),
        },
        (RealityState::Preface, RealityEvent::Preface(Some(prefix))) => {
            if same_bytes(prefix.as_slice(), CLIENT_PREFACE.as_slice()) {
                (RealityState::Carrier, RealityStep::AcceptHttp2)
            } else {
                (RealityState::Done, RealityStep::Serve)
            }
        },
        (RealityState::Preface, RealityEvent::Preface(None)) => (
            RealityState::Done,
            RealityStep::Fail(RealityFailure::CarrierSelectionFailed),
        ),
        (RealityState::Carrier, RealityEvent::CarrierAccepted(accepted)) => {
            if *accepted {
                (RealityState::Done, RealityStep::ServeHttp2)
            } else {
                (RealityState::Done, RealityStep::Fail(RealityFailure::CarrierFailed))
            }
        },
        _ => (RealityState::Done, RealityStep::Fail(RealityFailure::Unexpected)),
    }
}

fn accept(policy: &RealityPolicy) -> (next: (RealityState, RealityStep))
    ensures
        next == accept_step(*policy),
{
    if !policy.real_tls {
        (RealityState::Done, RealityStep::Serve)
    } else if policy.handrolled {
        (RealityState::Terminating, RealityStep::TerminateHandRolled)
    } else {
        (RealityState::Terminating, RealityStep::TerminateTls)
    }
}

/// Whether a step serves the peer, or starts to terminate TLS with it.
pub open spec fn treats_as_client(step: RealityStep) -> bool {
    step is Serve || step is TerminateHandRolled || step is TerminateTls
}

/// Where short ids are configured, a peer is treated as a client only once a token with an
/// allowed short id was seen for the first time; a replayed or foreign token is bridged like any
/// stranger. Without short ids, only a hello without ALPN gets through.
pub proof fn law_strangers_are_bridged(
    policy: RealityPolicy,
    state: RealityState,
    event: RealityEvent,
)
    requires
        !(state is Preface),
    ensures
        treats_as_client(reality_step(policy, state, event).1) ==> {
            ||| state is Replay && event == RealityEvent::Observed(true)
            ||| state is Hello && policy.short_ids@.len() == 0 && (event matches RealityEvent::Peeked(
                Some(hello),
            ) && hello@.len() >= 5 && !offers_alpn(hello@))
        },
        reality_step(policy, state, event).0 is Replay ==> state is Opening && (
        event matches RealityEvent::Opened(Some(short_id)) && short_id_allowed(
            short_id@,
            policy.short_ids@,
        )),
        state is Replay && event == RealityEvent::Observed(false) ==> reality_step(
            policy,
            state,
            event,
        ).1 is Bridge,
{
}

/// A peer can make the server look at a bounded number of bytes only.
pub proof fn law_peeks_are_bounded(policy: RealityPolicy, state: RealityState, event: RealityEvent)
    ensures
        reality_step(policy, state, event).1 matches RealityStep::Peek(bytes) ==> bytes <= 5
            + MAX_PEEK_RECORD,
{
}

/// The budget of decoy bridges, separate from the handshake gate.
#[derive(Debug, Clone, Copy, PartialEq, Eq, Structural)]
pub struct DecoyGate {
    /// Bridges that may still be opened.
    pub decoy_free: usize,
    /// Handshake slots that are free.
    pub handshake_free: usize,
    pub refused: u64,
}

#[derive(Debug, Clone, Copy, PartialEq, Eq, Structural)]
pub enum GateVerdict {
    Bridge,
    /// The budget is used up: drop the connection, which is what a firewalled host looks like.
    Drop,
    /// Drop it, and report how many were dropped.
    DropAndReport,
}

impl DecoyGate {
    /// Swaps a handshake slot for a decoy slot: the connection is no longer a prospective client.
    /// The decoy slot is taken before the handshake slot is handed back, so a flood cannot slip
    /// in between.
    pub fn take_over(&mut self, holds_slot: bool) -> (verdict: GateVerdict)
        requires
            holds_slot ==> old(self).handshake_free < usize::MAX,
        ensures
            final(self).handshake_free == old(self).handshake_free + if holds_slot {
                1int
            } else {
                0
            },
            if old(self).decoy_free > 0 {
                &&& verdict == GateVerdict::Bridge
                &&& final(self).decoy_free == old(self).decoy_free - 1
                &&& final(self).refused == old(self).refused
            } else {
                let count: int = if old(self).refused == u64::MAX {
                    0
                } else {
                    old(self).refused + 1
                };
                &&& final(self).decoy_free == 0
                &&& final(self).refused == count
                &&& verdict == if count % 100 == 1 {
                    GateVerdict::DropAndReport
                } else {
                    GateVerdict::Drop
                }
            },
    {
        let verdict = if self.decoy_free > 0 {
            self.decoy_free = self.decoy_free - 1;
            GateVerdict::Bridge
        } else {
            self.refused = if self.refused == u64::MAX {
                0
            } else {
                self.refused + 1
            };
            if self.refused % 100 == 1 {
                GateVerdict::DropAndReport
            } else {
                GateVerdict::Drop
            }
        };
        if holds_slot {
            self.handshake_free = self.handshake_free + 1;
        }
        verdict
    }
}

/// Waiting for a window of bytes that may arrive in many small segments. Times are milliseconds.
#[derive(Debug, Clone, Copy, PartialEq, Eq, Structural)]
pub struct PeekWindow {
    pub len: usize,
    pub deadline: u64,
    pub stall: u64,
    pub last: usize,
    pub last_progress: u64,
}

impl PeekWindow {
    /// A window that opens now.
    pub fn open(len: usize, budget_ms: u64, now: u64) -> (window: PeekWindow)
        ensures
            window.len == len,
            window.deadline == if now + budget_ms > u64::MAX {
                u64::MAX as int
            } else {
                now + budget_ms
            },
            window.stall == if budget_ms / 5 < 100 {
                100
            } else {
                budget_ms / 5
            },
            window.last == 0,
            window.last_progress == now,
    {
        let deadline: u64 = if now > u64::MAX - budget_ms {
            u64::MAX
        } else {
            now + budget_ms
        };
        let fifth: u64 = budget_ms / 5;
        PeekWindow {
            len,
            deadline,
            stall: if fifth < 100 {
                100
            } else {
                fifth
            },
            last: 0,
            last_progress: now,
        }
    }

    /// Takes one look: `seen` bytes are buffered now. The wait is over once the window is full,
    /// its budget is used up, or nothing has arrived for too long.
    pub fn observe(&mut self, seen: usize, now: u64) -> (over: bool)
        ensures
            final(self).len == old(self).len,
            final(self).deadline == old(self).deadline,
            final(self).stall == old(self).stall,
            ({
                let progressed = seen < old(self).len && seen > old(self).last;
                let since = if progressed {
                    now
                } else {
                    old(self).last_progress
                };
                &&& final(self).last == if progressed {
                    seen
                } else {
                    old(self).last
                }
                &&& final(self).last_progress == since
                &&& over == (seen >= old(self).len || now >= old(self).deadline || (now >= since
                    && now - since >= old(self).stall))
            }),
    {
        if seen >= self.len {
            return true;
        }
        if seen > self.last {
            self.last = seen;
            self.last_progress = now;
        }
        now >= self.deadline || (now >= self.last_progress && now - self.last_progress
            >= self.stall)
    }
}

/// What one read of a bridged direction came to.
#[derive(Debug, Clone, Copy, PartialEq, Eq, Structural)]
pub enum CopyEvent {
    Read(usize),
    Failed,
    /// Nothing arrived within the idle timeout.
    Idle,
}

#[derive(Debug, Clone, Copy, PartialEq, Eq, Structural)]
pub enum CopyStep {
    /// Pass this many bytes on and read again.
    Write(usize),
    /// Pass the end of the stream on; the other direction stays alive.
    HalfClose,
    Fail,
    TimeOut,
}

/// What a bridged direction does after a read.
pub fn copy_step(event: CopyEvent) -> (step: CopyStep)
    ensures
        step == match event {
            CopyEvent::Read(0) => CopyStep::HalfClose,
            CopyEvent::Read(bytes) => CopyStep::Write(bytes),
            CopyEvent::Failed => CopyStep::Fail,
            CopyEvent::Idle => CopyStep::TimeOut,
        },
{
    match event {
        CopyEvent::Read(bytes) => if bytes == 0 {
            CopyStep::HalfClose
        } else {
            CopyStep::Write(bytes)
        },
        CopyEvent::Failed => CopyStep::Fail,
        CopyEvent::Idle => CopyStep::TimeOut,
    }
}

/// A number in two bytes, highest first.
pub open spec fn be16_bytes(number: nat) -> Seq<u8> {
    seq![(number / 256) as u8, (number % 256) as u8]
}

/// Extensions on the wire, one after the other: kind, length, body.
pub open spec fn extension_bytes(extensions: Seq<(u16, Seq<u8>)>) -> Seq<u8>
    decreases extensions.len(),
{
    if extensions.len() == 0 {
        Seq::empty()
    } else {
        let (kind, body) = extensions[0];
        be16_bytes(kind as nat) + be16_bytes(body.len()) + body + extension_bytes(
            extensions.skip(1),
        )
    }
}

/// A ClientHello record: 43 bytes of headers, version and random, then session id, cipher suites,
/// compression methods and extensions, each behind its length.
pub open spec fn client_hello(
    head: Seq<u8>,
    session_id: Seq<u8>,
    suites: Seq<u8>,
    compression: Seq<u8>,
    extensions: Seq<(u16, Seq<u8>)>,
) -> Seq<u8> {
    head + seq![session_id.len() as u8] + session_id + be16_bytes(suites.len()) + suites + seq![
        compression.len() as u8,
    ] + compression + be16_bytes(extension_bytes(extensions).len()) + extension_bytes(extensions)
}

proof fn lemma_extensions_found(
    data: Seq<u8>,
    extensions: Seq<(u16, Seq<u8>)>,
    kind: u16,
    at: int,
    end: int,
)
    requires
        0 <= at <= end <= data.len(),
        end - at <= extension_bytes(extensions).len(),
        forall|k: int| at <= k < end ==> data[k] == extension_bytes(extensions)[k - at],
        forall|i: int| 0 <= i < extensions.len() ==> (#[trigger] extensions[i]).1.len() <= 0xffff,
    ensures
        has_extension(data, kind as int, at, end) <==> exists|i: int|
            0 <= i < extensions.len() && (#[trigger] extensions[i]).0 == kind && extension_bytes(
                extensions.take(i),
            ).len() + 4 <= end - at,
    decreases extensions.len(),
{
    let all = extension_bytes(extensions);
    if extensions.len() > 0 {
        let (first, body) = extensions[0];
        let rest = extensions.skip(1);
        assert(all.len() == 4 + body.len() + extension_bytes(rest).len());
        assert(extension_bytes(extensions.take(0)).len() == 0) by {
            assert(extensions.take(0) =~= Seq::empty());
        }
        assert forall|i: int| 0 <= i < rest.len() implies extension_bytes(
            extensions.take(i + 1),
        ).len() == 4 + body.len() + #[trigger] extension_bytes(rest.take(i)).len() by {
            assert(extensions.take(i + 1).skip(1) =~= rest.take(i));
            assert(extensions.take(i + 1)[0] == extensions[0]);
        }
        if end - at >= 4 {
            assert(all[0] == (first as nat / 256) as u8 && all[1] == (first as nat % 256) as u8);
            assert(all[2] == (body.len() / 256) as u8 && all[3] == (body.len() % 256) as u8);
            assert(data[at] == all[0] && data[at + 1] == all[1] && data[at + 2] == all[2] && data[at
                + 3] == all[3]);
            assert(be16(data, at) == first);
            assert(be16(data, at + 2) == body.len());
            let next = at + 4 + body.len();
            if next <= end {
                assert forall|k: int| next <= k < end implies data[k] == extension_bytes(rest)[k
                    - next] by {
                    assert(data[k] == all[k - at]);
                }
                assert forall|i: int| 0 <= i < rest.len() implies (#[trigger] rest[i]).1.len()
                    <= 0xffff by {
                    assert(rest[i] == extensions[i + 1]);
                }
                lemma_extensions_found(data, rest, kind, next, end);
                if first != kind {
                    if has_extension(data, kind as int, at, end) {
                        let i = choose|i: int|
                            0 <= i < rest.len() && (#[trigger] rest[i]).0 == kind
                                && extension_bytes(rest.take(i)).len() + 4 <= end - next;
                        assert(extensions[i + 1] == rest[i]);
                        assert(extension_bytes(extensions.take(i + 1)).len() == 4 + body.len()
                            + extension_bytes(rest.take(i)).len());
                    }
                    if exists|i: int|
                        0 <= i < extensions.len() && (#[trigger] extensions[i]).0 == kind
                            && extension_bytes(extensions.take(i)).len() + 4 <= end - at {
                        let i = choose|i: int|
                            0 <= i < extensions.len() && (#[trigger] extensions[i]).0 == kind
                                && extension_bytes(extensions.take(i)).len() + 4 <= end - at;
                        assert(i > 0);
                        assert(rest[i - 1] == extensions[i]);
                        assert(extension_bytes(extensions.take((i - 1) + 1)).len() == 4
                            + body.len() + extension_bytes(rest.take(i - 1)).len());
                    }
                }
            } else {
                assert forall|i: int| 0 < i < extensions.len() implies extension_bytes(
                    #[trigger] extensions.take(i),
                ).len() + 4 > end - at by {
                    assert(extension_bytes(extensions.take((i - 1) + 1)).len() == 4 + body.len()
                        + extension_bytes(rest.take(i - 1)).len());
                }
            }
            if first == kind {
                assert(extensions[0].0 == kind);
            }
        }
    }
}

/// A ClientHello offers an application protocol exactly where one of its extensions is the one for
/// that, whatever its session id, cipher suites, compression methods and other extensions are, and
/// whatever follows it. Where the record is cut short, the extensions count whose kind and length
/// are still there.
pub proof fn law_alpn_is_found_in_every_hello(
    head: Seq<u8>,
    session_id: Seq<u8>,
    suites: Seq<u8>,
    compression: Seq<u8>,
    extensions: Seq<(u16, Seq<u8>)>,
    behind: Seq<u8>,
    cut: int,
)
    requires
        head.len() == 43,
        session_id.len() <= 0xff,
        suites.len() <= 0xffff,
        compression.len() <= 0xff,
        extension_bytes(extensions).len() <= 0xffff,
        forall|i: int| 0 <= i < extensions.len() ==> (#[trigger] extensions[i]).1.len() <= 0xffff,
        0 <= cut <= extension_bytes(extensions).len(),
    ensures
        ({
            let hello = client_hello(head, session_id, suites, compression, extensions);
            let short = hello.take(hello.len() - cut);
            let room = extension_bytes(extensions).len() - cut;
            &&& offers_alpn(hello) <==> head[5] == 0x01 && exists|i: int|
                0 <= i < extensions.len() && (#[trigger] extensions[i]).0 == 0x0010
            &&& offers_alpn(hello + behind) == offers_alpn(hello)
            &&& offers_alpn(short) <==> head[5] == 0x01 && exists|i: int|
                0 <= i < extensions.len() && (#[trigger] extensions[i]).0 == 0x0010
                    && extension_bytes(extensions.take(i)).len() + 4 <= room
        }),
{
    let all = extension_bytes(extensions);
    let hello = client_hello(head, session_id, suites, compression, extensions);
    let start = 43 + 1 + session_id.len() + 2 + suites.len() + 1 + compression.len() + 2;
    assert(hello.len() == start + all.len());
    lemma_hello_span(head, session_id, suites, compression, extensions, behind, 0);
    lemma_hello_span(head, session_id, suites, compression, extensions, Seq::empty(), cut);
    lemma_hello_span(head, session_id, suites, compression, extensions, Seq::empty(), 0);
    assert(hello.take(hello.len() as int) =~= hello);
    assert(hello + Seq::<u8>::empty() =~= hello);
    let short = hello.take(hello.len() - cut);
    assert(short + Seq::<u8>::empty() =~= short);
    lemma_extensions_found(hello, extensions, 0x0010, start as int, hello.len() as int);
    lemma_extensions_found(
        hello + behind,
        extensions,
        0x0010,
        start as int,
        hello.len() as int,
    );
    lemma_extensions_found(short, extensions, 0x0010, start as int, short.len() as int);
    assert forall|i: int| 0 <= i < extensions.len() implies #[trigger] extension_bytes(
        extensions.take(i),
    ).len() + 4 <= all.len() by {
        lemma_extensions_prefix(extensions, i);
    }
    if exists|i: int| 0 <= i < extensions.len() && (#[trigger] extensions[i]).0 == 0x0010 {
        let i = choose|i: int| 0 <= i < extensions.len() && (#[trigger] extensions[i]).0 == 0x0010;
        assert(extension_bytes(extensions.take(i)).len() + 4 <= all.len());
    }
}

proof fn lemma_extensions_prefix(extensions: Seq<(u16, Seq<u8>)>, i: int)
    requires
        0 <= i < extensions.len(),
    ensures
        extension_bytes(extensions.take(i)).len() + 4 <= extension_bytes(extensions).len(),
    decreases extensions.len(),
{
    if i == 0 {
        assert(extensions.take(0) =~= Seq::empty());
    } else {
        lemma_extensions_prefix(extensions.skip(1), i - 1);
        assert(extensions.take(i).skip(1) =~= extensions.skip(1).take(i - 1));
    }
}

proof fn lemma_hello_span(
    head: Seq<u8>,
    session_id: Seq<u8>,
    suites: Seq<u8>,
    compression: Seq<u8>,
    extensions: Seq<(u16, Seq<u8>)>,
    behind: Seq<u8>,
    cut: int,
)
    requires
        head.len() == 43,
        session_id.len() <= 0xff,
        suites.len() <= 0xffff,
        compression.len() <= 0xff,
        extension_bytes(extensions).len() <= 0xffff,
        0 <= cut <= extension_bytes(extensions).len(),
        cut > 0 ==> behind.len() == 0,
    ensures
        ({
            let hello = client_hello(head, session_id, suites, compression, extensions);
            let data = hello.take(hello.len() - cut) + behind;
            let start = 43 + 1 + session_id.len() + 2 + suites.len() + 1 + compression.len() + 2;
            &&& extensions_span(data) == if head[5] == 0x01 {
                Some((start as int, (hello.len() - cut) as int))
            } else {
                None
            }
            &&& forall|k: int|
                start <= k < hello.len() - cut ==> data[k] == extension_bytes(extensions)[k - start]
        }),
{
    let all = extension_bytes(extensions);
    let hello = client_hello(head, session_id, suites, compression, extensions);
    let data = hello.take(hello.len() - cut) + behind;
    let one: int = 44 + session_id.len() as int;
    let two: int = one + 2 + suites.len();
    let three: int = two + 1 + compression.len();
    let start: int = three + 2;
    assert(hello.len() == start + all.len());
    assert(data[5] == head[5]);
    assert(data[43] == session_id.len() as u8);
    assert(data[one as int] == (suites.len() / 256) as u8);
    assert(data[one + 1] == (suites.len() % 256) as u8);
    assert(be16(data, one as int) == suites.len());
    assert(data[two as int] == compression.len() as u8);
    assert(data[three as int] == (all.len() / 256) as u8);
    assert(data[three + 1] == (all.len() % 256) as u8);
    assert(be16(data, three as int) == all.len());
    assert forall|k: int| start <= k < hello.len() - cut implies data[k] == all[k - start] by {}
}

/// What looks like a TLS ClientHello is looked at whole, as far as its record goes; anything else
/// is bridged at once.
pub proof fn law_hellos_are_looked_at_whole(
    policy: RealityPolicy,
    header: Vec<u8>,
)
    ensures
        ({
            let (state, step) = reality_step(
                policy,
                RealityState::Header,
                RealityEvent::Peeked(Some(header)),
            );
            let record = header@[3] * 256 + header@[4];
            if header@.len() >= 6 && header@[0] == 0x16 && header@[5] == 0x01 {
                state is Hello && (step matches RealityStep::Peek(bytes) && bytes == if record
                    <= 16384 {
                    5 + record
                } else {
                    5 + 16384int
                })
            } else {
                state is Done && step is Bridge
            }
        }),
        reality_step(policy, RealityState::Header, RealityEvent::Peeked(None)).1 is Bridge,
        reality_step(policy, RealityState::Hello, RealityEvent::Peeked(None)).1 is Bridge,
        reality_step(policy, RealityState::Token, RealityEvent::Parsed(None)).1 is Bridge,
{
}

/// Whether a connection goes on as one with a genuine client: served as it is, or with TLS
/// terminated in the way that the listener is configured for.
pub open spec fn lets_in(policy: RealityPolicy, next: (RealityState, RealityStep)) -> bool {
    if policy.real_tls {
        next.0 is Terminating && if policy.handrolled {
            next.1 is TerminateHandRolled
        } else {
            next.1 is TerminateTls
        }
    } else {
        next.0 is Done && next.1 is Serve
    }
}

/// A listener without short ids lets every hello in that negotiates no application protocol, and
/// bridges every hello that does.
pub proof fn law_plain_hellos_are_let_in(
    policy: RealityPolicy,
    hello: Vec<u8>,
    head: Seq<u8>,
    session_id: Seq<u8>,
    suites: Seq<u8>,
    compression: Seq<u8>,
    extensions: Seq<(u16, Seq<u8>)>,
)
    requires
        policy.short_ids@.len() == 0,
        hello@ == client_hello(head, session_id, suites, compression, extensions),
        head.len() == 43,
        head[5] == 0x01,
        session_id.len() <= 0xff,
        suites.len() <= 0xffff,
        compression.len() <= 0xff,
        extension_bytes(extensions).len() <= 0xffff,
        forall|i: int| 0 <= i < extensions.len() ==> (#[trigger] extensions[i]).1.len() <= 0xffff,
    ensures
        ({
            let next = reality_step(
                policy,
                RealityState::Hello,
                RealityEvent::Peeked(Some(hello)),
            );
            if exists|i: int| 0 <= i < extensions.len() && (#[trigger] extensions[i]).0 == 0x0010 {
                next.0 is Done && next.1 is Bridge
            } else {
                lets_in(policy, next)
            }
        }),
{
    law_alpn_is_found_in_every_hello(
        head,
        session_id,
        suites,
        compression,
        extensions,
        Seq::empty(),
        0,
    );
}

/// A listener with short ids lets a client in that shows a fresh token with one of them: its hello
/// is parsed, the session id of the hello is opened and looked up, and the client goes on as a
/// genuine one. Any other short id, and a key share of another length, is bridged.
pub proof fn law_tokens_are_let_in(
    policy: RealityPolicy,
    hello: Vec<u8>,
    token: HelloToken,
    short_id: Vec<u8>,
)
    requires
        policy.short_ids@.len() > 0,
        hello@.len() >= 5,
    ensures
        ({
            let (parsing, first) = reality_step(
                policy,
                RealityState::Hello,
                RealityEvent::Peeked(Some(hello)),
            );
            let (opening, second) = reality_step(
                policy,
                parsing,
                RealityEvent::Parsed(Some(token)),
            );
            let (looking, third) = reality_step(
                policy,
                opening,
                RealityEvent::Opened(Some(short_id)),
            );
            let known = exists|i: int|
                0 <= i < policy.short_ids@.len() && (#[trigger] policy.short_ids@[i]) is Some
                    && policy.short_ids@[i]->Some_0@ == short_id@;
            &&& first is Parse
            &&& token.key_share@.len() == 32 ==> second is Open
            &&& token.key_share@.len() != 32 ==> second is Bridge
            &&& token.key_share@.len() == 32 && known ==> third == RealityStep::Observe(
                token.session_id,
            ) && lets_in(policy, reality_step(policy, looking, RealityEvent::Observed(true)))
                && reality_step(policy, looking, RealityEvent::Observed(false)).1 is Bridge
            &&& token.key_share@.len() == 32 && !known ==> third is Bridge
            &&& token.key_share@.len() == 32 ==> reality_step(
                policy,
                opening,
                RealityEvent::Opened(None),
            ).1 is Bridge
        }),
{
}

/// Once TLS is established, a client that opens HTTP/2 is served over it, and any other client over
/// the stream itself.
pub proof fn law_carriers_are_told_apart(policy: RealityPolicy, prefix: Vec<u8>)
    ensures
        ({
            let (waiting, first) = reality_step(
                policy,
                RealityState::Terminating,
                RealityEvent::Terminated(TlsOutcome::Established),
            );
            let (state, second) = reality_step(
                policy,
                waiting,
                RealityEvent::Preface(Some(prefix)),
            );
            let http2 = prefix@.len() == 24 && forall|i: int|
                0 <= i < 24 ==> #[trigger] prefix@[i] as char
                    == "PRI * HTTP/2.0\r\n\r\nSM\r\n\r\n"@[i];
            &&& first is ReadPreface
            &&& http2 ==> second is AcceptHttp2 && reality_step(
                policy,
                state,
                RealityEvent::CarrierAccepted(true),
            ).1 is ServeHttp2 && reality_step(
                policy,
                state,
                RealityEvent::CarrierAccepted(false),
            ).1 is Fail
            &&& !http2 ==> state is Done && second is Serve
        }),
        reality_step(
            policy,
            RealityState::Terminating,
            RealityEvent::Terminated(TlsOutcome::Failed),
        ).1 is Fail,
        reality_step(
            policy,
            RealityState::Terminating,
            RealityEvent::Terminated(TlsOutcome::TimedOut),
        ).1 is Fail,
{
    reveal_strlit("PRI * HTTP/2.0\r\n\r\nSM\r\n\r\n");
    let text = "PRI * HTTP/2.0\r\n\r\nSM\r\n\r\n"@;
    assert(CLIENT_PREFACE@.len() == 24);
    assert forall|i: int| 0 <= i < 24 implies #[trigger] CLIENT_PREFACE@[i] as char == text[i] by {}
    let http2 = prefix@.len() == 24 && forall|i: int|
        0 <= i < 24 ==> #[trigger] prefix@[i] as char == text[i];
    if http2 {
        assert(prefix@ =~= CLIENT_PREFACE@) by {
            assert forall|i: int| 0 <= i < 24 implies prefix@[i] == CLIENT_PREFACE@[i] by {
                assert(prefix@[i] as char == CLIENT_PREFACE@[i] as char);
                assert((prefix@[i] as char) as u8 == (CLIENT_PREFACE@[i] as char) as u8);
            }
        }
    }
    if prefix@ == CLIENT_PREFACE@ {
        assert(http2);
    }
}

/// The question itself is answered so: a ClientHello has the extension exactly where one of its
/// extensions is of the kind 0x0010, whatever else it has.
pub proof fn law_alpn_is_recognised(
    data: &[u8],
    head: Seq<u8>,
    session_id: Seq<u8>,
    suites: Seq<u8>,
    compression: Seq<u8>,
    extensions: Seq<(u16, Seq<u8>)>,
    behind: Seq<u8>,
    found: bool,
)
    requires
        call_ensures(has_alpn_extension, (data,), found),
        head.len() == 43,
        session_id.len() <= 0xff,
        suites.len() <= 0xffff,
        compression.len() <= 0xff,
        extension_bytes(extensions).len() <= 0xffff,
        forall|i: int| 0 <= i < extensions.len() ==> (#[trigger] extensions[i]).1.len() <= 0xffff,
        data@ == client_hello(head, session_id, suites, compression, extensions) + behind,
    ensures
        found <==> head[5] == 0x01 && exists|i: int|
            0 <= i < extensions.len() && (#[trigger] extensions[i]).0 == 0x0010,
{
    law_alpn_is_found_in_every_hello(
        head,
        session_id,
        suites,
        compression,
        extensions,
        behind,
        0,
    );
}

/// Configured times have a floor: 5 seconds for a handshake, 300 milliseconds for a look.
pub proof fn law_times_have_a_floor(policy: RealityPolicy, seconds: u64, milliseconds: u64)
    requires
        call_ensures(RealityPolicy::handshake_timeout, (&policy,), seconds),
        call_ensures(RealityPolicy::peek_budget, (&policy,), milliseconds),
    ensures
        seconds >= 5 && seconds >= policy.handshake_timeout_secs,
        seconds == 5 || seconds == policy.handshake_timeout_secs,
        milliseconds >= 300 && milliseconds >= policy.peek_timeout_ms,
        milliseconds == 300 || milliseconds == policy.peek_timeout_ms,
{
}

/// A short id is let in where the list has it, and entries that do not parse let nobody in.
pub proof fn law_listed_short_ids_are_let_in(
    opened: &[u8],
    allowed: Vec<Option<Vec<u8>>>,
    found: bool,
    at: int,
)
    requires
        call_ensures(is_short_id_allowed, (opened, &allowed), found),
    ensures
        0 <= at < allowed@.len() && allowed@[at] is Some && allowed@[at]->Some_0@ == opened@
            ==> found,
        (forall|i: int|
            0 <= i < allowed@.len() ==> ((#[trigger] allowed@[i]) is None || allowed@[i]->Some_0@
                != opened@)) ==> !found,
{
}

/// A bridge takes one place of its budget and gives the handshake slot back; without a place the
/// connection is dropped and counted, and every hundredth, from the first on, is reported.
pub proof fn law_bridges_have_a_budget(holds_slot: bool, verdict: GateVerdict)
    ensures
        forall|gate: &mut DecoyGate| #[trigger]
            call_ensures(DecoyGate::take_over, (gate, holds_slot), verdict) && (holds_slot
                ==> gate.handshake_free < usize::MAX) ==> {
                let after = *final(gate);
                &&& verdict is Bridge <==> gate.decoy_free > 0
                &&& gate.decoy_free > 0 ==> after.decoy_free == gate.decoy_free - 1 && after.refused
                    == gate.refused
                &&& gate.decoy_free == 0 ==> after.decoy_free == 0 && after.refused == (
                gate.refused + 1) % 0x1_0000_0000_0000_0000 && (verdict is DropAndReport
                    <==> after.refused % 100 == 1)
                &&& holds_slot ==> after.handshake_free == gate.handshake_free + 1
                &&& !holds_slot ==> after.handshake_free == gate.handshake_free
            },
{
}

/// A window is waited for until it is full, its time is used up or nothing came for a fifth of it,
/// 100 milliseconds at least; each new byte starts the last of these anew.
pub proof fn law_windows_are_waited_for(
    len: usize,
    budget_ms: u64,
    now: u64,
    window: PeekWindow,
    seen: usize,
    later: u64,
    over: bool,
)
    requires
        call_ensures(PeekWindow::open, (len, budget_ms, now), window),
        now + budget_ms <= u64::MAX,
    ensures
        window.len == len && window.deadline == now + budget_ms && window.last == 0
            && window.last_progress == now,
        budget_ms >= 500 ==> 5 * window.stall <= budget_ms < 5 * window.stall + 5,
        budget_ms < 500 ==> window.stall == 100,
        forall|open: &mut PeekWindow| #[trigger]
            call_ensures(PeekWindow::observe, (open, seen, later), over) ==> {
                let after = *final(open);
                let more = open.last < seen < open.len;
                &&& seen >= open.len || later >= open.deadline ==> over
                &&& more && later < open.deadline && open.stall > 0 ==> !over
                &&& more ==> after.last == seen && after.last_progress == later
                &&& !more ==> after.last == open.last && after.last_progress == open.last_progress
                &&& !more && seen < open.len && later < open.deadline && later
                    >= open.last_progress ==> (over <==> later - open.last_progress >= open.stall)
                &&& after.len == open.len && after.deadline == open.deadline && after.stall
                    == open.stall
            },
{
}

/// A bridged direction passes on what it reads and the end of what it reads.
pub proof fn law_bridged_bytes_are_passed_on(event: CopyEvent, step: CopyStep)
    requires
        call_ensures(copy_step, (event,), step),
    ensures
        event matches CopyEvent::Read(bytes) ==> (bytes > 0 ==> step == CopyStep::Write(bytes))
            && (bytes == 0 ==> step is HalfClose),
        event is Failed ==> step is Fail,
        event is Idle ==> step is TimeOut,
{
}

} // verus!
