//! Decisions of the UDP reachability probe.
//!
//! A probe stops after the server's first reply: it proves that the first flight crosses the path
//! without authenticating or creating a tunnel.

use crate::carrier::CarrierAddress;
use crate::cidr::IpAddress;
use crate::ip_text::text_of_ip;
use crate::log_text::is_control_char;
use crate::text::{
    chars_of, decimal, decimal_text, join_texts, joined_texts, same_text, sentence, sentence_up_to,
};
use vstd::prelude::*;
use vstd::utf8::encode_utf8;

verus! {

pub const PROBE_ATTEMPTS: usize = 2;

pub const MAX_PROBE_ADDRESSES: usize = 16;

pub const MIN_PROBE_TIMEOUT_MS: u32 = 100;

pub const MAX_PROBE_TIMEOUT_MS: u32 = 5000;

pub const MAX_PROBE_HOST_BYTES: usize = 253;

/// The timeout that an adapter asks for, if it is within bounds.
pub fn probe_timeout(timeout_ms: i32) -> (timeout: Option<u32>)
    ensures
        timeout == if MIN_PROBE_TIMEOUT_MS <= timeout_ms <= MAX_PROBE_TIMEOUT_MS {
            Some(timeout_ms as u32)
        } else {
            None
        },
{
    if timeout_ms < MIN_PROBE_TIMEOUT_MS as i32 || timeout_ms > MAX_PROBE_TIMEOUT_MS as i32 {
        None
    } else {
        Some(timeout_ms as u32)
    }
}

/// A host that a probe may look up: short, without control characters and without a colon.
pub open spec fn is_probe_host(host: Seq<char>) -> bool {
    &&& host.len() > 0
    &&& encode_utf8(host).len() <= MAX_PROBE_HOST_BYTES
    &&& forall|i: int| 0 <= i < host.len() ==> !is_control_char(#[trigger] host[i]) && host[i] != ':'
}

pub fn check_probe_host(host: &str) -> (valid: bool)
    ensures
        valid == is_probe_host(host@),
{
    if host.unicode_len() == 0 || host.as_bytes().len() > MAX_PROBE_HOST_BYTES {
        return false;
    }
    let chars = chars_of(host);
    let mut i: usize = 0;
    while i < chars.len()
        invariant
            chars@ == host@,
            i <= chars@.len(),
            forall|j: int|
                0 <= j < i ==> !is_control_char(#[trigger] host@[j]) && host@[j] != ':',
        decreases chars@.len() - i,
    {
        let code: u32 = chars[i] as u32;
        if code < 0x20 || (0x7f <= code && code <= 0x9f) || chars[i] == ':' {
            assert(is_control_char(host@[i as int]) || host@[i as int] == ':');
            return false;
        }
        i += 1;
    }
    true
}

/// The probe that an adapter starts; numbers below one start none.
pub fn probe_id(raw: i64) -> (id: Option<u64>)
    ensures
        id == if raw > 0 {
            Some(raw as u64)
        } else {
            None
        },
{
    if raw > 0 {
        Some(raw as u64)
    } else {
        None
    }
}

/// The timeout of a probe that an adapter may start. `protocol` is that of the profile, if
/// its text could be read; `host` is the host, if its bytes are text.
pub fn admit_probe(
    timeout_ms: i32,
    profile_bytes: usize,
    max_profile_bytes: usize,
    protocol: Option<&str>,
    host: Option<&str>,
) -> (timeout: Option<u32>)
    ensures
        timeout == if MIN_PROBE_TIMEOUT_MS <= timeout_ms <= MAX_PROBE_TIMEOUT_MS && profile_bytes
            <= max_profile_bytes && protocol is Some && protocol->0@ == "udp"@ && host is Some
            && is_probe_host(host->0@) {
            Some(timeout_ms as u32)
        } else {
            None
        },
{
    if profile_bytes > max_profile_bytes {
        return None;
    }
    match (protocol, host) {
        (Some(protocol), Some(host)) => {
            if same_text(protocol, "udp") && check_probe_host(host) {
                probe_timeout(timeout_ms)
            } else {
                None
            }
        },
        _ => None,
    }
}

/// What an adapter is told of a probe: the milliseconds until the first reply, or `-1`.
pub fn probe_report(outcome: Result<u64, ProbeError>) -> (report: i64)
    ensures
        report == match outcome {
            Ok(milliseconds) => if milliseconds <= i64::MAX {
                milliseconds as int
            } else {
                i64::MAX as int
            },
            Err(_) => -1,
        },
{
    match outcome {
        Ok(milliseconds) => {
            if milliseconds <= i64::MAX as u64 {
                milliseconds as i64
            } else {
                i64::MAX
            }
        },
        Err(_) => -1,
    }
}

/// The distinct IPv4 addresses of a list, in its order.
pub open spec fn distinct_ipv4(addresses: Seq<CarrierAddress>) -> Seq<CarrierAddress>
    decreases addresses.len(),
{
    if addresses.len() == 0 {
        Seq::empty()
    } else {
        let front = distinct_ipv4(addresses.drop_last());
        if addresses.last().ip is V4 && !front.contains(addresses.last()) {
            front.push(addresses.last())
        } else {
            front
        }
    }
}

/// The first candidates of a list, as many as a probe tries.
pub open spec fn probe_candidates(addresses: Seq<CarrierAddress>) -> Seq<CarrierAddress> {
    if distinct_ipv4(addresses).len() > MAX_PROBE_ADDRESSES {
        distinct_ipv4(addresses).take(MAX_PROBE_ADDRESSES as int)
    } else {
        distinct_ipv4(addresses)
    }
}

proof fn lemma_distinct_grows(addresses: Seq<CarrierAddress>, end: int)
    requires
        0 <= end <= addresses.len(),
    ensures
        distinct_ipv4(addresses.take(end)).len() <= distinct_ipv4(addresses).len(),
        distinct_ipv4(addresses).take(distinct_ipv4(addresses.take(end)).len() as int)
            == distinct_ipv4(addresses.take(end)),
    decreases addresses.len(),
{
    if end < addresses.len() {
        let front = addresses.drop_last();
        lemma_distinct_grows(front, end);
        assert(front.take(end) =~= addresses.take(end));
        let part = distinct_ipv4(addresses.take(end));
        assert(distinct_ipv4(addresses).take(part.len() as int) =~= distinct_ipv4(front).take(
            part.len() as int,
        ));
    } else {
        assert(addresses.take(end) =~= addresses);
        assert(distinct_ipv4(addresses).take(distinct_ipv4(addresses).len() as int)
            =~= distinct_ipv4(addresses));
    }
}

/// Keeps the first distinct IPv4 candidates; IPv6 answers are passed over.
pub fn collect_ipv4_candidates(addresses: &Vec<CarrierAddress>) -> (candidates: Vec<CarrierAddress>)
    ensures
        candidates@ == probe_candidates(addresses@),
{
    let mut candidates: Vec<CarrierAddress> = Vec::new();
    let mut i: usize = 0;
    assert(addresses@.take(0) =~= Seq::<CarrierAddress>::empty());
    while i < addresses.len()
        invariant
            i <= addresses@.len(),
            candidates@ == distinct_ipv4(addresses@.take(i as int)),
            candidates@.len() <= MAX_PROBE_ADDRESSES,
        decreases addresses@.len() - i,
    {
        proof {
            lemma_distinct_grows(addresses@, i as int);
            assert(addresses@.take(i + 1).drop_last() =~= addresses@.take(i as int));
            assert(addresses@.take(i + 1).last() == addresses@[i as int]);
        }
        if candidates.len() == MAX_PROBE_ADDRESSES {
            return candidates;
        }
        if addresses[i].ip.is_ipv4() && !is_candidate(&candidates, addresses[i]) {
            candidates.push(addresses[i]);
        }
        i += 1;
    }
    assert(addresses@.take(addresses@.len() as int) =~= addresses@);
    candidates
}

fn is_candidate(list: &Vec<CarrierAddress>, address: CarrierAddress) -> (found: bool)
    ensures
        found == list@.contains(address),
{
    let mut i: usize = 0;
    while i < list.len()
        invariant
            i <= list@.len(),
            forall|j: int| 0 <= j < i ==> list@[j] != address,
        decreases list@.len() - i,
    {
        if list[i] == address {
            return true;
        }
        i += 1;
    }
    false
}

#[derive(Debug, Clone, Copy, PartialEq, Eq, Structural)]
pub enum ProbeError {
    Cancelled,
    NotUdp,
    DnsTimedOut,
    NoIpv4Address,
    NoReply,
}

impl ProbeError {
    /// `failures` is what the candidates came to, in the order in which they ended.
    pub open spec fn message_text(self, host: Seq<char>, failures: Seq<String>) -> Seq<char> {
        match self {
            ProbeError::Cancelled => "UDP reachability probe cancelled"@,
            ProbeError::NotUdp => "native UDP reachability requires proto = udp"@,
            ProbeError::DnsTimedOut => "UDP probe DNS resolution timed out"@,
            ProbeError::NoIpv4Address => "probe host '"@ + host + "' has no IPv4 address"@,
            ProbeError::NoReply => "no UDP server reply from any IPv4 candidate: "@ + joined_texts(
                failures,
                "; "@,
            ),
        }
    }

    /// The sentence shown to the user. `failures` is what the candidates came to, in the order in
    /// which they ended.
    pub fn message(&self, host: &str, failures: &Vec<String>) -> (message: String)
        ensures
            message@ == self.message_text(host@, failures@),
    {
        match self {
            ProbeError::Cancelled => "UDP reachability probe cancelled".to_owned(),
            ProbeError::NotUdp => "native UDP reachability requires proto = udp".to_owned(),
            ProbeError::DnsTimedOut => "UDP probe DNS resolution timed out".to_owned(),
            ProbeError::NoIpv4Address => sentence("probe host '", host, "' has no IPv4 address"),
            ProbeError::NoReply => sentence_up_to(
                "no UDP server reply from any IPv4 candidate: ",
                join_texts(failures, "; ").as_str(),
            ),
        }
    }
}

/// The text of an address and its port.
pub open spec fn endpoint_text(address: CarrierAddress) -> Seq<char> {
    match address.ip {
        IpAddress::V4(_) => text_of_ip(address.ip) + ":"@ + decimal_text(address.port as nat),
        IpAddress::V6(_) => "["@ + text_of_ip(address.ip) + "]:"@ + decimal_text(
            address.port as nat,
        ),
    }
}

fn write_endpoint(address: CarrierAddress) -> (text: String)
    ensures
        text@ == endpoint_text(address),
{
    let ip = address.ip.render();
    let port = decimal(address.port as u64);
    match address.ip {
        IpAddress::V4(_) => sentence(ip.as_str(), ":", port.as_str()),
        IpAddress::V6(_) => {
            let mut text = sentence("[", ip.as_str(), "]:");
            text.append(port.as_str());
            text
        },
    }
}

/// What a candidate that never answered came to; `timeout_ms` is how long each attempt waited.
pub fn silent_candidate(address: CarrierAddress, timeout_ms: u64) -> (failure: String)
    ensures
        failure@ == endpoint_text(address) + ": no UDP server reply after 2 attempts of "@
            + decimal_text(timeout_ms as nat) + " ms"@,
{
    let mut failure = sentence(
        write_endpoint(address).as_str(),
        ": no UDP server reply after 2 attempts of ",
        decimal(timeout_ms).as_str(),
    );
    failure.append(" ms");
    failure
}

/// Whether a probe may start at all. Cancellation is looked at before anything else, so a probe
/// that is cancelled already touches neither the resolver nor a socket.
pub fn begin_probe(protocol: &str, cancelled: bool) -> (result: Result<(), ProbeError>)
    ensures
        result == if cancelled {
            Err(ProbeError::Cancelled)
        } else if protocol@ != "udp"@ {
            Err(ProbeError::NotUdp)
        } else {
            Ok(())
        },
{
    if cancelled {
        return Err(ProbeError::Cancelled);
    }
    if !same_text(protocol, "udp") {
        return Err(ProbeError::NotUdp);
    }
    Ok(())
}

/// The candidates that a lookup leads to. `answers` is `None` where the lookup timed out.
pub fn resolved_candidates(answers: &Option<Vec<CarrierAddress>>) -> (result: Result<
    Vec<CarrierAddress>,
    ProbeError,
>)
    ensures
        match *answers {
            None => result is Err && result->Err_0 == ProbeError::DnsTimedOut,
            Some(list) => match result {
                Ok(candidates) => candidates@ == probe_candidates(list@) && candidates@.len() > 0,
                Err(error) => error == ProbeError::NoIpv4Address && probe_candidates(list@).len()
                    == 0,
            },
        },
{
    match answers {
        None => Err(ProbeError::DnsTimedOut),
        Some(list) => {
            let candidates = collect_ipv4_candidates(list);
            if candidates.len() == 0 {
                Err(ProbeError::NoIpv4Address)
            } else {
                Ok(candidates)
            }
        },
    }
}

/// What one attempt against a candidate came to.
#[derive(Debug, Clone, Copy, PartialEq, Eq, Structural)]
pub enum AttemptEvent {
    /// A datagram of this many bytes arrived.
    Received(usize),
    TimedOut,
    SocketError,
}

#[derive(Debug, Clone, Copy, PartialEq, Eq, Structural)]
pub enum AttemptStep {
    Reachable,
    /// Send the flight once more and wait again.
    SendAgain,
    NoReply,
    Failed,
}

/// What to do after attempt number `attempt`, the first being 0. An empty datagram is no reply.
pub fn after_attempt(attempt: usize, event: AttemptEvent) -> (step: AttemptStep)
    ensures
        step == match event {
            AttemptEvent::Received(bytes) if bytes > 0 => AttemptStep::Reachable,
            AttemptEvent::SocketError => AttemptStep::Failed,
            _ => if attempt + 1 < PROBE_ATTEMPTS {
                AttemptStep::SendAgain
            } else {
                AttemptStep::NoReply
            },
        },
{
    match event {
        AttemptEvent::Received(bytes) if bytes > 0 => AttemptStep::Reachable,
        AttemptEvent::SocketError => AttemptStep::Failed,
        _ => if attempt < PROBE_ATTEMPTS - 1 {
            AttemptStep::SendAgain
        } else {
            AttemptStep::NoReply
        },
    }
}

/// What is known of a candidate while the candidates run side by side.
#[derive(Debug, Clone, Copy, PartialEq, Eq, Structural)]
pub enum CandidateState {
    Running,
    Reachable,
    Failed,
}

/// Whether the probe as a whole has an answer: yes on the first reachable candidate, no once all
/// of them failed.
pub fn probe_answer(candidates: &Vec<CandidateState>) -> (answer: Option<Result<(), ProbeError>>)
    ensures
        match answer {
            Some(Ok(())) => candidates@.contains(CandidateState::Reachable),
            Some(Err(error)) => error == ProbeError::NoReply && forall|i: int|
                0 <= i < candidates@.len() ==> candidates@[i] == CandidateState::Failed,
            None => !candidates@.contains(CandidateState::Reachable) && candidates@.contains(
                CandidateState::Running,
            ),
        },
{
    let mut running = false;
    let ghost mut at: int = 0;
    let mut i: usize = 0;
    while i < candidates.len()
        invariant
            i <= candidates@.len(),
            running ==> 0 <= at < i && candidates@[at] == CandidateState::Running,
            forall|j: int| 0 <= j < i ==> candidates@[j] != CandidateState::Reachable,
            !running ==> forall|j: int| 0 <= j < i ==> candidates@[j] == CandidateState::Failed,
        decreases candidates@.len() - i,
    {
        match candidates[i] {
            CandidateState::Reachable => {
                return Some(Ok(()));
            },
            CandidateState::Running => {
                running = true;
                proof {
                    at = i as int;
                }
            },
            CandidateState::Failed => {},
        }
        i += 1;
    }
    if running {
        None
    } else {
        Some(Err(ProbeError::NoReply))
    }
}

/// A host may be looked up when it has a character, 253 bytes at most and neither a colon nor a
/// control character; one such character refuses it, wherever it stands.
pub proof fn law_hosts_that_may_be_looked_up(host: Seq<char>, at: int)
    ensures
        1 <= host.len() && encode_utf8(host).len() <= 253 && (forall|i: int|
            0 <= i < host.len() ==> (#[trigger] host[i]) as u32 >= 0x20 && host[i] != ':' && !(0x7f
                <= host[i] as u32 <= 0x9f)) ==> is_probe_host(host),
        0 <= at < host.len() && (host[at] == ':' || (host[at] as u32) < 0x20 || 0x7f
            <= host[at] as u32 <= 0x9f) ==> !is_probe_host(host),
        host.len() == 0 || encode_utf8(host).len() > 253 ==> !is_probe_host(host),
{
    if 0 <= at < host.len() && is_probe_host(host) {
        assert(!is_control_char(host[at]) && host[at] != ':');
    }
}

/// The candidates are the IPv4 addresses of the list, each once.
pub proof fn law_ipv4_addresses_are_candidates(
    addresses: Seq<CarrierAddress>,
    address: CarrierAddress,
)
    ensures
        distinct_ipv4(addresses).contains(address) <==> addresses.contains(address) && address.ip
            is V4,
        distinct_ipv4(addresses).no_duplicates(),
    decreases addresses.len(),
{
    if addresses.len() > 0 {
        let front = addresses.drop_last();
        let before = distinct_ipv4(front);
        let last = addresses.last();
        law_ipv4_addresses_are_candidates(front, address);
        law_ipv4_addresses_are_candidates(front, last);
        assert(addresses =~= front.push(last));
        assert(addresses.contains(address) <==> front.contains(address) || address == last) by {
            if addresses.contains(address) {
                let i = choose|i: int| 0 <= i < addresses.len() && addresses[i] == address;
                if i < front.len() {
                    assert(front[i] == address);
                }
            }
            if front.contains(address) {
                let i = choose|i: int| 0 <= i < front.len() && front[i] == address;
                assert(addresses[i] == address);
            }
            assert(addresses[addresses.len() - 1] == last);
        }
        let grown = before.push(last);
        assert(grown.contains(address) <==> before.contains(address) || address == last) by {
            if before.contains(address) {
                let i = choose|i: int| 0 <= i < before.len() && before[i] == address;
                assert(grown[i] == address);
            }
            assert(grown[before.len() as int] == last);
        }
    }
}

/// A probe tries the first 16 candidates at most, in the order of the list: candidates that come
/// later in the list come later, and never in place of an earlier one.
pub proof fn law_probes_try_the_first_candidates(
    addresses: Seq<CarrierAddress>,
    later: Seq<CarrierAddress>,
)
    ensures
        probe_candidates(addresses).len() <= 16,
        probe_candidates(addresses).is_prefix_of(distinct_ipv4(addresses)),
        distinct_ipv4(addresses).len() <= 16 ==> probe_candidates(addresses) == distinct_ipv4(
            addresses,
        ),
        distinct_ipv4(addresses).len() > 16 ==> probe_candidates(addresses).len() == 16,
        distinct_ipv4(addresses).is_prefix_of(distinct_ipv4(addresses + later)),
        probe_candidates(addresses).is_prefix_of(probe_candidates(addresses + later)),
{
    let whole = distinct_ipv4(addresses + later);
    let part = distinct_ipv4(addresses);
    lemma_distinct_grows(addresses + later, addresses.len() as int);
    assert((addresses + later).take(addresses.len() as int) =~= addresses);
    assert(part =~= whole.subrange(0, part.len() as int));
    assert(probe_candidates(addresses) =~= part.subrange(
        0,
        probe_candidates(addresses).len() as int,
    ));
    assert(probe_candidates(addresses) =~= probe_candidates(addresses + later).subrange(
        0,
        probe_candidates(addresses).len() as int,
    ));
}

/// A probe may start with a timeout of 100 to 5000 milliseconds, a profile of the allowed size
/// for UDP, and a host that may be looked up; it then has the timeout that was asked for.
pub proof fn law_probes_are_admitted(
    timeout_ms: i32,
    profile_bytes: usize,
    max_profile_bytes: usize,
    protocol: Option<&str>,
    host: Option<&str>,
    timeout: Option<u32>,
)
    requires
        call_ensures(
            admit_probe,
            (timeout_ms, profile_bytes, max_profile_bytes, protocol, host),
            timeout,
        ),
    ensures
        timeout is Some <==> 100 <= timeout_ms <= 5000 && profile_bytes <= max_profile_bytes
            && protocol is Some && protocol->Some_0@ == "udp"@ && host is Some && is_probe_host(
            host->Some_0@,
        ),
        timeout matches Some(value) ==> value == timeout_ms,
{
}

/// The bounds of a timeout and of a number are its own: 100 and 5000 milliseconds count, as does
/// every number from one on.
pub proof fn law_timeouts_and_numbers_within_bounds_count(
    timeout_ms: i32,
    timeout: Option<u32>,
    raw: i64,
    id: Option<u64>,
)
    requires
        call_ensures(probe_timeout, (timeout_ms,), timeout),
        call_ensures(probe_id, (raw,), id),
    ensures
        timeout is Some <==> 100 <= timeout_ms <= 5000,
        timeout matches Some(value) ==> value == timeout_ms,
        id is Some <==> raw >= 1,
        id matches Some(value) ==> value == raw,
{
}

/// An adapter is told the milliseconds of a reply, and a negative number exactly where there was
/// none.
pub proof fn law_reports_tell_replies_from_failures(
    outcome: Result<u64, ProbeError>,
    report: i64,
)
    requires
        call_ensures(probe_report, (outcome,), report),
    ensures
        report < 0 <==> outcome is Err,
        outcome is Err ==> report == -1,
        outcome matches Ok(milliseconds) ==> (milliseconds <= 0x7fff_ffff_ffff_ffff ==> report
            == milliseconds) && (milliseconds > 0x7fff_ffff_ffff_ffff ==> report
            == 0x7fff_ffff_ffff_ffff),
{
}

/// A probe begins over UDP unless it was cancelled.
pub proof fn law_probes_begin_over_udp(
    protocol: &str,
    cancelled: bool,
    result: Result<(), ProbeError>,
)
    requires
        call_ensures(begin_probe, (protocol, cancelled), result),
    ensures
        result is Ok <==> !cancelled && protocol@ == "udp"@,
        result == Err::<(), ProbeError>(ProbeError::Cancelled) <==> cancelled,
        result == Err::<(), ProbeError>(ProbeError::NotUdp) <==> !cancelled && protocol@ != "udp"@,
{
}

/// A lookup leads to candidates exactly where one of its answers is an IPv4 address.
pub proof fn law_ipv4_answers_lead_to_candidates(
    answers: Option<Vec<CarrierAddress>>,
    result: Result<Vec<CarrierAddress>, ProbeError>,
)
    requires
        call_ensures(resolved_candidates, (&answers,), result),
    ensures
        answers is None <==> result == Err::<Vec<CarrierAddress>, ProbeError>(
            ProbeError::DnsTimedOut,
        ),
        answers matches Some(list) ==> (result is Ok <==> exists|i: int|
            0 <= i < list@.len() && (#[trigger] list@[i]).ip is V4),
{
    if let Some(list) = answers {
        let all = distinct_ipv4(list@);
        if result is Ok {
            law_ipv4_addresses_are_candidates(list@, all[0]);
            assert(all.contains(all[0]));
            let i = choose|i: int| 0 <= i < list@.len() && list@[i] == all[0];
            assert(list@[i].ip is V4);
        }
        if exists|i: int| 0 <= i < list@.len() && (#[trigger] list@[i]).ip is V4 {
            let i = choose|i: int| 0 <= i < list@.len() && (#[trigger] list@[i]).ip is V4;
            law_ipv4_addresses_are_candidates(list@, list@[i]);
            assert(list@.contains(list@[i]));
            assert(all.len() > 0);
        }
    }
}

/// A candidate that answers with a byte is reachable, a socket that fails is not tried again, and
/// silence is met by two attempts in all.
pub proof fn law_candidates_are_asked_twice(
    attempt: usize,
    event: AttemptEvent,
    step: AttemptStep,
)
    requires
        call_ensures(after_attempt, (attempt, event), step),
    ensures
        step is Reachable <==> (event matches AttemptEvent::Received(bytes) && bytes > 0),
        step is Failed <==> event is SocketError,
        !(step is Reachable) && !(step is Failed) ==> (step is SendAgain <==> attempt == 0),
        !(step is Reachable) && !(step is Failed) ==> (step is NoReply <==> attempt >= 1),
{
}

/// One reachable candidate answers the probe at once; without one it goes on while a candidate
/// runs, and fails once all have.
pub proof fn law_one_reachable_candidate_is_enough(
    candidates: Vec<CandidateState>,
    answer: Option<Result<(), ProbeError>>,
    at: int,
)
    requires
        call_ensures(probe_answer, (&candidates,), answer),
    ensures
        0 <= at < candidates@.len() && candidates@[at] is Reachable ==> answer is Some
            && answer->Some_0 is Ok,
        (forall|i: int| 0 <= i < candidates@.len() ==> (#[trigger] candidates@[i]) is Failed)
            ==> answer == Some(Err::<(), ProbeError>(ProbeError::NoReply)),
        (forall|i: int|
            0 <= i < candidates@.len() ==> !((#[trigger] candidates@[i]) is Reachable)) && 0 <= at
            < candidates@.len() && candidates@[at] is Running ==> answer is None,
{
    if 0 <= at < candidates@.len() {
        assert(candidates@.contains(candidates@[at]));
    }
}

/// An endpoint is written as its address and its port; an IPv6 address stands in brackets, so
/// that its last colon is that of the port.
pub proof fn law_endpoints_are_written(value: u32, wide: u128, port: u16)
    ensures
        endpoint_text(CarrierAddress { ip: IpAddress::V4(value), port }) == text_of_ip(
            IpAddress::V4(value),
        ) + seq![':'] + decimal_text(port as nat),
        endpoint_text(CarrierAddress { ip: IpAddress::V6(wide), port }) == seq!['['] + text_of_ip(
            IpAddress::V6(wide),
        ) + seq![']', ':'] + decimal_text(port as nat),
{
    reveal_strlit(":");
    reveal_strlit("[");
    reveal_strlit("]:");
    assert(":"@ =~= seq![':']);
    assert("["@ =~= seq!['[']);
    assert("]:"@ =~= seq![']', ':']);
}

} // verus!
