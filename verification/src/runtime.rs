//! Lifecycle decisions of one client transport generation: what input is accepted, in which order
//! carrier candidates are dialled, when a network plan counts as acknowledged, and what is left
//! behind when the generation ends.
//!
//! Times are nanoseconds on the caller's monotonic clock.

use crate::budget_math::{saturating_add, sum_saturating};
use crate::carrier::{canonical, canonical_carrier_ip};
use crate::cidr::IpAddress;
use crate::ip_text::{parse_ips, parsed_ips};
use crate::network::{family_of, ip_family, NetworkAddressFamily};
use crate::text::same_text;
use vstd::prelude::*;

verus! {

pub const NETWORK_ACK_TIMEOUT: u64 = 45_000_000_000;

pub const MAX_FALLBACK_DNS_SERVERS: usize = 8;

pub const MAX_SUPPLIED_CARRIER_ADDRESSES: usize = 1024;

pub const MAX_CARRIER_ADDRESSES_PER_FAMILY: usize = 32;

pub const MIN_CANDIDATE_BUDGET: u64 = 250_000_000;

pub const MAX_FAILURE_CHARS: usize = 512;

/// The share of one candidate in the time that is left: an equal part, at least a quarter of a
/// second, never more than all of it.
pub open spec fn connect_budget(remaining: int, candidates_left: int) -> int {
    let parts = if candidates_left < 1 {
        1
    } else if candidates_left > u32::MAX {
        u32::MAX as int
    } else {
        candidates_left
    };
    let share = remaining / parts;
    let wanted = if share < MIN_CANDIDATE_BUDGET {
        MIN_CANDIDATE_BUDGET as int
    } else {
        share
    };
    if wanted > remaining {
        remaining
    } else {
        wanted
    }
}

/// How long one candidate may take, or nothing once the deadline has passed.
pub fn candidate_connect_budget(deadline: u64, now: u64, candidates_left: usize) -> (budget: Option<
    u64,
>)
    ensures
        match budget {
            Some(value) => now <= deadline && value == connect_budget(
                deadline - now,
                candidates_left as int,
            ) && value <= deadline - now,
            None => deadline < now,
        },
{
    if deadline < now {
        return None;
    }
    let remaining: u64 = deadline - now;
    let parts: u64 = if candidates_left < 1 {
        1
    } else if candidates_left as u64 > u32::MAX as u64 {
        u32::MAX as u64
    } else {
        candidates_left as u64
    };
    let share: u64 = remaining / parts;
    let wanted: u64 = if share < MIN_CANDIDATE_BUDGET {
        MIN_CANDIDATE_BUDGET
    } else {
        share
    };
    Some(
        if wanted > remaining {
            remaining
        } else {
            wanted
        },
    )
}

#[derive(Debug, Clone, Copy, PartialEq, Eq, Structural)]
pub enum DialEvent {
    /// No socket could be set up for the candidate, for one because its family does not fit.
    SocketFailed,
    /// The socket of the candidate is ready to connect at this time.
    SocketReady(u64),
    ConnectFailed,
}

#[derive(Debug, Clone, Copy, PartialEq, Eq, Structural)]
pub enum DialStep {
    /// Open a socket for this candidate.
    Open(usize),
    /// Connect this candidate within this many nanoseconds.
    Connect(usize, u64),
    /// Nothing is left to try.
    Stop,
}

/// Dialling a list of candidates under one deadline. UDP connect cannot prove reachability, so a
/// UDP carrier connects once; TCP goes through the whole list.
#[derive(Debug, Clone, Copy, PartialEq, Eq, Structural)]
pub struct DialPlan {
    pub udp: bool,
    pub count: usize,
    pub index: usize,
    pub deadline: u64,
}

/// The step that opens candidate `index`, if there is one.
pub open spec fn open_step(plan: DialPlan) -> DialStep {
    if plan.index < plan.count {
        DialStep::Open(plan.index)
    } else {
        DialStep::Stop
    }
}

/// The plan after an event, and what to do next.
pub open spec fn dial_step(plan: DialPlan, event: DialEvent) -> (DialPlan, DialStep) {
    let stopped = DialPlan { index: plan.count, ..plan };
    let moved = DialPlan {
        index: if plan.index < plan.count {
            (plan.index + 1) as usize
        } else {
            plan.index
        },
        ..plan
    };
    match event {
        DialEvent::SocketFailed => (moved, open_step(moved)),
        DialEvent::SocketReady(now) => if plan.index >= plan.count || plan.deadline < now {
            (stopped, DialStep::Stop)
        } else {
            (
                plan,
                DialStep::Connect(
                    plan.index,
                    connect_budget(
                        plan.deadline - now,
                        if plan.udp {
                            1
                        } else {
                            plan.count - plan.index
                        },
                    ) as u64,
                ),
            )
        },
        DialEvent::ConnectFailed => if plan.udp {
            (stopped, DialStep::Stop)
        } else {
            (moved, open_step(moved))
        },
    }
}

impl DialPlan {
    /// A plan for `count` candidates that starts now and ends after the configured seconds, one
    /// at least.
    pub fn start(udp: bool, count: usize, now: u64, connection_timeout_secs: u64) -> (result: (
        DialPlan,
        DialStep,
    ))
        ensures
            ({
                let (plan, step) = result;
                let seconds: int = if connection_timeout_secs < 1 {
                    1
                } else {
                    connection_timeout_secs as int
                };
                let end = now + seconds * 1_000_000_000;
                &&& plan.udp == udp && plan.count == count && plan.index == 0
                &&& plan.deadline == if end > u64::MAX {
                    u64::MAX as int
                } else {
                    end
                }
                &&& step == open_step(plan)
            }),
    {
        let seconds: u64 = if connection_timeout_secs < 1 {
            1
        } else {
            connection_timeout_secs
        };
        let end: u128 = now as u128 + seconds as u128 * 1_000_000_000;
        let deadline: u64 = if end > u64::MAX as u128 {
            u64::MAX
        } else {
            end as u64
        };
        let plan = DialPlan { udp, count, index: 0, deadline };
        let step = plan.open();
        (plan, step)
    }

    fn open(&self) -> (step: DialStep)
        ensures
            step == open_step(*self),
    {
        if self.index < self.count {
            DialStep::Open(self.index)
        } else {
            DialStep::Stop
        }
    }

    /// Takes the outcome of the last step and says what to do next.
    pub fn advance(&mut self, event: DialEvent) -> (step: DialStep)
        ensures
            (*final(self), step) == dial_step(*old(self), event),
    {
        match event {
            DialEvent::SocketFailed => {
                if self.index < self.count {
                    self.index = self.index + 1;
                }
                self.open()
            },
            DialEvent::SocketReady(now) => {
                if self.index >= self.count {
                    self.index = self.count;
                    return DialStep::Stop;
                }
                let left: usize = if self.udp {
                    1
                } else {
                    self.count - self.index
                };
                match candidate_connect_budget(self.deadline, now, left) {
                    Some(budget) => DialStep::Connect(self.index, budget),
                    None => {
                        self.index = self.count;
                        DialStep::Stop
                    },
                }
            },
            DialEvent::ConnectFailed => {
                if self.udp {
                    self.index = self.count;
                    return DialStep::Stop;
                }
                if self.index < self.count {
                    self.index = self.index + 1;
                }
                self.open()
            },
        }
    }
}

/// Dialling only moves forward: an opened candidate comes right after the last one, a connect
/// concerns the candidate at hand and ends by the deadline, and a UDP plan connects once.
pub proof fn law_dialling_moves_forward(plan: DialPlan, event: DialEvent)
    ensures
        ({
            let (next, step) = dial_step(plan, event);
            &&& next.count == plan.count && next.deadline == plan.deadline && next.udp == plan.udp
            &&& match step {
                DialStep::Open(index) => index == plan.index + 1 && index < plan.count
                    && next.index == index,
                DialStep::Connect(index, budget) => index == plan.index && index < plan.count && (
                event matches DialEvent::SocketReady(now) && now + budget <= plan.deadline),
                DialStep::Stop => plan.index <= plan.count ==> next.index == plan.count,
            }
            &&& plan.udp && event is ConnectFailed ==> step is Stop
        }),
{
    if let DialEvent::SocketReady(now) = event {
        if now <= plan.deadline {
            let remaining = plan.deadline - now;
            assert(connect_budget(
                remaining,
                if plan.udp {
                    1
                } else {
                    plan.count - plan.index
                },
            ) <= remaining);
        }
    }
}

#[derive(Debug)]
pub struct RuntimeInput {
    pub fallback_dns_servers: Vec<String>,
    /// Ordered A/AAAA records resolved by the platform on its physical network.
    pub carrier_addresses: Vec<String>,
}

/// Why an input is refused. Numbers are positions in its lists.
#[derive(Debug, Clone, Copy, PartialEq, Eq, Structural)]
pub enum InputError {
    TooManyDnsServers,
    InvalidDnsServer(usize),
    TooManyCarrierAddresses,
    InvalidCarrierAddress(usize),
}

/// The first position from `start` on at which there is no address.
pub open spec fn first_invalid(ips: Seq<Option<IpAddress>>, start: int) -> Option<int>
    decreases ips.len() - start,
{
    if start < 0 || start >= ips.len() {
        None
    } else if ips[start] is None {
        Some(start)
    } else {
        first_invalid(ips, start + 1)
    }
}

fn find_invalid(ips: &Vec<Option<IpAddress>>) -> (position: Option<usize>)
    ensures
        match position {
            Some(at) => at < ips@.len() && first_invalid(ips@, 0) == Some(at as int),
            None => first_invalid(ips@, 0) is None,
        },
{
    let mut i: usize = 0;
    while i < ips.len()
        invariant
            i <= ips@.len(),
            first_invalid(ips@, 0) == first_invalid(ips@, i as int),
        decreases ips@.len() - i,
    {
        if ips[i].is_none() {
            return Some(i);
        }
        i += 1;
    }
    None
}

/// Why an input is refused, if it is; the lists hold what its texts denote.
pub open spec fn input_problem(
    dns: Seq<Option<IpAddress>>,
    carriers: Seq<Option<IpAddress>>,
) -> Option<InputError> {
    if dns.len() > MAX_FALLBACK_DNS_SERVERS {
        Some(InputError::TooManyDnsServers)
    } else if first_invalid(dns, 0) is Some {
        Some(InputError::InvalidDnsServer(first_invalid(dns, 0)->Some_0 as usize))
    } else if carriers.len() > MAX_SUPPLIED_CARRIER_ADDRESSES {
        Some(InputError::TooManyCarrierAddresses)
    } else if first_invalid(carriers, 0) is Some {
        Some(InputError::InvalidCarrierAddress(first_invalid(carriers, 0)->Some_0 as usize))
    } else {
        None
    }
}

pub fn check_input(
    dns: &Vec<Option<IpAddress>>,
    carriers: &Vec<Option<IpAddress>>,
) -> (problem: Option<InputError>)
    ensures
        problem == input_problem(dns@, carriers@),
{
    if dns.len() > MAX_FALLBACK_DNS_SERVERS {
        return Some(InputError::TooManyDnsServers);
    }
    if let Some(position) = find_invalid(dns) {
        return Some(InputError::InvalidDnsServer(position));
    }
    if carriers.len() > MAX_SUPPLIED_CARRIER_ADDRESSES {
        return Some(InputError::TooManyCarrierAddresses);
    }
    if let Some(position) = find_invalid(carriers) {
        return Some(InputError::InvalidCarrierAddress(position));
    }
    None
}

/// Accepts an input whose lists are bounded and hold addresses only.
pub fn validate_input(input: &RuntimeInput) -> (result: Result<(), InputError>)
    ensures
        match result {
            Ok(()) => input_problem(
                parsed_ips(input.fallback_dns_servers@),
                parsed_ips(input.carrier_addresses@),
            ) is None,
            Err(error) => input_problem(
                parsed_ips(input.fallback_dns_servers@),
                parsed_ips(input.carrier_addresses@),
            ) == Some(error),
        },
{
    match check_input(
        &parse_ips(&input.fallback_dns_servers),
        &parse_ips(&input.carrier_addresses),
    ) {
        Some(error) => Err(error),
        None => Ok(()),
    }
}

/// How many addresses of a family a list holds.
pub open spec fn count_of(list: Seq<IpAddress>, family: NetworkAddressFamily) -> nat
    decreases list.len(),
{
    if list.len() == 0 {
        0
    } else {
        count_of(list.drop_last(), family) + if family_of(list.last()) == family {
            1nat
        } else {
            0nat
        }
    }
}

/// The list with one more address: canonical, once, and within the limit of its family.
pub open spec fn with_carrier(list: Seq<IpAddress>, address: Option<IpAddress>) -> Seq<IpAddress> {
    match address {
        None => list,
        Some(raw) => {
            let ip = canonical(raw);
            if list.contains(ip) || count_of(list, family_of(ip))
                >= MAX_CARRIER_ADDRESSES_PER_FAMILY {
                list
            } else {
                list.push(ip)
            }
        },
    }
}

/// The carrier addresses that a supplied list leads to.
pub open spec fn normalized(supplied: Seq<Option<IpAddress>>) -> Seq<IpAddress>
    decreases supplied.len(),
{
    if supplied.len() == 0 {
        Seq::empty()
    } else {
        with_carrier(normalized(supplied.drop_last()), supplied.last())
    }
}

fn is_listed(list: &Vec<IpAddress>, ip: IpAddress) -> (found: bool)
    ensures
        found == list@.contains(ip),
{
    let mut i: usize = 0;
    while i < list.len()
        invariant
            i <= list@.len(),
            forall|j: int| 0 <= j < i ==> list@[j] != ip,
        decreases list@.len() - i,
    {
        if list[i] == ip {
            return true;
        }
        i += 1;
    }
    false
}

/// Normalises what the supplied texts denote.
pub fn normalize_carriers(supplied: &Vec<Option<IpAddress>>) -> (output: Vec<IpAddress>)
    ensures
        output@ == normalized(supplied@),
{
    let mut output: Vec<IpAddress> = Vec::new();
    let mut ipv4_count: usize = 0;
    let mut ipv6_count: usize = 0;
    let mut i: usize = 0;
    assert(supplied@.take(0) =~= Seq::<Option<IpAddress>>::empty());
    while i < supplied.len()
        invariant
            i <= supplied@.len(),
            output@ == normalized(supplied@.take(i as int)),
            ipv4_count == count_of(output@, NetworkAddressFamily::Ipv4),
            ipv6_count == count_of(output@, NetworkAddressFamily::Ipv6),
            ipv4_count <= MAX_CARRIER_ADDRESSES_PER_FAMILY,
            ipv6_count <= MAX_CARRIER_ADDRESSES_PER_FAMILY,
        decreases supplied@.len() - i,
    {
        proof {
            assert(supplied@.take(i + 1).drop_last() =~= supplied@.take(i as int));
            assert(supplied@.take(i + 1).last() == supplied@[i as int]);
        }
        if let Some(raw) = supplied[i] {
            let ip = canonical_carrier_ip(raw);
            let ghost before = output@;
            assert(before.push(ip).drop_last() =~= before);
            if !is_listed(&output, ip) {
                if ip_family(ip) == NetworkAddressFamily::Ipv4 {
                    if ipv4_count < MAX_CARRIER_ADDRESSES_PER_FAMILY {
                        ipv4_count += 1;
                        output.push(ip);
                    }
                } else if ipv6_count < MAX_CARRIER_ADDRESSES_PER_FAMILY {
                    ipv6_count += 1;
                    output.push(ip);
                }
            }
        }
        i += 1;
    }
    assert(supplied@.take(supplied@.len() as int) =~= supplied@);
    output
}

/// The addresses to dial, from the supplied texts. Texts that are no address are passed over.
pub fn normalize_carrier_addresses(addresses: &Vec<String>) -> (output: Vec<IpAddress>)
    ensures
        output@ == normalized(parsed_ips(addresses@)),
{
    normalize_carriers(&parse_ips(addresses))
}

/// Normalised carrier addresses are canonical, distinct, at most 32 of each family, and each of
/// them was supplied.
pub proof fn law_normalized_is_bounded_and_distinct(supplied: Seq<Option<IpAddress>>)
    ensures
        normalized(supplied).no_duplicates(),
        count_of(normalized(supplied), NetworkAddressFamily::Ipv4)
            <= MAX_CARRIER_ADDRESSES_PER_FAMILY,
        count_of(normalized(supplied), NetworkAddressFamily::Ipv6)
            <= MAX_CARRIER_ADDRESSES_PER_FAMILY,
        forall|i: int|
            0 <= i < normalized(supplied).len() ==> {
                let ip = #[trigger] normalized(supplied)[i];
                canonical(ip) == ip && exists|j: int|
                    0 <= j < supplied.len() && ((#[trigger] supplied[j]) matches Some(raw)
                        && canonical(raw) == ip)
            },
    decreases supplied.len(),
{
    if supplied.len() > 0 {
        let front = normalized(supplied.drop_last());
        law_normalized_is_bounded_and_distinct(supplied.drop_last());
        if supplied.last() is Some {
            let ip = canonical(supplied.last()->Some_0);
            assert(front.push(ip).drop_last() =~= front);
        }
        assert forall|i: int| 0 <= i < normalized(supplied).len() implies ({
            let ip = #[trigger] normalized(supplied)[i];
            canonical(ip) == ip && exists|j: int|
                0 <= j < supplied.len() && ((#[trigger] supplied[j]) matches Some(raw) && canonical(
                    raw,
                ) == ip)
        }) by {
            let ip = normalized(supplied)[i];
            if i < front.len() {
                assert(ip == front[i]);
                let j = choose|j: int|
                    0 <= j < supplied.drop_last().len() && ((#[trigger] supplied.drop_last()[j])
                        matches Some(raw) && canonical(raw) == ip);
                assert(supplied[j] == supplied.drop_last()[j]);
            } else {
                assert(supplied[supplied.len() - 1] == supplied.last());
            }
        }
    }
}

/// Normalising what was normalised changes nothing.
pub proof fn law_normalizing_twice_changes_nothing(supplied: Seq<Option<IpAddress>>)
    ensures
        normalized(normalized(supplied).map_values(|ip: IpAddress| Some(ip))) == normalized(
            supplied,
        ),
    decreases supplied.len(),
{
    if supplied.len() == 0 {
        assert(normalized(supplied).map_values(|ip: IpAddress| Some(ip)) =~= Seq::empty());
    } else {
        let front = normalized(supplied.drop_last());
        let whole = normalized(supplied);
        law_normalizing_twice_changes_nothing(supplied.drop_last());
        law_normalized_is_bounded_and_distinct(supplied);
        if whole.len() > front.len() {
            let again = whole.map_values(|ip: IpAddress| Some(ip));
            assert(again.drop_last() =~= front.map_values(|ip: IpAddress| Some(ip)));
            assert(again.last() == Some(whole.last()));
            assert(canonical(whole[whole.len() - 1]) == whole[whole.len() - 1]);
        } else {
            assert(whole =~= front);
        }
    }
}

#[derive(Debug, Clone, Copy, PartialEq, Eq, Structural)]
pub enum ClientState {
    Idle,
    Connecting,
    AwaitingNetwork,
    Running,
    Failed,
    Stopping,
    Stopped,
}

/// What happens to a published network plan.
#[derive(Debug, Clone, Copy, PartialEq, Eq, Structural)]
pub enum PlanWait {
    Cancelled,
    /// The platform acknowledged the plan: take the tunnel.
    Acknowledged,
    Rejected,
    /// The client left the waiting state without an answer.
    LeftPending,
    TimedOut,
    /// Ask again after a short pause.
    Pending,
}

/// One look at a published plan. Cancellation comes first, and an answer counts even when it is
/// seen after the deadline.
pub fn poll_plan(cancelled: bool, state: ClientState, now: u64, deadline: u64) -> (wait: PlanWait)
    ensures
        wait == if cancelled {
            PlanWait::Cancelled
        } else {
            match state {
                ClientState::Running => PlanWait::Acknowledged,
                ClientState::Failed => PlanWait::Rejected,
                ClientState::AwaitingNetwork => if now >= deadline {
                    PlanWait::TimedOut
                } else {
                    PlanWait::Pending
                },
                _ => PlanWait::LeftPending,
            }
        },
{
    if cancelled {
        return PlanWait::Cancelled;
    }
    match state {
        ClientState::Running => PlanWait::Acknowledged,
        ClientState::Failed => PlanWait::Rejected,
        ClientState::AwaitingNetwork => if now >= deadline {
            PlanWait::TimedOut
        } else {
            PlanWait::Pending
        },
        _ => PlanWait::LeftPending,
    }
}

#[derive(Debug, Clone, Copy, PartialEq, Eq, Structural)]
pub enum TunPlatform {
    Windows,
    Ios,
    /// Platforms that hand over a TUN descriptor.
    Descriptor,
}

#[derive(Debug, Clone, Copy, PartialEq, Eq, Structural)]
pub enum TunSource {
    Wintun,
    PacketBatch,
    Descriptors,
}

/// Where an acknowledged plan takes its tunnel from, by what the platform advertises.
pub fn tun_source(platform: TunPlatform, wintun: bool, packet_batch: bool) -> (source: Option<
    TunSource,
>)
    ensures
        source == match platform {
            TunPlatform::Windows => if wintun {
                Some(TunSource::Wintun)
            } else if packet_batch {
                Some(TunSource::PacketBatch)
            } else {
                None
            },
            TunPlatform::Ios => if packet_batch {
                Some(TunSource::PacketBatch)
            } else {
                None
            },
            TunPlatform::Descriptor => Some(TunSource::Descriptors),
        },
{
    match platform {
        TunPlatform::Windows => if wintun {
            Some(TunSource::Wintun)
        } else if packet_batch {
            Some(TunSource::PacketBatch)
        } else {
            None
        },
        TunPlatform::Ios => if packet_batch {
            Some(TunSource::PacketBatch)
        } else {
            None
        },
        TunPlatform::Descriptor => Some(TunSource::Descriptors),
    }
}

/// Traffic counted by one generation, or over all of them.
#[derive(Debug, Clone, Copy, PartialEq, Eq, Structural)]
pub struct TrafficTotals {
    pub tx_packets: u64,
    pub tx_bytes: u64,
    pub rx_packets: u64,
    pub rx_bytes: u64,
    pub udp_kernel_drops: u64,
    pub udp_internal_drops: u64,
    pub udp_buffer_grows: u64,
    pub udp_recv_buffer_bytes: u64,
}

/// What the client keeps across generations. `running` is the generation whose counters are
/// attached.
#[derive(Debug, Clone, Copy, PartialEq, Eq, Structural)]
pub struct RuntimeRecord {
    pub state: ClientState,
    pub has_device_id: bool,
    pub active: bool,
    pub running: Option<u64>,
    pub last_plan_generation: u64,
    pub totals: TrafficTotals,
}

#[derive(Debug, Clone, Copy, PartialEq, Eq, Structural)]
pub enum StartError {
    NotConnecting,
    AlreadyActive,
    NoDeviceId,
}

/// Totals after one generation: everything adds up, except the receive buffer, which is the last
/// one granted.
pub open spec fn folded(totals: TrafficTotals, run: TrafficTotals) -> TrafficTotals {
    TrafficTotals {
        tx_packets: sum_saturating(totals.tx_packets, run.tx_packets),
        tx_bytes: sum_saturating(totals.tx_bytes, run.tx_bytes),
        rx_packets: sum_saturating(totals.rx_packets, run.rx_packets),
        rx_bytes: sum_saturating(totals.rx_bytes, run.rx_bytes),
        udp_kernel_drops: sum_saturating(totals.udp_kernel_drops, run.udp_kernel_drops),
        udp_internal_drops: sum_saturating(totals.udp_internal_drops, run.udp_internal_drops),
        udp_buffer_grows: sum_saturating(totals.udp_buffer_grows, run.udp_buffer_grows),
        udp_recv_buffer_bytes: run.udp_recv_buffer_bytes,
    }
}

/// The record once a generation has ended. A generation whose counters are no longer attached
/// changes nothing.
pub open spec fn finished(
    record: RuntimeRecord,
    generation: u64,
    run: TrafficTotals,
) -> RuntimeRecord {
    if record.running == Some(generation) {
        RuntimeRecord {
            active: false,
            running: None,
            totals: folded(record.totals, run),
            ..record
        }
    } else {
        record
    }
}

/// What a generation that ended leaves to report: nothing when it was cancelled or stopped, else
/// the first characters of its error.
pub open spec fn failure_text(
    state: ClientState,
    cancelled: bool,
    error: Option<Seq<char>>,
) -> Option<Seq<char>> {
    if cancelled || state is Stopping || state is Stopped {
        None
    } else {
        let text = match error {
            Some(text) => text,
            None => "transport disconnected"@,
        };
        Some(
            if text.len() > MAX_FAILURE_CHARS {
                text.take(MAX_FAILURE_CHARS as int)
            } else {
                text
            },
        )
    }
}

impl RuntimeRecord {
    /// The generation of the next plan.
    pub fn next_generation(&self) -> (generation: u64)
        ensures
            generation == sum_saturating(self.last_plan_generation, 1),
    {
        saturating_add(self.last_plan_generation, 1)
    }

    /// Starts the one runner that a connecting client may have.
    pub fn start(&mut self, generation: u64) -> (result: Result<(), StartError>)
        ensures
            match result {
                Ok(()) => old(self).state is Connecting && !old(self).active
                    && old(self).has_device_id && *final(self) == (RuntimeRecord {
                    active: true,
                    running: Some(generation),
                    ..*old(self)
                }),
                Err(error) => *final(self) == *old(self) && if !(old(self).state is Connecting) {
                    error == StartError::NotConnecting
                } else if old(self).active {
                    error == StartError::AlreadyActive
                } else {
                    error == StartError::NoDeviceId && !old(self).has_device_id
                },
            },
    {
        if self.state != ClientState::Connecting {
            return Err(StartError::NotConnecting);
        }
        if self.active {
            return Err(StartError::AlreadyActive);
        }
        if !self.has_device_id {
            return Err(StartError::NoDeviceId);
        }
        self.active = true;
        self.running = Some(generation);
        Ok(())
    }

    /// Ends a generation: folds its traffic into the totals and gives the failure to publish.
    pub fn finish_generation(
        &mut self,
        generation: u64,
        run: &TrafficTotals,
        cancelled: bool,
        error: Option<&String>,
    ) -> (failure: Option<String>)
        ensures
            *final(self) == finished(*old(self), generation, *run),
            ({
                let owed = failure_text(
                    old(self).state,
                    cancelled,
                    match error {
                        Some(text) => Some(text@),
                        None => None,
                    },
                );
                match failure {
                    Some(text) => old(self).running == Some(generation) && owed == Some(text@),
                    None => old(self).running != Some(generation) || owed is None,
                }
            }),
    {
        let current = match self.running {
            Some(running) => running == generation,
            None => false,
        };
        if !current {
            return None;
        }
        self.totals = TrafficTotals {
            tx_packets: saturating_add(self.totals.tx_packets, run.tx_packets),
            tx_bytes: saturating_add(self.totals.tx_bytes, run.tx_bytes),
            rx_packets: saturating_add(self.totals.rx_packets, run.rx_packets),
            rx_bytes: saturating_add(self.totals.rx_bytes, run.rx_bytes),
            udp_kernel_drops: saturating_add(self.totals.udp_kernel_drops, run.udp_kernel_drops),
            udp_internal_drops: saturating_add(
                self.totals.udp_internal_drops,
                run.udp_internal_drops,
            ),
            udp_buffer_grows: saturating_add(self.totals.udp_buffer_grows, run.udp_buffer_grows),
            udp_recv_buffer_bytes: run.udp_recv_buffer_bytes,
        };
        self.running = None;
        self.active = false;
        if cancelled || self.state == ClientState::Stopping || self.state == ClientState::Stopped {
            return None;
        }
        let text: &str = match error {
            Some(text) => text.as_str(),
            None => "transport disconnected",
        };
        if text.unicode_len() > MAX_FAILURE_CHARS {
            let head = text.substring_char(0, MAX_FAILURE_CHARS);
            assert(head@ =~= text@.take(MAX_FAILURE_CHARS as int));
            Some(head.to_owned())
        } else {
            Some(text.to_owned())
        }
    }
}

/// Totals only grow, and a generation is accounted for once: ending it a second time changes
/// nothing.
pub proof fn law_traffic_is_counted_once(
    record: RuntimeRecord,
    generation: u64,
    run: TrafficTotals,
    late: TrafficTotals,
)
    ensures
        ({
            let before = record.totals;
            let after = finished(record, generation, run).totals;
            &&& after.tx_packets >= before.tx_packets && after.tx_bytes >= before.tx_bytes
            &&& after.rx_packets >= before.rx_packets && after.rx_bytes >= before.rx_bytes
            &&& after.udp_kernel_drops >= before.udp_kernel_drops
            &&& after.udp_internal_drops >= before.udp_internal_drops
            &&& after.udp_buffer_grows >= before.udp_buffer_grows
        }),
        finished(finished(record, generation, run), generation, late) == finished(
            record,
            generation,
            run,
        ),
{
}

/// How an attempt that is over ends the run. A cancelled run is no failure.
#[derive(Debug, Clone, Copy, PartialEq, Eq, Structural)]
pub enum RunOutcome {
    Cancelled,
    Failed,
    Disconnected,
}

pub fn run_outcome(cancelled: bool, attempt_failed: bool) -> (outcome: RunOutcome)
    ensures
        outcome == if cancelled {
            RunOutcome::Cancelled
        } else if attempt_failed {
            RunOutcome::Failed
        } else {
            RunOutcome::Disconnected
        },
{
    if cancelled {
        RunOutcome::Cancelled
    } else if attempt_failed {
        RunOutcome::Failed
    } else {
        RunOutcome::Disconnected
    }
}

/// What a management event does once the platform queue took or refused it.
#[derive(Debug, Clone, Copy, PartialEq, Eq, Structural)]
pub enum ManagementOutcome {
    /// Carry on; a refused notice is dropped.
    Continue,
    /// Cancel the transport.
    Cancel,
    /// The terminal event could not be reported: end with that error.
    Fail,
}

pub fn management_event(terminal: bool, published: bool) -> (outcome: ManagementOutcome)
    ensures
        outcome == if !terminal {
            ManagementOutcome::Continue
        } else if published {
            ManagementOutcome::Cancel
        } else {
            ManagementOutcome::Fail
        },
{
    if !published && terminal {
        return ManagementOutcome::Fail;
    }
    if terminal {
        ManagementOutcome::Cancel
    } else {
        ManagementOutcome::Continue
    }
}

#[derive(Debug, Clone, Copy, PartialEq, Eq, Structural)]
pub enum TcpWire {
    Obfs,
    RealityTls,
    Direct,
}

#[derive(Debug, Clone, Copy, PartialEq, Eq, Structural)]
pub enum WireError {
    BlankObfsKey,
    NoShortId,
    NoPinnedKey,
    UnsupportedMode,
}

/// The TCP wire of a mode. `obfs_key_blank` says that the key is empty but for white space,
/// `has_short_id` and `has_pinned_key` that a short id and a readable pinned server key are
/// configured.
pub fn tcp_wire(
    mode: &str,
    obfs_key_blank: bool,
    has_short_id: bool,
    has_pinned_key: bool,
) -> (wire: Result<TcpWire, WireError>)
    ensures
        wire == if mode@ == "obfs"@ {
            if obfs_key_blank {
                Err(WireError::BlankObfsKey)
            } else {
                Ok(TcpWire::Obfs)
            }
        } else if mode@ == "reality-tls"@ {
            if !has_short_id {
                Err(WireError::NoShortId)
            } else if !has_pinned_key {
                Err(WireError::NoPinnedKey)
            } else {
                Ok(TcpWire::RealityTls)
            }
        } else if mode@ == "fake-tls"@ || mode@ == "plain"@ {
            Ok(TcpWire::Direct)
        } else {
            Err(WireError::UnsupportedMode)
        },
{
    if same_text(mode, "obfs") {
        if obfs_key_blank {
            Err(WireError::BlankObfsKey)
        } else {
            Ok(TcpWire::Obfs)
        }
    } else if same_text(mode, "reality-tls") {
        if !has_short_id {
            Err(WireError::NoShortId)
        } else if !has_pinned_key {
            Err(WireError::NoPinnedKey)
        } else {
            Ok(TcpWire::RealityTls)
        }
    } else if same_text(mode, "fake-tls") || same_text(mode, "plain") {
        Ok(TcpWire::Direct)
    } else {
        Err(WireError::UnsupportedMode)
    }
}

/// The password of a run: only one that the configuration itself holds.
pub fn inline_password(configured: Option<&str>) -> (password: Option<&str>)
    ensures
        password == match configured {
            Some(text) => if text@.len() > 0 {
                Some(text)
            } else {
                None
            },
            None => None,
        },
{
    match configured {
        Some(text) => if text.unicode_len() > 0 {
            Some(text)
        } else {
            None
        },
        None => None,
    }
}

/// What the platform said to a request: to protect a socket, or to trust a server.
#[derive(Debug, Clone, Copy, PartialEq, Eq, Structural)]
pub enum PlatformReply {
    Accepted,
    Refused,
    /// The request was dropped.
    Dropped,
}

#[derive(Debug, Clone, Copy, PartialEq, Eq, Structural)]
pub enum PlatformWait {
    Granted,
    Refused,
    RequestCancelled,
    TransportCancelled,
    Pending,
}

/// Where waiting for the platform stands: a reply counts even when the run was cancelled
/// meanwhile.
pub fn poll_platform(reply: Option<PlatformReply>, cancelled: bool) -> (wait: PlatformWait)
    ensures
        wait == match reply {
            Some(PlatformReply::Accepted) => PlatformWait::Granted,
            Some(PlatformReply::Refused) => PlatformWait::Refused,
            Some(PlatformReply::Dropped) => PlatformWait::RequestCancelled,
            None => if cancelled {
                PlatformWait::TransportCancelled
            } else {
                PlatformWait::Pending
            },
        },
{
    match reply {
        Some(PlatformReply::Accepted) => PlatformWait::Granted,
        Some(PlatformReply::Refused) => PlatformWait::Refused,
        Some(PlatformReply::Dropped) => PlatformWait::RequestCancelled,
        None => if cancelled {
            PlatformWait::TransportCancelled
        } else {
            PlatformWait::Pending
        },
    }
}

/// Keepalive of a TCP carrier, in seconds.
#[derive(Debug, Clone, Copy, PartialEq, Eq, Structural)]
pub struct Keepalive {
    pub time: u64,
    pub interval: u64,
    pub retries: u32,
}

/// The keepalive that the configured seconds ask for; zero switches it off.
pub fn tcp_keepalive(seconds: u64) -> (keepalive: Option<Keepalive>)
    ensures
        keepalive == if seconds == 0 {
            None
        } else {
            Some(
                Keepalive {
                    time: seconds,
                    interval: if seconds / 3 < 10 {
                        10
                    } else {
                        seconds / 3
                    },
                    retries: 3,
                },
            )
        },
{
    if seconds == 0 {
        return None;
    }
    let third: u64 = seconds / 3;
    Some(
        Keepalive {
            time: seconds,
            interval: if third < 10 {
                10
            } else {
                third
            },
            retries: 3,
        },
    )
}

/// A candidate gets an equal share of the time that is left wherever that is a quarter of a
/// second at least; a smaller share is raised to a quarter of a second, or to all that is left. The
/// last candidate gets all of it.
pub proof fn law_candidates_share_the_time(remaining: int, candidates_left: int)
    requires
        remaining >= 0,
        1 <= candidates_left <= 0xffff_ffff,
    ensures
        ({
            let budget = connect_budget(remaining, candidates_left);
            let fair = budget * candidates_left <= remaining < (budget + 1) * candidates_left;
            &&& 0 <= budget <= remaining
            &&& remaining < 250_000_000 ==> budget == remaining
            &&& remaining >= 250_000_000 ==> budget >= 250_000_000
            &&& remaining >= 250_000_000 * candidates_left ==> fair
            &&& 250_000_000 <= remaining < 250_000_000 * candidates_left ==> budget == 250_000_000
            &&& candidates_left == 1 ==> budget == remaining
        }),
{
    let share = remaining / candidates_left;
    assert(share * candidates_left <= remaining < (share + 1) * candidates_left && 0 <= share
        <= remaining) by (nonlinear_arith)
        requires
            share == remaining / candidates_left,
            candidates_left >= 1,
            remaining >= 0,
    ;
    if share >= 250_000_000 {
        assert(share * candidates_left >= 250_000_000 * candidates_left) by (nonlinear_arith)
            requires
                share >= 250_000_000,
                candidates_left >= 1,
        ;
    } else {
        assert((share + 1) * candidates_left <= 250_000_000 * candidates_left) by (nonlinear_arith)
            requires
                share < 250_000_000,
                candidates_left >= 1,
        ;
    }
    if candidates_left == 1 {
        assert(share == remaining) by (nonlinear_arith)
            requires
                share == remaining / candidates_left,
                candidates_left == 1,
        ;
    }
}

/// Dialling gives up on nothing that it could still try. A candidate that fails is followed by
/// the next, if there is one; over UDP only a socket that cannot be set up is. A candidate whose
/// socket is ready by the deadline is connected.
pub proof fn law_every_candidate_is_dialled(plan: DialPlan, now: u64)
    requires
        plan.index < plan.count,
    ensures
        ({
            let failed = dial_step(plan, DialEvent::SocketFailed);
            let refused = dial_step(plan, DialEvent::ConnectFailed);
            let ready = dial_step(plan, DialEvent::SocketReady(now));
            let more = plan.index + 1 < plan.count;
            &&& more ==> failed.1 == DialStep::Open((plan.index + 1) as usize)
            &&& !more ==> failed.1 is Stop
            &&& !plan.udp && more ==> refused.1 == DialStep::Open((plan.index + 1) as usize)
            &&& plan.udp || !more ==> refused.1 is Stop && refused.0.index == plan.count
            &&& now <= plan.deadline ==> ready.0 == plan && (ready.1 matches DialStep::Connect(
                index,
                budget,
            ) && index == plan.index && budget <= plan.deadline - now && (plan.deadline - now
                >= 250_000_000 ==> budget >= 250_000_000) && (plan.udp || !more ==> budget
                == plan.deadline - now))
            &&& now > plan.deadline ==> ready.1 is Stop
        }),
{
    if now <= plan.deadline {
        let left: int = if plan.udp {
            1
        } else {
            plan.count - plan.index
        };
        if left <= 0xffff_ffff {
            law_candidates_share_the_time(plan.deadline - now, left);
        } else {
            law_candidates_share_the_time(plan.deadline - now, 0xffff_ffff);
        }
    }
}

/// The position that is reported is that of the first text that is no address.
pub proof fn law_the_first_unreadable_address_is_reported(
    ips: Seq<Option<IpAddress>>,
    start: int,
    at: int,
)
    requires
        0 <= start <= at <= ips.len(),
        forall|i: int| start <= i < at ==> (#[trigger] ips[i]) is Some,
    ensures
        at == ips.len() ==> first_invalid(ips, start) is None,
        at < ips.len() && ips[at] is None ==> first_invalid(ips, start) == Some(at),
    decreases at - start,
{
    if start < at {
        assert(ips[start] is Some);
        law_the_first_unreadable_address_is_reported(ips, start + 1, at);
    }
}

proof fn lemma_first_invalid(ips: Seq<Option<IpAddress>>, start: int)
    requires
        0 <= start <= ips.len(),
    ensures
        first_invalid(ips, start) matches Some(at) ==> start <= at < ips.len() && ips[at] is None,
        first_invalid(ips, start) is None ==> forall|i: int|
            start <= i < ips.len() ==> (#[trigger] ips[i]) is Some,
    decreases ips.len() - start,
{
    if start < ips.len() && ips[start] is Some {
        lemma_first_invalid(ips, start + 1);
    }
}

/// An input is accepted exactly when it has at most 8 resolvers and at most 1024 carrier
/// addresses and every one of them is an address.
pub proof fn law_bounded_inputs_of_addresses_are_accepted(
    dns: Seq<Option<IpAddress>>,
    carriers: Seq<Option<IpAddress>>,
)
    ensures
        input_problem(dns, carriers) is None <==> {
            &&& dns.len() <= 8
            &&& carriers.len() <= 1024
            &&& forall|i: int| 0 <= i < dns.len() ==> (#[trigger] dns[i]) is Some
            &&& forall|i: int| 0 <= i < carriers.len() ==> (#[trigger] carriers[i]) is Some
        },
        dns.len() > 8 ==> input_problem(dns, carriers) == Some(InputError::TooManyDnsServers),
        dns.len() <= 8 && (forall|i: int| 0 <= i < dns.len() ==> (#[trigger] dns[i]) is Some)
            && carriers.len() > 1024 ==> input_problem(dns, carriers) == Some(
            InputError::TooManyCarrierAddresses,
        ),
{
    lemma_first_invalid(dns, 0);
    lemma_first_invalid(carriers, 0);
    if forall|i: int| 0 <= i < dns.len() ==> (#[trigger] dns[i]) is Some {
        law_the_first_unreadable_address_is_reported(dns, 0, dns.len() as int);
    }
    if forall|i: int| 0 <= i < carriers.len() ==> (#[trigger] carriers[i]) is Some {
        law_the_first_unreadable_address_is_reported(carriers, 0, carriers.len() as int);
    }
}

/// An unreadable text is reported in its own list, at its position.
pub proof fn law_unreadable_inputs_are_located(
    dns: Seq<Option<IpAddress>>,
    carriers: Seq<Option<IpAddress>>,
    at: int,
)
    requires
        dns.len() <= 8,
        carriers.len() <= 1024,
    ensures
        0 <= at < dns.len() && dns[at] is None && (forall|i: int|
            0 <= i < at ==> (#[trigger] dns[i]) is Some) ==> input_problem(dns, carriers) == Some(
            InputError::InvalidDnsServer(at as usize),
        ),
        0 <= at < carriers.len() && carriers[at] is None && (forall|i: int|
            0 <= i < at ==> (#[trigger] carriers[i]) is Some) && (forall|i: int|
            0 <= i < dns.len() ==> (#[trigger] dns[i]) is Some) ==> input_problem(dns, carriers)
            == Some(InputError::InvalidCarrierAddress(at as usize)),
{
    if 0 <= at < dns.len() && forall|i: int| 0 <= i < at ==> (#[trigger] dns[i]) is Some {
        law_the_first_unreadable_address_is_reported(dns, 0, at);
    }
    if forall|i: int| 0 <= i < dns.len() ==> (#[trigger] dns[i]) is Some {
        law_the_first_unreadable_address_is_reported(dns, 0, dns.len() as int);
    }
    if 0 <= at < carriers.len() && forall|i: int|
        0 <= i < at ==> (#[trigger] carriers[i]) is Some {
        law_the_first_unreadable_address_is_reported(carriers, 0, at);
    }
}

/// Counting a family: an address counts in its own family and in no other.
pub proof fn law_addresses_count_in_their_family(list: Seq<IpAddress>, value: u32, wide: u128)
    ensures
        count_of(list.push(IpAddress::V4(value)), NetworkAddressFamily::Ipv4) == count_of(
            list,
            NetworkAddressFamily::Ipv4,
        ) + 1,
        count_of(list.push(IpAddress::V4(value)), NetworkAddressFamily::Ipv6) == count_of(
            list,
            NetworkAddressFamily::Ipv6,
        ),
        count_of(list.push(IpAddress::V6(wide)), NetworkAddressFamily::Ipv6) == count_of(
            list,
            NetworkAddressFamily::Ipv6,
        ) + 1,
        count_of(list.push(IpAddress::V6(wide)), NetworkAddressFamily::Ipv4) == count_of(
            list,
            NetworkAddressFamily::Ipv4,
        ),
{
    assert(list.push(IpAddress::V4(value)).drop_last() =~= list);
    assert(list.push(IpAddress::V6(wide)).drop_last() =~= list);
}

/// A supplied address is dialled unless its family already has 32, addresses keep the order in
/// which they came first, and a text that is no address changes nothing.
pub proof fn law_supplied_addresses_are_dialled(
    supplied: Seq<Option<IpAddress>>,
    address: IpAddress,
    family: NetworkAddressFamily,
)
    requires
        family == match canonical(address) {
            IpAddress::V4(_) => NetworkAddressFamily::Ipv4,
            IpAddress::V6(_) => NetworkAddressFamily::Ipv6,
        },
    ensures
        normalized(supplied.push(None)) == normalized(supplied),
        normalized(supplied).contains(canonical(address)) || count_of(normalized(supplied), family)
            >= 32 ==> normalized(supplied.push(Some(address))) == normalized(supplied),
        !normalized(supplied).contains(canonical(address)) && count_of(normalized(supplied), family)
            < 32 ==> normalized(supplied.push(Some(address))) == normalized(supplied).push(
            canonical(address),
        ),
{
    assert(supplied.push(None).drop_last() =~= supplied);
    assert(supplied.push(Some(address)).drop_last() =~= supplied);
}

/// Totals are sums: what a generation counted is added to what was counted before, up to the
/// largest number; the receive buffer is the last one granted.
pub proof fn law_traffic_adds_up(totals: TrafficTotals, run: TrafficTotals)
    ensures
        ({
            let sum = folded(totals, run);
            let most: int = 0xffff_ffff_ffff_ffff;
            let added = |before: u64, new: u64, after: u64|
                {
                    &&& before + new <= most ==> after == before + new
                    &&& before + new > most ==> after == most
                };
            &&& added(totals.tx_packets, run.tx_packets, sum.tx_packets)
            &&& added(totals.tx_bytes, run.tx_bytes, sum.tx_bytes)
            &&& added(totals.rx_packets, run.rx_packets, sum.rx_packets)
            &&& added(totals.rx_bytes, run.rx_bytes, sum.rx_bytes)
            &&& added(totals.udp_kernel_drops, run.udp_kernel_drops, sum.udp_kernel_drops)
            &&& added(totals.udp_internal_drops, run.udp_internal_drops, sum.udp_internal_drops)
            &&& added(totals.udp_buffer_grows, run.udp_buffer_grows, sum.udp_buffer_grows)
            &&& sum.udp_recv_buffer_bytes == run.udp_recv_buffer_bytes
        }),
{
}

/// Ending the generation that runs frees its place and counts its traffic; it is counted once,
/// and a generation that does not run changes nothing. State, device and plan stay.
pub proof fn law_generations_end_once(
    record: RuntimeRecord,
    generation: u64,
    run: TrafficTotals,
    again: TrafficTotals,
)
    ensures
        ({
            let ended = finished(record, generation, run);
            &&& record.running == Some(generation) ==> !ended.active && ended.running is None
                && ended.totals == folded(record.totals, run)
            &&& record.running != Some(generation) ==> ended == record
            &&& ended.state == record.state && ended.has_device_id == record.has_device_id
            &&& ended.last_plan_generation == record.last_plan_generation
            &&& finished(ended, generation, again) == ended
        }),
{
}

/// A generation that was neither cancelled nor stopped always leaves something to report: its
/// error as it is up to 512 characters, its first 512 of a longer one, and a lost transport where
/// it has none. One that was cancelled or stopped leaves nothing.
pub proof fn law_failures_are_reported(state: ClientState, text: Seq<char>)
    ensures
        failure_text(state, true, Some(text)) is None,
        failure_text(state, true, None) is None,
        failure_text(state, false, Some(text)) is None <==> state == ClientState::Stopping || state
            == ClientState::Stopped,
        state != ClientState::Stopping && state != ClientState::Stopped ==> {
            let reported = failure_text(state, false, Some(text));
            &&& text.len() <= 512 ==> reported == Some(text)
            &&& text.len() > 512 ==> reported is Some && reported->Some_0.len() == 512
                && reported->Some_0.is_prefix_of(text)
            &&& failure_text(state, false, None) == Some("transport disconnected"@)
        },
{
    reveal_strlit("transport disconnected");
    if text.len() > 512 {
        assert(text.take(512) =~= text.subrange(0, 512));
    }
}

/// One look at a published plan: cancellation comes first, an answer of the platform counts
/// whenever it is seen, and only a plan without an answer times out.
pub proof fn law_answers_of_the_platform_count(
    cancelled: bool,
    state: ClientState,
    now: u64,
    deadline: u64,
    wait: PlanWait,
)
    requires
        call_ensures(poll_plan, (cancelled, state, now, deadline), wait),
    ensures
        wait is Cancelled <==> cancelled,
        !cancelled ==> (wait is Acknowledged <==> state is Running),
        !cancelled ==> (wait is Rejected <==> state is Failed),
        !cancelled ==> (wait is TimedOut <==> state is AwaitingNetwork && now >= deadline),
        !cancelled ==> (wait is Pending <==> state is AwaitingNetwork && now < deadline),
        !cancelled ==> (wait is LeftPending <==> state is Idle || state is Connecting || state
            is Stopping || state is Stopped),
{
}

/// The tunnel comes from what the platform advertises: Wintun on Windows alone and before packet
/// batches, packet batches on Windows and iOS, descriptors everywhere else.
pub proof fn law_tunnels_come_from_what_is_advertised(
    platform: TunPlatform,
    wintun: bool,
    packet_batch: bool,
    source: Option<TunSource>,
)
    requires
        call_ensures(tun_source, (platform, wintun, packet_batch), source),
    ensures
        source == Some(TunSource::Wintun) <==> platform is Windows && wintun,
        source == Some(TunSource::PacketBatch) <==> packet_batch && (platform is Ios || platform
            is Windows && !wintun),
        source == Some(TunSource::Descriptors) <==> platform is Descriptor,
        source is None <==> !(platform is Descriptor) && !packet_batch && !(platform is Windows
            && wintun),
{
}

/// Dialling starts with the first candidate, if there is one, and ends after the configured
/// seconds, one second at least.
pub proof fn law_dialling_starts_with_the_first_candidate(
    udp: bool,
    count: usize,
    now: u64,
    seconds: u64,
    plan: DialPlan,
    step: DialStep,
)
    requires
        call_ensures(DialPlan::start, (udp, count, now, seconds), (plan, step)),
    ensures
        count > 0 ==> step == DialStep::Open(0),
        count == 0 ==> step is Stop,
        plan.udp == udp && plan.count == count && plan.index == 0,
        seconds >= 1 && now + seconds * 1_000_000_000 <= u64::MAX ==> plan.deadline == now + seconds
            * 1_000_000_000,
        seconds == 0 && now + 1_000_000_000 <= u64::MAX ==> plan.deadline == now + 1_000_000_000,
        plan.deadline >= now,
{
}

/// A candidate has a budget exactly as long as the deadline has not passed.
pub proof fn law_budgets_end_at_the_deadline(
    deadline: u64,
    now: u64,
    candidates_left: usize,
    budget: Option<u64>,
)
    requires
        call_ensures(candidate_connect_budget, (deadline, now, candidates_left), budget),
    ensures
        budget is Some <==> now <= deadline,
        budget matches Some(value) ==> now + value <= deadline && (deadline - now >= 250_000_000
            ==> value >= 250_000_000) && (candidates_left <= 1 ==> value == deadline - now),
{
    if now <= deadline {
        let left: int = if candidates_left < 1 {
            1
        } else if candidates_left > 0xffff_ffff {
            0xffff_ffff
        } else {
            candidates_left as int
        };
        law_candidates_share_the_time(deadline - now, left);
    }
}

/// A client that connects and knows its device gets one runner: a second start is refused until
/// the first has ended.
pub proof fn law_one_runner_is_started(generation: u64, result: Result<(), StartError>)
    ensures
        forall|record: &mut RuntimeRecord| #[trigger]
            call_ensures(RuntimeRecord::start, (record, generation), result) ==> {
                let proper = record.state is Connecting && !record.active && record.has_device_id;
                let after = *final(record);
                &&& result is Ok <==> proper
                &&& proper ==> after.active && after.running == Some(generation) && after.state
                    == record.state && after.totals == record.totals && after.has_device_id
                    && after.last_plan_generation == record.last_plan_generation
                &&& !proper ==> after == *record
                &&& result == Err::<(), StartError>(StartError::NotConnecting) <==> !(record.state
                    is Connecting)
                &&& result == Err::<(), StartError>(StartError::AlreadyActive) <==> record.state
                    is Connecting && record.active
            },
{
}

/// The next plan is the one after the last.
pub proof fn law_plans_are_numbered_in_order(record: RuntimeRecord, generation: u64)
    requires
        call_ensures(RuntimeRecord::next_generation, (&record,), generation),
    ensures
        record.last_plan_generation < u64::MAX ==> generation == record.last_plan_generation + 1,
        record.last_plan_generation == u64::MAX ==> generation == u64::MAX,
{
}

/// How a run ended: cancelled wherever it was, else failed or disconnected.
pub proof fn law_runs_end_in_one_way(cancelled: bool, failed: bool, outcome: RunOutcome)
    requires
        call_ensures(run_outcome, (cancelled, failed), outcome),
    ensures
        outcome is Cancelled <==> cancelled,
        outcome is Failed <==> !cancelled && failed,
        outcome is Disconnected <==> !cancelled && !failed,
{
}

/// A management event ends the run only where it is terminal: in order once it was published, as
/// a failure otherwise.
pub proof fn law_terminal_events_end_the_run(
    terminal: bool,
    published: bool,
    outcome: ManagementOutcome,
)
    requires
        call_ensures(management_event, (terminal, published), outcome),
    ensures
        outcome is Continue <==> !terminal,
        outcome is Cancel <==> terminal && published,
        outcome is Fail <==> terminal && !published,
{
}

/// Each wire mode needs what it needs and no more: obfuscation a key, REALITY a short id and a
/// pinned key; the other two modes connect directly, and no other mode connects.
pub proof fn law_wires_need_their_settings(
    mode: &str,
    obfs_key_blank: bool,
    has_short_id: bool,
    has_pinned_key: bool,
    wire: Result<TcpWire, WireError>,
)
    requires
        call_ensures(tcp_wire, (mode, obfs_key_blank, has_short_id, has_pinned_key), wire),
    ensures
        wire == Ok::<TcpWire, WireError>(TcpWire::Obfs) <==> mode@ == "obfs"@ && !obfs_key_blank,
        wire == Ok::<TcpWire, WireError>(TcpWire::RealityTls) <==> mode@ == "reality-tls"@
            && has_short_id && has_pinned_key,
        wire == Ok::<TcpWire, WireError>(TcpWire::Direct) <==> mode@ == "fake-tls"@ || mode@
            == "plain"@,
        mode@ == "obfs"@ && obfs_key_blank ==> wire == Err::<TcpWire, WireError>(
            WireError::BlankObfsKey,
        ),
        mode@ == "reality-tls"@ && !has_short_id ==> wire == Err::<TcpWire, WireError>(
            WireError::NoShortId,
        ),
        mode@ == "reality-tls"@ && has_short_id && !has_pinned_key ==> wire == Err::<
            TcpWire,
            WireError,
        >(WireError::NoPinnedKey),
        wire == Err::<TcpWire, WireError>(WireError::UnsupportedMode) <==> mode@ != "obfs"@ && mode@
            != "reality-tls"@ && mode@ != "fake-tls"@ && mode@ != "plain"@,
{
    reveal_strlit("obfs");
    reveal_strlit("reality-tls");
    reveal_strlit("fake-tls");
    reveal_strlit("plain");
    assert("obfs"@.len() == 4 && "reality-tls"@.len() == 11 && "fake-tls"@.len() == 8
        && "plain"@.len() == 5);
}

/// A configured password counts where it has a character.
pub proof fn law_blank_passwords_do_not_count(configured: Option<&str>, password: Option<&str>)
    requires
        call_ensures(inline_password, (configured,), password),
    ensures
        password is Some <==> configured is Some && configured->Some_0@.len() > 0,
        password is Some ==> password->Some_0@ == configured->Some_0@,
{
}

/// An answer of the platform counts even once the transport was cancelled; only without one does
/// the cancellation decide.
pub proof fn law_platform_answers_come_first(
    reply: Option<PlatformReply>,
    cancelled: bool,
    wait: PlatformWait,
)
    requires
        call_ensures(poll_platform, (reply, cancelled), wait),
    ensures
        wait is Granted <==> reply == Some(PlatformReply::Accepted),
        wait is Refused <==> reply == Some(PlatformReply::Refused),
        wait is RequestCancelled <==> reply == Some(PlatformReply::Dropped),
        wait is TransportCancelled <==> reply is None && cancelled,
        wait is Pending <==> reply is None && !cancelled,
{
}

/// Keepalive is off at zero; else it starts after the configured seconds and asks three times, a
/// third of that time apart but ten seconds at least.
pub proof fn law_keepalive_is_paced(seconds: u64, keepalive: Option<Keepalive>)
    requires
        call_ensures(tcp_keepalive, (seconds,), keepalive),
    ensures
        keepalive is None <==> seconds == 0,
        keepalive matches Some(probes) ==> {
            &&& probes.time == seconds
            &&& probes.retries == 3
            &&& seconds >= 30 ==> 3 * probes.interval <= seconds < 3 * probes.interval + 3
            &&& seconds < 30 ==> probes.interval == 10
        },
{
}

} // verus!
