//! Generation-scoped platform path updates and transactional path commands.
//!
//! This module is control-plane only: it decides whether a reported path is well-formed and what
//! the platform is asked to do. It never swaps a live socket or plan by itself.

use crate::cidr::IpAddress;
use crate::ip_text::{ip_of_text, parse_ip, parse_ips, parsed_ips};
use crate::log_text::is_control_char;
use crate::network::{family_of, ip_family, NetworkAddressFamily};
use crate::text::{
    chars_of, decimal, decimal_text, nth_text, sentence, sentence_up_to, text_at,
};
use vstd::prelude::*;
use vstd::utf8::encode_utf8;

verus! {

pub const MAX_PATH_UPDATE_BYTES: usize = 65536;

pub const MAX_PATH_LOCAL_ADDRESSES: usize = 16;

pub const MAX_PATH_RESOLUTIONS: usize = 16;

/// One week.
pub const MAX_PATH_TTL_SECS: u32 = 604800;

#[derive(Debug, Clone, Copy, PartialEq, Eq, Structural)]
pub enum PathUpdateReason {
    NetworkChanged,
    DefaultRouteChanged,
    Wake,
    SameNetworkNatFailure,
    ManualProbe,
}

#[derive(Debug, Clone, Copy, PartialEq, Eq, Structural)]
pub struct PathUpdateFlags {
    pub default_route_changed: bool,
    pub wake: bool,
    pub same_network_nat_failure: bool,
}

impl Default for PathUpdateFlags {
    fn default() -> (flags: PathUpdateFlags)
        ensures
            flags == (PathUpdateFlags {
                default_route_changed: false,
                wake: false,
                same_network_nat_failure: false,
            }),
    {
        PathUpdateFlags { default_route_changed: false, wake: false, same_network_nat_failure: false }
    }
}

#[derive(Debug, PartialEq, Eq)]
pub struct PathResolution {
    /// Literal A/AAAA result resolved through the selected physical network.
    pub address: String,
    /// Remaining DNS lifetime. Zero means no caching.
    pub ttl_secs: u32,
}

#[derive(Debug, PartialEq, Eq)]
pub struct PathUpdate {
    /// Active plan generation. An old generation is always rejected.
    pub generation: u64,
    /// Monotonic platform sequence within one generation, used for idempotency.
    pub update_id: u64,
    pub platform_path_id: String,
    pub reason: PathUpdateReason,
    /// Stable opaque physical-network token, if the platform exposes one.
    pub network_token: Option<String>,
    /// One-based OS interface index, if a stable network token is unavailable.
    pub interface_index: Option<u32>,
    /// Literal addresses currently usable as candidate source addresses.
    pub local_addresses: Vec<String>,
    /// Bounded A/AAAA answers obtained through this exact physical path.
    pub resolved_addresses: Vec<PathResolution>,
    pub flags: PathUpdateFlags,
}

/// Why a path update is refused. Numbers are positions in its lists.
#[derive(Debug, Clone, Copy, PartialEq, Eq, Structural)]
pub enum PathError {
    /// The update has so many bytes.
    TooLong(usize),
    Malformed,
    ZeroGenerationOrUpdate,
    InvalidPathId,
    InvalidNetworkToken,
    NoPhysicalNetwork,
    ZeroInterfaceIndex,
    MissingReasonFlag,
    LocalAddressCount,
    ResolvedAddressCount,
    LocalTooLong(usize),
    LocalInvalid(usize),
    LocalUnusable(usize),
    LocalDuplicate(usize),
    ResolvedTooLong(usize),
    ResolvedInvalid(usize),
    ResolvedUnusable(usize),
    ResolvedTtl(usize),
    ResolvedDuplicate(usize),
    NoCompatibleAddress,
}

impl PathUpdateReason {
    pub open spec fn name_text(self) -> Seq<char> {
        match self {
            PathUpdateReason::NetworkChanged => "NetworkChanged"@,
            PathUpdateReason::DefaultRouteChanged => "DefaultRouteChanged"@,
            PathUpdateReason::Wake => "Wake"@,
            PathUpdateReason::SameNetworkNatFailure => "SameNetworkNatFailure"@,
            PathUpdateReason::ManualProbe => "ManualProbe"@,
        }
    }

    pub fn name(self) -> (name: &'static str)
        ensures
            name@ == self.name_text(),
    {
        match self {
            PathUpdateReason::NetworkChanged => "NetworkChanged",
            PathUpdateReason::DefaultRouteChanged => "DefaultRouteChanged",
            PathUpdateReason::Wake => "Wake",
            PathUpdateReason::SameNetworkNatFailure => "SameNetworkNatFailure",
            PathUpdateReason::ManualProbe => "ManualProbe",
        }
    }
}

/// The text of one local address; empty where there is none.
pub open spec fn local_text_at(update: Option<&PathUpdate>, index: int) -> Seq<char> {
    match update {
        Some(update) => text_at(update.local_addresses@, index),
        None => ""@,
    }
}

fn nth_local(update: Option<&PathUpdate>, index: usize) -> (text: &str)
    ensures
        text@ == local_text_at(update, index as int),
{
    match update {
        Some(update) => nth_text(&update.local_addresses, index),
        None => "",
    }
}

/// The text of one resolved address; empty where there is none.
pub open spec fn resolved_text_at(update: Option<&PathUpdate>, index: int) -> Seq<char> {
    match update {
        Some(update) => if 0 <= index < update.resolved_addresses@.len() {
            update.resolved_addresses@[index].address@
        } else {
            ""@
        },
        None => ""@,
    }
}

fn nth_resolved(update: Option<&PathUpdate>, index: usize) -> (text: &str)
    ensures
        text@ == resolved_text_at(update, index as int),
{
    match update {
        Some(update) => if index < update.resolved_addresses.len() {
            update.resolved_addresses[index].address.as_str()
        } else {
            ""
        },
        None => "",
    }
}

/// The lifetime of one resolved address; empty where there is none.
pub open spec fn ttl_text_at(update: Option<&PathUpdate>, index: int) -> Seq<char> {
    match update {
        Some(update) => if 0 <= index < update.resolved_addresses@.len() {
            decimal_text(update.resolved_addresses@[index].ttl_secs as nat)
        } else {
            ""@
        },
        None => ""@,
    }
}

fn nth_ttl(update: Option<&PathUpdate>, index: usize) -> (text: String)
    ensures
        text@ == ttl_text_at(update, index as int),
{
    match update {
        Some(update) => if index < update.resolved_addresses.len() {
            decimal(update.resolved_addresses[index].ttl_secs as u64)
        } else {
            "".to_owned()
        },
        None => "".to_owned(),
    }
}

/// The reason that an update gives.
pub open spec fn reason_text(update: Option<&PathUpdate>) -> Seq<char> {
    match update {
        Some(update) => update.reason.name_text(),
        None => ""@,
    }
}

fn reason_of(update: Option<&PathUpdate>) -> (name: &'static str)
    ensures
        name@ == reason_text(update),
{
    match update {
        Some(update) => update.reason.name(),
        None => "",
    }
}

impl PathError {
    /// `update` is what was read, if it could be read; `max_bytes` is the limit of its names, and
    /// `detail` what its decoder said.
    pub open spec fn message_text(
        self,
        update: Option<&PathUpdate>,
        max_bytes: nat,
        detail: Seq<char>,
    ) -> Seq<char> {
        match self {
            PathError::TooLong(bytes) => "path update is "@ + decimal_text(bytes as nat)
                + " bytes; maximum is 65536"@,
            PathError::Malformed => "invalid path update: "@ + detail,
            PathError::ZeroGenerationOrUpdate => "path generation and update_id must be non-zero"@,
            PathError::InvalidPathId => "platform path id must be 1..="@ + decimal_text(max_bytes)
                + " UTF-8 bytes without control characters"@,
            PathError::InvalidNetworkToken => "physical network token must be 1..="@ + decimal_text(
                max_bytes,
            ) + " UTF-8 bytes without control characters"@,
            PathError::NoPhysicalNetwork =>
                "path update requires a physical network token or interface index"@,
            PathError::ZeroInterfaceIndex => "path interface index must be non-zero"@,
            PathError::MissingReasonFlag => "path update reason "@ + reason_text(update)
                + " requires its matching flag"@,
            PathError::LocalAddressCount => "path update must contain 1..=16 local addresses"@,
            PathError::ResolvedAddressCount => "path update must contain 1..=16 resolved addresses"@,
            PathError::LocalTooLong(_) => "path local address is too long"@,
            PathError::LocalInvalid(index) => "invalid path local address '"@ + local_text_at(
                update,
                index as int,
            ) + "'"@,
            PathError::LocalUnusable(index) => "path local address '"@ + local_text_at(
                update,
                index as int,
            ) + "' is not usable"@,
            PathError::LocalDuplicate(index) => "duplicate path local address '"@ + local_text_at(
                update,
                index as int,
            ) + "'"@,
            PathError::ResolvedTooLong(_) => "resolved path address is too long"@,
            PathError::ResolvedInvalid(index) => "invalid resolved path address '"@
                + resolved_text_at(update, index as int) + "'"@,
            PathError::ResolvedUnusable(index) => "resolved path address '"@ + resolved_text_at(
                update,
                index as int,
            ) + "' is not usable"@,
            PathError::ResolvedTtl(index) => "resolved path TTL "@ + ttl_text_at(
                update,
                index as int,
            ) + " exceeds 604800"@,
            PathError::ResolvedDuplicate(index) => "duplicate resolved path address '"@
                + resolved_text_at(update, index as int) + "'"@,
            PathError::NoCompatibleAddress =>
                "path update has no resolved address compatible with a local address family"@,
        }
    }

    /// The sentence that the platform is told about the update that was refused. `update` is what
    /// was read, if it could be read; `max_bytes` is the limit of its names, and `detail` what its
    /// decoder said.
    pub fn message(self, update: Option<&PathUpdate>, max_bytes: usize, detail: &str) -> (text:
        String)
        ensures
            text@ == self.message_text(update, max_bytes as nat, detail@),
    {
        match self {
            PathError::TooLong(bytes) => sentence(
                "path update is ",
                decimal(bytes as u64).as_str(),
                " bytes; maximum is 65536",
            ),
            PathError::Malformed => sentence_up_to("invalid path update: ", detail),
            PathError::ZeroGenerationOrUpdate =>
            "path generation and update_id must be non-zero".to_owned(),
            PathError::InvalidPathId => sentence(
                "platform path id must be 1..=",
                decimal(max_bytes as u64).as_str(),
                " UTF-8 bytes without control characters",
            ),
            PathError::InvalidNetworkToken => sentence(
                "physical network token must be 1..=",
                decimal(max_bytes as u64).as_str(),
                " UTF-8 bytes without control characters",
            ),
            PathError::NoPhysicalNetwork =>
            "path update requires a physical network token or interface index".to_owned(),
            PathError::ZeroInterfaceIndex => "path interface index must be non-zero".to_owned(),
            PathError::MissingReasonFlag => sentence(
                "path update reason ",
                reason_of(update),
                " requires its matching flag",
            ),
            PathError::LocalAddressCount =>
            "path update must contain 1..=16 local addresses".to_owned(),
            PathError::ResolvedAddressCount =>
            "path update must contain 1..=16 resolved addresses".to_owned(),
            PathError::LocalTooLong(_) => "path local address is too long".to_owned(),
            PathError::LocalInvalid(index) => sentence(
                "invalid path local address '",
                nth_local(update, index),
                "'",
            ),
            PathError::LocalUnusable(index) => sentence(
                "path local address '",
                nth_local(update, index),
                "' is not usable",
            ),
            PathError::LocalDuplicate(index) => sentence(
                "duplicate path local address '",
                nth_local(update, index),
                "'",
            ),
            PathError::ResolvedTooLong(_) => "resolved path address is too long".to_owned(),
            PathError::ResolvedInvalid(index) => sentence(
                "invalid resolved path address '",
                nth_resolved(update, index),
                "'",
            ),
            PathError::ResolvedUnusable(index) => sentence(
                "resolved path address '",
                nth_resolved(update, index),
                "' is not usable",
            ),
            PathError::ResolvedTtl(index) => sentence(
                "resolved path TTL ",
                nth_ttl(update, index).as_str(),
                " exceeds 604800",
            ),
            PathError::ResolvedDuplicate(index) => sentence(
                "duplicate resolved path address '",
                nth_resolved(update, index),
                "'",
            ),
            PathError::NoCompatibleAddress =>
            "path update has no resolved address compatible with a local address family".to_owned(),
        }
    }
}

/// Addresses that no path can use: unspecified, multicast, loopback and the IPv4 broadcast.
pub open spec fn unusable(address: IpAddress) -> bool {
    match address {
        IpAddress::V4(value) => value == 0 || value / 0x1000_0000 == 14 || value / 0x100_0000 == 127
            || value == u32::MAX,
        IpAddress::V6(value) => value == 0 || value
            / 0x1_0000_0000_0000_0000_0000_0000_0000_00 == 0xff || value == 1,
    }
}

pub fn is_unusable_path_address(address: IpAddress) -> (result: bool)
    ensures
        result == unusable(address),
{
    match address {
        IpAddress::V4(value) => value == 0 || value / 0x1000_0000 == 14 || value / 0x100_0000 == 127
            || value == u32::MAX,
        IpAddress::V6(value) => value == 0 || value
            / 0x1_0000_0000_0000_0000_0000_0000_0000_00 == 0xff || value == 1,
    }
}

/// A name of 1 to `max_bytes` UTF-8 bytes without control characters.
pub open spec fn is_identifier(value: Seq<char>, max_bytes: int) -> bool {
    &&& value.len() > 0
    &&& encode_utf8(value).len() <= max_bytes
    &&& forall|i: int| 0 <= i < value.len() ==> !is_control_char(#[trigger] value[i])
}

pub fn validate_identifier(value: &str, max_bytes: usize) -> (valid: bool)
    ensures
        valid == is_identifier(value@, max_bytes as int),
{
    if value.unicode_len() == 0 || value.as_bytes().len() > max_bytes {
        return false;
    }
    let chars = chars_of(value);
    let mut i: usize = 0;
    while i < chars.len()
        invariant
            chars@ == value@,
            i <= chars@.len(),
            forall|j: int| 0 <= j < i ==> !is_control_char(#[trigger] value@[j]),
        decreases chars@.len() - i,
    {
        let code: u32 = chars[i] as u32;
        if code < 0x20 || (0x7f <= code && code <= 0x9f) {
            assert(is_control_char(value@[i as int]));
            return false;
        }
        i += 1;
    }
    true
}

/// Whether one of the first `end` addresses is this one.
pub open spec fn seen_before(ips: Seq<Option<IpAddress>>, ip: IpAddress, end: int) -> bool {
    exists|i: int| 0 <= i < end && #[trigger] ips[i] == Some(ip)
}

fn is_seen_before(ips: &Vec<Option<IpAddress>>, ip: IpAddress, end: usize) -> (seen: bool)
    requires
        end <= ips@.len(),
    ensures
        seen == seen_before(ips@, ip, end as int),
{
    let mut i: usize = 0;
    while i < end
        invariant
            i <= end,
            end <= ips@.len(),
            forall|j: int| 0 <= j < i ==> #[trigger] ips@[j] != Some(ip),
        decreases end - i,
    {
        let same = match ips[i] {
            Some(other) => other == ip,
            None => false,
        };
        if same {
            assert(ips@[i as int] == Some(ip));
            return true;
        }
        i += 1;
    }
    false
}

/// What is wrong with one local address.
pub open spec fn local_problem(
    update: PathUpdate,
    ips: Seq<Option<IpAddress>>,
    max_bytes: int,
    i: int,
) -> Option<PathError> {
    if encode_utf8(update.local_addresses@[i]@).len() > max_bytes {
        Some(PathError::LocalTooLong(i as usize))
    } else {
        match ips[i] {
            None => Some(PathError::LocalInvalid(i as usize)),
            Some(ip) => if unusable(ip) {
                Some(PathError::LocalUnusable(i as usize))
            } else if seen_before(ips, ip, i) {
                Some(PathError::LocalDuplicate(i as usize))
            } else {
                None
            },
        }
    }
}

/// The first problem among the first `end` local addresses.
pub open spec fn locals_problem(
    update: PathUpdate,
    ips: Seq<Option<IpAddress>>,
    max_bytes: int,
    end: int,
) -> Option<PathError>
    decreases end,
{
    if end <= 0 {
        None
    } else {
        match locals_problem(update, ips, max_bytes, end - 1) {
            Some(error) => Some(error),
            None => local_problem(update, ips, max_bytes, end - 1),
        }
    }
}

/// What is wrong with one resolved address.
pub open spec fn resolution_problem(
    update: PathUpdate,
    ips: Seq<Option<IpAddress>>,
    max_bytes: int,
    i: int,
) -> Option<PathError> {
    if encode_utf8(update.resolved_addresses@[i].address@).len() > max_bytes {
        Some(PathError::ResolvedTooLong(i as usize))
    } else {
        match ips[i] {
            None => Some(PathError::ResolvedInvalid(i as usize)),
            Some(ip) => if unusable(ip) {
                Some(PathError::ResolvedUnusable(i as usize))
            } else if update.resolved_addresses@[i].ttl_secs > MAX_PATH_TTL_SECS {
                Some(PathError::ResolvedTtl(i as usize))
            } else if seen_before(ips, ip, i) {
                Some(PathError::ResolvedDuplicate(i as usize))
            } else {
                None
            },
        }
    }
}

/// The first problem among the first `end` resolved addresses.
pub open spec fn resolutions_problem(
    update: PathUpdate,
    ips: Seq<Option<IpAddress>>,
    max_bytes: int,
    end: int,
) -> Option<PathError>
    decreases end,
{
    if end <= 0 {
        None
    } else {
        match resolutions_problem(update, ips, max_bytes, end - 1) {
            Some(error) => Some(error),
            None => resolution_problem(update, ips, max_bytes, end - 1),
        }
    }
}

proof fn lemma_problems_stay(
    update: PathUpdate,
    ips: Seq<Option<IpAddress>>,
    max_bytes: int,
    i: int,
    end: int,
)
    requires
        0 <= i <= end,
    ensures
        locals_problem(update, ips, max_bytes, i) is Some ==> locals_problem(
            update,
            ips,
            max_bytes,
            end,
        ) == locals_problem(update, ips, max_bytes, i),
        resolutions_problem(update, ips, max_bytes, i) is Some ==> resolutions_problem(
            update,
            ips,
            max_bytes,
            end,
        ) == resolutions_problem(update, ips, max_bytes, i),
    decreases end - i,
{
    if i < end {
        lemma_problems_stay(update, ips, max_bytes, i, end - 1);
    }
}

/// Whether one of the addresses is of this family.
pub open spec fn any_of_family(
    ips: Seq<Option<IpAddress>>,
    family: NetworkAddressFamily,
) -> bool {
    exists|i: int|
        0 <= i < ips.len() && ((#[trigger] ips[i]) matches Some(ip) && family_of(ip) == family)
}

fn has_any_of_family(ips: &Vec<Option<IpAddress>>, family: NetworkAddressFamily) -> (any: bool)
    ensures
        any == any_of_family(ips@, family),
{
    let mut i: usize = 0;
    while i < ips.len()
        invariant
            i <= ips@.len(),
            forall|j: int|
                0 <= j < i ==> !((#[trigger] ips@[j]) matches Some(ip) && family_of(ip) == family),
        decreases ips@.len() - i,
    {
        let same = match ips[i] {
            Some(ip) => ip_family(ip) == family,
            None => false,
        };
        if same {
            assert(ips@[i as int] is Some);
            return true;
        }
        i += 1;
    }
    false
}

/// The resolved addresses whose family the path can source, in their order.
pub open spec fn compatible(
    local: Seq<Option<IpAddress>>,
    resolved: Seq<Option<IpAddress>>,
) -> Seq<IpAddress>
    decreases resolved.len(),
{
    if resolved.len() == 0 {
        Seq::empty()
    } else {
        let front = compatible(local, resolved.drop_last());
        match resolved.last() {
            Some(ip) => if any_of_family(local, family_of(ip)) {
                front.push(ip)
            } else {
                front
            },
            None => front,
        }
    }
}

/// Keeps those resolved addresses whose family the path can source. Platforms may report
/// dual-stack DNS on a single-stack link; trying the incompatible first answer would turn a
/// usable handover into a fallback.
pub fn compatible_addresses(
    local: &Vec<Option<IpAddress>>,
    resolved: &Vec<Option<IpAddress>>,
) -> (result: Vec<IpAddress>)
    ensures
        result@ == compatible(local@, resolved@),
{
    let has_ipv4 = has_any_of_family(local, NetworkAddressFamily::Ipv4);
    let has_ipv6 = has_any_of_family(local, NetworkAddressFamily::Ipv6);
    let mut result: Vec<IpAddress> = Vec::new();
    let mut i: usize = 0;
    assert(resolved@.take(0) =~= Seq::<Option<IpAddress>>::empty());
    while i < resolved.len()
        invariant
            i <= resolved@.len(),
            has_ipv4 == any_of_family(local@, NetworkAddressFamily::Ipv4),
            has_ipv6 == any_of_family(local@, NetworkAddressFamily::Ipv6),
            result@ == compatible(local@, resolved@.take(i as int)),
        decreases resolved@.len() - i,
    {
        proof {
            assert(resolved@.take(i + 1).drop_last() =~= resolved@.take(i as int));
            assert(resolved@.take(i + 1).last() == resolved@[i as int]);
        }
        if let Some(ip) = resolved[i] {
            if (ip.is_ipv4() && has_ipv4) || (!ip.is_ipv4() && has_ipv6) {
                result.push(ip);
            }
        }
        i += 1;
    }
    assert(resolved@.take(resolved@.len() as int) =~= resolved@);
    result
}

/// What the local addresses of an update denote.
pub open spec fn local_ips(update: PathUpdate) -> Seq<Option<IpAddress>> {
    parsed_ips(update.local_addresses@)
}

/// What the resolved addresses of an update denote.
pub open spec fn resolved_ips(update: PathUpdate) -> Seq<Option<IpAddress>> {
    update.resolved_addresses@.map_values(|entry: PathResolution| ip_of_text(entry.address@))
}

/// What is there of a list, in order.
pub open spec fn present(addresses: Seq<Option<IpAddress>>) -> Seq<IpAddress>
    decreases addresses.len(),
{
    if addresses.len() == 0 {
        Seq::empty()
    } else {
        match addresses.last() {
            Some(address) => present(addresses.drop_last()).push(address),
            None => present(addresses.drop_last()),
        }
    }
}

/// Whether a reason comes without its flag.
pub open spec fn lacks_flag(update: PathUpdate) -> bool {
    match update.reason {
        PathUpdateReason::DefaultRouteChanged => !update.flags.default_route_changed,
        PathUpdateReason::Wake => !update.flags.wake,
        PathUpdateReason::SameNetworkNatFailure => !update.flags.same_network_nat_failure,
        _ => false,
    }
}

/// Why an update is refused, if it is. `local` and `resolved` are what its addresses denote.
pub open spec fn update_problem(
    update: PathUpdate,
    local: Seq<Option<IpAddress>>,
    resolved: Seq<Option<IpAddress>>,
    max_bytes: int,
) -> Option<PathError> {
    let locals = update.local_addresses@.len() as int;
    let resolutions = update.resolved_addresses@.len() as int;
    if update.generation == 0 || update.update_id == 0 {
        Some(PathError::ZeroGenerationOrUpdate)
    } else if !is_identifier(update.platform_path_id@, max_bytes) {
        Some(PathError::InvalidPathId)
    } else if update.network_token is Some && !is_identifier(
        update.network_token->Some_0@,
        max_bytes,
    ) {
        Some(PathError::InvalidNetworkToken)
    } else if update.network_token is None && update.interface_index is None {
        Some(PathError::NoPhysicalNetwork)
    } else if update.interface_index == Some(0u32) {
        Some(PathError::ZeroInterfaceIndex)
    } else if lacks_flag(update) {
        Some(PathError::MissingReasonFlag)
    } else if locals == 0 || locals > MAX_PATH_LOCAL_ADDRESSES {
        Some(PathError::LocalAddressCount)
    } else if resolutions == 0 || resolutions > MAX_PATH_RESOLUTIONS {
        Some(PathError::ResolvedAddressCount)
    } else if locals_problem(update, local, max_bytes, locals) is Some {
        locals_problem(update, local, max_bytes, locals)
    } else if resolutions_problem(update, resolved, max_bytes, resolutions) is Some {
        resolutions_problem(update, resolved, max_bytes, resolutions)
    } else if compatible(local, resolved).len() == 0 {
        Some(PathError::NoCompatibleAddress)
    } else {
        None
    }
}

impl PathUpdate {
    /// Decides on an update from what its addresses denote. `max_bytes` bounds each of its texts.
    pub fn validate_addresses(
        &self,
        local: &Vec<Option<IpAddress>>,
        resolved: &Vec<Option<IpAddress>>,
        max_bytes: usize,
    ) -> (result: Result<(), PathError>)
        requires
            local@.len() == self.local_addresses@.len(),
            resolved@.len() == self.resolved_addresses@.len(),
        ensures
            match result {
                Ok(()) => update_problem(*self, local@, resolved@, max_bytes as int) is None,
                Err(error) => update_problem(*self, local@, resolved@, max_bytes as int) == Some(
                    error,
                ),
            },
    {
        if self.generation == 0 || self.update_id == 0 {
            return Err(PathError::ZeroGenerationOrUpdate);
        }
        if !validate_identifier(self.platform_path_id.as_str(), max_bytes) {
            return Err(PathError::InvalidPathId);
        }
        if let Some(token) = &self.network_token {
            if !validate_identifier(token.as_str(), max_bytes) {
                return Err(PathError::InvalidNetworkToken);
            }
        }
        if self.network_token.is_none() && self.interface_index.is_none() {
            return Err(PathError::NoPhysicalNetwork);
        }
        if let Some(index) = self.interface_index {
            if index == 0 {
                return Err(PathError::ZeroInterfaceIndex);
            }
        }
        let lacks_flag = match self.reason {
            PathUpdateReason::DefaultRouteChanged => !self.flags.default_route_changed,
            PathUpdateReason::Wake => !self.flags.wake,
            PathUpdateReason::SameNetworkNatFailure => !self.flags.same_network_nat_failure,
            _ => false,
        };
        if lacks_flag {
            return Err(PathError::MissingReasonFlag);
        }
        if self.local_addresses.len() == 0 || self.local_addresses.len()
            > MAX_PATH_LOCAL_ADDRESSES {
            return Err(PathError::LocalAddressCount);
        }
        if self.resolved_addresses.len() == 0 || self.resolved_addresses.len()
            > MAX_PATH_RESOLUTIONS {
            return Err(PathError::ResolvedAddressCount);
        }
        if let Some(error) = self.check_locals(local, max_bytes) {
            return Err(error);
        }
        if let Some(error) = self.check_resolutions(resolved, max_bytes) {
            return Err(error);
        }
        if compatible_addresses(local, resolved).len() == 0 {
            return Err(PathError::NoCompatibleAddress);
        }
        Ok(())
    }

    fn check_locals(&self, ips: &Vec<Option<IpAddress>>, max_bytes: usize) -> (problem: Option<
        PathError,
    >)
        requires
            ips@.len() == self.local_addresses@.len(),
        ensures
            problem == locals_problem(
                *self,
                ips@,
                max_bytes as int,
                self.local_addresses@.len() as int,
            ),
    {
        let mut i: usize = 0;
        while i < self.local_addresses.len()
            invariant
                i <= self.local_addresses@.len(),
                ips@.len() == self.local_addresses@.len(),
                locals_problem(*self, ips@, max_bytes as int, i as int) is None,
            decreases self.local_addresses@.len() - i,
        {
            let problem = if self.local_addresses[i].as_str().as_bytes().len() > max_bytes {
                Some(PathError::LocalTooLong(i))
            } else {
                match ips[i] {
                    None => Some(PathError::LocalInvalid(i)),
                    Some(ip) => if is_unusable_path_address(ip) {
                        Some(PathError::LocalUnusable(i))
                    } else if is_seen_before(ips, ip, i) {
                        Some(PathError::LocalDuplicate(i))
                    } else {
                        None
                    },
                }
            };
            proof {
                lemma_problems_stay(
                    *self,
                    ips@,
                    max_bytes as int,
                    i + 1,
                    self.local_addresses@.len() as int,
                );
            }
            if problem.is_some() {
                return problem;
            }
            i += 1;
        }
        None
    }

    fn check_resolutions(&self, ips: &Vec<Option<IpAddress>>, max_bytes: usize) -> (problem: Option<
        PathError,
    >)
        requires
            ips@.len() == self.resolved_addresses@.len(),
        ensures
            problem == resolutions_problem(
                *self,
                ips@,
                max_bytes as int,
                self.resolved_addresses@.len() as int,
            ),
    {
        let mut i: usize = 0;
        while i < self.resolved_addresses.len()
            invariant
                i <= self.resolved_addresses@.len(),
                ips@.len() == self.resolved_addresses@.len(),
                resolutions_problem(*self, ips@, max_bytes as int, i as int) is None,
            decreases self.resolved_addresses@.len() - i,
        {
            let entry = &self.resolved_addresses[i];
            let problem = if entry.address.as_str().as_bytes().len() > max_bytes {
                Some(PathError::ResolvedTooLong(i))
            } else {
                match ips[i] {
                    None => Some(PathError::ResolvedInvalid(i)),
                    Some(ip) => if is_unusable_path_address(ip) {
                        Some(PathError::ResolvedUnusable(i))
                    } else if entry.ttl_secs > MAX_PATH_TTL_SECS {
                        Some(PathError::ResolvedTtl(i))
                    } else if is_seen_before(ips, ip, i) {
                        Some(PathError::ResolvedDuplicate(i))
                    } else {
                        None
                    },
                }
            };
            proof {
                lemma_problems_stay(
                    *self,
                    ips@,
                    max_bytes as int,
                    i + 1,
                    self.resolved_addresses@.len() as int,
                );
            }
            if problem.is_some() {
                return problem;
            }
            i += 1;
        }
        None
    }

    fn read_resolved(&self) -> (ips: Vec<Option<IpAddress>>)
        ensures
            ips@ == resolved_ips(*self),
    {
        let mut ips: Vec<Option<IpAddress>> = Vec::new();
        let ghost all = resolved_ips(*self);
        let mut i: usize = 0;
        while i < self.resolved_addresses.len()
            invariant
                i <= self.resolved_addresses@.len(),
                all == resolved_ips(*self),
                ips@ =~= all.take(i as int),
            decreases self.resolved_addresses@.len() - i,
        {
            ips.push(parse_ip(self.resolved_addresses[i].address.as_str()));
            i += 1;
        }
        assert(all.take(all.len() as int) =~= all);
        ips
    }

    /// Decides on an update from its texts.
    pub fn validate(&self, max_bytes: usize) -> (result: Result<(), PathError>)
        ensures
            match result {
                Ok(()) => update_problem(
                    *self,
                    local_ips(*self),
                    resolved_ips(*self),
                    max_bytes as int,
                ) is None,
                Err(error) => update_problem(
                    *self,
                    local_ips(*self),
                    resolved_ips(*self),
                    max_bytes as int,
                ) == Some(error),
            },
    {
        self.validate_addresses(&parse_ips(&self.local_addresses), &self.read_resolved(), max_bytes)
    }

    /// The carrier addresses that can be tried from this path.
    pub fn compatible_resolved_addresses(&self) -> (addresses: Vec<IpAddress>)
        ensures
            addresses@ == compatible(local_ips(*self), resolved_ips(*self)),
    {
        compatible_addresses(&parse_ips(&self.local_addresses), &self.read_resolved())
    }

    /// The carrier addresses that the transport goes by once this path is committed: everything
    /// that was resolved, of either family.
    pub fn committed_addresses(&self) -> (addresses: Vec<IpAddress>)
        ensures
            addresses@ == present(resolved_ips(*self)),
    {
        let resolved = self.read_resolved();
        let ghost all = resolved@;
        let mut addresses: Vec<IpAddress> = Vec::new();
        let mut i: usize = 0;
        assert(all.take(0) =~= Seq::<Option<IpAddress>>::empty());
        while i < resolved.len()
            invariant
                i <= resolved@.len(),
                all == resolved@,
                addresses@ == present(all.take(i as int)),
            decreases resolved@.len() - i,
        {
            assert(all.take(i + 1).drop_last() =~= all.take(i as int));
            assert(all.take(i + 1).last() == all[i as int]);
            if let Some(address) = resolved[i] {
                addresses.push(address);
            }
            i += 1;
        }
        assert(all.take(all.len() as int) =~= all);
        addresses
    }

    /// Accepts an update that came as text of `input_bytes` bytes; `decoded` is what it decodes to.
    pub fn accept(input_bytes: usize, decoded: Option<PathUpdate>, max_bytes: usize) -> (result:
        Result<PathUpdate, PathError>)
        ensures
            if input_bytes > MAX_PATH_UPDATE_BYTES {
                result is Err && result->Err_0 == PathError::TooLong(input_bytes)
            } else {
                match decoded {
                    None => result is Err && result->Err_0 == PathError::Malformed,
                    Some(update) => match update_problem(
                        update,
                        local_ips(update),
                        resolved_ips(update),
                        max_bytes as int,
                    ) {
                        Some(error) => result is Err && result->Err_0 == error,
                        None => result is Ok && result->Ok_0 == update,
                    },
                }
            },
    {
        if input_bytes > MAX_PATH_UPDATE_BYTES {
            return Err(PathError::TooLong(input_bytes));
        }
        match decoded {
            None => Err(PathError::Malformed),
            Some(update) => match update.validate(max_bytes) {
                Ok(()) => Ok(update),
                Err(error) => Err(error),
            },
        }
    }
}

/// Every accepted update leads somewhere: it has a carrier address to try, and each such address
/// is usable and of a family that the path can source.
pub proof fn law_accepted_path_is_usable(
    update: PathUpdate,
    local: Seq<Option<IpAddress>>,
    resolved: Seq<Option<IpAddress>>,
    max_bytes: int,
)
    requires
        update_problem(update, local, resolved, max_bytes) is None,
        resolved.len() == update.resolved_addresses@.len(),
    ensures
        compatible(local, resolved).len() > 0,
        forall|i: int|
            0 <= i < compatible(local, resolved).len() ==> {
                let ip = #[trigger] compatible(local, resolved)[i];
                !unusable(ip) && any_of_family(local, family_of(ip))
            },
{
    lemma_resolved_usable(update, resolved, max_bytes, resolved.len() as int);
    lemma_compatible_from(local, resolved, resolved.len() as int);
    assert(resolved.take(resolved.len() as int) =~= resolved);
}

proof fn lemma_resolved_usable(
    update: PathUpdate,
    ips: Seq<Option<IpAddress>>,
    max_bytes: int,
    end: int,
)
    requires
        0 <= end <= ips.len(),
        resolutions_problem(update, ips, max_bytes, end) is None,
    ensures
        forall|i: int|
            0 <= i < end ==> ((#[trigger] ips[i]) matches Some(ip) ==> !unusable(ip)),
    decreases end,
{
    if end > 0 {
        lemma_resolved_usable(update, ips, max_bytes, end - 1);
    }
}

proof fn lemma_compatible_from(
    local: Seq<Option<IpAddress>>,
    resolved: Seq<Option<IpAddress>>,
    end: int,
)
    requires
        0 <= end <= resolved.len(),
        forall|i: int|
            0 <= i < resolved.len() ==> ((#[trigger] resolved[i]) matches Some(ip) ==> !unusable(
                ip,
            )),
    ensures
        forall|i: int|
            0 <= i < compatible(local, resolved.take(end)).len() ==> {
                let ip = #[trigger] compatible(local, resolved.take(end))[i];
                !unusable(ip) && any_of_family(local, family_of(ip))
            },
    decreases end,
{
    if end > 0 {
        lemma_compatible_from(local, resolved, end - 1);
        assert(resolved.take(end).drop_last() =~= resolved.take(end - 1));
        assert(resolved.take(end).last() == resolved[end - 1]);
    }
}

#[derive(Debug, Clone, Copy, PartialEq, Eq, Structural)]
pub enum PathCommandAction {
    PreparePath,
    BindSocket,
    CommitPath,
    AbortPath,
}

/// Result reported by the platform after executing one correlated path command.
///
/// `Rejected` is reversible: the platform either made no externally visible change or restored
/// the previous state completely. `PlatformStateUnknown` means an attempted rollback failed, so
/// the current transport generation must stop.
#[derive(Debug, Clone, Copy, PartialEq, Eq, Structural)]
pub enum PathCommandOutcome {
    Accepted,
    Rejected,
    PlatformStateUnknown,
}

#[derive(Debug, PartialEq, Eq)]
pub struct PathCommand {
    pub generation: u64,
    pub candidate_id: u64,
    pub action: PathCommandAction,
    pub path: PathUpdate,
    pub socket_fd: Option<i64>,
    pub reason: Option<String>,
}

#[derive(Debug, Clone, Copy, PartialEq, Eq, Structural)]
pub enum PathCandidatePhase {
    Preparing,
    Prepared,
    Binding,
    Bound,
    Committing,
    Aborting,
}

/// A path that the platform prepares for the transport. `started_at` is in nanoseconds.
#[derive(Debug)]
pub struct PathCandidate {
    pub candidate_id: u64,
    pub update: PathUpdate,
    pub phase: PathCandidatePhase,
    pub pending_sequence: Option<u64>,
    pub started_at: u64,
    pub failure_recorded: bool,
}

/// Two updates that say the same.
pub open spec fn same_update(left: PathUpdate, right: PathUpdate) -> bool {
    &&& left.generation == right.generation
    &&& left.update_id == right.update_id
    &&& left.platform_path_id@ == right.platform_path_id@
    &&& left.reason == right.reason
    &&& match (left.network_token, right.network_token) {
        (Some(left), Some(right)) => left@ == right@,
        (None, None) => true,
        _ => false,
    }
    &&& left.interface_index == right.interface_index
    &&& left.local_addresses@ == right.local_addresses@
    &&& left.resolved_addresses@ == right.resolved_addresses@
    &&& left.flags == right.flags
}

impl PathUpdate {
    fn duplicate(&self) -> (copy: PathUpdate)
        ensures
            same_update(copy, *self),
    {
        let mut local_addresses: Vec<String> = Vec::new();
        let mut i: usize = 0;
        while i < self.local_addresses.len()
            invariant
                i <= self.local_addresses@.len(),
                local_addresses@ =~= self.local_addresses@.take(i as int),
            decreases self.local_addresses@.len() - i,
        {
            local_addresses.push(self.local_addresses[i].clone());
            i += 1;
        }
        assert(local_addresses@ =~= self.local_addresses@);
        let mut resolved_addresses: Vec<PathResolution> = Vec::new();
        let mut k: usize = 0;
        while k < self.resolved_addresses.len()
            invariant
                k <= self.resolved_addresses@.len(),
                resolved_addresses@ =~= self.resolved_addresses@.take(k as int),
            decreases self.resolved_addresses@.len() - k,
        {
            resolved_addresses.push(
                PathResolution {
                    address: self.resolved_addresses[k].address.clone(),
                    ttl_secs: self.resolved_addresses[k].ttl_secs,
                },
            );
            k += 1;
        }
        assert(resolved_addresses@ =~= self.resolved_addresses@);
        PathUpdate {
            generation: self.generation,
            update_id: self.update_id,
            platform_path_id: self.platform_path_id.clone(),
            reason: self.reason,
            network_token: match &self.network_token {
                Some(token) => Some(token.clone()),
                None => None,
            },
            interface_index: self.interface_index,
            local_addresses,
            resolved_addresses,
            flags: self.flags,
        }
    }
}

impl PathCandidate {
    /// The command that asks the platform to act on this candidate.
    pub fn command(
        &self,
        action: PathCommandAction,
        socket_fd: Option<i64>,
        reason: Option<String>,
    ) -> (command: PathCommand)
        ensures
            command.generation == self.update.generation,
            command.candidate_id == self.candidate_id,
            command.action == action,
            same_update(command.path, self.update),
            command.socket_fd == socket_fd,
            command.reason == reason,
    {
        PathCommand {
            generation: self.update.generation,
            candidate_id: self.candidate_id,
            action,
            path: self.update.duplicate(),
            socket_fd,
            reason,
        }
    }
}

/// The addresses that no path can use are exactly these: 0.0.0.0, 127.0.0.0/8, 224.0.0.0/4 and
/// 255.255.255.255; `::`, `::1` and `ff00::/8`. Every other address can be used.
pub proof fn law_unusable_addresses(v4: u32, v6: u128)
    ensures
        unusable(IpAddress::V4(v4)) <==> v4 == 0 || 0x7f00_0000 <= v4 <= 0x7fff_ffff || 0xe000_0000
            <= v4 <= 0xefff_ffff || v4 == 0xffff_ffff,
        unusable(IpAddress::V6(v6)) <==> v6 == 0 || v6 == 1 || v6
            >= 0xff00_0000_0000_0000_0000_0000_0000_0000,
{
}

/// A name is in order where it is not empty, has at most so many bytes, and none of its characters
/// is below U+0020 or from U+007F to U+009F.
pub proof fn law_identifiers(value: Seq<char>, max_bytes: int)
    ensures
        is_identifier(value, max_bytes) <==> 1 <= value.len() && encode_utf8(value).len()
            <= max_bytes && forall|i: int|
            0 <= i < value.len() ==> (#[trigger] value[i]) as u32 >= 0x20 && !(0x7f <= value[i] as u32
                <= 0x9f),
{
}

proof fn lemma_no_local_problem(
    update: PathUpdate,
    ips: Seq<Option<IpAddress>>,
    max_bytes: int,
    end: int,
)
    requires
        0 <= end <= ips.len(),
    ensures
        locals_problem(update, ips, max_bytes, end) is None <==> forall|i: int|
            0 <= i < end ==> {
                &&& (#[trigger] ips[i]) is Some
                &&& encode_utf8(update.local_addresses@[i]@).len() <= max_bytes
                &&& !unusable(ips[i]->Some_0)
                &&& forall|j: int| 0 <= j < i ==> #[trigger] ips[j] != ips[i]
            },
        resolutions_problem(update, ips, max_bytes, end) is None <==> forall|i: int|
            0 <= i < end ==> {
                &&& (#[trigger] ips[i]) is Some
                &&& encode_utf8(update.resolved_addresses@[i].address@).len() <= max_bytes
                &&& !unusable(ips[i]->Some_0)
                &&& update.resolved_addresses@[i].ttl_secs <= 604800
                &&& forall|j: int| 0 <= j < i ==> #[trigger] ips[j] != ips[i]
            },
    decreases end,
{
    if end > 0 {
        lemma_no_local_problem(update, ips, max_bytes, end - 1);
        let last = ips[end - 1];
        if last is Some {
            assert(seen_before(ips, last->Some_0, end - 1) <==> exists|j: int|
                0 <= j < end - 1 && #[trigger] ips[j] == last);
        }
    }
}

proof fn lemma_compatible_members(
    local: Seq<Option<IpAddress>>,
    resolved: Seq<Option<IpAddress>>,
    ip: IpAddress,
)
    ensures
        compatible(local, resolved).contains(ip) <==> resolved.contains(Some(ip)) && exists|i: int|
            0 <= i < local.len() && (#[trigger] local[i]) is Some && (local[i]->Some_0 is V4 <==> ip
                is V4),
    decreases resolved.len(),
{
    let sourced = exists|i: int|
        0 <= i < local.len() && (#[trigger] local[i]) is Some && (local[i]->Some_0 is V4 <==> ip
            is V4);
    assert(any_of_family(local, family_of(ip)) <==> sourced) by {
        if sourced {
            let i = choose|i: int|
                0 <= i < local.len() && (#[trigger] local[i]) is Some && (local[i]->Some_0 is V4
                    <==> ip is V4);
            assert(family_of(local[i]->Some_0) == family_of(ip));
        }
    }
    if resolved.len() > 0 {
        let front = resolved.drop_last();
        lemma_compatible_members(local, front, ip);
        let before = compatible(local, front);
        let whole = compatible(local, resolved);
        if before.contains(ip) {
            let k = choose|k: int| 0 <= k < before.len() && before[k] == ip;
            assert(whole[k] == ip);
        }
        if front.contains(Some(ip)) {
            let k = choose|k: int| 0 <= k < front.len() && front[k] == Some(ip);
            assert(resolved[k] == Some(ip));
        }
        assert(resolved[resolved.len() - 1] == resolved.last());
        if resolved.last() == Some(ip) && sourced {
            assert(whole[before.len() as int] == ip);
        }
        if whole.contains(ip) {
            let k = choose|k: int| 0 <= k < whole.len() && whole[k] == ip;
            if k < before.len() {
                assert(before[k] == ip);
            }
        }
        if resolved.contains(Some(ip)) {
            let k = choose|k: int| 0 <= k < resolved.len() && resolved[k] == Some(ip);
            if k < front.len() {
                assert(front[k] == Some(ip));
            }
        }
    }
}

/// An update is accepted exactly where it is in order: numbered, named, on a physical network, with
/// the flag of its reason, and with one to sixteen usable addresses of each kind, none of them
/// twice, of which one that was resolved can be reached from one of the path. What the addresses
/// are is all that counts of them.
pub proof fn law_proper_updates_are_accepted(
    update: PathUpdate,
    local: Seq<Option<IpAddress>>,
    resolved: Seq<Option<IpAddress>>,
    max_bytes: int,
)
    requires
        local.len() == update.local_addresses@.len(),
        resolved.len() == update.resolved_addresses@.len(),
    ensures
        update_problem(update, local, resolved, max_bytes) is None <==> {
            &&& update.generation > 0 && update.update_id > 0
            &&& is_identifier(update.platform_path_id@, max_bytes)
            &&& update.network_token is Some || update.interface_index is Some
            &&& update.network_token matches Some(token) ==> is_identifier(token@, max_bytes)
            &&& update.interface_index matches Some(index) ==> index > 0
            &&& update.reason is DefaultRouteChanged ==> update.flags.default_route_changed
            &&& update.reason is Wake ==> update.flags.wake
            &&& update.reason is SameNetworkNatFailure ==> update.flags.same_network_nat_failure
            &&& 1 <= local.len() <= 16
            &&& 1 <= resolved.len() <= 16
            &&& forall|i: int|
                0 <= i < local.len() ==> {
                    &&& (#[trigger] local[i]) is Some
                    &&& encode_utf8(update.local_addresses@[i]@).len() <= max_bytes
                    &&& !unusable(local[i]->Some_0)
                    &&& forall|j: int| 0 <= j < i ==> #[trigger] local[j] != local[i]
                }
            &&& forall|i: int|
                0 <= i < resolved.len() ==> {
                    &&& (#[trigger] resolved[i]) is Some
                    &&& encode_utf8(update.resolved_addresses@[i].address@).len() <= max_bytes
                    &&& !unusable(resolved[i]->Some_0)
                    &&& update.resolved_addresses@[i].ttl_secs <= 604800
                    &&& forall|j: int| 0 <= j < i ==> #[trigger] resolved[j] != resolved[i]
                }
            &&& exists|i: int, j: int|
                0 <= i < local.len() && 0 <= j < resolved.len() && (#[trigger] local[i]) is Some && (
                #[trigger] resolved[j]) is Some && (local[i]->Some_0 is V4
                    <==> resolved[j]->Some_0 is V4)
        },
{
    lemma_no_local_problem(update, local, max_bytes, local.len() as int);
    lemma_no_local_problem(update, resolved, max_bytes, resolved.len() as int);
    let chosen = compatible(local, resolved);
    if chosen.len() > 0 {
        let ip = chosen[0];
        assert(chosen.contains(ip));
        lemma_compatible_members(local, resolved, ip);
        let j = choose|j: int| 0 <= j < resolved.len() && resolved[j] == Some(ip);
        let i = choose|i: int|
            0 <= i < local.len() && (#[trigger] local[i]) is Some && (local[i]->Some_0 is V4 <==> ip
                is V4);
        assert(local[i] is Some && resolved[j] is Some);
    } else {
        assert forall|i: int, j: int|
            0 <= i < local.len() && 0 <= j < resolved.len() && (#[trigger] local[i]) is Some && (
            #[trigger] resolved[j]) is Some implies !(local[i]->Some_0 is V4
            <==> resolved[j]->Some_0 is V4) by {
            lemma_compatible_members(local, resolved, resolved[j]->Some_0);
            assert(resolved.contains(resolved[j]));
            if local[i]->Some_0 is V4 <==> resolved[j]->Some_0 is V4 {
                assert(chosen.contains(resolved[j]->Some_0));
            }
        }
    }
}

/// The addresses to try are the resolved ones that a local address of their family can reach, in
/// the order in which they were resolved: each list is treated piece by piece.
pub proof fn law_addresses_to_try_keep_their_order(
    local: Seq<Option<IpAddress>>,
    earlier: Seq<Option<IpAddress>>,
    later: Seq<Option<IpAddress>>,
    ip: IpAddress,
)
    ensures
        compatible(local, earlier + later) == compatible(local, earlier) + compatible(local, later),
        compatible(local, seq![None::<IpAddress>]).len() == 0,
        compatible(local, seq![Some(ip)]) == if exists|i: int|
            0 <= i < local.len() && (#[trigger] local[i]) is Some && (local[i]->Some_0 is V4 <==> ip
                is V4) {
            seq![ip]
        } else {
            Seq::empty()
        },
        present(earlier + later) == present(earlier) + present(later),
        present(seq![None::<IpAddress>]).len() == 0,
        present(seq![Some(ip)]) == seq![ip],
    decreases later.len(),
{
    lemma_compatible_members(local, seq![Some(ip)], ip);
    let alone = seq![Some(ip)];
    assert(alone.drop_last() =~= Seq::<Option<IpAddress>>::empty());
    assert(alone[0] == Some(ip));
    assert(alone.contains(Some(ip)));
    let absent = seq![None::<IpAddress>];
    assert(absent.drop_last() =~= Seq::<Option<IpAddress>>::empty());
    assert(compatible(local, Seq::<Option<IpAddress>>::empty()) =~= Seq::empty());
    assert(present(Seq::<Option<IpAddress>>::empty()) =~= Seq::empty());
    let tried = compatible(local, alone);
    assert(tried =~= Seq::empty() || tried =~= seq![ip]);
    if tried.len() > 0 {
        assert(tried[0] == ip);
        assert(tried.contains(ip));
    } else {
        assert(!tried.contains(ip));
    }
    assert(present(alone) =~= seq![ip]);
    if later.len() == 0 {
        assert(earlier + later =~= earlier);
        assert(compatible(local, earlier) + compatible(local, later) =~= compatible(local, earlier));
        assert(present(earlier) + present(later) =~= present(earlier));
    } else {
        law_addresses_to_try_keep_their_order(local, earlier, later.drop_last(), ip);
        assert((earlier + later).drop_last() =~= earlier + later.drop_last());
        assert((earlier + later).last() == later.last());
        assert(compatible(local, earlier + later) =~= compatible(local, earlier) + compatible(
            local,
            later,
        ));
        assert(present(earlier + later) =~= present(earlier) + present(later));
    }
}

/// The question itself is answered so: an address is unusable exactly where it is 0.0.0.0, within
/// 127.0.0.0/8 or 224.0.0.0/4, or 255.255.255.255; `::`, `::1`, or within `ff00::/8`.
pub proof fn law_unusable_addresses_are_recognised(address: IpAddress, result: bool)
    requires
        call_ensures(is_unusable_path_address, (address,), result),
    ensures
        address matches IpAddress::V4(value) ==> (result <==> value == 0 || 0x7f00_0000 <= value
            <= 0x7fff_ffff || 0xe000_0000 <= value <= 0xefff_ffff || value == 0xffff_ffff),
        address matches IpAddress::V6(value) ==> (result <==> value == 0 || value == 1 || value
            >= 0xff00_0000_0000_0000_0000_0000_0000_0000),
{
    match address {
        IpAddress::V4(value) => {
            law_unusable_addresses(value, 0);
        },
        IpAddress::V6(value) => {
            law_unusable_addresses(0, value);
        },
    }
}

/// An update of up to 65536 bytes that could be decoded and has nothing wrong with it is taken as
/// it is; nothing else is.
pub proof fn law_updates_are_taken_as_they_are(
    input_bytes: usize,
    update: PathUpdate,
    max_bytes: usize,
    result: Result<PathUpdate, PathError>,
    nothing: Result<PathUpdate, PathError>,
)
    requires
        call_ensures(PathUpdate::accept, (input_bytes, Some(update), max_bytes), result),
        call_ensures(PathUpdate::accept, (input_bytes, None, max_bytes), nothing),
    ensures
        input_bytes > 65536 ==> result == Err::<PathUpdate, PathError>(
            PathError::TooLong(input_bytes),
        ),
        nothing is Err,
        input_bytes <= 65536 ==> nothing == Err::<PathUpdate, PathError>(
            PathError::Malformed,
        ),
        result is Ok ==> result->Ok_0 == update,
        result is Ok <==> input_bytes <= 65536 && update_problem(
            update,
            local_ips(update),
            resolved_ips(update),
            max_bytes as int,
        ) is None,
{
}

proof fn lemma_first_problems(
    update: PathUpdate,
    local: Seq<Option<IpAddress>>,
    resolved: Seq<Option<IpAddress>>,
    max_bytes: int,
    end: int,
)
    requires
        0 <= end,
    ensures
        locals_problem(update, local, max_bytes, end) matches Some(error) ==> exists|i: int|
            0 <= i < end && #[trigger] local_problem(update, local, max_bytes, i) == Some(error),
        resolutions_problem(update, resolved, max_bytes, end) matches Some(error) ==> exists|i: int|
            0 <= i < end && #[trigger] resolution_problem(update, resolved, max_bytes, i) == Some(
                error,
            ),
    decreases end,
{
    if end > 0 {
        lemma_first_problems(update, local, resolved, max_bytes, end - 1);
        if locals_problem(update, local, max_bytes, end - 1) is Some {
            let error = locals_problem(update, local, max_bytes, end - 1)->Some_0;
            let i = choose|i: int|
                0 <= i < end - 1 && #[trigger] local_problem(update, local, max_bytes, i) == Some(
                    error,
                );
            assert(local_problem(update, local, max_bytes, i) == Some(error));
        }
        if resolutions_problem(update, resolved, max_bytes, end - 1) is Some {
            let error = resolutions_problem(update, resolved, max_bytes, end - 1)->Some_0;
            let i = choose|i: int|
                0 <= i < end - 1 && #[trigger] resolution_problem(update, resolved, max_bytes, i)
                    == Some(error);
            assert(resolution_problem(update, resolved, max_bytes, i) == Some(error));
        }
    }
}

/// A refusal says what is wrong: where an update is refused for something, that is so, and an
/// address that is blamed is the one at its position.
pub proof fn law_refusals_say_what_is_wrong(
    update: PathUpdate,
    local: Seq<Option<IpAddress>>,
    resolved: Seq<Option<IpAddress>>,
    max_bytes: int,
)
    requires
        local.len() == update.local_addresses@.len(),
        resolved.len() == update.resolved_addresses@.len(),
    ensures
        update_problem(update, local, resolved, max_bytes) matches Some(error) ==> match error {
            PathError::ZeroGenerationOrUpdate => update.generation == 0 || update.update_id == 0,
            PathError::InvalidPathId => !is_identifier(update.platform_path_id@, max_bytes),
            PathError::InvalidNetworkToken => update.network_token is Some && !is_identifier(
                update.network_token->Some_0@,
                max_bytes,
            ),
            PathError::NoPhysicalNetwork => update.network_token is None && update.interface_index
                is None,
            PathError::ZeroInterfaceIndex => update.interface_index == Some(0u32),
            PathError::LocalAddressCount => local.len() == 0 || local.len() > 16,
            PathError::ResolvedAddressCount => resolved.len() == 0 || resolved.len() > 16,
            PathError::LocalTooLong(i) => i < local.len() && encode_utf8(
                update.local_addresses@[i as int]@,
            ).len() > max_bytes,
            PathError::LocalInvalid(i) => i < local.len() && local[i as int] is None,
            PathError::LocalUnusable(i) => i < local.len() && local[i as int] is Some && unusable(
                local[i as int]->Some_0,
            ),
            PathError::LocalDuplicate(i) => i < local.len() && exists|j: int|
                0 <= j < i && #[trigger] local[j] == local[i as int],
            PathError::ResolvedTooLong(i) => i < resolved.len() && encode_utf8(
                update.resolved_addresses@[i as int].address@,
            ).len() > max_bytes,
            PathError::ResolvedInvalid(i) => i < resolved.len() && resolved[i as int] is None,
            PathError::ResolvedUnusable(i) => i < resolved.len() && resolved[i as int] is Some
                && unusable(resolved[i as int]->Some_0),
            PathError::ResolvedTtl(i) => i < resolved.len()
                && update.resolved_addresses@[i as int].ttl_secs > 604_800,
            PathError::ResolvedDuplicate(i) => i < resolved.len() && exists|j: int|
                0 <= j < i && #[trigger] resolved[j] == resolved[i as int],
            PathError::MissingReasonFlag => match update.reason {
                PathUpdateReason::DefaultRouteChanged => !update.flags.default_route_changed,
                PathUpdateReason::Wake => !update.flags.wake,
                PathUpdateReason::SameNetworkNatFailure => !update.flags.same_network_nat_failure,
                _ => false,
            },
            PathError::NoCompatibleAddress => compatible(local, resolved).len() == 0,
            _ => false,
        },
{
    lemma_first_problems(update, local, resolved, max_bytes, local.len() as int);
    lemma_first_problems(update, local, resolved, max_bytes, resolved.len() as int);
}

} // verus!
