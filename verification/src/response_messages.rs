//! The sentences that say why the response to an authentication is refused.

use crate::cidr::IpAddress;
use crate::ip_text::{ip_of_text, parse_ip, text_of_ip};
use crate::json_text::json_member;
use crate::plan_messages::{law_parts_are_mentioned, mentions};
use crate::session::{
    accepted_json, member_text, named_member, text_of_member, AuthError, DecodedMembers,
};
use crate::text::{
    decimal, decimal_text, same_text, sentence, sentence_of_two, sentence_up_to, signed_decimal,
    signed_text,
};
use vstd::prelude::*;

verus! {

/// A text in quotes, with its special characters escaped.
pub uninterp spec fn quoted_text(text: Seq<char>) -> Seq<char>;

/// Writes a text with the `Debug` of `str`. The contract only says that the result is a function
/// of the text.
#[verifier::external_body]
fn quote(text: &str) -> (quoted: String)
    ensures
        quoted@ == quoted_text(text@),
{
    format!("{:?}", text)
}

/// The text of one assigned address.
pub open spec fn address_text_at(decoded: DecodedMembers, index: int) -> Seq<char> {
    match decoded.addresses {
        Some(addresses) => if 0 <= index < addresses@.len() {
            addresses@[index].address@
        } else {
            ""@
        },
        None => ""@,
    }
}

fn nth_address(decoded: &DecodedMembers, index: usize) -> (text: &str)
    ensures
        text@ == address_text_at(*decoded, index as int),
{
    match &decoded.addresses {
        Some(addresses) => if index < addresses.len() {
            addresses[index].address.as_str()
        } else {
            ""
        },
        None => "",
    }
}

/// The text of the gateway of one assigned address.
pub open spec fn gateway_text_at(decoded: DecodedMembers, index: int) -> Seq<char> {
    match decoded.addresses {
        Some(addresses) => if 0 <= index < addresses@.len() {
            match addresses@[index].gateway {
                Some(gateway) => gateway@,
                None => ""@,
            }
        } else {
            ""@
        },
        None => ""@,
    }
}

fn nth_gateway(decoded: &DecodedMembers, index: usize) -> (text: &str)
    ensures
        text@ == gateway_text_at(*decoded, index as int),
{
    match &decoded.addresses {
        Some(addresses) => if index < addresses.len() {
            match &addresses[index].gateway {
                Some(gateway) => gateway.as_str(),
                None => "",
            }
        } else {
            ""
        },
        None => "",
    }
}

/// An address text in its canonical form; a text that is no address stays as it is.
pub open spec fn canonical_ip(text: Seq<char>) -> Seq<char> {
    match ip_of_text(text) {
        Some(ip) => text_of_ip(ip),
        None => text,
    }
}

fn write_canonical(text: &str) -> (canonical: String)
    ensures
        canonical@ == canonical_ip(text@),
{
    match parse_ip(text) {
        Some(ip) => ip.render(),
        None => text.to_owned(),
    }
}

/// The text and the port of one resolver.
pub open spec fn resolver_at(decoded: DecodedMembers, index: int) -> (Seq<char>, Seq<char>) {
    match decoded.dns_servers {
        Some(servers) => if 0 <= index < servers@.len() {
            (servers@[index].address@, decimal_text(servers@[index].port as nat))
        } else {
            (""@, ""@)
        },
        None => (""@, ""@),
    }
}

fn nth_resolver(decoded: &DecodedMembers, index: usize) -> (resolver: (&str, String))
    ensures
        (resolver.0@, resolver.1@) == resolver_at(*decoded, index as int),
{
    match &decoded.dns_servers {
        Some(servers) => if index < servers.len() {
            (servers[index].address.as_str(), decimal(servers[index].port as u64))
        } else {
            ("", "".to_owned())
        },
        None => ("", "".to_owned()),
    }
}

/// The text of a member of a response; empty where it has none.
pub open spec fn response_text(response: Seq<char>, name: Seq<char>) -> Seq<char> {
    match accepted_json(response) {
        Some(json) => member_text(named_member(json, name)),
        None => ""@,
    }
}

fn text_in_response(response: &str, name: &str) -> (text: String)
    ensures
        text@ == response_text(response@, name@),
{
    let length: usize = response.unicode_len();
    if length < 3 {
        return "".to_owned();
    }
    let head = response.substring_char(0, 3);
    assert(head@ =~= response@.take(3));
    if !same_text(head, "OK:") {
        return "".to_owned();
    }
    let json = response.substring_char(3, length);
    assert(json@ =~= response@.skip(3));
    match json_member(json, name) {
        Some(member) => text_of_member(&member),
        None => String::new(),
    }
}

impl AuthError {
    /// `detail` is what the decoder of a member, or the check of an IPv6 address, said.
    pub open spec fn message_text(
        self,
        response: Seq<char>,
        decoded: DecodedMembers,
        detail: Seq<char>,
    ) -> Seq<char> {
        match self {
            AuthError::Rejected => "auth failed: "@ + response,
            AuthError::MalformedJson => "malformed auth OK json: "@ + detail,
            AuthError::PartialPlan =>
                "auth OK NetworkPlan v2 must contain both family_mode and addresses"@,
            AuthError::MissingClientIp => "auth OK missing client_ip"@,
            AuthError::InvalidPrefix =>
                "auth OK NetworkPlan v2 contains an invalid legacy prefix projection"@,
            AuthError::InvalidFamilyMode => "invalid auth OK family_mode: "@ + detail,
            AuthError::InvalidAddresses => "invalid auth OK addresses: "@ + detail,
            AuthError::AddressCount => "auth OK must contain one address per active IP family"@,
            AuthError::InvalidAddress(index) => "invalid auth OK tunnel address '"@
                + address_text_at(decoded, index as int) + "'"@,
            AuthError::DuplicateFamily(family) => "auth OK contains duplicate "@
                + family.name_text() + " addresses"@,
            AuthError::AddressMetadata(index) => "invalid auth OK address metadata for '"@
                + address_text_at(decoded, index as int) + "'"@,
            AuthError::InvalidGateway(index) => "invalid auth OK tunnel gateway '"@
                + gateway_text_at(decoded, index as int) + "'"@,
            AuthError::GatewayFamily(index) => "auth OK address '"@ + address_text_at(
                decoded,
                index as int,
            ) + "' and gateway '"@ + canonical_ip(gateway_text_at(decoded, index as int))
                + "' use different families"@,
            AuthError::RefusedAddress(_) | AuthError::RefusedGateway(_)
            | AuthError::RefusedDnsServer(_) => detail,
            AuthError::FamilyModeMismatch =>
                "auth OK family_mode does not match its address families"@,
            AuthError::MtuBelowIpv6Minimum(mtu) => "auth OK IPv6 plan MTU "@ + signed_text(
                mtu as int,
            ) + " is below the IPv6 minimum 1280"@,
            AuthError::ProjectionMismatch =>
                "auth OK legacy projection disagrees with NetworkPlan v2"@,
            AuthError::InvalidDnsServers => "invalid auth OK dns_servers: "@ + detail,
            AuthError::TooManyDnsServers => "auth OK contains too many DNS servers"@,
            AuthError::InvalidDnsServer(index) => "invalid auth OK DNS server '"@ + resolver_at(
                decoded,
                index as int,
            ).0 + ":"@ + resolver_at(decoded, index as int).1 + "'"@,
            AuthError::ZeroDnsPort(index) => "invalid auth OK DNS server '"@ + resolver_at(
                decoded,
                index as int,
            ).0 + ":0'"@,
            AuthError::DnsFamilyAbsent(index) => "auth OK DNS server '"@ + resolver_at(
                decoded,
                index as int,
            ).0 + "' uses a family absent from the tunnel"@,
            AuthError::ClientIpNotIpv4 => "auth OK client_ip "@ + quoted_text(
                response_text(response, "client_ip"@),
            ) + " is not a valid IPv4 address - refusing to configure the tunnel with it"@,
            AuthError::ServerIpNotIpv4 => "auth OK server_ip "@ + quoted_text(
                response_text(response, "server_ip"@),
            ) + " is not a valid IPv4 address - refusing to install routes through it"@,
            AuthError::InvalidObfuscation => "invalid auth OK obfuscation: "@ + detail,
            AuthError::InvalidRoamingSession =>
                "auth OK UDP roaming session id must be exactly 16 hexadecimal characters"@,
            AuthError::ZeroRoamingSession => "auth OK UDP roaming session id must be non-zero"@,
        }
    }

    /// The sentence shown to the user, about the response that was refused. `detail` is what the
    /// decoder of a member, or the check of an IPv6 address, said.
    pub fn message(self, response: &str, decoded: &DecodedMembers, detail: &str) -> (text: String)
        ensures
            text@ == self.message_text(response@, *decoded, detail@),
    {
        match self {
            AuthError::Rejected => sentence_up_to("auth failed: ", response),
            AuthError::MalformedJson => sentence_up_to("malformed auth OK json: ", detail),
            AuthError::PartialPlan =>
            "auth OK NetworkPlan v2 must contain both family_mode and addresses".to_owned(),
            AuthError::MissingClientIp => "auth OK missing client_ip".to_owned(),
            AuthError::InvalidPrefix =>
            "auth OK NetworkPlan v2 contains an invalid legacy prefix projection".to_owned(),
            AuthError::InvalidFamilyMode => sentence_up_to("invalid auth OK family_mode: ", detail),
            AuthError::InvalidAddresses => sentence_up_to("invalid auth OK addresses: ", detail),
            AuthError::AddressCount =>
            "auth OK must contain one address per active IP family".to_owned(),
            AuthError::InvalidAddress(index) => sentence(
                "invalid auth OK tunnel address '",
                nth_address(decoded, index),
                "'",
            ),
            AuthError::DuplicateFamily(family) => sentence(
                "auth OK contains duplicate ",
                family.name(),
                " addresses",
            ),
            AuthError::AddressMetadata(index) => sentence(
                "invalid auth OK address metadata for '",
                nth_address(decoded, index),
                "'",
            ),
            AuthError::InvalidGateway(index) => sentence(
                "invalid auth OK tunnel gateway '",
                nth_gateway(decoded, index),
                "'",
            ),
            AuthError::GatewayFamily(index) => sentence_of_two(
                "auth OK address '",
                nth_address(decoded, index),
                "' and gateway '",
                write_canonical(nth_gateway(decoded, index)).as_str(),
                "' use different families",
            ),
            AuthError::RefusedAddress(_) => detail.to_owned(),
            AuthError::RefusedGateway(_) => detail.to_owned(),
            AuthError::RefusedDnsServer(_) => detail.to_owned(),
            AuthError::FamilyModeMismatch =>
            "auth OK family_mode does not match its address families".to_owned(),
            AuthError::MtuBelowIpv6Minimum(mtu) => sentence(
                "auth OK IPv6 plan MTU ",
                signed_decimal(mtu).as_str(),
                " is below the IPv6 minimum 1280",
            ),
            AuthError::ProjectionMismatch =>
            "auth OK legacy projection disagrees with NetworkPlan v2".to_owned(),
            AuthError::InvalidDnsServers => sentence_up_to("invalid auth OK dns_servers: ", detail),
            AuthError::TooManyDnsServers => "auth OK contains too many DNS servers".to_owned(),
            AuthError::InvalidDnsServer(index) => {
                let (address, port) = nth_resolver(decoded, index);
                sentence_of_two("invalid auth OK DNS server '", address, ":", port.as_str(), "'")
            },
            AuthError::ZeroDnsPort(index) => {
                let (address, _) = nth_resolver(decoded, index);
                sentence("invalid auth OK DNS server '", address, ":0'")
            },
            AuthError::DnsFamilyAbsent(index) => {
                let (address, _) = nth_resolver(decoded, index);
                sentence("auth OK DNS server '", address, "' uses a family absent from the tunnel")
            },
            AuthError::ClientIpNotIpv4 => {
                let client_ip = text_in_response(response, "client_ip");
                sentence(
                    "auth OK client_ip ",
                    quote(client_ip.as_str()).as_str(),
                    " is not a valid IPv4 address - refusing to configure the tunnel with it",
                )
            },
            AuthError::ServerIpNotIpv4 => {
                let server_ip = text_in_response(response, "server_ip");
                sentence(
                    "auth OK server_ip ",
                    quote(server_ip.as_str()).as_str(),
                    " is not a valid IPv4 address - refusing to install routes through it",
                )
            },
            AuthError::InvalidObfuscation => sentence_up_to(
                "invalid auth OK obfuscation: ",
                detail,
            ),
            AuthError::InvalidRoamingSession =>
            "auth OK UDP roaming session id must be exactly 16 hexadecimal characters".to_owned(),
            AuthError::ZeroRoamingSession =>
            "auth OK UDP roaming session id must be non-zero".to_owned(),
        }
    }
}

/// A refused address, gateway or resolver is named in its sentence as it stands at its position
/// in the response.
pub proof fn law_refused_members_are_named(
    response: Seq<char>,
    decoded: DecodedMembers,
    detail: Seq<char>,
    index: usize,
)
    ensures
        decoded.addresses is Some && index < decoded.addresses->Some_0@.len() ==> {
            let address = decoded.addresses->Some_0@[index as int];
            &&& mentions(
                AuthError::InvalidAddress(index).message_text(response, decoded, detail),
                address.address@,
            )
            &&& mentions(
                AuthError::AddressMetadata(index).message_text(response, decoded, detail),
                address.address@,
            )
            &&& mentions(
                AuthError::GatewayFamily(index).message_text(response, decoded, detail),
                address.address@,
            )
            &&& address.gateway is Some ==> mentions(
                AuthError::InvalidGateway(index).message_text(response, decoded, detail),
                address.gateway->Some_0@,
            )
        },
        decoded.dns_servers is Some && index < decoded.dns_servers->Some_0@.len() ==> {
            let server = decoded.dns_servers->Some_0@[index as int];
            &&& mentions(
                AuthError::InvalidDnsServer(index).message_text(response, decoded, detail),
                server.address@ + ":"@ + decimal_text(server.port as nat),
            )
            &&& mentions(
                AuthError::ZeroDnsPort(index).message_text(response, decoded, detail),
                server.address@,
            )
            &&& mentions(
                AuthError::DnsFamilyAbsent(index).message_text(response, decoded, detail),
                server.address@,
            )
        },
        mentions(AuthError::Rejected.message_text(response, decoded, detail), response),
        mentions(AuthError::MalformedJson.message_text(response, decoded, detail), detail),
        mentions(AuthError::InvalidObfuscation.message_text(response, decoded, detail), detail),
        AuthError::RefusedAddress(index).message_text(response, decoded, detail) == detail,
        AuthError::RefusedGateway(index).message_text(response, decoded, detail) == detail,
        AuthError::RefusedDnsServer(index).message_text(response, decoded, detail) == detail,
{
    if decoded.addresses is Some && index < decoded.addresses->Some_0@.len() {
        let address = decoded.addresses->Some_0@[index as int];
        let text = address.address@;
        law_parts_are_mentioned("invalid auth OK tunnel address '"@, text, "'"@);
        law_parts_are_mentioned("invalid auth OK address metadata for '"@, text, "'"@);
        let gateway = canonical_ip(gateway_text_at(decoded, index as int));
        let middle = "' and gateway '"@;
        let last = "' use different families"@;
        law_parts_are_mentioned("auth OK address '"@, text, middle + gateway + last);
        assert("auth OK address '"@ + text + (middle + gateway + last) =~= "auth OK address '"@
            + text + middle + gateway + last);
        if address.gateway is Some {
            law_parts_are_mentioned(
                "invalid auth OK tunnel gateway '"@,
                address.gateway->Some_0@,
                "'"@,
            );
        }
    }
    if decoded.dns_servers is Some && index < decoded.dns_servers->Some_0@.len() {
        let server = decoded.dns_servers->Some_0@[index as int];
        let text = server.address@;
        let port = decimal_text(server.port as nat);
        let first = "invalid auth OK DNS server '"@;
        law_parts_are_mentioned(first, text + ":"@ + port, "'"@);
        assert(first + (text + ":"@ + port) + "'"@ =~= first + text + ":"@ + port + "'"@);
        law_parts_are_mentioned(first, text, ":0'"@);
        law_parts_are_mentioned(
            "auth OK DNS server '"@,
            text,
            "' uses a family absent from the tunnel"@,
        );
    }
    law_parts_are_mentioned("auth failed: "@, response, ""@);
    law_parts_are_mentioned("malformed auth OK json: "@, detail, ""@);
    law_parts_are_mentioned("invalid auth OK obfuscation: "@, detail, ""@);
}

/// An address is shown in its canonical form, and a text that is no address as it is.
pub proof fn law_addresses_are_shown_canonically(text: Seq<char>, value: u32, wide: u128)
    ensures
        ip_of_text(text) is None ==> canonical_ip(text) == text,
        ip_of_text(text) == Some(IpAddress::V4(value)) ==> canonical_ip(text) == text_of_ip(
            IpAddress::V4(value),
        ),
        ip_of_text(text) == Some(IpAddress::V6(wide)) ==> canonical_ip(text) == text_of_ip(
            IpAddress::V6(wide),
        ),
{
}

} // verus!
