//! IP addresses and address blocks in text.

use crate::cidr::{IpAddress, NumericCidr};
use crate::text::{before_slash, decimal, decimal_text, split_before_slash};
use vstd::prelude::*;

verus! {

/// The address that a text denotes, if it denotes one.
pub uninterp spec fn ip_of_text(text: Seq<char>) -> Option<IpAddress>;

/// The address block that a text denotes, if it denotes one; host bits are cleared.
pub uninterp spec fn block_of_text(text: Seq<char>) -> Option<NumericCidr>;

/// The canonical text of an IPv6 block.
pub uninterp spec fn ipv6_block_text(start: u128, prefix: u8) -> Seq<char>;

/// The text of an IPv4 block: the dotted address, a slash and the prefix.
pub open spec fn ipv4_block_text(start: u32, prefix: u8) -> Seq<char> {
    ipv4_text(start).push('/') + decimal_text(prefix as nat)
}

/// The canonical text of an address block.
pub open spec fn text_of_block(block: NumericCidr) -> Seq<char> {
    if block.bits == 32 {
        ipv4_block_text(block.start as u32, block.prefix)
    } else {
        ipv6_block_text(block.start, block.prefix)
    }
}

/// Reads an address with `str::parse`, as the address type that `ipnet::IpNet` is made of. The
/// contract only says that the result is a function of the text.
#[verifier::external_body]
pub(crate) fn parse_ip(text: &str) -> (address: Option<IpAddress>)
    ensures
        address == ip_of_text(text@),
{
    Some(match ipnet::IpNet::new(text.parse().ok()?, 0).ok()? {
        ipnet::IpNet::V4(net) => IpAddress::V4(u32::from(net.addr())),
        ipnet::IpNet::V6(net) => IpAddress::V6(u128::from(net.addr())),
    })
}

/// Reads an address block with `ipnet::IpNet::from_str` and takes its network address. Beside the
/// name of the result, the contract says that a block is within its family and without host bits:
/// the parser bounds the prefix, and `network` masks the address.
#[verifier::external_body]
pub(crate) fn parse_block(text: &str) -> (block: Option<NumericCidr>)
    ensures
        block == block_of_text(text@),
        block matches Some(block) ==> block.valid(),
{
    Some(match text.parse::<ipnet::IpNet>().ok()? {
        ipnet::IpNet::V4(net) => NumericCidr {
            start: u128::from(u32::from(net.network())),
            prefix: net.prefix_len(),
            bits: 32,
        },
        ipnet::IpNet::V6(net) => NumericCidr {
            start: u128::from(net.network()),
            prefix: net.prefix_len(),
            bits: 128,
        },
    })
}

/// Writes an IPv4 block with the `Display` of `ipnet::Ipv4Net`, which writes the address, a slash
/// and the prefix; `ipnet::Ipv4Net::new` refuses a prefix over 32 alone.
#[verifier::external_body]
fn render_ipv4_block(start: u32, prefix: u8) -> (text: String)
    requires
        prefix <= 32,
    ensures
        text@ == ipv4_block_text(start, prefix),
{
    ipnet::Ipv4Net::new(start.into(), prefix).unwrap().to_string()
}

/// Writes an IPv6 block with the `Display` of `ipnet::Ipv6Net`. The contract only says that the
/// text is a function of the block; `ipnet::Ipv6Net::new` refuses a prefix over 128 alone.
#[verifier::external_body]
fn render_ipv6_block(start: u128, prefix: u8) -> (text: String)
    requires
        prefix <= 128,
    ensures
        text@ == ipv6_block_text(start, prefix),
{
    ipnet::Ipv6Net::new(start.into(), prefix).unwrap().to_string()
}

impl NumericCidr {
    pub fn parse(cidr: &str) -> (block: Option<NumericCidr>)
        ensures
            block == block_of_text(cidr@),
            block matches Some(block) ==> block.valid(),
    {
        parse_block(cidr)
    }

    pub fn render(self) -> (text: String)
        requires
            self.valid(),
        ensures
            text@ == text_of_block(self),
    {
        if self.bits == 32 {
            render_ipv4_block(self.start as u32, self.prefix)
        } else {
            render_ipv6_block(self.start, self.prefix)
        }
    }
}

/// The canonical text of an address. That of an IPv6 address stands before the slash in the text
/// of its block.
pub open spec fn text_of_ip(address: IpAddress) -> Seq<char> {
    match address {
        IpAddress::V4(address) => ipv4_text(address),
        IpAddress::V6(address) => match before_slash(ipv6_block_text(address, 128)) {
            Some(text) => text,
            None => ""@,
        },
    }
}

impl IpAddress {
    pub fn render(self) -> (text: String)
        ensures
            text@ == text_of_ip(self),
    {
        match self {
            IpAddress::V4(address) => render_ipv4(address),
            IpAddress::V6(address) => {
                let block = render_ipv6_block(address, 128);
                match split_before_slash(block.as_str()) {
                    Some(text) => text.to_owned(),
                    None => "".to_owned(),
                }
            },
        }
    }

    pub fn parse(text: &str) -> (address: Option<IpAddress>)
        ensures
            address == ip_of_text(text@),
    {
        parse_ip(text)
    }
}

/// The dotted text of an IPv4 address.
pub open spec fn ipv4_text(address: u32) -> Seq<char> {
    decimal_text((address / 0x100_0000) as nat).push('.') + decimal_text(
        (address / 0x1_0000 % 256) as nat,
    ).push('.') + decimal_text((address / 0x100 % 256) as nat).push('.') + decimal_text(
        (address % 256) as nat,
    )
}

/// Writes an IPv4 address.
pub fn render_ipv4(address: u32) -> (text: String)
    ensures
        text@ == ipv4_text(address),
{
    let mut text = decimal((address / 0x100_0000) as u64);
    text.push('.');
    let mut second = decimal((address / 0x1_0000 % 256) as u64);
    second.push('.');
    let mut third = decimal((address / 0x100 % 256) as u64);
    third.push('.');
    text.append(second.as_str());
    text.append(third.as_str());
    text.append(decimal((address % 256) as u64).as_str());
    text
}

/// What a list of texts denotes.
pub open spec fn parsed_ips(texts: Seq<String>) -> Seq<Option<IpAddress>> {
    texts.map_values(|text: String| ip_of_text(text@))
}

pub fn parse_ips(texts: &Vec<String>) -> (ips: Vec<Option<IpAddress>>)
    ensures
        ips@ == parsed_ips(texts@),
{
    let mut ips: Vec<Option<IpAddress>> = Vec::new();
    let mut i: usize = 0;
    while i < texts.len()
        invariant
            i <= texts@.len(),
            ips@ =~= parsed_ips(texts@).take(i as int),
        decreases texts@.len() - i,
    {
        ips.push(parse_ip(texts[i].as_str()));
        i += 1;
    }
    assert(ips@ =~= parsed_ips(texts@));
    ips
}

/// The text of an IPv4 address is its four bytes in decimal, highest first, with a dot between
/// two of them; that of a block has its prefix behind a slash.
pub proof fn law_ipv4_texts_are_dotted(first: u8, second: u8, third: u8, fourth: u8, prefix: u8)
    ensures
        ({
            let address = (first * 0x100_0000 + second * 0x1_0000 + third * 0x100 + fourth) as u32;
            let text = decimal_text(first as nat) + seq!['.'] + decimal_text(second as nat)
                + seq!['.'] + decimal_text(third as nat) + seq!['.'] + decimal_text(fourth as nat);
            &&& ipv4_text(address) == text
            &&& text_of_ip(IpAddress::V4(address)) == text
            &&& text_of_block(NumericCidr { start: address as u128, prefix, bits: 32 }) == text
                + seq!['/'] + decimal_text(prefix as nat)
        }),
{
    let address: int = first * 0x100_0000 + second * 0x1_0000 + third * 0x100 + fourth;
    assert(address / 0x100_0000 == first);
    assert(address / 0x1_0000 == first * 0x100 + second);
    assert(address / 0x1_0000 % 256 == second);
    assert(address / 0x100 == first * 0x1_0000 + second * 0x100 + third);
    assert(address / 0x100 % 256 == third);
    assert(address % 256 == fourth);
    let text = decimal_text(first as nat) + seq!['.'] + decimal_text(second as nat) + seq!['.']
        + decimal_text(third as nat) + seq!['.'] + decimal_text(fourth as nat);
    assert(ipv4_text(address as u32) =~= text);
    assert(ipv4_block_text(address as u32, prefix) =~= text + seq!['/'] + decimal_text(
        prefix as nat,
    ));
}

/// The text of an IPv6 address is what stands before the slash in the text of its block, which
/// has the block's own start and prefix.
pub proof fn law_ipv6_texts_are_those_of_their_block(
    address: u128,
    prefix: u8,
    head: Seq<char>,
    tail: Seq<char>,
)
    requires
        forall|i: int| 0 <= i < head.len() ==> head[i] != '/',
    ensures
        ipv6_block_text(address, 128) == head.push('/') + tail ==> text_of_ip(
            IpAddress::V6(address),
        ) == head,
        text_of_block(NumericCidr { start: address, prefix, bits: 128 }) == ipv6_block_text(
            address,
            prefix,
        ),
{
    crate::text::law_texts_are_cut_at_the_first_character(head, '/', tail);
}

/// Every text of a list is read, in its place.
pub proof fn law_every_text_is_read(texts: Seq<String>, i: int)
    requires
        0 <= i < texts.len(),
    ensures
        parsed_ips(texts).len() == texts.len(),
        parsed_ips(texts)[i] == ip_of_text(texts[i]@),
{
}

} // verus!
