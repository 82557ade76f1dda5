//! Header sizes and protocol numbers, taken from the `network_types` and
//! `aya_ebpf` crates.

use vstd::prelude::*;
use network_types::eth::{EthHdr, EtherType};
use network_types::ip::{Ipv4Hdr, Ipv6Hdr};
use network_types::tcp::TcpHdr;
use network_types::udp::UdpHdr;
use crate::proto::L3Proto;

verus! {

/// The size of an Ethernet header.
pub const ETH_HDR_LEN: usize = 14;

/// The size of an IPv4 header without options.
pub const IPV4_HDR_LEN: usize = 20;

/// The size of the fixed IPv6 header.
pub const IPV6_HDR_LEN: usize = 40;

/// The size of a TCP header without options.
pub const TCP_HDR_LEN: usize = 20;

/// The size of a UDP header.
pub const UDP_HDR_LEN: usize = 8;

/// The transport protocol that an IP header names.
#[derive(PartialEq, Eq, Structural, Clone, Copy, Debug)]
pub enum IpProto {
    Tcp,
    Udp,
    /// Any protocol that is not counted.
    Other,
}

/// The network protocol that the two wire bytes of an EtherType name: 0x0800
/// is IPv4, 0x86DD is IPv6, and no other value is one that is counted.
pub open spec fn ether_type_spec(tag: Seq<u8>) -> Option<L3Proto> {
    if tag[0] == 0x08 && tag[1] == 0x00 {
        Some(L3Proto::Ipv4)
    } else if tag[0] == 0x86 && tag[1] == 0xdd {
        Some(L3Proto::Ipv6)
    } else {
        None
    }
}

/// The IP protocol number of TCP.
pub const IP_PROTO_TCP: u8 = 6;

/// The IP protocol number of UDP.
pub const IP_PROTO_UDP: u8 = 17;

/// The transport protocol that an IP protocol number names.
pub open spec fn ip_proto_spec(number: u8) -> IpProto {
    if number == IP_PROTO_TCP {
        IpProto::Tcp
    } else if number == IP_PROTO_UDP {
        IpProto::Udp
    } else {
        IpProto::Other
    }
}

/// The disposition that lets a frame continue up the network stack.
pub const XDP_PASS: u32 = 2;

/// `network_types::eth::EthHdr::LEN`: the size of the crate's Ethernet
/// header, two MAC addresses of six bytes and a 16-bit EtherType.
#[verifier::external_body]
pub(crate) fn eth_hdr_len() -> (len: usize)
    ensures
        len == ETH_HDR_LEN,
{
    EthHdr::LEN
}

/// `network_types::ip::Ipv4Hdr::LEN`: the size of the crate's IPv4 header,
/// the twenty bytes that come before any option.
#[verifier::external_body]
pub(crate) fn ipv4_hdr_len() -> (len: usize)
    ensures
        len == IPV4_HDR_LEN,
{
    Ipv4Hdr::LEN
}

/// `network_types::ip::Ipv6Hdr::LEN`: the size of the crate's IPv6 header,
/// eight bytes and two addresses of sixteen.
#[verifier::external_body]
pub(crate) fn ipv6_hdr_len() -> (len: usize)
    ensures
        len == IPV6_HDR_LEN,
{
    Ipv6Hdr::LEN
}

/// `network_types::tcp::TcpHdr::LEN`: the size of the crate's TCP header,
/// the twenty bytes that come before any option.
#[verifier::external_body]
pub(crate) fn tcp_hdr_len() -> (len: usize)
    ensures
        len == TCP_HDR_LEN,
{
    TcpHdr::LEN
}

/// `network_types::udp::UdpHdr::LEN`: the size of the crate's UDP header,
/// four 16-bit fields.
#[verifier::external_body]
pub(crate) fn udp_hdr_len() -> (len: usize)
    ensures
        len == UDP_HDR_LEN,
{
    UdpHdr::LEN
}

/// `network_types::eth::EthHdr::ether_type`, on a header that holds the
/// two bytes of `tag` in its EtherType field in memory order. The crate
/// declares `EtherType::Ipv4` as 0x0800 and `EtherType::Ipv6` as 0x86DD, both in
/// big-endian representation, so the first answers to the bytes 08 00 and
/// the second to 86 DD on every machine; any other value gives another
/// variant or the crate's error.
#[verifier::external_body]
pub(crate) fn ether_type_of(tag: &[u8; 2]) -> (network: Option<L3Proto>)
    ensures
        network == ether_type_spec(tag@),
{
    let hdr = EthHdr { dst_addr: [0; 6], src_addr: [0; 6], ether_type: u16::from_ne_bytes(*tag) };
    match hdr.ether_type() {
        Ok(EtherType::Ipv4) => Some(L3Proto::Ipv4),
        Ok(EtherType::Ipv6) => Some(L3Proto::Ipv6),
        _ => None,
    }
}

/// `network_types::ip::Ipv4Hdr::proto`, on a header that holds `number` in
/// its protocol field. The crate numbers `IpProto::Tcp` 6 and `IpProto::Udp`
/// 17; any other number gives another variant or the crate's error.
#[verifier::external_body]
pub(crate) fn ipv4_proto_of(number: u8) -> (proto: IpProto)
    ensures
        proto == ip_proto_spec(number),
{
    let hdr = Ipv4Hdr {
        vihl: 0, tos: 0, tot_len: [0; 2], id: [0; 2], frags: [0; 2], ttl: 0,
        proto: number, check: [0; 2], src_addr: [0; 4], dst_addr: [0; 4],
    };
    match hdr.proto() {
        Ok(network_types::ip::IpProto::Tcp) => IpProto::Tcp,
        Ok(network_types::ip::IpProto::Udp) => IpProto::Udp,
        _ => IpProto::Other,
    }
}

/// `network_types::ip::Ipv6Hdr::next_hdr`, on a header that holds `number`
/// in its next-header field. The crate numbers `IpProto::Tcp` 6 and
/// `IpProto::Udp` 17; any other number gives another variant or the crate's
/// error.
#[verifier::external_body]
pub(crate) fn ipv6_next_hdr_of(number: u8) -> (proto: IpProto)
    ensures
        proto == ip_proto_spec(number),
{
    let hdr = Ipv6Hdr {
        vcf: [0; 4], payload_len: [0; 2], next_hdr: number, hop_limit: 0,
        src_addr: [0; 16], dst_addr: [0; 16],
    };
    match hdr.next_hdr() {
        Ok(network_types::ip::IpProto::Tcp) => IpProto::Tcp,
        Ok(network_types::ip::IpProto::Udp) => IpProto::Udp,
        _ => IpProto::Other,
    }
}

/// `aya_ebpf::bindings::xdp_action::XDP_PASS`: the value 2, by which an XDP
/// program hands a frame on.
#[verifier::external_body]
pub(crate) fn xdp_pass() -> (action: u32)
    ensures
        action == XDP_PASS,
{
    aya_ebpf::bindings::xdp_action::XDP_PASS
}

} // verus!
