//! Network and transport protocol tags.

use vstd::prelude::*;
use vstd::string::StringExecFns;

verus! {

/// The layer 3 protocol of a packet.
#[derive(PartialEq, Eq, Structural, Hash, Clone, Copy, Debug)]
#[non_exhaustive]
pub enum L3Proto {
    Ipv4,
    Ipv6,
}

impl L3Proto {
    /// The name under which the protocol is published.
    pub open spec fn name(self) -> Seq<char> {
        match self {
            L3Proto::Ipv4 => "IPv4"@,
            L3Proto::Ipv6 => "IPv6"@,
        }
    }

    /// The published name, `IPv4` or `IPv6`.
    pub fn to_string(&self) -> (s: String)
        ensures
            s@ == self.name(),
    {
        match self {
            L3Proto::Ipv4 => String::from_str("IPv4"),
            L3Proto::Ipv6 => String::from_str("IPv6"),
        }
    }
}

/// The layer 4 protocol of a packet, with the destination port.
#[derive(PartialEq, Eq, Structural, Hash, Clone, Copy, Debug)]
#[non_exhaustive]
pub enum L4Proto {
    Tcp(u16),
    Udp(u16),
}

impl L4Proto {
    /// The name under which the protocol is published.
    pub open spec fn name(self) -> Seq<char> {
        match self {
            L4Proto::Tcp(_) => "TCP"@,
            L4Proto::Udp(_) => "UDP"@,
        }
    }

    /// The destination port carried by the tag.
    pub open spec fn port_spec(&self) -> u16 {
        match *self {
            L4Proto::Tcp(port) => port,
            L4Proto::Udp(port) => port,
        }
    }

    /// The published name, `TCP` or `UDP`.
    pub fn to_string(&self) -> (s: String)
        ensures
            s@ == self.name(),
    {
        match self {
            L4Proto::Tcp(_) => String::from_str("TCP"),
            L4Proto::Udp(_) => String::from_str("UDP"),
        }
    }

    /// The destination port.
    #[verifier::when_used_as_spec(port_spec)]
    pub fn port(&self) -> (port: u16)
        ensures
            port == self.port_spec(),
    {
        match self {
            L4Proto::Tcp(port) => *port,
            L4Proto::Udp(port) => *port,
        }
    }
}

} // verus!
