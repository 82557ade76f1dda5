//! Source addresses: wire order to host order, scope, canonical text.

use vstd::prelude::*;
use vstd::string::StringExecFns;
use crate::proto::L3Proto;
use crate::text::{decimal, hexadecimal, push_decimal, push_hexadecimal};

verus! {

/// A source address in host byte order.
#[derive(Clone, Copy, Debug)]
pub enum IpAddr {
    /// Four octets, most significant first.
    V4([u8; 4]),
    /// Eight 16-bit segments, most significant first.
    V6([u16; 8]),
}

// ---------------------------------------------------------------------------
// Wire order
// ---------------------------------------------------------------------------

/// The host-order value of a 16-bit field given as its two wire bytes.
pub open spec fn u16_from_be_spec(hi: u8, lo: u8) -> u16 {
    (hi as int * 256 + lo as int) as u16
}

/// The host-order segments of an IPv6 address given as its sixteen wire bytes.
pub open spec fn ipv6_from_be_spec(wire: Seq<u8>) -> Seq<u16> {
    Seq::new(8, |i: int| u16_from_be_spec(wire[2 * i], wire[2 * i + 1]))
}

/// The sixteen wire bytes of an IPv6 address given as its host-order segments.
pub open spec fn ipv6_to_be_spec(segments: Seq<u16>) -> Seq<u8> {
    Seq::new(
        16,
        |i: int|
            if i % 2 == 0 {
                (segments[i / 2] / 256) as u8
            } else {
                (segments[i / 2] % 256) as u8
            },
    )
}

/// The four octets at `at`, as an IPv4 address in host order.
pub open spec fn ipv4_at(bytes: Seq<u8>, at: int) -> [u8; 4] {
    [bytes[at], bytes[at + 1], bytes[at + 2], bytes[at + 3]]
}

/// The sixteen bytes at `at`, as the eight segments of an IPv6 address in
/// host order.
pub open spec fn ipv6_at(bytes: Seq<u8>, at: int) -> [u16; 8] {
    [
        u16_from_be_spec(bytes[at], bytes[at + 1]),
        u16_from_be_spec(bytes[at + 2], bytes[at + 3]),
        u16_from_be_spec(bytes[at + 4], bytes[at + 5]),
        u16_from_be_spec(bytes[at + 6], bytes[at + 7]),
        u16_from_be_spec(bytes[at + 8], bytes[at + 9]),
        u16_from_be_spec(bytes[at + 10], bytes[at + 11]),
        u16_from_be_spec(bytes[at + 12], bytes[at + 13]),
        u16_from_be_spec(bytes[at + 14], bytes[at + 15]),
    ]
}

/// Converts a 16-bit field from wire order (big endian) to host order.
pub fn port_from_be(port: &[u8; 2]) -> (host: u16)
    ensures
        host == u16_from_be_spec(port@[0], port@[1]),
{
    let hi: u16 = port[0] as u16;
    let lo: u16 = port[1] as u16;
    hi * 256 + lo
}

/// Converts the four wire-order octets of an IPv4 address to host order. An
/// octet has no byte order of its own, so every octet stays as it is.
pub fn ipv4_from_be(ipv4: &[u8; 4]) -> (octets: [u8; 4])
    ensures
        octets == *ipv4,
        octets == ipv4_at(ipv4@, 0),
{
    let mut ip_tmp: [u8; 4] = [0u8; 4];
    let mut i: usize = 0;
    while i < 4
        invariant
            i <= 4,
            forall|j: int| 0 <= j < i ==> ip_tmp@[j] == ipv4@[j],
        decreases 4 - i,
    {
        ip_tmp[i] = ipv4[i];
        i += 1;
    }
    assert(ip_tmp =~= *ipv4);
    assert(ip_tmp =~= ipv4_at(ipv4@, 0));
    ip_tmp
}

/// Converts the sixteen wire-order bytes of an IPv6 address into its eight
/// host-order segments.
pub fn ipv6_from_be(ipv6: &[u8; 16]) -> (segments: [u16; 8])
    ensures
        segments@ == ipv6_from_be_spec(ipv6@),
        segments == ipv6_at(ipv6@, 0),
{
    let mut ip_tmp: [u16; 8] = [0u16; 8];
    let mut i: usize = 0;
    while i < 8
        invariant
            i <= 8,
            forall|j: int| 0 <= j < i ==> ip_tmp@[j] == ipv6_from_be_spec(ipv6@)[j],
        decreases 8 - i,
    {
        let hi: u16 = ipv6[2 * i] as u16;
        let lo: u16 = ipv6[2 * i + 1] as u16;
        ip_tmp[i] = hi * 256 + lo;
        i += 1;
    }
    assert(ip_tmp@ =~= ipv6_from_be_spec(ipv6@));
    assert(ip_tmp =~= ipv6_at(ipv6@, 0));
    ip_tmp
}

// ---------------------------------------------------------------------------
// Scope
// ---------------------------------------------------------------------------

/// 10.0.0.0/8, 172.16.0.0/12 or 192.168.0.0/16.
pub open spec fn v4_is_private(o: Seq<u8>) -> bool {
    o[0] == 10 || (o[0] == 172 && 16 <= o[1] <= 31) || (o[0] == 192 && o[1] == 168)
}

/// 127.0.0.0/8.
pub open spec fn v4_is_loopback(o: Seq<u8>) -> bool {
    o[0] == 127
}

/// 169.254.0.0/16.
pub open spec fn v4_is_link_local(o: Seq<u8>) -> bool {
    o[0] == 169 && o[1] == 254
}

/// The unique local range fc00::/7.
pub open spec fn v6_is_private(s: Seq<u16>) -> bool {
    0xfc00 <= s[0] <= 0xfdff
}

/// The address ::1.
pub open spec fn v6_is_loopback(s: Seq<u16>) -> bool {
    s[0] == 0 && s[1] == 0 && s[2] == 0 && s[3] == 0 && s[4] == 0 && s[5] == 0 && s[6] == 0
        && s[7] == 1
}

/// The link-local unicast range fe80::/10.
pub open spec fn v6_is_link_local(s: Seq<u16>) -> bool {
    0xfe80 <= s[0] <= 0xfebf
}

// ---------------------------------------------------------------------------
// Canonical text
// ---------------------------------------------------------------------------

/// Dotted decimal: the four octets in decimal, separated by full stops.
pub open spec fn ipv4_text(o: Seq<u8>) -> Seq<char> {
    decimal(o[0] as nat) + seq!['.'] + decimal(o[1] as nat) + seq!['.'] + decimal(o[2] as nat)
        + seq!['.'] + decimal(o[3] as nat)
}

/// The segments in hexadecimal, separated by colons; nothing for no segment.
pub open spec fn groups_text(s: Seq<u16>) -> Seq<char>
    decreases s.len(),
{
    if s.len() == 0 {
        Seq::<char>::empty()
    } else if s.len() == 1 {
        hexadecimal(s[0] as nat)
    } else {
        groups_text(s.drop_last()) + seq![':'] + hexadecimal(s.last() as nat)
    }
}

/// `len` consecutive zero segments of `s` starting at `start`.
pub open spec fn is_zero_run(s: Seq<u16>, start: int, len: int) -> bool {
    &&& 0 <= start
    &&& 0 <= len
    &&& start + len <= s.len()
    &&& forall|i: int| start <= i < start + len ==> s[i] == 0
}

/// A zero run that no other is longer than, and the leftmost of its length.
pub open spec fn is_longest_zero_run(s: Seq<u16>, start: int, len: int) -> bool {
    &&& is_zero_run(s, start, len)
    &&& forall|a: int, l: int| #[trigger]
        is_zero_run(s, a, l) ==> l <= len && (l == len && l > 0 ==> start <= a)
}

/// The run of segments that the canonical text replaces by `::`: the
/// leftmost longest run of at least two zero segments, if there is one.
pub open spec fn compressed_run(s: Seq<u16>) -> Option<(int, int)> {
    if exists|start: int, len: int| len >= 2 && is_longest_zero_run(s, start, len) {
        Some(choose|run: (int, int)| run.1 >= 2 && is_longest_zero_run(s, run.0, run.1))
    } else {
        None
    }
}

/// An IPv4-mapped address, ::ffff:a.b.c.d.
pub open spec fn v6_is_v4_mapped(s: Seq<u16>) -> bool {
    s[0] == 0 && s[1] == 0 && s[2] == 0 && s[3] == 0 && s[4] == 0 && s[5] == 0xffff
}

/// The four octets that an IPv4-mapped address carries in its last two
/// segments.
pub open spec fn v6_mapped_octets(s: Seq<u16>) -> Seq<u8> {
    seq![(s[6] / 256) as u8, (s[6] % 256) as u8, (s[7] / 256) as u8, (s[7] % 256) as u8]
}

/// The canonical text of an IPv6 address: lower-case hexadecimal segments
/// without leading zeros, the leftmost longest run of two or more zero
/// segments written as `::`, and an IPv4-mapped address with its last 32
/// bits in dotted decimal.
pub open spec fn ipv6_text(s: Seq<u16>) -> Seq<char> {
    if v6_is_v4_mapped(s) {
        seq![':', ':', 'f', 'f', 'f', 'f', ':'] + ipv4_text(v6_mapped_octets(s))
    } else {
        match compressed_run(s) {
            Some((start, len)) => groups_text(s.take(start)) + seq![':', ':'] + groups_text(
                s.skip(start + len),
            ),
            None => groups_text(s),
        }
    }
}

/// An address of either family that is stored in wire order and converted
/// to host order is the address that it was, and so its canonical text is
/// the text of the address that it was.
pub proof fn lemma_wire_round_trip(ip: IpAddr)
    ensures
        IpAddr::from_wire(ip.network_spec(), ip.wire()) == ip,
        IpAddr::from_wire(ip.network_spec(), ip.wire()).text() == ip.text(),
{
    match ip {
        IpAddr::V4(o) => {
            assert(ipv4_at(o@, 0) =~= o);
        },
        IpAddr::V6(s) => {
            let wire = ipv6_to_be_spec(s@);
            assert forall|i: int| 0 <= i < 8 implies u16_from_be_spec(
                #[trigger] wire[2 * i],
                wire[2 * i + 1],
            ) == s@[i] by {
                assert(wire[2 * i] == (s@[i] / 256) as u8);
                assert(wire[2 * i + 1] == (s@[i] % 256) as u8);
            }
            assert(wire[0] == (s@[0] / 256) as u8);
            assert(wire[2] == (s@[1] / 256) as u8);
            assert(wire[4] == (s@[2] / 256) as u8);
            assert(wire[6] == (s@[3] / 256) as u8);
            assert(wire[8] == (s@[4] / 256) as u8);
            assert(wire[10] == (s@[5] / 256) as u8);
            assert(wire[12] == (s@[6] / 256) as u8);
            assert(wire[14] == (s@[7] / 256) as u8);
            assert(ipv6_at(wire, 0) =~= s);
        },
    }
}

/// Two longest zero runs of positive length are the same run.
pub proof fn lemma_longest_zero_run_unique(s: Seq<u16>, a1: int, l1: int, a2: int, l2: int)
    requires
        is_longest_zero_run(s, a1, l1),
        is_longest_zero_run(s, a2, l2),
        l1 > 0,
    ensures
        a1 == a2,
        l1 == l2,
{
    assert(is_zero_run(s, a1, l1));
    assert(is_zero_run(s, a2, l2));
}

/// The leftmost longest run of zero segments, as start and length; the
/// length is zero where no segment is zero.
fn longest_zero_run(s: &[u16; 8]) -> (run: (usize, usize))
    ensures
        is_longest_zero_run(s@, run.0 as int, run.1 as int),
{
    let mut longest_start: usize = 0;
    let mut longest_len: usize = 0;
    let mut current_len: usize = 0;
    let mut i: usize = 0;
    while i < 8
        invariant
            i <= 8,
            s@.len() == 8,
            current_len <= i,
            is_zero_run(s@, i - current_len, current_len as int),
            i - current_len == 0 || s@[i - current_len - 1] != 0,
            is_zero_run(s@, longest_start as int, longest_len as int),
            longest_start + longest_len <= i,
            current_len <= longest_len,
            forall|a: int, l: int| #[trigger]
                is_zero_run(s@, a, l) && a + l <= i ==> l <= longest_len && (l == longest_len
                    && l > 0 ==> longest_start <= a),
        decreases 8 - i,
    {
        if s[i] == 0 {
            current_len += 1;
            if current_len > longest_len {
                longest_start = i + 1 - current_len;
                longest_len = current_len;
            }
            assert forall|a: int, l: int| #[trigger]
                is_zero_run(s@, a, l) && a + l <= i + 1 implies l <= longest_len && (l
                == longest_len && l > 0 ==> longest_start <= a) by {
                if a + l == i + 1 && l > 0 {
                    if a < i + 1 - current_len {
                        assert(s@[i + 1 - current_len - 1] == 0);
                    }
                }
            }
        } else {
            current_len = 0;
            assert forall|a: int, l: int| #[trigger]
                is_zero_run(s@, a, l) && a + l <= i + 1 implies l <= longest_len && (l
                == longest_len && l > 0 ==> longest_start <= a) by {
                if a + l == i + 1 && l > 0 {
                    assert(s@[i as int] == 0);
                }
            }
        }
        i += 1;
    }
    (longest_start, longest_len)
}

/// Appends the segments `s[from..to]` in hexadecimal, separated by colons.
fn push_groups(out: &mut String, s: &[u16; 8], from: usize, to: usize)
    requires
        from <= to <= 8,
    ensures
        final(out)@ == old(out)@ + groups_text(s@.subrange(from as int, to as int)),
{
    let mut i: usize = from;
    assert(s@.subrange(from as int, from as int) =~= Seq::<u16>::empty());
    assert(out@ =~= old(out)@ + groups_text(s@.subrange(from as int, i as int)));
    while i < to
        invariant
            from <= i <= to <= 8,
            s@.len() == 8,
            out@ == old(out)@ + groups_text(s@.subrange(from as int, i as int)),
        decreases to - i,
    {
        if i > from {
            out.append(":");
        }
        push_hexadecimal(out, s[i]);
        proof {
            reveal_strlit(":");
            assert(":"@ =~= seq![':']);
            let next = s@.subrange(from as int, i + 1);
            assert(next.drop_last() =~= s@.subrange(from as int, i as int));
            assert(next.last() == s@[i as int]);
            assert(out@ =~= old(out)@ + groups_text(next));
        }
        i += 1;
    }
}

/// Appends the four octets in dotted decimal.
fn push_ipv4(out: &mut String, o: &[u8; 4])
    ensures
        final(out)@ == old(out)@ + ipv4_text(o@),
{
    push_decimal(out, o[0] as u64);
    out.append(".");
    push_decimal(out, o[1] as u64);
    out.append(".");
    push_decimal(out, o[2] as u64);
    out.append(".");
    push_decimal(out, o[3] as u64);
    proof {
        reveal_strlit(".");
        assert("."@ =~= seq!['.']);
    }
    assert(out@ =~= old(out)@ + ipv4_text(o@));
}

impl IpAddr {
    /// The network protocol that the address belongs to.
    pub open spec fn network_spec(&self) -> L3Proto {
        match *self {
            IpAddr::V4(_) => L3Proto::Ipv4,
            IpAddr::V6(_) => L3Proto::Ipv6,
        }
    }

    /// An address reserved for private networks.
    pub open spec fn is_private_spec(&self) -> bool {
        match *self {
            IpAddr::V4(o) => v4_is_private(o@),
            IpAddr::V6(s) => v6_is_private(s@),
        }
    }

    /// An address of the host itself.
    pub open spec fn is_loopback_spec(&self) -> bool {
        match *self {
            IpAddr::V4(o) => v4_is_loopback(o@),
            IpAddr::V6(s) => v6_is_loopback(s@),
        }
    }

    /// An address valid on one link only.
    pub open spec fn is_link_local_spec(&self) -> bool {
        match *self {
            IpAddr::V4(o) => v4_is_link_local(o@),
            IpAddr::V6(s) => v6_is_link_local(s@),
        }
    }

    /// A publicly routable address: one that is neither private, loopback
    /// nor link-local.
    pub open spec fn is_global_spec(&self) -> bool {
        !self.is_private_spec() && !self.is_loopback_spec() && !self.is_link_local_spec()
    }

    /// The bytes of the address in wire order: four for IPv4, sixteen for
    /// IPv6.
    pub open spec fn wire(&self) -> Seq<u8> {
        match *self {
            IpAddr::V4(o) => o@,
            IpAddr::V6(s) => ipv6_to_be_spec(s@),
        }
    }

    /// The address of the given family that the bytes are the wire order
    /// of.
    pub open spec fn from_wire(network: L3Proto, wire: Seq<u8>) -> IpAddr {
        match network {
            L3Proto::Ipv4 => IpAddr::V4(ipv4_at(wire, 0)),
            L3Proto::Ipv6 => IpAddr::V6(ipv6_at(wire, 0)),
        }
    }

    /// The canonical text of the address.
    pub open spec fn text(&self) -> Seq<char> {
        match *self {
            IpAddr::V4(o) => ipv4_text(o@),
            IpAddr::V6(s) => ipv6_text(s@),
        }
    }

    /// The network protocol that the address belongs to.
    #[verifier::when_used_as_spec(network_spec)]
    pub fn network(&self) -> (l3: L3Proto)
        ensures
            l3 == self.network_spec(),
    {
        match self {
            IpAddr::V4(_) => L3Proto::Ipv4,
            IpAddr::V6(_) => L3Proto::Ipv6,
        }
    }

    /// Whether the address is reserved for private networks.
    #[verifier::when_used_as_spec(is_private_spec)]
    pub fn is_private(&self) -> (r: bool)
        ensures
            r == self.is_private_spec(),
    {
        match self {
            IpAddr::V4(o) => o[0] == 10 || (o[0] == 172 && 16 <= o[1] && o[1] <= 31) || (o[0]
                == 192 && o[1] == 168),
            IpAddr::V6(s) => 0xfc00 <= s[0] && s[0] <= 0xfdff,
        }
    }

    /// Whether the address is one of the host itself.
    #[verifier::when_used_as_spec(is_loopback_spec)]
    pub fn is_loopback(&self) -> (r: bool)
        ensures
            r == self.is_loopback_spec(),
    {
        match self {
            IpAddr::V4(o) => o[0] == 127,
            IpAddr::V6(s) => s[0] == 0 && s[1] == 0 && s[2] == 0 && s[3] == 0 && s[4] == 0
                && s[5] == 0 && s[6] == 0 && s[7] == 1,
        }
    }

    /// Whether the address is valid on one link only.
    #[verifier::when_used_as_spec(is_link_local_spec)]
    pub fn is_link_local(&self) -> (r: bool)
        ensures
            r == self.is_link_local_spec(),
    {
        match self {
            IpAddr::V4(o) => o[0] == 169 && o[1] == 254,
            IpAddr::V6(s) => 0xfe80 <= s[0] && s[0] <= 0xfebf,
        }
    }

    /// Whether the address is publicly routable.
    #[verifier::when_used_as_spec(is_global_spec)]
    pub fn is_global(&self) -> (r: bool)
        ensures
            r == self.is_global_spec(),
    {
        !self.is_private() && !self.is_loopback() && !self.is_link_local()
    }

    /// Whether two addresses are the same address of the same family.
    pub fn same(&self, other: &IpAddr) -> (r: bool)
        ensures
            r == (*self == *other),
    {
        match (self, other) {
            (IpAddr::V4(a), IpAddr::V4(b)) => same_v4(a, b),
            (IpAddr::V6(a), IpAddr::V6(b)) => same_v6(a, b),
            _ => false,
        }
    }

    /// The canonical text of the address.
    pub fn to_string(&self) -> (s: String)
        ensures
            s@ == self.text(),
    {
        let mut out = String::new();
        match self {
            IpAddr::V4(o) => {
                push_ipv4(&mut out, o);
                assert(out@ =~= ipv4_text(o@));
            },
            IpAddr::V6(s) => {
                if s[0] == 0 && s[1] == 0 && s[2] == 0 && s[3] == 0 && s[4] == 0 && s[5]
                    == 0xffff {
                    let octets: [u8; 4] = [
                        (s[6] / 256) as u8,
                        (s[6] % 256) as u8,
                        (s[7] / 256) as u8,
                        (s[7] % 256) as u8,
                    ];
                    out.append("::ffff:");
                    proof {
                        reveal_strlit("::ffff:");
                        assert("::ffff:"@ =~= seq![':', ':', 'f', 'f', 'f', 'f', ':']);
                        assert(octets@ =~= v6_mapped_octets(s@));
                    }
                    push_ipv4(&mut out, &octets);
                    assert(out@ =~= ipv6_text(s@));
                } else {
                    let (start, len) = longest_zero_run(s);
                    if len >= 2 {
                        proof {
                            let run = choose|run: (int, int)|
                                run.1 >= 2 && is_longest_zero_run(s@, run.0, run.1);
                            lemma_longest_zero_run_unique(
                                s@,
                                start as int,
                                len as int,
                                run.0,
                                run.1,
                            );
                            assert(compressed_run(s@) == Some((start as int, len as int)));
                        }
                        push_groups(&mut out, s, 0, start);
                        out.append("::");
                        push_groups(&mut out, s, start + len, 8);
                        proof {
                            reveal_strlit("::");
                            assert("::"@ =~= seq![':', ':']);
                            assert(s@.subrange(0, start as int) =~= s@.take(start as int));
                            assert(s@.subrange(start + len, 8) =~= s@.skip(start + len));
                            assert(out@ =~= ipv6_text(s@));
                        }
                    } else {
                        proof {
                            if exists|a: int, l: int| l >= 2 && is_longest_zero_run(s@, a, l) {
                                let (a, l) = choose|a: int, l: int|
                                    l >= 2 && is_longest_zero_run(s@, a, l);
                                lemma_longest_zero_run_unique(s@, a, l, start as int, len as int);
                            }
                            assert(compressed_run(s@) is None);
                        }
                        push_groups(&mut out, s, 0, 8);
                        proof {
                            assert(s@.subrange(0, 8) =~= s@);
                            assert(out@ =~= ipv6_text(s@));
                        }
                    }
                }
            },
        }
        out
    }
}

/// Whether two IPv4 addresses are the same.
pub fn same_v4(a: &[u8; 4], b: &[u8; 4]) -> (r: bool)
    ensures
        r == (*a == *b),
{
    let r = a[0] == b[0] && a[1] == b[1] && a[2] == b[2] && a[3] == b[3];
    proof {
        if r {
            assert(*a =~= *b);
        }
    }
    r
}

/// Whether two IPv6 addresses are the same.
pub fn same_v6(a: &[u16; 8], b: &[u16; 8]) -> (r: bool)
    ensures
        r == (*a == *b),
{
    let r = a[0] == b[0] && a[1] == b[1] && a[2] == b[2] && a[3] == b[3] && a[4] == b[4] && a[5]
        == b[5] && a[6] == b[6] && a[7] == b[7];
    proof {
        if r {
            assert(*a =~= *b);
        }
    }
    r
}

} // verus!
