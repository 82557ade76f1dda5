//! The classifier: reads the identity of a flow out of an ingress frame and
//! records it in the shared maps. Whatever the frame holds, it is passed on.

use vstd::prelude::*;
use vstd::string::StringExecFns;
use crate::addr::{
    ipv4_at, ipv4_from_be, ipv6_at, ipv6_from_be, port_from_be, u16_from_be_spec, IpAddr,
};
use crate::headers::{
    eth_hdr_len, ether_type_of, ether_type_spec, ip_proto_spec, ipv4_hdr_len, ipv4_proto_of,
    ipv6_hdr_len, ipv6_next_hdr_of, tcp_hdr_len, udp_hdr_len, xdp_pass, IpProto, ETH_HDR_LEN,
    IPV4_HDR_LEN, IPV6_HDR_LEN, TCP_HDR_LEN, UDP_HDR_LEN, XDP_PASS,
};
use crate::proto::{L3Proto, L4Proto};
use crate::table::{
    entries_within, has_key, inserted, BoundedFlowTable, FlowAddress, SharedMaps,
};

verus! {

/// Where the EtherType stands in an Ethernet header.
pub const ETHER_TYPE_OFFSET: usize = 12;

/// Where the protocol number stands in an IPv4 header.
pub const IPV4_PROTO_OFFSET: usize = 9;

/// Where the source address stands in an IPv4 header.
pub const IPV4_SRC_OFFSET: usize = 12;

/// Where the next-header number stands in an IPv6 header.
pub const IPV6_NEXT_HDR_OFFSET: usize = 6;

/// Where the source address stands in an IPv6 header.
pub const IPV6_SRC_OFFSET: usize = 8;

/// Where the destination port stands in a TCP or UDP header.
pub const DEST_PORT_OFFSET: usize = 2;

/// One of the four flow tables.
#[derive(PartialEq, Eq, Structural, Clone, Copy, Debug)]
pub enum TableId {
    TcpV4,
    UdpV4,
    TcpV6,
    UdpV6,
}

impl TableId {
    /// The network protocol of the flows in the table.
    pub open spec fn l3_proto_spec(&self) -> L3Proto {
        match *self {
            TableId::TcpV4 | TableId::UdpV4 => L3Proto::Ipv4,
            TableId::TcpV6 | TableId::UdpV6 => L3Proto::Ipv6,
        }
    }

    /// The transport protocol of the flows in the table, with a port.
    pub open spec fn l4_proto_spec(&self, port: u16) -> L4Proto {
        match *self {
            TableId::TcpV4 | TableId::TcpV6 => L4Proto::Tcp(port),
            TableId::UdpV4 | TableId::UdpV6 => L4Proto::Udp(port),
        }
    }

    /// The network protocol of the flows in the table.
    #[verifier::when_used_as_spec(l3_proto_spec)]
    pub fn l3_proto(&self) -> (l3_proto: L3Proto)
        ensures
            l3_proto == self.l3_proto_spec(),
    {
        match self {
            TableId::TcpV4 | TableId::UdpV4 => L3Proto::Ipv4,
            TableId::TcpV6 | TableId::UdpV6 => L3Proto::Ipv6,
        }
    }

    /// The transport protocol of the flows in the table, with a port.
    #[verifier::when_used_as_spec(l4_proto_spec)]
    pub fn l4_proto(&self, port: u16) -> (l4_proto: L4Proto)
        ensures
            l4_proto == self.l4_proto_spec(port),
    {
        match self {
            TableId::TcpV4 | TableId::TcpV6 => L4Proto::Tcp(port),
            TableId::UdpV4 | TableId::UdpV6 => L4Proto::Udp(port),
        }
    }
}

/// Why a frame was not counted. None of these changes what happens to the
/// frame.
#[derive(PartialEq, Eq, Structural, Clone, Copy, Debug)]
pub enum ClassifyError {
    /// The frame ends before a header that has to be read.
    OutOfBounds,
    /// The IP header names a transport protocol other than TCP and UDP.
    UnsupportedTransport,
    /// The table is full and does not hold the source address.
    InsertFailed(TableId),
}

impl ClassifyError {
    /// The message of the error.
    pub open spec fn message_spec(&self) -> Seq<char> {
        match *self {
            ClassifyError::OutOfBounds => "out of bounds access"@,
            ClassifyError::UnsupportedTransport => "only TCP and UDP are supported"@,
            ClassifyError::InsertFailed(TableId::TcpV4) => "failed to insert into TCP_IP_V4"@,
            ClassifyError::InsertFailed(TableId::UdpV4) => "failed to insert into UDP_IP_V4"@,
            ClassifyError::InsertFailed(TableId::TcpV6) => "failed to insert into TCP_IP_V6"@,
            ClassifyError::InsertFailed(TableId::UdpV6) => "failed to insert into UDP_IP_V6"@,
        }
    }

    /// The message of the error.
    pub fn message(&self) -> (s: String)
        ensures
            s@ == self.message_spec(),
    {
        match self {
            ClassifyError::OutOfBounds => String::from_str("out of bounds access"),
            ClassifyError::UnsupportedTransport => String::from_str(
                "only TCP and UDP are supported",
            ),
            ClassifyError::InsertFailed(TableId::TcpV4) => String::from_str(
                "failed to insert into TCP_IP_V4",
            ),
            ClassifyError::InsertFailed(TableId::UdpV4) => String::from_str(
                "failed to insert into UDP_IP_V4",
            ),
            ClassifyError::InsertFailed(TableId::TcpV6) => String::from_str(
                "failed to insert into TCP_IP_V6",
            ),
            ClassifyError::InsertFailed(TableId::UdpV6) => String::from_str(
                "failed to insert into UDP_IP_V6",
            ),
        }
    }
}

// ---------------------------------------------------------------------------
// What a frame says
// ---------------------------------------------------------------------------

/// Whether `len` bytes at `offset` lie within a frame of `frame_len` bytes.
pub open spec fn in_bounds(frame_len: nat, offset: nat, len: nat) -> bool {
    offset + len <= frame_len
}

/// The destination port of the transport header at `at`, in host order.
pub open spec fn dest_port_at(frame: Seq<u8>, at: int) -> u16 {
    u16_from_be_spec(frame[at + DEST_PORT_OFFSET], frame[at + DEST_PORT_OFFSET + 1])
}

/// The size of the fixed header of a counted transport protocol.
pub open spec fn transport_hdr_len(proto: IpProto) -> nat {
    match proto {
        IpProto::Tcp => TCP_HDR_LEN as nat,
        IpProto::Udp => UDP_HDR_LEN as nat,
        IpProto::Other => 0,
    }
}

/// The tag of a counted transport protocol with a destination port.
pub open spec fn l4_of(proto: IpProto, port: u16) -> L4Proto {
    match proto {
        IpProto::Udp => L4Proto::Udp(port),
        _ => L4Proto::Tcp(port),
    }
}

/// The identity of a flow: the source address, which fixes the network
/// protocol, and the transport protocol with the destination port, all in
/// host order.
#[derive(Clone, Copy, Debug)]
pub struct FlowKey {
    pub ip: IpAddr,
    pub l4_proto: L4Proto,
}

/// What the IPv4 header behind the Ethernet header and the transport
/// header behind it say: the flow, or the reason for which they cannot be
/// read.
///
/// The transport header is taken to stand right behind the fixed IPv4
/// header: options are not walked.
pub open spec fn parse_ipv4_spec(frame: Seq<u8>) -> Result<FlowKey, ClassifyError> {
    let l4_at = ETH_HDR_LEN + IPV4_HDR_LEN;
    let proto = ip_proto_spec(frame[ETH_HDR_LEN + IPV4_PROTO_OFFSET]);
    if !in_bounds(frame.len(), ETH_HDR_LEN as nat, IPV4_HDR_LEN as nat) {
        Err(ClassifyError::OutOfBounds)
    } else if proto == IpProto::Other {
        Err(ClassifyError::UnsupportedTransport)
    } else if !in_bounds(frame.len(), l4_at as nat, transport_hdr_len(proto)) {
        Err(ClassifyError::OutOfBounds)
    } else {
        Ok(
            FlowKey {
                ip: IpAddr::V4(ipv4_at(frame, ETH_HDR_LEN + IPV4_SRC_OFFSET)),
                l4_proto: l4_of(proto, dest_port_at(frame, l4_at)),
            },
        )
    }
}

/// What the IPv6 header behind the Ethernet header and the transport
/// header behind it say: the flow, or the reason for which they cannot be
/// read.
///
/// The transport header is taken to stand right behind the fixed IPv6
/// header: extension headers are not walked.
pub open spec fn parse_ipv6_spec(frame: Seq<u8>) -> Result<FlowKey, ClassifyError> {
    let l4_at = ETH_HDR_LEN + IPV6_HDR_LEN;
    let proto = ip_proto_spec(frame[ETH_HDR_LEN + IPV6_NEXT_HDR_OFFSET]);
    if !in_bounds(frame.len(), ETH_HDR_LEN as nat, IPV6_HDR_LEN as nat) {
        Err(ClassifyError::OutOfBounds)
    } else if proto == IpProto::Other {
        Err(ClassifyError::UnsupportedTransport)
    } else if !in_bounds(frame.len(), l4_at as nat, transport_hdr_len(proto)) {
        Err(ClassifyError::OutOfBounds)
    } else {
        Ok(
            FlowKey {
                ip: IpAddr::V6(ipv6_at(frame, ETH_HDR_LEN + IPV6_SRC_OFFSET)),
                l4_proto: l4_of(proto, dest_port_at(frame, l4_at)),
            },
        )
    }
}

/// What a frame says: the flow that it belongs to, nothing where it is no IP
/// frame, or the reason for which it cannot be read.
pub open spec fn parse_frame_spec(frame: Seq<u8>) -> Result<Option<FlowKey>, ClassifyError> {
    if !in_bounds(frame.len(), 0, ETH_HDR_LEN as nat) {
        Err(ClassifyError::OutOfBounds)
    } else {
        match ether_type_spec(frame.subrange(ETHER_TYPE_OFFSET as int, ETHER_TYPE_OFFSET + 2)) {
            None => Ok(None),
            Some(L3Proto::Ipv4) => match parse_ipv4_spec(frame) {
                Ok(key) => Ok(Some(key)),
                Err(e) => Err(e),
            },
            Some(L3Proto::Ipv6) => match parse_ipv6_spec(frame) {
                Ok(key) => Ok(Some(key)),
                Err(e) => Err(e),
            },
        }
    }
}

// ---------------------------------------------------------------------------
// What recording a flow does to the maps
// ---------------------------------------------------------------------------

/// The table that flows of the given protocols are recorded in.
pub open spec fn table_of(network: L3Proto, l4_proto: L4Proto) -> TableId {
    match (network, l4_proto) {
        (L3Proto::Ipv4, L4Proto::Tcp(_)) => TableId::TcpV4,
        (L3Proto::Ipv4, L4Proto::Udp(_)) => TableId::UdpV4,
        (L3Proto::Ipv6, L4Proto::Tcp(_)) => TableId::TcpV6,
        (L3Proto::Ipv6, L4Proto::Udp(_)) => TableId::UdpV6,
    }
}

/// One table after the insertion of an address with its port.
pub open spec fn table_inserted<K>(
    before: BoundedFlowTable<K>,
    after: BoundedFlowTable<K>,
    ip: K,
    port: u16,
) -> bool {
    &&& after.capacity() == before.capacity()
    &&& after.entries() == inserted(before.entries(), before.capacity(), ip, port)
}

/// The maps after a flow was recorded. Where the filter is on and does not
/// hold the destination port, nothing changes. Otherwise the source address
/// is inserted with the port into the table of the flow's protocols, and
/// nothing else changes.
pub open spec fn recorded(before: SharedMaps, after: SharedMaps, key: FlowKey) -> bool {
    let port = key.l4_proto.port_spec();
    if !before.admits(port) {
        after == before
    } else {
        match (key.ip, key.l4_proto) {
            (IpAddr::V4(ip), L4Proto::Tcp(_)) => {
                &&& after == (SharedMaps { tcp_v4: after.tcp_v4, ..before })
                &&& table_inserted(before.tcp_v4, after.tcp_v4, ip, port)
            },
            (IpAddr::V4(ip), L4Proto::Udp(_)) => {
                &&& after == (SharedMaps { udp_v4: after.udp_v4, ..before })
                &&& table_inserted(before.udp_v4, after.udp_v4, ip, port)
            },
            (IpAddr::V6(ip), L4Proto::Tcp(_)) => {
                &&& after == (SharedMaps { tcp_v6: after.tcp_v6, ..before })
                &&& table_inserted(before.tcp_v6, after.tcp_v6, ip, port)
            },
            (IpAddr::V6(ip), L4Proto::Udp(_)) => {
                &&& after == (SharedMaps { udp_v6: after.udp_v6, ..before })
                &&& table_inserted(before.udp_v6, after.udp_v6, ip, port)
            },
        }
    }
}

/// Whether a table refuses an address: it is full and does not hold it.
pub open spec fn table_refuses<K>(table: BoundedFlowTable<K>, ip: K) -> bool {
    !has_key(table.entries(), ip) && table.entries().len() >= table.capacity()
}

/// What recording a flow reports: a failure where the filter lets the
/// destination port through and the table of the flow's protocols refuses
/// the source address, and success otherwise.
pub open spec fn record_outcome(before: SharedMaps, key: FlowKey) -> Result<(), ClassifyError> {
    let refused = match (key.ip, key.l4_proto) {
        (IpAddr::V4(ip), L4Proto::Tcp(_)) => table_refuses(before.tcp_v4, ip),
        (IpAddr::V4(ip), L4Proto::Udp(_)) => table_refuses(before.udp_v4, ip),
        (IpAddr::V6(ip), L4Proto::Tcp(_)) => table_refuses(before.tcp_v6, ip),
        (IpAddr::V6(ip), L4Proto::Udp(_)) => table_refuses(before.udp_v6, ip),
    };
    if before.admits(key.l4_proto.port_spec()) && refused {
        Err(ClassifyError::InsertFailed(table_of(key.ip.network_spec(), key.l4_proto)))
    } else {
        Ok(())
    }
}

/// The maps after a frame was classified: a frame that names a flow has the
/// flow recorded, any other leaves the maps as they are.
pub open spec fn classified(before: SharedMaps, after: SharedMaps, frame: Seq<u8>) -> bool {
    match parse_frame_spec(frame) {
        Ok(Some(key)) => recorded(before, after, key),
        _ => after == before,
    }
}

/// What classifying a frame reports.
pub open spec fn classify_outcome(before: SharedMaps, frame: Seq<u8>) -> Result<
    (),
    ClassifyError,
> {
    match parse_frame_spec(frame) {
        Err(e) => Err(e),
        Ok(None) => Ok(()),
        Ok(Some(key)) => record_outcome(before, key),
    }
}

/// While the filter is on, a frame whose destination port the filter does
/// not hold leaves every table as it is.
pub proof fn lemma_filtered_port_not_inserted(before: SharedMaps, after: SharedMaps, frame: Seq<u8>)
    requires
        classified(before, after, frame),
        before.use_custom_ports,
        parse_frame_spec(frame) matches Ok(Some(key)) && !before.custom_ports@.contains(
            key.l4_proto.port_spec(),
        ),
    ensures
        after == before,
{
}

/// The classifier keeps the tables within the filter: where every entry
/// was on a port that the filter holds, so is every entry after a frame,
/// whatever the frame.
pub proof fn lemma_classified_respects_filter(
    before: SharedMaps,
    after: SharedMaps,
    frame: Seq<u8>,
)
    requires
        classified(before, after, frame),
        before.respects_filter(),
    ensures
        after.respects_filter(),
{
    if before.use_custom_ports {
        match parse_frame_spec(frame) {
            Ok(Some(key)) => {
                let port = key.l4_proto.port_spec();
                if before.admits(port) {
                    match (key.ip, key.l4_proto) {
                        (IpAddr::V4(ip), L4Proto::Tcp(_)) => {
                            lemma_inserted_within(
                                before.tcp_v4.entries(),
                                before.tcp_v4.capacity(),
                                ip,
                                port,
                                before.custom_ports@,
                            );
                        },
                        (IpAddr::V4(ip), L4Proto::Udp(_)) => {
                            lemma_inserted_within(
                                before.udp_v4.entries(),
                                before.udp_v4.capacity(),
                                ip,
                                port,
                                before.custom_ports@,
                            );
                        },
                        (IpAddr::V6(ip), L4Proto::Tcp(_)) => {
                            lemma_inserted_within(
                                before.tcp_v6.entries(),
                                before.tcp_v6.capacity(),
                                ip,
                                port,
                                before.custom_ports@,
                            );
                        },
                        (IpAddr::V6(ip), L4Proto::Udp(_)) => {
                            lemma_inserted_within(
                                before.udp_v6.entries(),
                                before.udp_v6.capacity(),
                                ip,
                                port,
                                before.custom_ports@,
                            );
                        },
                    }
                }
            },
            _ => {},
        }
    }
}

/// An insertion on one of the ports keeps the entries on the ports.
proof fn lemma_inserted_within<K>(
    entries: Seq<(K, u16)>,
    capacity: nat,
    key: K,
    port: u16,
    ports: Set<u16>,
)
    requires
        entries_within(entries, ports),
        ports.contains(port),
    ensures
        entries_within(inserted(entries, capacity, key, port), ports),
{
    let after = inserted(entries, capacity, key, port);
    assert forall|i: int| 0 <= i < after.len() implies ports.contains((#[trigger] after[i]).1) by {
        if i < entries.len() {
            assert(ports.contains(entries[i].1));
        }
    }
}

/// A frame changes at most the table of its own protocols, and there adds
/// at most the one entry of its source address: the filter, the capacities
/// and the other tables stay as they are.
pub proof fn lemma_classified_frame(before: SharedMaps, after: SharedMaps, frame: Seq<u8>)
    requires
        classified(before, after, frame),
    ensures
        after.use_custom_ports == before.use_custom_ports,
        after.custom_ports == before.custom_ports,
        after.tcp_v4.capacity() == before.tcp_v4.capacity(),
        after.udp_v4.capacity() == before.udp_v4.capacity(),
        after.tcp_v6.capacity() == before.tcp_v6.capacity(),
        after.udp_v6.capacity() == before.udp_v6.capacity(),
        before.tcp_v4.entries().len() <= after.tcp_v4.entries().len() <= before.tcp_v4.entries().len()
            + 1,
        before.udp_v4.entries().len() <= after.udp_v4.entries().len() <= before.udp_v4.entries().len()
            + 1,
        before.tcp_v6.entries().len() <= after.tcp_v6.entries().len() <= before.tcp_v6.entries().len()
            + 1,
        before.udp_v6.entries().len() <= after.udp_v6.entries().len() <= before.udp_v6.entries().len()
            + 1,
{
}

// ---------------------------------------------------------------------------
// The classifier
// ---------------------------------------------------------------------------

/// Checks that `len` bytes at `offset` lie within the frame, and gives the
/// offset back.
pub fn ptr_at(frame: &[u8], offset: usize, len: usize) -> (r: Result<usize, ClassifyError>)
    ensures
        r == if in_bounds(frame@.len(), offset as nat, len as nat) {
            Ok::<usize, ClassifyError>(offset)
        } else {
            Err(ClassifyError::OutOfBounds)
        },
{
    if len > frame.len() || offset > frame.len() - len {
        Err(ClassifyError::OutOfBounds)
    } else {
        Ok(offset)
    }
}

/// Inserts an address with its port into one table, unless the table holds
/// the address already, and names the table where it refuses.
fn insert_flow<K: FlowAddress>(
    table: &mut BoundedFlowTable<K>,
    ip: &K,
    port: &u16,
    id: TableId,
) -> (r: Result<(), ClassifyError>)
    requires
        old(table).wf(),
    ensures
        final(table).wf(),
        table_inserted(*old(table), *final(table), *ip, *port),
        r == if table_refuses(*old(table), *ip) {
            Err::<(), ClassifyError>(ClassifyError::InsertFailed(id))
        } else {
            Ok(())
        },
{
    if table.get(ip).is_none() {
        match table.insert(ip, port) {
            Ok(_) => {},
            Err(_) => {
                return Err(ClassifyError::InsertFailed(id));
            },
        }
    }
    Ok(())
}

/// Records a flow over IPv4, given its transport protocol and its source
/// address and destination port as they stand in the frame. A protocol
/// that is not counted changes nothing.
pub fn add_v4(maps: &mut SharedMaps, ip_proto: IpProto, ip: &[u8; 4], port: &[u8; 2]) -> (r:
    Result<(), ClassifyError>)
    requires
        old(maps).wf(),
    ensures
        final(maps).wf(),
        ip_proto == IpProto::Other ==> *final(maps) == *old(maps) && r is Ok,
        ip_proto != IpProto::Other ==> ({
            let key = FlowKey {
                ip: IpAddr::V4(*ip),
                l4_proto: l4_of(ip_proto, u16_from_be_spec(port@[0], port@[1])),
            };
            recorded(*old(maps), *final(maps), key) && r == record_outcome(*old(maps), key)
        }),
{
    // The address and the port leave wire order here.
    let ip = ipv4_from_be(ip);
    let port = port_from_be(port);
    if maps.use_custom_ports && !maps.custom_ports.contains(port) {
        return Ok(());
    }
    match ip_proto {
        IpProto::Tcp => insert_flow(&mut maps.tcp_v4, &ip, &port, TableId::TcpV4),
        IpProto::Udp => insert_flow(&mut maps.udp_v4, &ip, &port, TableId::UdpV4),
        IpProto::Other => Ok(()),
    }
}

/// Records a flow over IPv6, given its transport protocol and its source
/// address and destination port as they stand in the frame. A protocol
/// that is not counted changes nothing.
pub fn add_v6(maps: &mut SharedMaps, ip_proto: IpProto, ip: &[u8; 16], port: &[u8; 2]) -> (r:
    Result<(), ClassifyError>)
    requires
        old(maps).wf(),
    ensures
        final(maps).wf(),
        ip_proto == IpProto::Other ==> *final(maps) == *old(maps) && r is Ok,
        ip_proto != IpProto::Other ==> ({
            let key = FlowKey {
                ip: IpAddr::V6(ipv6_at(ip@, 0)),
                l4_proto: l4_of(ip_proto, u16_from_be_spec(port@[0], port@[1])),
            };
            recorded(*old(maps), *final(maps), key) && r == record_outcome(*old(maps), key)
        }),
{
    // The address and the port leave wire order here.
    let ip_host = ipv6_from_be(ip);
    let port = port_from_be(port);
    if maps.use_custom_ports && !maps.custom_ports.contains(port) {
        return Ok(());
    }
    match ip_proto {
        IpProto::Tcp => insert_flow(&mut maps.tcp_v6, &ip_host, &port, TableId::TcpV6),
        IpProto::Udp => insert_flow(&mut maps.udp_v6, &ip_host, &port, TableId::UdpV6),
        IpProto::Other => Ok(()),
    }
}

/// The two bytes of the destination port in the transport header at
/// `l4_at`, once the header is known to lie within the frame.
fn dest_port_bytes(frame: &[u8], l4_at: usize, proto: IpProto) -> (r: Result<
    [u8; 2],
    ClassifyError,
>)
    requires
        proto != IpProto::Other,
        l4_at <= ETH_HDR_LEN + IPV6_HDR_LEN,
    ensures
        r is Ok <==> in_bounds(frame@.len(), l4_at as nat, transport_hdr_len(proto)),
        r matches Ok(bytes) ==> bytes@ == seq![
            frame@[l4_at + DEST_PORT_OFFSET],
            frame@[l4_at + DEST_PORT_OFFSET + 1],
        ],
        r matches Err(e) ==> e == ClassifyError::OutOfBounds,
{
    let len = match proto {
        IpProto::Udp => udp_hdr_len(),
        _ => tcp_hdr_len(),
    };
    let at = ptr_at(frame, l4_at, len)?;
    let bytes: [u8; 2] = [frame[at + DEST_PORT_OFFSET], frame[at + DEST_PORT_OFFSET + 1]];
    assert(bytes@ =~= seq![
        frame@[l4_at + DEST_PORT_OFFSET],
        frame@[l4_at + DEST_PORT_OFFSET + 1],
    ]);
    Ok(bytes)
}

/// The transport protocol, the source address and the destination port of
/// the IPv4 header behind the Ethernet header, as they stand in the frame.
fn read_ipv4(frame: &[u8]) -> (r: Result<(IpProto, [u8; 4], [u8; 2]), ClassifyError>)
    ensures
        match parse_ipv4_spec(frame@) {
            Ok(key) => r matches Ok((proto, src, port)) && proto != IpProto::Other && key == (
            FlowKey {
                ip: IpAddr::V4(src),
                l4_proto: l4_of(proto, u16_from_be_spec(port@[0], port@[1])),
            }),
            Err(e) => r == Err::<(IpProto, [u8; 4], [u8; 2]), ClassifyError>(e),
        },
{
    let ip_at = ptr_at(frame, eth_hdr_len(), ipv4_hdr_len())?;
    let source_addr: [u8; 4] = [
        frame[ip_at + IPV4_SRC_OFFSET],
        frame[ip_at + IPV4_SRC_OFFSET + 1],
        frame[ip_at + IPV4_SRC_OFFSET + 2],
        frame[ip_at + IPV4_SRC_OFFSET + 3],
    ];
    assert(source_addr =~= ipv4_at(frame@, ETH_HDR_LEN + IPV4_SRC_OFFSET));
    let proto = ipv4_proto_of(frame[ip_at + IPV4_PROTO_OFFSET]);
    match proto {
        IpProto::Other => Err(ClassifyError::UnsupportedTransport),
        _ => {
            let port = dest_port_bytes(frame, eth_hdr_len() + ipv4_hdr_len(), proto)?;
            Ok((proto, source_addr, port))
        },
    }
}

/// The transport protocol, the source address and the destination port of
/// the IPv6 header behind the Ethernet header, as they stand in the frame.
fn read_ipv6(frame: &[u8]) -> (r: Result<(IpProto, [u8; 16], [u8; 2]), ClassifyError>)
    ensures
        match parse_ipv6_spec(frame@) {
            Ok(key) => r matches Ok((proto, src, port)) && proto != IpProto::Other && key == (
            FlowKey {
                ip: IpAddr::V6(ipv6_at(src@, 0)),
                l4_proto: l4_of(proto, u16_from_be_spec(port@[0], port@[1])),
            }),
            Err(e) => r == Err::<(IpProto, [u8; 16], [u8; 2]), ClassifyError>(e),
        },
{
    let ip_at = ptr_at(frame, eth_hdr_len(), ipv6_hdr_len())?;
    let mut src_addr: [u8; 16] = [0u8; 16];
    let mut i: usize = 0;
    while i < 16
        invariant
            i <= 16,
            ip_at == ETH_HDR_LEN,
            frame@.len() >= ETH_HDR_LEN + IPV6_HDR_LEN,
            forall|j: int| 0 <= j < i ==> src_addr@[j] == frame@[ETH_HDR_LEN + IPV6_SRC_OFFSET + j],
        decreases 16 - i,
    {
        src_addr[i] = frame[ip_at + IPV6_SRC_OFFSET + i];
        i += 1;
    }
    assert(ipv6_at(src_addr@, 0) =~= ipv6_at(frame@, ETH_HDR_LEN + IPV6_SRC_OFFSET));
    let proto = ipv6_next_hdr_of(frame[ip_at + IPV6_NEXT_HDR_OFFSET]);
    match proto {
        IpProto::Other => Err(ClassifyError::UnsupportedTransport),
        _ => {
            let port = dest_port_bytes(frame, eth_hdr_len() + ipv6_hdr_len(), proto)?;
            Ok((proto, src_addr, port))
        },
    }
}

/// The network protocol that the Ethernet header announces, if it is one
/// that is counted.
fn read_ether_type(frame: &[u8]) -> (r: Result<Option<L3Proto>, ClassifyError>)
    ensures
        r == if in_bounds(frame@.len(), 0, ETH_HDR_LEN as nat) {
            Ok::<Option<L3Proto>, ClassifyError>(
                ether_type_spec(
                    frame@.subrange(ETHER_TYPE_OFFSET as int, ETHER_TYPE_OFFSET + 2),
                ),
            )
        } else {
            Err(ClassifyError::OutOfBounds)
        },
{
    let eth_at = ptr_at(frame, 0, eth_hdr_len())?;
    let tag: [u8; 2] = [frame[eth_at + ETHER_TYPE_OFFSET], frame[eth_at + ETHER_TYPE_OFFSET + 1]];
    assert(tag@ =~= frame@.subrange(ETHER_TYPE_OFFSET as int, ETHER_TYPE_OFFSET + 2));
    Ok(ether_type_of(&tag))
}

/// The tag of a counted transport protocol with a destination port.
fn l4_proto_of(proto: IpProto, port: u16) -> (l4_proto: L4Proto)
    ensures
        l4_proto == l4_of(proto, port),
{
    match proto {
        IpProto::Udp => L4Proto::Udp(port),
        _ => L4Proto::Tcp(port),
    }
}

/// Reads a frame: the flow that it belongs to, nothing where it is no IP
/// frame, or the reason for which it cannot be read.
pub fn parse_frame(frame: &[u8]) -> (r: Result<Option<FlowKey>, ClassifyError>)
    ensures
        r == parse_frame_spec(frame@),
{
    match read_ether_type(frame)? {
        Some(L3Proto::Ipv4) => {
            let (proto, src, port) = read_ipv4(frame)?;
            Ok(
                Some(
                    FlowKey {
                        ip: IpAddr::V4(ipv4_from_be(&src)),
                        l4_proto: l4_proto_of(proto, port_from_be(&port)),
                    },
                ),
            )
        },
        Some(L3Proto::Ipv6) => {
            let (proto, src, port) = read_ipv6(frame)?;
            Ok(
                Some(
                    FlowKey {
                        ip: IpAddr::V6(ipv6_from_be(&src)),
                        l4_proto: l4_proto_of(proto, port_from_be(&port)),
                    },
                ),
            )
        },
        None => Ok(None),
    }
}

/// Counts a frame whose Ethernet header announces IPv4.
pub fn count_v4(frame: &[u8], maps: &mut SharedMaps) -> (r: Result<(), ClassifyError>)
    requires
        old(maps).wf(),
    ensures
        final(maps).wf(),
        match parse_ipv4_spec(frame@) {
            Ok(key) => recorded(*old(maps), *final(maps), key) && r == record_outcome(
                *old(maps),
                key,
            ),
            Err(e) => *final(maps) == *old(maps) && r == Err::<(), ClassifyError>(e),
        },
{
    let (proto, source_addr, port) = read_ipv4(frame)?;
    add_v4(maps, proto, &source_addr, &port)
}

/// Counts a frame whose Ethernet header announces IPv6.
pub fn count_v6(frame: &[u8], maps: &mut SharedMaps) -> (r: Result<(), ClassifyError>)
    requires
        old(maps).wf(),
    ensures
        final(maps).wf(),
        match parse_ipv6_spec(frame@) {
            Ok(key) => recorded(*old(maps), *final(maps), key) && r == record_outcome(
                *old(maps),
                key,
            ),
            Err(e) => *final(maps) == *old(maps) && r == Err::<(), ClassifyError>(e),
        },
{
    let (proto, src_addr, port) = read_ipv6(frame)?;
    add_v6(maps, proto, &src_addr, &port)
}

/// Classifies a frame: a frame of IPv4 or IPv6 is counted, any other is
/// left alone.
pub fn try_xdp_ip_counter(frame: &[u8], maps: &mut SharedMaps) -> (r: Result<(), ClassifyError>)
    requires
        old(maps).wf(),
    ensures
        final(maps).wf(),
        classified(*old(maps), *final(maps), frame@),
        r == classify_outcome(*old(maps), frame@),
{
    match read_ether_type(frame)? {
        Some(L3Proto::Ipv4) => count_v4(frame, maps),
        Some(L3Proto::Ipv6) => count_v6(frame, maps),
        None => Ok(()),
    }
}

/// The classifier, run once for each ingress frame. It counts the frame
/// where it can, and passes the frame on whatever happened: no error of
/// the count changes what becomes of the frame.
pub fn xdp_ip_counter(frame: &[u8], maps: &mut SharedMaps) -> (action: u32)
    requires
        old(maps).wf(),
    ensures
        action == XDP_PASS,
        final(maps).wf(),
        classified(*old(maps), *final(maps), frame@),
{
    match try_xdp_ip_counter(frame, maps) {
        Ok(_) => xdp_pass(),
        Err(_) => xdp_pass(),
    }
}

} // verus!
